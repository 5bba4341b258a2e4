use imstr::data::{Cloned, Data};
use std::rc::Rc;
use std::sync::Arc;

fn check_i32<T: Data<i32>>() {
    let mut number = T::new(16);
    assert_eq!(number.get(), &16);
    if let Some(number) = number.get_mut() {
        *number += 4;
    }
    assert_eq!(number.get(), &20);
    let clone = number.clone();
    assert_eq!(clone.get(), number.get());
}

fn check_string<T: Data<String>>() {
    let mut string = T::new("Hello".into());
    assert_eq!(string.get(), "Hello");
    if let Some(string) = string.get_mut() {
        string.push_str(", World!");
    }
    assert_eq!(string.get(), "Hello, World!");
    let clone = string.clone();
    assert_eq!(clone.get(), string.get());
}

#[test]
fn test_all_i32() {
    check_i32::<Cloned<i32>>();
    check_i32::<Arc<i32>>();
    check_i32::<Rc<i32>>();
    check_i32::<Box<i32>>();

    check_string::<Cloned<String>>();
    check_string::<Arc<String>>();
    check_string::<Rc<String>>();
    check_string::<Box<String>>();
}

#[test]
fn shared_handles_refuse_exclusive_access() {
    let mut first = <Arc<String> as Data<String>>::new("shared".into());
    let second = first.duplicate();
    assert!(first.get_mut().is_none());
    drop(second);
    assert!(first.get_mut().is_some());

    let mut local = <Rc<String> as Data<String>>::new("local".into());
    let other = local.duplicate();
    assert!(local.get_mut().is_none());
    assert_eq!(other.get(), "local");
}

#[test]
fn copying_handles_never_alias() {
    let mut boxed = <Box<String> as Data<String>>::new("box".into());
    let copy = boxed.duplicate();
    boxed.get_mut().unwrap().push('!');
    assert_eq!(boxed.get(), "box!");
    assert_eq!(copy.get(), "box");

    let mut cloned = <Cloned<String> as Data<String>>::new("value".into());
    let copy = cloned.duplicate();
    cloned.get_mut().unwrap().push('!');
    assert_eq!(cloned.get(), "value!");
    assert_eq!(copy.get(), "value");
}
