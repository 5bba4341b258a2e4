use imstr::ImString;
use std::borrow::Cow;
use std::collections::hash_map::DefaultHasher;
use std::hash::Hash;
use std::str::FromStr;

const EXAMPLE_STRINGS: &[&str] = &["", "text", "abcdef"];

#[test]
fn test_default() {
    let string = ImString::default();
    assert_eq!(string, "");
    assert_eq!(string.len(), 0);
}

#[test]
fn test_new() {
    let string = ImString::new();
    assert_eq!(string, "");
    assert_eq!(string.len(), 0);
}

#[test]
fn can_get_as_bytes() {
    for input in EXAMPLE_STRINGS.into_iter() {
        let string = ImString::from_std_string((*input).into());
        assert_eq!(string.as_bytes(), input.as_bytes());
    }
}

#[test]
fn can_deref() {
    for input in EXAMPLE_STRINGS.into_iter() {
        let string = ImString::from_std_string((*input).into());
        let string_slice: &str = &string;
        assert_eq!(&string_slice, input);
    }
}

#[test]
fn hash() {
    let mut hasher = DefaultHasher::new();
    let string = ImString::from("hello");
    string.hash(&mut hasher);
}

#[test]
fn test_from_utf8() {
    let xs = b"hello".to_vec();
    assert_eq!(ImString::from_utf8(xs).unwrap(), ImString::from("hello"));

    let xs = "à¸¨à¹„à¸—à¸¢ä¸­åViá»‡t Nam".as_bytes().to_vec();
    assert_eq!(
        ImString::from_utf8(xs).unwrap(),
        ImString::from("à¸¨à¹„à¸—à¸¢ä¸­åViá»‡t Nam")
    );

    let xs = b"hello\xFF".to_vec();
    let err = ImString::from_utf8(xs).unwrap_err();
    assert_eq!(err.as_bytes(), b"hello\xff");
    let err_clone = err.clone();
    assert_eq!(err, err_clone);
    assert_eq!(err.into_bytes(), b"hello\xff".to_vec());
    assert_eq!(err_clone.utf8_error().valid_up_to(), 5);
}

#[test]
fn test_push_str() {
    let mut s = ImString::new();
    s.push_str("");
    assert_eq!(s.slice(0..).as_str(), "");
    s.push_str("abc");
    assert_eq!(s.slice(0..).as_str(), "abc");
    s.push_str("à¸›à¸£à¸°à¹€à¸—à¸¨à¹„à¸—à¸¢ä¸­åViá»‡t Nam");
    assert_eq!(s.slice(0..).as_str(), "abcà¸›à¸£à¸°à¹€à¸—à¸¨à¹„à¸—à¸¢ä¸­åViá»‡t Nam");
}

#[test]
fn test_from_str() {
    let owned: Option<ImString> = "string".parse().ok();
    assert_eq!(owned.as_ref().map(|s| &**s), Some("string"));

    let input = "test";
    let string = ImString::from_str(input).unwrap();
    assert_eq!(&string, input);
}

#[test]
fn test_push() {
    let mut data = ImString::from("ประเทศไทย中");
    data.push('华');
    data.push('b'); // 1 byte
    data.push('¢'); // 2 byte
    data.push('€'); // 3 byte
    data.push('𤭢'); // 4 byte
    assert_eq!(&data, "ประเทศไทย中华b¢€𤭢");
}

#[test]
fn string_from_char_iter() {
    let chars = vec!['h', 'e', 'l', 'l', 'o'];
    let string = ImString::from_chars(&chars);
    assert_eq!(&string, "hello");
}

#[test]
fn test_add_assign() {
    let mut s = ImString::new();
    s += "";
    assert_eq!(s.as_str(), "");
    s += "abc";
    assert_eq!(s.as_str(), "abc");
    s += "à¸›à¸£à¸°à¹€à¸—à¸¨à¹„à¸—à¸¢ä¸­åViá»‡t Nam";
    assert_eq!(s.as_str(), "abcà¸›à¸£à¸°à¹€à¸—à¸¨à¹„à¸—à¸¢ä¸­åViá»‡t Nam");
}

#[test]
fn test_from_char() {
    assert_eq!(&ImString::from('a'), "a");
    let s: ImString = 'x'.into();
    assert_eq!(&s, "x");
}

#[test]
fn test_str_concat() {
    let a: ImString = "hello".into();
    let b: ImString = "world".into();
    let s: ImString = format!("{}{}", a.as_str(), b.as_str()).into();
    assert_eq!(s.as_bytes()[9], 'd' as u8);
}

#[test]
fn test_extend_char() {
    let mut a: ImString = "foo".into();
    a.extend_chars(&['b', 'a', 'r']);
    assert_eq!(&a, "foobar");
}

#[test]
fn test_extend_char_ref() {
    let mut a: ImString = "foo".into();
    a.extend_chars(&['b', 'a', 'r']);
    assert_eq!(&a, "foobar");
}

#[test]
fn test_str_clear() {
    let mut s = ImString::from("12345");
    s.clear();
    assert_eq!(s.len(), 0);
    assert_eq!(&s, "");
}

#[test]
fn test_str_add() {
    let a = ImString::from("12345");
    let b = a + "2";
    let b = b + "2";
    assert_eq!(b.len(), 7);
    assert_eq!(&b, "1234522");
}

#[test]
fn insert() {
    let mut s = ImString::from("foobar");
    s.insert(0, 'ệ');
    assert_eq!(s, "ệfoobar");
    s.insert(6, 'ย');
    assert_eq!(s, "ệfooยbar");
}

#[test]
fn insert_str() {
    let mut s = ImString::from("foobar");
    s.insert_str(0, "ệ");
    assert_eq!(s, "ệfoobar");
    s.insert_str(6, "ย");
    assert_eq!(s, "ệfooยbar");
}

#[test]
fn test_from_iterator() {
    let s = ImString::from("à¸¨à¹„à¸—à¸¢ä¸­åViá»‡t Nam");
    let t = "à¸¨à¹„à¸—à¸¢ä¸­å";
    let u = "Viá»‡t Nam";

    let mut chars = s.chars();
    let mut collected = Vec::new();
    while let Some(c) = chars.next() {
        collected.push(c);
    }
    let a = ImString::from_chars(&collected);
    assert_eq!(s, a);

    let mut b: ImString = t.into();
    let u_chars: Vec<char> = u.chars().collect();
    b.extend_chars(&u_chars);
    assert_eq!(s, b);

    let mut c = ImString::new();
    c.extend_strs(&[t, u]);
    assert_eq!(s, c);

    let mut d: ImString = t.into();
    d.extend_strs(&vec![u]);
    assert_eq!(s, d);
}

#[test]
fn test_from_cow_str() {
    assert_eq!(ImString::from(Cow::Borrowed("string")), "string");
    assert_eq!(ImString::from(Cow::Owned(String::from("string"))), "string");
}

#[test]
fn test_split_off_empty() {
    let orig = "Hello, world!";
    let mut split = ImString::from(orig);
    let empty: ImString = split.split_off(orig.len());
    assert!(empty.is_empty());
}

#[test]
fn test_split_off_ascii() {
    let mut ab = ImString::from("ABCD");
    let cd = ab.split_off(2);
    assert_eq!(ab, "AB");
    assert_eq!(cd, "CD");
}

#[test]
fn test_split_off_unicode() {
    let mut nihon = ImString::from("æ—¥æœ¬èª");
    let go = nihon.split_off("æ—¥æœ¬".len());
    assert_eq!(nihon, "æ—¥æœ¬");
    assert_eq!(go, "èª");
}

#[test]
fn test_lines() {
    let input = "data\nline\r\nabc\n\ndef\n";
    let string = ImString::from(input);
    let mut lines = string.lines();
    let mut expected = input.lines();
    while let Some(left) = lines.next() {
        assert_eq!(left, expected.next().unwrap());
    }
    assert_eq!(expected.next(), None);
}
