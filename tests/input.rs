use imstr::data::{Cloned, Data};
use imstr::input::{CompareResult, SplitFailure};
use imstr::string::ImString;
use std::rc::Rc;
use std::sync::Arc;

fn each_storage(input: &str, check: fn(&ImString<Arc<String>>), check_rc: fn(&ImString<Rc<String>>), check_box: fn(&ImString<Box<String>>), check_cloned: fn(&ImString<Cloned<String>>)) {
    check(&ImString::from(input));
    check_rc(&ImString::from(input));
    check_box(&ImString::from(input));
    check_cloned(&ImString::from(input));
}

fn slice_range<S: Data<String> + std::fmt::Debug>(string: &ImString<S>) {
    assert_eq!(string.slice(0..0), "");
    assert_eq!(string.slice(0..4), "this");
    assert_eq!(string.slice(5..7), "is");
    assert_eq!(string.slice(8..12), "some");
    assert_eq!(string.slice(13..19), "string");
}

#[test]
fn test_slice_range() {
    each_storage("this is some string", slice_range, slice_range, slice_range, slice_range);
}

fn slice_range_from<S: Data<String> + std::fmt::Debug>(string: &ImString<S>) {
    assert_eq!(string.slice(0..), "this is some string");
    assert_eq!(string.slice(8..), "some string");
    assert_eq!(string.slice(13..), "string");
    assert_eq!(string.slice(19..), "");
}

#[test]
fn test_slice_range_from() {
    each_storage("this is some string", slice_range_from, slice_range_from, slice_range_from, slice_range_from);
}

fn slice_range_to<S: Data<String> + std::fmt::Debug>(string: &ImString<S>) {
    assert_eq!(string.slice(..0), "");
    assert_eq!(string.slice(..4), "this");
    assert_eq!(string.slice(..7), "this is");
    assert_eq!(string.slice(..12), "this is some");
}

#[test]
fn test_slice_range_to() {
    each_storage("this is some string", slice_range_to, slice_range_to, slice_range_to, slice_range_to);
}

#[test]
fn test_slice_range_full() {
    for input in ["this is some string", "", "string"] {
        let string: imstr::ImString = ImString::from(input);
        assert_eq!(string.slice(..), input);
        let local: ImString<Rc<String>> = ImString::from(input);
        assert_eq!(local.slice(..), input);
        let boxed: ImString<Box<String>> = ImString::from(input);
        assert_eq!(boxed.slice(..), input);
    }
}

fn input_take<S: Data<String> + std::fmt::Debug>(string: &ImString<S>) {
    assert_eq!(string.take(0), "");
    assert_eq!(string.take(4), "this");
    assert_eq!(string.take(19), "this is some string");

    assert_eq!(string.take_split(0).1, "");
    assert_eq!(string.take_split(0).0, "this is some string");

    assert_eq!(string.take_split(4).1, "this");
    assert_eq!(string.take_split(4).0, " is some string");

    assert_eq!(string.take_split(7).1, "this is");
    assert_eq!(string.take_split(7).0, " some string");

    assert_eq!(string.take_split(12).1, "this is some");
    assert_eq!(string.take_split(12).0, " string");

    assert_eq!(string.take_split(19).1, "this is some string");
    assert_eq!(string.take_split(19).0, "");
}

#[test]
fn test_input_take() {
    each_storage("this is some string", input_take, input_take, input_take, input_take);
}

#[test]
fn test_input_length() {
    let string: imstr::ImString = ImString::from("this is some string");
    assert_eq!(string.len(), 19);
    let string: imstr::ImString = ImString::from("");
    assert_eq!(string.len(), 0);
    let string: ImString<Rc<String>> = ImString::from("string");
    assert_eq!(string.len(), 6);
}

fn input_iter_empty<S: Data<String> + std::fmt::Debug>(string: &ImString<S>) {
    assert_eq!(string.char_indices().next(), None);
    assert_eq!(string.chars().next(), None);
    assert_eq!(string.position(|_| true), None);
    assert_eq!(string.slice_index(0), Some(0));
    assert_eq!(string.slice_index(1), None);
}

fn input_iter_uber<S: Data<String> + std::fmt::Debug>(string: &ImString<S>) {
    let mut iter = string.char_indices();
    let mut indices = Vec::new();
    while let Some(item) = iter.next() {
        indices.push(item);
    }
    assert_eq!(indices, &[(0, 'ü'), (2, 'b'), (3, 'e'), (4, 'r')]);
    let mut iter = string.chars();
    let mut chars = Vec::new();
    while let Some(c) = iter.next() {
        chars.push(c);
    }
    assert_eq!(chars, &['ü', 'b', 'e', 'r']);

    assert_eq!(string.position(|_| true), Some(0));
    assert_eq!(string.position(|c| c == 'ü'), Some(0));
    assert_eq!(string.position(|c| c == 'b'), Some(2));
    assert_eq!(string.position(|c| c == 'e'), Some(3));
    assert_eq!(string.position(|c| c == 'r'), Some(4));

    assert_eq!(string.slice_index(0), Some(0));
    assert_eq!(string.slice_index(1), Some(2));
    assert_eq!(string.slice_index(2), Some(3));
    assert_eq!(string.slice_index(3), Some(4));
    assert_eq!(string.slice_index(4), Some(5));
    assert_eq!(string.slice_index(5), None);
}

#[test]
fn test_input_iter() {
    each_storage("", input_iter_empty, input_iter_empty, input_iter_empty, input_iter_empty);
    each_storage("über", input_iter_uber, input_iter_uber, input_iter_uber, input_iter_uber);
}

fn offset_hello<S: Data<String> + std::fmt::Debug>(string: &ImString<S>) {
    assert_eq!(string.offset(string), 0);
    assert_eq!(string.offset(&string.slice(1..5)), 1);
    assert_eq!(string.offset(&string.slice(2..5)), 2);
    assert_eq!(string.offset(&string.slice(3..5)), 3);
    assert_eq!(string.offset(&string.slice(4..5)), 4);
    assert_eq!(string.offset(&string.slice(5..5)), 5);
}

fn offset_empty<S: Data<String> + std::fmt::Debug>(string: &ImString<S>) {
    assert_eq!(string.offset(string), 0);
}

#[test]
fn test_offset() {
    each_storage("", offset_empty, offset_empty, offset_empty, offset_empty);
    each_storage("hello", offset_hello, offset_hello, offset_hello, offset_hello);
}

fn compare_empty<S: Data<String> + std::fmt::Debug>(string: &ImString<S>) {
    assert_eq!(string.compare(""), CompareResult::Matched);
    assert_eq!(string.compare("err"), CompareResult::Incomplete);

    assert_eq!(string.compare_no_case(""), CompareResult::Matched);
    assert_eq!(string.compare_no_case("err"), CompareResult::Incomplete);
}

fn compare_string<S: Data<String> + std::fmt::Debug>(string: &ImString<S>) {
    assert_eq!(string.compare("string"), CompareResult::Matched);
    assert_eq!(string.compare("str"), CompareResult::Matched);
    assert_eq!(string.compare("string0"), CompareResult::Incomplete);
    assert_eq!(string.compare("var"), CompareResult::Error);

    assert_eq!(string.compare_no_case("STRING"), CompareResult::Matched);
    assert_eq!(string.compare_no_case("STR"), CompareResult::Matched);
    assert_eq!(string.compare_no_case("STRING0"), CompareResult::Incomplete);
    assert_eq!(string.compare_no_case("VAR"), CompareResult::Error);
}

#[test]
fn test_compare_str() {
    each_storage("", compare_empty, compare_empty, compare_empty, compare_empty);
    each_storage("string", compare_string, compare_string, compare_string, compare_string);
}

fn compare_bytes_empty<S: Data<String> + std::fmt::Debug>(string: &ImString<S>) {
    assert_eq!(string.compare_bytes(&[]), CompareResult::Matched);
    assert_eq!(string.compare_bytes(&[101, 108]), CompareResult::Incomplete);

    assert_eq!(string.compare_bytes_no_case(&[]), CompareResult::Matched);
    assert_eq!(string.compare_bytes_no_case(&[101, 108]), CompareResult::Incomplete);
}

fn compare_bytes_string<S: Data<String> + std::fmt::Debug>(string: &ImString<S>) {
    assert_eq!(string.compare_bytes(&[115, 116, 114, 105, 110, 103]), CompareResult::Matched);
    assert_eq!(string.compare_bytes(&[115, 116, 114]), CompareResult::Matched);
    assert_eq!(string.compare_bytes(&[115, 116, 114, 105, 110, 103, 100]), CompareResult::Incomplete);
    assert_eq!(string.compare_bytes(&[116, 116, 116]), CompareResult::Error);

    assert_eq!(string.compare_bytes_no_case(&[83, 84, 82, 73, 78, 71]), CompareResult::Matched);
    assert_eq!(string.compare_bytes_no_case(&[83, 84, 82]), CompareResult::Matched);
    assert_eq!(string.compare_bytes_no_case(&[83, 84, 82, 73, 78, 71, 100]), CompareResult::Incomplete);
    assert_eq!(string.compare_bytes_no_case(&[84, 84, 84]), CompareResult::Error);
}

#[test]
fn test_compare_bytes() {
    each_storage("", compare_bytes_empty, compare_bytes_empty, compare_bytes_empty, compare_bytes_empty);
    each_storage("string", compare_bytes_string, compare_bytes_string, compare_bytes_string, compare_bytes_string);
}

#[test]
fn test_as_bytes() {
    let string: imstr::ImString = ImString::from("");
    assert_eq!(string.as_bytes(), &[]);
    let string: ImString<Rc<String>> = ImString::from("hello");
    assert_eq!(string.as_bytes(), &[104, 101, 108, 108, 111]);
    let string: ImString<Box<String>> = ImString::from("über");
    assert_eq!(string.as_bytes(), &[195, 188, 98, 101, 114]);
}

#[test]
fn test_parse_to() {
    let string: imstr::ImString = ImString::from("");
    assert_eq!(string.parse_to::<i64>(), None);
    let string: ImString<Rc<String>> = ImString::from("14");
    assert_eq!(string.parse_to::<i64>(), Some(14));
    let string: ImString<Box<String>> = ImString::from("-9");
    assert_eq!(string.parse_to::<i64>(), Some(-9));
}

#[test]
fn position_of_first_match_after_multibyte_text() {
    let string: imstr::ImString = ImString::from("日本 語");
    assert_eq!(string.position(|c| c == ' '), Some(6));
    assert_eq!(string.position(|c| c == 'x'), None);
    assert_eq!(string.slice_index(2), Some(6));
}

fn take_at_position_empty<S: Data<String> + std::fmt::Debug>(string: &ImString<S>) {
    assert_eq!(string.split_at_position(|_| true).err().unwrap(), SplitFailure::Incomplete);
    assert_eq!(string.split_at_position1(|_| true).err().unwrap(), SplitFailure::Incomplete);

    let result = string.split_at_position_complete(|_| true);
    assert_eq!(result.0, "");
    assert_eq!(result.1, "");

    let result = string.split_at_position1_complete(|_| true).err().unwrap();
    assert_eq!(result, SplitFailure::Empty);
}

fn take_at_position_some_input<S: Data<String> + std::fmt::Debug>(string: &ImString<S>) {
    assert_eq!(string.split_at_position(|c| c == 'x').err().unwrap(), SplitFailure::Incomplete);

    let result = string.split_at_position(|c| c == ' ').unwrap();
    assert_eq!(result.0, " input");
    assert_eq!(result.1, "some");

    assert_eq!(string.split_at_position1(|c| c == 'x').err().unwrap(), SplitFailure::Incomplete);
    let result = string.split_at_position1(|c| c == ' ').unwrap();
    assert_eq!(result.0, " input");
    assert_eq!(result.1, "some");
    assert_eq!(string.split_at_position1(|c| c == 's').err().unwrap(), SplitFailure::Empty);

    let result = string.split_at_position_complete(|_| true);
    assert_eq!(result.0, "some input");
    assert_eq!(result.1, "");

    let result = string.split_at_position_complete(|c| c == ' ');
    assert_eq!(result.0, " input");
    assert_eq!(result.1, "some");

    let result = string.split_at_position_complete(|_| false);
    assert_eq!(result.0, "");
    assert_eq!(result.1, "some input");

    let result = string.split_at_position1_complete(|_| true).err().unwrap();
    assert_eq!(result, SplitFailure::Empty);

    let result = string.split_at_position1_complete(|c| c == ' ').unwrap();
    assert_eq!(result.0, " input");
    assert_eq!(result.1, "some");

    let result = string.split_at_position1_complete(|_| false).unwrap();
    assert_eq!(result.0, "");
    assert_eq!(result.1, "some input");
}

#[test]
fn test_input_take_at_position() {
    each_storage("", take_at_position_empty, take_at_position_empty, take_at_position_empty, take_at_position_empty);
    each_storage("some input", take_at_position_some_input, take_at_position_some_input, take_at_position_some_input, take_at_position_some_input);
}
