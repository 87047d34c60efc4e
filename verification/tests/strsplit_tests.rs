use rustbits::strsplit::{until_char, StrSplit};

#[test]
fn until_char_test() {
    assert_eq!(until_char("hello world", &'o'), "hell");
}

#[test]
fn test1() {
    let stack = "1 2 3 ";
    let str_split = StrSplit::new(stack, " ");

    let result: Vec<&str> = str_split.collect();

    assert_eq!(result, vec!["1", "2", "3", ""]);
}

#[test]
fn split_without_delimiter_gives_whole_text_once() {
    let mut s = StrSplit::new("abc", ",");
    assert_eq!(s.next(), Some("abc"));
    assert_eq!(s.next(), None);
}

#[test]
fn split_with_empty_delimiter_gives_nothing() {
    let mut s = StrSplit::new("abc", "");
    assert_eq!(s.next(), None);
}

#[test]
fn split_multichar_delimiter_and_unicode() {
    let result: Vec<&str> = StrSplit::new("aé--bß----c", "--").collect();
    assert_eq!(result, vec!["aé", "bß", "", "c"]);
}

#[test]
fn split_then_join_gives_text_back() {
    let text = "x,,y,z,";
    let pieces: Vec<&str> = StrSplit::new(text, ",").collect();
    assert_eq!(pieces.join(","), text);
    assert!(pieces.iter().all(|p| !p.contains(',')));
    assert!(!pieces.is_empty());
}

#[test]
fn until_char_without_the_char_is_whole_text() {
    assert_eq!(until_char("hello", &'z'), "hello");
    assert_eq!(until_char("", &'z'), "");
}
