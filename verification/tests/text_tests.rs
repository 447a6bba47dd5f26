use robinson::scan::{peek, starts_with_at, take_while};
use robinson::text::{chars_of, split_on, str_is, string_of};

#[test]
fn a_string_is_taken_apart_and_put_together() {
    assert_eq!(chars_of(""), Vec::<char>::new());
    assert_eq!(chars_of("aé日"), vec!['a', 'é', '日']);
    let chars = chars_of("hello, world");
    assert_eq!(string_of(&chars, 0, 5), "hello");
    assert_eq!(string_of(&chars, 7, 12), "world");
    assert_eq!(string_of(&chars, 3, 3), "");
    assert_eq!(string_of(&chars, 0, chars.len()), "hello, world");
}

#[test]
fn str_is_compares_character_by_character() {
    assert!(str_is(&"block".to_string(), "block"));
    assert!(!str_is(&"block".to_string(), "Block"));
    assert!(!str_is(&"block".to_string(), "bloc"));
    assert!(!str_is(&"bloc".to_string(), "block"));
    assert!(str_is(&String::new(), ""));
}

#[test]
fn split_on_cuts_at_every_separator() {
    assert_eq!(split_on("a b c", ' '), vec!["a", "b", "c"]);
    assert_eq!(split_on("abc", ' '), vec!["abc"]);
    assert_eq!(split_on("", ' '), vec![""]);
    assert_eq!(split_on(" ", ' '), vec!["", ""]);
    assert_eq!(split_on(" a  b ", ' '), vec!["", "a", "", "b", ""]);
    assert_eq!(split_on("a,b", ','), vec!["a", "b"]);
    assert_eq!(split_on("é é", ' '), vec!["é", "é"]);
    // As the standard library splits.
    for text in ["", " ", "a", " a", "a ", "a b", "a  b", "  ", " a  b c "] {
        let want: Vec<String> = text.split(' ').map(|s| s.to_string()).collect();
        assert_eq!(split_on(text, ' '), want);
    }
}

#[test]
fn peek_reads_one_character() {
    let input = chars_of("xyz");
    assert_eq!(peek(&input, 0), 'x');
    assert_eq!(peek(&input, 2), 'z');
}

#[test]
fn starts_with_at_looks_ahead() {
    let input = chars_of("a</b>");
    assert!(starts_with_at(&input, 1, "</"));
    assert!(starts_with_at(&input, 1, "</b>"));
    assert!(!starts_with_at(&input, 1, "</b>x"));
    assert!(!starts_with_at(&input, 0, "</"));
    assert!(starts_with_at(&input, 5, ""));
    assert!(!starts_with_at(&input, 5, "<"));
    assert!(starts_with_at(&input, 0, ""));
}

#[test]
fn take_while_stops_at_the_first_character_that_fails() {
    let input = chars_of("aab1");
    let mut pos = 0;
    assert_eq!(take_while(&input, &mut pos, |c| c == 'a'), "aa");
    assert_eq!(pos, 2);
    assert_eq!(take_while(&input, &mut pos, |c| c == 'a'), "");
    assert_eq!(pos, 2);
    assert_eq!(take_while(&input, &mut pos, |c| c.is_alphanumeric()), "b1");
    assert_eq!(pos, 4);
    assert_eq!(take_while(&input, &mut pos, |_| true), "");
    assert_eq!(pos, 4);
    let mut beyond = 9;
    assert_eq!(take_while(&input, &mut beyond, |_| true), "");
    assert_eq!(beyond, 9);
}
