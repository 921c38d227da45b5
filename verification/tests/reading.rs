use ini_parser::line::{classify_line, Line};
use ini_parser::text::{
    char_is_whitespace, chars_of, count_char, find_char, leading, slice, trailing, CharClass,
};
use ini_parser::{is_key_val, is_section, Parser};

#[test]
fn test_read_from_string() {
    let mut parser = Parser::new();
    let res = parser.read_from_string(String::from("[sec1]\nkey1=val1"));
    assert_eq!(res, Ok(()));
    assert_eq!(parser.contains_section("sec1"), true);
    assert_eq!(parser.contains_key("sec1", "key1"), true);
    assert_eq!(parser.get("sec1", "key1").unwrap(), &String::from("val1"));

    let res = parser.read_from_string(String::from("[sec1]\nss\n"));
    assert_eq!(res, Err("invalid syntax"));
}

#[test]
fn header_before_failing_line_is_kept() {
    let mut parser = Parser::new();
    let res = parser.read_from_string(String::from("[sec1]\nss\n"));
    assert_eq!(res, Err("invalid syntax"));
    assert!(parser.contains_section("sec1"));
    assert_eq!(parser.key_count("sec1"), Some(0));
    assert_eq!(parser.section_count(), 1);
}

#[test]
fn lines_after_a_failure_are_not_read() {
    let mut parser = Parser::new();
    let res = parser.read_from_string(String::from("a=1\n[s]\nb=2\nbroken\nc=3\n[t]\n"));
    assert_eq!(res, Err("invalid syntax"));
    assert_eq!(parser.get("default", "a"), Some(&String::from("1")));
    assert_eq!(parser.get("s", "b"), Some(&String::from("2")));
    assert_eq!(parser.get("s", "c"), None);
    assert!(!parser.contains_section("t"));
    assert_eq!(parser.section_count(), 2);
}

#[test]
fn empty_and_blank_texts_change_nothing() {
    let mut parser = Parser::new();
    assert_eq!(parser.read_from_string(String::from("")), Ok(()));
    assert!(parser.is_empty());
    assert_eq!(parser.read_from_string(String::from("\n")), Ok(()));
    assert!(parser.is_empty());
    assert_eq!(parser.read_from_string(String::from("\n\n  \n\t\r\n \u{a0}\u{3000}\n   ")), Ok(()));
    assert!(parser.is_empty());
    assert!(!parser.contains_section("default"));

    assert_eq!(parser.read_from_string(String::from("[s]\nk=v")), Ok(()));
    assert_eq!(parser.read_from_string(String::from(" \n\n")), Ok(()));
    assert_eq!(parser.section_count(), 1);
    assert_eq!(parser.get("s", "k"), Some(&String::from("v")));
}

#[test]
fn pair_without_header_goes_to_default() {
    let mut parser = Parser::new();
    assert_eq!(parser.read_from_string(String::from("key1=val1")), Ok(()));
    assert_eq!(parser.get("default", "key1"), Some(&String::from("val1")));
    assert_eq!(parser.section_count(), 1);
}

#[test]
fn two_equal_signs_are_a_syntax_error() {
    let mut parser = Parser::new();
    assert_eq!(parser.read_from_string(String::from("a=b=c")), Err("invalid syntax"));
    assert!(parser.is_empty());
    assert_eq!(parser.read_from_string(String::from("a==")), Err("invalid syntax"));
    assert!(parser.is_empty());
}

#[test]
fn nested_brackets_are_all_stripped() {
    let mut parser = Parser::new();
    assert_eq!(parser.read_from_string(String::from("[[sec]]\nk=v")), Ok(()));
    assert!(parser.contains_section("sec"));
    assert!(!parser.contains_section("[sec]"));
    assert_eq!(parser.get("sec", "k"), Some(&String::from("v")));

    let mut other = Parser::new();
    assert_eq!(other.read_from_string(String::from("[[[a]\n[b]]]]\n[c[d]")), Ok(()));
    assert!(other.contains_section("a"));
    assert!(other.contains_section("b"));
    assert!(other.contains_section("c[d"));
    assert_eq!(other.section_count(), 3);
}

#[test]
fn empty_header_is_not_valid() {
    let mut parser = Parser::new();
    assert_eq!(parser.read_from_string(String::from("[]")), Err("not valid"));
    assert_eq!(parser.read_from_string(String::from("[[]]")), Err("not valid"));
    assert_eq!(parser.read_from_string(String::from("[a b]")), Err("not valid"));
    assert_eq!(parser.read_from_string(String::from("[a;b]")), Err("not valid"));
    assert!(parser.is_empty());
}

#[test]
fn header_with_equal_sign_is_a_header() {
    let mut parser = Parser::new();
    assert_eq!(parser.read_from_string(String::from("[a=b]")), Ok(()));
    assert!(parser.contains_section("a=b"));
    assert!(!parser.contains_section("default"));
}

#[test]
fn pairs_are_not_trimmed_inside() {
    let mut parser = Parser::new();
    assert_eq!(parser.read_from_string(String::from("a = b")), Err("not valid"));
    assert_eq!(parser.read_from_string(String::from("a= b")), Err("not valid"));
    assert_eq!(parser.read_from_string(String::from("=b")), Err("not valid"));
    assert_eq!(parser.read_from_string(String::from("a=")), Err("not valid"));
    assert_eq!(parser.read_from_string(String::from("=")), Err("not valid"));
    assert_eq!(parser.read_from_string(String::from("a=b;")), Err("not valid"));
    assert!(parser.is_empty());
    assert_eq!(parser.read_from_string(String::from("  \ta=b \r\n")), Ok(()));
    assert_eq!(parser.get("default", "a"), Some(&String::from("b")));
}

#[test]
fn carriage_returns_and_surrounding_space_are_trimmed() {
    let mut parser = Parser::new();
    let text = "  [one]  \r\n\tk1=v1\r\n\r\n[two]\r\nk2=v2\r\n";
    assert_eq!(parser.read_from_string(String::from(text)), Ok(()));
    assert_eq!(parser.get("one", "k1"), Some(&String::from("v1")));
    assert_eq!(parser.get("two", "k2"), Some(&String::from("v2")));
    assert_eq!(parser.section_count(), 2);
    assert_eq!(parser.key_count("one"), Some(1));
}

#[test]
fn letters_beyond_ascii_are_kept() {
    let mut parser = Parser::new();
    let text = "\u{2003}[s\u{e9}c]\u{a0}\nkl\u{e9}=w\u{e4}rt\u{1F600}\n";
    assert_eq!(parser.read_from_string(String::from(text)), Ok(()));
    assert!(parser.contains_section("s\u{e9}c"));
    assert_eq!(parser.get("s\u{e9}c", "kl\u{e9}"), Some(&String::from("w\u{e4}rt\u{1F600}")));
}

#[test]
fn each_reading_starts_in_default() {
    let mut parser = Parser::new();
    assert_eq!(parser.read_from_string(String::from("[s]\na=1")), Ok(()));
    assert_eq!(parser.read_from_string(String::from("b=2")), Ok(()));
    assert_eq!(parser.get("s", "a"), Some(&String::from("1")));
    assert_eq!(parser.get("default", "b"), Some(&String::from("2")));
    assert_eq!(parser.get("s", "b"), None);
    assert_eq!(parser.section_count(), 2);
}

#[test]
fn repeated_header_empties_the_section() {
    let mut parser = Parser::new();
    assert_eq!(parser.read_from_string(String::from("[s]\na=1\n[t]\nb=2\n[s]\nc=3")), Ok(()));
    assert_eq!(parser.get("s", "a"), None);
    assert_eq!(parser.get("s", "c"), Some(&String::from("3")));
    assert_eq!(parser.get("t", "b"), Some(&String::from("2")));
    assert_eq!(parser.key_count("s"), Some(1));
}

#[test]
fn later_pair_overwrites_earlier_one() {
    let mut parser = Parser::new();
    assert_eq!(parser.read_from_string(String::from("k=v1\nj=w\nk=v2")), Ok(()));
    assert_eq!(parser.get("default", "k"), Some(&String::from("v2")));
    assert_eq!(parser.get("default", "j"), Some(&String::from("w")));
    assert_eq!(parser.key_count("default"), Some(2));
}

#[test]
fn lone_carriage_return_does_not_end_a_line() {
    let mut parser = Parser::new();
    assert_eq!(parser.read_from_string(String::from("a=1\rb=2")), Err("invalid syntax"));
    assert!(parser.is_empty());
}

#[test]
fn header_and_pair_shapes() {
    assert!(is_section("[sec1]"));
    assert!(is_section("[]"));
    assert!(is_section("[[x]]"));
    assert!(!is_section("["));
    assert!(!is_section("]"));
    assert!(!is_section(""));
    assert!(!is_section("[sec1] "));
    assert!(!is_section("sec1]"));
    assert!(is_key_val("a=b"));
    assert!(is_key_val("="));
    assert!(is_key_val("\u{e9}=\u{e9}"));
    assert!(!is_key_val("a=b=c"));
    assert!(!is_key_val("ab"));
    assert!(!is_key_val(""));
}

#[test]
fn lines_are_classified() {
    assert!(matches!(classify_line(""), Line::Blank));
    assert!(matches!(classify_line(" \t\r"), Line::Blank));
    assert!(matches!(classify_line("ss"), Line::Malformed));
    assert!(matches!(classify_line("a=b=c"), Line::Malformed));
    assert!(matches!(classify_line("[x"), Line::Malformed));
    match classify_line("  [[sec]]  ") {
        Line::Header(name) => assert_eq!(name, "sec"),
        other => panic!("{:?}", other),
    }
    match classify_line("[]") {
        Line::Header(name) => assert_eq!(name, ""),
        other => panic!("{:?}", other),
    }
    match classify_line(" key = value ") {
        Line::Pair(key, value) => {
            assert_eq!(key, "key ");
            assert_eq!(value, " value");
        }
        other => panic!("{:?}", other),
    }
    match classify_line("=") {
        Line::Pair(key, value) => {
            assert_eq!(key, "");
            assert_eq!(value, "");
        }
        other => panic!("{:?}", other),
    }
}

#[test]
fn apply_line_threads_the_current_section() {
    let mut parser = Parser::new();
    let current = parser.apply_line(String::from("default"), " [s] ").unwrap();
    assert_eq!(current, "s");
    let current = parser.apply_line(current, "").unwrap();
    assert_eq!(current, "s");
    let current = parser.apply_line(current, "k=v").unwrap();
    assert_eq!(current, "s");
    assert_eq!(parser.get("s", "k"), Some(&String::from("v")));
    assert_eq!(parser.apply_line(current, "oops"), Err("invalid syntax"));
    assert_eq!(parser.apply_line(String::from("bad name"), "k=v"), Err("not valid"));
    assert_eq!(parser.section_count(), 1);
}

#[test]
fn whitespace_is_what_the_standard_library_says() {
    let mut n: u32 = 0;
    while n <= 0x10ffff {
        if let Some(c) = char::from_u32(n) {
            assert_eq!(char_is_whitespace(c), c.is_whitespace(), "U+{:04X}", n);
        }
        n += 1;
    }
}

#[test]
fn characters_come_out_in_order() {
    assert_eq!(chars_of(""), Vec::<char>::new());
    assert_eq!(chars_of("a\u{e9}\u{1F600}b"), vec!['a', '\u{e9}', '\u{1F600}', 'b']);
}

#[test]
fn parts_are_cut_out_by_character() {
    assert_eq!(slice("hello", true, 1, 3), "el");
    assert_eq!(slice("hello", false, 1, 3), "el");
    assert_eq!(slice("h\u{e9}llo\u{1F600}!", false, 1, 3), "\u{e9}l");
    assert_eq!(slice("h\u{e9}llo\u{1F600}!", false, 5, 7), "\u{1F600}!");
    assert_eq!(slice("abc", true, 3, 3), "");
    assert_eq!(slice("abc", false, 0, 3), "abc");
}

#[test]
fn runs_and_positions_are_found() {
    let chars: Vec<char> = vec![' ', '[', '[', 'a', '=', ']', '=', ']', ']', '\t'];
    assert_eq!(leading(&chars, CharClass::Whitespace), 1);
    assert_eq!(trailing(&chars, CharClass::Whitespace, 1), 9);
    assert_eq!(leading(&chars, CharClass::Opening), 0);
    assert_eq!(trailing(&chars, CharClass::Closing, 3), 10);
    assert_eq!(trailing(&vec![']', ']'], CharClass::Closing, 0), 0);
    assert_eq!(trailing(&vec![']', ']'], CharClass::Closing, 1), 1);
    assert_eq!(leading(&vec!['[', '['], CharClass::Opening), 2);
    assert_eq!(find_char(&chars, '=', 0), 4);
    assert_eq!(find_char(&chars, '=', 5), 6);
    assert_eq!(find_char(&chars, '=', 7), 10);
    assert_eq!(count_char(&chars, '='), 2);
    assert_eq!(count_char(&chars, 'x'), 0);
    assert_eq!(count_char(&chars, ']'), 3);
}
