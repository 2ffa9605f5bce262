use forth::text::{append_list, append_text, decimal, is_whitespace, parse_int, split_tokens};

#[test]
fn white_space_is_what_std_calls_white_space() {
    let mut c = 0u32;
    while c <= 0x10FFFF {
        if let Some(ch) = char::from_u32(c) {
            assert_eq!(is_whitespace(ch), ch.is_whitespace(), "U+{:04X}", c);
        }
        c += 1;
    }
}

#[test]
fn tokens_are_the_runs_between_white_space() {
    assert_eq!(split_tokens("1 2 +"), vec!["1", "2", "+"]);
    assert_eq!(split_tokens("  1\t2\n+  "), vec!["1", "2", "+"]);
    assert_eq!(split_tokens("one"), vec!["one"]);
    assert_eq!(split_tokens("a\u{3000}b\u{a0}c"), vec!["a", "b", "c"]);
}

#[test]
fn a_blank_line_has_no_tokens() {
    assert!(split_tokens("").is_empty());
    assert!(split_tokens(" \t\r\n ").is_empty());
}

#[test]
fn tokens_keep_their_characters() {
    assert_eq!(split_tokens(": caf\u{e9} \u{1F600} ;"), vec![":", "caf\u{e9}", "\u{1F600}", ";"]);
}

#[test]
fn split_tokens_agrees_with_std() {
    let lines = ["", " ", "a", " a", "a ", "a b", "a  b", " a b ", "ab cd\tef\ngh", "\u{2003}x\u{2003}"];
    for line in lines.iter() {
        let expected: Vec<String> = line.split_whitespace().map(|s| s.to_string()).collect();
        assert_eq!(split_tokens(line), expected);
    }
}

#[test]
fn integer_literals() {
    assert_eq!(parse_int("0"), Some(0));
    assert_eq!(parse_int("7"), Some(7));
    assert_eq!(parse_int("-7"), Some(-7));
    assert_eq!(parse_int("007"), Some(7));
    assert_eq!(parse_int("-0"), Some(0));
    assert_eq!(parse_int("2147483647"), Some(i32::MAX));
    assert_eq!(parse_int("-2147483648"), Some(i32::MIN));
    assert_eq!(parse_int("0000000000000000000000000000012"), Some(12));
}

#[test]
fn what_is_no_integer_literal() {
    assert_eq!(parse_int(""), None);
    assert_eq!(parse_int("-"), None);
    assert_eq!(parse_int("+"), None);
    assert_eq!(parse_int("+7"), None);
    assert_eq!(parse_int("--7"), None);
    assert_eq!(parse_int("7-"), None);
    assert_eq!(parse_int("1.5"), None);
    assert_eq!(parse_int("1e3"), None);
    assert_eq!(parse_int("0x10"), None);
    assert_eq!(parse_int("12a"), None);
    assert_eq!(parse_int("a12"), None);
    assert_eq!(parse_int("1 2"), None);
    assert_eq!(parse_int("\u{662}"), None);
}

#[test]
fn literals_that_do_not_fit_a_cell() {
    assert_eq!(parse_int("2147483648"), None);
    assert_eq!(parse_int("-2147483649"), None);
    assert_eq!(parse_int("99999999999999999999999999999999999999999"), None);
    assert_eq!(parse_int("-99999999999999999999999999999999999999999"), None);
    assert_eq!(parse_int("99999999999999999999x"), None);
}

#[test]
fn decimal_writes_integers() {
    assert_eq!(decimal(0), "0");
    assert_eq!(decimal(7), "7");
    assert_eq!(decimal(-7), "-7");
    assert_eq!(decimal(10), "10");
    assert_eq!(decimal(1234567890), "1234567890");
    assert_eq!(decimal(i32::MIN as i128), "-2147483648");
    assert_eq!(decimal(i128::MAX), "170141183460469231731687303715884105727");
    assert_eq!(decimal(i128::MIN), "-170141183460469231731687303715884105728");
}

#[test]
fn decimal_and_parse_int_round_trip() {
    let values = [i32::MIN, i32::MIN + 1, -1000000, -10, -9, -1, 0, 1, 9, 10, 99, 100, 1000000, i32::MAX];
    for &n in values.iter() {
        assert_eq!(parse_int(&decimal(n as i128)), Some(n));
        assert_eq!(decimal(n as i128), n.to_string());
    }
}

#[test]
fn append_text_adds_the_characters() {
    let mut out = vec!['a'];
    append_text(&mut out, "bc\u{e9}");
    assert_eq!(out, vec!['a', 'b', 'c', '\u{e9}']);
    append_text(&mut out, "");
    assert_eq!(out.len(), 4);
}

#[test]
fn append_list_writes_a_bracketed_list() {
    let mut out = Vec::new();
    append_list(&mut out, &vec![]);
    assert_eq!(out.iter().collect::<String>(), "[]");
    out.clear();
    append_list(&mut out, &vec![5]);
    assert_eq!(out.iter().collect::<String>(), "[5]");
    out.clear();
    append_list(&mut out, &vec![1, -2, 30]);
    assert_eq!(out.iter().collect::<String>(), "[1, -2, 30]");
    assert_eq!(out.iter().collect::<String>(), format!("{:?}", vec![1, -2, 30]));
}
