use hcbs_test_suite::table::{push_line, push_row, read_decimal, read_line, read_row, read_table};
use hcbs_test_suite::text::{
    chars_of, exec_in_class, exec_is_whitespace, has_whitespace, push_decimal, push_signed,
    read_number, read_tag, same_text, skip_class, string_of, CharClass,
};

fn chars(s: &str) -> Vec<char> {
    s.chars().collect()
}

#[test]
fn characters_go_to_and_fro() {
    let text = "añ€ b\t";
    let all = chars_of(text);
    assert_eq!(all, chars(text));
    assert_eq!(string_of(&all, 0, all.len()), text);
    assert_eq!(string_of(&all, 1, 3), "ñ€");
    assert_eq!(string_of(&all, 2, 2), "");
    assert!(same_text("abc", "abc"));
    assert!(!same_text("abc", "abd"));
    assert!(!same_text("abc", "ab"));
}

#[test]
fn white_space_is_told_from_other_characters() {
    for c in [' ', '\t', '\n', '\u{b}', '\u{c}', '\r', '\u{85}', '\u{a0}', '\u{1680}', '\u{2000}', '\u{200a}', '\u{2028}', '\u{2029}', '\u{202f}', '\u{205f}', '\u{3000}'] {
        assert!(exec_is_whitespace(c));
        assert!(c.is_whitespace());
    }
    for c in ['a', '0', '_', '\u{8}', '\u{e}', '\u{200b}', '\u{feff}', 'é'] {
        assert!(!exec_is_whitespace(c));
        assert!(!c.is_whitespace());
    }
    assert!(has_whitespace("a b"));
    assert!(has_whitespace("a\u{3000}b"));
    assert!(!has_whitespace("a_b"));
    assert!(!has_whitespace(""));
    assert!(exec_in_class('\t', CharClass::Blank));
    assert!(!exec_in_class('\n', CharClass::Blank));
    assert!(exec_in_class('\r', CharClass::Gap));
    assert!(exec_in_class('7', CharClass::Digit));
    assert!(exec_in_class('x', CharClass::Word));
    assert!(exec_in_class(' ', CharClass::Inline));
    assert!(!exec_in_class('\n', CharClass::Inline));
    assert!(exec_in_class('\u{a0}', CharClass::Solid));
    assert!(!exec_in_class(' ', CharClass::Solid));
}

#[test]
fn numbers_are_read_up_to_their_bound() {
    let s = chars("0042x 18446744073709551615 18446744073709551616");
    assert_eq!(read_number(&s, 0, u64::MAX), Some((42, 4)));
    assert_eq!(read_number(&s, 0, 41), None);
    assert_eq!(read_number(&s, 0, 42), Some((42, 4)));
    assert_eq!(read_number(&s, 4, u64::MAX), None);
    assert_eq!(read_number(&s, 6, u64::MAX), Some((u64::MAX, 26)));
    assert_eq!(read_number(&s, 27, u64::MAX), None);
    assert_eq!(read_number(&s, s.len(), u64::MAX), None);
    assert_eq!(skip_class(&s, 0, CharClass::Digit), 4);
    assert_eq!(skip_class(&s, 4, CharClass::Digit), 4);
    assert_eq!(skip_class(&s, 0, CharClass::Word), 5);
    assert_eq!(read_tag(&s, 4, "x "), Some(6));
    assert_eq!(read_tag(&s, 4, "y"), None);
    assert_eq!(read_tag(&s, s.len(), ""), Some(s.len()));
    assert_eq!(read_tag(&s, s.len() - 1, "66"), None);
}

#[test]
fn numbers_are_written_in_base_ten() {
    let mut out = String::from(">");
    push_decimal(&mut out, 0);
    out.push(' ');
    push_decimal(&mut out, 1_020);
    out.push(' ');
    push_decimal(&mut out, u128::MAX);
    out.push(' ');
    push_signed(&mut out, -7);
    out.push(' ');
    push_signed(&mut out, i128::MIN);
    out.push(' ');
    push_signed(&mut out, 0);
    assert_eq!(
        out,
        ">0 1020 340282366920938463463374607431768211455 -7 -170141183460469231731687303715884105728 0"
    );
}

#[test]
fn rows_and_lines_are_read_and_written() {
    let s = chars(" 1  2\t3 -4.5 \n6 7 8 .9x\n1 2 3\n");
    assert_eq!(read_row(&s, 0, 3), Some((vec![1, 2, 3], 7)));
    assert_eq!(read_row(&s, 0, 4), None);
    assert_eq!(read_row(&s, 0, 0), Some((vec![], 0)));
    assert_eq!(read_decimal(&s, 8), Some(12));
    assert_eq!(read_decimal(&s, 7), None);
    assert_eq!(read_line(&s, 0, 3, true), Some((vec![1, 2, 3], 13)));
    assert_eq!(read_line(&s, 0, 3, false), Some((vec![1, 2, 3], 8)));
    assert_eq!(read_table(&s, 0, 3, true), Some(vec![vec![1, 2, 3], vec![6, 7, 8]]));
    assert_eq!(read_table(&s, 0, 2, false), Some(vec![vec![1, 2]]));
    assert_eq!(read_table(&s, 0, 4, false), None);
    let mut out = String::new();
    push_row(&mut out, &[1, 20, 300]);
    push_line(&mut out, &[], None);
    push_line(&mut out, &[4], Some(-5));
    push_line(&mut out, &[6, 7], None);
    assert_eq!(out, "1 20 300\n4 -5\n6 7\n");
}
