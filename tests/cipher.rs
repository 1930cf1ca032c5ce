use subst_cipher::{Cipher, FormatError};

fn cipher(spec: &str) -> Cipher {
    Cipher::parse(spec).expect("valid mapping")
}

#[test]
fn duplicate_key_is_rejected() {
    let e = Cipher::parse("a=b\na=c").unwrap_err();
    assert!(matches!(e, FormatError::DuplicateKey { line: 2, key: 'a' }), "{:?}", e);
}

#[test]
fn duplicate_value_is_rejected() {
    let e = Cipher::parse("a=x\nb=x").unwrap_err();
    assert!(matches!(e, FormatError::DuplicateValue { line: 2, value: 'x' }), "{:?}", e);
}

#[test]
fn comments_and_blank_lines_are_skipped() {
    let c = cipher("# comment\n\na=b");
    assert_eq!(c.encrypt("a"), "b");
    assert_eq!(c.decrypt("b"), "a");
    assert_eq!(c.encrypt("#c b"), "#c b");
    assert_eq!(c.decrypt("#c a"), "#c a");
}

#[test]
fn missing_separator_is_rejected() {
    let e = Cipher::parse("abc").unwrap_err();
    assert!(
        matches!(&e, FormatError::MissingSeparator { line: 1, content } if content == "abc"),
        "{:?}",
        e
    );
}

#[test]
fn end_to_end_example() {
    let c = cipher("a=x\nb=y");
    assert_eq!(c.encrypt("aabbc"), "xxyyc");
    assert_eq!(c.decrypt("xxyyc"), "aabbc");
}

#[test]
fn empty_key_is_rejected() {
    let e = Cipher::parse("a=b\n  = c ").unwrap_err();
    assert!(
        matches!(&e, FormatError::EmptyKey { line: 2, content } if content == "= c"),
        "{:?}",
        e
    );
}

#[test]
fn empty_value_is_rejected() {
    let e = Cipher::parse(" a =   ").unwrap_err();
    assert!(
        matches!(&e, FormatError::EmptyValue { line: 1, content } if content == "a ="),
        "{:?}",
        e
    );
}

#[test]
fn line_numbers_count_skipped_lines() {
    let e = Cipher::parse("# header\n\n   \nab").unwrap_err();
    assert_eq!(e.line(), 4);
    assert!(matches!(&e, FormatError::MissingSeparator { content, .. } if content == "ab"));
}

#[test]
fn first_error_wins() {
    let e = Cipher::parse("abc\n=\na=b\na=c").unwrap_err();
    assert!(matches!(&e, FormatError::MissingSeparator { line: 1, .. }), "{:?}", e);
}

#[test]
fn key_checked_before_value() {
    let e = Cipher::parse("a=x\na=x").unwrap_err();
    assert!(matches!(e, FormatError::DuplicateKey { line: 2, key: 'a' }), "{:?}", e);
}

#[test]
fn whitespace_around_sides_is_ignored() {
    let c = cipher("  a  =  b  \n\tc\u{00A0}=\u{2003}d\u{3000}");
    assert_eq!(c.encrypt("ac"), "bd");
    assert_eq!(c.decrypt("bd"), "ac");
}

#[test]
fn only_first_character_of_each_side_counts() {
    let c = cipher("ab=cd");
    assert_eq!(c.encrypt("abd"), "cbd");
    assert_eq!(c.decrypt("cbd"), "abd");
}

#[test]
fn crlf_line_endings_are_accepted() {
    let c = cipher("a=b\r\nc=d\r\n");
    assert_eq!(c.encrypt("ac"), "bd");
}

#[test]
fn separator_may_be_a_value_after_the_first_equals() {
    let c = cipher("a==");
    assert_eq!(c.encrypt("aa"), "==");
}

#[test]
fn empty_mapping_is_identity() {
    let c = cipher("");
    assert_eq!(c.encrypt("hello"), "hello");
    assert_eq!(c.decrypt("hello"), "hello");
}

#[test]
fn empty_text_stays_empty() {
    let c = cipher("a=b");
    assert_eq!(c.encrypt(""), "");
    assert_eq!(c.decrypt(""), "");
}

#[test]
fn single_character_round_trips() {
    let c = cipher("a=x\nb=y\nz=a");
    for k in ['a', 'b', 'z'] {
        let s = k.to_string();
        assert_eq!(c.decrypt(&c.encrypt(&s)), s);
    }
    for v in ['x', 'y', 'a'] {
        let s = v.to_string();
        assert_eq!(c.encrypt(&c.decrypt(&s)), s);
    }
}

#[test]
fn unmapped_characters_pass_through() {
    let c = cipher("a=x");
    assert_eq!(c.encrypt("q"), "q");
    assert_eq!(c.decrypt("a"), "a");
    assert_eq!(c.decrypt("q"), "q");
}

#[test]
fn length_is_preserved_on_non_ascii_text() {
    let c = cipher("а=é\nб=中");
    let out = c.encrypt("аабв");
    assert_eq!(out, "éé中в");
    assert_eq!(out.chars().count(), 4);
    assert_eq!(c.decrypt(&out).chars().count(), 4);
}

#[test]
fn text_round_trips() {
    let c = cipher("h=1\ne=2\nl=3\no=4");
    let text = "hello, world";
    let enc = c.encrypt(text);
    assert_ne!(enc, text);
    assert_eq!(c.decrypt(&enc), text);
}

#[test]
fn round_trip_fails_on_unmapped_value() {
    let c = cipher("a=b");
    assert_eq!(c.decrypt(&c.encrypt("b")), "a");
}
