use cos_niri_bar::text::{chars_of, lines_of, parse_u32, split_chars, string_of, trim_chars, words_of};

fn s(v: &[char]) -> String {
    v.iter().collect()
}

#[test]
fn lines_like_str_lines() {
    let ls = lines_of(&chars_of("a\r\nb\n\nc"));
    let got: Vec<String> = ls.iter().map(|l| s(l)).collect();
    assert_eq!(got, vec!["a", "b", "", "c"]);
    assert!(lines_of(&chars_of("")).is_empty());
    assert_eq!(lines_of(&chars_of("x\n")).len(), 1);
}

#[test]
fn words_split_and_trim() {
    let ws: Vec<String> = words_of(&chars_of("  a \u{3000}b\tc ")).iter().map(|w| s(w)).collect();
    assert_eq!(ws, vec!["a", "b", "c"]);
    let ps: Vec<String> = split_chars(&chars_of("a;;b"), ';').iter().map(|p| s(p)).collect();
    assert_eq!(ps, vec!["a", "", "b"]);
    assert_eq!(s(&trim_chars(&chars_of("\u{a0} x y \n"))), "x y");
}

#[test]
fn numbers_and_case() {
    assert_eq!(parse_u32(&chars_of("+42")), Some(42));
    assert_eq!(parse_u32(&chars_of("4294967295")), Some(u32::MAX));
    assert_eq!(parse_u32(&chars_of("4294967296")), None);
    assert_eq!(parse_u32(&chars_of("")), None);
    assert_eq!(parse_u32(&chars_of("1 2")), None);
    assert_eq!(string_of(&chars_of("héllo")), "héllo");
}
