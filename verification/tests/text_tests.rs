use crucible::text::{chars_of, lines, parse_u64, split_whitespace, string_of, trim};

fn s(v: &[char]) -> String {
    v.iter().collect()
}

#[test]
fn lines_like_str_lines() {
    for text in ["", "a", "a\n", "a\r\nb\r", "\n\nx", "a\r\n\r\n", "one\ntwo\nthree"] {
        let ours: Vec<String> = lines(text).iter().map(|l| s(l)).collect();
        let std: Vec<String> = text.lines().map(|l| l.to_string()).collect();
        assert_eq!(ours, std, "{:?}", text);
    }
}

#[test]
fn trim_and_words_like_std() {
    for text in ["", "  a b  ", "\u{3000}x\u{85}", "\t\n", "a  b\tc"] {
        let v = chars_of(text);
        assert_eq!(s(trim(&v)), text.trim());
        let ours: Vec<String> = split_whitespace(&v).iter().map(|w| s(w)).collect();
        let std: Vec<String> = text.split_whitespace().map(|w| w.to_string()).collect();
        assert_eq!(ours, std);
    }
}

#[test]
fn parse_u64_like_std() {
    for text in ["0", "+7", "+", "-1", "", "18446744073709551615", "18446744073709551616", "12a", "007"] {
        let v = chars_of(text);
        assert_eq!(parse_u64(&v), text.parse::<u64>().ok(), "{:?}", text);
    }
    assert_eq!(string_of(&['a', 'é']), "aé");
}
