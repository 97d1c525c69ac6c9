use vemcache::number::is_float_word;

const WORDS: &[&str] = &[
    "0", "1", "12", "1.", ".5", "1.5", "-1.5", "+2", "1e5", "1E5", "1e+5", "1e-5", "2.5e10", ".5e3",
    "inf", "-inf", "+INF", "Infinity", "-iNfInItY", "nan", "NaN", "-nan", "+NAN", "", "+", "-", ".",
    "e", "e5", "1e", "1e+", ".e5", "1.2.3", "1..2", "abc", "infin", "infinityy", "nana", "0x10",
    "1_000", "1,5", " 1", "1 ", "--1", "+-1", "1f", "\u{0661}", "\u{212A}", "INF\u{0130}",
];

#[test]
fn float_words_agree_with_std() {
    for w in WORDS {
        assert_eq!(is_float_word(&w.to_string()), w.parse::<f32>().is_ok(), "word {:?}", w);
    }
}

#[test]
fn float_word_examples() {
    assert!(is_float_word(&"3.25".to_string()));
    assert!(is_float_word(&"-InF".to_string()));
    assert!(!is_float_word(&"xyz".to_string()));
    assert!(!is_float_word(&"".to_string()));
}

#[test]
fn counts_agree_with_std() {
    let words = [
        "0", "7", "+7", "007", "-0", "-1", "+", "", "1.0", "1e3", " 1", "12a", "\u{0661}",
        "18446744073709551615", "18446744073709551616", "99999999999999999999999", "4294967296",
    ];
    for w in words {
        assert_eq!(vemcache::number::parse_usize(w), w.parse::<usize>().ok(), "word {:?}", w);
    }
}
