use task_assistant::text::{chars_of, text_contains, text_le_exec, trim_text};

#[test]
fn contains_finds_runs_of_characters() {
    assert!(text_contains("Buy milk", "milk"));
    assert!(text_contains("Buy milk", "Buy milk"));
    assert!(text_contains("Buy milk", ""));
    assert!(text_contains("", ""));
    assert!(!text_contains("", "a"));
    assert!(!text_contains("Buy milk", "Milk"));
    assert!(!text_contains("ab", "abc"));
    assert!(text_contains("aaab", "aab"));
    assert!(text_contains("über", "be"));
}

#[test]
fn contains_agrees_with_str_contains() {
    let hays = ["", "a", "abcabd", "2023-07-27", "ééa", "mississippi"];
    let needles = ["", "a", "ab", "abd", "07-2", "ssi", "issip", "é", "x"];
    for h in hays {
        for n in needles {
            assert_eq!(text_contains(h, n), h.contains(n), "{:?} {:?}", h, n);
        }
    }
}

#[test]
fn order_is_lexicographic() {
    assert!(text_le_exec("", ""));
    assert!(text_le_exec("", "a"));
    assert!(!text_le_exec("a", ""));
    assert!(text_le_exec("2023-07-27", "2023-07-28"));
    assert!(!text_le_exec("2023-07-28", "2023-07-27"));
    assert!(text_le_exec("2023-07-2", "2023-07-27"));
    assert!(text_le_exec("abc", "abc"));
}

#[test]
fn order_agrees_with_str_order() {
    let words = ["", "a", "b", "ab", "abc", "2023-07-27", "2023-07-28", "Z", "é", "e", "ü"];
    for a in words {
        for b in words {
            assert_eq!(text_le_exec(a, b), a <= b, "{:?} {:?}", a, b);
        }
    }
}

#[test]
fn chars_of_gives_every_character() {
    assert_eq!(chars_of("héllo"), vec!['h', 'é', 'l', 'l', 'o']);
    assert_eq!(chars_of(""), Vec::<char>::new());
}

#[test]
fn trim_agrees_with_str_trim() {
    let lines = ["", "  ", "abc", " abc\n", "\t a b \r\n", "\u{a0}x\u{3000}", "\u{2028}\u{85}", "a\u{200b}"];
    for l in lines {
        assert_eq!(trim_text(l), l.trim(), "{:?}", l);
    }
}
