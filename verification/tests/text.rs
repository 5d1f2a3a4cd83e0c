use runner::text::{decimal_text, join, lines, same_text};

fn strings(parts: &[&str]) -> Vec<String> {
    parts.iter().map(|part| part.to_string()).collect()
}

#[test]
fn parts_are_joined() {
    assert_eq!(join(&strings(&[]), ", "), "");
    assert_eq!(join(&strings(&["a"]), ", "), "a");
    assert_eq!(join(&strings(&["a", "", "b"]), ", "), "a, , b");
}

#[test]
fn numbers_are_written_in_decimal() {
    assert_eq!(decimal_text(0), "0");
    assert_eq!(decimal_text(10), "10");
    assert_eq!(decimal_text(9_070), "9070");
    assert_eq!(decimal_text(u64::MAX), u64::MAX.to_string());
}

#[test]
fn texts_are_split_into_lines() {
    for text in [
        "", "\n", "a", "a\n", "a\nb", "a\r\nb\r\n", "\r\n", "a\r", "a\r\rb\n", "a\n\nb", "\r\r\n\r",
        "║\n╚",
    ] {
        let expected: Vec<String> = text.lines().map(|line| line.to_string()).collect();
        assert_eq!(lines(text), expected, "{:?}", text);
    }
    assert_eq!(lines("a\r\n\nb\r"), strings(&["a", "", "b\r"]));
}

#[test]
fn texts_are_compared() {
    assert!(same_text("", ""));
    assert!(same_text("a❯b", "a❯b"));
    assert!(!same_text("a", "A"));
    assert!(!same_text("a", "ab"));
}
