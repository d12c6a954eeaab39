use speed::text::{
    characters, decimal, decimal_two, pad, position, repeat, same_text, stands_at,
};

#[test]
fn numbers_in_writing() {
    for n in [0u64, 7, 9, 10, 11, 99, 100, 1234567890, u64::MAX] {
        assert_eq!(decimal(n), n.to_string());
        assert_eq!(decimal_two(n), format!("{n:02}"));
    }
}

#[test]
fn padding_and_repeating() {
    assert_eq!(pad("PING", 7), "PING   ");
    assert_eq!(pad("YOU•", 7), format!("{:<7}", "YOU•"));
    assert_eq!(pad("LONGLABEL", 7), "LONGLABEL");
    assert_eq!(repeat("·", 3), "···");
    assert_eq!(repeat("ab", 0), "");
}

#[test]
fn searching() {
    let text = characters("an·ana");
    assert_eq!(text, vec!['a', 'n', '·', 'a', 'n', 'a']);
    assert_eq!(position(&text, &characters("an"), 0), Some(0));
    assert_eq!(position(&text, &characters("an"), 1), Some(3));
    assert_eq!(position(&text, &characters("nn"), 0), None);
    assert_eq!(position(&text, &characters(""), 6), Some(6));
    assert_eq!(position(&text, &characters("a"), 6), None);
    assert!(stands_at(&text, &characters("ana"), 3));
    assert!(!stands_at(&text, &characters("ana"), 0));
}

#[test]
fn comparing() {
    assert!(same_text("--once", "--once"));
    assert!(!same_text("--once", "--onc"));
    assert!(!same_text("--once", "--Once"));
    assert!(same_text("", ""));
}
