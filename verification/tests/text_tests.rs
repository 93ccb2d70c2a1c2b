use mysql_executor::text::{contains_str, eq_ignore_case, push_decimal, push_decimal_padded, split_char};

#[test]
fn test_decimal_rendering() {
    let mut s = String::new();
    push_decimal(&mut s, 0);
    assert_eq!(s, "0");
    let mut s = String::from("n=");
    push_decimal(&mut s, u64::MAX);
    assert_eq!(s, "n=18446744073709551615");
    let mut s = String::new();
    push_decimal_padded(&mut s, 7, 3);
    assert_eq!(s, "007");
    let mut s = String::new();
    push_decimal_padded(&mut s, 12345, 2);
    assert_eq!(s, "12345");
}

#[test]
fn test_split_and_join_round_trip() {
    for text in ["", "a", "a,b", ",", "a,,b,", "你,好"] {
        let pieces = split_char(text, ',');
        assert_eq!(pieces.join(","), text);
        assert!(pieces.iter().all(|p| !p.contains(',')));
        let expected: Vec<String> = text.split(',').map(|p| p.to_string()).collect();
        assert_eq!(pieces, expected);
    }
}

#[test]
fn test_contains_and_case() {
    assert!(contains_str("Access denied for user", "denied"));
    assert!(contains_str("abc", ""));
    assert!(!contains_str("ab", "abc"));
    assert!(!contains_str("timed-out", "timed out"));
    assert!(eq_ignore_case("SqL", "sql"));
    assert!(!eq_ignore_case("sqll", "sql"));
    assert!(!eq_ignore_case("ſql", "sql"));
}
