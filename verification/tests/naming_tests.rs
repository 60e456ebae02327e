use paperfold::naming::{candidate_name, dec_string};

#[test]
fn decimal_rendering() {
    assert_eq!(dec_string(0), "0");
    assert_eq!(dec_string(9), "9");
    assert_eq!(dec_string(10), "10");
    assert_eq!(dec_string(123), "123");
    assert_eq!(dec_string(1005), "1005");
}

#[test]
fn candidate_names() {
    assert_eq!(candidate_name("A", 1), "A (1)");
    assert_eq!(candidate_name("Report", 12), "Report (12)");
    assert_eq!(candidate_name("", 3), " (3)");
}
