use solsign::text::usage_string;

#[test]
fn usage_text_is_complete() {
    let text = usage_string();
    assert!(text.starts_with("\nUsage: solsign [--help]\n       solsign [--no-prompt] [KEY_FILE]...\n\n  solsign reads"));
    assert!(text.ends_with("then the signature\n  of the transaction is printed.\n"));
    assert_eq!(text.lines().count(), 33);
    assert_eq!(text.len(), 1611);
}
