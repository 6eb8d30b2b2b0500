use sgx_qkms::sample_service::{greeting, greeting_name};

#[test]
fn name_is_trimmed_text() {
    assert_eq!(greeting_name(b"  alice\n"), "alice");
    assert_eq!(greeting_name(b"b\xffob\r\n"), "b\u{fffd}ob");
    assert_eq!(greeting_name(b" \t\n"), "");
    assert_eq!(greeting_name("\u{3000}zoë ".as_bytes()), "zoë");
}

#[test]
fn greeting_text() {
    assert_eq!(greeting("alice"), "hello, alice\n");
    assert_eq!(greeting(""), "hello, \n");
}
