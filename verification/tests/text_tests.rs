use packet_forwarding_service::server::text::{append_decimal, append_u16, append_u8};

#[test]
fn decimal_rendering() {
    let mut s = String::from("n=");
    append_decimal(&mut s, 0);
    s.push(' ');
    append_decimal(&mut s, 1234567890);
    s.push(' ');
    append_decimal(&mut s, u128::MAX);
    assert_eq!(s, format!("n=0 1234567890 {}", u128::MAX));
}

#[test]
fn small_integer_rendering() {
    let mut s = String::new();
    append_u8(&mut s, 255);
    s.push('/');
    append_u16(&mut s, 65535);
    assert_eq!(s, "255/65535");
}
