use txrace::ids::Address;

#[test]
fn parses_the_router_address_literal() {
    let parsed = Address::from_hex("0x3fc91a3afd70395cd496c647d5a6cc9d4b2b7fad");
    assert_eq!(
        parsed,
        Some(Address { w0: 0x3fc91a3afd70395c, w1: 0xd496c647d5a6cc9d, w2: 0x4b2b7fad })
    );
}

#[test]
fn parses_upper_case_digits() {
    let parsed = Address::from_hex("0x3FC91A3AFD70395CD496C647D5A6CC9D4B2B7FAD");
    assert_eq!(
        parsed,
        Some(Address { w0: 0x3fc91a3afd70395c, w1: 0xd496c647d5a6cc9d, w2: 0x4b2b7fad })
    );
}

#[test]
fn parses_the_zero_address() {
    let parsed = Address::from_hex("0x0000000000000000000000000000000000000000");
    assert_eq!(parsed, Some(Address { w0: 0, w1: 0, w2: 0 }));
}

#[test]
fn rejects_malformed_address_literals() {
    // Too short, too long, missing prefix, and a non-hexadecimal digit.
    assert_eq!(Address::from_hex("0x3fc91a3afd70395c"), None);
    assert_eq!(
        Address::from_hex("0x3fc91a3afd70395cd496c647d5a6cc9d4b2b7fad00"),
        None
    );
    assert_eq!(
        Address::from_hex("3fc91a3afd70395cd496c647d5a6cc9d4b2b7fad00"),
        None
    );
    assert_eq!(
        Address::from_hex("0x3fc91a3afd70395cd496c647d5a6cc9d4b2b7faz"),
        None
    );
    assert_eq!(Address::from_hex(""), None);
}
