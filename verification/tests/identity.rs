use cyberdeck_client_web_sys::identity::{IdentityIssuer, SessionIdentity};

#[test]
fn identity_keeps_its_bits() {
    let id = SessionIdentity::from_bits(0xdead_beef);
    assert_eq!(id.to_bits(), 0xdead_beef);
    assert_eq!(id, SessionIdentity { bits: 0xdead_beef });
}

#[test]
fn identity_text_is_decimal() {
    assert_eq!(SessionIdentity::from_bits(0).to_text(), "0");
    assert_eq!(SessionIdentity::from_bits(7).to_text(), "7");
    assert_eq!(SessionIdentity::from_bits(10).to_text(), "10");
    assert_eq!(SessionIdentity::from_bits(12345).to_text(), "12345");
    assert_eq!(SessionIdentity::from_bits(1_000_000).to_text(), "1000000");
}

#[test]
fn identity_text_of_the_largest_value() {
    assert_eq!(
        SessionIdentity::from_bits(u128::MAX).to_text(),
        "340282366920938463463374607431768211455"
    );
    assert_eq!(SessionIdentity::from_bits(u128::MAX).to_text(), format!("{}", u128::MAX));
}

#[test]
fn identity_text_agrees_with_std_on_many_values() {
    let mut n: u128 = 1;
    for _ in 0..127 {
        assert_eq!(SessionIdentity::from_bits(n).to_text(), format!("{}", n));
        assert_eq!(SessionIdentity::from_bits(n - 1).to_text(), format!("{}", n - 1));
        n = n * 2;
    }
}

#[test]
fn an_issuer_gives_no_identity_twice() {
    let mut issuer = IdentityIssuer::new();
    assert!(!issuer.was_issued(SessionIdentity::from_bits(9)));
    assert_eq!(issuer.issue(9), Some(SessionIdentity::from_bits(9)));
    assert!(issuer.was_issued(SessionIdentity::from_bits(9)));
    assert_eq!(issuer.issue(9), None);
    assert_eq!(issuer.issue(0), Some(SessionIdentity::from_bits(0)));
    assert_eq!(issuer.issue(u128::MAX), Some(SessionIdentity::from_bits(u128::MAX)));
    assert_eq!(issuer.issue(0), None);
    assert_eq!(issuer.issue(u128::MAX), None);
    assert_eq!(issuer.issue(9), None);
    assert!(!issuer.was_issued(SessionIdentity::from_bits(10)));
}

#[test]
fn issuers_do_not_know_of_each_other() {
    let mut one = IdentityIssuer::new();
    let mut other = IdentityIssuer::new();
    assert_eq!(one.issue(9), Some(SessionIdentity::from_bits(9)));
    assert_eq!(other.issue(9), Some(SessionIdentity::from_bits(9)));
}
