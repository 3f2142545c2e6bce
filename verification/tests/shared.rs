use stellar_ai_payments::shared::{
    count_by_status, is_expired, Address, Error, PaymentRecord, PaymentStatus, CONTRACT_VERSION,
};

fn record(id: &str, status: PaymentStatus, expires_at: u64) -> PaymentRecord {
    PaymentRecord {
        id: id.to_string(),
        sender: Address { key: "GS".to_string() },
        recipient: Address { key: "GR".to_string() },
        amount: 1,
        asset: Address { key: "CA".to_string() },
        status,
        created_at: 0,
        expires_at,
    }
}

#[test]
fn expiry_is_reached_at_the_timestamp() {
    let r = record("p", PaymentStatus::Pending, 100);
    assert!(!is_expired(&r, 99));
    assert!(is_expired(&r, 100));
    assert!(is_expired(&r, 101));
}

#[test]
fn counts_records_by_status() {
    let rs = vec![
        record("a", PaymentStatus::Pending, 0),
        record("b", PaymentStatus::Released, 0),
        record("c", PaymentStatus::Pending, 0),
        record("d", PaymentStatus::Refunded, 0),
    ];
    assert_eq!(count_by_status(&rs, &PaymentStatus::Pending), 2);
    assert_eq!(count_by_status(&rs, &PaymentStatus::Released), 1);
    assert_eq!(count_by_status(&rs, &PaymentStatus::Expired), 0);
    assert_eq!(count_by_status(&[], &PaymentStatus::Pending), 0);
}

#[test]
fn error_messages() {
    assert_eq!(Error::NotFound.message(), "not found");
    assert_eq!(Error::Unauthorized.message(), "unauthorized");
    assert_eq!(Error::AlreadyExists.message(), "already exists");
    assert_eq!(Error::Expired.message(), "expired");
    assert_eq!(Error::InsufficientFunds.message(), "insufficient funds");
    assert_eq!(Error::InvalidAmount.message(), "invalid amount");
}

#[test]
fn version_string() {
    assert_eq!(CONTRACT_VERSION, "0.1.0");
}

#[test]
fn record_clone_keeps_every_field() {
    let r = record("p", PaymentStatus::Refunded, 7);
    assert_eq!(r.clone(), r);
}
