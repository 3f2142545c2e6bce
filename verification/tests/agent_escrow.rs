use stellar_ai_payments::agent_escrow::AgentEscrowContract;
use stellar_ai_payments::shared::{Address, Error, PaymentStatus, Transfer};

fn addr(key: &str) -> Address {
    Address { key: key.to_string() }
}

fn setup() -> (AgentEscrowContract, Address, Address, Address, Address) {
    let admin = addr("GADMIN");
    let sender = addr("GSENDER");
    let recipient = addr("GRECIPIENT");
    let asset = addr("CASSET");
    let mut contract = AgentEscrowContract::new();
    contract.initialize(admin.clone());
    (contract, admin, sender, recipient, asset)
}

#[test]
fn test_deposit_and_release() {
    let (mut client, _admin, sender, recipient, asset) = setup();
    let pid = String::from("pay-001");

    client
        .deposit(pid.clone(), sender.clone(), recipient.clone(), asset.clone(), 1_000_0000000, 3600, 0)
        .unwrap();
    let record = client.get_payment(pid.clone()).unwrap();
    assert_eq!(record.status, PaymentStatus::Pending);

    client.release(pid.clone(), sender.clone()).unwrap();
    let record = client.get_payment(pid).unwrap();
    assert_eq!(record.status, PaymentStatus::Released);
}

#[test]
fn test_deposit_invalid_amount() {
    let (mut client, _admin, sender, recipient, asset) = setup();
    let pid = String::from("pay-002");
    let result = client.deposit(pid, sender, recipient, asset, 0, 3600, 0);
    assert!(result.is_err());
}

#[test]
fn test_duplicate_deposit_fails() {
    let (mut client, _admin, sender, recipient, asset) = setup();
    let pid = String::from("pay-003");
    client
        .deposit(pid.clone(), sender.clone(), recipient.clone(), asset.clone(), 100_0000000, 3600, 0)
        .unwrap();
    let result = client.deposit(pid, sender, recipient, asset, 100_0000000, 3600, 0);
    assert!(result.is_err());
}

#[test]
fn test_refund_after_expiry() {
    let (mut client, _admin, sender, recipient, asset) = setup();
    let pid = String::from("pay-004");
    let mut now: u64 = 0;
    client.deposit(pid.clone(), sender, recipient, asset, 100_0000000, 10, now).unwrap();

    // Advance ledger past expiry
    now += 100;
    client.refund(pid.clone(), now).unwrap();
    let record = client.get_payment(pid).unwrap();
    assert_eq!(record.status, PaymentStatus::Refunded);
}

#[test]
fn test_refund_before_expiry_fails() {
    let (mut client, _admin, sender, recipient, asset) = setup();
    let pid = String::from("pay-005");
    client.deposit(pid.clone(), sender, recipient, asset, 100_0000000, 3600, 0).unwrap();
    let result = client.refund(pid, 0);
    assert!(result.is_err());
}

#[test]
fn test_get_nonexistent_payment() {
    let (client, ..) = setup();
    let pid = String::from("nonexistent");
    let result = client.get_payment(pid);
    assert!(result.is_err());
}

#[test]
fn deposit_pulls_funds_and_stores_a_pending_record() {
    let (mut client, _admin, sender, recipient, asset) = setup();
    let pid = String::from("pay-010");
    let t = client
        .deposit(pid.clone(), sender.clone(), recipient.clone(), asset.clone(), 250, 60, 1_000)
        .unwrap();
    assert_eq!(t, Transfer::Incoming { asset: asset.clone(), from: sender.clone(), amount: 250 });
    let record = client.get_payment(pid.clone()).unwrap();
    assert_eq!(record.id, pid);
    assert_eq!(record.sender, sender);
    assert_eq!(record.recipient, recipient);
    assert_eq!(record.asset, asset);
    assert_eq!(record.amount, 250);
    assert_eq!(record.created_at, 1_000);
    assert_eq!(record.expires_at, 1_060);
}

#[test]
fn deposit_errors() {
    let (mut client, _admin, sender, recipient, asset) = setup();
    let pid = String::from("pay-011");
    assert_eq!(
        client.deposit(pid.clone(), sender.clone(), recipient.clone(), asset.clone(), -5, 60, 0),
        Err(Error::InvalidAmount)
    );
    client.deposit(pid.clone(), sender.clone(), recipient.clone(), asset.clone(), 5, 60, 0).unwrap();
    assert_eq!(
        client.deposit(pid.clone(), sender.clone(), recipient.clone(), asset.clone(), 7, 60, 0),
        Err(Error::AlreadyExists)
    );
    // The refused deposit left the first record in place.
    assert_eq!(client.get_payment(pid).unwrap().amount, 5);
}

#[test]
fn release_pays_recipient_and_only_once() {
    let (mut client, admin, sender, recipient, asset) = setup();
    let pid = String::from("pay-012");
    client.deposit(pid.clone(), sender.clone(), recipient.clone(), asset.clone(), 42, 60, 0).unwrap();
    let t = client.release(pid.clone(), admin.clone()).unwrap();
    assert_eq!(t, Transfer::Outgoing { asset: asset.clone(), to: recipient.clone(), amount: 42 });
    assert_eq!(client.release(pid.clone(), sender.clone()), Err(Error::Unauthorized));
    assert_eq!(client.refund(pid.clone(), 1_000), Err(Error::Unauthorized));
    assert_eq!(client.get_payment(pid).unwrap().status, PaymentStatus::Released);
}

#[test]
fn release_by_stranger_is_refused() {
    let (mut client, _admin, sender, recipient, asset) = setup();
    let pid = String::from("pay-013");
    client.deposit(pid.clone(), sender, recipient.clone(), asset, 42, 60, 0).unwrap();
    assert_eq!(client.release(pid.clone(), recipient), Err(Error::Unauthorized));
    assert_eq!(client.release(String::from("missing"), addr("GX")), Err(Error::NotFound));
    assert_eq!(client.refund(String::from("missing"), 0), Err(Error::NotFound));
    assert_eq!(client.get_payment(pid).unwrap().status, PaymentStatus::Pending);
}

#[test]
fn refund_pays_sender_exactly_at_expiry() {
    let (mut client, _admin, sender, recipient, asset) = setup();
    let pid = String::from("pay-014");
    client.deposit(pid.clone(), sender.clone(), recipient.clone(), asset.clone(), 9, 10, 5).unwrap();
    assert_eq!(client.refund(pid.clone(), 14), Err(Error::Unauthorized));
    let t = client.refund(pid.clone(), 15).unwrap();
    assert_eq!(t, Transfer::Outgoing { asset, to: sender.clone(), amount: 9 });
    assert_eq!(client.refund(pid.clone(), 20), Err(Error::Unauthorized));
    assert_eq!(client.release(pid, sender), Err(Error::Unauthorized));
}

#[test]
fn payments_are_kept_apart() {
    let (mut client, _admin, sender, recipient, asset) = setup();
    let a = String::from("pay-a");
    let b = String::from("pay-b");
    client.deposit(a.clone(), sender.clone(), recipient.clone(), asset.clone(), 1, 60, 0).unwrap();
    client.deposit(b.clone(), sender.clone(), recipient.clone(), asset.clone(), 2, 60, 0).unwrap();
    client.release(a.clone(), sender.clone()).unwrap();
    assert_eq!(client.get_payment(a).unwrap().status, PaymentStatus::Released);
    let rb = client.get_payment(b).unwrap();
    assert_eq!(rb.status, PaymentStatus::Pending);
    assert_eq!(rb.amount, 2);
}

#[test]
fn escrow_holds_each_asset_apart() {
    let (mut client, _admin, sender, recipient, usdc) = setup();
    let xlm = addr("CXLM");
    client.deposit(String::from("p1"), sender.clone(), recipient.clone(), usdc.clone(), 10, 60, 0).unwrap();
    client.deposit(String::from("p2"), sender.clone(), recipient.clone(), xlm.clone(), 20, 60, 0).unwrap();
    let t = client.release(String::from("p2"), sender.clone()).unwrap();
    assert_eq!(t, Transfer::Outgoing { asset: xlm, to: recipient.clone(), amount: 20 });
    let t = client.refund(String::from("p1"), 60).unwrap();
    assert_eq!(t, Transfer::Outgoing { asset: usdc, to: sender, amount: 10 });
}
