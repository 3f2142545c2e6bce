use stellar_ai_payments::shared::{Address, Error, Transfer};
use stellar_ai_payments::sponsored_fee_vault::{get_admin, withdraw, SponsoredFeeVaultContract};

fn addr(key: &str) -> Address {
    Address { key: key.to_string() }
}

fn setup() -> (SponsoredFeeVaultContract, Address, Address) {
    let admin = addr("GADMIN");
    let mut contract = SponsoredFeeVaultContract::new();
    contract.initialize(admin.clone());
    let asset = addr("CASSET");
    (contract, admin, asset)
}

#[test]
fn test_deposit_increases_balance() {
    let (mut client, admin, asset) = setup();
    client.deposit(admin, asset, 1_000_0000000).unwrap();
    assert_eq!(client.get_balance(), 1_000_0000000);
}

#[test]
fn lib_test_deposit_invalid_amount() {
    let (mut client, admin, asset) = setup();
    assert!(client.deposit(admin, asset, 0).is_err());
}

#[test]
fn test_register_and_deduct_fee() {
    let (mut client, admin, asset) = setup();
    client.deposit(admin.clone(), asset.clone(), 10_000_0000000).unwrap();

    let agent = addr("GAGENT");
    client.register_agent(admin, agent.clone(), 500).unwrap();
    client.deduct_fee(agent, asset, 100).unwrap();
    assert_eq!(client.get_balance(), 10_000_0000000 - 100);
}

#[test]
fn test_unregistered_agent_cannot_deduct() {
    let (mut client, admin, asset) = setup();
    client.deposit(admin, asset.clone(), 1_000_0000000).unwrap();
    let agent = addr("GAGENT");
    assert!(client.deduct_fee(agent, asset, 100).is_err());
}

#[test]
fn test_deduct_exceeds_allowance() {
    let (mut client, admin, asset) = setup();
    client.deposit(admin.clone(), asset.clone(), 10_000_0000000).unwrap();
    let agent = addr("GAGENT");
    client.register_agent(admin, agent.clone(), 100).unwrap();
    assert!(client.deduct_fee(agent, asset, 200).is_err());
}

#[test]
fn test_non_admin_cannot_register_agent() {
    let (mut client, _admin, _asset) = setup();
    let rando = addr("GRANDO");
    let agent = addr("GAGENT");
    assert!(client.register_agent(rando, agent, 100).is_err());
}

#[test]
fn deposit_and_deduction_transfers() {
    let (mut client, admin, asset) = setup();
    let t = client.deposit(admin.clone(), asset.clone(), 300).unwrap();
    assert_eq!(t, Transfer::Incoming { asset: asset.clone(), from: admin.clone(), amount: 300 });
    let agent = addr("GAGENT");
    client.register_agent(admin, agent.clone(), 200).unwrap();
    let t = client.deduct_fee(agent.clone(), asset.clone(), 200).unwrap();
    assert_eq!(t, Transfer::Outgoing { asset: asset.clone(), to: agent.clone(), amount: 200 });
    // The allowance is per fee: a second fee within it is paid while the balance lasts.
    client.deduct_fee(agent.clone(), asset.clone(), 100).unwrap();
    assert_eq!(client.get_balance(), 0);
    assert_eq!(client.deduct_fee(agent, asset, 1), Err(Error::InsufficientFunds));
}

#[test]
fn vault_error_variants() {
    let (mut client, admin, asset) = setup();
    let agent = addr("GAGENT");
    assert_eq!(client.deduct_fee(agent.clone(), asset.clone(), 1), Err(Error::Unauthorized));
    client.register_agent(admin.clone(), agent.clone(), 50).unwrap();
    assert_eq!(client.deduct_fee(agent.clone(), asset.clone(), 51), Err(Error::InsufficientFunds));
    assert_eq!(client.deduct_fee(agent.clone(), asset.clone(), 10), Err(Error::InsufficientFunds));
    assert_eq!(client.deposit(admin.clone(), asset.clone(), -3), Err(Error::InvalidAmount));
    assert_eq!(client.get_balance(), 0);
}

#[test]
fn reregistering_replaces_the_allowance() {
    let (mut client, admin, asset) = setup();
    client.deposit(admin.clone(), asset.clone(), 1_000).unwrap();
    let agent = addr("GAGENT");
    client.register_agent(admin.clone(), agent.clone(), 10).unwrap();
    client.register_agent(admin, agent.clone(), 500).unwrap();
    client.deduct_fee(agent, asset, 400).unwrap();
    assert_eq!(client.get_balance(), 600);
}

#[test]
fn withdraw_by_admin_only_within_balance() {
    let (mut client, admin, asset) = setup();
    client.deposit(admin.clone(), asset.clone(), 100).unwrap();
    assert_eq!(withdraw(&mut client, addr("GX"), asset.clone(), 10), Err(Error::Unauthorized));
    assert_eq!(withdraw(&mut client, admin.clone(), asset.clone(), 101), Err(Error::InsufficientFunds));
    let t = withdraw(&mut client, admin.clone(), asset.clone(), 60).unwrap();
    assert_eq!(t, Transfer::Outgoing { asset, to: admin.clone(), amount: 60 });
    assert_eq!(client.get_balance(), 40);
}

#[test]
fn reinitializing_resets_the_balance() {
    let (mut client, admin, asset) = setup();
    client.deposit(admin.clone(), asset, 100).unwrap();
    client.initialize(addr("GNEW"));
    assert_eq!(client.get_balance(), 0);
    assert_eq!(get_admin(&client), Some(addr("GNEW")));
}

#[test]
fn balance_is_deposits_less_payouts_since_initialize() {
    let (mut client, admin, asset) = setup();
    let agent = addr("GAGENT");
    client.deposit(admin.clone(), asset.clone(), 500).unwrap();
    client.register_agent(admin.clone(), agent.clone(), 100).unwrap();
    client.deduct_fee(agent.clone(), asset.clone(), 70).unwrap();
    assert!(client.deduct_fee(agent.clone(), asset.clone(), 101).is_err());
    withdraw(&mut client, admin.clone(), asset.clone(), 200).unwrap();
    assert!(withdraw(&mut client, admin.clone(), asset.clone(), 1_000).is_err());
    client.deposit(admin.clone(), asset.clone(), 30).unwrap();
    assert_eq!(client.get_balance(), 500 - 70 - 200 + 30);
}
