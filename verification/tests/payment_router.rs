use stellar_ai_payments::payment_router::{get_admin, PaymentRouterContract, Route};
use stellar_ai_payments::shared::{Address, Error, Transfer};

fn addr(key: &str) -> Address {
    Address { key: key.to_string() }
}

fn setup() -> (PaymentRouterContract, Address, Address) {
    let admin = addr("GADMIN");
    let mut contract = PaymentRouterContract::new();
    contract.initialize(admin.clone());
    let asset = addr("CASSET");
    (contract, admin, asset)
}

fn paid_to(transfers: &[Transfer], dest: &Address) -> i128 {
    transfers
        .iter()
        .map(|t| match t {
            Transfer::Outgoing { to, amount, .. } if to == dest => *amount,
            _ => 0,
        })
        .sum()
}

#[test]
fn test_set_and_get_routes() {
    let (mut client, admin, _) = setup();
    let dest1 = addr("GDEST1");
    let dest2 = addr("GDEST2");
    let routes = vec![
        Route { destination: dest1, bps: 7000 },
        Route { destination: dest2, bps: 3000 },
    ];
    client.set_routes(admin, routes).unwrap();
    assert_eq!(client.get_routes().len(), 2);
}

#[test]
fn test_routes_must_sum_to_10000() {
    let (mut client, admin, _) = setup();
    let dest = addr("GDEST");
    let bad_routes = vec![Route { destination: dest, bps: 5000 }];
    assert!(client.set_routes(admin, bad_routes).is_err());
}

#[test]
fn test_route_splits_payment() {
    let (mut client, admin, asset) = setup();
    let sender = addr("GSENDER");
    let dest1 = addr("GDEST1");
    let dest2 = addr("GDEST2");
    let routes = vec![
        Route { destination: dest1.clone(), bps: 6000 },
        Route { destination: dest2.clone(), bps: 4000 },
    ];
    client.set_routes(admin, routes).unwrap();
    let transfers = client.route(sender, asset, 10_000_0000000).unwrap();

    assert_eq!(paid_to(&transfers, &dest1), 6_000_0000000);
    assert_eq!(paid_to(&transfers, &dest2), 4_000_0000000);
}

#[test]
fn test_non_admin_cannot_set_routes() {
    let (mut client, _, _) = setup();
    let rando = addr("GRANDO");
    let dest = addr("GDEST");
    let routes = vec![Route { destination: dest, bps: 10000 }];
    assert!(client.set_routes(rando, routes).is_err());
}

#[test]
fn test_route_invalid_amount() {
    let (mut client, admin, asset) = setup();
    let dest = addr("GDEST");
    let routes = vec![Route { destination: dest, bps: 10000 }];
    client.set_routes(admin, routes).unwrap();
    let sender = addr("GSENDER");
    assert!(client.route(sender, asset, 0).is_err());
}

#[test]
fn route_pulls_in_full_then_pays_rounded_down_shares() {
    let (mut client, admin, asset) = setup();
    let sender = addr("GSENDER");
    let d1 = addr("GD1");
    let d2 = addr("GD2");
    let d3 = addr("GD3");
    let routes = vec![
        Route { destination: d1.clone(), bps: 3333 },
        Route { destination: d2.clone(), bps: 3333 },
        Route { destination: d3.clone(), bps: 3334 },
    ];
    client.set_routes(admin, routes).unwrap();
    let transfers = client.route(sender.clone(), asset.clone(), 100).unwrap();
    assert_eq!(
        transfers,
        vec![
            Transfer::Incoming { asset: asset.clone(), from: sender, amount: 100 },
            Transfer::Outgoing { asset: asset.clone(), to: d1, amount: 33 },
            Transfer::Outgoing { asset: asset.clone(), to: d2, amount: 33 },
            Transfer::Outgoing { asset, to: d3, amount: 33 },
        ]
    );
    // One unit of rounding stays in the contract: fewer than one per destination.
    let out: i128 = transfers[1..]
        .iter()
        .map(|t| match t {
            Transfer::Outgoing { amount, .. } => *amount,
            _ => 0,
        })
        .sum();
    assert_eq!(100 - out, 1);
}

#[test]
fn route_skips_shares_that_round_to_nothing() {
    let (mut client, admin, asset) = setup();
    let d1 = addr("GD1");
    let d2 = addr("GD2");
    let routes = vec![
        Route { destination: d1.clone(), bps: 9999 },
        Route { destination: d2.clone(), bps: 1 },
    ];
    client.set_routes(admin, routes).unwrap();
    let transfers = client.route(addr("GS"), asset.clone(), 5).unwrap();
    assert_eq!(transfers.len(), 2);
    assert_eq!(transfers[1], Transfer::Outgoing { asset, to: d1, amount: 4 });
}

#[test]
fn route_errors() {
    let (mut client, admin, asset) = setup();
    assert_eq!(client.route(addr("GS"), asset.clone(), 10), Err(Error::NotFound));
    assert_eq!(client.route(addr("GS"), asset.clone(), -1), Err(Error::InvalidAmount));
    assert_eq!(
        client.set_routes(admin.clone(), vec![Route { destination: addr("GD"), bps: 9999 }]),
        Err(Error::InvalidAmount)
    );
    assert_eq!(
        client.set_routes(addr("GX"), vec![Route { destination: addr("GD"), bps: 10000 }]),
        Err(Error::Unauthorized)
    );
    assert!(client.get_routes().is_empty());
}

#[test]
fn set_routes_then_get_reads_back() {
    let (mut client, admin, _) = setup();
    let routes = vec![
        Route { destination: addr("GA"), bps: 2500 },
        Route { destination: addr("GB"), bps: 7500 },
    ];
    client.set_routes(admin, routes.clone()).unwrap();
    assert_eq!(client.get_routes(), routes);
}

#[test]
fn router_admin_is_reported() {
    let mut client = PaymentRouterContract::new();
    assert_eq!(get_admin(&client), None);
    client.initialize(addr("GADMIN"));
    assert_eq!(get_admin(&client), Some(addr("GADMIN")));
}

#[test]
fn table_whose_bps_overflow_u32_is_refused() {
    let (mut client, admin, _) = setup();
    // u32::MAX + 10001 would wrap to 10000 in u32 arithmetic.
    let routes = vec![
        Route { destination: addr("GA"), bps: u32::MAX },
        Route { destination: addr("GB"), bps: 10001 },
    ];
    assert_eq!(client.set_routes(admin, routes), Err(Error::InvalidAmount));
    assert!(client.get_routes().is_empty());
}

#[test]
fn exact_shares_leave_nothing_behind() {
    let (mut client, admin, asset) = setup();
    let routes = vec![
        Route { destination: addr("GA"), bps: 2500 },
        Route { destination: addr("GB"), bps: 7500 },
    ];
    client.set_routes(admin, routes).unwrap();
    let transfers = client.route(addr("GS"), asset, 400).unwrap();
    let net: i128 = transfers
        .iter()
        .map(|t| match t {
            Transfer::Incoming { amount, .. } => *amount,
            Transfer::Outgoing { amount, .. } => -*amount,
        })
        .sum();
    assert_eq!(net, 0);
}
