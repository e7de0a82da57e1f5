use alarms_dispatcher::feeder::comparison_env_var_name;
use alarms_dispatcher::feeder::provider_env_var_name;
use alarms_dispatcher::osmosis::Client;
use alarms_dispatcher::osmosis::FeedProviderError;
use alarms_dispatcher::osmosis::Ratio;
use alarms_dispatcher::osmosis::SwapLeg;
use alarms_dispatcher::osmosis::SwapTarget;
use alarms_dispatcher::price::Coin;
use alarms_dispatcher::price::Price;

#[test]
fn ratio_from_decimal_keeps_exact_fractions() {
    assert_eq!(
        Ratio::from_decimal(b"1.25"),
        Some(Ratio { numerator: 125, denominator: 100 })
    );
    // Trailing fractional zeroes are dropped first.
    assert_eq!(
        Ratio::from_decimal(b"1.250"),
        Some(Ratio { numerator: 125, denominator: 100 })
    );
    assert_eq!(
        Ratio::from_decimal(b"10.00"),
        Some(Ratio { numerator: 10, denominator: 1 })
    );
    assert_eq!(
        Ratio::from_decimal(b"12"),
        Some(Ratio { numerator: 12, denominator: 1 })
    );
    assert_eq!(
        Ratio::from_decimal(b".5"),
        Some(Ratio { numerator: 5, denominator: 10 })
    );
    assert_eq!(
        Ratio::from_decimal(b"0.50"),
        Some(Ratio { numerator: 5, denominator: 10 })
    );
}

#[test]
fn ratio_from_decimal_rejects_junk() {
    // A mantissa of zeroes strips to nothing.
    assert_eq!(Ratio::from_decimal(b"0"), None);
    assert_eq!(Ratio::from_decimal(b"0.000"), None);
    assert_eq!(Ratio::from_decimal(b""), None);
    assert_eq!(Ratio::from_decimal(b"."), None);
    assert_eq!(Ratio::from_decimal(b"1.2.3"), None);
    assert_eq!(Ratio::from_decimal(b"12a"), None);
    // 39 surviving fractional digits: the denominator cannot fit.
    assert_eq!(
        Ratio::from_decimal(b"1.000000000000000000000000000000000000001"),
        None
    );
    // 38 can.
    assert_eq!(
        Ratio::from_decimal(b"0.00000000000000000000000000000000000001"),
        Some(Ratio { numerator: 1, denominator: 100000000000000000000000000000000000000 })
    );
}

#[test]
fn price_construction_and_zero_test() {
    let p = Price::new("OSMO".to_string(), 125, "USDC".to_string(), 100);
    assert_eq!(p.amount.amount, 125);
    assert_eq!(p.amount.symbol, "OSMO");
    assert_eq!(p.amount_quote.amount, 100);
    assert_eq!(p.amount_quote.symbol, "USDC");
    assert!(!p.is_zero());

    let z = Price::new_from_coins(
        Coin { amount: 0, symbol: "OSMO".to_string() },
        Coin { amount: 3, symbol: "USDC".to_string() },
    );
    assert!(z.is_zero());
}

fn currencies() -> Vec<(String, String)> {
    vec![
        ("OSMO".to_string(), "uosmo".to_string()),
        ("USDC".to_string(), "uusdc".to_string()),
    ]
}

#[test]
fn client_requires_a_valid_base_url() {
    let c = Client::new("https://lcd.osmosis.zone/osmosis/gamm/v1beta1/", currencies());
    assert!(c.is_ok());
    match Client::new("not a url", currencies()) {
        Err(FeedProviderError::InvalidProviderURL(u)) => assert_eq!(u, "not a url"),
        _ => panic!("an unparsable base URL must be rejected"),
    }
    assert_eq!(Client::new("http://x", currencies()).unwrap().name(), "Osmosis");
}

#[test]
fn planning_keeps_only_known_pairs_in_order() {
    let client = Client::new("http://x", currencies()).unwrap();
    let legs = vec![
        SwapLeg {
            from: "OSMO".to_string(),
            to: SwapTarget { pool_id: 678, target: "USDC".to_string() },
        },
        SwapLeg {
            from: "OSMO".to_string(),
            to: SwapTarget { pool_id: 1, target: "ATOM".to_string() },
        },
        SwapLeg {
            from: "USDC".to_string(),
            to: SwapTarget { pool_id: 2, target: "OSMO".to_string() },
        },
    ];
    let plan = client.plan_spot_price_requests(&legs);
    assert_eq!(plan.len(), 2);
    assert_eq!(plan[0].pool_id, 678);
    assert_eq!(plan[0].from_ticker, "OSMO");
    assert_eq!(plan[0].from_symbol, "uosmo");
    assert_eq!(plan[0].to_ticker, "USDC");
    assert_eq!(plan[0].to_symbol, "uusdc");
    assert_eq!(plan[1].pool_id, 2);
    assert_eq!(plan[1].from_ticker, "USDC");
    assert_eq!(plan[1].to_ticker, "OSMO");
}

#[test]
fn env_var_names_are_prefixed_and_upper_cased() {
    assert_eq!(
        provider_env_var_name(b"osmosis", b"base_url"),
        b"PROVIDER_OSMOSIS_BASE_URL".to_vec()
    );
    assert_eq!(
        comparison_env_var_name(b"osmosis", b"base_url"),
        b"COMPARISON_PROVIDER_OSMOSIS_BASE_URL".to_vec()
    );
}
