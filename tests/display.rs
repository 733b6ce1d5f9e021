use near_token::NearToken;

#[test]
fn test_display() {
    for (near_tokens, expected_display) in [
        (NearToken::from_yoctonear(0), "0 NEAR"),
        (NearToken::from_yoctonear(1), "<0.001 NEAR"),
        (NearToken::from_yoctonear(10u128.pow(21) - 1), "<0.001 NEAR"),
        (NearToken::from_yoctonear(10u128.pow(21)), "0.001 NEAR"),
        (NearToken::from_yoctonear(10u128.pow(21) + 1), "0.002 NEAR"),
        (NearToken::from_yoctonear(10u128.pow(21) * 2), "0.002 NEAR"),
        (
            NearToken::from_yoctonear(10u128.pow(21) * 200),
            "0.200 NEAR",
        ),
        (
            NearToken::from_yoctonear(10u128.pow(21) * 999),
            "0.999 NEAR",
        ),
        (
            NearToken::from_yoctonear(10u128.pow(21) * 999 + 1),
            "1.00 NEAR",
        ),
        (NearToken::from_yoctonear(10u128.pow(24) - 1), "1.00 NEAR"),
        (NearToken::from_yoctonear(10u128.pow(24)), "1.00 NEAR"),
        (NearToken::from_yoctonear(10u128.pow(24) + 1), "1.01 NEAR"),
        (
            NearToken::from_yoctonear(10u128.pow(21) * 1234),
            "1.24 NEAR",
        ),
        (
            NearToken::from_yoctonear(10u128.pow(21) * 1500),
            "1.50 NEAR",
        ),
        (
            NearToken::from_yoctonear(10u128.pow(21) * 10000),
            "10.00 NEAR",
        ),
        (
            NearToken::from_yoctonear(10u128.pow(21) * 10500),
            "10.50 NEAR",
        ),
        (
            NearToken::from_yoctonear(10u128.pow(21) * 100000 - 1),
            "100.00 NEAR",
        ),
        (
            NearToken::from_yoctonear(10u128.pow(21) * 100000),
            "100.00 NEAR",
        ),
        (
            NearToken::from_yoctonear(10u128.pow(21) * 100500),
            "100.50 NEAR",
        ),
        (
            NearToken::from_yoctonear(10u128.pow(21) * 100000000),
            "100000.00 NEAR",
        ),
        (
            NearToken::from_yoctonear(10u128.pow(21) * 100000500),
            "100000.50 NEAR",
        ),
    ] {
        assert_eq!(
            near_tokens.to_string(),
            expected_display,
            "tokens: {}",
            near_tokens.as_yoctonear()
        );
    }
}

#[test]
fn terse_display_rounds_up_past_a_thousandth() {
    for k in [1u128, 2, 41, 500, 998] {
        let above = NearToken::from_yoctonear(k * 10u128.pow(21) + 1);
        let next = NearToken::from_yoctonear((k + 1) * 10u128.pow(21));
        assert_eq!(above.to_string(), next.to_string());
    }
    assert_eq!(
        NearToken::from_yoctonear(41 * 10u128.pow(21) + 1).to_string(),
        "0.042 NEAR"
    );
}

#[test]
fn terse_display_of_the_largest_amount() {
    assert_eq!(
        NearToken::max_value().to_string(),
        "340282366920938.47 NEAR"
    );
}

#[test]
fn exact_amount_display_tokens() {
    let token = NearToken::from_yoctonear(0);
    assert_eq!(token.exact_amount_display(), "0 NEAR");

    let token = NearToken::from_yoctonear(500);
    assert_eq!(token.exact_amount_display(), "500 yoctoNEAR");

    let token = NearToken::from_yoctonear(10_u128.pow(24));
    assert_eq!(token.exact_amount_display(), "1 NEAR");

    let token = NearToken::from_yoctonear(15 * 10_u128.pow(23));
    assert_eq!(token.exact_amount_display(), "1.5 NEAR");

    let token = NearToken::from_yoctonear(1_234_567_890_123_456_789_000_000);
    assert_eq!(token.exact_amount_display(), "1.234567890123456789 NEAR");
}

#[test]
fn exact_display_edges() {
    assert_eq!(NearToken::from_yoctonear(1000).exact_amount_display(), "1000 yoctoNEAR");
    assert_eq!(
        NearToken::from_yoctonear(1001).exact_amount_display(),
        "0.000000000000000000001001 NEAR"
    );
    assert_eq!(
        NearToken::max_value().exact_amount_display(),
        "340282366920938.463463374607431768211455 NEAR"
    );
}

#[test]
fn exact_display_reads_back() {
    for v in [
        0u128,
        1,
        999,
        1000,
        1001,
        10u128.pow(21),
        15 * 10u128.pow(23),
        10u128.pow(24),
        1_234_567_890_123_456_789_000_000,
        u128::MAX,
    ] {
        let token = NearToken::from_yoctonear(v);
        let text = token.exact_amount_display();
        assert_eq!(NearToken::parse(&text), Ok(token), "text: {}", text);
    }
}
