use std::str::FromStr;

use near_token::{DecimalNumberParsingError, NearToken, NearTokenError};

#[test]
fn parse_decimal_number() {
    let data = "0.123456 near";
    let gas: Result<NearToken, NearTokenError> = FromStr::from_str(data);
    assert_eq!(
        gas.unwrap(),
        NearToken::from_yoctonear(123456000000000000000000)
    );
}

#[test]
fn parse_number_with_decimal_part() {
    let data = "11.123456 near";
    let gas: Result<NearToken, NearTokenError> = FromStr::from_str(data);
    assert_eq!(
        gas.unwrap(),
        NearToken::from_yoctonear(11123456000000000000000000)
    );
}

#[test]
fn parse_yocto_number() {
    let data = "123456 YN";
    let gas: Result<NearToken, NearTokenError> = FromStr::from_str(data);
    assert_eq!(gas.unwrap(), NearToken::from_yoctonear(123456));
}

#[test]
fn parse_micro_number() {
    let data = "123456 microNEAR";
    let gas: Result<NearToken, NearTokenError> = FromStr::from_str(data);
    assert_eq!(gas.unwrap(), NearToken::from_micronear(123456));
}

#[test]
fn parse_milli_number() {
    let data = "123456 milliNEAR";
    let gas: Result<NearToken, NearTokenError> = FromStr::from_str(data);
    assert_eq!(gas.unwrap(), NearToken::from_millinear(123456));
}

#[test]
fn doubledot() {
    let data = "1.1.1 Near";
    let gas: Result<NearToken, NearTokenError> = FromStr::from_str(data);
    assert_eq!(
        gas,
        Err(NearTokenError::InvalidTokensAmount(
            DecimalNumberParsingError::InvalidNumber("1.1.1".to_owned())
        ))
    )
}

#[test]
fn space_after_dot() {
    let data = "1. 0 near";
    let gas: Result<NearToken, NearTokenError> = FromStr::from_str(data);
    assert_eq!(
        gas,
        Err(NearTokenError::InvalidTokensAmount(
            DecimalNumberParsingError::InvalidNumber("1. 0".to_owned())
        ))
    )
}

#[test]
fn incorect_currency() {
    let data = "0 pas";
    let gas: Result<NearToken, NearTokenError> = FromStr::from_str(data);
    assert_eq!(gas, Err(NearTokenError::InvalidTokenUnit(data.to_owned())))
}

#[test]
fn without_currency() {
    let data = "0";
    let gas: Result<NearToken, NearTokenError> = FromStr::from_str(data);
    assert_eq!(gas, Err(NearTokenError::InvalidTokenUnit("0".to_owned())))
}

#[test]
fn invalid_whole() {
    let data = "-1 Near";
    let gas: Result<NearToken, NearTokenError> = FromStr::from_str(data);
    assert_eq!(
        gas,
        Err(NearTokenError::InvalidTokensAmount(
            DecimalNumberParsingError::InvalidNumber("-1".to_owned())
        ))
    )
}

#[test]
fn test_from_str_f64_gas_without_int() {
    let near_gas = NearToken::from_str(".055 ynear").unwrap_err();
    assert_eq!(
        near_gas,
        NearTokenError::InvalidTokensAmount(DecimalNumberParsingError::LongFractional(
            "055".to_string()
        ))
    );
}

#[test]
fn test_from_str_without_unit() {
    let near_gas = NearToken::from_str("100").unwrap_err();
    assert_eq!(
        near_gas,
        NearTokenError::InvalidTokenUnit("100".to_string())
    );
}

#[test]
fn test_from_str_incorrect_unit() {
    let near_gas = NearToken::from_str("100 UAH").unwrap_err();
    assert_eq!(
        near_gas,
        NearTokenError::InvalidTokenUnit("100 UAH".to_string())
    );
}

#[test]
fn test_from_str_invalid_double_dot() {
    let near_gas = NearToken::from_str("100.55.").unwrap_err();
    assert_eq!(
        near_gas,
        NearTokenError::InvalidTokenUnit("100.55.".to_string())
    );
}

#[test]
fn test_from_str_large_fractional_part() {
    let near_gas = NearToken::from_str("100.1111122222333 ynear").unwrap_err();
    assert_eq!(
        near_gas,
        NearTokenError::InvalidTokensAmount(DecimalNumberParsingError::LongFractional(
            "1111122222333".to_string()
        ))
    );
}

#[test]
fn double_dot_with_upper_case_unit() {
    assert_eq!(
        NearToken::parse("1.1.1 NEAR"),
        Err(NearTokenError::InvalidTokensAmount(
            DecimalNumberParsingError::InvalidNumber("1.1.1".to_owned())
        ))
    );
}

#[test]
fn every_unit_spelling() {
    assert_eq!(NearToken::parse("7 yn"), Ok(NearToken::from_yoctonear(7)));
    assert_eq!(NearToken::parse("7 yNear"), Ok(NearToken::from_yoctonear(7)));
    assert_eq!(NearToken::parse("7 yoctonear"), Ok(NearToken::from_yoctonear(7)));
    assert_eq!(NearToken::parse("7 MicroNear"), Ok(NearToken::from_micronear(7)));
    assert_eq!(NearToken::parse("7 MILLINEAR"), Ok(NearToken::from_millinear(7)));
    assert_eq!(NearToken::parse("7 near"), Ok(NearToken::from_near(7)));
    assert_eq!(NearToken::parse("7 n"), Ok(NearToken::from_near(7)));
    assert_eq!(NearToken::parse("7N"), Ok(NearToken::from_near(7)));
}

#[test]
fn surrounding_white_space_is_ignored() {
    assert_eq!(NearToken::parse("  1.5 NEAR \n"), Ok(NearToken::from_millinear(1500)));
    assert_eq!(
        NearToken::parse(" 1 NE AR"),
        Err(NearTokenError::InvalidTokenUnit(" 1 NE AR".to_owned()))
    );
}

#[test]
fn trailing_dot_and_leading_zeros() {
    assert_eq!(NearToken::parse("5. NEAR"), Ok(NearToken::from_near(5)));
    assert_eq!(NearToken::parse("007.50 NEAR"), Ok(NearToken::from_millinear(7500)));
    assert_eq!(NearToken::parse("0.0 NEAR"), Ok(NearToken::zero()));
}

#[test]
fn whole_part_too_long() {
    assert_eq!(
        NearToken::parse("1000000000000000 NEAR"),
        Err(NearTokenError::InvalidTokensAmount(
            DecimalNumberParsingError::LongWhole("1000000000000000".to_owned())
        ))
    );
    assert_eq!(
        NearToken::parse("340282366920938463463374607431768211456 yn"),
        Err(NearTokenError::InvalidTokensAmount(
            DecimalNumberParsingError::LongWhole(
                "340282366920938463463374607431768211456".to_owned()
            )
        ))
    );
    assert_eq!(
        NearToken::parse("340282366920938463463374607431768211455 yn"),
        Ok(NearToken::max_value())
    );
    assert_eq!(
        NearToken::parse("340282366920938.463463374607431768211456 NEAR"),
        Err(NearTokenError::InvalidTokensAmount(
            DecimalNumberParsingError::LongWhole("340282366920938".to_owned())
        ))
    );
}

#[test]
fn empty_whole_part_before_fraction_digits() {
    assert_eq!(NearToken::parse(".5 near"), Ok(NearToken::from_millinear(500)));
    assert_eq!(NearToken::parse(".055 milliNEAR"), Ok(NearToken::from_micronear(55)));
    assert_eq!(
        NearToken::parse(". NEAR"),
        Err(NearTokenError::InvalidTokensAmount(
            DecimalNumberParsingError::InvalidNumber(".".to_owned())
        ))
    );
}

#[test]
fn from_str_agrees_with_parse() {
    for s in ["1.5 NEAR", ".5 near", "0", "100 UAH", "1.1.1 NEAR", "340282366920939 NEAR"] {
        assert_eq!(NearToken::from_str(s), NearToken::parse(s));
    }
}
