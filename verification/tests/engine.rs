use unit_convert::conversion::{
    ConversionError, ConversionRequest, ConversionService, Measurement, MeasurementKind,
};
use unit_convert::rat::Ratio;

fn unit(symbol: &str, code: &str, num: i64, den: u64, name: &str) -> Measurement {
    Measurement {
        symbol: symbol.into(),
        code: code.into(),
        rate: Ratio::new(num, den),
        name: name.into(),
        kind: MeasurementKind::Unit,
    }
}

fn currency(symbol: &str, code: &str, num: i64, den: u64, name: &str) -> Measurement {
    Measurement {
        symbol: symbol.into(),
        code: code.into(),
        rate: Ratio::new(num, den),
        name: name.into(),
        kind: MeasurementKind::Currency,
    }
}

fn km_m_registry() -> Vec<Measurement> {
    vec![unit("km", "km", 1, 1000, "kilometers"), unit("m", "m", 1, 1, "meters")]
}

#[test]
fn search_finds_single_km_context() {
    let service = ConversionService::new(km_m_registry());
    let contexts = service.search("50km hi").expect("Matches expected.");
    assert_eq!(contexts.len(), 1);
    assert_eq!(contexts[0].measurement.code, "km");
    assert_eq!(contexts[0].value, Ratio::new(50, 1));
}

#[test]
fn convert_km_to_m() {
    let service = ConversionService::new(km_m_registry());
    let from = service.find_by(|m| &m.code == "km").unwrap();
    let to = service.find_by(|m| &m.code == "m").unwrap();
    let conversion = service
        .convert(ConversionRequest { from, value: Ratio::new(50, 1), to_list: vec![to] })
        .unwrap();
    assert_eq!(conversion.to.len(), 1);
    assert_eq!(conversion.to[0].to.code, "m");
    assert_eq!(conversion.to[0].value, Ratio::new(50000, 1));
}

#[test]
fn no_partial_token_match() {
    let service = ConversionService::new(km_m_registry());
    let result = service.search("5kmh");
    assert!(matches!(result, Err(ConversionError::NoConversions)));
}

#[test]
fn boundary_rejects_trailing_digit() {
    let service = ConversionService::new(km_m_registry());
    let result = service.search("50km6");
    assert!(matches!(result, Err(ConversionError::NoConversions)));
}

#[test]
fn no_tokens_means_no_conversions() {
    let service = ConversionService::new(km_m_registry());
    let result = service.search("hello world");
    assert!(matches!(result, Err(ConversionError::NoConversions)));
}

#[test]
fn matching_is_case_sensitive() {
    let service = ConversionService::new(km_m_registry());
    let result = service.search("50KM");
    assert!(matches!(result, Err(ConversionError::NoConversions)));
}

#[test]
fn search_parses_decimal_and_negative_literals() {
    let service = ConversionService::new(km_m_registry());
    let contexts = service.search("50.5km and -3m").unwrap();
    assert_eq!(contexts.len(), 2);
    assert_eq!(contexts[0].measurement.code, "km");
    assert_eq!(contexts[0].value, Ratio::new(505, 10));
    assert_eq!(contexts[1].measurement.code, "m");
    assert_eq!(contexts[1].value, Ratio::new(-3, 1));
}

#[test]
fn search_drops_unrepresentable_literal() {
    let service = ConversionService::new(km_m_registry());
    // 24 digits: the exact value of the literal does not fit, so the match is
    // silently dropped and nothing remains
    let result = service.search("999999999999999999999999km");
    assert!(matches!(result, Err(ConversionError::NoConversions)));
}

#[test]
fn currency_contexts_come_before_unit_contexts() {
    let service = ConversionService::new(vec![
        currency("usd", "usd", 1, 1, "dollars"),
        unit("km", "km", 1, 1000, "kilometers"),
    ]);
    let contexts = service.search("50km usd20").unwrap();
    assert_eq!(contexts.len(), 2);
    assert_eq!(contexts[0].measurement.code, "usd");
    assert_eq!(contexts[0].value, Ratio::new(20, 1));
    assert_eq!(contexts[1].measurement.code, "km");
    assert_eq!(contexts[1].value, Ratio::new(50, 1));
}

#[test]
fn denylisted_currency_never_matches() {
    let service = ConversionService::new(vec![
        currency("p", "p", 1, 1, "pence"),
        currency("$", "$", 1, 1, "dollar sign"),
        currency("usd", "usd", 2, 1, "dollars"),
    ]);
    assert!(matches!(service.search("p50"), Err(ConversionError::NoConversions)));
    assert!(matches!(service.search("$50"), Err(ConversionError::NoConversions)));
    let contexts = service.search("usd50").unwrap();
    assert_eq!(contexts.len(), 1);
    assert_eq!(contexts[0].measurement.code, "usd");
    assert_eq!(contexts[0].value, Ratio::new(50, 1));
}

#[test]
fn find_by_miss_returns_not_found() {
    let service = ConversionService::new(km_m_registry());
    let result = service.find_by(|m| &m.code == "zz");
    assert!(result.is_none());
}

#[test]
fn find_by_returns_first_match_in_insertion_order() {
    let service = ConversionService::new(vec![
        unit("km", "km", 1, 1000, "kilometers"),
        unit("km", "km", 7, 1, "impostor kilometers"),
    ]);
    let found = service.find_by(|m| &m.code == "km").unwrap();
    assert_eq!(found.name, "kilometers");
}

#[test]
fn duplicate_codes_resolve_to_first_entry() {
    let service = ConversionService::new(vec![
        unit("km", "km", 1, 1000, "kilometers"),
        unit("km", "km", 7, 1, "impostor kilometers"),
    ]);
    let contexts = service.search("50km").unwrap();
    assert_eq!(contexts.len(), 1);
    assert_eq!(contexts[0].measurement.name, "kilometers");
}

#[test]
fn identity_conversion_returns_value_unchanged() {
    let service = ConversionService::new(km_m_registry());
    let m1 = service.find_by(|m| &m.code == "m").unwrap();
    let m2 = service.find_by(|m| &m.code == "m").unwrap();
    let conversion = service
        .convert(ConversionRequest { from: m1, value: Ratio::new(7, 1), to_list: vec![m2] })
        .unwrap();
    assert!(conversion.to[0].value.same_value(&Ratio::new(7, 1)));
}

#[test]
fn round_trip_recovers_value() {
    let service = ConversionService::new(km_m_registry());
    let m = service.find_by(|x| &x.code == "m").unwrap();
    let km = service.find_by(|x| &x.code == "km").unwrap();
    let there = service
        .convert(ConversionRequest {
            from: m.clone(),
            value: Ratio::new(50, 1),
            to_list: vec![km.clone()],
        })
        .unwrap();
    let midway = there.to[0].value;
    assert!(midway.same_value(&Ratio::new(50, 1000)));
    let back = service
        .convert(ConversionRequest { from: km, value: midway, to_list: vec![m] })
        .unwrap();
    assert!(back.to[0].value.same_value(&Ratio::new(50, 1)));
}

fn temperature_registry() -> Vec<Measurement> {
    vec![
        unit("°C", "c", 0, 1, "celsius"),
        unit("°F", "f", 0, 1, "fahrenheit"),
        unit("K", "k", 0, 1, "kelvin"),
        unit("m", "m", 1, 1, "meters"),
    ]
}

#[test]
fn celsius_to_fahrenheit_uses_explicit_formula() {
    let service = ConversionService::new(temperature_registry());
    let c = service.find_by(|m| &m.code == "c").unwrap();
    let f = service.find_by(|m| &m.code == "f").unwrap();
    let conversion = service
        .convert(ConversionRequest { from: c, value: Ratio::new(25, 1), to_list: vec![f] })
        .unwrap();
    assert_eq!(conversion.to[0].value, Ratio::new(385, 5));
    assert!(conversion.to[0].value.same_value(&Ratio::new(77, 1)));
}

#[test]
fn fahrenheit_to_celsius_uses_explicit_formula() {
    let service = ConversionService::new(temperature_registry());
    let f = service.find_by(|m| &m.code == "f").unwrap();
    let c = service.find_by(|m| &m.code == "c").unwrap();
    let conversion = service
        .convert(ConversionRequest { from: f, value: Ratio::new(77, 1), to_list: vec![c] })
        .unwrap();
    assert!(conversion.to[0].value.same_value(&Ratio::new(25, 1)));
}

#[test]
fn temperature_round_trip_is_exact() {
    let service = ConversionService::new(temperature_registry());
    let c = service.find_by(|m| &m.code == "c").unwrap();
    let f = service.find_by(|m| &m.code == "f").unwrap();
    let there = service
        .convert(ConversionRequest {
            from: c.clone(),
            value: Ratio::new(25, 1),
            to_list: vec![f.clone()],
        })
        .unwrap();
    let back = service
        .convert(ConversionRequest { from: f, value: there.to[0].value, to_list: vec![c] })
        .unwrap();
    assert!(back.to[0].value.same_value(&Ratio::new(25, 1)));
}

#[test]
fn zero_rate_source_is_unsupported() {
    let service = ConversionService::new(temperature_registry());
    let k = service.find_by(|m| &m.code == "k").unwrap();
    let m = service.find_by(|m| &m.code == "m").unwrap();
    let result = service.convert(ConversionRequest {
        from: k,
        value: Ratio::new(300, 1),
        to_list: vec![m],
    });
    assert!(matches!(result, Err(ConversionError::UnsupportedConversion)));
}

#[test]
fn oversized_exact_result_is_reported() {
    let service = ConversionService::new(km_m_registry());
    let huge = unit("x", "x", i64::MAX, 1, "huge");
    let from = unit("y", "y", 1, 1, "unity");
    let result = service.convert(ConversionRequest {
        from,
        value: Ratio::new(i64::MAX, 1),
        to_list: vec![huge],
    });
    assert!(matches!(result, Err(ConversionError::ValueOutOfRange)));
}

#[test]
fn empty_target_list_yields_empty_result() {
    let service = ConversionService::new(km_m_registry());
    let km = service.find_by(|m| &m.code == "km").unwrap();
    let conversion = service
        .convert(ConversionRequest { from: km, value: Ratio::new(5, 1), to_list: vec![] })
        .unwrap();
    assert_eq!(conversion.to.len(), 0);
    assert_eq!(conversion.base_value, Ratio::new(5, 1));
}

#[test]
fn is_currency_classifies_kinds() {
    assert!(MeasurementKind::Currency.is_currency());
    assert!(!MeasurementKind::Unit.is_currency());
}

#[test]
fn signed_currency_amounts_are_recognized() {
    let service = ConversionService::new(vec![currency("usd", "usd", 1, 1, "dollars")]);
    let contexts = service.search("usd-12.5").unwrap();
    assert_eq!(contexts.len(), 1);
    assert_eq!(contexts[0].value, Ratio::new(-125, 10));
}
