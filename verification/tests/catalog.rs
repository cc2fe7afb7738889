use unit_convert::conversion::{ConversionRequest, ConversionService};
use unit_convert::data::{_get_others, get_measurements};
use unit_convert::rat::Ratio;

#[test]
fn builtin_catalog_converts_lengths() {
    let service = ConversionService::new(get_measurements());
    let from = service.find_by(|m| &m.code == "km").unwrap();
    let to = service.find_by(|m| &m.code == "m").unwrap();
    let conversion = service
        .convert(ConversionRequest { from, value: Ratio::new(50, 1), to_list: vec![to] })
        .unwrap();
    assert_eq!(conversion.to[0].value, Ratio::new(50000, 1));
}

#[test]
fn builtin_catalog_holds_every_entry() {
    let catalog = get_measurements();
    assert_eq!(catalog.len(), 18);
    assert_eq!(catalog[0].code, "m");
    assert_eq!(catalog[4].code, "inch");
    assert_eq!(catalog[4].symbol, "\"");
    assert_eq!(catalog[4].rate, Ratio::new(3937007874, 100000000));
    assert_eq!(catalog[17].code, "mi");
}

#[test]
fn builtin_catalog_recognizes_inch_symbol_quirk() {
    // unit tokens come from codes, lookups go by symbol: the inch entry's
    // symbol is `"` so a literal `5inch` matches the pattern but resolves to
    // no measurement and is dropped
    let service = ConversionService::new(get_measurements());
    let result = service.search("5inch");
    assert!(result.is_err());
}

#[test]
fn dimension_groups_expand_to_nothing() {
    _get_others();
}
