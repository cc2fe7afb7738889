use unit_convert::conversion::{
    ConversionRequest, ConversionService, Measurement, MeasurementKind,
};
use unit_convert::rat::Ratio;

#[test]
fn test_search() {
    let conversion_service = ConversionService::new(get_static_measurements());

    let context = conversion_service
        .search("50km hi")
        .expect("Matches expected.")
        .remove(0);

    assert_eq!(context.value, Ratio::new(50, 1));
    assert_eq!(context.measurement.code, "km");
}

#[test]
fn test_convert() {
    let conversion_service = ConversionService::new(get_static_measurements());

    let request = ConversionRequest {
        from: conversion_service.find_by(|m| &m.code == "km").unwrap(),
        value: Ratio::new(50, 1),
        to_list: vec![conversion_service.find_by(|m| &m.code == "m").unwrap()],
    };

    let mut conversion = conversion_service.convert(request).unwrap();
    let to = conversion.to.remove(0);

    assert_eq!(to.value, Ratio::new(50000, 1));
}

fn entry(symbol: &str, code: &str, num: i64, den: u64, name: &str) -> Measurement {
    Measurement {
        symbol: symbol.into(),
        code: code.into(),
        rate: Ratio::new(num, den),
        name: name.into(),
        kind: MeasurementKind::Unit,
    }
}

fn get_static_measurements() -> Vec<Measurement> {
    vec![
        entry("m", "m", 1, 1, "meters"),
        entry("mm", "mm", 1000, 1, "millimeters"),
        entry("cm", "cm", 100, 1, "centimeters"),
        entry("km", "km", 1, 1000, "kilometers"),
        entry("\"", "inch", 3937007874, 100000000, "inches"),
        entry("'", "ft", 32808399, 10000000, "feet"),
        entry("yd", "yd", 10936133, 10000000, "yards"),
        entry("??C", "c", 0, 1, "celsius"),
        entry("??F", "f", 0, 1, "fahrenheit"),
        entry("K", "k", 0, 1, "kelvin"),
        entry("g", "g", 1, 1, "grams"),
        entry("tonne", "tonne", 1, 1000000, "tonne"),
        entry("oz", "oz", 3527399072294044, 100000000000000000, "ounces"),
        entry("lb", "lb", 22046244201837776, 10000000000000000000, "pounds"),
        entry("stone", "stone", 1574731232746851, 10000000000000000000, "stone"),
        entry("mg", "mg", 1000, 1, "milogram"),
        entry("kg", "kg", 1, 1000, "kilogram"),
        entry("mi", "mi", 6213712, 10000000000, "miles"),
    ]
}
