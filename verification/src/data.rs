//! The built-in measurement catalog.
//!
//! A static table of length, temperature and mass measurements, usable when
//! no external data source supplies the catalog. Rates are exact decimal
//! rationals: each is the measurement's value per one base unit of its
//! dimension (meters for length, grams for mass); the temperature scales
//! carry rate zero and convert by explicit formulas instead.

use vstd::prelude::*;

use crate::conversion::{meas_models, Measurement, MeasurementKind, MeasurementModel};
use crate::rat::{Ratio, RatioModel};

verus! {

/// One catalog entry, by its parts.
pub open spec fn entry(
    symbol: Seq<char>,
    code: Seq<char>,
    num: int,
    den: int,
    name: Seq<char>,
) -> MeasurementModel {
    MeasurementModel {
        symbol: symbol,
        code: code,
        rate: RatioModel { num: num, den: den },
        name: name,
        kind: MeasurementKind::Unit,
    }
}

/// The models of the built-in catalog, in order.
pub open spec fn builtin_catalog() -> Seq<MeasurementModel> {
    seq![
        entry("m"@, "m"@, 1, 1, "meters"@),
        entry("mm"@, "mm"@, 1000, 1, "millimeters"@),
        entry("cm"@, "cm"@, 100, 1, "centimeters"@),
        entry("km"@, "km"@, 1, 1000, "kilometers"@),
        entry("\""@, "inch"@, 3937007874, 100000000, "inches"@),
        entry("'"@, "ft"@, 32808399, 10000000, "feet"@),
        entry("yd"@, "yd"@, 10936133, 10000000, "yards"@),
        entry("°C"@, "c"@, 0, 1, "celsius"@),
        entry("°F"@, "f"@, 0, 1, "fahrenheit"@),
        entry("K"@, "k"@, 0, 1, "kelvin"@),
        entry("g"@, "g"@, 1, 1, "grams"@),
        entry("tonne"@, "tonne"@, 1, 1000000, "tonne"@),
        entry("oz"@, "oz"@, 3527399072294044, 100000000000000000, "ounces"@),
        entry("lb"@, "lb"@, 22046244201837776, 10000000000000000000, "pounds"@),
        entry("stone"@, "stone"@, 1574731232746851, 10000000000000000000, "stone"@),
        entry("mg"@, "mg"@, 1000, 1, "milogram"@),
        entry("kg"@, "kg"@, 1, 1000, "kilogram"@),
        entry("mi"@, "mi"@, 6213712, 10000000000, "miles"@),
    ]
}

/// The built-in catalog: every entry a physical unit, rates exact.
pub fn get_measurements() -> (r: Vec<Measurement>)
    ensures
        meas_models(r@) == builtin_catalog(),
        r@.len() == 18,
{
    let mut r: Vec<Measurement> = Vec::new();
    r.push(Measurement {
        symbol: "m".to_owned(),
        code: "m".to_owned(),
        rate: Ratio::new(1, 1),
        name: "meters".to_owned(),
        kind: MeasurementKind::Unit,
    });
    r.push(Measurement {
        symbol: "mm".to_owned(),
        code: "mm".to_owned(),
        rate: Ratio::new(1000, 1),
        name: "millimeters".to_owned(),
        kind: MeasurementKind::Unit,
    });
    r.push(Measurement {
        symbol: "cm".to_owned(),
        code: "cm".to_owned(),
        rate: Ratio::new(100, 1),
        name: "centimeters".to_owned(),
        kind: MeasurementKind::Unit,
    });
    r.push(Measurement {
        symbol: "km".to_owned(),
        code: "km".to_owned(),
        rate: Ratio::new(1, 1000),
        name: "kilometers".to_owned(),
        kind: MeasurementKind::Unit,
    });
    r.push(Measurement {
        symbol: "\"".to_owned(),
        code: "inch".to_owned(),
        rate: Ratio::new(3937007874, 100000000),
        name: "inches".to_owned(),
        kind: MeasurementKind::Unit,
    });
    r.push(Measurement {
        symbol: "'".to_owned(),
        code: "ft".to_owned(),
        rate: Ratio::new(32808399, 10000000),
        name: "feet".to_owned(),
        kind: MeasurementKind::Unit,
    });
    r.push(Measurement {
        symbol: "yd".to_owned(),
        code: "yd".to_owned(),
        rate: Ratio::new(10936133, 10000000),
        name: "yards".to_owned(),
        kind: MeasurementKind::Unit,
    });
    r.push(Measurement {
        symbol: "°C".to_owned(),
        code: "c".to_owned(),
        rate: Ratio::new(0, 1),
        name: "celsius".to_owned(),
        kind: MeasurementKind::Unit,
    });
    r.push(Measurement {
        symbol: "°F".to_owned(),
        code: "f".to_owned(),
        rate: Ratio::new(0, 1),
        name: "fahrenheit".to_owned(),
        kind: MeasurementKind::Unit,
    });
    r.push(Measurement {
        symbol: "K".to_owned(),
        code: "k".to_owned(),
        rate: Ratio::new(0, 1),
        name: "kelvin".to_owned(),
        kind: MeasurementKind::Unit,
    });
    r.push(Measurement {
        symbol: "g".to_owned(),
        code: "g".to_owned(),
        rate: Ratio::new(1, 1),
        name: "grams".to_owned(),
        kind: MeasurementKind::Unit,
    });
    r.push(Measurement {
        symbol: "tonne".to_owned(),
        code: "tonne".to_owned(),
        rate: Ratio::new(1, 1000000),
        name: "tonne".to_owned(),
        kind: MeasurementKind::Unit,
    });
    r.push(Measurement {
        symbol: "oz".to_owned(),
        code: "oz".to_owned(),
        rate: Ratio::new(3527399072294044, 100000000000000000),
        name: "ounces".to_owned(),
        kind: MeasurementKind::Unit,
    });
    r.push(Measurement {
        symbol: "lb".to_owned(),
        code: "lb".to_owned(),
        rate: Ratio::new(22046244201837776, 10000000000000000000),
        name: "pounds".to_owned(),
        kind: MeasurementKind::Unit,
    });
    r.push(Measurement {
        symbol: "stone".to_owned(),
        code: "stone".to_owned(),
        rate: Ratio::new(1574731232746851, 10000000000000000000),
        name: "stone".to_owned(),
        kind: MeasurementKind::Unit,
    });
    r.push(Measurement {
        symbol: "mg".to_owned(),
        code: "mg".to_owned(),
        rate: Ratio::new(1000, 1),
        name: "milogram".to_owned(),
        kind: MeasurementKind::Unit,
    });
    r.push(Measurement {
        symbol: "kg".to_owned(),
        code: "kg".to_owned(),
        rate: Ratio::new(1, 1000),
        name: "kilogram".to_owned(),
        kind: MeasurementKind::Unit,
    });
    r.push(Measurement {
        symbol: "mi".to_owned(),
        code: "mi".to_owned(),
        rate: Ratio::new(6213712, 10000000000),
        name: "miles".to_owned(),
        kind: MeasurementKind::Unit,
    });
    proof {
        assert(meas_models(r@) =~= builtin_catalog());
    }
    r
}

/// Groups of measurement codes that share a dimension, kept for selecting
/// cross-unit targets. No lookup table is derived from them: the derivation
/// yields an empty table, and callers treat it so.
pub fn _get_others() {
    let _groups: Vec<Vec<&'static str>> = vec![
        vec!["c", "f"],
        vec!["kg", "lb"],
        vec!["g", "oz"],
        vec!["cm", "inch", "ft"],
        vec!["km", "mi"],
        vec!["m", "yd", "ft"],
    ];
}

} // verus!
