use veeduria::{
    contract_flags, histogram_bucket, is_undefined_object, is_zero_value, risk_level_for, score_contract,
    summarize, ContratoSecop, RedFlag, RiskLevel,
};
use veeduria::{eq_bits, ge_bits, lt_bits};

fn contract(value: Option<&str>, object: Option<&str>) -> ContratoSecop {
    ContratoSecop {
        valor_del_contrato: value.map(|v| v.to_string()),
        objeto_del_contrato: object.map(|o| o.to_string()),
        ..Default::default()
    }
}

fn parse(c: &ContratoSecop) -> Option<u64> {
    c.valor_del_contrato.as_ref().and_then(|v| v.parse::<f64>().ok()).map(f64::to_bits)
}

#[test]
fn zero_value_and_undefined_object_is_high_risk() {
    let mut c = contract(Some("0"), Some("No definido"));
    let amount = parse(&c);
    let flags = score_contract(&mut c, amount);
    assert_eq!(flags, vec![RedFlag::ZeroValue, RedFlag::UndefinedObject]);
    assert_eq!(c.risk_level.as_deref(), Some("Alto"));
    assert_eq!(c.red_flags, Some(vec!["Valor Cero".to_string(), "Objeto Indefinido".to_string()]));
    assert_eq!(c.valor_del_contrato.as_deref(), Some("0"));
}

#[test]
fn clean_contract_is_low_risk_in_third_bucket() {
    let mut cs = vec![contract(Some("75000000"), Some("Suministro de equipos"))];
    let amounts: Vec<Option<u64>> = cs.iter().map(parse).collect();
    let stats = summarize(&mut cs, &amounts);
    assert_eq!(cs[0].risk_level.as_deref(), Some("Bajo"));
    assert_eq!(cs[0].red_flags, Some(vec![]));
    assert_eq!(stats.histogram, [0, 0, 1, 0, 0]);
    assert_eq!(stats.red_flags_count, 0);
}

#[test]
fn missing_object_is_medium_risk() {
    let mut c = contract(Some("5"), None);
    let amount = parse(&c);
    assert_eq!(score_contract(&mut c, amount), vec![RedFlag::MissingObject]);
    assert_eq!(c.risk_level.as_deref(), Some("Medio"));
    assert_eq!(c.red_flags, Some(vec!["Objeto Faltante".to_string()]));
}

#[test]
fn placeholder_phrase_is_case_insensitive() {
    assert_eq!(contract_flags(None, &Some("EL OBJETO A CONTRATAR ES".to_string())), vec![RedFlag::UndefinedObject]);
    assert_eq!(contract_flags(None, &Some("NO DEFINIDO".to_string())), vec![RedFlag::UndefinedObject]);
    assert_eq!(contract_flags(None, &Some("no definido todavia".to_string())), vec![]);
    assert!(is_undefined_object("no definido"));
    assert!(is_undefined_object("xx objeto a contratar"));
    assert!(!is_undefined_object("objeto a contrata"));
}

#[test]
fn risk_levels_by_flag_count() {
    assert_eq!(risk_level_for(0), RiskLevel::Low);
    assert_eq!(risk_level_for(1), RiskLevel::Medium);
    assert_eq!(risk_level_for(2), RiskLevel::High);
    assert_eq!(risk_level_for(3), RiskLevel::High);
    assert_eq!(RiskLevel::High.label(), "Alto");
}

#[test]
fn bucket_bounds_are_right_exclusive() {
    let b = |v: f64| histogram_bucket(v.to_bits());
    assert_eq!(b(0.0), 0);
    assert_eq!(b(9_999_999.99), 0);
    assert_eq!(b(10_000_000.0), 1);
    assert_eq!(b(49_999_999.0), 1);
    assert_eq!(b(50_000_000.0), 2);
    assert_eq!(b(100_000_000.0), 3);
    assert_eq!(b(499_999_999.0), 3);
    assert_eq!(b(500_000_000.0), 4);
    assert_eq!(b(1e12), 4);
    assert_eq!(b(-5.0), 0);
    assert_eq!(b(f64::NAN), 4);
    assert_eq!(b(f64::INFINITY), 4);
}

#[test]
fn zero_detection_covers_both_zeros() {
    assert!(is_zero_value(0.0f64.to_bits()));
    assert!(is_zero_value((-0.0f64).to_bits()));
    assert!(!is_zero_value(1e-300f64.to_bits()));
    assert!(!is_zero_value(f64::NAN.to_bits()));
}

#[test]
fn float_order_on_patterns() {
    let pairs = [(-1.0f64, 2.0f64), (-3.0, -2.0), (0.5, 0.85), (-0.0, 0.0), (1.0, f64::NAN), (f64::NEG_INFINITY, -1e300)];
    for (a, b) in pairs {
        assert_eq!(lt_bits(a.to_bits(), b.to_bits()), a < b);
        assert_eq!(lt_bits(b.to_bits(), a.to_bits()), b < a);
        assert_eq!(eq_bits(a.to_bits(), b.to_bits()), a == b);
        assert_eq!(ge_bits(a.to_bits(), b.to_bits()), a >= b);
    }
}

#[test]
fn histogram_partitions_parsed_values() {
    let mut cs = vec![
        contract(Some("0"), Some("No definido")),
        contract(Some("abc"), Some("Obra")),
        contract(None, None),
        contract(Some("12000000"), Some("Obra")),
        contract(Some("600000000"), Some("objeto a contratar")),
        contract(Some("75000000"), Some("Obra")),
        contract(Some("250000000.5"), Some("Obra")),
    ];
    let amounts: Vec<Option<u64>> = cs.iter().map(parse).collect();
    let stats = summarize(&mut cs, &amounts);
    let parsed = amounts.iter().filter(|a| a.is_some()).count();
    assert_eq!(stats.histogram.iter().sum::<usize>(), parsed);
    assert_eq!(stats.histogram, [1, 1, 1, 1, 1]);
    assert_eq!(stats.total_contracts, 7);
    assert_eq!(stats.zero_value_count, 1);
    assert_eq!(stats.undefined_object_count, 3);
    assert_eq!(stats.red_flags_count, 4);
    assert_eq!(cs[0].risk_level.as_deref(), Some("Alto"));
    assert_eq!(cs[1].risk_level.as_deref(), Some("Bajo"));
    assert_eq!(cs[2].risk_level.as_deref(), Some("Medio"));
}
