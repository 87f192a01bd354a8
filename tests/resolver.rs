use veeduria::{Contractor, EntityResolver, MatchResult, PartyId, FUZZY_THRESHOLD_BITS};

#[test]
fn test_exact_match_by_nit() {
    let mut resolver = EntityResolver::new();

    let contractor = Contractor::new("Empresa ABC S.A.S.".to_string(), "900123456".to_string());
    let expected_id = contractor.id;
    resolver.register(contractor);

    let result = resolver.resolve("900123456", "Empresa ABC");
    assert!(matches!(result, MatchResult::ExactMatch(id) if id == expected_id));
}

#[test]
fn test_fuzzy_match_by_name() {
    let mut resolver = EntityResolver::new();

    let contractor = Contractor::new("CONSTRUCTORA NACIONAL S.A.S.".to_string(), "900111222".to_string());
    let expected_id = contractor.id;
    resolver.register(contractor);

    let result = resolver.resolve("999999999", "CONSTRUCTORA NACONAL");
    assert!(matches!(result, MatchResult::FuzzyMatch { id, confidence }
        if id == expected_id && f64::from_bits(confidence) > 0.85));
}

#[test]
fn test_no_match() {
    let mut resolver = EntityResolver::new();

    let contractor = Contractor::new("Empresa XYZ".to_string(), "900999888".to_string());
    resolver.register(contractor);

    let result = resolver.resolve("111222333", "Totally Different Company");
    assert!(matches!(result, MatchResult::NoMatch));
}

#[test]
fn exact_match_strips_id_separators() {
    let mut resolver = EntityResolver::new();
    let a = Contractor::new("Empresa ABC S.A.S.".to_string(), "900123456".to_string());
    let a_id = a.id;
    resolver.register(a);
    assert_eq!(resolver.resolve("900-123.456", "Empresa ABC"), MatchResult::ExactMatch(a_id));
    assert_eq!(resolver.resolve("  900.123-456 ", "Someone Else"), MatchResult::ExactMatch(a_id));
}

#[test]
fn legal_id_wins_over_a_closer_name() {
    let mut resolver = EntityResolver::new();
    let a = Contractor::with_id(PartyId { value: 1 }, "ALFA".to_string(), "111".to_string());
    let b = Contractor::with_id(PartyId { value: 2 }, "BETA".to_string(), "222".to_string());
    resolver.register(a);
    resolver.register(b);
    assert_eq!(resolver.resolve("111", "BETA"), MatchResult::ExactMatch(PartyId { value: 1 }));
}

#[test]
fn exact_name_match_after_normalisation() {
    let mut resolver = EntityResolver::new();
    let a = Contractor::with_id(PartyId { value: 7 }, "Constructora Andina LTDA".to_string(), "800".to_string());
    resolver.register(a);
    assert_eq!(resolver.resolve("999", "  CONSTRUCTORA ANDINA "), MatchResult::ExactMatch(PartyId { value: 7 }));
}

#[test]
fn similarity_exactly_at_threshold_is_fuzzy() {
    let mut resolver = EntityResolver::new();
    resolver.register(Contractor::with_id(PartyId { value: 3 }, "CBACD".to_string(), "1".to_string()));
    let result = resolver.resolve("2", "BCCD");
    assert_eq!(result, MatchResult::FuzzyMatch { id: PartyId { value: 3 }, confidence: FUZZY_THRESHOLD_BITS });
    assert_eq!(f64::from_bits(FUZZY_THRESHOLD_BITS), 0.85);
}

#[test]
fn similarity_just_below_threshold_is_no_match() {
    let mut resolver = EntityResolver::new();
    resolver.register(Contractor::with_id(PartyId { value: 3 }, "ADEECE".to_string(), "1".to_string()));
    assert_eq!(resolver.resolve("2", "DEDECEB"), MatchResult::NoMatch);
}

#[test]
fn fuzzy_tie_goes_to_first_registered() {
    let mut resolver = EntityResolver::new();
    resolver.register(Contractor::with_id(PartyId { value: 10 }, "CONSTRUCTORA NACIONALX".to_string(), "1".to_string()));
    resolver.register(Contractor::with_id(PartyId { value: 11 }, "CONSTRUCTORA NACIONALY".to_string(), "2".to_string()));
    let result = resolver.resolve("3", "CONSTRUCTORA NACIONAL");
    assert!(matches!(result, MatchResult::FuzzyMatch { id, .. } if id == PartyId { value: 10 }));
}

#[test]
fn resolve_is_deterministic() {
    let mut resolver = EntityResolver::new();
    resolver.register(Contractor::new("CONSTRUCTORA NACIONAL S.A.S.".to_string(), "900111222".to_string()));
    resolver.register(Contractor::new("CONSTRUCTORA NACIONAL DEL SUR".to_string(), "900111333".to_string()));
    let first = resolver.resolve("1", "CONSTRUCTORA NACONAL");
    for _ in 0..5 {
        assert_eq!(resolver.resolve("1", "CONSTRUCTORA NACONAL"), first);
    }
}

#[test]
fn registry_accessors() {
    let mut resolver = EntityResolver::default();
    assert!(resolver.is_empty());
    assert_eq!(resolver.len(), 0);
    let c = Contractor::new("Empresa XYZ".to_string(), "900999888".to_string());
    let id = c.id;
    resolver.register(c);
    assert!(!resolver.is_empty());
    assert_eq!(resolver.len(), 1);
    assert_eq!(resolver.get(&id).map(|c| c.name.clone()), Some("Empresa XYZ".to_string()));
    assert!(resolver.get(&PartyId { value: id.value.wrapping_add(1) }).is_none());
    if let Some(c) = resolver.get_mut(&id) {
        c.name = "Empresa XYZ Renombrada".to_string();
    }
    assert_eq!(resolver.get(&id).map(|c| c.name.clone()), Some("Empresa XYZ Renombrada".to_string()));
}

#[test]
fn fresh_contractors_get_distinct_ids() {
    let a = Contractor::new("A".to_string(), "1".to_string());
    let b = Contractor::new("A".to_string(), "1".to_string());
    assert_ne!(a.id, b.id);
}

#[test]
fn duplicate_registration_shadows_the_earlier_party() {
    let mut resolver = EntityResolver::new();
    resolver.register(Contractor::with_id(PartyId { value: 1 }, "ALFA".to_string(), "111".to_string()));
    resolver.register(Contractor::with_id(PartyId { value: 2 }, "GAMMA".to_string(), "111".to_string()));
    assert_eq!(resolver.resolve("111", "x"), MatchResult::ExactMatch(PartyId { value: 2 }));
    assert_eq!(resolver.resolve("999", "ALFA"), MatchResult::ExactMatch(PartyId { value: 1 }));
    assert_eq!(resolver.len(), 2);
}

#[test]
fn stored_legal_id_is_canonical() {
    let mut resolver = EntityResolver::new();
    let c = Contractor::new("Empresa ABC S.A.S.".to_string(), " 900-123.456 ".to_string());
    let id = c.id;
    resolver.register(c);
    let stored = resolver.get(&id).unwrap();
    assert_eq!(stored.legal_id, "900123456");
    assert_eq!(stored.name, "Empresa ABC S.A.S.");
    assert_eq!(resolver.resolve("900123456", "otro"), MatchResult::ExactMatch(id));
}

#[test]
fn fuzzy_confidence_is_at_most_one() {
    let mut resolver = EntityResolver::new();
    resolver.register(Contractor::with_id(PartyId { value: 4 }, "CONSTRUCTORA NACIONAL".to_string(), "1".to_string()));
    match resolver.resolve("2", "CONSTRUCTORA NACIONALL") {
        MatchResult::FuzzyMatch { id, confidence } => {
            assert_eq!(id, PartyId { value: 4 });
            let c = f64::from_bits(confidence);
            assert!(c >= 0.85 && c <= 1.0);
        }
        other => panic!("expected a fuzzy match, got {:?}", other),
    }
}
