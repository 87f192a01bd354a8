use veeduria::{canonical_legal_id, remove_pattern, trim_text, DataCleaner, StandardCleaner};

#[test]
fn clean_string_trims_and_uppercases() {
    assert_eq!(StandardCleaner::clean_string("  Empresa ñandú \t\n"), "EMPRESA ÑANDÚ");
    assert_eq!(StandardCleaner::clean_string(""), "");
}

#[test]
fn normalize_strips_suffixes_and_periods() {
    assert_eq!(StandardCleaner::normalize_business_name("Empresa ABC S.A.S."), "EMPRESA ABC");
    assert_eq!(StandardCleaner::normalize_business_name("Empresa ABC S A S"), "EMPRESA ABC");
    assert_eq!(StandardCleaner::normalize_business_name("Construcciones Ltda"), "CONSTRUCCIONES");
    assert_eq!(StandardCleaner::normalize_business_name("Construcciones Limitada "), "CONSTRUCCIONES");
    assert_eq!(StandardCleaner::normalize_business_name("A.B.C. Ingenieria"), "ABC INGENIERIA");
}

#[test]
fn normalize_replaces_inside_words() {
    assert_eq!(StandardCleaner::normalize_business_name("Grupo LTDAX"), "GRUPOX");
}

#[test]
fn normalize_is_idempotent_on_examples() {
    for x in ["Empresa ABC S.A.S.", "  constructora nacional ltda ", "A.B.C.", "", "Inversiones S A S y Cia"] {
        let once = StandardCleaner::normalize_business_name(x);
        assert_eq!(StandardCleaner::normalize_business_name(&once), once);
    }
}

#[test]
fn normalize_is_not_idempotent_when_a_suffix_reforms() {
    let once = StandardCleaner::normalize_business_name("X LT.DA");
    assert_eq!(once, "X LTDA");
    assert_eq!(StandardCleaner::normalize_business_name(&once), "X");
}

#[test]
fn legal_id_canonical_form() {
    assert_eq!(canonical_legal_id(" 900-123.456 "), "900123456");
    assert_eq!(canonical_legal_id("abc-1"), "abc1");
}

#[test]
fn trim_and_remove() {
    assert_eq!(trim_text("\u{3000} a b \u{a0}"), "a b");
    assert_eq!(remove_pattern("aaaa", "aa"), "");
    assert_eq!(remove_pattern("aaa", "aa"), "a");
    assert_eq!(remove_pattern("xyz", ""), "xyz");
}
