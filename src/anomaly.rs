//! Heuristic red flags, risk levels and corpus aggregates over contract records.

use vstd::prelude::*;
use crate::contract::{ContratoSecop, opt_chars, same_source_fields};
use crate::float_bits::{value_eq, value_lt, eq_bits, lt_bits};
use crate::text::{contains_chars, occurs_at};

verus! {

/// Binary64 patterns of the histogram's bucket bounds: 10e6, 50e6, 100e6 and 500e6.
pub const BOUND_10M_BITS: u64 = 0x4163_12d0_0000_0000;
pub const BOUND_50M_BITS: u64 = 0x4187_d784_0000_0000;
pub const BOUND_100M_BITS: u64 = 0x4197_d784_0000_0000;
pub const BOUND_500M_BITS: u64 = 0x41bd_cd65_0000_0000;

/// What `str::to_lowercase` returns for a string.
pub uninterp spec fn lower_of(s: Seq<char>) -> Seq<char>;

/// Relies on `str::to_lowercase`: the lower-case form of `s`, a function of its characters.
#[verifier::external_body]
fn to_lower(s: &str) -> (r: String)
    ensures
        r@ == lower_of(s@),
{
    s.to_lowercase()
}

/// A heuristic indicator of a possible irregularity in one contract.
#[derive(Clone, Copy, Debug, PartialEq, Eq, Structural)]
pub enum RedFlag {
    /// The value parsed to exactly zero.
    ZeroValue,
    /// The object description is a placeholder.
    UndefinedObject,
    /// The object description is absent.
    MissingObject,
}

/// The risk level of one contract, from its number of red flags.
#[derive(Clone, Copy, Debug, PartialEq, Eq, Structural)]
pub enum RiskLevel {
    Low,
    Medium,
    High,
}

/// The label under which a flag is published.
pub open spec fn flag_label(f: RedFlag) -> Seq<char> {
    match f {
        RedFlag::ZeroValue => "Valor Cero"@,
        RedFlag::UndefinedObject => "Objeto Indefinido"@,
        RedFlag::MissingObject => "Objeto Faltante"@,
    }
}

/// The label under which a risk level is published.
pub open spec fn level_label(l: RiskLevel) -> Seq<char> {
    match l {
        RiskLevel::Low => "Bajo"@,
        RiskLevel::Medium => "Medio"@,
        RiskLevel::High => "Alto"@,
    }
}

impl RedFlag {
    /// The published label of the flag.
    pub fn label(&self) -> (r: String)
        ensures
            r@ == flag_label(*self),
    {
        match self {
            RedFlag::ZeroValue => String::from_str("Valor Cero"),
            RedFlag::UndefinedObject => String::from_str("Objeto Indefinido"),
            RedFlag::MissingObject => String::from_str("Objeto Faltante"),
        }
    }
}

impl RiskLevel {
    /// The published label of the level.
    pub fn label(&self) -> (r: String)
        ensures
            r@ == level_label(*self),
    {
        match self {
            RiskLevel::Low => String::from_str("Bajo"),
            RiskLevel::Medium => String::from_str("Medio"),
            RiskLevel::High => String::from_str("Alto"),
        }
    }
}

/// Whether a lower-cased object description is a placeholder: exactly "no definido", or
/// holding "objeto a contratar".
pub open spec fn is_placeholder(lowered: Seq<char>) -> bool {
    lowered == "no definido"@ || contains_chars(lowered, "objeto a contratar"@)
}

/// The object flag of a record with the given description, if any.
pub open spec fn object_flag_of(object: Option<Seq<char>>) -> Option<RedFlag> {
    match object {
        None => Some(RedFlag::MissingObject),
        Some(o) => if is_placeholder(lower_of(o)) {
            Some(RedFlag::UndefinedObject)
        } else {
            None
        },
    }
}

/// Whether a parsed amount is zero (either sign).
pub open spec fn is_zero_amount(amount: Option<u64>) -> bool {
    amount matches Some(b) && value_eq(b, 0)
}

/// The flags of a record, in order: the zero-value flag, then the object flag.
pub open spec fn flags_of(amount: Option<u64>, object: Option<Seq<char>>) -> Seq<RedFlag> {
    let z: Seq<RedFlag> = if is_zero_amount(amount) { seq![RedFlag::ZeroValue] } else { seq![] };
    match object_flag_of(object) {
        Some(f) => z.push(f),
        None => z,
    }
}

/// The risk level for a number of flags: none is low, one is medium, more is high.
pub open spec fn level_for(n: nat) -> RiskLevel {
    if n == 0 {
        RiskLevel::Low
    } else if n == 1 {
        RiskLevel::Medium
    } else {
        RiskLevel::High
    }
}

/// The histogram bucket of a parsed amount: below 10e6, 50e6, 100e6, 500e6, or the rest
/// (NaN included).
pub open spec fn bucket_of(b: u64) -> int {
    if value_lt(b, BOUND_10M_BITS) {
        0
    } else if value_lt(b, BOUND_50M_BITS) {
        1
    } else if value_lt(b, BOUND_100M_BITS) {
        2
    } else if value_lt(b, BOUND_500M_BITS) {
        3
    } else {
        4
    }
}

/// Whether a lower-cased object description is a placeholder.
pub fn is_undefined_object(lowered: &str) -> (r: bool)
    ensures
        r == is_placeholder(lowered@),
{
    let t = lowered;
    let n = t.unicode_len();
    let exact = "no definido";
    let phrase = "objeto a contratar";
    let en = exact.unicode_len();
    let m = phrase.unicode_len();
    proof {
        reveal_strlit("objeto a contratar");
    }
    if n == en && occurs_at(t, n, 0, exact, en) {
        assert(t@.subrange(0, n as int) =~= t@);
        return true;
    }
    if n == en {
        assert(t@.subrange(0, n as int) =~= t@);
    }
    if m > n {
        assert forall|i: int| 0 <= i && i + phrase@.len() <= t@.len()
            implies #[trigger] t@.subrange(i, i + phrase@.len()) != phrase@ by {}
        return false;
    }
    let mut i: usize = 0;
    while i <= n - m
        invariant
            n == t@.len(),
            t@ == lowered@,
            m == phrase@.len(),
            0 < m <= n,
            i <= n - m + 1,
            forall|j: int| 0 <= j < i ==> #[trigger] t@.subrange(j, j + phrase@.len()) != phrase@,
            t@ != exact@,
            phrase@ == "objeto a contratar"@,
            exact@ == "no definido"@,
        decreases n - m + 1 - i,
    {
        if occurs_at(t, n, i, phrase, m) {
            assert(t@.subrange(i as int, i + phrase@.len()) == phrase@);
            assert(contains_chars(t@, phrase@));
            return true;
        }
        i = i + 1;
    }
    false
}

/// The object flag of a record with description `object`, if any.
pub fn object_flag(object: &Option<String>) -> (r: Option<RedFlag>)
    ensures
        r == object_flag_of(opt_chars(*object)),
{
    match object {
        None => Some(RedFlag::MissingObject),
        Some(o) => {
            let lowered = to_lower(o.as_str());
            if is_undefined_object(lowered.as_str()) {
                Some(RedFlag::UndefinedObject)
            } else {
                None
            }
        },
    }
}

/// Whether the pattern of a parsed amount is zero.
pub fn is_zero_value(bits: u64) -> (r: bool)
    ensures
        r == value_eq(bits, 0),
{
    eq_bits(bits, 0)
}

/// The histogram bucket of a parsed amount.
pub fn histogram_bucket(bits: u64) -> (r: usize)
    ensures
        r == bucket_of(bits),
        r < 5,
{
    if lt_bits(bits, BOUND_10M_BITS) {
        0
    } else if lt_bits(bits, BOUND_50M_BITS) {
        1
    } else if lt_bits(bits, BOUND_100M_BITS) {
        2
    } else if lt_bits(bits, BOUND_500M_BITS) {
        3
    } else {
        4
    }
}

/// The flags of a record whose value parsed to `amount` (the binary64 pattern; `None` when
/// missing or unparsable) and whose description is `object`.
pub fn contract_flags(amount: Option<u64>, object: &Option<String>) -> (r: Vec<RedFlag>)
    ensures
        r@ == flags_of(amount, opt_chars(*object)),
{
    let mut flags: Vec<RedFlag> = Vec::new();
    match amount {
        Some(b) => {
            if is_zero_value(b) {
                flags.push(RedFlag::ZeroValue);
            }
        },
        None => {},
    }
    match object_flag(object) {
        Some(f) => flags.push(f),
        None => {},
    }
    assert(flags@ =~= flags_of(amount, opt_chars(*object)));
    flags
}

/// The risk level for `n` flags.
pub fn risk_level_for(n: usize) -> (r: RiskLevel)
    ensures
        r == level_for(n as nat),
{
    if n >= 2 {
        RiskLevel::High
    } else if n == 1 {
        RiskLevel::Medium
    } else {
        RiskLevel::Low
    }
}

/// `b` is `a` scored against the parsed amount `amount`: its source fields are unchanged,
/// its risk level and flags are the published labels of what `flags_of` gives.
pub open spec fn scored_with(a: ContratoSecop, b: ContratoSecop, amount: Option<u64>) -> bool {
    let flags = flags_of(amount, opt_chars(a.objeto_del_contrato));
    &&& same_source_fields(a, b)
    &&& b.risk_level is Some
    &&& b.risk_level.unwrap()@ == level_label(level_for(flags.len()))
    &&& b.red_flags is Some
    &&& b.red_flags.unwrap()@.len() == flags.len()
    &&& forall|j: int| 0 <= j < flags.len() ==> #[trigger] b.red_flags.unwrap()@[j]@ == flag_label(flags[j])
}

/// Scores one contract whose value parsed to `amount` (the binary64 pattern; `None` when
/// missing or unparsable): sets its risk level and flag labels, and returns its flags.
pub fn score_contract(contract: &mut ContratoSecop, amount: Option<u64>) -> (r: Vec<RedFlag>)
    ensures
        r@ == flags_of(amount, opt_chars(old(contract).objeto_del_contrato)),
        scored_with(*old(contract), *final(contract), amount),
{
    let flags = contract_flags(amount, &contract.objeto_del_contrato);
    let level = risk_level_for(flags.len());
    let mut labels: Vec<String> = Vec::new();
    let mut i: usize = 0;
    while i < flags.len()
        invariant
            i <= flags@.len(),
            labels@.len() == i,
            forall|j: int| 0 <= j < i ==> #[trigger] labels@[j]@ == flag_label(flags@[j]),
        decreases flags@.len() - i,
    {
        labels.push(flags[i].label());
        i = i + 1;
    }
    contract.risk_level = Some(level.label());
    contract.red_flags = Some(labels);
    flags
}

/// Corpus aggregates of one scoring pass.
#[derive(Clone, Copy, Debug, PartialEq, Eq)]
pub struct CorpusStats {
    /// Records processed.
    pub total_contracts: usize,
    /// Records whose value parsed to zero.
    pub zero_value_count: usize,
    /// Records with a missing or placeholder object description.
    pub undefined_object_count: usize,
    /// The sum of the two counts above.
    pub red_flags_count: usize,
    /// Parsed values per bucket: below 10e6, 50e6, 100e6, 500e6, and the rest.
    pub histogram: [usize; 5],
}

/// The number of zero amounts among `a`.
pub open spec fn count_zero(a: Seq<Option<u64>>) -> nat
    decreases a.len(),
{
    if a.len() == 0 {
        0
    } else {
        count_zero(a.drop_last()) + if is_zero_amount(a.last()) { 1nat } else { 0nat }
    }
}

/// The number of amounts among `a` that parsed.
pub open spec fn count_parsed(a: Seq<Option<u64>>) -> nat
    decreases a.len(),
{
    if a.len() == 0 {
        0
    } else {
        count_parsed(a.drop_last()) + if a.last() is Some { 1nat } else { 0nat }
    }
}

/// The number of parsed amounts among `a` in bucket `k`.
pub open spec fn count_bucket(a: Seq<Option<u64>>, k: int) -> nat
    decreases a.len(),
{
    if a.len() == 0 {
        0
    } else {
        count_bucket(a.drop_last(), k) + if a.last() matches Some(b) && bucket_of(b) == k { 1nat } else { 0nat }
    }
}

/// The number of records among `cs` that carry an object flag.
pub open spec fn count_object_flags(cs: Seq<ContratoSecop>) -> nat
    decreases cs.len(),
{
    if cs.len() == 0 {
        0
    } else {
        count_object_flags(cs.drop_last())
            + if object_flag_of(opt_chars(cs.last().objeto_del_contrato)) is Some { 1nat } else { 0nat }
    }
}

/// Scores every contract in one pass (`amounts[i]` is the parsed value of `contracts[i]`,
/// as for `score_contract`) and returns the corpus aggregates.
pub fn summarize(contracts: &mut Vec<ContratoSecop>, amounts: &Vec<Option<u64>>) -> (r: CorpusStats)
    requires
        old(contracts)@.len() == amounts@.len(),
        2 * old(contracts)@.len() <= usize::MAX,
    ensures
        final(contracts)@.len() == old(contracts)@.len(),
        forall|i: int| 0 <= i < amounts@.len()
            ==> scored_with(#[trigger] old(contracts)@[i], final(contracts)@[i], amounts@[i]),
        r.total_contracts == amounts@.len(),
        r.zero_value_count == count_zero(amounts@),
        r.undefined_object_count == count_object_flags(old(contracts)@),
        r.red_flags_count == r.zero_value_count + r.undefined_object_count,
        forall|k: int| 0 <= k < 5 ==> r.histogram[k] == count_bucket(amounts@, k),
{
    let n = contracts.len();
    let ghost before = contracts@;
    let mut zero: usize = 0;
    let mut undefined: usize = 0;
    let mut histogram: [usize; 5] = [0, 0, 0, 0, 0];
    let mut i: usize = 0;
    assert(amounts@.subrange(0, 0) =~= Seq::<Option<u64>>::empty());
    assert(before.subrange(0, 0) =~= Seq::<ContratoSecop>::empty());
    while i < n
        invariant
            n == amounts@.len(),
            n == before.len(),
            2 * n <= usize::MAX,
            contracts@.len() == n,
            i <= n,
            forall|j: int| 0 <= j < i ==> scored_with(#[trigger] before[j], contracts@[j], amounts@[j]),
            forall|j: int| i <= j < n ==> #[trigger] contracts@[j] == before[j],
            zero == count_zero(amounts@.subrange(0, i as int)),
            undefined == count_object_flags(before.subrange(0, i as int)),
            zero <= i,
            undefined <= i,
            forall|k: int| 0 <= k < 5 ==> histogram[k] == count_bucket(amounts@.subrange(0, i as int), k),
            forall|k: int| 0 <= k < 5 ==> histogram[k] <= i,
        decreases n - i,
    {
        let amount = amounts[i];
        let flags = score_contract(&mut contracts[i], amount);
        let ghost sa = amounts@.subrange(0, i + 1);
        let ghost sc = before.subrange(0, i + 1);
        assert(sa.drop_last() =~= amounts@.subrange(0, i as int));
        assert(sc.drop_last() =~= before.subrange(0, i as int));
        match amount {
            Some(b) => {
                if is_zero_value(b) {
                    zero = zero + 1;
                }
                let k = histogram_bucket(b);
                histogram[k] = histogram[k] + 1;
            },
            None => {},
        }
        if flags.len() > 0 && flags[flags.len() - 1] != RedFlag::ZeroValue {
            undefined = undefined + 1;
        }
        i = i + 1;
    }
    assert(amounts@.subrange(0, n as int) =~= amounts@);
    assert(before.subrange(0, n as int) =~= before);
    CorpusStats {
        total_contracts: n,
        zero_value_count: zero,
        undefined_object_count: undefined,
        red_flags_count: zero + undefined,
        histogram,
    }
}

/// Histogram partition: the bucket counts of any batch add up to the number of values that
/// parsed, and every parsed value falls in exactly one of the five buckets.
pub proof fn lemma_histogram_partition(a: Seq<Option<u64>>)
    ensures
        count_bucket(a, 0) + count_bucket(a, 1) + count_bucket(a, 2) + count_bucket(a, 3)
            + count_bucket(a, 4) == count_parsed(a),
        forall|b: u64| 0 <= #[trigger] bucket_of(b) < 5,
    decreases a.len(),
{
    if a.len() > 0 {
        lemma_histogram_partition(a.drop_last());
    }
}

} // verus!
