//! The registry of known contracting parties and the resolution of identity claims.

use vstd::prelude::*;
use crate::float_bits::{value_ge, value_lt, ge_bits, lt_bits};
use crate::text::{DataCleaner, StandardCleaner, canonical_id, normalized_name, canonical_legal_id};

verus! {

/// The binary64 pattern of the fuzzy-match threshold, 0.85.
pub const FUZZY_THRESHOLD_BITS: u64 = 0x3feb_3333_3333_3333;

/// What `strsim::jaro_winkler` returns for two strings, as a binary64 pattern.
pub uninterp spec fn jaro_winkler_of(a: Seq<char>, b: Seq<char>) -> u64;

/// The binary64 pattern of 1.0; the patterns up to it encode the values from +0.0 to 1.0.
pub const ONE_BITS: u64 = 0x3ff0_0000_0000_0000;

/// Relies on `strsim::jaro_winkler`: the Jaro-Winkler similarity of `a` and `b`,
/// a function of the two strings between 0.0 and 1.0, handed back as its bit pattern.
#[verifier::external_body]
fn similarity(a: &str, b: &str) -> (r: u64)
    ensures
        r == jaro_winkler_of(a@, b@),
        r <= ONE_BITS,
{
    strsim::jaro_winkler(a, b).to_bits()
}

/// Relies on `uuid::Uuid::new_v4`: a random identifier, taken as its 128-bit value.
#[verifier::external_body]
fn random_uuid() -> (r: u128) {
    uuid::Uuid::new_v4().as_u128()
}

/// The identifier of a contracting party: the 128-bit value of a UUID.
#[derive(Clone, Copy, Debug, PartialEq, Eq, Hash, Structural)]
pub struct PartyId {
    pub value: u128,
}

/// A contracting party as it was registered.
#[derive(Clone, Debug)]
pub struct Contractor {
    pub id: PartyId,
    pub name: String,
    pub legal_id: String,
}

impl View for Contractor {
    type V = (PartyId, (Seq<char>, Seq<char>));

    open spec fn view(&self) -> Self::V {
        (self.id, (self.name@, self.legal_id@))
    }
}

impl Contractor {
    /// A contractor under a fresh random identifier.
    pub fn new(name: String, legal_id: String) -> (r: Contractor)
        ensures
            r.name@ == name@,
            r.legal_id@ == legal_id@,
    {
        Contractor { id: PartyId { value: random_uuid() }, name, legal_id }
    }

    /// A contractor under the given identifier.
    pub fn with_id(id: PartyId, name: String, legal_id: String) -> (r: Contractor)
        ensures
            r.id == id,
            r.name@ == name@,
            r.legal_id@ == legal_id@,
    {
        Contractor { id, name, legal_id }
    }
}

/// Result of an entity match attempt.
#[derive(Clone, Copy, Debug, PartialEq, Eq, Structural)]
pub enum MatchResult {
    /// Match by legal identifier or by exact normalised name.
    ExactMatch(PartyId),
    /// Best fuzzy name match; `confidence` is the binary64 pattern of the similarity.
    FuzzyMatch { id: PartyId, confidence: u64 },
    /// No known party qualifies.
    NoMatch,
}

/// The last index of `es` whose key is `key`, or -1.
pub open spec fn find_last<K, V>(es: Seq<(K, V)>, key: K) -> int
    decreases es.len(),
{
    if es.len() == 0 {
        -1
    } else if es.last().0 == key {
        es.len() - 1
    } else {
        find_last(es.drop_last(), key)
    }
}

/// The value stored under `key` in `es`, if any.
pub open spec fn lookup<K, V>(es: Seq<(K, V)>, key: K) -> Option<V> {
    let k = find_last(es, key);
    if k >= 0 {
        Some(es[k].1)
    } else {
        None
    }
}

/// `es` with `key` mapped to `v`: an existing entry is overwritten in place, otherwise
/// the pair is appended.
pub open spec fn upsert<K, V>(es: Seq<(K, V)>, key: K, v: V) -> Seq<(K, V)> {
    let k = find_last(es, key);
    if k >= 0 {
        es.update(k, (key, v))
    } else {
        es.push((key, v))
    }
}

/// No two entries of `es` share a key.
pub open spec fn keys_unique<K, V>(es: Seq<(K, V)>) -> bool {
    forall|i: int, j: int| 0 <= i < j < es.len() ==> es[i].0 != es[j].0
}

/// The mathematical content of a resolver.
pub struct Registry {
    /// Canonical legal identifier to party, in order of first insertion.
    pub ids: Seq<(Seq<char>, PartyId)>,
    /// Normalised name to party, in order of first insertion.
    pub names: Seq<(Seq<char>, PartyId)>,
    /// Party to (display name as given, canonical legal identifier).
    pub parties: Seq<(PartyId, (Seq<char>, Seq<char>))>,
}

/// The registry after `c` is registered.
pub open spec fn registered(m: Registry, c: (PartyId, (Seq<char>, Seq<char>))) -> Registry {
    Registry {
        ids: upsert(m.ids, canonical_id(c.1.1), c.0),
        names: upsert(m.names, normalized_name(c.1.0), c.0),
        parties: upsert(m.parties, c.0, (c.1.0, canonical_id(c.1.1))),
    }
}

/// The best fuzzy candidate among `names` for the normalised query `q`: the first entry,
/// in order, with the greatest similarity at or above the threshold.
pub open spec fn best_fuzzy(names: Seq<(Seq<char>, PartyId)>, q: Seq<char>) -> Option<(PartyId, u64)>
    decreases names.len(),
{
    if names.len() == 0 {
        None
    } else {
        let prev = best_fuzzy(names.drop_last(), q);
        let sim = jaro_winkler_of(q, names.last().0);
        if value_ge(sim, FUZZY_THRESHOLD_BITS) && (prev is None || value_lt(prev.unwrap().1, sim)) {
            Some((names.last().1, sim))
        } else {
            prev
        }
    }
}

/// The outcome of resolving the claim (`legal_id`, `name`) against `m`.
pub open spec fn outcome(m: Registry, legal_id: Seq<char>, name: Seq<char>) -> MatchResult {
    match lookup(m.ids, canonical_id(legal_id)) {
        Some(id) => MatchResult::ExactMatch(id),
        None => match lookup(m.names, normalized_name(name)) {
            Some(id) => MatchResult::ExactMatch(id),
            None => match best_fuzzy(m.names, normalized_name(name)) {
                Some((id, sim)) => MatchResult::FuzzyMatch { id, confidence: sim },
                None => MatchResult::NoMatch,
            },
        },
    }
}

proof fn lemma_find_last_bounds<K, V>(es: Seq<(K, V)>, key: K)
    ensures
        -1 <= find_last(es, key) < es.len(),
        find_last(es, key) >= 0 ==> es[find_last(es, key)].0 == key,
        forall|j: int| find_last(es, key) < j < es.len() ==> es[j].0 != key,
    decreases es.len(),
{
    if es.len() > 0 && es.last().0 != key {
        let d = es.drop_last();
        lemma_find_last_bounds(d, key);
        assert forall|j: int| find_last(es, key) < j < es.len() implies es[j].0 != key by {
            if j < es.len() - 1 {
                assert(es[j] == d[j]);
            }
        }
    }
}

proof fn lemma_find_last_unique<K, V>(es: Seq<(K, V)>, key: K, i: int)
    requires
        0 <= i < es.len(),
        es[i].0 == key,
        keys_unique(es),
    ensures
        find_last(es, key) == i,
{
    lemma_find_last_bounds(es, key);
}

proof fn lemma_find_last_absent<K, V>(es: Seq<(K, V)>, key: K)
    requires
        forall|j: int| 0 <= j < es.len() ==> es[j].0 != key,
    ensures
        find_last(es, key) == -1,
{
    lemma_find_last_bounds(es, key);
}

proof fn lemma_upsert_unique<K, V>(es: Seq<(K, V)>, key: K, v: V)
    requires
        keys_unique(es),
    ensures
        keys_unique(upsert(es, key, v)),
        find_last(upsert(es, key, v), key) >= 0,
        lookup(upsert(es, key, v), key) == Some(v),
{
    lemma_find_last_bounds(es, key);
    let u = upsert(es, key, v);
    let k = find_last(es, key);
    if k < 0 {
        lemma_find_last_absent(es, key);
        assert(u.last().0 == key);
    } else {
        assert(u[k].0 == key);
        lemma_find_last_unique(u, key, k);
    }
}

proof fn lemma_best_fuzzy(names: Seq<(Seq<char>, PartyId)>, q: Seq<char>)
    ensures
        (exists|i: int| 0 <= i < names.len() && value_ge(#[trigger] jaro_winkler_of(q, names[i].0), FUZZY_THRESHOLD_BITS))
            ==> best_fuzzy(names, q) is Some,
        (forall|i: int| 0 <= i < names.len() ==> !value_ge(#[trigger] jaro_winkler_of(q, names[i].0), FUZZY_THRESHOLD_BITS))
            ==> best_fuzzy(names, q) is None,
        best_fuzzy(names, q) is Some ==> value_ge(best_fuzzy(names, q).unwrap().1, FUZZY_THRESHOLD_BITS),
    decreases names.len(),
{
    if names.len() > 0 {
        let d = names.drop_last();
        lemma_best_fuzzy(d, q);
        assert forall|i: int| 0 <= i < d.len() implies #[trigger] d[i] == names[i] by {}
        if exists|i: int| 0 <= i < names.len() && value_ge(#[trigger] jaro_winkler_of(q, names[i].0), FUZZY_THRESHOLD_BITS) {
            let i = choose|i: int| 0 <= i < names.len() && value_ge(#[trigger] jaro_winkler_of(q, names[i].0), FUZZY_THRESHOLD_BITS);
            if i < d.len() {
                assert(value_ge(jaro_winkler_of(q, d[i].0), FUZZY_THRESHOLD_BITS));
            }
        }
        if forall|i: int| 0 <= i < names.len() ==> !value_ge(#[trigger] jaro_winkler_of(q, names[i].0), FUZZY_THRESHOLD_BITS) {
            assert forall|i: int| 0 <= i < d.len() implies !value_ge(#[trigger] jaro_winkler_of(q, d[i].0), FUZZY_THRESHOLD_BITS) by {
                assert(d[i] == names[i]);
            }
            assert(!value_ge(jaro_winkler_of(q, names[names.len() - 1].0), FUZZY_THRESHOLD_BITS));
        }
    }
}

/// Whether `c` is the similarity of a candidate that qualifies for a fuzzy match.
pub open spec fn qualifies(c: u64) -> bool {
    value_ge(c, FUZZY_THRESHOLD_BITS)
}

/// The fuzzy candidate is the first greatest one: when `best_fuzzy` picks a party with
/// similarity `s`, some entry `i` of that party has similarity `s`, every qualifying entry
/// before `i` has a smaller similarity, and none after `i` has a greater one.
pub proof fn lemma_fuzzy_first_best(names: Seq<(Seq<char>, PartyId)>, q: Seq<char>)
    ensures
        best_fuzzy(names, q) is Some ==> exists|i: int| {
            &&& 0 <= i < names.len()
            &&& names[i].1 == best_fuzzy(names, q).unwrap().0
            &&& #[trigger] jaro_winkler_of(q, names[i].0) == best_fuzzy(names, q).unwrap().1
            &&& qualifies(best_fuzzy(names, q).unwrap().1)
            &&& forall|j: int| 0 <= j < i && qualifies(#[trigger] jaro_winkler_of(q, names[j].0))
                ==> value_lt(jaro_winkler_of(q, names[j].0), best_fuzzy(names, q).unwrap().1)
            &&& forall|j: int| i < j < names.len() && qualifies(#[trigger] jaro_winkler_of(q, names[j].0))
                ==> !value_lt(best_fuzzy(names, q).unwrap().1, jaro_winkler_of(q, names[j].0))
        },
    decreases names.len(),
{
    if names.len() > 0 {
        lemma_first_best_step(names, q);
    }
}

proof fn lemma_first_best_step(names: Seq<(Seq<char>, PartyId)>, q: Seq<char>)
    requires
        names.len() > 0,
    ensures
        best_fuzzy(names, q) is Some ==> exists|i: int| {
            &&& 0 <= i < names.len()
            &&& names[i].1 == best_fuzzy(names, q).unwrap().0
            &&& #[trigger] jaro_winkler_of(q, names[i].0) == best_fuzzy(names, q).unwrap().1
            &&& qualifies(best_fuzzy(names, q).unwrap().1)
            &&& forall|j: int| 0 <= j < i && qualifies(#[trigger] jaro_winkler_of(q, names[j].0))
                ==> value_lt(jaro_winkler_of(q, names[j].0), best_fuzzy(names, q).unwrap().1)
            &&& forall|j: int| i < j < names.len() && qualifies(#[trigger] jaro_winkler_of(q, names[j].0))
                ==> !value_lt(best_fuzzy(names, q).unwrap().1, jaro_winkler_of(q, names[j].0))
        },
    decreases names.len(),
{
    let d = names.drop_last();
    let last = names.len() - 1;
    let sim = jaro_winkler_of(q, names[last].0);
    let prev = best_fuzzy(d, q);
    assert forall|j: int| 0 <= j < d.len() implies #[trigger] d[j] == names[j] by {}
    lemma_best_fuzzy(d, q);
    if d.len() > 0 {
        lemma_first_best_step(d, q);
    }
    if qualifies(sim) && (prev is None || value_lt(prev.unwrap().1, sim)) {
        assert(best_fuzzy(names, q) == Some((names[last].1, sim)));
        if prev is None {
            assert forall|j: int| 0 <= j < last && qualifies(#[trigger] jaro_winkler_of(q, names[j].0))
                implies value_lt(jaro_winkler_of(q, names[j].0), sim) by {
                assert(d[j] == names[j]);
                assert(qualifies(jaro_winkler_of(q, d[j].0)));
            }
        } else {
            let s2 = prev.unwrap().1;
            let i2 = choose|i: int| {
                &&& 0 <= i < d.len()
                &&& d[i].1 == prev.unwrap().0
                &&& #[trigger] jaro_winkler_of(q, d[i].0) == s2
                &&& qualifies(s2)
                &&& forall|j: int| 0 <= j < i && qualifies(#[trigger] jaro_winkler_of(q, d[j].0))
                    ==> value_lt(jaro_winkler_of(q, d[j].0), s2)
                &&& forall|j: int| i < j < d.len() && qualifies(#[trigger] jaro_winkler_of(q, d[j].0))
                    ==> !value_lt(s2, jaro_winkler_of(q, d[j].0))
            };
            assert forall|j: int| 0 <= j < last && qualifies(#[trigger] jaro_winkler_of(q, names[j].0))
                implies value_lt(jaro_winkler_of(q, names[j].0), sim) by {
                assert(d[j] == names[j]);
                if j < i2 {
                    assert(value_lt(jaro_winkler_of(q, d[j].0), s2));
                } else if j > i2 {
                    assert(!value_lt(s2, jaro_winkler_of(q, d[j].0)));
                }
            }
        }
        assert(jaro_winkler_of(q, names[last].0) == sim);
    } else if prev is Some {
        let s2 = prev.unwrap().1;
        let i2 = choose|i: int| {
            &&& 0 <= i < d.len()
            &&& d[i].1 == prev.unwrap().0
            &&& #[trigger] jaro_winkler_of(q, d[i].0) == s2
            &&& qualifies(s2)
            &&& forall|j: int| 0 <= j < i && qualifies(#[trigger] jaro_winkler_of(q, d[j].0))
                ==> value_lt(jaro_winkler_of(q, d[j].0), s2)
            &&& forall|j: int| i < j < d.len() && qualifies(#[trigger] jaro_winkler_of(q, d[j].0))
                ==> !value_lt(s2, jaro_winkler_of(q, d[j].0))
        };
        assert(names[i2] == d[i2]);
        assert forall|j: int| 0 <= j < i2 && qualifies(#[trigger] jaro_winkler_of(q, names[j].0))
            implies value_lt(jaro_winkler_of(q, names[j].0), s2) by {
            assert(d[j] == names[j]);
        }
        assert forall|j: int| i2 < j < names.len() && qualifies(#[trigger] jaro_winkler_of(q, names[j].0))
            implies !value_lt(s2, jaro_winkler_of(q, names[j].0)) by {
            if j < last {
                assert(d[j] == names[j]);
            }
        }
        assert(jaro_winkler_of(q, names[i2].0) == s2);
    }
}

/// The registry after each of `cs` is registered, in order.
pub open spec fn registered_all(m: Registry, cs: Seq<(PartyId, (Seq<char>, Seq<char>))>) -> Registry
    decreases cs.len(),
{
    if cs.len() == 0 {
        m
    } else {
        registered(registered_all(m, cs.drop_last()), cs.last())
    }
}

proof fn lemma_upsert_other<K, V>(es: Seq<(K, V)>, key: K, v: V, other: K)
    requires
        keys_unique(es),
        other != key,
    ensures
        lookup(upsert(es, key, v), other) == lookup(es, other),
{
    lemma_find_last_bounds(es, key);
    lemma_find_last_bounds(es, other);
    lemma_upsert_unique(es, key, v);
    let u = upsert(es, key, v);
    let i = find_last(es, other);
    if i >= 0 {
        assert(u[i] == es[i]);
        lemma_find_last_unique(u, other, i);
    } else {
        lemma_find_last_absent(es, other);
        assert forall|j: int| 0 <= j < u.len() implies u[j].0 != other by {
            if j < es.len() && u[j] == es[j] {
            }
        }
        lemma_find_last_absent(u, other);
    }
}

proof fn lemma_registered_all_ids(
    m: Registry,
    cs: Seq<(PartyId, (Seq<char>, Seq<char>))>,
    k: int,
    key: Seq<char>,
)
    requires
        keys_unique(m.ids),
        0 <= k < cs.len(),
        canonical_id(cs[k].1.1) == key,
        forall|j: int| k < j < cs.len() ==> canonical_id(#[trigger] cs[j].1.1) != key,
    ensures
        keys_unique(registered_all(m, cs).ids),
        lookup(registered_all(m, cs).ids, key) == Some(cs[k].0),
    decreases cs.len(),
{
    let d = cs.drop_last();
    let c = cs.last();
    if k == cs.len() - 1 {
        lemma_registered_all_unique(m, d);
        lemma_upsert_unique(registered_all(m, d).ids, canonical_id(c.1.1), c.0);
    } else {
        assert forall|j: int| k < j < d.len() implies canonical_id(#[trigger] d[j].1.1) != key by {
            assert(d[j] == cs[j]);
        }
        assert(d[k] == cs[k]);
        lemma_registered_all_ids(m, d, k, key);
        assert(canonical_id(cs[cs.len() - 1].1.1) != key);
        lemma_upsert_other(registered_all(m, d).ids, canonical_id(c.1.1), c.0, key);
        lemma_upsert_unique(registered_all(m, d).ids, canonical_id(c.1.1), c.0);
    }
}

proof fn lemma_registered_all_unique(m: Registry, cs: Seq<(PartyId, (Seq<char>, Seq<char>))>)
    requires
        keys_unique(m.ids),
    ensures
        keys_unique(registered_all(m, cs).ids),
    decreases cs.len(),
{
    if cs.len() > 0 {
        lemma_registered_all_unique(m, cs.drop_last());
        lemma_upsert_unique(registered_all(m, cs.drop_last()).ids, canonical_id(cs.last().1.1), cs.last().0);
    }
}

/// Exact match precedence: after a run of registrations, a claim whose legal identifier
/// canonicalises as that of the `k`-th registered party resolves to that party by exact
/// match, whatever the name, provided no later registration used the same canonical
/// identifier.
pub proof fn lemma_exact_match_precedence(
    m: Registry,
    cs: Seq<(PartyId, (Seq<char>, Seq<char>))>,
    k: int,
    legal_id: Seq<char>,
    name: Seq<char>,
)
    requires
        keys_unique(m.ids),
        0 <= k < cs.len(),
        canonical_id(legal_id) == canonical_id(cs[k].1.1),
        forall|j: int| k < j < cs.len() ==> canonical_id(#[trigger] cs[j].1.1) != canonical_id(legal_id),
    ensures
        outcome(registered_all(m, cs), legal_id, name) == MatchResult::ExactMatch(cs[k].0),
{
    lemma_registered_all_ids(m, cs, k, canonical_id(legal_id));
}

/// Threshold boundary: when neither the legal identifier nor the exact normalised name is
/// known, a name whose similarity to some indexed name is exactly 0.85 gives a fuzzy match
/// (at or above the threshold), and names that all fall short of 0.85 give no match.
pub proof fn lemma_threshold_boundary(m: Registry, legal_id: Seq<char>, name: Seq<char>)
    requires
        lookup(m.ids, canonical_id(legal_id)) is None,
        lookup(m.names, normalized_name(name)) is None,
    ensures
        (exists|i: int| 0 <= i < m.names.len()
            && #[trigger] jaro_winkler_of(normalized_name(name), m.names[i].0) == FUZZY_THRESHOLD_BITS)
            ==> (outcome(m, legal_id, name) matches MatchResult::FuzzyMatch { confidence, .. }
                && value_ge(confidence, FUZZY_THRESHOLD_BITS)),
        (forall|i: int| 0 <= i < m.names.len()
            ==> value_lt(#[trigger] jaro_winkler_of(normalized_name(name), m.names[i].0), FUZZY_THRESHOLD_BITS))
            ==> outcome(m, legal_id, name) == MatchResult::NoMatch,
{
    let q = normalized_name(name);
    lemma_best_fuzzy(m.names, q);
    if exists|i: int| 0 <= i < m.names.len() && #[trigger] jaro_winkler_of(q, m.names[i].0) == FUZZY_THRESHOLD_BITS {
        let i = choose|i: int| 0 <= i < m.names.len() && #[trigger] jaro_winkler_of(q, m.names[i].0) == FUZZY_THRESHOLD_BITS;
        assert(value_ge(jaro_winkler_of(q, m.names[i].0), FUZZY_THRESHOLD_BITS));
    }
}

/// Determinism: resolution reads nothing but the registry's content and the claim, so two
/// resolutions of one claim against equal registries give the same outcome, confidence included.
pub proof fn lemma_resolve_deterministic(a: Registry, b: Registry, legal_id: Seq<char>, name: Seq<char>)
    requires
        a == b,
    ensures
        outcome(a, legal_id, name) == outcome(b, legal_id, name),
{
}

impl View for EntityResolver {
    type V = Registry;

    closed spec fn view(&self) -> Registry {
        Registry {
            ids: entries(self.id_index@),
            names: entries(self.name_index@),
            parties: party_entries(self.contractors@),
        }
    }
}

/// One entry of a key index.
struct IndexEntry {
    key: String,
    id: PartyId,
}

spec fn entries(es: Seq<IndexEntry>) -> Seq<(Seq<char>, PartyId)> {
    es.map_values(|e: IndexEntry| (e.key@, e.id))
}

spec fn party_entries(cs: Seq<Contractor>) -> Seq<(PartyId, (Seq<char>, Seq<char>))> {
    cs.map_values(|c: Contractor| c@)
}

/// Entity resolution over a registry of contracting parties.
pub struct EntityResolver {
    id_index: Vec<IndexEntry>,
    name_index: Vec<IndexEntry>,
    contractors: Vec<Contractor>,
}

/// The index of the entry keyed `key`, if any.
fn find_key(es: &Vec<IndexEntry>, key: &String) -> (r: Option<usize>)
    ensures
        match r {
            Some(i) => i < es@.len() && es@[i as int].key@ == key@,
            None => forall|j: int| 0 <= j < es@.len() ==> es@[j].key@ != key@,
        },
{
    let mut i: usize = 0;
    while i < es.len()
        invariant
            i <= es@.len(),
            forall|j: int| 0 <= j < i ==> es@[j].key@ != key@,
        decreases es@.len() - i,
    {
        if es[i].key == *key {
            return Some(i);
        }
        i = i + 1;
    }
    None
}

/// The index of the contractor under `id`, if any.
fn find_party(cs: &Vec<Contractor>, id: PartyId) -> (r: Option<usize>)
    ensures
        match r {
            Some(i) => i < cs@.len() && cs@[i as int].id == id,
            None => forall|j: int| 0 <= j < cs@.len() ==> cs@[j].id != id,
        },
{
    let mut i: usize = 0;
    while i < cs.len()
        invariant
            i <= cs@.len(),
            forall|j: int| 0 <= j < i ==> cs@[j].id != id,
        decreases cs@.len() - i,
    {
        if cs[i].id == id {
            return Some(i);
        }
        i = i + 1;
    }
    None
}

/// Maps `key` to `id` in the index `es`.
fn upsert_entry(es: &mut Vec<IndexEntry>, key: String, id: PartyId)
    requires
        keys_unique(entries(old(es)@)),
    ensures
        entries(final(es)@) == upsert(entries(old(es)@), key@, id),
        keys_unique(entries(final(es)@)),
{
    let ghost k = key@;
    let ghost before = entries(es@);
    proof {
        lemma_upsert_unique(before, k, id);
    }
    match find_key(es, &key) {
        Some(i) => {
            proof {
                lemma_find_last_unique(before, k, i as int);
            }
            es.set(i, IndexEntry { key, id });
            assert(entries(es@) =~= before.update(i as int, (k, id)));
        },
        None => {
            proof {
                lemma_find_last_absent(before, k);
            }
            es.push(IndexEntry { key, id });
            assert(entries(es@) =~= before.push((k, id)));
        },
    }
}

/// Stores `c` under its identifier in `cs`.
fn upsert_party(cs: &mut Vec<Contractor>, c: Contractor)
    requires
        keys_unique(party_entries(old(cs)@)),
    ensures
        party_entries(final(cs)@) == upsert(party_entries(old(cs)@), c@.0, c@.1),
        keys_unique(party_entries(final(cs)@)),
{
    let ghost v = c@;
    let ghost before = party_entries(cs@);
    proof {
        lemma_upsert_unique(before, v.0, v.1);
    }
    match find_party(cs, c.id) {
        Some(i) => {
            proof {
                lemma_find_last_unique(before, v.0, i as int);
            }
            cs.set(i, c);
            assert(party_entries(cs@) =~= before.update(i as int, (v.0, v.1)));
        },
        None => {
            proof {
                lemma_find_last_absent(before, v.0);
            }
            cs.push(c);
            assert(party_entries(cs@) =~= before.push((v.0, v.1)));
        },
    }
}

impl EntityResolver {
    /// The resolver's indexes agree in kind with its model: keys unique in each.
    pub open spec fn wf(&self) -> bool {
        &&& keys_unique(self@.ids)
        &&& keys_unique(self@.names)
        &&& keys_unique(self@.parties)
    }

    /// An empty resolver.
    pub fn new() -> (r: EntityResolver)
        ensures
            r.wf(),
            r@.ids.len() == 0,
            r@.names.len() == 0,
            r@.parties.len() == 0,
    {
        let r = EntityResolver { id_index: Vec::new(), name_index: Vec::new(), contractors: Vec::new() };
        assert(r@.ids =~= Seq::empty());
        assert(r@.names =~= Seq::empty());
        assert(r@.parties =~= Seq::empty());
        r
    }

    /// Registers `contractor`: its canonical legal identifier and its normalised name now
    /// lead to its identifier (overwriting an earlier owner of either key), and it is stored
    /// under its identifier with its name as given and its legal identifier in canonical form.
    pub fn register(&mut self, contractor: Contractor)
        requires
            old(self).wf(),
        ensures
            final(self).wf(),
            final(self)@ == registered(old(self)@, contractor@),
    {
        let id = contractor.id;
        let clean_id = canonical_legal_id(contractor.legal_id.as_str());
        let stored_id = clean_id.clone();
        upsert_entry(&mut self.id_index, clean_id, id);
        let normalized = StandardCleaner::normalize_business_name(contractor.name.as_str());
        upsert_entry(&mut self.name_index, normalized, id);
        let stored = Contractor { id, name: contractor.name, legal_id: stored_id };
        upsert_party(&mut self.contractors, stored);
    }

    /// Resolves the claim (`legal_id`, `name`): by canonical legal identifier, then by exact
    /// normalised name, then by the best Jaro-Winkler similarity at or above 0.85.
    pub fn resolve(&self, legal_id: &str, name: &str) -> (r: MatchResult)
        requires
            self.wf(),
        ensures
            r == outcome(self@, legal_id@, name@),
            r == MatchResult::NoMatch <==> {
                &&& lookup(self@.ids, canonical_id(legal_id@)) is None
                &&& lookup(self@.names, normalized_name(name@)) is None
                &&& forall|i: int| 0 <= i < self@.names.len() ==> value_lt(
                    #[trigger] jaro_winkler_of(normalized_name(name@), self@.names[i].0),
                    FUZZY_THRESHOLD_BITS,
                )
            },
            r matches MatchResult::FuzzyMatch { confidence, .. } ==> value_ge(confidence, FUZZY_THRESHOLD_BITS)
                && confidence <= ONE_BITS,
    {
        let clean_id = canonical_legal_id(legal_id);
        match find_key(&self.id_index, &clean_id) {
            Some(i) => {
                proof {
                    lemma_find_last_unique(self@.ids, clean_id@, i as int);
                }
                return MatchResult::ExactMatch(self.id_index[i].id);
            },
            None => {
                proof {
                    lemma_find_last_absent(self@.ids, clean_id@);
                }
            },
        }
        let normalized = StandardCleaner::normalize_business_name(name);
        match find_key(&self.name_index, &normalized) {
            Some(i) => {
                proof {
                    lemma_find_last_unique(self@.names, normalized@, i as int);
                }
                return MatchResult::ExactMatch(self.name_index[i].id);
            },
            None => {
                proof {
                    lemma_find_last_absent(self@.names, normalized@);
                }
            },
        }
        let mut best: Option<(PartyId, u64)> = None;
        let mut i: usize = 0;
        let n = self.name_index.len();
        assert(self@.names.subrange(0, 0) =~= Seq::<(Seq<char>, PartyId)>::empty());
        while i < n
            invariant
                n == self.name_index@.len(),
                n == self@.names.len(),
                i <= n,
                best == best_fuzzy(self@.names.subrange(0, i as int), normalized@),
                forall|j: int| 0 <= j < i ==> #[trigger] jaro_winkler_of(normalized@, self@.names[j].0) <= ONE_BITS,
            decreases n - i,
        {
            let e = &self.name_index[i];
            let sim = similarity(normalized.as_str(), e.key.as_str());
            let ghost sub = self@.names.subrange(0, i + 1);
            assert(sub.drop_last() =~= self@.names.subrange(0, i as int));
            assert(sub.last() == (e.key@, e.id));
            if ge_bits(sim, FUZZY_THRESHOLD_BITS) {
                match best {
                    None => {
                        best = Some((e.id, sim));
                    },
                    Some((_, b)) => {
                        if lt_bits(b, sim) {
                            best = Some((e.id, sim));
                        }
                    },
                }
            }
            i = i + 1;
        }
        assert(self@.names.subrange(0, n as int) =~= self@.names);
        proof {
            lemma_best_fuzzy(self@.names, normalized@);
            lemma_fuzzy_first_best(self@.names, normalized@);
        }
        match best {
            Some((id, confidence)) => MatchResult::FuzzyMatch { id, confidence },
            None => MatchResult::NoMatch,
        }
    }

    /// The contractor registered under `id`, if any.
    pub fn get(&self, id: &PartyId) -> (r: Option<&Contractor>)
        requires
            self.wf(),
        ensures
            match r {
                Some(c) => c.id == *id && lookup(self@.parties, *id) == Some(c@.1),
                None => lookup(self@.parties, *id) is None,
            },
    {
        match find_party(&self.contractors, *id) {
            Some(i) => {
                proof {
                    lemma_find_last_unique(self@.parties, *id, i as int);
                }
                Some(&self.contractors[i])
            },
            None => {
                proof {
                    lemma_find_last_absent(self@.parties, *id);
                }
                None
            },
        }
    }

    /// Mutable access to the contractor registered under `id`, if any. The indexes are not
    /// updated through it: a caller that changes the name, the legal identifier or the
    /// identifier leaves them describing the contractor as registered.
    pub fn get_mut(&mut self, id: &PartyId) -> (r: Option<&mut Contractor>)
        requires
            old(self).wf(),
        ensures
            (r is Some) == (lookup(old(self)@.parties, *id) is Some),
            r matches Some(c) ==> c.id == *id && lookup(old(self)@.parties, *id) == Some(
                (c.name@, c.legal_id@),
            ),
    {
        match find_party(&self.contractors, *id) {
            Some(i) => {
                proof {
                    lemma_find_last_unique(self@.parties, *id, i as int);
                }
                Some(&mut self.contractors[i])
            },
            None => {
                proof {
                    lemma_find_last_absent(self@.parties, *id);
                }
                None
            },
        }
    }

    /// The number of registered contractors.
    pub fn len(&self) -> (r: usize)
        ensures
            r == self@.parties.len(),
    {
        self.contractors.len()
    }

    /// Whether no contractor is registered.
    pub fn is_empty(&self) -> (r: bool)
        ensures
            r == (self@.parties.len() == 0),
    {
        self.contractors.len() == 0
    }
}

impl Default for EntityResolver {
    fn default() -> (r: EntityResolver)
        ensures
            r.wf(),
            r@.ids.len() == 0,
            r@.names.len() == 0,
            r@.parties.len() == 0,
    {
        EntityResolver::new()
    }
}

} // verus!
