//! Canonical forms of free text: trimming, case folding, suffix stripping.

use vstd::prelude::*;

verus! {

/// Whether `c` has the Unicode White_Space property: U+0009 to U+000D, U+0020, U+0085,
/// U+00A0, U+1680, U+2000 to U+200A, U+2028, U+2029, U+202F, U+205F and U+3000.
pub open spec fn is_white(c: char) -> bool {
    let u = c as u32;
    ||| 0x9 <= u <= 0xd
    ||| u == 0x20
    ||| u == 0x85
    ||| u == 0xa0
    ||| u == 0x1680
    ||| 0x2000 <= u <= 0x200a
    ||| u == 0x2028
    ||| u == 0x2029
    ||| u == 0x202f
    ||| u == 0x205f
    ||| u == 0x3000
}

/// What `str::to_uppercase` returns for a string.
pub uninterp spec fn upper_of(s: Seq<char>) -> Seq<char>;

/// Relies on `char::is_whitespace`: the Unicode White_Space property of `c`.
#[verifier::external_body]
fn is_space(c: char) -> (r: bool)
    ensures
        r == is_white(c),
{
    c.is_whitespace()
}

/// Relies on `str::to_uppercase`: the upper-case form of `s`, a function of its characters.
#[verifier::external_body]
fn to_upper(s: &str) -> (r: String)
    ensures
        r@ == upper_of(s@),
{
    s.to_uppercase()
}

/// The first index at or after `k` that holds no whitespace (or the length).
pub open spec fn lead_from(s: Seq<char>, k: int) -> int
    decreases s.len() - k,
{
    if 0 <= k < s.len() && is_white(s[k]) {
        lead_from(s, k + 1)
    } else {
        k
    }
}

/// The end of `s` once the whitespace before index `k`, down to `lo`, is dropped.
pub open spec fn trail_to(s: Seq<char>, lo: int, k: int) -> int
    decreases k - lo,
{
    if lo < k && k <= s.len() && is_white(s[k - 1]) {
        trail_to(s, lo, k - 1)
    } else {
        k
    }
}

/// `s` without its leading and trailing whitespace.
pub open spec fn trimmed(s: Seq<char>) -> Seq<char> {
    let a = lead_from(s, 0);
    s.subrange(a, trail_to(s, a, s.len() as int))
}

/// `s` with every occurrence of the non-empty pattern `p` removed, matched left to right
/// without overlap.
pub open spec fn remove_all(s: Seq<char>, p: Seq<char>) -> Seq<char>
    decreases s.len(),
{
    if p.len() == 0 || s.len() < p.len() {
        s
    } else if s.subrange(0, p.len() as int) == p {
        remove_all(s.subrange(p.len() as int, s.len() as int), p)
    } else {
        seq![s[0]] + remove_all(s.subrange(1, s.len() as int), p)
    }
}

/// Whether `p` occurs in `t`.
pub open spec fn contains_chars(t: Seq<char>, p: Seq<char>) -> bool {
    exists|i: int| 0 <= i && i + p.len() <= t.len() && #[trigger] t.subrange(i, i + p.len()) == p
}

/// A string trimmed and upper-cased.
pub open spec fn cleaned(s: Seq<char>) -> Seq<char> {
    upper_of(trimmed(s))
}

/// The business-name form used to index and compare contractor names.
pub open spec fn normalized_name(s: Seq<char>) -> Seq<char> {
    trimmed(
        remove_all(
            remove_all(
                remove_all(
                    remove_all(remove_all(cleaned(s), " S A S"@), " S.A.S."@),
                    " LTDA"@,
                ),
                " LIMITADA"@,
            ),
            "."@,
        ),
    )
}

/// A tax identifier trimmed, without `-` and `.` separators.
pub open spec fn canonical_id(s: Seq<char>) -> Seq<char> {
    remove_all(remove_all(trimmed(s), "-"@), "."@)
}

proof fn lemma_lead_bounds(s: Seq<char>, k: int)
    requires
        0 <= k <= s.len(),
    ensures
        k <= lead_from(s, k) <= s.len(),
        lead_from(s, k) < s.len() ==> !is_white(s[lead_from(s, k)]),
        forall|j: int| k <= j < lead_from(s, k) ==> is_white(#[trigger] s[j]),
    decreases s.len() - k,
{
    if k < s.len() && is_white(s[k]) {
        lemma_lead_bounds(s, k + 1);
    }
}

proof fn lemma_trail_bounds(s: Seq<char>, lo: int, k: int)
    requires
        0 <= lo <= k <= s.len(),
    ensures
        lo <= trail_to(s, lo, k) <= k,
        trail_to(s, lo, k) > lo ==> !is_white(s[trail_to(s, lo, k) - 1]),
    decreases k - lo,
{
    if lo < k && is_white(s[k - 1]) {
        lemma_trail_bounds(s, lo, k - 1);
    }
}

proof fn lemma_trimmed_ends(s: Seq<char>)
    ensures
        trimmed(s).len() > 0 ==> !is_white(trimmed(s)[0]) && !is_white(trimmed(s).last()),
        forall|i: int| 0 <= i < trimmed(s).len() ==> exists|j: int| 0 <= j < s.len() && #[trigger] trimmed(s)[i] == s[j],
{
    let a = lead_from(s, 0);
    lemma_lead_bounds(s, 0);
    lemma_trail_bounds(s, a, s.len() as int);
    let t = trimmed(s);
    assert forall|i: int| 0 <= i < t.len() implies exists|j: int| 0 <= j < s.len() && #[trigger] t[i] == s[j] by {
        assert(t[i] == s[a + i]);
    }
}

proof fn lemma_trimmed_idempotent(s: Seq<char>)
    ensures
        trimmed(trimmed(s)) == trimmed(s),
{
    let t = trimmed(s);
    lemma_trimmed_ends(s);
    if t.len() > 0 {
        assert(lead_from(t, 0) == 0);
        assert(trail_to(t, 0, t.len() as int) == t.len());
    }
    assert(trimmed(t) =~= t);
}

proof fn lemma_remove_absent(s: Seq<char>, p: Seq<char>)
    requires
        p.len() > 0,
        !contains_chars(s, p),
    ensures
        remove_all(s, p) == s,
    decreases s.len(),
{
    if s.len() >= p.len() {
        assert(s.subrange(0, 0 + p.len() as int) != p);
        let r = s.subrange(1, s.len() as int);
        assert forall|i: int| 0 <= i && i + p.len() <= r.len() implies #[trigger] r.subrange(i, i + p.len()) != p by {
            assert(r.subrange(i, i + p.len()) =~= s.subrange(i + 1, i + 1 + p.len()));
        }
        lemma_remove_absent(r, p);
        assert(seq![s[0]] + r =~= s);
    }
}

proof fn lemma_remove_char_gone(s: Seq<char>, c: char)
    ensures
        forall|i: int| 0 <= i < remove_all(s, seq![c]).len() ==> #[trigger] remove_all(s, seq![c])[i] != c,
    decreases s.len(),
{
    let p = seq![c];
    if s.len() >= 1 {
        let r = s.subrange(1, s.len() as int);
        lemma_remove_char_gone(r, c);
        if s.subrange(0, 1) == p {
        } else {
            assert(s[0] != c) by {
                if s[0] == c {
                    assert(s.subrange(0, 1) =~= p);
                }
            }
            let out = seq![s[0]] + remove_all(r, p);
            assert forall|i: int| 0 <= i < out.len() implies #[trigger] out[i] != c by {
                if i > 0 {
                    assert(out[i] == remove_all(r, p)[i - 1]);
                }
            }
        }
    }
}

proof fn lemma_no_char_no_pattern(t: Seq<char>, p: Seq<char>, k: int)
    requires
        0 <= k < p.len(),
        forall|i: int| 0 <= i < t.len() ==> #[trigger] t[i] != p[k],
    ensures
        !contains_chars(t, p),
{
    assert forall|i: int| 0 <= i && i + p.len() <= t.len() implies #[trigger] t.subrange(i, i + p.len()) != p by {
        assert(t.subrange(i, i + p.len())[k] == t[i + k]);
    }
}

/// Normalisation is a projection on every name whose normal form upper-cases to itself and
/// holds none of the suffix patterns " S A S", " LTDA", " LIMITADA" (removing one pattern can
/// join text into another, as "X LT.DA" becomes "X LTDA"; those names are left out).
pub proof fn lemma_normalize_idempotent(x: Seq<char>)
    requires
        upper_of(normalized_name(x)) == normalized_name(x),
        !contains_chars(normalized_name(x), " S A S"@),
        !contains_chars(normalized_name(x), " LTDA"@),
        !contains_chars(normalized_name(x), " LIMITADA"@),
    ensures
        normalized_name(normalized_name(x)) == normalized_name(x),
{
    let n = normalized_name(x);
    let y = remove_all(
        remove_all(remove_all(remove_all(remove_all(cleaned(x), " S A S"@), " S.A.S."@), " LTDA"@), " LIMITADA"@),
        "."@,
    );
    assert(n == trimmed(y));
    lemma_trimmed_idempotent(y);
    assert(cleaned(n) == n);
    reveal_strlit(".");
    reveal_strlit(" S.A.S.");
    reveal_strlit(" S A S");
    reveal_strlit(" LTDA");
    reveal_strlit(" LIMITADA");
    assert("."@ =~= seq!['.']);
    lemma_remove_char_gone(
        remove_all(remove_all(remove_all(remove_all(cleaned(x), " S A S"@), " S.A.S."@), " LTDA"@), " LIMITADA"@),
        '.',
    );
    lemma_trimmed_ends(y);
    assert forall|i: int| 0 <= i < n.len() implies #[trigger] n[i] != '.' by {
        let j = choose|j: int| 0 <= j < y.len() && n[i] == y[j];
    }
    assert(" S.A.S."@[2] == '.');
    lemma_no_char_no_pattern(n, " S.A.S."@, 2);
    lemma_no_char_no_pattern(n, "."@, 0);
    lemma_remove_absent(n, " S A S"@);
    lemma_remove_absent(n, " S.A.S."@);
    lemma_remove_absent(n, " LTDA"@);
    lemma_remove_absent(n, " LIMITADA"@);
    lemma_remove_absent(n, "."@);
    lemma_trimmed_idempotent(y);
}

/// `s` without its leading and trailing whitespace.
pub fn trim_text(s: &str) -> (r: String)
    ensures
        r@ == trimmed(s@),
{
    let n = s.unicode_len();
    let mut a: usize = 0;
    while a < n && is_space(s.get_char(a))
        invariant
            n == s@.len(),
            a <= n,
            lead_from(s@, a as int) == lead_from(s@, 0),
        decreases n - a,
    {
        a = a + 1;
    }
    proof {
        lemma_lead_bounds(s@, 0);
    }
    let mut b: usize = n;
    while a < b && is_space(s.get_char(b - 1))
        invariant
            n == s@.len(),
            a <= b <= n,
            a == lead_from(s@, 0),
            trail_to(s@, a as int, b as int) == trail_to(s@, a as int, n as int),
        decreases b - a,
    {
        b = b - 1;
    }
    String::from_str(s.substring_char(a, b))
}

/// Whether `p` occurs in `s` at index `i`.
pub(crate) fn occurs_at(s: &str, n: usize, i: usize, p: &str, m: usize) -> (r: bool)
    requires
        n == s@.len(),
        m == p@.len(),
        i + m <= n,
    ensures
        r == (s@.subrange(i as int, i + m) == p@),
{
    let mut k: usize = 0;
    while k < m
        invariant
            n == s@.len(),
            m == p@.len(),
            i + m <= n,
            k <= m,
            forall|j: int| 0 <= j < k ==> s@[i + j] == p@[j],
        decreases m - k,
    {
        if s.get_char(i + k) != p.get_char(k) {
            assert(s@.subrange(i as int, i + m)[k as int] != p@[k as int]);
            return false;
        }
        k = k + 1;
    }
    assert(s@.subrange(i as int, i + m) =~= p@);
    true
}

/// `s` with every occurrence of the non-empty pattern `p` removed, left to right.
pub fn remove_pattern(s: &str, p: &str) -> (r: String)
    ensures
        r@ == remove_all(s@, p@),
{
    let n = s.unicode_len();
    let m = p.unicode_len();
    let mut out = String::new();
    let mut i: usize = 0;
    if m == 0 {
        return String::from_str(s);
    }
    assert(s@.subrange(0, n as int) =~= s@);
    assert(out@ + remove_all(s@, p@) =~= remove_all(s@, p@));
    while i < n
        invariant
            n == s@.len(),
            m == p@.len(),
            m > 0,
            i <= n,
            out@ + remove_all(s@.subrange(i as int, n as int), p@) == remove_all(s@, p@),
        decreases n - i,
    {
        let ghost rest = s@.subrange(i as int, n as int);
        if n - i < m {
            out.append(s.substring_char(i, n));
            assert(remove_all(rest, p@) == rest);
            i = n;
        } else if occurs_at(s, n, i, p, m) {
            assert(rest.subrange(0, m as int) =~= s@.subrange(i as int, i + m));
            assert(rest.subrange(m as int, rest.len() as int) =~= s@.subrange(i + m, n as int));
            i = i + m;
        } else {
            assert(rest.subrange(0, m as int) =~= s@.subrange(i as int, i + m));
            assert(rest.subrange(1, rest.len() as int) =~= s@.subrange(i + 1, n as int));
            let piece = s.substring_char(i, i + 1);
            assert(piece@ =~= seq![rest[0]]);
            out.append(piece);
            assert(out@ + remove_all(s@.subrange(i + 1, n as int), p@) =~= remove_all(s@, p@));
            i = i + 1;
        }
    }
    assert(s@.subrange(n as int, n as int) =~= Seq::<char>::empty());
    assert(out@ =~= remove_all(s@, p@));
    out
}

/// Text cleaning and business-name normalisation.
pub trait DataCleaner {
    /// `input` trimmed and upper-cased.
    fn clean_string(input: &str) -> (r: String)
        ensures
            r@ == cleaned(input@),
    ;

    /// `name` cleaned, with the legal-entity suffixes and every period removed, trimmed again.
    fn normalize_business_name(name: &str) -> (r: String)
        ensures
            r@ == normalized_name(name@),
    ;
}

/// The cleaner used for contractor names.
pub struct StandardCleaner;

impl DataCleaner for StandardCleaner {
    fn clean_string(input: &str) -> (r: String) {
        let t = trim_text(input);
        to_upper(t.as_str())
    }

    fn normalize_business_name(name: &str) -> (r: String) {
        let clean = Self::clean_string(name);
        let a = remove_pattern(clean.as_str(), " S A S");
        let b = remove_pattern(a.as_str(), " S.A.S.");
        let c = remove_pattern(b.as_str(), " LTDA");
        let d = remove_pattern(c.as_str(), " LIMITADA");
        let e = remove_pattern(d.as_str(), ".");
        trim_text(e.as_str())
    }
}

/// A tax identifier trimmed, with the `-` and `.` separators removed.
pub fn canonical_legal_id(legal_id: &str) -> (r: String)
    ensures
        r@ == canonical_id(legal_id@),
{
    let t = trim_text(legal_id);
    let a = remove_pattern(t.as_str(), "-");
    remove_pattern(a.as_str(), ".")
}

} // verus!
