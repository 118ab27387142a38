//! Version-aware string comparison.
//!
//! Version strings are split on `.` and `-` into components. Components made
//! entirely of decimal digits are compared by their numeric value; all other
//! pairs of components are compared lexicographically by character code. When
//! one version has fewer components than the other, the missing components are
//! treated as the numeric component `0`, so `"1.9"` and `"1.9.0"` are equal.

use vstd::prelude::*;

verus! {

/// Outcome of comparing two versions (or two components).
#[derive(Clone, Copy, Debug, PartialEq, Eq, Structural)]
pub enum VersionOrder {
    Less,
    Equal,
    Greater,
}

/// Characters that separate the components of a version string.
pub open spec fn is_separator(c: char) -> bool {
    c == '.' || c == '-'
}

/// Decimal digit test.
pub open spec fn is_digit(c: char) -> bool {
    48 <= c as int && c as int <= 57
}

/// Numeric value of a single decimal digit.
pub open spec fn digit_val(c: char) -> int {
    c as int - 48
}

/// A component is numeric when it is non-empty and all of its characters are
/// decimal digits.
pub open spec fn is_numeric(s: Seq<char>) -> bool {
    s.len() > 0 && forall|i: int| 0 <= i < s.len() ==> is_digit(#[trigger] s[i])
}

/// Powers of ten.
pub open spec fn pow10(n: nat) -> int
    decreases n,
{
    if n == 0 {
        1
    } else {
        10 * pow10((n - 1) as nat)
    }
}

/// The integer denoted by a sequence of decimal digits (most significant
/// first). An empty sequence denotes zero.
pub open spec fn numeric_value(s: Seq<char>) -> int
    decreases s.len(),
{
    if s.len() == 0 {
        0
    } else {
        digit_val(s[0]) * pow10((s.len() - 1) as nat) + numeric_value(s.drop_first())
    }
}

/// Three-way comparison of two integers.
pub open spec fn int_cmp(a: int, b: int) -> VersionOrder {
    if a < b {
        VersionOrder::Less
    } else if a == b {
        VersionOrder::Equal
    } else {
        VersionOrder::Greater
    }
}

/// Three-way comparison of two characters by code point.
pub open spec fn char_cmp(a: char, b: char) -> VersionOrder {
    int_cmp(a as int, b as int)
}

/// Lexicographic comparison of two character sequences; a proper prefix
/// orders before its extensions.
pub open spec fn lex_cmp(a: Seq<char>, b: Seq<char>) -> VersionOrder
    decreases a.len() + b.len(),
{
    if a.len() == 0 && b.len() == 0 {
        VersionOrder::Equal
    } else if a.len() == 0 {
        VersionOrder::Less
    } else if b.len() == 0 {
        VersionOrder::Greater
    } else if char_cmp(a[0], b[0]) != VersionOrder::Equal {
        char_cmp(a[0], b[0])
    } else {
        lex_cmp(a.drop_first(), b.drop_first())
    }
}

/// Comparison of two version components: numeric against numeric compares by
/// value, every other pairing compares lexicographically.
pub open spec fn component_cmp(a: Seq<char>, b: Seq<char>) -> VersionOrder {
    if is_numeric(a) && is_numeric(b) {
        int_cmp(numeric_value(a), numeric_value(b))
    } else {
        lex_cmp(a, b)
    }
}

/// The implicit component that pads a shorter version.
pub open spec fn zero_component() -> Seq<char> {
    seq!['0']
}

/// Splitting a version string on separators. The result always holds at least
/// one component; separators at the edges or next to each other yield empty
/// components.
pub open spec fn split_components(s: Seq<char>) -> Seq<Seq<char>>
    decreases s.len(),
{
    if s.len() == 0 {
        seq![Seq::<char>::empty()]
    } else if is_separator(s[0]) {
        seq![Seq::<char>::empty()] + split_components(s.drop_first())
    } else {
        let rest = split_components(s.drop_first());
        seq![seq![s[0]] + rest[0]] + rest.drop_first()
    }
}

/// Component-wise comparison of two component sequences, padding the shorter
/// one with zero components.
pub open spec fn components_cmp(a: Seq<Seq<char>>, b: Seq<Seq<char>>) -> VersionOrder
    decreases a.len() + b.len(),
{
    if a.len() == 0 && b.len() == 0 {
        VersionOrder::Equal
    } else {
        let ca = if a.len() == 0 { zero_component() } else { a[0] };
        let cb = if b.len() == 0 { zero_component() } else { b[0] };
        if component_cmp(ca, cb) != VersionOrder::Equal {
            component_cmp(ca, cb)
        } else {
            let ta = if a.len() == 0 { a } else { a.drop_first() };
            let tb = if b.len() == 0 { b } else { b.drop_first() };
            components_cmp(ta, tb)
        }
    }
}

/// Version-aware comparison of two version strings.
pub open spec fn version_cmp(a: Seq<char>, b: Seq<char>) -> VersionOrder {
    components_cmp(split_components(a), split_components(b))
}

/// `a` is at most `b` under version ordering.
pub open spec fn version_le(a: Seq<char>, b: Seq<char>) -> bool {
    version_cmp(a, b) != VersionOrder::Greater
}

/// `a` is strictly below `b` under version ordering.
pub open spec fn version_lt(a: Seq<char>, b: Seq<char>) -> bool {
    version_cmp(a, b) == VersionOrder::Less
}

/// Every character of the sequence is a decimal digit (an empty sequence
/// qualifies).
pub open spec fn all_digits(s: Seq<char>) -> bool {
    forall|i: int| 0 <= i < s.len() ==> is_digit(#[trigger] s[i])
}

proof fn lemma_pow10_pos(n: nat)
    ensures
        pow10(n) >= 1,
    decreases n,
{
    if n > 0 {
        lemma_pow10_pos((n - 1) as nat);
    }
}

proof fn lemma_pow10_mono(m: nat, n: nat)
    requires
        m <= n,
    ensures
        pow10(m) <= pow10(n),
    decreases n,
{
    if m < n {
        lemma_pow10_mono(m, (n - 1) as nat);
        lemma_pow10_pos((n - 1) as nat);
    }
}

proof fn lemma_nv_nonneg(s: Seq<char>)
    requires
        all_digits(s),
    ensures
        numeric_value(s) >= 0,
    decreases s.len(),
{
    if s.len() > 0 {
        lemma_nv_nonneg(s.drop_first());
        lemma_pow10_pos((s.len() - 1) as nat);
        let d = digit_val(s[0]);
        let p = pow10((s.len() - 1) as nat);
        assert(d * p >= 0) by (nonlinear_arith)
            requires
                d >= 0,
                p >= 0,
        ;
    }
}

proof fn lemma_nv_upper(s: Seq<char>)
    requires
        all_digits(s),
    ensures
        numeric_value(s) < pow10(s.len()),
    decreases s.len(),
{
    if s.len() == 0 {
    } else {
        lemma_nv_upper(s.drop_first());
        let d = digit_val(s[0]);
        let p = pow10((s.len() - 1) as nat);
        lemma_pow10_pos((s.len() - 1) as nat);
        assert(d * p <= 9 * p) by (nonlinear_arith)
            requires
                d <= 9,
                p >= 0,
        ;
        assert(numeric_value(s) < 10 * p);
    }
}

proof fn lemma_nv_lower(s: Seq<char>)
    requires
        all_digits(s),
        s.len() > 0,
        s[0] != '0',
    ensures
        numeric_value(s) >= pow10((s.len() - 1) as nat),
    decreases s.len(),
{
    let d = digit_val(s[0]);
    let p = pow10((s.len() - 1) as nat);
    lemma_pow10_pos((s.len() - 1) as nat);
    lemma_nv_nonneg(s.drop_first());
    assert(d * p >= 1 * p) by (nonlinear_arith)
        requires
            d >= 1,
            p >= 0,
    ;
}

proof fn lemma_nv_skip_zeros(s: Seq<char>, k: int)
    requires
        all_digits(s),
        0 <= k <= s.len(),
        forall|j: int| 0 <= j < k ==> s[j] == '0',
    ensures
        numeric_value(s.skip(k)) == numeric_value(s),
    decreases k,
{
    if k == 0 {
        assert(s.skip(0) =~= s);
    } else {
        assert(s[0] == '0');
        assert(digit_val(s[0]) == 0);
        let p = pow10((s.len() - 1) as nat);
        assert(0 * p == 0) by (nonlinear_arith);
        assert(numeric_value(s) == numeric_value(s.drop_first()));
        lemma_nv_skip_zeros(s.drop_first(), k - 1);
        assert(s.drop_first().skip(k - 1) =~= s.skip(k));
    }
}

proof fn lemma_lex_refl(s: Seq<char>)
    ensures
        lex_cmp(s, s) == VersionOrder::Equal,
    decreases s.len(),
{
    if s.len() > 0 {
        lemma_lex_refl(s.drop_first());
    }
}

proof fn lemma_lex_first_diff(x: Seq<char>, y: Seq<char>, k: int)
    requires
        0 <= k < x.len(),
        k < y.len(),
        forall|m: int| 0 <= m < k ==> x[m] == y[m],
        x[k] != y[k],
    ensures
        lex_cmp(x, y) == char_cmp(x[k], y[k]),
    decreases k,
{
    if k == 0 {
        assert(char_cmp(x[0], y[0]) != VersionOrder::Equal);
    } else {
        assert(char_cmp(x[0], y[0]) == VersionOrder::Equal);
        lemma_lex_first_diff(x.drop_first(), y.drop_first(), k - 1);
    }
}

/// On equal-length all-digit sequences, lexicographic order agrees with the
/// order of the denoted integers.
proof fn lemma_lex_eq_nv(a: Seq<char>, b: Seq<char>)
    requires
        all_digits(a),
        all_digits(b),
        a.len() == b.len(),
    ensures
        lex_cmp(a, b) == int_cmp(numeric_value(a), numeric_value(b)),
    decreases a.len(),
{
    if a.len() == 0 {
    } else {
        let p = pow10((a.len() - 1) as nat);
        let da = digit_val(a[0]);
        let db = digit_val(b[0]);
        let ra = numeric_value(a.drop_first());
        let rb = numeric_value(b.drop_first());
        lemma_pow10_pos((a.len() - 1) as nat);
        lemma_nv_nonneg(a.drop_first());
        lemma_nv_nonneg(b.drop_first());
        lemma_nv_upper(a.drop_first());
        lemma_nv_upper(b.drop_first());
        if a[0] == b[0] {
            lemma_lex_eq_nv(a.drop_first(), b.drop_first());
        } else if da < db {
            assert((da + 1) * p <= db * p) by (nonlinear_arith)
                requires
                    da + 1 <= db,
                    p >= 0,
            ;
            assert(da * p + p == (da + 1) * p) by (nonlinear_arith);
            assert(numeric_value(a) < numeric_value(b));
        } else {
            assert((db + 1) * p <= da * p) by (nonlinear_arith)
                requires
                    db + 1 <= da,
                    p >= 0,
            ;
            assert(db * p + p == (db + 1) * p) by (nonlinear_arith);
            assert(numeric_value(b) < numeric_value(a));
        }
    }
}

/// The reverse of a comparison outcome.
pub open spec fn flip_order(o: VersionOrder) -> VersionOrder {
    match o {
        VersionOrder::Less => VersionOrder::Greater,
        VersionOrder::Equal => VersionOrder::Equal,
        VersionOrder::Greater => VersionOrder::Less,
    }
}

proof fn lemma_lex_flip(a: Seq<char>, b: Seq<char>)
    ensures
        lex_cmp(b, a) == flip_order(lex_cmp(a, b)),
    decreases a.len() + b.len(),
{
    if a.len() > 0 && b.len() > 0 && char_cmp(a[0], b[0]) == VersionOrder::Equal {
        lemma_lex_flip(a.drop_first(), b.drop_first());
    }
}

proof fn lemma_component_flip(a: Seq<char>, b: Seq<char>)
    ensures
        component_cmp(b, a) == flip_order(component_cmp(a, b)),
{
    if !(is_numeric(a) && is_numeric(b)) {
        lemma_lex_flip(a, b);
    }
}

proof fn lemma_components_flip(a: Seq<Seq<char>>, b: Seq<Seq<char>>)
    ensures
        components_cmp(b, a) == flip_order(components_cmp(a, b)),
    decreases a.len() + b.len(),
{
    if a.len() == 0 && b.len() == 0 {
    } else {
        let ca = if a.len() == 0 { zero_component() } else { a[0] };
        let cb = if b.len() == 0 { zero_component() } else { b[0] };
        lemma_component_flip(ca, cb);
        if component_cmp(ca, cb) == VersionOrder::Equal {
            let ta = if a.len() == 0 { a } else { a.drop_first() };
            let tb = if b.len() == 0 { b } else { b.drop_first() };
            lemma_components_flip(ta, tb);
        }
    }
}

proof fn lemma_components_refl(a: Seq<Seq<char>>)
    ensures
        components_cmp(a, a) == VersionOrder::Equal,
    decreases a.len(),
{
    if a.len() > 0 {
        if !is_numeric(a[0]) {
            lemma_lex_refl(a[0]);
        }
        lemma_components_refl(a.drop_first());
    }
}

/// The version comparison is reflexive: every version equals itself.
pub proof fn lemma_version_cmp_reflexive(a: Seq<char>)
    ensures
        version_cmp(a, a) == VersionOrder::Equal,
{
    lemma_components_refl(split_components(a));
}

/// The version comparison is antisymmetric: swapping the arguments reverses
/// the outcome, so `Less`, `Equal` and `Greater` behave as a consistent
/// three-way order.
pub proof fn lemma_version_cmp_antisymmetric(a: Seq<char>, b: Seq<char>)
    ensures
        version_cmp(b, a) == flip_order(version_cmp(a, b)),
{
    lemma_components_flip(split_components(a), split_components(b));
}

/// Lexicographic comparison of two integer sequences.
pub open spec fn int_seq_cmp(a: Seq<int>, b: Seq<int>) -> VersionOrder
    decreases a.len() + b.len(),
{
    if a.len() == 0 && b.len() == 0 {
        VersionOrder::Equal
    } else if a.len() == 0 {
        VersionOrder::Less
    } else if b.len() == 0 {
        VersionOrder::Greater
    } else if a[0] != b[0] {
        int_cmp(a[0], b[0])
    } else {
        int_seq_cmp(a.drop_first(), b.drop_first())
    }
}

/// The numeric tuple a version denotes, when all of its components are
/// numeric.
pub open spec fn numeric_tuple(a: Seq<char>) -> Seq<int> {
    split_components(a).map_values(|c: Seq<char>| numeric_value(c))
}

proof fn lemma_components_numeric_agreement(x: Seq<Seq<char>>, y: Seq<Seq<char>>)
    requires
        x.len() == y.len(),
        forall|i: int| 0 <= i < x.len() ==> is_numeric(#[trigger] x[i]),
        forall|i: int| 0 <= i < y.len() ==> is_numeric(#[trigger] y[i]),
    ensures
        components_cmp(x, y) == int_seq_cmp(
            x.map_values(|c: Seq<char>| numeric_value(c)),
            y.map_values(|c: Seq<char>| numeric_value(c)),
        ),
    decreases x.len(),
{
    let mx = x.map_values(|c: Seq<char>| numeric_value(c));
    let my = y.map_values(|c: Seq<char>| numeric_value(c));
    if x.len() == 0 {
    } else {
        assert(mx[0] == numeric_value(x[0]));
        assert(my[0] == numeric_value(y[0]));
        lemma_components_numeric_agreement(x.drop_first(), y.drop_first());
        assert(x.drop_first().map_values(|c: Seq<char>| numeric_value(c)) =~= mx.drop_first());
        assert(y.drop_first().map_values(|c: Seq<char>| numeric_value(c)) =~= my.drop_first());
    }
}

/// On versions whose component sequences are numeric-only and of equal
/// length, the version comparison agrees with comparing the numeric tuples:
/// the order is the numeric one, never the lexicographic one ("1.9" is below
/// "1.10").
pub proof fn lemma_numeric_tuple_agreement(a: Seq<char>, b: Seq<char>)
    requires
        split_components(a).len() == split_components(b).len(),
        forall|i: int|
            0 <= i < split_components(a).len() ==> is_numeric(#[trigger] split_components(a)[i]),
        forall|i: int|
            0 <= i < split_components(b).len() ==> is_numeric(#[trigger] split_components(b)[i]),
    ensures
        version_cmp(a, b) == int_seq_cmp(numeric_tuple(a), numeric_tuple(b)),
{
    lemma_components_numeric_agreement(split_components(a), split_components(b));
}

/// The integer-sequence order is transitive, so on numeric-only versions of
/// equal component count — where `version_cmp` agrees with it — the version
/// order is a total order.
pub proof fn lemma_int_seq_cmp_transitive(a: Seq<int>, b: Seq<int>, c: Seq<int>)
    requires
        int_seq_cmp(a, b) != VersionOrder::Greater,
        int_seq_cmp(b, c) != VersionOrder::Greater,
    ensures
        int_seq_cmp(a, c) != VersionOrder::Greater,
    decreases a.len(),
{
    if a.len() == 0 {
    } else {
        assert(b.len() > 0);
        assert(c.len() > 0);
        if a[0] == b[0] && b[0] == c[0] {
            lemma_int_seq_cmp_transitive(a.drop_first(), b.drop_first(), c.drop_first());
        }
    }
}

/// Decimal digit test on an executable character.
fn char_is_digit(c: char) -> (r: bool)
    ensures
        r == is_digit(c),
{
    let u = c as u32;
    48 <= u && u <= 57
}

/// Character equality of two string slices.
pub fn str_eq(a: &str, b: &str) -> (r: bool)
    ensures
        r == (a@ == b@),
{
    let na = a.unicode_len();
    let nb = b.unicode_len();
    if na != nb {
        assert(a@ != b@) by {
            assert(a@.len() != b@.len());
        }
        return false;
    }
    let mut i: usize = 0;
    while i < na
        invariant
            i <= na,
            na == a@.len(),
            na == b@.len(),
            forall|j: int| 0 <= j < i ==> a@[j] == b@[j],
        decreases na - i,
    {
        if a.get_char(i) != b.get_char(i) {
            assert(a@ != b@);
            return false;
        }
        i += 1;
    }
    assert(a@ =~= b@);
    true
}

/// Three-way comparison of two executable characters by code point.
fn char_compare(a: char, b: char) -> (r: VersionOrder)
    ensures
        r == char_cmp(a, b),
{
    let ua = a as u32;
    let ub = b as u32;
    if ua < ub {
        VersionOrder::Less
    } else if ua == ub {
        VersionOrder::Equal
    } else {
        VersionOrder::Greater
    }
}

/// Whether a component consists entirely of digits and is non-empty.
fn component_is_numeric(v: &Vec<char>) -> (r: bool)
    ensures
        r == is_numeric(v@),
{
    if v.len() == 0 {
        return false;
    }
    let mut i: usize = 0;
    while i < v.len()
        invariant
            i <= v@.len(),
            forall|j: int| 0 <= j < i ==> is_digit(#[trigger] v@[j]),
        decreases v@.len() - i,
    {
        if !char_is_digit(v[i]) {
            return false;
        }
        i += 1;
    }
    true
}

/// Lexicographic comparison of two components.
fn compare_lex(a: &Vec<char>, b: &Vec<char>) -> (r: VersionOrder)
    ensures
        r == lex_cmp(a@, b@),
{
    let na = a.len();
    let nb = b.len();
    let mut k: usize = 0;
    assert(a@.skip(0) =~= a@);
    assert(b@.skip(0) =~= b@);
    while k < na && k < nb
        invariant
            k <= na,
            k <= nb,
            na == a@.len(),
            nb == b@.len(),
            lex_cmp(a@, b@) == lex_cmp(a@.skip(k as int), b@.skip(k as int)),
        decreases na - k,
    {
        let ca = a[k];
        let cb = b[k];
        let ghost sa = a@.skip(k as int);
        let ghost sb = b@.skip(k as int);
        assert(sa[0] == a@[k as int]);
        assert(sb[0] == b@[k as int]);
        if ca != cb {
            assert(char_cmp(sa[0], sb[0]) != VersionOrder::Equal);
            return char_compare(ca, cb);
        }
        assert(sa.drop_first() =~= a@.skip(k as int + 1));
        assert(sb.drop_first() =~= b@.skip(k as int + 1));
        k += 1;
    }
    assert(a@.skip(k as int).len() == na - k);
    assert(b@.skip(k as int).len() == nb - k);
    if na == nb {
        VersionOrder::Equal
    } else if na < nb {
        VersionOrder::Less
    } else {
        VersionOrder::Greater
    }
}

/// Comparison of two all-digit components by the integers they denote. The
/// values are never materialized (they may exceed any machine integer):
/// leading zeros are skipped, then a longer remainder is the larger number,
/// and equal-length remainders compare lexicographically.
fn compare_numeric(a: &Vec<char>, b: &Vec<char>) -> (r: VersionOrder)
    requires
        is_numeric(a@),
        is_numeric(b@),
    ensures
        r == int_cmp(numeric_value(a@), numeric_value(b@)),
{
    let na = a.len();
    let nb = b.len();
    let mut i: usize = 0;
    while i < na && a[i] == '0'
        invariant
            i <= na,
            na == a@.len(),
            forall|j: int| 0 <= j < i ==> a@[j] == '0',
        decreases na - i,
    {
        i += 1;
    }
    let mut j: usize = 0;
    while j < nb && b[j] == '0'
        invariant
            j <= nb,
            nb == b@.len(),
            forall|m: int| 0 <= m < j ==> b@[m] == '0',
        decreases nb - j,
    {
        j += 1;
    }
    let sa = Ghost(a@.skip(i as int));
    let sb = Ghost(b@.skip(j as int));
    proof {
        lemma_nv_skip_zeros(a@, i as int);
        lemma_nv_skip_zeros(b@, j as int);
        lemma_nv_nonneg(sa@);
        lemma_nv_nonneg(sb@);
    }
    let ra = na - i;
    let rb = nb - j;
    if ra < rb {
        proof {
            lemma_nv_upper(sa@);
            lemma_nv_lower(sb@);
            lemma_pow10_mono(ra as nat, (rb - 1) as nat);
        }
        VersionOrder::Less
    } else if rb < ra {
        proof {
            lemma_nv_upper(sb@);
            lemma_nv_lower(sa@);
            lemma_pow10_mono(rb as nat, (ra - 1) as nat);
        }
        VersionOrder::Greater
    } else {
        let mut k: usize = 0;
        while k < ra
            invariant
                k <= ra,
                i + ra == na,
                j + rb == nb,
                ra == rb,
                na == a@.len(),
                nb == b@.len(),
                sa@ == a@.skip(i as int),
                sb@ == b@.skip(j as int),
                numeric_value(sa@) == numeric_value(a@),
                numeric_value(sb@) == numeric_value(b@),
                is_numeric(a@),
                is_numeric(b@),
                forall|m: int| 0 <= m < k ==> sa@[m] == sb@[m],
            decreases ra - k,
        {
            let ca = a[i + k];
            let cb = b[j + k];
            assert(sa@[k as int] == a@[i + k]);
            assert(sb@[k as int] == b@[j + k]);
            if ca != cb {
                proof {
                    lemma_lex_first_diff(sa@, sb@, k as int);
                    lemma_lex_eq_nv(sa@, sb@);
                }
                return char_compare(ca, cb);
            }
            k += 1;
        }
        assert(sa@ =~= sb@);
        VersionOrder::Equal
    }
}

/// Comparison of two version components.
fn compare_components(a: &Vec<char>, b: &Vec<char>) -> (r: VersionOrder)
    ensures
        r == component_cmp(a@, b@),
{
    if component_is_numeric(a) && component_is_numeric(b) {
        compare_numeric(a, b)
    } else {
        compare_lex(a, b)
    }
}

/// Splitting a version string into its components.
fn split_version(s: &str) -> (r: Vec<Vec<char>>)
    ensures
        r.deep_view() == split_components(s@),
{
    let n = s.unicode_len();
    let mut cur: Vec<char> = Vec::new();
    let mut done: Vec<Vec<char>> = Vec::new();
    proof {
        assert(s@.skip(n as int) =~= Seq::<char>::empty());
        assert(seq![cur@] + done.deep_view() =~= split_components(s@.skip(n as int)));
    }
    let mut i = n;
    while i > 0
        invariant
            i <= n,
            n == s@.len(),
            seq![cur@] + done.deep_view() == split_components(s@.skip(i as int)),
        decreases i,
    {
        let c = s.get_char(i - 1);
        let ghost t = s@.skip(i as int - 1);
        proof {
            assert(t[0] == s@[i as int - 1]);
            assert(t.drop_first() =~= s@.skip(i as int));
        }
        if c == '.' || c == '-' {
            assert(split_components(t) == seq![Seq::<char>::empty()] + split_components(
                t.drop_first(),
            ));
            let ghost prev = seq![cur@] + done.deep_view();
            let ghost cur0 = cur@;
            done.insert(0, cur);
            cur = Vec::new();
            proof {
                assert(done@[0]@ == cur0);
                assert(done@[0].deep_view() =~= done@[0]@);
                assert(done.deep_view() =~= prev);
                assert(seq![cur@] + done.deep_view() =~= split_components(t));
            }
        } else {
            let ghost rest = split_components(t.drop_first());
            proof {
                assert(rest == seq![cur@] + done.deep_view());
                assert(rest[0] == cur@);
                assert(rest.drop_first() =~= done.deep_view());
            }
            cur.insert(0, c);
            proof {
                assert(cur@ =~= seq![t[0]] + rest[0]);
                assert(seq![cur@] + done.deep_view() =~= split_components(t));
            }
        }
        i -= 1;
    }
    assert(s@.skip(0) =~= s@);
    let ghost curv = cur@;
    let mut result = done;
    result.insert(0, cur);
    proof {
        assert(result@[0]@ == curv);
        assert(result@[0].deep_view() =~= result@[0]@);
        assert(result.deep_view() =~= split_components(s@));
    }
    result
}

/// Version-aware comparison of two version strings, as `version_cmp` states.
pub fn compare_versions(a: &str, b: &str) -> (r: VersionOrder)
    ensures
        r == version_cmp(a@, b@),
{
    let ca = split_version(a);
    let cb = split_version(b);
    let zero: Vec<char> = vec!['0'];
    assert(zero@ =~= zero_component());
    let na = ca.len();
    let nb = cb.len();
    let mut i: usize = 0;
    proof {
        assert(ca.deep_view().skip(0) =~= ca.deep_view());
        assert(cb.deep_view().skip(0) =~= cb.deep_view());
    }
    while i < na || i < nb
        invariant
            ca.deep_view() == split_components(a@),
            cb.deep_view() == split_components(b@),
            na == ca@.len(),
            nb == cb@.len(),
            zero@ == zero_component(),
            i <= na || i <= nb,
            version_cmp(a@, b@) == components_cmp(
                ca.deep_view().skip(if i < na { i as int } else { na as int }),
                cb.deep_view().skip(if i < nb { i as int } else { nb as int }),
            ),
        decreases (if i < na { na - i } else { 0 }) + (if i < nb { nb - i } else { 0 }),
    {
        let ghost ta = ca.deep_view().skip(if i < na { i as int } else { na as int });
        let ghost tb = cb.deep_view().skip(if i < nb { i as int } else { nb as int });
        let compa: &Vec<char> = if i < na { &ca[i] } else { &zero };
        let compb: &Vec<char> = if i < nb { &cb[i] } else { &zero };
        proof {
            if i < na {
                assert(ta[0] == ca.deep_view()[i as int]);
                assert(ca@[i as int].deep_view() =~= ca@[i as int]@);
            } else {
                assert(ta.len() == 0);
            }
            if i < nb {
                assert(tb[0] == cb.deep_view()[i as int]);
                assert(cb@[i as int].deep_view() =~= cb@[i as int]@);
            } else {
                assert(tb.len() == 0);
            }
            assert(compa@ == (if ta.len() == 0 { zero_component() } else { ta[0] }));
            assert(compb@ == (if tb.len() == 0 { zero_component() } else { tb[0] }));
        }
        let c = compare_components(compa, compb);
        if !matches!(c, VersionOrder::Equal) {
            assert(components_cmp(ta, tb) == c);
            return c;
        }
        proof {
            if i < na {
                assert(ta.drop_first() =~= ca.deep_view().skip(i as int + 1));
            }
            if i < nb {
                assert(tb.drop_first() =~= cb.deep_view().skip(i as int + 1));
            }
            if i + 1 >= na {
                assert(ca.deep_view().skip(na as int) =~= (if ta.len() == 0 {
                    ta
                } else {
                    ta.drop_first()
                }));
            }
            if i + 1 >= nb {
                assert(cb.deep_view().skip(nb as int) =~= (if tb.len() == 0 {
                    tb
                } else {
                    tb.drop_first()
                }));
            }
        }
        i += 1;
    }
    assert(ca.deep_view().skip(na as int).len() == 0);
    assert(cb.deep_view().skip(nb as int).len() == 0);
    VersionOrder::Equal
}

} // verus!
