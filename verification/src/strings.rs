//! Text primitives: suffix tests, case folding, digits and ordering.

use vstd::prelude::*;
use vstd::string::*;

verus! {

/// `suffix` is what `s` ends with.
pub open spec fn is_suffix(suffix: Seq<char>, s: Seq<char>) -> bool {
    &&& suffix.len() <= s.len()
    &&& forall|i: int| 0 <= i < suffix.len() ==> s[s.len() - suffix.len() + i] == suffix[i]
}

/// Some member of `suffixes` is what `s` ends with.
pub open spec fn has_any_suffix(s: Seq<char>, suffixes: Seq<Seq<char>>) -> bool {
    exists|k: int| 0 <= k < suffixes.len() && is_suffix(#[trigger] suffixes[k], s)
}

/// The character sequences held by a list of strings, in order.
pub open spec fn views(v: Seq<String>) -> Seq<Seq<char>> {
    Seq::new(v.len(), |i: int| v[i]@)
}

/// Whether `c` is one of the ten ASCII decimal digits.
pub open spec fn is_digit(c: char) -> bool {
    '0' <= c && c <= '9'
}

/// Every character of `s` is an ASCII decimal digit. The empty text qualifies.
pub open spec fn all_digits(s: Seq<char>) -> bool {
    forall|i: int| 0 <= i < s.len() ==> is_digit(#[trigger] s[i])
}

/// The lowercase form of a text, as `str::to_lowercase` computes it.
pub uninterp spec fn lowercase(s: Seq<char>) -> Seq<char>;

/// Lowercases `s` with `str::to_lowercase` of the standard library. The
/// Unicode case mapping is not spelled out here: the result is only given the
/// name `lowercase`.
#[verifier::external_body]
pub(crate) fn to_lowercase(s: &str) -> (r: String)
    ensures
        r@ == lowercase(s@),
{
    s.to_lowercase()
}

/// Tells whether two texts hold the same characters.
pub fn str_eq(a: &str, b: &str) -> (r: bool)
    ensures
        r == (a@ == b@),
{
    let n: usize = a.unicode_len();
    if n != b.unicode_len() {
        return false;
    }
    let mut i: usize = 0;
    while i < n
        invariant
            n == a@.len(),
            n == b@.len(),
            i <= n,
            forall|j: int| 0 <= j < i ==> a@[j] == b@[j],
        decreases n - i,
    {
        if a.get_char(i) != b.get_char(i) {
            return false;
        }
        i = i + 1;
    }
    assert(a@ =~= b@);
    true
}

/// Tells whether `s` ends with `suffix`.
pub fn ends_with(s: &str, suffix: &str) -> (r: bool)
    ensures
        r == is_suffix(suffix@, s@),
{
    let n: usize = s.unicode_len();
    let m: usize = suffix.unicode_len();
    if m > n {
        return false;
    }
    let start: usize = n - m;
    let mut i: usize = 0;
    while i < m
        invariant
            n == s@.len(),
            m == suffix@.len(),
            m <= n,
            start == n - m,
            i <= m,
            forall|j: int| 0 <= j < i ==> s@[start + j] == suffix@[j],
        decreases m - i,
    {
        if s.get_char(start + i) != suffix.get_char(i) {
            return false;
        }
        i = i + 1;
    }
    true
}

/// Tells whether `s` ends with one of `suffixes`.
pub fn ends_with_any(s: &str, suffixes: &[String]) -> (r: bool)
    ensures
        r == has_any_suffix(s@, views(suffixes@)),
{
    let mut k: usize = 0;
    while k < suffixes.len()
        invariant
            k <= suffixes.len(),
            forall|j: int| 0 <= j < k ==> !is_suffix(#[trigger] views(suffixes@)[j], s@),
        decreases suffixes.len() - k,
    {
        if ends_with(s, suffixes[k].as_str()) {
            assert(is_suffix(views(suffixes@)[k as int], s@));
            return true;
        }
        k = k + 1;
    }
    false
}

/// Tells whether `s` is one of `items`.
pub fn contains_str(items: &[String], s: &str) -> (r: bool)
    ensures
        r == views(items@).contains(s@),
{
    let mut k: usize = 0;
    while k < items.len()
        invariant
            k <= items.len(),
            forall|j: int| 0 <= j < k ==> views(items@)[j] != s@,
        decreases items.len() - k,
    {
        if str_eq(items[k].as_str(), s) {
            assert(views(items@)[k as int] == s@);
            return true;
        }
        k = k + 1;
    }
    false
}

/// Tells whether `s` consists of ASCII decimal digits only.
pub fn is_all_digits(s: &str) -> (r: bool)
    ensures
        r == all_digits(s@),
{
    let n: usize = s.unicode_len();
    let mut i: usize = 0;
    while i < n
        invariant
            n == s@.len(),
            i <= n,
            forall|j: int| 0 <= j < i ==> is_digit(#[trigger] s@[j]),
        decreases n - i,
    {
        let c: char = s.get_char(i);
        if !('0' <= c && c <= '9') {
            return false;
        }
        i = i + 1;
    }
    true
}

/// How one text stands to another in dictionary order.
#[derive(Clone, Copy, Debug, PartialEq, Eq, Structural)]
pub enum Order {
    /// The first text comes before the second.
    Less,
    /// The two texts are the same.
    Equal,
    /// The first text comes after the second.
    Greater,
}

/// Dictionary order on texts, character by character: `a` comes strictly
/// before `b`.
pub open spec fn lex_lt(a: Seq<char>, b: Seq<char>) -> bool
    decreases a.len(),
{
    if b.len() == 0 {
        false
    } else if a.len() == 0 {
        true
    } else if a[0] != b[0] {
        a[0] < b[0]
    } else {
        lex_lt(a.drop_first(), b.drop_first())
    }
}

/// Each text of `s` comes strictly before those after it: `s` is in
/// dictionary order and holds no text twice.
pub open spec fn strictly_sorted(s: Seq<Seq<char>>) -> bool {
    forall|i: int, j: int| 0 <= i < j < s.len() ==> lex_lt(#[trigger] s[i], #[trigger] s[j])
}

/// No text comes before itself.
pub proof fn lemma_lex_lt_irreflexive(a: Seq<char>)
    ensures
        !lex_lt(a, a),
    decreases a.len(),
{
    if a.len() > 0 {
        lemma_lex_lt_irreflexive(a.drop_first());
    }
}

/// Dictionary order is transitive.
pub proof fn lemma_lex_lt_transitive(a: Seq<char>, b: Seq<char>, c: Seq<char>)
    requires
        lex_lt(a, b),
        lex_lt(b, c),
    ensures
        lex_lt(a, c),
    decreases a.len(),
{
    if a.len() > 0 && a[0] == b[0] && b[0] == c[0] {
        lemma_lex_lt_transitive(a.drop_first(), b.drop_first(), c.drop_first());
    }
}

/// Compares two texts in dictionary order.
pub fn compare(a: &str, b: &str) -> (r: Order)
    ensures
        r == Order::Less <==> lex_lt(a@, b@),
        r == Order::Equal <==> a@ == b@,
        r == Order::Greater <==> lex_lt(b@, a@),
{
    let n: usize = a.unicode_len();
    let m: usize = b.unicode_len();
    let mut i: usize = 0;
    assert(a@.skip(0) =~= a@ && b@.skip(0) =~= b@);
    loop
        invariant
            n == a@.len(),
            m == b@.len(),
            i <= n,
            i <= m,
            lex_lt(a@, b@) == lex_lt(a@.skip(i as int), b@.skip(i as int)),
            lex_lt(b@, a@) == lex_lt(b@.skip(i as int), a@.skip(i as int)),
            a@.take(i as int) == b@.take(i as int),
        decreases n - i,
    {
        if i == n && i == m {
            assert(a@.take(i as int) =~= a@ && b@.take(i as int) =~= b@);
            return Order::Equal;
        }
        if i == n {
            return Order::Less;
        }
        if i == m {
            return Order::Greater;
        }
        let x: char = a.get_char(i);
        let y: char = b.get_char(i);
        if x < y {
            return Order::Less;
        }
        if y < x {
            return Order::Greater;
        }
        assert(a@.skip(i as int).drop_first() =~= a@.skip(i + 1));
        assert(b@.skip(i as int).drop_first() =~= b@.skip(i + 1));
        i = i + 1;
    }
}

/// A list that grew by `x` holds what it held, and `x`.
proof fn lemma_insert_to_set(s: Seq<Seq<char>>, at: int, x: Seq<char>)
    requires
        0 <= at <= s.len(),
    ensures
        s.insert(at, x).to_set() == s.to_set().insert(x),
{
    let grown = s.insert(at, x);
    assert forall|t: Seq<char>| grown.to_set().contains(t) <==> s.to_set().insert(x).contains(
        t,
    ) by {
        if grown.contains(t) {
            let k = choose|k: int| 0 <= k < grown.len() && grown[k] == t;
            if k < at {
                assert(s[k] == t);
            } else if k > at {
                assert(s[k - 1] == t);
            }
        }
        if s.contains(t) {
            let k = choose|k: int| 0 <= k < s.len() && s[k] == t;
            if k < at {
                assert(grown[k] == t);
            } else {
                assert(grown[k + 1] == t);
            }
        }
        if t == x {
            assert(grown[at] == t);
        }
    }
}

/// A list in strict dictionary order stays so where `x` is put between the
/// texts before it and the texts after it.
proof fn lemma_insert_keeps_order(s: Seq<Seq<char>>, at: int, x: Seq<char>)
    requires
        strictly_sorted(s),
        0 <= at <= s.len(),
        forall|j: int| 0 <= j < at ==> lex_lt(#[trigger] s[j], x),
        at < s.len() ==> lex_lt(x, s[at]),
    ensures
        strictly_sorted(s.insert(at, x)),
{
    let grown = s.insert(at, x);
    assert forall|i: int, j: int| 0 <= i < j < grown.len() implies lex_lt(
        #[trigger] grown[i],
        #[trigger] grown[j],
    ) by {
        if j == at {
            assert(grown[i] == s[i]);
        } else if i == at {
            assert(grown[j] == s[j - 1]);
            if j - 1 > at {
                lemma_lex_lt_transitive(x, s[at], s[j - 1]);
            }
        } else {
            let si = if i < at { i } else { i - 1 };
            let sj = if j < at { j } else { j - 1 };
            assert(grown[i] == s[si] && grown[j] == s[sj]);
        }
    }
}

/// Puts `s` into a list that is in strict dictionary order, at its place,
/// unless the list holds it already.
pub fn insert_sorted(v: &mut Vec<String>, s: String)
    requires
        strictly_sorted(views(old(v)@)),
    ensures
        strictly_sorted(views(final(v)@)),
        views(final(v)@).to_set() == views(old(v)@).to_set().insert(s@),
{
    let ghost before = views(v@);
    let mut i: usize = 0;
    let mut found: bool = false;
    while i < v.len()
        invariant_except_break
            !found,
        invariant
            i <= v.len(),
            views(v@) == before,
            forall|j: int| 0 <= j < i ==> lex_lt(#[trigger] before[j], s@),
        ensures
            i <= v.len(),
            views(v@) == before,
            forall|j: int| 0 <= j < i ==> lex_lt(#[trigger] before[j], s@),
            found ==> i < v.len() && before[i as int] == s@,
            !found ==> (i == v.len() || lex_lt(s@, before[i as int])),
        decreases v.len() - i,
    {
        match compare(v[i].as_str(), s.as_str()) {
            Order::Less => {
                i = i + 1;
            },
            Order::Equal => {
                found = true;
                break;
            },
            Order::Greater => {
                break;
            },
        }
    }
    if found {
        assert(before.to_set() =~= before.to_set().insert(s@));
        return;
    }
    proof {
        lemma_insert_to_set(before, i as int, s@);
        lemma_insert_keeps_order(before, i as int, s@);
        assert(views(v@.insert(i as int, s)) =~= before.insert(i as int, s@));
    }
    v.insert(i, s);
}

/// The texts of `v` in strict dictionary order, each of them once.
pub fn sort_dedup(v: &[String]) -> (r: Vec<String>)
    ensures
        strictly_sorted(views(r@)),
        views(r@).to_set() == views(v@).to_set(),
{
    let mut out: Vec<String> = Vec::new();
    let mut i: usize = 0;
    assert(views(out@).to_set() =~= views(v@).take(0).to_set());
    while i < v.len()
        invariant
            i <= v.len(),
            strictly_sorted(views(out@)),
            views(out@).to_set() == views(v@).take(i as int).to_set(),
        decreases v.len() - i,
    {
        insert_sorted(&mut out, v[i].clone());
        proof {
            let seen = views(v@).take(i as int);
            assert(views(v@).take(i + 1) =~= seen.push(v@[i as int]@));
            seen.lemma_push_to_set_commute(v@[i as int]@);
        }
        i = i + 1;
    }
    assert(views(v@).take(v.len() as int) =~= views(v@));
    out
}

} // verus!
