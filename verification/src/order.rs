//! Lexicographic order on strings, compared character by character by
//! Unicode code point.  Location groups in the outgoing message are sorted
//! by this order.

use vstd::prelude::*;

verus! {

/// Strict lexicographic order on the suffixes of `a` and `b` that start at
/// position `i`: a proper prefix comes first, otherwise the first differing
/// character decides by code point.
pub open spec fn str_lt_from(a: Seq<char>, b: Seq<char>, i: int) -> bool
    decreases a.len() - i,
{
    if i >= b.len() {
        false
    } else if i >= a.len() {
        true
    } else if a[i] != b[i] {
        (a[i] as int) < (b[i] as int)
    } else {
        str_lt_from(a, b, i + 1)
    }
}

/// Strict lexicographic order on whole strings.
pub open spec fn str_lt_spec(a: Seq<char>, b: Seq<char>) -> bool {
    str_lt_from(a, b, 0)
}

/// The order is asymmetric: two strings are never each below the other.
pub proof fn lemma_str_lt_from_asymm(a: Seq<char>, b: Seq<char>, i: int)
    ensures
        !(str_lt_from(a, b, i) && str_lt_from(b, a, i)),
    decreases a.len() - i,
{
    if i < b.len() && i < a.len() && a[i] == b[i] {
        lemma_str_lt_from_asymm(a, b, i + 1);
    }
}

/// The order is total: two suffixes are comparable or equal element-wise.
pub proof fn lemma_str_lt_from_total(a: Seq<char>, b: Seq<char>, i: int)
    requires
        0 <= i <= a.len(),
        i <= b.len(),
    ensures
        str_lt_from(a, b, i) || str_lt_from(b, a, i) || (a.len() == b.len() && forall|j: int|
            i <= j < a.len() ==> a[j] == b[j]),
    decreases a.len() - i,
{
    if i >= b.len() {
        if i < a.len() {
            assert(str_lt_from(b, a, i));
        }
    } else if i >= a.len() {
        assert(str_lt_from(a, b, i));
    } else if a[i] != b[i] {
        if (a[i] as int) < (b[i] as int) {
            assert(str_lt_from(a, b, i));
        } else {
            assert((b[i] as int) < (a[i] as int));
            assert(str_lt_from(b, a, i));
        }
    } else {
        lemma_str_lt_from_total(a, b, i + 1);
    }
}

/// Distinct strings are strictly ordered one way or the other.
pub proof fn lemma_str_lt_connected(a: Seq<char>, b: Seq<char>)
    ensures
        a != b ==> str_lt_spec(a, b) || str_lt_spec(b, a),
{
    lemma_str_lt_from_total(a, b, 0);
    if !str_lt_spec(a, b) && !str_lt_spec(b, a) {
        assert(a =~= b);
    }
}

/// The order is transitive.
pub proof fn lemma_str_lt_from_trans(a: Seq<char>, b: Seq<char>, c: Seq<char>, i: int)
    requires
        str_lt_from(a, b, i),
        str_lt_from(b, c, i),
    ensures
        str_lt_from(a, c, i),
    decreases a.len() - i,
{
    if i < a.len() && i < b.len() && i < c.len() && a[i] == b[i] && b[i] == c[i] {
        lemma_str_lt_from_trans(a, b, c, i + 1);
    }
}

/// Transitivity on whole strings.
pub proof fn lemma_str_lt_trans(a: Seq<char>, b: Seq<char>, c: Seq<char>)
    requires
        str_lt_spec(a, b),
        str_lt_spec(b, c),
    ensures
        str_lt_spec(a, c),
{
    lemma_str_lt_from_trans(a, b, c, 0);
}

/// Decides whether two strings hold the same characters.
pub fn str_eq(a: &str, b: &str) -> (r: bool)
    ensures
        r == (a@ == b@),
{
    let a_len = a.unicode_len();
    let b_len = b.unicode_len();
    if a_len != b_len {
        return false;
    }
    let mut i: usize = 0;
    while i < a_len
        invariant
            i <= a_len,
            a_len == a@.len(),
            b_len == b@.len(),
            a_len == b_len,
            forall|j: int| 0 <= j < i ==> a@[j] == b@[j],
        decreases a_len - i,
    {
        if a.get_char(i) != b.get_char(i) {
            return false;
        }
        i = i + 1;
    }
    proof {
        assert(a@ =~= b@);
    }
    true
}

/// Compares two strings in strict lexicographic order by code point.
pub fn str_lt(a: &str, b: &str) -> (r: bool)
    ensures
        r == str_lt_spec(a@, b@),
{
    let a_len = a.unicode_len();
    let b_len = b.unicode_len();
    let mut i: usize = 0;
    loop
        invariant
            i <= a_len,
            i <= b_len,
            a_len == a@.len(),
            b_len == b@.len(),
            str_lt_spec(a@, b@) == str_lt_from(a@, b@, i as int),
        decreases a_len - i,
    {
        if i >= b_len {
            return false;
        }
        if i >= a_len {
            return true;
        }
        let ca = a.get_char(i);
        let cb = b.get_char(i);
        if ca != cb {
            return (ca as u32) < (cb as u32);
        }
        i = i + 1;
    }
}

} // verus!
