//! Ascending order on text, character by character by code point, a
//! shorter text before any text it begins. For UTF-8 this is the order of
//! the encoded bytes, the order in which a key-value store lists keys.

use vstd::prelude::*;

verus! {

/// `a` comes before `b` when compared from position `i` on.
pub open spec fn less_from(a: Seq<char>, b: Seq<char>, i: int) -> bool
    decreases a.len() - i,
{
    if i < 0 || i >= a.len() {
        0 <= i < b.len()
    } else if i >= b.len() {
        false
    } else if a[i] != b[i] {
        (a[i] as int) < (b[i] as int)
    } else {
        less_from(a, b, i + 1)
    }
}

/// Strict ascending order on text.
pub open spec fn text_less(a: Seq<char>, b: Seq<char>) -> bool {
    less_from(a, b, 0)
}

/// Each text of `s` comes strictly before the ones after it.
pub open spec fn ascending(s: Seq<Seq<char>>) -> bool {
    forall|i: int, j: int| 0 <= i < j < s.len() ==> text_less(#[trigger] s[i], #[trigger] s[j])
}

/// The keys of `s` come in strictly ascending order.
pub open spec fn ascending_keys<V>(s: Seq<(Seq<char>, V)>) -> bool {
    forall|i: int, j: int| 0 <= i < j < s.len() ==> text_less((#[trigger] s[i]).0, (#[trigger] s[j]).0)
}

proof fn lemma_less_from_irreflexive(a: Seq<char>, i: int)
    requires
        0 <= i,
    ensures
        !less_from(a, a, i),
    decreases a.len() - i,
{
    if i < a.len() {
        lemma_less_from_irreflexive(a, i + 1);
    }
}

proof fn lemma_less_from_transitive(a: Seq<char>, b: Seq<char>, c: Seq<char>, i: int)
    requires
        0 <= i,
        less_from(a, b, i),
        less_from(b, c, i),
    ensures
        less_from(a, c, i),
    decreases a.len() - i,
{
    if i < a.len() && i < b.len() && i < c.len() && a[i] == b[i] && b[i] == c[i] {
        lemma_less_from_transitive(a, b, c, i + 1);
    }
}

proof fn lemma_less_from_total(a: Seq<char>, b: Seq<char>, i: int)
    requires
        0 <= i <= a.len(),
        i <= b.len(),
        !less_from(a, b, i),
        !less_from(b, a, i),
    ensures
        a.len() == b.len(),
        forall|k: int| i <= k < a.len() ==> a[k] == b[k],
    decreases a.len() - i,
{
    if i < a.len() {
        assert(i < b.len());
        assert(a[i] == b[i]) by {
            if a[i] != b[i] {
                assert((a[i] as int) != (b[i] as int));
            }
        }
        lemma_less_from_total(a, b, i + 1);
    }
}

/// `text_less` is a strict total order.
pub proof fn lemma_text_order(a: Seq<char>, b: Seq<char>, c: Seq<char>)
    ensures
        !text_less(a, a),
        text_less(a, b) && text_less(b, c) ==> text_less(a, c),
        a != b ==> text_less(a, b) || text_less(b, a),
{
    lemma_less_from_irreflexive(a, 0);
    if text_less(a, b) && text_less(b, c) {
        lemma_less_from_transitive(a, b, c, 0);
    }
    if !text_less(a, b) && !text_less(b, a) {
        lemma_less_from_total(a, b, 0);
        assert(a =~= b);
    }
}

/// Inserting a key between those below it and those above it keeps the
/// keys ascending.
pub proof fn lemma_insert_ascending_keys<V>(s: Seq<(Seq<char>, V)>, j: int, e: (Seq<char>, V))
    requires
        ascending_keys(s),
        0 <= j <= s.len(),
        forall|k: int| 0 <= k < j ==> text_less((#[trigger] s[k]).0, e.0),
        forall|k: int| j <= k < s.len() ==> text_less(e.0, (#[trigger] s[k]).0),
    ensures
        ascending_keys(s.insert(j, e)),
{
    let t = s.insert(j, e);
    assert forall|a: int, b: int| 0 <= a < b < t.len() implies text_less((#[trigger] t[a]).0, (#[trigger] t[b]).0) by {
        if b < j {
            assert(t[a] == s[a] && t[b] == s[b]);
        } else if b == j {
            assert(t[a] == s[a]);
        } else if a < j {
            assert(t[a] == s[a] && t[b] == s[b - 1]);
        } else if a == j {
            assert(t[b] == s[b - 1]);
        } else {
            assert(t[a] == s[a - 1] && t[b] == s[b - 1]);
        }
    }
}

/// Inserting a text between those below it and those above it keeps the
/// texts ascending.
pub proof fn lemma_insert_ascending(s: Seq<Seq<char>>, j: int, e: Seq<char>)
    requires
        ascending(s),
        0 <= j <= s.len(),
        forall|k: int| 0 <= k < j ==> text_less(#[trigger] s[k], e),
        forall|k: int| j <= k < s.len() ==> text_less(e, #[trigger] s[k]),
    ensures
        ascending(s.insert(j, e)),
{
    let t = s.insert(j, e);
    assert forall|a: int, b: int| 0 <= a < b < t.len() implies text_less(#[trigger] t[a], #[trigger] t[b]) by {
        if b < j {
            assert(t[a] == s[a] && t[b] == s[b]);
        } else if b == j {
            assert(t[a] == s[a]);
        } else if a < j {
            assert(t[a] == s[a] && t[b] == s[b - 1]);
        } else if a == j {
            assert(t[b] == s[b - 1]);
        } else {
            assert(t[a] == s[a - 1] && t[b] == s[b - 1]);
        }
    }
}

/// Whether `a` comes strictly before `b`.
pub fn text_lt(a: &String, b: &String) -> (r: bool)
    ensures
        r == text_less(a@, b@),
{
    let a_len = a.as_str().unicode_len();
    let b_len = b.as_str().unicode_len();
    let mut i: usize = 0;
    while i < a_len && i < b_len
        invariant
            a_len == a@.len(),
            b_len == b@.len(),
            i <= a_len,
            i <= b_len,
            less_from(a@, b@, 0) == less_from(a@, b@, i as int),
        decreases a_len - i,
    {
        let x = a.as_str().get_char(i);
        let y = b.as_str().get_char(i);
        if x != y {
            return (x as u32) < (y as u32);
        }
        i = i + 1;
    }
    i < b_len && i >= a_len
}

} // verus!
