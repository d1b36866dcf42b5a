//! The order of texts and the sorting of rows by a text key.

use crate::text::{chars_of, string_views};
use vstd::prelude::*;

verus! {

/// Whether `a` stands before `b` in the lexicographic order of
/// characters.
pub open spec fn lex_less(a: Seq<char>, b: Seq<char>) -> bool
    decreases a.len(),
{
    if b.len() == 0 {
        false
    } else if a.len() == 0 {
        true
    } else if a[0] != b[0] {
        a[0] < b[0]
    } else {
        lex_less(a.drop_first(), b.drop_first())
    }
}

/// The order is strict: nothing stands before itself.
pub proof fn lemma_lex_irreflexive(a: Seq<char>)
    ensures
        !lex_less(a, a),
    decreases a.len(),
{
    if a.len() > 0 {
        lemma_lex_irreflexive(a.drop_first());
    }
}

/// The order is transitive.
pub proof fn lemma_lex_transitive(a: Seq<char>, b: Seq<char>, c: Seq<char>)
    requires
        lex_less(a, b),
        lex_less(b, c),
    ensures
        lex_less(a, c),
    decreases a.len(),
{
    if a.len() > 0 && b.len() > 0 && c.len() > 0 && a[0] == b[0] && b[0] == c[0] {
        lemma_lex_transitive(a.drop_first(), b.drop_first(), c.drop_first());
    }
}

/// The order is total: of two different texts one stands before the
/// other.
pub proof fn lemma_lex_total(a: Seq<char>, b: Seq<char>)
    ensures
        lex_less(a, b) || lex_less(b, a) || a == b,
        !(lex_less(a, b) && lex_less(b, a)),
    decreases a.len(),
{
    if a.len() > 0 && b.len() > 0 && a[0] == b[0] {
        lemma_lex_total(a.drop_first(), b.drop_first());
        if a.drop_first() == b.drop_first() {
            assert(a =~= seq![a[0]] + a.drop_first());
            assert(b =~= seq![b[0]] + b.drop_first());
        }
    } else if a.len() == 0 && b.len() == 0 {
        assert(a =~= b);
    }
}

/// Exec counterpart of `lex_less`.
pub fn lex_less_of(a: &Vec<char>, b: &Vec<char>) -> (r: bool)
    ensures
        r == lex_less(a@, b@),
{
    let mut i: usize = 0;
    proof {
        assert(a@.skip(0) == a@);
        assert(b@.skip(0) == b@);
    }
    while i < a.len() && i < b.len()
        invariant
            i <= a.len(),
            i <= b.len(),
            lex_less(a@, b@) == lex_less(a@.skip(i as int), b@.skip(i as int)),
        decreases a.len() - i,
    {
        proof {
            assert(a@.skip(i as int)[0] == a@[i as int]);
            assert(b@.skip(i as int)[0] == b@[i as int]);
            assert(a@.skip(i as int).drop_first() == a@.skip(i + 1));
            assert(b@.skip(i as int).drop_first() == b@.skip(i + 1));
        }
        if a[i] != b[i] {
            return a[i] < b[i];
        }
        i += 1;
    }
    i < b.len()
}

/// A key by which rows are sorted: a text or a number.
#[derive(Debug, Clone)]
pub enum SortKey {
    Text(Vec<char>),
    Number(i64),
}

/// A key, as characters.
pub enum KeyView {
    Text(Seq<char>),
    Number(i64),
}

impl View for SortKey {
    type V = KeyView;

    open spec fn view(&self) -> KeyView {
        match self {
            SortKey::Text(t) => KeyView::Text(t@),
            SortKey::Number(n) => KeyView::Number(*n),
        }
    }
}

/// The views of a sequence of keys.
pub open spec fn key_views(v: Seq<SortKey>) -> Seq<KeyView> {
    Seq::new(v.len(), |i: int| v[i]@)
}

/// Whether the key `a` is smaller than the key `b`: texts in
/// lexicographic order, numbers by their value, and every number before
/// every text.
pub open spec fn key_less(a: KeyView, b: KeyView) -> bool {
    match (a, b) {
        (KeyView::Text(x), KeyView::Text(y)) => lex_less(x, y),
        (KeyView::Number(x), KeyView::Number(y)) => x < y,
        (KeyView::Number(_), KeyView::Text(_)) => true,
        (KeyView::Text(_), KeyView::Number(_)) => false,
    }
}

/// The order of keys is strict and transitive.
pub proof fn lemma_key_order(a: KeyView, b: KeyView, c: KeyView)
    ensures
        !key_less(a, a),
        key_less(a, b) && key_less(b, c) ==> key_less(a, c),
        !(key_less(a, b) && key_less(b, a)),
{
    match (a, b, c) {
        (KeyView::Text(x), KeyView::Text(y), KeyView::Text(z)) => {
            lemma_lex_irreflexive(x);
            lemma_lex_total(x, y);
            if lex_less(x, y) && lex_less(y, z) {
                lemma_lex_transitive(x, y, z);
            }
        },
        (KeyView::Text(x), KeyView::Text(y), _) => {
            lemma_lex_irreflexive(x);
            lemma_lex_total(x, y);
        },
        (KeyView::Text(x), _, _) => {
            lemma_lex_irreflexive(x);
        },
        _ => {},
    }
}

/// Whether a row with the key `a` goes strictly before one with the key
/// `b`, in ascending or in descending order.
pub open spec fn goes_before(a: KeyView, b: KeyView, descending: bool) -> bool {
    if descending {
        key_less(b, a)
    } else {
        key_less(a, b)
    }
}

/// The place at which row `x` goes into the sorted rows `order`, looked
/// for from `k` on: before the first row that it goes strictly before.
pub open spec fn insert_position(
    keys: Seq<KeyView>,
    order: Seq<usize>,
    x: int,
    k: int,
    descending: bool,
) -> int
    decreases order.len() - k,
{
    if k < 0 || k >= order.len() {
        order.len() as int
    } else if goes_before(keys[x], keys[order[k] as int], descending) {
        k
    } else {
        insert_position(keys, order, x, k + 1, descending)
    }
}

/// The first `n` rows in the order of their keys, as indexes. Rows with
/// the same key stay in the order in which they stand.
pub open spec fn sorted_order(keys: Seq<KeyView>, n: int, descending: bool) -> Seq<usize>
    decreases n,
{
    if n <= 0 {
        Seq::empty()
    } else {
        let prev = sorted_order(keys, n - 1, descending);
        prev.insert(insert_position(keys, prev, n - 1, 0, descending), (n - 1) as usize)
    }
}

proof fn lemma_insert_position(
    keys: Seq<KeyView>,
    order: Seq<usize>,
    x: int,
    k: int,
    descending: bool,
)
    requires
        0 <= k <= order.len(),
    ensures
        k <= insert_position(keys, order, x, k, descending) <= order.len(),
        insert_position(keys, order, x, k, descending) < order.len() ==> goes_before(
            keys[x],
            keys[order[insert_position(keys, order, x, k, descending)] as int],
            descending,
        ),
        forall|j: int|
            k <= j < insert_position(keys, order, x, k, descending) ==> !goes_before(
                keys[x],
                keys[(#[trigger] order[j]) as int],
                descending,
            ),
    decreases order.len() - k,
{
    if k < order.len() && !goes_before(keys[x], keys[order[k] as int], descending) {
        lemma_insert_position(keys, order, x, k + 1, descending);
    }
}

/// The sorted order holds every row once, and no row stands behind one
/// that it goes strictly before.
pub proof fn lemma_sorted_order(keys: Seq<KeyView>, n: int, descending: bool)
    requires
        0 <= n <= keys.len(),
        n <= usize::MAX,
    ensures
        sorted_order(keys, n, descending).len() == n,
        forall|i: int| 0 <= i < n ==> 0 <= #[trigger] sorted_order(keys, n, descending)[i] < n,
        forall|x: int|
            0 <= x < n ==> #[trigger] sorted_order(keys, n, descending).contains(x as usize),
        sorted_order(keys, n, descending).no_duplicates(),
        forall|i: int, j: int|
            0 <= i < j < n ==> !goes_before(
                keys[(#[trigger] sorted_order(keys, n, descending)[j]) as int],
                keys[(#[trigger] sorted_order(keys, n, descending)[i]) as int],
                descending,
            ),
    decreases n,
{
    if n > 0 {
        lemma_sorted_order(keys, n - 1, descending);
        let prev = sorted_order(keys, n - 1, descending);
        let p = insert_position(keys, prev, n - 1, 0, descending);
        lemma_insert_position(keys, prev, n - 1, 0, descending);
        let r = prev.insert(p, (n - 1) as usize);
        assert(r == sorted_order(keys, n, descending));
        assert forall|i: int| 0 <= i < n implies 0 <= #[trigger] r[i] < n by {
            if i < p {
                assert(r[i] == prev[i]);
            } else if i > p {
                assert(r[i] == prev[i - 1]);
            }
        }
        assert forall|x: int| 0 <= x < n implies #[trigger] r.contains(x as usize) by {
            if x == n - 1 {
                assert(r[p] == x as usize);
            } else {
                assert(prev.contains(x as usize));
                let k = choose|k: int| 0 <= k < prev.len() && prev[k] == x as usize;
                if k < p {
                    assert(r[k] == x as usize);
                } else {
                    assert(r[k + 1] == x as usize);
                }
            }
        }
        assert forall|i: int, j: int| 0 <= i < r.len() && 0 <= j < r.len() && i != j implies r[i]
            != r[j] by {
            let a = if i < p {
                i
            } else {
                i - 1
            };
            let b = if j < p {
                j
            } else {
                j - 1
            };
            if i != p && j != p {
                assert(r[i] == prev[a] && r[j] == prev[b]);
            } else if i == p {
                assert(r[j] == prev[b]);
            } else {
                assert(r[i] == prev[a]);
            }
        }
        assert forall|i: int, j: int| 0 <= i < j < n implies !goes_before(
            keys[(#[trigger] r[j]) as int],
            keys[(#[trigger] r[i]) as int],
            descending,
        ) by {
            let x = keys[n - 1];
            if j < p {
                assert(r[i] == prev[i] && r[j] == prev[j]);
            } else if j == p {
                assert(r[i] == prev[i]);
                let a = keys[prev[i] as int];
                assert(!goes_before(x, a, descending));
            } else if i < p {
                assert(r[i] == prev[i] && r[j] == prev[j - 1]);
            } else if i == p {
                assert(r[j] == prev[j - 1]);
                let c = keys[prev[j - 1] as int];
                let at = keys[prev[p] as int];
                if goes_before(c, x, descending) {
                    if descending {
                        lemma_key_order(at, x, c);
                    } else {
                        lemma_key_order(c, x, at);
                    }
                    if j - 1 > p {
                        assert(!goes_before(c, at, descending));
                    } else {
                        lemma_key_order(at, at, at);
                    }
                }
            } else {
                assert(r[i] == prev[i - 1] && r[j] == prev[j - 1]);
            }
        }
    }
}

/// Exec counterpart of `key_less`.
pub fn key_less_of(a: &SortKey, b: &SortKey) -> (r: bool)
    ensures
        r == key_less(a@, b@),
{
    match (a, b) {
        (SortKey::Text(x), SortKey::Text(y)) => lex_less_of(x, y),
        (SortKey::Number(x), SortKey::Number(y)) => *x < *y,
        (SortKey::Number(_), SortKey::Text(_)) => true,
        (SortKey::Text(_), SortKey::Number(_)) => false,
    }
}

/// Exec counterpart of `goes_before`.
pub fn goes_before_of(a: &SortKey, b: &SortKey, descending: bool) -> (r: bool)
    ensures
        r == goes_before(a@, b@, descending),
{
    if descending {
        key_less_of(b, a)
    } else {
        key_less_of(a, b)
    }
}

/// Sorts rows by their keys: returns the indexes of the rows in the
/// order of the keys, ascending or descending. Rows with the same key
/// stay in the order in which they stand.
pub fn sort_by_key(keys: &Vec<SortKey>, descending: bool) -> (order: Vec<usize>)
    ensures
        order@ == sorted_order(key_views(keys@), keys.len() as int, descending),
        order.len() == keys.len(),
        forall|i: int| 0 <= i < order.len() ==> #[trigger] order@[i] < keys.len(),
{
    let mut order: Vec<usize> = Vec::new();
    let ghost ks = key_views(keys@);
    let mut n: usize = 0;
    while n < keys.len()
        invariant
            n <= keys.len(),
            ks == key_views(keys@),
            order@ == sorted_order(ks, n as int, descending),
            order.len() == n,
            forall|i: int| 0 <= i < n ==> #[trigger] order@[i] < n,
        decreases keys.len() - n,
    {
        let ghost prev = order@;
        let mut k: usize = 0;
        while k < order.len() && !goes_before_of(&keys[n], &keys[order[k]], descending)
            invariant
                k <= order.len(),
                n < keys.len(),
                order@ == prev,
                ks == key_views(keys@),
                forall|i: int| 0 <= i < order.len() ==> #[trigger] order@[i] < n,
                insert_position(ks, prev, n as int, 0, descending) == insert_position(
                    ks,
                    prev,
                    n as int,
                    k as int,
                    descending,
                ),
            decreases order.len() - k,
        {
            assert(ks[n as int] == keys@[n as int]@);
            assert(ks[order@[k as int] as int] == keys@[order@[k as int] as int]@);
            k += 1;
        }
        proof {
            assert(ks[n as int] == keys@[n as int]@);
            if k < order.len() {
                assert(ks[order@[k as int] as int] == keys@[order@[k as int] as int]@);
            }
        }
        order.insert(k, n);
        proof {
            assert forall|i: int| 0 <= i < n + 1 implies #[trigger] order@[i] < n + 1 by {
                if i < k {
                    assert(order@[i] == prev[i]);
                } else if i > k {
                    assert(order@[i] == prev[i - 1]);
                }
            }
        }
        n += 1;
    }
    order
}

/// Texts as sort keys.
pub open spec fn text_keys(v: Seq<Seq<char>>) -> Seq<KeyView> {
    Seq::new(v.len(), |i: int| KeyView::Text(v[i]))
}

/// The texts of `v` in ascending lexicographic order; equal texts stay
/// in the order in which they stand.
pub open spec fn sorted_texts(v: Seq<Seq<char>>) -> Seq<Seq<char>> {
    let order = sorted_order(text_keys(v), v.len() as int, false);
    Seq::new(order.len(), |i: int| v[order[i] as int])
}

/// Sorted texts are in ascending order and are the texts that were
/// given: each of them is there, and nothing else.
pub proof fn lemma_sorted_texts(v: Seq<Seq<char>>)
    requires
        v.len() <= usize::MAX,
    ensures
        sorted_texts(v).len() == v.len(),
        forall|i: int, j: int|
            0 <= i < j < v.len() ==> !lex_less(
                #[trigger] sorted_texts(v)[j],
                #[trigger] sorted_texts(v)[i],
            ),
        forall|x: Seq<char>| v.contains(x) <==> sorted_texts(v).contains(x),
{
    let keys = text_keys(v);
    let n = v.len() as int;
    let order = sorted_order(keys, n, false);
    let s = sorted_texts(v);
    lemma_sorted_order(keys, n, false);
    assert forall|i: int, j: int| 0 <= i < j < v.len() implies !lex_less(
        #[trigger] s[j],
        #[trigger] s[i],
    ) by {
        assert(!goes_before(keys[order[j] as int], keys[order[i] as int], false));
    }
    assert forall|x: Seq<char>| v.contains(x) <==> s.contains(x) by {
        if v.contains(x) {
            let k = choose|k: int| 0 <= k < v.len() && v[k] == x;
            assert(order.contains(k as usize));
            let i = choose|i: int| 0 <= i < order.len() && order[i] == k as usize;
            assert(s[i] == x);
        }
        if s.contains(x) {
            let i = choose|i: int| 0 <= i < s.len() && s[i] == x;
            assert(v[order[i] as int] == x);
        }
    }
}

/// Sorts texts in ascending lexicographic order.
pub fn sort_texts(v: &Vec<String>) -> (r: Vec<String>)
    ensures
        string_views(r@) == sorted_texts(string_views(v@)),
{
    let mut keys: Vec<SortKey> = Vec::new();
    let mut j: usize = 0;
    while j < v.len()
        invariant
            j <= v.len(),
            keys.len() == j,
            forall|k: int| 0 <= k < j ==> (#[trigger] keys@[k])@ == KeyView::Text(v@[k]@),
        decreases v.len() - j,
    {
        keys.push(SortKey::Text(chars_of(v[j].as_str())));
        j += 1;
    }
    assert(key_views(keys@) =~= text_keys(string_views(v@)));
    let order = sort_by_key(&keys, false);
    let mut out: Vec<String> = Vec::new();
    let mut k: usize = 0;
    while k < order.len()
        invariant
            k <= order.len(),
            out.len() == k,
            forall|i: int| 0 <= i < order.len() ==> #[trigger] order@[i] < v.len(),
            forall|i: int| 0 <= i < k ==> (#[trigger] out@[i])@ == v@[order@[i] as int]@,
        decreases order.len() - k,
    {
        out.push(v[order[k]].clone());
        k += 1;
    }
    assert(string_views(out@) =~= sorted_texts(string_views(v@)));
    out
}

} // verus!
