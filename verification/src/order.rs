//! Ordering of text keys, and the stable sort the browser lists are drawn in.
//!
//! `String`'s own order compares UTF-8 bytes, which is the order of the code
//! points they encode; `seq_lt` states that order over `Seq<char>`.

use vstd::prelude::*;

verus! {

/// Lexicographic `a < b` over code points: `String`'s `<`.
pub open spec fn seq_lt(a: Seq<char>, b: Seq<char>) -> bool
    decreases a.len(),
{
    if a.len() == 0 {
        b.len() > 0
    } else if b.len() == 0 {
        false
    } else if a[0] < b[0] {
        true
    } else if a[0] > b[0] {
        false
    } else {
        seq_lt(a.drop_first(), b.drop_first())
    }
}

/// One item to sort, with the key it sorts by: a group first, then a name.
pub struct Keyed {
    pub item: usize,
    pub group: u32,
    pub name: Vec<char>,
}

/// What a `Keyed` is: the item and its key.
pub struct SortKey {
    pub item: usize,
    pub group: u32,
    pub name: Seq<char>,
}

impl View for Keyed {
    type V = SortKey;

    open spec fn view(&self) -> SortKey {
        SortKey { item: self.item, group: self.group, name: self.name@ }
    }
}

pub open spec fn key_views(s: Seq<Keyed>) -> Seq<SortKey> {
    s.map_values(|k: Keyed| k@)
}

/// `a` sorts strictly before `b`.
pub open spec fn keyed_lt(a: SortKey, b: SortKey) -> bool {
    a.group < b.group || (a.group == b.group && seq_lt(a.name, b.name))
}

/// `x` placed into `s` after every element it does not sort before.
pub open spec fn insert_stable(s: Seq<SortKey>, x: SortKey) -> Seq<SortKey>
    decreases s.len(),
{
    if s.len() == 0 {
        seq![x]
    } else if keyed_lt(x, s[0]) {
        seq![x] + s
    } else {
        seq![s[0]] + insert_stable(s.drop_first(), x)
    }
}

/// The stable sort of `s` by key: equal keys keep the order they came in.
pub open spec fn stable_sort(s: Seq<SortKey>) -> Seq<SortKey>
    decreases s.len(),
{
    if s.len() == 0 {
        Seq::empty()
    } else {
        insert_stable(stable_sort(s.drop_last()), s.last())
    }
}

pub open spec fn items_of(s: Seq<SortKey>) -> Seq<usize> {
    s.map_values(|k: SortKey| k.item)
}

proof fn lemma_seq_lt_skip(a: Seq<char>, b: Seq<char>, i: int)
    requires
        0 <= i <= a.len(),
        i <= b.len(),
        a.take(i) == b.take(i),
    ensures
        seq_lt(a, b) == seq_lt(a.skip(i), b.skip(i)),
    decreases i,
{
    if i > 0 {
        assert(a[0] == a.take(i)[0]);
        assert(b[0] == b.take(i)[0]);
        let a1 = a.drop_first();
        let b1 = b.drop_first();
        assert(a1.take(i - 1) =~= a.take(i).drop_first());
        assert(b1.take(i - 1) =~= b.take(i).drop_first());
        lemma_seq_lt_skip(a1, b1, i - 1);
        assert(a1.skip(i - 1) =~= a.skip(i));
        assert(b1.skip(i - 1) =~= b.skip(i));
    } else {
        assert(a.skip(0) =~= a);
        assert(b.skip(0) =~= b);
    }
}

/// `a < b` in `String` order.
pub fn chars_lt(a: &Vec<char>, b: &Vec<char>) -> (out: bool)
    ensures
        out == seq_lt(a@, b@),
{
    let mut i: usize = 0;
    while i < a.len() && i < b.len() && a[i] == b[i]
        invariant
            i <= a.len(),
            i <= b.len(),
            a@.take(i as int) == b@.take(i as int),
        decreases a.len() - i,
    {
        assert(a@.take(i + 1) =~= a@.take(i as int).push(a@[i as int]));
        assert(b@.take(i + 1) =~= b@.take(i as int).push(b@[i as int]));
        i += 1;
    }
    proof {
        lemma_seq_lt_skip(a@, b@, i as int);
    }
    let ghost sa = a@.skip(i as int);
    let ghost sb = b@.skip(i as int);
    if i == a.len() {
        assert(sa.len() == 0);
        i < b.len()
    } else if i == b.len() {
        false
    } else {
        assert(sa[0] == a@[i as int]);
        assert(sb[0] == b@[i as int]);
        a[i] < b[i]
    }
}

/// Whether `a` and `b` spell the same text.
pub fn chars_eq(a: &Vec<char>, b: &Vec<char>) -> (out: bool)
    ensures
        out == (a@ == b@),
{
    if a.len() != b.len() {
        return false;
    }
    let mut i: usize = 0;
    while i < a.len()
        invariant
            a.len() == b.len(),
            i <= a.len(),
            forall|j: int| 0 <= j < i ==> a@[j] == b@[j],
        decreases a.len() - i,
    {
        if a[i] != b[i] {
            return false;
        }
        i += 1;
    }
    assert(a@ =~= b@);
    true
}

fn keyed_lt_exec(a: &Keyed, b: &Keyed) -> (out: bool)
    ensures
        out == keyed_lt(a@, b@),
{
    if a.group < b.group {
        true
    } else if a.group == b.group {
        chars_lt(&a.name, &b.name)
    } else {
        false
    }
}

proof fn lemma_insert_at(s: Seq<SortKey>, x: SortKey, p: int)
    requires
        0 <= p <= s.len(),
        forall|j: int| 0 <= j < p ==> !keyed_lt(x, #[trigger] s[j]),
        p == s.len() || keyed_lt(x, s[p]),
    ensures
        insert_stable(s, x) == s.take(p).push(x) + s.skip(p),
    decreases p,
{
    if p == 0 {
        if s.len() == 0 {
            assert(s.take(0).push(x) + s.skip(0) =~= seq![x]);
        } else {
            assert(s.take(0).push(x) + s.skip(0) =~= seq![x] + s);
        }
    } else {
        let t = s.drop_first();
        assert forall|j: int| 0 <= j < p - 1 implies !keyed_lt(x, #[trigger] t[j]) by {
            assert(t[j] == s[j + 1]);
        }
        if p < s.len() {
            assert(t[p - 1] == s[p]);
        }
        lemma_insert_at(t, x, p - 1);
        assert(!keyed_lt(x, s[0]));
        assert(seq![s[0]] + (t.take(p - 1).push(x) + t.skip(p - 1)) =~= s.take(p).push(x)
            + s.skip(p));
    }
}

/// `x` inserted into `sorted` after everything it does not sort before.
fn insert_keyed(sorted: &mut Vec<Keyed>, x: Keyed)
    ensures
        key_views(final(sorted)@) == insert_stable(key_views(old(sorted)@), x@),
{
    let ghost ks = key_views(sorted@);
    let mut p: usize = 0;
    while p < sorted.len() && !keyed_lt_exec(&x, &sorted[p])
        invariant
            p <= sorted.len(),
            ks == key_views(sorted@),
            forall|j: int| 0 <= j < p ==> !keyed_lt(x@, #[trigger] ks[j]),
        decreases sorted.len() - p,
    {
        p += 1;
    }
    proof {
        lemma_insert_at(ks, x@, p as int);
    }
    let ghost xv = x@;
    let ghost before = sorted@;
    sorted.insert(p, x);
    assert(key_views(sorted@) =~= ks.take(p as int).push(xv) + ks.skip(p as int));
}

/// The items of `keyed`, stably sorted by their keys.
pub fn sort_keyed(keyed: Vec<Keyed>) -> (out: Vec<usize>)
    ensures
        out@ == items_of(stable_sort(key_views(keyed@))),
{
    let ghost all = key_views(keyed@);
    let ghost raw = keyed@;
    let mut sorted: Vec<Keyed> = Vec::new();
    for x in it: keyed
        invariant
            it.seq() == raw,
            all == key_views(raw),
            key_views(sorted@) == stable_sort(all.take(it.index() as int)),
    {
        let ghost i = it.index() as int;
        proof {
            assert(all.take(i + 1).drop_last() =~= all.take(i));
            assert(all.take(i + 1).last() == all[i]);
            assert(raw[i] == x);
        }
        insert_keyed(&mut sorted, x);
    }
    assert(all.take(all.len() as int) =~= all);
    let mut out: Vec<usize> = Vec::new();
    let mut i: usize = 0;
    while i < sorted.len()
        invariant
            i <= sorted.len(),
            out@ == items_of(key_views(sorted@)).take(i as int),
        decreases sorted.len() - i,
    {
        out.push(sorted[i].item);
        assert(items_of(key_views(sorted@)).take(i + 1) =~= items_of(key_views(sorted@)).take(
            i as int,
        ).push(sorted@[i as int].item));
        i += 1;
    }
    assert(items_of(key_views(sorted@)).take(sorted.len() as int) =~= items_of(
        key_views(sorted@),
    ));
    out
}

/// Sorting moves items about and neither adds nor drops any: every item of
/// the result is an item of the input.
pub proof fn lemma_stable_sort_items(s: Seq<SortKey>)
    ensures
        stable_sort(s).len() == s.len(),
        forall|j: int|
            0 <= j < stable_sort(s).len() ==> exists|k: int|
                0 <= k < s.len() && #[trigger] stable_sort(s)[j] == s[k],
    decreases s.len(),
{
    if s.len() > 0 {
        let prefix = s.drop_last();
        lemma_stable_sort_items(prefix);
        lemma_insert_items(stable_sort(prefix), s.last());
        let r = stable_sort(s);
        assert forall|j: int| 0 <= j < r.len() implies exists|k: int|
            0 <= k < s.len() && #[trigger] r[j] == s[k] by {
            if r[j] == s.last() {
                assert(r[j] == s[s.len() - 1]);
            } else {
                let t = choose|t: int| 0 <= t < stable_sort(prefix).len() && r[j] == stable_sort(prefix)[t];
                let k = choose|k: int| 0 <= k < prefix.len() && stable_sort(prefix)[t] == prefix[k];
                assert(r[j] == s[k]);
            }
        }
    }
}

proof fn lemma_insert_items(s: Seq<SortKey>, x: SortKey)
    ensures
        insert_stable(s, x).len() == s.len() + 1,
        forall|j: int|
            0 <= j < insert_stable(s, x).len() ==> #[trigger] insert_stable(s, x)[j] == x || exists|t: int|
                0 <= t < s.len() && insert_stable(s, x)[j] == s[t],
    decreases s.len(),
{
    if s.len() > 0 && !keyed_lt(x, s[0]) {
        let rest = s.drop_first();
        lemma_insert_items(rest, x);
        let r = insert_stable(s, x);
        assert forall|j: int| 0 <= j < r.len() implies #[trigger] r[j] == x || exists|t: int|
            0 <= t < s.len() && r[j] == s[t] by {
            if j == 0 {
                assert(r[0] == s[0]);
            } else {
                let ir = insert_stable(rest, x);
                assert(r[j] == ir[j - 1]);
                if ir[j - 1] != x {
                    let t = choose|t: int| 0 <= t < rest.len() && ir[j - 1] == rest[t];
                    assert(r[j] == s[t + 1]);
                }
            }
        }
    } else if s.len() > 0 {
        let r = insert_stable(s, x);
        assert forall|j: int| 0 <= j < r.len() implies #[trigger] r[j] == x || exists|t: int|
            0 <= t < s.len() && r[j] == s[t] by {
            if j > 0 {
                assert(r[j] == s[j - 1]);
            }
        }
    }
}

/// Distinct texts are ordered one way or the other.
pub proof fn lemma_seq_lt_total(a: Seq<char>, b: Seq<char>)
    requires
        a != b,
    ensures
        seq_lt(a, b) || seq_lt(b, a),
    decreases a.len(),
{
    if a.len() > 0 && b.len() > 0 && a[0] == b[0] {
        if a.drop_first() == b.drop_first() {
            assert(a =~= seq![a[0]] + a.drop_first());
            assert(b =~= seq![b[0]] + b.drop_first());
        }
        lemma_seq_lt_total(a.drop_first(), b.drop_first());
    } else if a.len() == 0 && b.len() == 0 {
        assert(a =~= b);
    }
}

/// The order is transitive.
pub proof fn lemma_seq_lt_transitive(a: Seq<char>, b: Seq<char>, c: Seq<char>)
    requires
        seq_lt(a, b),
        seq_lt(b, c),
    ensures
        seq_lt(a, c),
    decreases a.len(),
{
    if a.len() > 0 && b.len() > 0 && c.len() > 0 && a[0] == b[0] && b[0] == c[0] {
        lemma_seq_lt_transitive(a.drop_first(), b.drop_first(), c.drop_first());
    }
}

/// No text comes before itself.
pub proof fn lemma_seq_lt_irreflexive(a: Seq<char>)
    ensures
        !seq_lt(a, a),
    decreases a.len(),
{
    if a.len() > 0 {
        lemma_seq_lt_irreflexive(a.drop_first());
    }
}

// ---------------------------------------------------------------------------
// What the stable sort gives
// ---------------------------------------------------------------------------

/// `a` and `b` sort by the same key.
pub open spec fn same_key(a: SortKey, b: SortKey) -> bool {
    a.group == b.group && a.name == b.name
}

/// Nothing sorts strictly before an element ahead of it.
pub open spec fn sorted_by_key(s: Seq<SortKey>) -> bool {
    forall|i: int, j: int| 0 <= i < j < s.len() ==> !keyed_lt(#[trigger] s[j], #[trigger] s[i])
}

/// The elements of `s` with the same key as `k`, in their order in `s`.
pub open spec fn key_class(s: Seq<SortKey>, k: SortKey) -> Seq<SortKey>
    decreases s.len(),
{
    if s.len() == 0 {
        Seq::empty()
    } else if same_key(s.last(), k) {
        key_class(s.drop_last(), k).push(s.last())
    } else {
        key_class(s.drop_last(), k)
    }
}

/// Where `insert_stable` puts `x`: after everything it does not sort before.
pub open spec fn insert_pos(s: Seq<SortKey>, x: SortKey) -> int
    decreases s.len(),
{
    if s.len() == 0 {
        0
    } else if keyed_lt(x, s[0]) {
        0
    } else {
        1 + insert_pos(s.drop_first(), x)
    }
}

proof fn lemma_keyed_lt_facts(a: SortKey, b: SortKey, c: SortKey)
    ensures
        !keyed_lt(a, a),
        keyed_lt(a, b) && keyed_lt(b, c) ==> keyed_lt(a, c),
        !same_key(a, b) ==> keyed_lt(a, b) || keyed_lt(b, a),
{
    lemma_seq_lt_irreflexive(a.name);
    if keyed_lt(a, b) && keyed_lt(b, c) && a.group == c.group {
        lemma_seq_lt_transitive(a.name, b.name, c.name);
    }
    if !same_key(a, b) && a.group == b.group {
        lemma_seq_lt_total(a.name, b.name);
    }
}

proof fn lemma_insert_pos(s: Seq<SortKey>, x: SortKey)
    ensures
        0 <= insert_pos(s, x) <= s.len(),
        forall|j: int| 0 <= j < insert_pos(s, x) ==> !keyed_lt(x, #[trigger] s[j]),
        insert_pos(s, x) == s.len() || keyed_lt(x, s[insert_pos(s, x)]),
    decreases s.len(),
{
    if s.len() > 0 && !keyed_lt(x, s[0]) {
        let t = s.drop_first();
        lemma_insert_pos(t, x);
        assert forall|j: int| 0 <= j < insert_pos(s, x) implies !keyed_lt(x, #[trigger] s[j]) by {
            if j > 0 {
                assert(s[j] == t[j - 1]);
            }
        }
        if insert_pos(s, x) < s.len() {
            assert(s[insert_pos(s, x)] == t[insert_pos(t, x)]);
        }
    }
}

proof fn lemma_key_class_concat(a: Seq<SortKey>, b: Seq<SortKey>, k: SortKey)
    ensures
        key_class(a + b, k) == key_class(a, k) + key_class(b, k),
    decreases b.len(),
{
    if b.len() == 0 {
        assert(a + b =~= a);
        assert(key_class(a, k) + key_class(b, k) =~= key_class(a, k));
    } else {
        lemma_key_class_concat(a, b.drop_last(), k);
        assert((a + b).drop_last() =~= a + b.drop_last());
        assert((a + b).last() == b.last());
        if same_key(b.last(), k) {
            assert(key_class(a, k) + key_class(b.drop_last(), k).push(b.last()) =~= (key_class(a, k)
                + key_class(b.drop_last(), k)).push(b.last()));
        }
    }
}

proof fn lemma_key_class_none(s: Seq<SortKey>, k: SortKey)
    requires
        forall|j: int| 0 <= j < s.len() ==> !same_key(#[trigger] s[j], k),
    ensures
        key_class(s, k) == Seq::<SortKey>::empty(),
    decreases s.len(),
{
    if s.len() > 0 {
        assert(!same_key(s[s.len() - 1], k));
        assert forall|j: int| 0 <= j < s.drop_last().len() implies !same_key(#[trigger] s.drop_last()[j], k) by {
            assert(s.drop_last()[j] == s[j]);
        }
        lemma_key_class_none(s.drop_last(), k);
    }
}

proof fn lemma_insert_sorted(s: Seq<SortKey>, x: SortKey)
    requires
        sorted_by_key(s),
    ensures
        sorted_by_key(insert_stable(s, x)),
        insert_stable(s, x).to_multiset() == s.to_multiset().insert(x),
        forall|k: SortKey|
            #[trigger] key_class(insert_stable(s, x), k) == if same_key(x, k) {
                key_class(s, k).push(x)
            } else {
                key_class(s, k)
            },
{
    let p = insert_pos(s, x);
    lemma_insert_pos(s, x);
    lemma_insert_at(s, x, p);
    let r = insert_stable(s, x);
    let front = s.take(p);
    let back = s.skip(p);
    assert(r == front.push(x) + back);
    // Everything from the insertion point on sorts strictly after `x`.
    assert forall|j: int| p <= j < s.len() implies keyed_lt(x, #[trigger] s[j]) by {
        lemma_keyed_lt_facts(x, s[p], s[j]);
        lemma_keyed_lt_facts(s[j], s[p], x);
        if j > p {
            assert(!keyed_lt(s[j], s[p]));
        }
    }
    assert forall|i: int, j: int| 0 <= i < j < r.len() implies !keyed_lt(#[trigger] r[j], #[trigger] r[i]) by {
        if i < p && j < p {
            assert(r[i] == s[i] && r[j] == s[j]);
        } else if i < p && j == p {
            assert(r[i] == s[i]);
        } else if i < p {
            assert(r[i] == s[i] && r[j] == s[j - 1]);
        } else if i == p {
            assert(r[j] == s[j - 1]);
            lemma_keyed_lt_facts(x, s[j - 1], x);
        } else {
            assert(r[i] == s[i - 1] && r[j] == s[j - 1]);
        }
    }
    assert(r =~= s.insert(p, x));
    vstd::seq_lib::to_multiset_insert(s, p, x);
    assert forall|k: SortKey| #[trigger] key_class(r, k) == if same_key(x, k) {
        key_class(s, k).push(x)
    } else {
        key_class(s, k)
    } by {
        assert(s =~= front + back);
        lemma_key_class_concat(front, back, k);
        lemma_key_class_concat(front.push(x), back, k);
        assert(front.push(x).drop_last() =~= front);
        if same_key(x, k) {
            assert forall|j: int| 0 <= j < back.len() implies !same_key(#[trigger] back[j], k) by {
                assert(back[j] == s[p + j]);
                lemma_keyed_lt_facts(x, s[p + j], x);
            }
            lemma_key_class_none(back, k);
            assert(key_class(front, k) + Seq::<SortKey>::empty() =~= key_class(front, k));
            assert(key_class(front, k).push(x) + Seq::<SortKey>::empty() =~= key_class(front, k).push(x));
        }
    }
}

/// What the stable sort is: its result is in key order, holds the same
/// elements as its input, and keeps the elements of each key in the order
/// they came in.
pub proof fn lemma_stable_sort_is_stable(s: Seq<SortKey>)
    ensures
        sorted_by_key(stable_sort(s)),
        stable_sort(s).to_multiset() == s.to_multiset(),
        forall|k: SortKey| #[trigger] key_class(stable_sort(s), k) == key_class(s, k),
    decreases s.len(),
{
    if s.len() == 0 {
        assert(stable_sort(s) =~= s);
    } else {
        let prefix = s.drop_last();
        let x = s.last();
        lemma_stable_sort_is_stable(prefix);
        lemma_insert_sorted(stable_sort(prefix), x);
        assert(s =~= prefix.push(x));
        vstd::seq_lib::to_multiset_build(prefix, x);
        assert forall|k: SortKey| #[trigger] key_class(stable_sort(s), k) == key_class(s, k) by {
            assert(key_class(stable_sort(prefix), k) == key_class(prefix, k));
        }
    }
}

/// Elements that are the same elements in another order have their items
/// in another order too.
pub proof fn lemma_items_permuted(a: Seq<SortKey>, b: Seq<SortKey>)
    requires
        a.to_multiset() == b.to_multiset(),
    ensures
        items_of(a).to_multiset() == items_of(b).to_multiset(),
    decreases a.len(),
{
    broadcast use vstd::seq_lib::group_to_multiset_ensures, vstd::multiset::group_multiset_axioms;

    if a.len() == 0 {
        vstd::seq_lib::to_multiset_len(a);
        vstd::seq_lib::to_multiset_len(b);
        assert(b.len() == 0);
        assert(items_of(a) =~= Seq::<usize>::empty());
        assert(items_of(b) =~= Seq::<usize>::empty());
    } else {
        let x = a.last();
        let rest = a.drop_last();
        assert(a =~= rest.push(x));
        assert(a.to_multiset() == rest.to_multiset().insert(x));
        assert(b.to_multiset().count(x) > 0);
        assert(b.contains(x));
        let i = choose|i: int| 0 <= i < b.len() && b[i] == x;
        let others = b.remove(i);
        assert(others.to_multiset() == b.to_multiset().remove(x));
        assert(rest.to_multiset() =~= rest.to_multiset().insert(x).remove(x));
        lemma_items_permuted(rest, others);
        assert(items_of(a) =~= items_of(rest).push(x.item));
        assert(items_of(b) =~= items_of(others).insert(i, x.item));
        vstd::seq_lib::to_multiset_insert(items_of(others), i, x.item);
    }
}

} // verus!
