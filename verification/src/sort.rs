//! Merge sort of sort keys, the ordering step of the snapshot queries.
//!
//! A key is a tuple of three integers and a position, compared
//! lexicographically. Callers put an item's position in the input last, so that
//! keys are distinct and sorting them is a stable sort of the items.

use vstd::prelude::*;
use vstd::multiset::Multiset;

verus! {

broadcast use vstd::seq_lib::group_to_multiset_ensures;

/// A sort key: three integers, then a position.
pub type SortKey = (i64, i64, i64, usize);

/// Lexicographic order on sort keys.
pub open spec fn key_le(a: SortKey, b: SortKey) -> bool {
    a.0 < b.0 || (a.0 == b.0 && (a.1 < b.1 || (a.1 == b.1 && (a.2 < b.2 || (a.2 == b.2 && a.3
        <= b.3)))))
}

/// Keys in non-decreasing order.
pub open spec fn sorted_keys(s: Seq<SortKey>) -> bool {
    forall|i: int, j: int| 0 <= i < j < s.len() ==> key_le(s[i], s[j])
}

fn key_le_exec(a: &SortKey, b: &SortKey) -> (r: bool)
    ensures
        r == key_le(*a, *b),
{
    a.0 < b.0 || (a.0 == b.0 && (a.1 < b.1 || (a.1 == b.1 && (a.2 < b.2 || (a.2 == b.2 && a.3
        <= b.3)))))
}

proof fn lemma_key_le_total(a: SortKey, b: SortKey)
    ensures
        key_le(a, b) || key_le(b, a),
{
}

proof fn lemma_key_le_trans(a: SortKey, b: SortKey, c: SortKey)
    requires
        key_le(a, b),
        key_le(b, c),
    ensures
        key_le(a, c),
{
}

/// Merges two sorted runs into one.
fn merge(a: Vec<SortKey>, b: Vec<SortKey>) -> (r: Vec<SortKey>)
    requires
        sorted_keys(a@),
        sorted_keys(b@),
    ensures
        sorted_keys(r@),
        r@.to_multiset() == a@.to_multiset().add(b@.to_multiset()),
{
    let mut out: Vec<SortKey> = Vec::new();
    let mut i: usize = 0;
    let mut j: usize = 0;
    assert(a@.subrange(0, 0) =~= Seq::<SortKey>::empty());
    assert(b@.subrange(0, 0) =~= Seq::<SortKey>::empty());
    while i < a.len() || j < b.len()
        invariant
            0 <= i <= a@.len(),
            0 <= j <= b@.len(),
            sorted_keys(a@),
            sorted_keys(b@),
            sorted_keys(out@),
            out@.len() == i + j,
            out@.to_multiset() == a@.subrange(0, i as int).to_multiset().add(
                b@.subrange(0, j as int).to_multiset(),
            ),
            out@.len() > 0 && i < a@.len() ==> key_le(out@.last(), a@[i as int]),
            out@.len() > 0 && j < b@.len() ==> key_le(out@.last(), b@[j as int]),
        decreases a@.len() + b@.len() - i - j,
    {
        let take_a = if i >= a.len() {
            false
        } else if j >= b.len() {
            true
        } else {
            key_le_exec(&a[i], &b[j])
        };
        let ghost old_out = out@;
        if take_a {
            let x = a[i];
            proof {
                assert(a@.subrange(0, i + 1) =~= a@.subrange(0, i as int).push(x));
                if j < b@.len() {
                    lemma_key_le_total(a@[i as int], b@[j as int]);
                }
            }
            out.push(x);
            i = i + 1;
            proof {
                assert forall|p: int, q: int| 0 <= p < q < out@.len() implies key_le(
                    out@[p],
                    out@[q],
                ) by {
                    if q == out@.len() - 1 && p < old_out.len() {
                        lemma_key_le_trans(out@[p], old_out.last(), x);
                    }
                }
                if i < a@.len() {
                    assert(key_le(a@[i - 1], a@[i as int]));
                }
            }
        } else {
            let x = b[j];
            proof {
                assert(b@.subrange(0, j + 1) =~= b@.subrange(0, j as int).push(x));
                if i < a@.len() {
                    lemma_key_le_total(a@[i as int], b@[j as int]);
                }
            }
            out.push(x);
            j = j + 1;
            proof {
                assert forall|p: int, q: int| 0 <= p < q < out@.len() implies key_le(
                    out@[p],
                    out@[q],
                ) by {
                    if q == out@.len() - 1 && p < old_out.len() {
                        lemma_key_le_trans(out@[p], old_out.last(), x);
                    }
                }
                if j < b@.len() {
                    assert(key_le(b@[j - 1], b@[j as int]));
                }
            }
        }
    }
    assert(a@.subrange(0, a@.len() as int) =~= a@);
    assert(b@.subrange(0, b@.len() as int) =~= b@);
    out
}

/// Copies `v[start..end]`.
fn copy_keys(v: &Vec<SortKey>, start: usize, end: usize) -> (r: Vec<SortKey>)
    requires
        start <= end <= v@.len(),
    ensures
        r@ == v@.subrange(start as int, end as int),
{
    let mut out: Vec<SortKey> = Vec::new();
    let mut i: usize = start;
    while i < end
        invariant
            start <= i <= end,
            end <= v@.len(),
            out@ == v@.subrange(start as int, i as int),
        decreases end - i,
    {
        out.push(v[i]);
        i = i + 1;
        assert(out@ =~= v@.subrange(start as int, i as int));
    }
    out
}

/// Sorts keys into non-decreasing order.
pub fn sort_keys(v: Vec<SortKey>) -> (r: Vec<SortKey>)
    ensures
        sorted_keys(r@),
        r@.to_multiset() == v@.to_multiset(),
    decreases v@.len(),
{
    if v.len() <= 1 {
        return v;
    }
    let mid = v.len() / 2;
    let left = copy_keys(&v, 0, mid);
    let right = copy_keys(&v, mid, v.len());
    assert(v@ =~= left@ + right@);
    proof {
        vstd::seq_lib::lemma_multiset_commutative(left@, right@);
    }
    let l = sort_keys(left);
    let r = sort_keys(right);
    merge(l, r)
}

// ---------------------------------------------------------------------------
// Sorting items through their keys
// ---------------------------------------------------------------------------

/// Keys with distinct positions are distinct; sorted, they increase strictly.
pub open spec fn key_lt(a: SortKey, b: SortKey) -> bool {
    key_le(a, b) && a != b
}

/// The position of every key is its index.
pub open spec fn indexed_keys(s: Seq<SortKey>) -> bool {
    forall|i: int| 0 <= i < s.len() ==> (#[trigger] s[i]).3 == i
}

/// Sorting distinct keys: the output holds exactly the input keys, each
/// once, in strictly increasing order.
pub proof fn lemma_sorted_distinct(input: Seq<SortKey>, out: Seq<SortKey>)
    requires
        input.no_duplicates(),
        sorted_keys(out),
        out.to_multiset() == input.to_multiset(),
    ensures
        out.len() == input.len(),
        forall|k: int| 0 <= k < out.len() ==> input.contains(#[trigger] out[k]),
        forall|m: int| 0 <= m < input.len() ==> out.contains(#[trigger] input[m]),
        forall|k: int, l: int| 0 <= k < l < out.len() ==> #[trigger] key_lt(out[k], out[l]),
{
    broadcast use vstd::multiset::group_multiset_axioms;
    input.lemma_multiset_has_no_duplicates();
    assert(out.to_multiset().len() == out.len());
    assert(input.to_multiset().len() == input.len());
    assert forall|k: int| 0 <= k < out.len() implies input.contains(#[trigger] out[k]) by {
        assert(out.to_multiset().count(out[k]) > 0);
    }
    assert forall|m: int| 0 <= m < input.len() implies out.contains(#[trigger] input[m]) by {
        assert(input.to_multiset().count(input[m]) > 0);
    }
    assert(out.no_duplicates()) by {
        assert forall|k: int, l: int| 0 <= k < out.len() && 0 <= l < out.len() && k != l implies out[k] != out[l] by {
            if out[k] == out[l] {
                let x = out[k];
                assert(out.to_multiset().count(x) >= 2) by {
                    let lo = if k < l { k } else { l };
                    let hi = if k < l { l } else { k };
                    let t = out.remove(hi);
                    assert(t.to_multiset() =~= out.to_multiset().remove(out[hi]));
                    assert(t[lo] == x);
                    assert(t.contains(x));
                    assert(t.to_multiset().count(x) > 0);
                    assert(out.to_multiset().remove(x).count(x) > 0);
                }
                assert(input.to_multiset().count(x) <= 1);
            }
        }
    }
}

/// Some key of `out` carries position `m`.
pub open spec fn position_kept(out: Seq<SortKey>, m: int) -> bool {
    exists|k: int| 0 <= k < out.len() && (#[trigger] out[k]).3 == m
}

/// Sorting keys indexed by position: every output key is the input key at
/// its position, every position occurs, and the output increases strictly.
pub proof fn lemma_sorted_indexed(input: Seq<SortKey>, out: Seq<SortKey>)
    requires
        indexed_keys(input),
        sorted_keys(out),
        out.to_multiset() == input.to_multiset(),
    ensures
        out.len() == input.len(),
        forall|k: int|
            0 <= k < out.len() ==> 0 <= (#[trigger] out[k]).3 < input.len() && out[k] == input[out[k].3 as int],
        forall|m: int| 0 <= m < input.len() ==> #[trigger] position_kept(out, m),
        forall|k: int, l: int| 0 <= k < l < out.len() ==> #[trigger] key_lt(out[k], out[l]),
{
    assert(input.no_duplicates()) by {
        assert forall|i: int, j: int| 0 <= i < input.len() && 0 <= j < input.len() && i != j implies input[i] != input[j] by {
            assert(input[i].3 == i);
            assert(input[j].3 == j);
        }
    }
    lemma_sorted_distinct(input, out);
    assert forall|k: int| 0 <= k < out.len() implies 0 <= (#[trigger] out[k]).3 < input.len() && out[k] == input[out[k].3 as int] by {
        assert(input.contains(out[k]));
        let m = choose|m: int| 0 <= m < input.len() && input[m] == out[k];
        assert(input[m].3 == m);
    }
    assert forall|m: int| 0 <= m < input.len() implies #[trigger] position_kept(out, m) by {
        assert(out.contains(input[m]));
        let k = choose|k: int| 0 <= k < out.len() && out[k] == input[m];
        assert(input[m].3 == m);
        assert(out[k].3 == m);
    }
}

} // verus!

verus! {

// ---------------------------------------------------------------------------
// Sorting triples, and picking the last item of each slot
// ---------------------------------------------------------------------------

/// `sorted` orders the positions of `triples` by triple, then position:
/// each key is a triple with its position, every position occurs, and the
/// keys increase strictly.
pub open spec fn orders_triples(triples: Seq<(i64, i64, i64)>, sorted: Seq<SortKey>) -> bool {
    &&& sorted.len() == triples.len()
    &&& forall|k: int|
        0 <= k < sorted.len() ==> 0 <= (#[trigger] sorted[k]).3 < triples.len() && sorted[k] == (
            triples[sorted[k].3 as int].0,
            triples[sorted[k].3 as int].1,
            triples[sorted[k].3 as int].2,
            sorted[k].3,
        )
    &&& forall|m: int| 0 <= m < triples.len() ==> #[trigger] position_kept(sorted, m)
    &&& forall|k: int, l: int| 0 <= k < l < sorted.len() ==> #[trigger] key_lt(sorted[k], sorted[l])
}

/// Sorts the positions of `triples` by triple, equal triples by position.
pub fn indexed_sort(triples: &Vec<(i64, i64, i64)>) -> (r: Vec<SortKey>)
    ensures
        orders_triples(triples@, r@),
{
    let mut keys: Vec<SortKey> = Vec::new();
    let mut i: usize = 0;
    while i < triples.len()
        invariant
            0 <= i <= triples@.len(),
            keys@.len() == i,
            forall|k: int|
                0 <= k < i ==> #[trigger] keys@[k] == (
                    triples@[k].0,
                    triples@[k].1,
                    triples@[k].2,
                    k as usize,
                ),
        decreases triples.len() - i,
    {
        let t = triples[i];
        keys.push((t.0, t.1, t.2, i));
        i = i + 1;
    }
    let ghost input = keys@;
    let sorted = sort_keys(keys);
    proof {
        assert(indexed_keys(input));
        lemma_sorted_indexed(input, sorted@);
    }
    sorted
}

/// Position `i` holds the last occurrence of its slot.
pub open spec fn last_of_slot(slots: Seq<(i64, i64)>, i: int) -> bool {
    &&& 0 <= i < slots.len()
    &&& forall|j: int| #![trigger slots[j]] i < j < slots.len() ==> slots[j] != slots[i]
}

/// Sorted position `k` ends a run of equal slots.
pub open spec fn run_end(sorted: Seq<SortKey>, k: int) -> bool {
    k + 1 == sorted.len() || sorted[k + 1].0 != sorted[k].0 || sorted[k + 1].1 != sorted[k].1
}

/// The slot triple of position `i`.
pub open spec fn slot_triples(slots: Seq<(i64, i64)>) -> Seq<(i64, i64, i64)> {
    Seq::new(slots.len(), |i: int| (slots[i].0, slots[i].1, 0i64))
}

/// In slots sorted by slot and position, a position is the last of its
/// slot exactly where its run of equal slots ends.
proof fn lemma_run_end(slots: Seq<(i64, i64)>, sorted: Seq<SortKey>, k: int)
    requires
        orders_triples(slot_triples(slots), sorted),
        0 <= k < sorted.len(),
    ensures
        last_of_slot(slots, sorted[k].3 as int) <==> run_end(sorted, k),
{
    let t = slot_triples(slots);
    let i = sorted[k].3 as int;
    assert(sorted[k] == (t[i].0, t[i].1, t[i].2, sorted[k].3));
    if run_end(sorted, k) {
        assert forall|j: int| #![trigger slots[j]] i < j < slots.len() implies slots[j] != slots[i] by {
            if slots[j] == slots[i] {
                assert(position_kept(sorted, j));
                let m = choose|m: int| 0 <= m < sorted.len() && (#[trigger] sorted[m]).3 == j;
                assert(sorted[m] == (t[j].0, t[j].1, t[j].2, sorted[m].3));
                if m < k {
                    assert(key_lt(sorted[m], sorted[k]));
                } else if m == k {
                } else if m == k + 1 {
                } else {
                    assert(key_lt(sorted[k], sorted[k + 1]));
                    assert(key_lt(sorted[k + 1], sorted[m]));
                    assert(sorted[k + 1] == (
                        t[sorted[k + 1].3 as int].0,
                        t[sorted[k + 1].3 as int].1,
                        t[sorted[k + 1].3 as int].2,
                        sorted[k + 1].3,
                    ));
                }
            }
        }
    } else {
        assert(key_lt(sorted[k], sorted[k + 1]));
        let j = sorted[k + 1].3 as int;
        assert(sorted[k + 1] == (t[j].0, t[j].1, t[j].2, sorted[k + 1].3));
        assert(slots[j] == slots[i]);
    }
}

/// The positions that hold the last occurrence of their slot, each once.
pub fn last_of_each_slot(slots: &Vec<(i64, i64)>) -> (r: Vec<usize>)
    ensures
        forall|k: int| 0 <= k < r@.len() ==> last_of_slot(slots@, #[trigger] r@[k] as int),
        forall|i: int| #[trigger] last_of_slot(slots@, i) ==> r@.contains(i as usize),
        r@.no_duplicates(),
{
    let mut triples: Vec<(i64, i64, i64)> = Vec::new();
    let mut i: usize = 0;
    while i < slots.len()
        invariant
            0 <= i <= slots@.len(),
            triples@ == slot_triples(slots@).subrange(0, i as int),
        decreases slots.len() - i,
    {
        triples.push((slots[i].0, slots[i].1, 0));
        i = i + 1;
        assert(triples@ =~= slot_triples(slots@).subrange(0, i as int));
    }
    assert(triples@ =~= slot_triples(slots@));
    let sorted = indexed_sort(&triples);
    let ghost t = triples@;
    let mut out: Vec<usize> = Vec::new();
    let ghost mut pos: Seq<int> = Seq::empty();
    let mut k: usize = 0;
    while k < sorted.len()
        invariant
            0 <= k <= sorted@.len(),
            t == slot_triples(slots@),
            orders_triples(t, sorted@),
            pos.len() == out@.len(),
            forall|m: int|
                0 <= m < out@.len() ==> 0 <= #[trigger] pos[m] < k && out@[m] == sorted@[pos[m]].3,
            forall|m: int| 0 <= m < out@.len() ==> last_of_slot(slots@, #[trigger] out@[m] as int),
            forall|m1: int, m2: int| 0 <= m1 < m2 < out@.len() ==> #[trigger] pos[m1] < #[trigger] pos[m2],
            forall|kk: int| 0 <= kk < k && #[trigger] run_end(sorted@, kk) ==> out@.contains(sorted@[kk].3),
        decreases sorted.len() - k,
    {
        let ends = k + 1 == sorted.len() || sorted[k + 1].0 != sorted[k].0 || sorted[k + 1].1
            != sorted[k].1;
        proof {
            lemma_run_end(slots@, sorted@, k as int);
        }
        if ends {
            let ghost before = out@;
            out.push(sorted[k].3);
            proof {
                pos = pos.push(k as int);
                assert(out@[out@.len() - 1] == sorted@[k as int].3);
                assert forall|kk: int| 0 <= kk < k && #[trigger] run_end(sorted@, kk) implies out@.contains(sorted@[kk].3) by {
                    assert(before.contains(sorted@[kk].3));
                    let m = choose|m: int| 0 <= m < before.len() && before[m] == sorted@[kk].3;
                    assert(out@[m] == before[m]);
                }
            }
        }
        k = k + 1;
    }
    proof {
        assert forall|i: int| #[trigger] last_of_slot(slots@, i) implies out@.contains(i as usize) by {
            assert(position_kept(sorted@, i));
            let kk = choose|kk: int| 0 <= kk < sorted@.len() && (#[trigger] sorted@[kk]).3 == i;
            lemma_run_end(slots@, sorted@, kk);
        }
        assert forall|m1: int, m2: int| 0 <= m1 < out@.len() && 0 <= m2 < out@.len() && m1 != m2 implies out@[m1] != out@[m2] by {
            let a = if m1 < m2 { m1 } else { m2 };
            let b = if m1 < m2 { m2 } else { m1 };
            assert(pos[a] < pos[b]);
            assert(key_lt(sorted@[pos[a]], sorted@[pos[b]]));
            let x = sorted@[pos[a]].3 as int;
            let y = sorted@[pos[b]].3 as int;
            assert(sorted@[pos[a]] == (t[x].0, t[x].1, t[x].2, sorted@[pos[a]].3));
            assert(sorted@[pos[b]] == (t[y].0, t[y].1, t[y].2, sorted@[pos[b]].3));
        }
    }
    out
}

} // verus!
