use crate::pcg::{advance, lemma_advance_succ, seeded_model, xsh_rr, LcgModel, Pcg32, DEFAULT_SEED, DEFAULT_STREAM};
use vstd::multiset::group_multiset_axioms;
use vstd::prelude::*;
use vstd::seq_lib::{to_multiset_contains, to_multiset_len, to_multiset_remove, to_multiset_update};

verus! {

/// `s` with the items at `i` and `j` exchanged.
pub open spec fn swap_seq<T>(s: Seq<T>, i: int, j: int) -> Seq<T> {
    s.update(i, s[j]).update(j, s[i])
}

/// The first `k` rounds of the shuffle of `s` driven by a generator in model
/// `m`: round `idx` swaps `idx` with the next output modulo the length.
pub open spec fn shuffle_rounds<T>(s: Seq<T>, m: LcgModel, k: nat) -> Seq<T>
    decreases k,
{
    if k == 0 {
        s
    } else {
        let idx = (k - 1) as nat;
        swap_seq(
            shuffle_rounds(s, m, idx),
            idx as int,
            xsh_rr(advance(m, idx).state) as int % s.len() as int,
        )
    }
}

proof fn lemma_swap_keeps_multiset<T>(s: Seq<T>, i: int, j: int)
    requires
        0 <= i < s.len(),
        0 <= j < s.len(),
    ensures
        swap_seq(s, i, j).to_multiset() =~= s.to_multiset(),
{
    broadcast use group_multiset_axioms;

    let a = s[i];
    let b = s[j];
    let ms = s.to_multiset();
    let s1 = s.update(i, b);
    to_multiset_update(s, i, b);
    to_multiset_update(s1, j, a);
    to_multiset_contains(s, a);
    to_multiset_contains(s, b);
    assert(s.contains(a));
    assert(s.contains(b));
    assert(s1[j] == b);
    let ms1 = ms.insert(b).remove(a);
    assert(ms1.count(b) > 0);
    assert(ms1.insert(a).remove(b) =~= ms);
}

/// `s` is in ascending order.
pub open spec fn ascending(s: Seq<u64>) -> bool {
    forall|i: int, j: int| 0 <= i < j < s.len() ==> s[i] <= s[j]
}

/// Sorting undoes a shuffle: two ascending sequences that hold the same
/// items, each as often, are equal. So an ascending sequence, shuffled and
/// sorted again, comes back unchanged.
pub proof fn lemma_ascending_same_items_equal(a: Seq<u64>, b: Seq<u64>)
    requires
        ascending(a),
        ascending(b),
        a.to_multiset() == b.to_multiset(),
    ensures
        a == b,
    decreases a.len(),
{
    broadcast use group_multiset_axioms;

    to_multiset_len(a);
    to_multiset_len(b);
    if a.len() > 0 {
        to_multiset_contains(a, b[0]);
        to_multiset_contains(b, a[0]);
        to_multiset_contains(a, a[0]);
        to_multiset_contains(b, b[0]);
        assert(b.contains(b[0]));
        assert(a.contains(a[0]));
        assert(b.to_multiset().count(b[0]) > 0);
        assert(a.to_multiset().count(a[0]) > 0);
        assert(a.contains(b[0]));
        assert(b.contains(a[0]));
        let k = choose|k: int| 0 <= k < a.len() && a[k] == b[0];
        let l = choose|l: int| 0 <= l < b.len() && b[l] == a[0];
        assert(a[0] <= a[k]);
        assert(b[0] <= b[l]);
        assert(a[0] == b[0]);
        let a1 = a.remove(0);
        let b1 = b.remove(0);
        to_multiset_remove(a, 0);
        to_multiset_remove(b, 0);
        assert(ascending(a1)) by {
            assert forall|i: int, j: int| 0 <= i < j < a1.len() implies a1[i] <= a1[j] by {
                assert(a1[i] == a[i + 1] && a1[j] == a[j + 1]);
            }
        }
        assert(ascending(b1)) by {
            assert forall|i: int, j: int| 0 <= i < j < b1.len() implies b1[i] <= b1[j] by {
                assert(b1[i] == b[i + 1] && b1[j] == b[j + 1]);
            }
        }
        lemma_ascending_same_items_equal(a1, b1);
        assert(a =~= b) by {
            assert forall|i: int| 0 <= i < a.len() implies a[i] == b[i] by {
                if i > 0 {
                    assert(a[i] == a1[i - 1] && b[i] == b1[i - 1]);
                }
            }
        }
    } else {
        assert(a =~= b);
    }
}

/// Round trip: a copy of an ascending sequence, shuffled so that it keeps
/// the same items and then sorted ascending, is that sequence again.
pub proof fn lemma_shuffle_sort_round_trip(base: Seq<u64>, shuffled: Seq<u64>, sorted: Seq<u64>)
    requires
        ascending(base),
        shuffled.to_multiset() == base.to_multiset(),
        sorted.to_multiset() == shuffled.to_multiset(),
        ascending(sorted),
    ensures
        sorted == base,
{
    lemma_ascending_same_items_equal(sorted, base);
}

/// Exchanges the items at `i` and `j`.
fn swap_items<T: Copy>(v: &mut [T], i: usize, j: usize)
    requires
        i < old(v).len(),
        j < old(v).len(),
    ensures
        final(v)@ == swap_seq(old(v)@, i as int, j as int),
{
    let a = v[i];
    let b = v[j];
    v[i] = b;
    v[j] = a;
}

/// Shuffles `v` in place with a default-seeded generator: for each index in
/// order, swaps it with the index that the next output gives modulo the
/// length. Only the order changes.
pub fn shuffle<T: Copy>(v: &mut [T])
    ensures
        final(v)@ == shuffle_rounds(old(v)@, seeded_model(DEFAULT_SEED, DEFAULT_STREAM), old(v)@.len()),
        final(v)@.to_multiset() == old(v)@.to_multiset(),
{
    let mut rng = Pcg32::default();
    let size = v.len();
    let ghost m = rng@;
    let ghost s = v@;
    let mut idx: usize = 0;
    while idx < size
        invariant
            size == s.len(),
            v@.len() == size,
            idx <= size,
            rng@ == advance(m, idx as nat),
            v@ == shuffle_rounds(s, m, idx as nat),
            v@.to_multiset() == s.to_multiset(),
        decreases size - idx,
    {
        let r = rng.next_u32();
        let i = r as usize % size;
        proof {
            lemma_swap_keeps_multiset(v@, idx as int, i as int);
            lemma_advance_succ(m, idx as nat);
            assert(r == xsh_rr(advance(m, idx as nat).state));
        }
        swap_items(v, idx, i);
        idx = idx + 1;
        assert(v@ == shuffle_rounds(s, m, idx as nat));
    }
}

} // verus!
