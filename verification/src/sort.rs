use vstd::prelude::*;

verus! {

/// The elements of `s` whose rank is `k`, in their order in `s`.
pub open spec fn rank_class<E>(s: Seq<E>, rank: spec_fn(E) -> usize, k: usize) -> Seq<E> {
    s.filter(has_rank(rank, k))
}

/// Whether an element has rank `k`.
pub open spec fn has_rank<E>(rank: spec_fn(E) -> usize, k: usize) -> spec_fn(E) -> bool {
    |e: E| rank(e) == k
}

/// `s` is ordered by ascending rank.
pub open spec fn sorted_by_rank<E>(s: Seq<E>, rank: spec_fn(E) -> usize) -> bool {
    forall|i: int, j: int| 0 <= i < j < s.len() ==> rank(#[trigger] s[i]) <= rank(#[trigger] s[j])
}

/// `t` holds the elements of `s` ordered by ascending rank, elements of equal
/// rank keeping their order in `s`.
pub open spec fn stable_sorted<E>(s: Seq<E>, t: Seq<E>, rank: spec_fn(E) -> usize) -> bool {
    &&& t.len() == s.len()
    &&& sorted_by_rank(t, rank)
    &&& forall|k: usize| #[trigger] rank_class(t, rank, k) == rank_class(s, rank, k)
}

/// The rank classes of a sequence are those of its two parts, put together.
proof fn lemma_class_add<E>(a: Seq<E>, b: Seq<E>, rank: spec_fn(E) -> usize, k: usize)
    ensures
        rank_class(a + b, rank, k) == rank_class(a, rank, k) + rank_class(b, rank, k),
{
    Seq::filter_distributes_over_add(a, b, has_rank(rank, k));
}

/// A sequence none of whose elements has rank `k` has an empty class `k`.
proof fn lemma_class_empty<E>(s: Seq<E>, rank: spec_fn(E) -> usize, k: usize)
    requires
        forall|i: int| 0 <= i < s.len() ==> rank(#[trigger] s[i]) != k,
    ensures
        rank_class(s, rank, k) == Seq::<E>::empty(),
    decreases s.len(),
{
    reveal(Seq::filter);
    if s.len() > 0 {
        assert forall|i: int| 0 <= i < s.drop_last().len() implies rank(
            #[trigger] s.drop_last()[i],
        ) != k by {
            assert(s.drop_last()[i] == s[i]);
        }
        lemma_class_empty(s.drop_last(), rank, k);
        assert(rank(s.last()) != k);
    }
}

/// Inserting `x` into a sorted sequence after the elements of rank at most
/// its own and before those of greater rank gives a sorted sequence, whose
/// rank classes are those of the sequence with `x` appended.
proof fn lemma_insertion_step<E>(prefix: Seq<E>, x: E, pos: int, rank: spec_fn(E) -> usize)
    requires
        0 <= pos <= prefix.len(),
        sorted_by_rank(prefix, rank),
        forall|q: int| pos <= q < prefix.len() ==> rank(#[trigger] prefix[q]) > rank(x),
        pos > 0 ==> rank(prefix[pos - 1]) <= rank(x),
    ensures
        ({
            let t = prefix.take(pos) + seq![x] + prefix.subrange(pos, prefix.len() as int);
            &&& sorted_by_rank(t, rank)
            &&& forall|k: usize| #[trigger] rank_class(t, rank, k) == rank_class(prefix.push(x), rank, k)
        }),
{
    let low = prefix.take(pos);
    let high = prefix.subrange(pos, prefix.len() as int);
    let t = low + seq![x] + high;
    assert(prefix == low + high);
    assert forall|k: usize| #[trigger] rank_class(t, rank, k) == rank_class(prefix.push(x), rank, k) by {
        lemma_class_add(low + seq![x], high, rank, k);
        lemma_class_add(low, seq![x], rank, k);
        lemma_class_add(low, high, rank, k);
        reveal_with_fuel(Seq::filter, 2);
        prefix.lemma_filter_push(x, has_rank(rank, k));
        if k == rank(x) {
            lemma_class_empty(high, rank, k);
        } else {
            assert(rank_class(seq![x], rank, k) =~= Seq::<E>::empty());
        }
    }
    assert forall|a: int, b: int| 0 <= a < b < t.len() implies rank(#[trigger] t[a]) <= rank(
        #[trigger] t[b],
    ) by {
        if b < pos {
        } else if b == pos {
            if pos > 0 {
                assert(rank(prefix[a]) <= rank(prefix[pos - 1]));
            }
        } else if a < pos {
            assert(t[b] == prefix[b - 1]);
        } else if a == pos {
            assert(t[b] == prefix[b - 1]);
        } else {
            assert(t[a] == prefix[a - 1]);
            assert(t[b] == prefix[b - 1]);
        }
    }
}

/// A stable sort keeps the elements: it only reorders them.
pub proof fn lemma_stable_sorted_permutes<E>(s: Seq<E>, t: Seq<E>, rank: spec_fn(E) -> usize)
    requires
        stable_sorted(s, t, rank),
    ensures
        forall|x: E| #[trigger] t.contains(x) <==> s.contains(x),
        s.no_duplicates() ==> t.no_duplicates(),
{
    assert forall|x: E| #[trigger] t.contains(x) <==> s.contains(x) by {
        let k = rank(x);
        let p = has_rank(rank, k);
        assert(rank_class(t, rank, k) == rank_class(s, rank, k));
        if t.contains(x) {
            let i = choose|i: int| 0 <= i < t.len() && t[i] == x;
            t.lemma_filter_contains(p, i);
            s.lemma_filter_contains_rev(p, x);
        }
        if s.contains(x) {
            let i = choose|i: int| 0 <= i < s.len() && s[i] == x;
            s.lemma_filter_contains(p, i);
            t.lemma_filter_contains_rev(p, x);
        }
    }
    if s.no_duplicates() {
        s.unique_seq_to_set();
        assert(t.to_set() =~= s.to_set());
        t.lemma_no_dup_set_cardinality();
    }
}

/// Sorts `v` by ascending `key`; elements with equal keys keep their order.
pub(crate) fn sort_by_key_stable<E, F: Fn(&E) -> usize>(
    v: &mut Vec<E>,
    key: F,
    Ghost(rank): Ghost<spec_fn(E) -> usize>,
)
    requires
        forall|e: &E| #[trigger] key.requires((e,)),
        forall|e: &E, r: usize| key.ensures((e,), r) ==> r == rank(*e),
    ensures
        stable_sorted(old(v)@, final(v)@, rank),
{
    let ghost orig = v@;
    let n = v.len();
    if n == 0 {
        return;
    }
    let mut i: usize = 1;
    assert forall|k: usize| #[trigger] rank_class(v@.take(1), rank, k) == rank_class(orig.take(1), rank, k) by {}
    while i < n
        invariant
            1 <= i <= n,
            v.len() == n,
            orig.len() == n,
            forall|e: &E| #[trigger] key.requires((e,)),
            forall|e: &E, r: usize| key.ensures((e,), r) ==> r == rank(*e),
            sorted_by_rank(v@.take(i as int), rank),
            v@.subrange(i as int, n as int) == orig.subrange(i as int, n as int),
            forall|k: usize| #[trigger] rank_class(v@.take(i as int), rank, k) == rank_class(orig.take(i as int), rank, k),
        decreases n - i,
    {
        let ghost before = v@;
        let ghost prefix = before.take(i as int);
        assert(before[i as int] == orig[i as int]) by {
            assert(before.subrange(i as int, n as int)[0] == orig.subrange(i as int, n as int)[0]);
        }
        let x = v.remove(i);
        let kx = key(&x);
        assert(v@.take(i as int) == prefix);
        let mut pos = i;
        while pos > 0 && key(&v[pos - 1]) > kx
            invariant
                pos <= i,
                i < n,
                v.len() == n - 1,
                v@.take(i as int) == prefix,
                kx == rank(x),
                forall|e: &E| #[trigger] key.requires((e,)),
                forall|e: &E, r: usize| key.ensures((e,), r) ==> r == rank(*e),
                forall|q: int| pos <= q < i ==> rank(#[trigger] prefix[q]) > kx,
            decreases pos,
        {
            pos = pos - 1;
        }
        let ghost low = prefix.take(pos as int);
        let ghost high = prefix.subrange(pos as int, i as int);
        assert(prefix == low + high);
        v.insert(pos, x);
        let ghost after = v@;
        assert(after.take(i + 1) == low + seq![x] + high);
        assert(after.subrange(i + 1, n as int) == orig.subrange(i + 1, n as int)) by {
            assert forall|q: int| 0 <= q < n - (i + 1) implies #[trigger] after.subrange(i + 1, n as int)[q]
                == orig.subrange(i + 1, n as int)[q] by {
                assert(before.subrange(i as int, n as int)[q + 1] == orig.subrange(i as int, n as int)[q + 1]);
            }
        }
        assert(orig.take(i + 1) == orig.take(i as int).push(x));
        proof {
            lemma_insertion_step(prefix, x, pos as int, rank);
            assert(after.take(i + 1) == prefix.take(pos as int) + seq![x] + prefix.subrange(pos as int, prefix.len() as int));
            assert forall|k: usize| #[trigger] rank_class(after.take(i + 1), rank, k) == rank_class(
                orig.take(i + 1),
                rank,
                k,
            ) by {
                assert(rank_class(after.take(i + 1), rank, k) == rank_class(prefix.push(x), rank, k));
                assert(rank_class(prefix, rank, k) == rank_class(orig.take(i as int), rank, k));
                prefix.lemma_filter_push(x, has_rank(rank, k));
                orig.take(i as int).lemma_filter_push(x, has_rank(rank, k));
            }
        }
        i = i + 1;
    }
    assert(v@.take(n as int) == v@);
    assert(orig.take(n as int) == orig);
}

} // verus!
