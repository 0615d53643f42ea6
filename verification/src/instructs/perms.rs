//! In-place reorderings of sequences (used on emitted instructions to
//! spread dependent operations apart).
//!
//! Every reordering here moves elements by a permutation of positions that
//! depends on the length alone: the result at position `j` is the input at
//! position `order[j]`.
use vstd::prelude::*;
use vstd::arithmetic::power2::{pow2, lemma_pow2_unfold};
use vstd::set_lib::{set_int_range, lemma_int_range, lemma_len_subset, lemma_subset_equality};

verus! {

/// The elements of `s` taken at the positions listed in `order`.
pub open spec fn permute<A>(s: Seq<A>, order: Seq<int>) -> Seq<A> {
    Seq::new(order.len(), |j: int| s[order[j]])
}

/// `order` lists each position below `n` exactly once.
pub open spec fn is_permutation(order: Seq<int>, n: int) -> bool {
    &&& order.len() == n
    &&& forall|j: int| 0 <= j < n ==> 0 <= #[trigger] order[j] < n
    &&& forall|j: int, k: int| 0 <= j < n && 0 <= k < n && j != k ==> order[j] != order[k]
}

/// The positions `0, 1, ..., n - 1` in order.
pub open spec fn identity_order(n: nat) -> Seq<int> {
    Seq::new(n, |j: int| j)
}

/// `s` with the elements at `a` and `b` exchanged.
pub open spec fn swap_at<A>(s: Seq<A>, a: int, b: int) -> Seq<A> {
    s.update(a, s[b]).update(b, s[a])
}

/// `s` with the positions `o .. o + mid.len()` replaced by `mid`.
pub open spec fn splice<A>(s: Seq<A>, o: int, mid: Seq<A>) -> Seq<A> {
    s.subrange(0, o) + mid + s.subrange(o + mid.len(), s.len() as int)
}

/// The first `blocks` consecutive blocks of `size` elements of `s`, each
/// reordered by `order`, followed by the rest of `s` unchanged.
pub open spec fn blockwise<A>(s: Seq<A>, blocks: nat, size: nat, order: Seq<int>) -> Seq<A> {
    Seq::new(
        blocks,
        |b: int| permute(s.subrange(b * size, (b + 1) * size), order),
    ).flatten() + s.subrange((blocks * size) as int, s.len() as int)
}

/// The position whose element `interleave` moves to position `j` of a
/// sequence of length `n`: with `h = n / 2`, each odd position `i < h` trades
/// places with `i + h`.
pub open spec fn interleave_source(n: int, j: int) -> int {
    let h = n / 2;
    if 0 <= j < h && j % 2 == 1 {
        j + h
    } else if h <= j < 2 * h && (j - h) % 2 == 1 {
        j - h
    } else {
        j
    }
}

/// The reordering performed by `interleave` on a sequence of length `n`.
pub open spec fn interleave_order(n: nat) -> Seq<int> {
    Seq::new(n, |j: int| interleave_source(n as int, j))
}

/// Exchanges two elements of a slice.
///
/// Calls `<[T]>::swap`, which panics when either position is out of bounds;
/// afterwards the two elements have traded places and no other moved.
#[verifier::external_body]
pub(crate) fn slice_swap<T>(data: &mut [T], a: usize, b: usize)
    requires
        a < old(data)@.len(),
        b < old(data)@.len(),
    ensures
        final(data)@ == swap_at(old(data)@, a as int, b as int),
{
    data.swap(a, b)
}

/// The source of position `j` once the pairs at the odd positions below
/// `lim` are exchanged.
spec fn interleave_partial_source(n: int, lim: int, j: int) -> int {
    let h = n / 2;
    if 0 <= j < h && j < lim && j % 2 == 1 {
        j + h
    } else if h <= j < 2 * h && j - h < lim && (j - h) % 2 == 1 {
        j - h
    } else {
        j
    }
}

/// Interleaves the block `o .. o + len` of `data` in place.
fn interleave_at<T>(data: &mut [T], o: usize, len: usize)
    requires
        o + len <= old(data)@.len(),
    ensures
        final(data)@ == splice(
            old(data)@,
            o as int,
            permute(old(data)@.subrange(o as int, o + len), interleave_order(len as nat)),
        ),
{
    let ghost sub = old(data)@.subrange(o as int, o + len);
    let total = data.len();
    let h = len >> 1;
    assert(h == len / 2) by (bit_vector)
        requires
            h == len >> 1,
    ;
    let mut i: usize = 1;
    while i < h
        invariant
            h == len / 2,
            o + len <= data@.len(),
            data@.len() == old(data)@.len(),
            data@.len() == total,
            i % 2 == 1,
            i <= h + 1,
            sub == old(data)@.subrange(o as int, o + len),
            forall|j: int| 0 <= j < o ==> data@[j] == old(data)@[j],
            forall|j: int| o + len <= j < data@.len() ==> data@[j] == old(data)@[j],
            forall|j: int|
                0 <= j < len ==> data@[o + j] == sub[interleave_partial_source(
                    len as int,
                    i as int,
                    j,
                )],
        decreases h + 1 - i,
    {
        let ghost prev = data@;
        slice_swap(data, o + i, o + i + h);
        assert forall|j: int| 0 <= j < len implies #[trigger] data@[o + j] == sub[interleave_partial_source(
            len as int,
            i + 2,
            j,
        )] by {
            if j == i {
                assert(prev[o + (i + h)] == sub[interleave_partial_source(len as int, i as int, i + h)]);
            } else if j == i + h {
                assert(prev[o + i] == sub[interleave_partial_source(len as int, i as int, i as int)]);
            } else {
                assert(prev[o + j] == sub[interleave_partial_source(len as int, i as int, j)]);
            }
        }
        i = i + 2;
    }
    assert(final(data)@ =~= splice(old(data)@, o as int, permute(sub, interleave_order(len as nat))))
        by {
        assert forall|j: int| 0 <= j < len implies interleave_partial_source(len as int, i as int, j)
            == interleave_source(len as int, j) by {}
    }
}

/// Exchanges, for each odd position `i` below half the length `h`, the
/// elements at `i` and `i + h`.
pub fn interleave<T>(data: &mut [T])
    ensures
        final(data)@ == permute(old(data)@, interleave_order(old(data)@.len())),
{
    let n = data.len();
    interleave_at(data, 0, n);
    assert(old(data)@.subrange(0, n as int) =~= old(data)@);
    assert(final(data)@ =~= permute(old(data)@, interleave_order(n as nat)));
}

/// Each position `j` is the image of `interleave_source(n, j)` and back.
pub proof fn lemma_interleave_source_involution(n: int, j: int)
    requires
        0 <= j < n,
    ensures
        0 <= interleave_source(n, j) < n,
        interleave_source(n, interleave_source(n, j)) == j,
{
}

/// The reordering of `interleave` moves every element exactly once.
pub proof fn lemma_interleave_order_is_permutation(n: nat)
    ensures
        is_permutation(interleave_order(n), n as int),
{
    assert forall|j: int, k: int|
        0 <= j < n && 0 <= k < n && j != k implies interleave_order(n)[j]
        != interleave_order(n)[k] by {
        lemma_interleave_source_involution(n as int, j);
        lemma_interleave_source_involution(n as int, k);
    }
    assert forall|j: int| 0 <= j < n implies 0 <= #[trigger] interleave_order(n)[j] < n by {
        lemma_interleave_source_involution(n as int, j);
    }
}

/// Interleaving twice gives back the sequence it started from.
pub proof fn lemma_interleave_twice<A>(s: Seq<A>)
    ensures
        permute(permute(s, interleave_order(s.len())), interleave_order(s.len())) == s,
{
    let once = permute(s, interleave_order(s.len()));
    assert forall|j: int| 0 <= j < s.len() implies #[trigger] permute(
        once,
        interleave_order(s.len()),
    )[j] == s[j] by {
        lemma_interleave_source_involution(s.len() as int, j);
    }
    assert(permute(once, interleave_order(s.len())) =~= s);
}

/// The concatenation of `b` blocks of `size` elements has `b * size` elements.
proof fn lemma_flatten_blocks_len<A>(blocks: Seq<Seq<A>>, size: nat)
    requires
        forall|c: int| 0 <= c < blocks.len() ==> (#[trigger] blocks[c]).len() == size,
    ensures
        blocks.flatten().len() == blocks.len() * size,
    decreases blocks.len(),
{
    if blocks.len() > 0 {
        let init = blocks.drop_last();
        lemma_flatten_blocks_len(init, size);
        assert(init.push(blocks.last()) =~= blocks);
        init.lemma_flatten_push(blocks.last());
        assert(blocks.len() * size == init.len() * size + size) by (nonlinear_arith)
            requires
                blocks.len() == init.len() + 1,
        ;
    }
}

/// Reordering one more block extends `blockwise` by that block.
proof fn lemma_blockwise_step<A>(s: Seq<A>, b: nat, size: nat, order: Seq<int>)
    requires
        order.len() == size,
        (b + 1) * size <= s.len(),
    ensures
        blockwise(s, b, size, order).len() == s.len(),
        blockwise(s, b, size, order).subrange((b * size) as int, ((b + 1) * size) as int)
            == s.subrange((b * size) as int, ((b + 1) * size) as int),
        splice(
            blockwise(s, b, size, order),
            (b * size) as int,
            permute(s.subrange((b * size) as int, ((b + 1) * size) as int), order),
        ) == blockwise(s, b + 1, size, order),
{
    let lo = (b * size) as int;
    let hi = ((b + 1) * size) as int;
    let f = |c: int| permute(s.subrange(c * size, (c + 1) * size), order);
    let before = Seq::new(b, f);
    let after = Seq::new(b + 1, f);
    assert((b + 1) * size == b * size + size) by (nonlinear_arith);
    lemma_flatten_blocks_len(before, size);
    assert(after =~= before.push(f(b as int)));
    before.lemma_flatten_push(f(b as int));
    let cur = blockwise(s, b, size, order);
    assert(cur.subrange(lo, hi) =~= s.subrange(lo, hi));
    assert(splice(cur, lo, f(b as int)) =~= blockwise(s, b + 1, size, order));
}

/// Block-wise reordering keeps the length.
pub proof fn lemma_blockwise_len<A>(s: Seq<A>, blocks: nat, size: nat, order: Seq<int>)
    requires
        order.len() == size,
        blocks * size <= s.len(),
    ensures
        blockwise(s, blocks, size, order).len() == s.len(),
{
    let chunks = Seq::new(
        blocks,
        |b: int| permute(s.subrange(b * size, (b + 1) * size), order),
    );
    lemma_flatten_blocks_len(chunks, size);
}

/// `blockwise` with no block leaves the sequence unchanged.
proof fn lemma_blockwise_none<A>(s: Seq<A>, size: nat, order: Seq<int>)
    ensures
        blockwise(s, 0, size, order) == s,
{
    assert(Seq::new(0, |b: int| permute(s.subrange(b * size, (b + 1) * size), order)) =~= Seq::<
        Seq<A>,
    >::empty());
    assert(blockwise(s, 0, size, order) =~= s);
}

/// Interleaves each of the `p` blocks of `data.len() / p` elements; the
/// elements after the last block stay in place.
pub fn interleave_partitions<T>(data: &mut [T], p: usize)
    requires
        p > 0,
    ensures
        final(data)@ == blockwise(
            old(data)@,
            p as nat,
            old(data)@.len() / (p as nat),
            interleave_order(old(data)@.len() / (p as nat)),
        ),
{
    let n = data.len();
    let s = n / p;
    let ghost order = interleave_order(s as nat);
    assert(p * s <= n) by (nonlinear_arith)
        requires
            p > 0,
            s == n / p,
    ;
    proof {
        lemma_blockwise_none(old(data)@, s as nat, order);
    }
    let mut o: usize = 0;
    let mut b: usize = 0;
    while b < p
        invariant
            p > 0,
            n == old(data)@.len(),
            s == n / p,
            p * s <= n,
            b <= p,
            o == b * s,
            order == interleave_order(s as nat),
            data@ == blockwise(old(data)@, b as nat, s as nat, order),
        decreases p - b,
    {
        assert((b + 1) * s <= p * s) by (nonlinear_arith)
            requires
                b < p,
        ;
        assert((b + 1) * s == b * s + s) by (nonlinear_arith);
        proof {
            lemma_blockwise_step(old(data)@, b as nat, s as nat, order);
        }
        interleave_at(data, o, s);
        o = o + s;
        b = b + 1;
    }
}

/// One chain of `riffle` filling position `i`: from position `v` it moves on
/// to `t = 2 v mod m`, exchanging positions `i` and `t`, until it reaches a
/// position already `seen`; at most `fuel` exchanges are made.
pub open spec fn riffle_chain(
    order: Seq<int>,
    m: int,
    i: int,
    v: int,
    seen: Set<int>,
    fuel: nat,
) -> (Seq<int>, Set<int>)
    decreases fuel,
{
    if fuel == 0 {
        (order, seen)
    } else {
        let t = (2 * v) % m;
        if seen.contains(t) {
            (order, seen)
        } else {
            riffle_chain(swap_at(order, i, t), m, i, t, seen.insert(t), (fuel - 1) as nat)
        }
    }
}

/// The chains of `riffle` for the positions `i .. m`, one after the other.
pub open spec fn riffle_rows(order: Seq<int>, m: int, i: int, seen: Set<int>) -> Seq<int>
    decreases m - i,
{
    if i >= m {
        order
    } else {
        let (next, seen2) = riffle_chain(order, m, i, i, seen, m as nat);
        riffle_rows(next, m, i + 1, seen2)
    }
}

/// The reordering performed by `riffle` on a sequence of `n` elements, with
/// `m = n - 1`: the chains of the positions `1 .. m` under `v -> 2 v mod m`.
pub open spec fn riffle_order(n: nat) -> Seq<int> {
    riffle_rows(identity_order(n), n - 1, 1, Set::empty())
}

/// Exchanging two positions keeps a permutation a permutation.
pub(crate) proof fn lemma_swap_is_permutation(order: Seq<int>, n: int, a: int, b: int)
    requires
        is_permutation(order, n),
        0 <= a < n,
        0 <= b < n,
    ensures
        is_permutation(swap_at(order, a, b), n),
{
    let r = swap_at(order, a, b);
    assert forall|j: int, k: int| 0 <= j < n && 0 <= k < n && j != k implies r[j] != r[k] by {
        let sj = if j == b { a } else if j == a { b } else { j };
        let sk = if k == b { a } else if k == a { b } else { k };
        assert(r[j] == order[sj]);
        assert(r[k] == order[sk]);
    }
    assert forall|j: int| 0 <= j < n implies 0 <= #[trigger] r[j] < n by {
        let sj = if j == b { a } else if j == a { b } else { j };
        assert(r[j] == order[sj]);
    }
}

proof fn lemma_riffle_chain_is_permutation(
    order: Seq<int>,
    n: int,
    m: int,
    i: int,
    v: int,
    seen: Set<int>,
    fuel: nat,
)
    requires
        is_permutation(order, n),
        0 < m <= n,
        0 <= i < n,
    ensures
        is_permutation(riffle_chain(order, m, i, v, seen, fuel).0, n),
    decreases fuel,
{
    if fuel > 0 {
        let t = (2 * v) % m;
        if !seen.contains(t) {
            lemma_swap_is_permutation(order, n, i, t);
            lemma_riffle_chain_is_permutation(
                swap_at(order, i, t),
                n,
                m,
                i,
                t,
                seen.insert(t),
                (fuel - 1) as nat,
            );
        }
    }
}

proof fn lemma_riffle_rows_is_permutation(order: Seq<int>, n: int, m: int, i: int, seen: Set<int>)
    requires
        is_permutation(order, n),
        m <= n,
        0 <= i,
    ensures
        is_permutation(riffle_rows(order, m, i, seen), n),
    decreases m - i,
{
    if i < m {
        lemma_riffle_chain_is_permutation(order, n, m, i, i, seen, m as nat);
        let (next, seen2) = riffle_chain(order, m, i, i, seen, m as nat);
        lemma_riffle_rows_is_permutation(next, n, m, i + 1, seen2);
    }
}

/// The reordering of `riffle` moves every element exactly once.
pub proof fn lemma_riffle_order_is_permutation(n: nat)
    ensures
        is_permutation(riffle_order(n), n as int),
{
    assert(is_permutation(identity_order(n), n as int));
    if n > 0 {
        lemma_riffle_rows_is_permutation(identity_order(n), n as int, n - 1, 1, Set::empty());
    }
}

/// Setting bit `t` of `x` changes no other bit.
pub(crate) proof fn lemma_bit_set(x: u64, t: u64, j: u64)
    requires
        t < 64,
        j < 64,
    ensures
        ((x | (1u64 << t)) & (1u64 << j) != 0) == ((x & (1u64 << j) != 0) || j == t),
{
    assert(((x | (1u64 << t)) & (1u64 << j) != 0) == ((x & (1u64 << j) != 0) || j == t))
        by (bit_vector)
        requires
            t < 64,
            j < 64,
    ;
}

/// Exchanging positions of the order exchanges the same elements of the result.
pub(crate) proof fn lemma_permute_swap<A>(s: Seq<A>, order: Seq<int>, a: int, b: int)
    requires
        0 <= a < order.len(),
        0 <= b < order.len(),
    ensures
        permute(s, swap_at(order, a, b)) == swap_at(permute(s, order), a, b),
{
    assert(permute(s, swap_at(order, a, b)) =~= swap_at(permute(s, order), a, b));
}

/// Riffles the block `o .. o + len` of `data` in place.
fn riffle_at<T>(data: &mut [T], o: usize, len: usize)
    requires
        o + len <= old(data)@.len(),
        1 <= len <= 65,
    ensures
        final(data)@ == splice(
            old(data)@,
            o as int,
            permute(old(data)@.subrange(o as int, o + len), riffle_order(len as nat)),
        ),
{
    let ghost sub = old(data)@.subrange(o as int, o + len);
    let ghost target = riffle_order(len as nat);
    let total = data.len();
    let mut seen: u64 = 0;
    let m = len - 1;
    let ghost mut order = identity_order(len as nat);
    let ghost mut gseen = Set::<int>::empty();
    proof {
        lemma_int_range(0, m as int);
        assert forall|j: u64| j < 64 implies ((seen & (1u64 << j)) != 0) == gseen.contains(
            j as int,
        ) by {
            assert(0u64 & (1u64 << j) == 0) by (bit_vector);
        }
        assert(data@.subrange(o as int, o + len) =~= permute(sub, order));
        assert(data@ =~= splice(old(data)@, o as int, permute(sub, order)));
    }
    let mut i: usize = 1;
    while i < m
        invariant
            m == len - 1,
            1 <= len <= 65,
            o + len <= total,
            data@.len() == total,
            total == old(data)@.len(),
            sub == old(data)@.subrange(o as int, o + len),
            target == riffle_order(len as nat),
            1 <= i,
            order.len() == len,
            data@ == splice(old(data)@, o as int, permute(sub, order)),
            gseen.finite(),
            gseen.subset_of(set_int_range(0, m as int)),
            set_int_range(0, m as int).finite(),
            set_int_range(0, m as int).len() == m,
            forall|j: u64| j < 64 ==> ((seen & (1u64 << j)) != 0) == gseen.contains(j as int),
            riffle_rows(order, m as int, i as int, gseen) == target,
        decreases m - i,
    {
        let mut v = i;
        let ghost mut fuel: nat = m as nat;
        proof {
            lemma_len_subset(gseen, set_int_range(0, m as int));
        }
        loop
            invariant
                m == len - 1,
                1 <= len <= 65,
                o + len <= total,
                data@.len() == total,
                total == old(data)@.len(),
                sub == old(data)@.subrange(o as int, o + len),
                target == riffle_order(len as nat),
                1 <= i < m,
                v < m,
                order.len() == len,
                data@ == splice(old(data)@, o as int, permute(sub, order)),
                gseen.finite(),
                gseen.subset_of(set_int_range(0, m as int)),
                set_int_range(0, m as int).finite(),
                set_int_range(0, m as int).len() == m,
                gseen.len() <= m,
                fuel >= m - gseen.len(),
                forall|j: u64| j < 64 ==> ((seen & (1u64 << j)) != 0) == gseen.contains(j as int),
                ({
                    let (next, seen2) = riffle_chain(order, m as int, i as int, v as int, gseen, fuel);
                    riffle_rows(next, m as int, i + 1, seen2)
                }) == target,
            ensures
                1 <= i < m,
                order.len() == len,
                data@.len() == total,
                data@ == splice(old(data)@, o as int, permute(sub, order)),
                gseen.finite(),
                gseen.subset_of(set_int_range(0, m as int)),
                forall|j: u64| j < 64 ==> ((seen & (1u64 << j)) != 0) == gseen.contains(j as int),
                riffle_rows(order, m as int, i + 1, gseen) == target,
            decreases m - gseen.len(),
        {
            let t = 2 * v % m;
            let tb = t as u64;
            if seen & (1u64 << tb) != 0 {
                assert(gseen.contains(t as int));
                break;
            }
            assert(!gseen.contains(t as int));
            proof {
                lemma_len_subset(gseen.insert(t as int), set_int_range(0, m as int));
            }
            slice_swap(data, o + i, o + t);
            let ghost old_seen = seen;
            seen = seen | (1u64 << tb);
            proof {
                assert forall|j: u64| j < 64 implies ((seen & (1u64 << j)) != 0) == gseen.insert(
                    t as int,
                ).contains(j as int) by {
                    lemma_bit_set(old_seen, tb, j);
                }
                lemma_permute_swap(sub, order, i as int, t as int);
                order = swap_at(order, i as int, t as int);
                gseen = gseen.insert(t as int);
                fuel = (fuel - 1) as nat;
                assert(data@ =~= splice(old(data)@, o as int, permute(sub, order)));
            }
            v = t;
        }
        i = i + 1;
    }
    proof {
        assert(riffle_rows(order, m as int, i as int, gseen) == order);
        assert(data@ =~= splice(old(data)@, o as int, permute(sub, target)));
    }
}

/// Riffles the elements: for each position `i` in `1 .. n - 1` it follows
/// the positions `2 i, 4 i, ...` modulo `n - 1`, exchanging each with `i`,
/// until it reaches a position already visited. The last element stays.
pub fn riffle<T>(data: &mut [T])
    requires
        1 <= old(data)@.len() <= 65,
    ensures
        final(data)@ == permute(old(data)@, riffle_order(old(data)@.len())),
{
    let n = data.len();
    riffle_at(data, 0, n);
    proof {
        lemma_riffle_order_is_permutation(n as nat);
    }
    assert(old(data)@.subrange(0, n as int) =~= old(data)@);
    assert(final(data)@ =~= permute(old(data)@, riffle_order(n as nat)));
}

/// Riffles each of the `p` blocks of `data.len() / p` elements; the
/// elements after the last block stay in place.
pub fn riffle_partitions<T>(data: &mut [T], p: usize)
    requires
        0 < p <= old(data)@.len(),
        old(data)@.len() / (p as nat) <= 65,
    ensures
        final(data)@ == blockwise(
            old(data)@,
            p as nat,
            old(data)@.len() / (p as nat),
            riffle_order(old(data)@.len() / (p as nat)),
        ),
{
    let n = data.len();
    let s = n / p;
    let ghost order = riffle_order(s as nat);
    assert(p * s <= n) by (nonlinear_arith)
        requires
            p > 0,
            s == n / p,
    ;
    assert(s >= 1) by (nonlinear_arith)
        requires
            0 < p <= n,
            s == n / p,
    ;
    proof {
        lemma_blockwise_none(old(data)@, s as nat, order);
        assert(riffle_order(s as nat).len() == s) by {
            lemma_riffle_order_is_permutation(s as nat);
        }
    }
    let mut o: usize = 0;
    let mut b: usize = 0;
    while b < p
        invariant
            p > 0,
            n == old(data)@.len(),
            s == n / p,
            1 <= s <= 65,
            p * s <= n,
            b <= p,
            o == b * s,
            order == riffle_order(s as nat),
            order.len() == s,
            data@ == blockwise(old(data)@, b as nat, s as nat, order),
        decreases p - b,
    {
        assert((b + 1) * s <= p * s) by (nonlinear_arith)
            requires
                b < p,
        ;
        assert((b + 1) * s == b * s + s) by (nonlinear_arith);
        proof {
            lemma_blockwise_step(old(data)@, b as nat, s as nat, order);
        }
        riffle_at(data, o, s);
        o = o + s;
        b = b + 1;
    }
}

/// Reordering commutes with transforming every element.
pub proof fn lemma_permute_map<A, B>(s: Seq<A>, order: Seq<int>, f: spec_fn(A) -> B)
    requires
        is_permutation(order, s.len() as int),
    ensures
        permute(s, order).map_values(f) == permute(s.map_values(f), order),
{
    assert(permute(s, order).map_values(f) =~= permute(s.map_values(f), order));
}

/// Block-wise reordering commutes with transforming every element.
pub proof fn lemma_blockwise_map<A, B>(
    s: Seq<A>,
    blocks: nat,
    size: nat,
    order: Seq<int>,
    f: spec_fn(A) -> B,
)
    requires
        is_permutation(order, size as int),
        blocks * size <= s.len(),
    ensures
        blockwise(s, blocks, size, order).map_values(f) == blockwise(
            s.map_values(f),
            blocks,
            size,
            order,
        ),
    decreases blocks,
{
    let t = s.map_values(f);
    if blocks == 0 {
        lemma_blockwise_none(s, size, order);
        lemma_blockwise_none(t, size, order);
    } else {
        let b = (blocks - 1) as nat;
        assert(b * size <= blocks * size) by (nonlinear_arith)
            requires
                b < blocks,
        ;
        assert((b + 1) * size == b * size + size) by (nonlinear_arith);
        lemma_blockwise_map(s, b, size, order, f);
        lemma_blockwise_step(s, b, size, order);
        lemma_blockwise_step(t, b, size, order);
        let lo = (b * size) as int;
        let hi = ((b + 1) * size) as int;
        assert(s.subrange(lo, hi).map_values(f) =~= t.subrange(lo, hi));
        lemma_permute_map(s.subrange(lo, hi), order, f);
        let prev = blockwise(s, b, size, order);
        let mid = permute(s.subrange(lo, hi), order);
        assert(splice(prev, lo, mid).map_values(f) =~= splice(
            prev.map_values(f),
            lo,
            mid.map_values(f),
        ));
    }
}

/// The block `c` of a concatenation of blocks of `size` elements is the
/// `c`-th block.
proof fn lemma_flatten_block<A>(blocks: Seq<Seq<A>>, size: nat, c: int)
    requires
        forall|d: int| 0 <= d < blocks.len() ==> (#[trigger] blocks[d]).len() == size,
        0 <= c < blocks.len(),
    ensures
        blocks.flatten().subrange(c * size, (c + 1) * size) == blocks[c],
    decreases blocks.len(),
{
    let init = blocks.drop_last();
    assert(init.push(blocks.last()) =~= blocks);
    init.lemma_flatten_push(blocks.last());
    lemma_flatten_blocks_len(init, size);
    assert((c + 1) * size == c * size + size) by (nonlinear_arith);
    if c < init.len() {
        lemma_flatten_block(init, size, c);
        assert((c + 1) * size <= init.len() * size) by (nonlinear_arith)
            requires
                c + 1 <= init.len(),
        ;
        assert(c * size >= 0) by (nonlinear_arith)
            requires
                c >= 0,
        ;
        assert(blocks.flatten().subrange(c * size, (c + 1) * size) =~= init.flatten().subrange(
            c * size,
            (c + 1) * size,
        ));
    } else {
        assert(c * size == init.len() * size);
        assert(blocks.flatten().subrange(c * size, (c + 1) * size) =~= blocks.last());
    }
}

/// The first `b` blocks of `size` elements of `s`, one after the other, are
/// its first `b * size` elements.
proof fn lemma_flatten_chunks<A>(s: Seq<A>, b: nat, size: nat)
    requires
        b * size <= s.len(),
    ensures
        Seq::new(b, |c: int| s.subrange(c * size, (c + 1) * size)).flatten() == s.subrange(
            0,
            (b * size) as int,
        ),
    decreases b,
{
    let f = |c: int| s.subrange(c * size, (c + 1) * size);
    if b == 0 {
        assert(Seq::new(0, f) =~= Seq::<Seq<A>>::empty());
        assert(s.subrange(0, 0) =~= Seq::<A>::empty());
    } else {
        let pb = (b - 1) as nat;
        assert(b * size == pb * size + size) by (nonlinear_arith)
            requires
                b == pb + 1,
        ;
        lemma_flatten_chunks(s, pb, size);
        assert(Seq::new(b, f) =~= Seq::new(pb, f).push(f(pb as int)));
        Seq::new(pb, f).lemma_flatten_push(f(pb as int));
        assert(s.subrange(0, (b * size) as int) =~= s.subrange(0, (pb * size) as int) + f(
            pb as int,
        ));
    }
}

/// Each block of a block-wise reordering is the reordered block, and the
/// elements after the blocks are unchanged.
proof fn lemma_blockwise_parts<A>(s: Seq<A>, blocks: nat, size: nat, order: Seq<int>)
    requires
        order.len() == size,
        blocks * size <= s.len(),
    ensures
        forall|c: int|
            0 <= c < blocks ==> #[trigger] blockwise(s, blocks, size, order).subrange(
                c * size,
                (c + 1) * size,
            ) == permute(s.subrange(c * size, (c + 1) * size), order),
        blockwise(s, blocks, size, order).subrange((blocks * size) as int, s.len() as int)
            == s.subrange((blocks * size) as int, s.len() as int),
{
    let chunks = Seq::new(
        blocks,
        |c: int| permute(s.subrange(c * size, (c + 1) * size), order),
    );
    lemma_flatten_blocks_len(chunks, size);
    let t = blockwise(s, blocks, size, order);
    assert forall|c: int| 0 <= c < blocks implies #[trigger] t.subrange(c * size, (c + 1) * size)
        == permute(s.subrange(c * size, (c + 1) * size), order) by {
        lemma_flatten_block(chunks, size, c);
        assert((c + 1) * size <= blocks * size) by (nonlinear_arith)
            requires
                c + 1 <= blocks,
        ;
        assert(c * size >= 0) by (nonlinear_arith)
            requires
                c >= 0,
        ;
        assert((c + 1) * size == c * size + size) by (nonlinear_arith);
        assert(chunks.flatten().len() == blocks * size);
        assert(t.subrange(c * size, (c + 1) * size) =~= chunks.flatten().subrange(
            c * size,
            (c + 1) * size,
        ));
    }
    assert(t.subrange((blocks * size) as int, s.len() as int) =~= s.subrange(
        (blocks * size) as int,
        s.len() as int,
    ));
}

/// Interleaving each block twice gives back the sequence it started from.
pub proof fn lemma_interleave_blockwise_twice<A>(s: Seq<A>, blocks: nat, size: nat)
    requires
        blocks * size <= s.len(),
    ensures
        blockwise(
            blockwise(s, blocks, size, interleave_order(size)),
            blocks,
            size,
            interleave_order(size),
        ) == s,
{
    let o = interleave_order(size);
    let t = blockwise(s, blocks, size, o);
    lemma_blockwise_len(s, blocks, size, o);
    lemma_blockwise_parts(s, blocks, size, o);
    let inner = Seq::new(blocks, |c: int| permute(t.subrange(c * size, (c + 1) * size), o));
    let chunks = Seq::new(blocks, |c: int| s.subrange(c * size, (c + 1) * size));
    assert forall|c: int| 0 <= c < blocks implies #[trigger] inner[c] == chunks[c] by {
        assert(t.subrange(c * size, (c + 1) * size) == permute(
            s.subrange(c * size, (c + 1) * size),
            o,
        ));
        assert((c + 1) * size <= blocks * size) by (nonlinear_arith)
            requires
                c + 1 <= blocks,
        ;
        assert((c + 1) * size == c * size + size) by (nonlinear_arith);
        assert(c * size >= 0) by (nonlinear_arith)
            requires
                c >= 0,
        ;
        lemma_interleave_twice(s.subrange(c * size, (c + 1) * size));
    }
    assert(inner =~= chunks);
    lemma_flatten_chunks(s, blocks, size);
    assert(s.subrange(0, (blocks * size) as int) + s.subrange((blocks * size) as int, s.len() as int)
        =~= s);
}

/// Interleaving the same `p` partitions twice gives back the sequence it
/// started from.
pub proof fn lemma_interleave_partitions_twice<A>(s: Seq<A>, p: nat)
    requires
        p > 0,
    ensures
        blockwise(
            blockwise(s, p, s.len() / p, interleave_order(s.len() / p)),
            p,
            s.len() / p,
            interleave_order(s.len() / p),
        ) == s,
{
    assert(p * (s.len() / p) <= s.len()) by (nonlinear_arith)
        requires
            p > 0,
    ;
    lemma_interleave_blockwise_twice(s, p, s.len() / p);
}

/// The out-shuffle of `n` elements: the first half of the elements go, in
/// order, to the even positions and the second half to the odd positions.
pub open spec fn out_shuffle_order(n: nat) -> Seq<int> {
    Seq::new(n, |j: int| if j % 2 == 0 { j / 2 } else { n / 2 + j / 2 })
}

/// Doubling modulo `m`: the step of a `riffle` chain.
spec fn dbl(m: int, v: int) -> int {
    (2 * v) % m
}

/// Halving modulo an odd `m`: the inverse of `dbl`.
spec fn half(m: int, j: int) -> int {
    if j % 2 == 0 {
        j / 2
    } else {
        (j + m) / 2
    }
}

/// For odd `m`, doubling a position below `m` either doubles it or
/// doubles it and takes `m` away.
proof fn lemma_dbl(m: int, x: int)
    requires
        m % 2 == 1,
        0 <= x < m,
    ensures
        dbl(m, x) == if 2 * x < m { 2 * x } else { 2 * x - m },
{
    if 2 * x < m {
        vstd::arithmetic::div_mod::lemma_small_mod((2 * x) as nat, m as nat);
    } else {
        vstd::arithmetic::div_mod::lemma_mod_add_multiples_vanish(2 * x - m, m);
        vstd::arithmetic::div_mod::lemma_small_mod((2 * x - m) as nat, m as nat);
    }
}

/// For odd `m`, doubling stays below `m` and halving undoes it, and the
/// other way round.
proof fn lemma_dbl_half(m: int, x: int)
    requires
        m % 2 == 1,
        0 <= x < m,
    ensures
        0 <= dbl(m, x) < m,
        dbl(m, x) == if 2 * x < m { 2 * x } else { 2 * x - m },
        half(m, dbl(m, x)) == x,
        0 <= half(m, x) < m,
        dbl(m, half(m, x)) == x,
{
    lemma_dbl(m, x);
    assert(0 <= half(m, x) < m);
    lemma_dbl(m, half(m, x));
}

/// `seen` holds, with each position below `m`, its double.
spec fn dbl_closed(seen: Set<int>, m: int) -> bool {
    forall|x: int| 0 <= x < m ==> seen.contains(#[trigger] dbl(m, x)) == seen.contains(x)
}

/// Between two chains of `riffle` on `n = m + 1` elements (`m` odd): the
/// visited positions form whole doubling orbits covering `1 .. i`, and
/// each visited position holds the element from half its index.
spec fn shuffle_rows_inv(order: Seq<int>, seen: Set<int>, m: int, i: int) -> bool {
    &&& m % 2 == 1
    &&& order.len() == m + 1
    &&& seen.finite()
    &&& seen.subset_of(set_int_range(0, m))
    &&& dbl_closed(seen, m)
    &&& forall|x: int| 1 <= x < i && x < m ==> seen.contains(x)
    &&& forall|j: int|
        0 <= j <= m ==> #[trigger] order[j] == if seen.contains(j) {
            half(m, j)
        } else {
            j
        }
}

/// Within the chain of `riffle` filling position `i ∉ seen0`: `path` is the
/// doubling orbit of `i` walked so far, `v` its last position (or `i`),
/// position `i` holds the element from `v`, and the rest as between chains.
spec fn shuffle_chain_inv(
    order: Seq<int>,
    seen0: Set<int>,
    m: int,
    i: int,
    v: int,
    seen: Set<int>,
    path: Seq<int>,
    fuel: nat,
) -> bool {
    &&& m % 2 == 1
    &&& order.len() == m + 1
    &&& seen0.finite()
    &&& seen0.subset_of(set_int_range(0, m))
    &&& dbl_closed(seen0, m)
    &&& forall|x: int| 1 <= x < i && x < m ==> seen0.contains(x)
    &&& 1 <= i < m
    &&& !seen0.contains(i)
    &&& path.no_duplicates()
    &&& forall|l: int| 0 <= l < path.len() ==> 0 <= #[trigger] path[l] < m && !seen0.contains(path[l])
    &&& path.len() > 0 ==> path[0] == dbl(m, i)
    &&& forall|l: int| 1 <= l < path.len() ==> #[trigger] path[l] == dbl(m, path[l - 1])
    &&& v == if path.len() == 0 { i } else { path.last() }
    &&& seen.finite()
    &&& forall|x: int| #[trigger] seen.contains(x) == (seen0.contains(x) || path.contains(x))
    &&& seen.len() == seen0.len() + path.len()
    &&& fuel + path.len() == m
    &&& forall|j: int|
        0 <= j <= m ==> #[trigger] order[j] == if seen.contains(j) {
            half(m, j)
        } else if j == i {
            v
        } else {
            j
        }
}

/// A chain of `riffle` started outside the visited positions walks the
/// whole doubling orbit of `i`, leaving the state between chains for `i + 1`.
proof fn lemma_shuffle_chain(
    order: Seq<int>,
    seen0: Set<int>,
    m: int,
    i: int,
    v: int,
    seen: Set<int>,
    path: Seq<int>,
    fuel: nat,
)
    requires
        shuffle_chain_inv(order, seen0, m, i, v, seen, path, fuel),
    ensures
        ({
            let (next, seen2) = riffle_chain(order, m, i, v, seen, fuel);
            shuffle_rows_inv(next, seen2, m, i + 1)
        }),
    decreases fuel,
{
    let k = path.len();
    lemma_int_range(0, m);
    assert(seen.subset_of(set_int_range(0, m))) by {
        assert forall|x: int| seen.contains(x) implies set_int_range(0, m).contains(x) by {
            if path.contains(x) {
                let l = choose|l: int| 0 <= l < path.len() && path[l] == x;
                assert(0 <= path[l] < m);
            }
        }
    }
    lemma_len_subset(seen, set_int_range(0, m));
    assert(0 <= v < m) by {
        if k > 0 {
            assert(0 <= path[k - 1] < m);
        }
    }
    lemma_dbl_half(m, v);
    lemma_dbl_half(m, i);
    let t = dbl(m, v);
    // `i` lies on the path only as its last position.
    assert(path.contains(i) ==> v == i) by {
        if path.contains(i) {
            let l = choose|l: int| 0 <= l < path.len() && path[l] == i;
            if l == 0 {
                assert(dbl(m, i) == i);
                assert(half(m, dbl(m, i)) == i);
                lemma_dbl_half(m, 0);
                assert(dbl(m, 0) == 0);
                assert(half(m, dbl(m, 0)) == 0);
                assert(false);
            } else if l + 1 < k {
                assert(path[l + 1] == dbl(m, path[l]));
                assert(path[l + 1] == path[0]);
                assert(false);
            } else if l > 0 {
                assert(path[l] == dbl(m, path[l - 1]));
            }
        }
    }
    if fuel == 0 || seen.contains(t) {
        if fuel == 0 {
            lemma_subset_equality(seen, set_int_range(0, m));
            assert(set_int_range(0, m).contains(t));
        }
        assert(seen.contains(t));
        // The walk has come back round: `t` is on the path and `i` ends it.
        assert(!seen0.contains(t)) by {
            if seen0.contains(t) {
                assert(seen0.contains(v));
                if k > 0 {
                    assert(!seen0.contains(path[k - 1]));
                }
            }
        }
        assert(path.contains(t));
        let l = choose|l: int| 0 <= l < path.len() && path[l] == t;
        if l > 0 {
            assert(path[l] == dbl(m, path[l - 1]));
            assert(0 <= path[l - 1] < m);
            lemma_dbl_half(m, path[l - 1]);
            assert(v == path[l - 1]);
            assert(false);
        }
        assert(v == i);
        assert(k > 0);
        assert(path.contains(i)) by {
            assert(path[k - 1] == i);
        }
        assert(dbl_closed(seen, m)) by {
            assert forall|x: int| 0 <= x < m implies seen.contains(#[trigger] dbl(m, x))
                == seen.contains(x) by {
                lemma_dbl_half(m, x);
                if path.contains(x) {
                    let lx = choose|lx: int| 0 <= lx < path.len() && path[lx] == x;
                    if lx + 1 < k {
                        assert(path[lx + 1] == dbl(m, path[lx]));
                    } else {
                        assert(x == v);
                    }
                }
                if path.contains(dbl(m, x)) {
                    let ly = choose|ly: int| 0 <= ly < path.len() && path[ly] == dbl(m, x);
                    if ly > 0 {
                        assert(path[ly] == dbl(m, path[ly - 1]));
                        lemma_dbl_half(m, path[ly - 1]);
                        assert(x == path[ly - 1]);
                    } else {
                        assert(x == i);
                    }
                }
                if seen0.contains(dbl(m, x)) {
                    assert(seen0.contains(x));
                }
            }
        }
        assert forall|j: int| 0 <= j <= m implies #[trigger] order[j] == if seen.contains(j) {
            half(m, j)
        } else {
            j
        } by {
            assert(seen.contains(i));
        }
    } else {
        assert(!path.contains(i) || v == i);
        assert(!path.contains(i)) by {
            if path.contains(i) {
                assert(k > 0);
                assert(t == path[0]);
            }
        }
        let order2 = swap_at(order, i, t);
        let path2 = path.push(t);
        let seen2 = seen.insert(t);
        assert(path2.no_duplicates()) by {
            assert forall|a: int, b: int| 0 <= a < b < path2.len() implies path2[a] != path2[b] by {
                if b == k {
                    assert(path.contains(path[a]));
                }
            }
        }
        assert forall|x: int| #[trigger] seen2.contains(x) == (seen0.contains(x) || path2.contains(x)) by {
            if path2.contains(x) && x != t {
                let lx = choose|lx: int| 0 <= lx < path2.len() && path2[lx] == x;
                assert(path.contains(x)) by {
                    assert(path[lx] == x);
                }
            }
            if path.contains(x) {
                let lx = choose|lx: int| 0 <= lx < path.len() && path[lx] == x;
                assert(path2[lx] == x);
            }
            assert(path2[k as int] == t);
        }
        assert(!seen0.contains(t));
        assert forall|l: int| 1 <= l < path2.len() implies #[trigger] path2[l] == dbl(m, path2[l - 1]) by {
            if l == k {
                assert(path2[l - 1] == v);
            } else {
                assert(path[l] == dbl(m, path[l - 1]));
            }
        }
        assert forall|j: int| 0 <= j <= m implies #[trigger] order2[j] == if seen2.contains(j) {
            half(m, j)
        } else if j == i {
            t
        } else {
            j
        } by {
            if j == t {
                assert(half(m, t) == v);
            }
        }
        lemma_shuffle_chain(order2, seen0, m, i, t, seen2, path2, (fuel - 1) as nat);
    }
}

/// The chains of `riffle` from position `i` on complete the out-shuffle.
proof fn lemma_shuffle_rows(order: Seq<int>, seen: Set<int>, m: int, i: int)
    requires
        shuffle_rows_inv(order, seen, m, i),
        1 <= i,
    ensures
        riffle_rows(order, m, i, seen) == Seq::new(
            (m + 1) as nat,
            |j: int| if 1 <= j < m { half(m, j) } else { j },
        ),
    decreases m - i,
{
    if i >= m {
        assert forall|j: int| 0 <= j <= m implies #[trigger] order[j] == if 1 <= j < m {
            half(m, j)
        } else {
            j
        } by {
            if j == m {
                lemma_int_range(0, m);
                assert(!set_int_range(0, m).contains(m));
            }
            if j == 0 && seen.contains(0) {
                assert(half(m, 0) == 0);
            }
        }
        assert(order =~= Seq::new((m + 1) as nat, |j: int| if 1 <= j < m { half(m, j) } else { j }));
    } else if seen.contains(i) {
        lemma_dbl_half(m, i);
        assert(seen.contains(dbl(m, i)));
        assert(riffle_chain(order, m, i, i, seen, m as nat) == (order, seen));
        lemma_shuffle_rows(order, seen, m, i + 1);
    } else {
        lemma_int_range(0, m);
        assert(Seq::<int>::empty().no_duplicates());
        assert forall|x: int| #[trigger] seen.contains(x) == (seen.contains(x) || Seq::<int>::empty().contains(x)) by {}
        assert(shuffle_chain_inv(order, seen, m, i, i, seen, Seq::empty(), m as nat));
        lemma_shuffle_chain(order, seen, m, i, i, seen, Seq::empty(), m as nat);
        let (next, seen2) = riffle_chain(order, m, i, i, seen, m as nat);
        lemma_shuffle_rows(next, seen2, m, i + 1);
    }
}

/// On an even number of elements `riffle` is the out-shuffle: the element
/// at position `j` moves to position `2 j` for the first half and to
/// `2 (j - n / 2) + 1` for the second.
pub proof fn lemma_riffle_even_is_out_shuffle(n: nat)
    requires
        n >= 2,
        n % 2 == 0,
    ensures
        riffle_order(n) == out_shuffle_order(n),
{
    let m = n - 1;
    lemma_int_range(0, m);
    assert(identity_order(n).len() == m + 1);
    assert(shuffle_rows_inv(identity_order(n), Set::empty(), m, 1));
    lemma_shuffle_rows(identity_order(n), Set::empty(), m, 1);
    assert(riffle_order(n) =~= out_shuffle_order(n));
}

/// `s` riffled `r` times.
pub open spec fn riffled<A>(s: Seq<A>, r: nat) -> Seq<A>
    decreases r,
{
    if r == 0 {
        s
    } else {
        permute(riffled(s, (r - 1) as nat), riffle_order(s.len()))
    }
}

/// The position an out-shuffle of `m + 1` elements takes the element at `x`
/// from.
spec fn shuffle_src(m: int, x: int) -> int {
    if 0 <= x < m {
        half(m, x)
    } else {
        x
    }
}

/// The position `r` out-shuffles of `m + 1` elements take the element at
/// `x` from.
spec fn shuffle_iter(m: int, x: int, r: nat) -> int
    decreases r,
{
    if r == 0 {
        x
    } else {
        shuffle_iter(m, shuffle_src(m, x), (r - 1) as nat)
    }
}

/// `r` riffles of an even number of elements take each element from the
/// position `shuffle_iter` gives.
proof fn lemma_riffled_index<A>(s: Seq<A>, r: nat, x: int)
    requires
        s.len() >= 2,
        s.len() % 2 == 0,
        0 <= x < s.len(),
    ensures
        riffled(s, r).len() == s.len(),
        riffled(s, r)[x] == s[shuffle_iter(s.len() - 1, x, r)],
    decreases r,
{
    let n = s.len();
    let m = n - 1;
    if r > 0 {
        lemma_riffle_even_is_out_shuffle(n);
        let o = riffle_order(n);
        let y = o[x];
        assert(y == shuffle_src(m, x)) by {
            if x < m {
                lemma_dbl_half(m, 0);
            }
        }
        assert(0 <= y < n) by {
            if x < m {
                lemma_dbl_half(m, x);
            }
        }
        lemma_riffled_index(s, (r - 1) as nat, y);
        lemma_riffled_index(s, (r - 1) as nat, x);
    }
}

/// Doubling `r` times undoes `r` out-shuffles below `m`.
proof fn lemma_shuffle_iter_pow(m: int, x: int, r: nat)
    requires
        m % 2 == 1,
        0 <= x < m,
    ensures
        0 <= shuffle_iter(m, x, r) < m,
        (pow2(r) * shuffle_iter(m, x, r)) % m == x,
    decreases r,
{
    let y = shuffle_iter(m, x, r);
    if r == 0 {
        assert(pow2(0) == 1) by {
            vstd::arithmetic::power2::lemma2_to64();
        }
        vstd::arithmetic::div_mod::lemma_small_mod(x as nat, m as nat);
    } else {
        lemma_dbl_half(m, x);
        let hx = half(m, x);
        lemma_shuffle_iter_pow(m, hx, (r - 1) as nat);
        let pr = pow2((r - 1) as nat);
        lemma_pow2_unfold(r);
        assert(pow2(r) * y == 2 * (pr * y)) by (nonlinear_arith)
            requires
                pow2(r) == 2 * pr,
        ;
        vstd::arithmetic::div_mod::lemma_mul_mod_noop_right(2, pr * y, m);
        lemma_dbl_half(m, hx);
    }
}

/// `j` riffles of `2^j` elements give back the sequence they started from.
pub proof fn lemma_riffle_pow2_restores<A>(s: Seq<A>, j: nat)
    requires
        j >= 1,
        s.len() == pow2(j),
    ensures
        riffled(s, j) == s,
{
    let n = s.len();
    let m = n - 1;
    lemma_pow2_unfold(j);
    vstd::arithmetic::power2::lemma_pow2_pos((j - 1) as nat);
    assert forall|x: int| 0 <= x < n implies #[trigger] riffled(s, j)[x] == s[x] by {
        lemma_riffled_index(s, j, x);
        if x < m {
            lemma_shuffle_iter_pow(m, x, j);
            let y = shuffle_iter(m, x, j);
            assert(pow2(j) * y == m * y + y) by (nonlinear_arith)
                requires
                    pow2(j) == m + 1,
            ;
            vstd::arithmetic::div_mod::lemma_mod_multiples_vanish(y, y, m);
            vstd::arithmetic::div_mod::lemma_small_mod(y as nat, m as nat);
        } else {
            lemma_shuffle_iter_fixed(m, j);
        }
    }
    lemma_riffled_index(s, j, 0);
    assert(riffled(s, j) =~= s);
}

/// The last position stays put under out-shuffles.
proof fn lemma_shuffle_iter_fixed(m: int, r: nat)
    ensures
        shuffle_iter(m, m, r) == m,
    decreases r,
{
    if r > 0 {
        lemma_shuffle_iter_fixed(m, (r - 1) as nat);
    }
}

/// The order in which riffling and then interleaving a block of `size`
/// elements takes them: position `j` receives the element from position
/// `riffle_order(size)[interleave_order(size)[j]]`.
pub open spec fn spread_order(size: nat) -> Seq<int> {
    Seq::new(size, |j: int| riffle_order(size)[interleave_order(size)[j]])
}

/// Riffling and then interleaving each of the first `blocks` blocks of
/// `size` elements keeps every element in its block and takes each element
/// of the block once: position `j` of block `c` holds the element from
/// position `spread_order(size)[j]` of that block.
pub proof fn lemma_spread_within_blocks<A>(s: Seq<A>, blocks: nat, size: nat)
    requires
        blocks * size <= s.len(),
    ensures
        is_permutation(spread_order(size), size as int),
        blockwise(
            blockwise(s, blocks, size, riffle_order(size)),
            blocks,
            size,
            interleave_order(size),
        ).len() == s.len(),
        forall|c: int, j: int|
            0 <= c < blocks && 0 <= j < size ==> #[trigger] blockwise(
                blockwise(s, blocks, size, riffle_order(size)),
                blocks,
                size,
                interleave_order(size),
            )[c * size + j] == s[c * size + spread_order(size)[j]],
{
    let r = riffle_order(size);
    let v = interleave_order(size);
    lemma_riffle_order_is_permutation(size);
    lemma_interleave_order_is_permutation(size);
    let b1 = blockwise(s, blocks, size, r);
    lemma_blockwise_len(s, blocks, size, r);
    lemma_blockwise_parts(s, blocks, size, r);
    let b2 = blockwise(b1, blocks, size, v);
    lemma_blockwise_len(b1, blocks, size, v);
    lemma_blockwise_parts(b1, blocks, size, v);
    let o = spread_order(size);
    assert forall|j: int, k: int| 0 <= j < size && 0 <= k < size && j != k implies o[j] != o[k] by {
        assert(v[j] != v[k]);
    }
    assert forall|j: int| 0 <= j < size implies 0 <= #[trigger] o[j] < size by {
        assert(0 <= v[j] < size);
    }
    assert forall|c: int, j: int| 0 <= c < blocks && 0 <= j < size implies #[trigger] b2[c * size + j]
        == s[c * size + o[j]] by {
        assert((c + 1) * size == c * size + size) by (nonlinear_arith);
        assert(c * size + size <= blocks * size) by (nonlinear_arith)
            requires
                c + 1 <= blocks,
        ;
        assert(0 <= c * size) by (nonlinear_arith)
            requires
                0 <= c,
        ;
        assert(b2.subrange(c * size, (c + 1) * size)[j] == b2[c * size + j]);
        assert(0 <= v[j] < size);
        assert(b1.subrange(c * size, (c + 1) * size)[v[j]] == b1[c * size + v[j]]);
        assert(0 <= r[v[j]] < size);
        assert(s.subrange(c * size, (c + 1) * size)[r[v[j]]] == s[c * size + r[v[j]]]);
    }
}

} // verus!
