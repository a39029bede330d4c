//! Byte-wise string order (the order `str::cmp` uses) and a stable
//! merge sort of entry positions by their keys.

use vstd::prelude::*;
use vstd::relations::{sorted_by, total_ordering};
use vstd::utf8::encode_utf8;
use crate::text::views;

verus! {

/// Strict lexicographic order on byte strings.
pub open spec fn lex_lt(x: Seq<u8>, y: Seq<u8>) -> bool
    decreases x.len(),
{
    if y.len() == 0 {
        false
    } else if x.len() == 0 {
        true
    } else if x[0] != y[0] {
        x[0] < y[0]
    } else {
        lex_lt(x.drop_first(), y.drop_first())
    }
}

/// No byte string sorts before itself.
pub proof fn lemma_lex_lt_irreflexive(x: Seq<u8>)
    ensures
        !lex_lt(x, x),
    decreases x.len(),
{
    if x.len() > 0 {
        lemma_lex_lt_irreflexive(x.drop_first());
    }
}

/// Two byte strings never sort before each other.
pub proof fn lemma_lex_lt_asymmetric(x: Seq<u8>, y: Seq<u8>)
    ensures
        !(lex_lt(x, y) && lex_lt(y, x)),
    decreases x.len(),
{
    if x.len() > 0 && y.len() > 0 && x[0] == y[0] {
        lemma_lex_lt_asymmetric(x.drop_first(), y.drop_first());
    }
}

/// Of two different byte strings one sorts before the other.
pub proof fn lemma_lex_lt_total(x: Seq<u8>, y: Seq<u8>)
    ensures
        x != y ==> lex_lt(x, y) || lex_lt(y, x),
    decreases x.len(),
{
    if x.len() > 0 && y.len() > 0 && x[0] == y[0] {
        lemma_lex_lt_total(x.drop_first(), y.drop_first());
        if x.drop_first() == y.drop_first() {
            assert(x =~= seq![x[0]] + x.drop_first());
            assert(y =~= seq![y[0]] + y.drop_first());
        }
    } else if x.len() == 0 && y.len() == 0 {
        assert(x =~= y);
    }
}

/// Byte-string order is transitive.
pub proof fn lemma_lex_lt_transitive(x: Seq<u8>, y: Seq<u8>, z: Seq<u8>)
    requires
        lex_lt(x, y),
        lex_lt(y, z),
    ensures
        lex_lt(x, z),
    decreases x.len(),
{
    if x.len() > 0 && x[0] == y[0] && y[0] == z[0] {
        lemma_lex_lt_transitive(x.drop_first(), y.drop_first(), z.drop_first());
    }
}

/// Three-way byte-wise comparison: negative, zero or positive as `a` is
/// before, equal to or after `b`.
pub fn compare_bytes(a: &[u8], b: &[u8]) -> (r: i8)
    ensures
        r < 0 <==> lex_lt(a@, b@),
        r == 0 <==> a@ == b@,
        r > 0 <==> lex_lt(b@, a@),
{
    let mut i: usize = 0;
    assert(a@.skip(0) =~= a@);
    assert(b@.skip(0) =~= b@);
    while i < a.len() && i < b.len()
        invariant
            i <= a@.len(),
            i <= b@.len(),
            a@.take(i as int) == b@.take(i as int),
            lex_lt(a@, b@) == lex_lt(a@.skip(i as int), b@.skip(i as int)),
            lex_lt(b@, a@) == lex_lt(b@.skip(i as int), a@.skip(i as int)),
        decreases a@.len() - i,
    {
        let x = a[i];
        let y = b[i];
        assert(a@.skip(i as int)[0] == x);
        assert(b@.skip(i as int)[0] == y);
        if x < y {
            return -1;
        }
        if x > y {
            return 1;
        }
        assert(a@.skip(i as int).drop_first() =~= a@.skip(i + 1));
        assert(b@.skip(i as int).drop_first() =~= b@.skip(i + 1));
        assert(a@.take(i + 1) =~= a@.take(i as int).push(x));
        assert(b@.take(i + 1) =~= b@.take(i as int).push(y));
        i += 1;
    }
    proof {
        lemma_lex_lt_irreflexive(a@);
        if i == a@.len() {
            assert(a@.take(i as int) =~= a@);
        }
        if i == b@.len() {
            assert(b@.take(i as int) =~= b@);
        }
    }
    if a.len() < b.len() {
        assert(a@ != b@);
        -1
    } else if a.len() > b.len() {
        assert(a@ != b@);
        1
    } else {
        0
    }
}

/// The UTF-8 bytes of the `i`-th key.
pub open spec fn key_bytes(keys: Seq<Seq<char>>, i: usize) -> Seq<u8> {
    encode_utf8(keys[i as int])
}

/// Positions ordered by their key's bytes, ties broken by position.
pub open spec fn key_order(keys: Seq<Seq<char>>) -> spec_fn(usize, usize) -> bool {
    |a: usize, b: usize|
        lex_lt(key_bytes(keys, a), key_bytes(keys, b)) || (key_bytes(keys, a) == key_bytes(
            keys,
            b,
        ) && a <= b)
}

/// Ordering entries by key bytes, ties by position, is a total order.
pub proof fn lemma_key_order_is_total(keys: Seq<Seq<char>>)
    ensures
        total_ordering(key_order(keys)),
{
    let r = key_order(keys);
    assert forall|x: usize| #[trigger] r(x, x) by {
        lemma_lex_lt_irreflexive(key_bytes(keys, x));
    }
    assert forall|x: usize, y: usize| #[trigger] r(x, y) && #[trigger] r(y, x) implies x == y by {
        lemma_lex_lt_asymmetric(key_bytes(keys, x), key_bytes(keys, y));
        lemma_lex_lt_irreflexive(key_bytes(keys, x));
    }
    assert forall|x: usize, y: usize, z: usize| #[trigger] r(x, y) && #[trigger] r(y, z) implies r(
        x,
        z,
    ) by {
        let (kx, ky, kz) = (key_bytes(keys, x), key_bytes(keys, y), key_bytes(keys, z));
        if lex_lt(kx, ky) && lex_lt(ky, kz) {
            lemma_lex_lt_transitive(kx, ky, kz);
        }
    }
    assert forall|x: usize, y: usize| #[trigger] r(x, y) || #[trigger] r(y, x) by {
        lemma_lex_lt_total(key_bytes(keys, x), key_bytes(keys, y));
    }
}

/// Whether `a` comes no later than `b` in [`key_order`], computed from
/// the keys' bytes.
fn key_order_le(keys: &Vec<String>, a: usize, b: usize) -> (r: bool)
    requires
        a < keys@.len(),
        b < keys@.len(),
    ensures
        r == key_order(views(keys@))(a, b),
{
    let c = compare_bytes(keys[a].as_str().as_bytes(), keys[b].as_str().as_bytes());
    c < 0 || (c == 0 && a <= b)
}

fn copy_range(v: &Vec<usize>, lo: usize, hi: usize) -> (r: Vec<usize>)
    requires
        lo <= hi <= v@.len(),
    ensures
        r@ == v@.subrange(lo as int, hi as int),
{
    let mut r: Vec<usize> = Vec::new();
    let mut i = lo;
    while i < hi
        invariant
            lo <= i <= hi <= v@.len(),
            r@ == v@.subrange(lo as int, i as int),
        decreases hi - i,
    {
        r.push(v[i]);
        assert(v@.subrange(lo as int, i + 1) =~= v@.subrange(lo as int, i as int).push(v@[i as int]));
        i += 1;
    }
    r
}

fn merge(left: Vec<usize>, right: Vec<usize>, keys: &Vec<String>) -> (r: Vec<usize>)
    requires
        sorted_by(left@, key_order(views(keys@))),
        sorted_by(right@, key_order(views(keys@))),
        forall|k: int| 0 <= k < left@.len() ==> (#[trigger] left@[k]) < keys@.len(),
        forall|k: int| 0 <= k < right@.len() ==> (#[trigger] right@[k]) < keys@.len(),
    ensures
        sorted_by(r@, key_order(views(keys@))),
        r@.to_multiset() == left@.to_multiset().add(right@.to_multiset()),
        forall|k: int| 0 <= k < r@.len() ==> (#[trigger] r@[k]) < keys@.len(),
{
    broadcast use vstd::seq_lib::group_to_multiset_ensures, vstd::multiset::group_multiset_axioms;
    let ghost ord = key_order(views(keys@));
    proof {
        lemma_key_order_is_total(views(keys@));
    }
    let mut out: Vec<usize> = Vec::new();
    let mut i: usize = 0;
    let mut j: usize = 0;
    assert(left@.take(0) =~= Seq::<usize>::empty());
    assert(right@.take(0) =~= Seq::<usize>::empty());
    assert(out@.to_multiset() =~= left@.take(0).to_multiset().add(right@.take(0).to_multiset()));
    while i < left.len() || j < right.len()
        invariant
            ord == key_order(views(keys@)),
            total_ordering(ord),
            i <= left@.len(),
            j <= right@.len(),
            sorted_by(left@, ord),
            sorted_by(right@, ord),
            forall|k: int| 0 <= k < left@.len() ==> (#[trigger] left@[k]) < keys@.len(),
            forall|k: int| 0 <= k < right@.len() ==> (#[trigger] right@[k]) < keys@.len(),
            forall|k: int| 0 <= k < out@.len() ==> (#[trigger] out@[k]) < keys@.len(),
            sorted_by(out@, ord),
            out@.to_multiset() == left@.take(i as int).to_multiset().add(
                right@.take(j as int).to_multiset(),
            ),
            i < left@.len() ==> forall|k: int| 0 <= k < out@.len() ==> ord(#[trigger] out@[k], left@[i as int]),
            j < right@.len() ==> forall|k: int| 0 <= k < out@.len() ==> ord(#[trigger] out@[k], right@[j as int]),
        decreases left@.len() + right@.len() - i - j,
    {
        let take_left = if i < left.len() && j < right.len() {
            key_order_le(keys, left[i], right[j])
        } else {
            i < left.len()
        };
        let ghost old_out = out@;
        if take_left {
            let x = left[i];
            out.push(x);
            assert(out@ =~= old_out.push(x));
            proof { vstd::seq_lib::to_multiset_build(old_out, x); }
            assert(left@.take(i + 1) =~= left@.take(i as int).push(x));
            proof { vstd::seq_lib::to_multiset_build(left@.take(i as int), x); }
            assert(out@.to_multiset() =~= left@.take(i + 1).to_multiset().add(
                right@.take(j as int).to_multiset(),
            ));
            proof {
                assert forall|a: int, b: int| 0 <= a < b < out@.len() implies #[trigger] ord(out@[a], out@[b]) by {
                    if b < old_out.len() {
                    } else {
                        assert(out@[a] == old_out[a]);
                    }
                }
                if i + 1 < left@.len() {
                    assert(ord(left@[i as int], left@[i + 1]));
                    assert forall|k: int| 0 <= k < out@.len() implies ord(#[trigger] out@[k], left@[i + 1]) by {
                        if k < old_out.len() {
                            assert(ord(old_out[k], left@[i as int]));
                        }
                    }
                }
                if j < right@.len() {
                    assert(ord(x, right@[j as int]) || !(i < left@.len() && j < right@.len()));
                }
            }
            i += 1;
        } else {
            let x = right[j];
            out.push(x);
            assert(out@ =~= old_out.push(x));
            proof { vstd::seq_lib::to_multiset_build(old_out, x); }
            assert(right@.take(j + 1) =~= right@.take(j as int).push(x));
            proof { vstd::seq_lib::to_multiset_build(right@.take(j as int), x); }
            assert(out@.to_multiset() =~= left@.take(i as int).to_multiset().add(
                right@.take(j + 1).to_multiset(),
            ));
            proof {
                if i < left@.len() {
                    assert(ord(x, left@[i as int]));
                }
                assert forall|a: int, b: int| 0 <= a < b < out@.len() implies #[trigger] ord(out@[a], out@[b]) by {
                    if b < old_out.len() {
                    } else {
                        assert(out@[a] == old_out[a]);
                    }
                }
                if j + 1 < right@.len() {
                    assert(ord(right@[j as int], right@[j + 1]));
                    assert forall|k: int| 0 <= k < out@.len() implies ord(#[trigger] out@[k], right@[j + 1]) by {
                        if k < old_out.len() {
                            assert(ord(old_out[k], right@[j as int]));
                        }
                    }
                }
            }
            j += 1;
        }
    }
    assert(left@.take(i as int) =~= left@);
    assert(right@.take(j as int) =~= right@);
    out
}

/// Stable merge sort of positions by their keys: the result holds the
/// same positions, ordered by [`key_order`].
pub fn sort_by_key_bytes(v: Vec<usize>, keys: &Vec<String>) -> (r: Vec<usize>)
    requires
        forall|k: int| 0 <= k < v@.len() ==> (#[trigger] v@[k]) < keys@.len(),
    ensures
        sorted_by(r@, key_order(views(keys@))),
        r@.to_multiset() == v@.to_multiset(),
        forall|k: int| 0 <= k < r@.len() ==> (#[trigger] r@[k]) < keys@.len(),
    decreases v@.len(),
{
    if v.len() <= 1 {
        return v;
    }
    let mid = v.len() / 2;
    let left = copy_range(&v, 0, mid);
    let right = copy_range(&v, mid, v.len());
    let sl = sort_by_key_bytes(left, keys);
    let sr = sort_by_key_bytes(right, keys);
    let r = merge(sl, sr, keys);
    proof {
        assert(v@ =~= v@.subrange(0, mid as int) + v@.subrange(mid as int, v@.len() as int));
        vstd::seq_lib::lemma_multiset_commutative(
            v@.subrange(0, mid as int),
            v@.subrange(mid as int, v@.len() as int),
        );
    }
    r
}


/// Number of leading positions of `order` whose key is byte-wise before
/// `q` (the partition point of a sorted order).
pub open spec fn count_keys_before(order: Seq<usize>, keys: Seq<Seq<char>>, q: Seq<u8>) -> nat
    decreases order.len(),
{
    if order.len() == 0 {
        0
    } else if lex_lt(key_bytes(keys, order[0]), q) {
        1 + count_keys_before(order.drop_first(), keys, q)
    } else {
        0
    }
}

proof fn lemma_count_keys_before_unique(order: Seq<usize>, keys: Seq<Seq<char>>, q: Seq<u8>, p: int)
    requires
        0 <= p <= order.len(),
        forall|k: int| 0 <= k < p ==> lex_lt(key_bytes(keys, #[trigger] order[k]), q),
        p < order.len() ==> !lex_lt(key_bytes(keys, order[p]), q),
    ensures
        count_keys_before(order, keys, q) == p,
    decreases order.len(),
{
    if order.len() > 0 && p > 0 {
        assert forall|k: int| 0 <= k < p - 1 implies lex_lt(key_bytes(keys, #[trigger] order.drop_first()[k]), q) by {
            assert(order.drop_first()[k] == order[k + 1]);
        }
        lemma_count_keys_before_unique(order.drop_first(), keys, q, p - 1);
    }
}

/// Number of leading positions of `order` whose key starts with the
/// bytes `q`.
pub open spec fn count_prefixed(order: Seq<usize>, keys: Seq<Seq<char>>, q: Seq<u8>) -> nat
    decreases order.len(),
{
    if order.len() == 0 {
        0
    } else if q.is_prefix_of(key_bytes(keys, order[0])) {
        1 + count_prefixed(order.drop_first(), keys, q)
    } else {
        0
    }
}

/// When the first `p` entries, and not the next, start with `q`, the
/// count of leading entries with that prefix is `p`.
pub proof fn lemma_count_prefixed_unique(order: Seq<usize>, keys: Seq<Seq<char>>, q: Seq<u8>, p: int)
    requires
        0 <= p <= order.len(),
        forall|k: int| 0 <= k < p ==> q.is_prefix_of(key_bytes(keys, #[trigger] order[k])),
        p < order.len() ==> !q.is_prefix_of(key_bytes(keys, order[p])),
    ensures
        count_prefixed(order, keys, q) == p,
    decreases order.len(),
{
    if order.len() > 0 && p > 0 {
        assert forall|k: int| 0 <= k < p - 1 implies q.is_prefix_of(key_bytes(keys, #[trigger] order.drop_first()[k])) by {
            assert(order.drop_first()[k] == order[k + 1]);
        }
        lemma_count_prefixed_unique(order.drop_first(), keys, q, p - 1);
    }
}

/// When the first `p` entries start with `q`, at least `p` leading
/// entries have that prefix.
pub proof fn lemma_count_prefixed_at_least(order: Seq<usize>, keys: Seq<Seq<char>>, q: Seq<u8>, p: int)
    requires
        0 <= p <= order.len(),
        forall|k: int| 0 <= k < p ==> q.is_prefix_of(key_bytes(keys, #[trigger] order[k])),
    ensures
        count_prefixed(order, keys, q) >= p,
    decreases order.len(),
{
    if order.len() > 0 && p > 0 {
        assert forall|k: int| 0 <= k < p - 1 implies q.is_prefix_of(key_bytes(keys, #[trigger] order.drop_first()[k])) by {
            assert(order.drop_first()[k] == order[k + 1]);
        }
        lemma_count_prefixed_at_least(order.drop_first(), keys, q, p - 1);
        assert(q.is_prefix_of(key_bytes(keys, order[0])));
        assert(count_prefixed(order, keys, q) == 1 + count_prefixed(order.drop_first(), keys, q));
    }
}

/// The partition point of a sorted `order`: the number of positions
/// whose key is byte-wise before `q`, found by binary search.
pub fn partition_point(order: &Vec<usize>, keys: &Vec<String>, q: &[u8]) -> (p: usize)
    requires
        sorted_by(order@, key_order(views(keys@))),
        forall|k: int| 0 <= k < order@.len() ==> (#[trigger] order@[k]) < keys@.len(),
    ensures
        p as int == count_keys_before(order@, views(keys@), q@),
        p <= order@.len(),
{
    let ghost ks = views(keys@);
    let mut lo: usize = 0;
    let mut hi: usize = order.len();
    while lo < hi
        invariant
            ks == views(keys@),
            sorted_by(order@, key_order(ks)),
            forall|k: int| 0 <= k < order@.len() ==> (#[trigger] order@[k]) < keys@.len(),
            lo <= hi <= order@.len(),
            forall|k: int| 0 <= k < lo ==> lex_lt(key_bytes(ks, #[trigger] order@[k]), q@),
            forall|k: int| hi <= k < order@.len() ==> !lex_lt(key_bytes(ks, #[trigger] order@[k]), q@),
        decreases hi - lo,
    {
        let mid = lo + (hi - lo) / 2;
        let c = compare_bytes(keys[order[mid]].as_str().as_bytes(), q);
        if c < 0 {
            proof {
                assert forall|k: int| 0 <= k <= mid implies lex_lt(key_bytes(ks, #[trigger] order@[k]), q@) by {
                    if k < mid {
                        assert(key_order(ks)(order@[k], order@[mid as int]));
                        if lex_lt(key_bytes(ks, order@[k]), key_bytes(ks, order@[mid as int])) {
                            lemma_lex_lt_transitive(key_bytes(ks, order@[k]), key_bytes(ks, order@[mid as int]), q@);
                        }
                    }
                }
            }
            lo = mid + 1;
        } else {
            proof {
                assert forall|k: int| mid <= k < order@.len() implies !lex_lt(key_bytes(ks, #[trigger] order@[k]), q@) by {
                    if k > mid {
                        assert(key_order(ks)(order@[mid as int], order@[k]));
                        if lex_lt(key_bytes(ks, order@[k]), q@) {
                            if lex_lt(key_bytes(ks, order@[mid as int]), key_bytes(ks, order@[k])) {
                                lemma_lex_lt_transitive(key_bytes(ks, order@[mid as int]), key_bytes(ks, order@[k]), q@);
                            }
                        }
                    }
                }
            }
            hi = mid;
        }
    }
    proof {
        lemma_count_keys_before_unique(order@, ks, q@, lo as int);
    }
    lo
}

/// Whether the bytes `k` start with the bytes `q`.
pub fn bytes_start_with(k: &[u8], q: &[u8]) -> (r: bool)
    ensures
        r == q@.is_prefix_of(k@),
{
    if q.len() > k.len() {
        return false;
    }
    let mut i: usize = 0;
    while i < q.len()
        invariant
            q@.len() <= k@.len(),
            i <= q@.len(),
            forall|j: int| 0 <= j < i ==> q@[j] == k@[j],
        decreases q@.len() - i,
    {
        if q[i] != k[i] {
            assert(q@ != k@.subrange(0, q@.len() as int));
            return false;
        }
        i += 1;
    }
    assert(q@ =~= k@.subrange(0, q@.len() as int));
    true
}

/// How suggestion candidates are ranked for the query bytes `q`: keys
/// equal to `q` first, then shorter keys (in bytes), then byte-wise key
/// order, then position.
pub open spec fn candidate_order(keys: Seq<Seq<char>>, q: Seq<u8>) -> spec_fn(usize, usize) -> bool {
    |a: usize, b: usize|
        {
            let ka = key_bytes(keys, a);
            let kb = key_bytes(keys, b);
            let ea = ka == q;
            let eb = kb == q;
            (ea && !eb) || (ea == eb && (ka.len() < kb.len() || (ka.len() == kb.len() && (lex_lt(
                ka,
                kb,
            ) || (ka == kb && a <= b)))))
        }
}

/// The order candidates are ranked in is a total order.
pub proof fn lemma_candidate_order_is_total(keys: Seq<Seq<char>>, q: Seq<u8>)
    ensures
        total_ordering(candidate_order(keys, q)),
{
    let r = candidate_order(keys, q);
    assert forall|x: usize| #[trigger] r(x, x) by {
        lemma_lex_lt_irreflexive(key_bytes(keys, x));
    }
    assert forall|x: usize, y: usize| #[trigger] r(x, y) && #[trigger] r(y, x) implies x == y by {
        lemma_lex_lt_asymmetric(key_bytes(keys, x), key_bytes(keys, y));
        lemma_lex_lt_irreflexive(key_bytes(keys, x));
    }
    assert forall|x: usize, y: usize, z: usize| #[trigger] r(x, y) && #[trigger] r(y, z) implies r(
        x,
        z,
    ) by {
        let (kx, ky, kz) = (key_bytes(keys, x), key_bytes(keys, y), key_bytes(keys, z));
        if lex_lt(kx, ky) && lex_lt(ky, kz) {
            lemma_lex_lt_transitive(kx, ky, kz);
        }
    }
    assert forall|x: usize, y: usize| #[trigger] r(x, y) || #[trigger] r(y, x) by {
        lemma_lex_lt_total(key_bytes(keys, x), key_bytes(keys, y));
    }
}

fn candidate_order_le(keys: &Vec<String>, q: &[u8], a: usize, b: usize) -> (r: bool)
    requires
        a < keys@.len(),
        b < keys@.len(),
    ensures
        r == candidate_order(views(keys@), q@)(a, b),
{
    let ka = keys[a].as_str().as_bytes();
    let kb = keys[b].as_str().as_bytes();
    let ea = compare_bytes(ka, q) == 0;
    let eb = compare_bytes(kb, q) == 0;
    if ea != eb {
        return ea;
    }
    if ka.len() != kb.len() {
        return ka.len() < kb.len();
    }
    let c = compare_bytes(ka, kb);
    c < 0 || (c == 0 && a <= b)
}

/// Stable insertion sort of candidate positions by [`candidate_order`].
pub fn sort_candidates(v: &Vec<usize>, keys: &Vec<String>, q: &[u8]) -> (r: Vec<usize>)
    requires
        forall|k: int| 0 <= k < v@.len() ==> (#[trigger] v@[k]) < keys@.len(),
    ensures
        sorted_by(r@, candidate_order(views(keys@), q@)),
        r@.to_multiset() == v@.to_multiset(),
{
    broadcast use vstd::seq_lib::group_to_multiset_ensures;
    let ghost ord = candidate_order(views(keys@), q@);
    proof {
        lemma_candidate_order_is_total(views(keys@), q@);
    }
    let mut out: Vec<usize> = Vec::new();
    let mut i: usize = 0;
    assert(v@.take(0) =~= Seq::<usize>::empty());
    while i < v.len()
        invariant
            ord == candidate_order(views(keys@), q@),
            total_ordering(ord),
            i <= v@.len(),
            forall|k: int| 0 <= k < v@.len() ==> (#[trigger] v@[k]) < keys@.len(),
            forall|k: int| 0 <= k < out@.len() ==> (#[trigger] out@[k]) < keys@.len(),
            sorted_by(out@, ord),
            out@.to_multiset() == v@.take(i as int).to_multiset(),
        decreases v@.len() - i,
    {
        let x = v[i];
        let mut p: usize = 0;
        while p < out.len() && !candidate_order_le(keys, q, x, out[p])
            invariant
                ord == candidate_order(views(keys@), q@),
                total_ordering(ord),
                x < keys@.len(),
                forall|k: int| 0 <= k < out@.len() ==> (#[trigger] out@[k]) < keys@.len(),
                p <= out@.len(),
                forall|k: int| 0 <= k < p ==> ord(#[trigger] out@[k], x),
            decreases out@.len() - p,
        {
            assert(!ord(x, out@[p as int]));
            p += 1;
        }
        let ghost old_out = out@;
        out.insert(p, x);
        proof {
            vstd::seq_lib::to_multiset_insert(old_out, p as int, x);
            assert(v@.take(i + 1) =~= v@.take(i as int).push(x));
            vstd::seq_lib::to_multiset_build(v@.take(i as int), x);
            assert forall|a: int, b: int| 0 <= a < b < out@.len() implies #[trigger] ord(out@[a], out@[b]) by {
                if b < p {
                    assert(ord(old_out[a], old_out[b]));
                } else if b == p {
                } else if a < p {
                    assert(ord(old_out[a], x));
                    assert(ord(x, old_out[p as int]));
                    assert(ord(old_out[p as int], old_out[b - 1]) || p == b - 1);
                } else if a == p {
                    assert(ord(x, old_out[p as int]));
                    assert(ord(old_out[p as int], old_out[b - 1]) || p == b - 1);
                } else {
                    assert(ord(old_out[a - 1], old_out[b - 1]));
                }
            }
        }
        i += 1;
    }
    assert(v@.take(i as int) =~= v@);
    out
}

} // verus!
