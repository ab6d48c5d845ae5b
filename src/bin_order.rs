use vstd::prelude::*;
use crate::point::Point;

verus! {

/// The smallest `s >= from` with `s * s >= n` (searching upwards from `from`).
pub open spec fn ceil_sqrt_from(n: nat, from: nat) -> nat
    decreases n - from,
{
    if from * from >= n || from >= n {
        from
    } else {
        ceil_sqrt_from(n, from + 1)
    }
}

/// The side of the bin grid for `n` points: the ceiling of the square root of `n`.
pub open spec fn ceil_sqrt(n: nat) -> nat {
    ceil_sqrt_from(n, 0)
}

/// The bin of one coordinate on a grid of the given side: the coordinate
/// divided by the side, rounded down (so negative coordinates fall into
/// negative bins).
pub open spec fn bin_of(c: i32, side: int) -> int {
    (c as int) / side
}

/// The position of a point along the serpentine walk over the bins (see
/// `bin_of`, floor division for every sign): rows by ascending bin y; in even
/// rows the bin x is mirrored to `side + 1 - bin x`.
pub open spec fn bin_key(p: Point, side: int) -> (int, int) {
    let bx = bin_of(p.x, side);
    let by = bin_of(p.y, side);
    (by, if by % 2 == 0 { side + 1 - bx } else { bx })
}

/// `a` comes no later than `b` along the serpentine walk.
pub open spec fn walks_before(a: Point, b: Point, side: int) -> bool {
    let ka = bin_key(a, side);
    let kb = bin_key(b, side);
    ka.0 < kb.0 || (ka.0 == kb.0 && ka.1 <= kb.1)
}

/// `p` inserted into `s` right after the last element that does not walk
/// after it, scanning from the end.
pub open spec fn insert_by_bin(s: Seq<Point>, p: Point, side: int) -> Seq<Point>
    decreases s.len(),
{
    if s.len() == 0 {
        seq![p]
    } else if walks_before(s.last(), p, side) {
        s.push(p)
    } else {
        insert_by_bin(s.drop_last(), p, side).push(s.last())
    }
}

/// The points stably ordered along the serpentine walk: each point in turn is
/// placed after every earlier point that does not walk after it.
pub open spec fn bin_sorted(s: Seq<Point>, side: int) -> Seq<Point>
    decreases s.len(),
{
    if s.len() == 0 {
        s
    } else {
        insert_by_bin(bin_sorted(s.drop_last(), side), s.last(), side)
    }
}

/// Points in non-decreasing walk order.
pub open spec fn walk_ordered(s: Seq<Point>, side: int) -> bool {
    forall|i: int, j: int| 0 <= i < j < s.len() ==> walks_before(#[trigger] s[i], #[trigger] s[j], side)
}

proof fn lemma_walks_before_total(a: Point, b: Point, side: int)
    ensures
        walks_before(a, b, side) || walks_before(b, a, side),
{
}

proof fn lemma_walks_before_transitive(a: Point, b: Point, c: Point, side: int)
    requires
        walks_before(a, b, side),
        walks_before(b, c, side),
    ensures
        walks_before(a, c, side),
{
}

proof fn lemma_insert_by_bin_at(s: Seq<Point>, p: Point, side: int, j: int)
    requires
        0 <= j <= s.len(),
        j == 0 || walks_before(s[j - 1], p, side),
        forall|k: int| j <= k < s.len() ==> !walks_before(#[trigger] s[k], p, side),
    ensures
        insert_by_bin(s, p, side) == s.insert(j, p),
    decreases s.len(),
{
    if s.len() == 0 {
        assert(s.insert(j, p) =~= seq![p]);
    } else if walks_before(s.last(), p, side) {
        assert(j == s.len());
        assert(s.insert(j, p) =~= s.push(p));
    } else {
        let t = s.drop_last();
        lemma_insert_by_bin_at(t, p, side, j);
        assert(t.insert(j, p).push(s.last()) =~= s.insert(j, p));
    }
}

proof fn lemma_insert_by_bin_facts(s: Seq<Point>, p: Point, side: int)
    ensures
        insert_by_bin(s, p, side).to_multiset() == s.to_multiset().insert(p),
        walk_ordered(s, side) ==> walk_ordered(insert_by_bin(s, p, side), side),
    decreases s.len(),
{
    broadcast use vstd::seq_lib::group_to_multiset_ensures;
    let r = insert_by_bin(s, p, side);
    if s.len() == 0 {
        assert(seq![p] =~= Seq::<Point>::empty().push(p));
        vstd::seq_lib::to_multiset_build(Seq::<Point>::empty(), p);
        assert(s =~= Seq::<Point>::empty());
    } else if walks_before(s.last(), p, side) {
        vstd::seq_lib::to_multiset_build(s, p);
        if walk_ordered(s, side) {
            assert forall|i: int, j: int| 0 <= i < j < r.len() implies walks_before(#[trigger] r[i], #[trigger] r[j], side) by {
                if j == s.len() {
                    if i < s.len() - 1 {
                        lemma_walks_before_transitive(s[i], s.last(), p, side);
                    }
                }
            }
        }
    } else {
        let t = s.drop_last();
        lemma_insert_by_bin_facts(t, p, side);
        let rt = insert_by_bin(t, p, side);
        vstd::seq_lib::to_multiset_build(rt, s.last());
        vstd::seq_lib::to_multiset_build(t, s.last());
        assert(t.push(s.last()) =~= s);
        if walk_ordered(s, side) {
            assert(walk_ordered(t, side));
            lemma_walks_before_total(s.last(), p, side);
            // every element of rt is an element of t or p, each walking before s.last()
            assert forall|i: int, j: int| 0 <= i < j < r.len() implies walks_before(#[trigger] r[i], #[trigger] r[j], side) by {
                if j == r.len() - 1 {
                    assert(rt.to_multiset().count(rt[i]) > 0);
                    assert(s.to_multiset().insert(p).count(rt[i]) > 0 || rt[i] == p);
                    if rt[i] != p {
                        assert(t.to_multiset().count(rt[i]) > 0);
                        assert(t.contains(rt[i]));
                        let k = choose|k: int| 0 <= k < t.len() && t[k] == rt[i];
                        assert(s[k] == t[k]);
                    }
                }
            }
        }
    }
}

/// The stable walk order is ordered along the walk and rearranges its input.
pub proof fn lemma_bin_sorted(s: Seq<Point>, side: int)
    ensures
        walk_ordered(bin_sorted(s, side), side),
        bin_sorted(s, side).to_multiset() == s.to_multiset(),
    decreases s.len(),
{
    broadcast use vstd::seq_lib::group_to_multiset_ensures;
    if s.len() > 0 {
        let t = s.drop_last();
        lemma_bin_sorted(t, side);
        lemma_insert_by_bin_facts(bin_sorted(t, side), s.last(), side);
        vstd::seq_lib::to_multiset_build(t, s.last());
        assert(t.push(s.last()) =~= s);
    } else {
        assert(s.to_multiset() =~= vstd::multiset::Multiset::<Point>::empty());
    }
}

/// The ceiling of the square root of `n`.
pub fn bin_side(n: usize) -> (r: u64)
    ensures
        r == ceil_sqrt(n as nat),
{
    let mut s: u64 = 0;
    while (s as u128) * (s as u128) < n as u128
        invariant
            s <= n,
            (s as int) * (s as int) <= 0xffff_ffff_ffff_ffff * 0xffff_ffff_ffff_ffff,
            ceil_sqrt_from(n as nat, s as nat) == ceil_sqrt(n as nat),
        decreases n - s,
    {
        proof {
            assert(s < n) by (nonlinear_arith)
                requires (s as int) * (s as int) < n as int, s >= 0;
            assert((s + 1) * (s + 1) <= 0xffff_ffff_ffff_ffff * 0xffff_ffff_ffff_ffff) by (nonlinear_arith)
                requires 0 <= s + 1 <= 0xffff_ffff_ffff_ffff;
        }
        s = s + 1;
    }
    s
}

fn bin_of_exec(c: i32, side: u64) -> (r: i128)
    requires
        side >= 1,
    ensures
        r == bin_of(c, side as int),
        -0x2_0000_0000_0000_0000 <= r <= 0x8000_0000,
{
    let s: i128 = side as i128;
    if c >= 0 {
        proof {
            let q = (c as int) / (s as int);
            assert(0 <= q <= c) by (nonlinear_arith)
                requires c >= 0, s >= 1, q == (c as int) / (s as int);
        }
        (c as i128) / s
    } else {
        // round the magnitude up, so that the quotient is rounded down
        let m: i128 = -(c as i128) + s - 1;
        let q: i128 = m / s;
        proof {
            let r = m % s;
            assert(m == q * s + r && 0 <= r < s) by (nonlinear_arith)
                requires m >= 0, s >= 1, q == m / s, r == m % s;
            assert(0 <= q <= m) by (nonlinear_arith)
                requires m == q * s + r, 0 <= r < s, s >= 1, m >= 0;
            assert(c as int == (-q) * s + (s - 1 - r)) by (nonlinear_arith)
                requires m == q * s + r, m == -(c as int) + s - 1;
            vstd::arithmetic::div_mod::lemma_fundamental_div_mod_converse(c as int, s as int, -q as int, s - 1 - r);
        }
        -q
    }
}

fn bin_key_exec(p: &Point, side: u64) -> (r: (i128, i128))
    requires
        side >= 1,
    ensures
        r.0 == bin_key(*p, side as int).0,
        r.1 == bin_key(*p, side as int).1,
{
    let bx = bin_of_exec(p.x, side);
    let by = bin_of_exec(p.y, side);
    if by % 2 == 0 {
        (by, side as i128 + 1 - bx)
    } else {
        (by, bx)
    }
}

/// The points stably ordered along the serpentine walk over bins of the given side.
pub fn sort_by_bins(points: &Vec<Point>, side: u64) -> (r: Vec<Point>)
    requires
        side >= 1,
    ensures
        r@ == bin_sorted(points@, side as int),
        walk_ordered(r@, side as int),
        r@.to_multiset() == points@.to_multiset(),
        r@.len() == points@.len(),
{
    let mut out: Vec<Point> = Vec::new();
    let mut i: usize = 0;
    while i < points.len()
        invariant
            side >= 1,
            i <= points@.len(),
            out@ == bin_sorted(points@.take(i as int), side as int),
        decreases points@.len() - i,
    {
        let p = points[i];
        let kp = bin_key_exec(&p, side);
        let mut j: usize = out.len();
        while j > 0
            invariant
                side >= 1,
                j <= out@.len(),
                kp.0 == bin_key(p, side as int).0,
                kp.1 == bin_key(p, side as int).1,
                forall|k: int| j <= k < out@.len() ==> !walks_before(#[trigger] out@[k], p, side as int),
            ensures
                j <= out@.len(),
                j == 0 || walks_before(out@[j - 1], p, side as int),
                forall|k: int| j <= k < out@.len() ==> !walks_before(#[trigger] out@[k], p, side as int),
            decreases j,
        {
            let kq = bin_key_exec(&out[j - 1], side);
            if kq.0 < kp.0 || (kq.0 == kp.0 && kq.1 <= kp.1) {
                break;
            }
            j = j - 1;
        }
        proof {
            lemma_insert_by_bin_at(out@, p, side as int, j as int);
            assert(points@.take(i as int + 1).drop_last() =~= points@.take(i as int));
        }
        out.insert(j, p);
        i = i + 1;
    }
    proof {
        broadcast use vstd::seq_lib::group_to_multiset_ensures;
        assert(points@.take(i as int) =~= points@);
        lemma_bin_sorted(points@, side as int);
        assert(out@.to_multiset().len() == points@.to_multiset().len());
    }
    out
}

} // verus!
