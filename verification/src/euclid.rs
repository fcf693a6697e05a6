//! Euclidean rhythms (Bjorklund's algorithm) and rhythm rotation.

use vstd::prelude::*;

verus! {

/// Number of `true` entries.
pub open spec fn count_true(b: Seq<bool>) -> int
    decreases b.len(),
{
    if b.len() == 0 {
        0
    } else {
        count_true(b.drop_last()) + if b.last() {
            1int
        } else {
            0
        }
    }
}

/// Concatenation of all groups, in order.
pub open spec fn flatten(s: Seq<Seq<bool>>) -> Seq<bool>
    decreases s.len(),
{
    if s.len() == 0 {
        Seq::empty()
    } else {
        flatten(s.drop_last()) + s.last()
    }
}

/// The views of a vector of groups.
pub open spec fn groups(v: Seq<Vec<bool>>) -> Seq<Seq<bool>> {
    v.map_values(|g: Vec<bool>| g@)
}

proof fn lemma_count_true_concat(a: Seq<bool>, b: Seq<bool>)
    ensures
        count_true(a + b) == count_true(a) + count_true(b),
    decreases b.len(),
{
    if b.len() > 0 {
        assert((a + b).drop_last() =~= a + b.drop_last());
        lemma_count_true_concat(a, b.drop_last());
    } else {
        assert(a + b =~= a);
    }
}

proof fn lemma_count_true_bounds(a: Seq<bool>)
    ensures
        0 <= count_true(a) <= a.len(),
    decreases a.len(),
{
    if a.len() > 0 {
        lemma_count_true_bounds(a.drop_last());
    }
}

proof fn lemma_flatten_concat(a: Seq<Seq<bool>>, b: Seq<Seq<bool>>)
    ensures
        flatten(a + b) == flatten(a) + flatten(b),
    decreases b.len(),
{
    if b.len() > 0 {
        assert((a + b).drop_last() =~= a + b.drop_last());
        lemma_flatten_concat(a, b.drop_last());
        assert(flatten(a + b) =~= flatten(a) + flatten(b));
    } else {
        assert(a + b =~= a);
        assert(flatten(a) + flatten(b) =~= flatten(a));
    }
}

proof fn lemma_flatten_push(a: Seq<Seq<bool>>, g: Seq<bool>)
    ensures
        flatten(a.push(g)) == flatten(a) + g,
{
    assert(a.push(g).drop_last() =~= a);
}

/// `k` copies of the one-element group `[b]`.
pub open spec fn singles(k: int, b: bool) -> Seq<Seq<bool>> {
    Seq::new(k as nat, |i: int| seq![b])
}

proof fn lemma_singles(k: int, b: bool)
    requires
        k >= 0,
    ensures
        flatten(singles(k, b)).len() == k,
        count_true(flatten(singles(k, b))) == if b {
            k
        } else {
            0
        },
    decreases k,
{
    if k > 0 {
        assert(singles(k, b).drop_last() =~= singles(k - 1, b));
        lemma_singles(k - 1, b);
        lemma_count_true_concat(flatten(singles(k - 1, b)), seq![b]);
        assert(seq![b].drop_last() =~= Seq::<bool>::empty());
        assert(count_true(Seq::<bool>::empty()) == 0);
        assert(seq![b].last() == b);
        assert(count_true(seq![b]) == if b {
            1int
        } else {
            0
        });
    } else {
        assert(singles(k, b) =~= Seq::<Seq<bool>>::empty());
    }
}

fn copy_bools(src: &Vec<bool>) -> (r: Vec<bool>)
    ensures
        r@ == src@,
{
    let mut r: Vec<bool> = Vec::new();
    extend_bools(&mut r, src);
    proof {
        assert(r@ =~= src@);
    }
    r
}

fn extend_bools(dst: &mut Vec<bool>, src: &Vec<bool>)
    ensures
        final(dst)@ == old(dst)@ + src@,
{
    let mut i: usize = 0;
    while i < src.len()
        invariant
            i <= src@.len(),
            dst@ == old(dst)@ + src@.take(i as int),
        decreases src@.len() - i,
    {
        dst.push(src[i]);
        proof {
            assert(src@.take(i as int + 1) =~= src@.take(i as int).push(src@[i as int]));
        }
        i = i + 1;
    }
    proof {
        assert(src@.take(src@.len() as int) =~= src@);
    }
}

/// `total` copies of `b`.
fn filled(total: usize, b: bool) -> (r: Vec<bool>)
    ensures
        r@ == Seq::new(total as nat, |i: int| b),
{
    let mut r: Vec<bool> = Vec::new();
    let mut i: usize = 0;
    while i < total
        invariant
            i <= total,
            r@ == Seq::new(i as nat, |j: int| b),
        decreases total - i,
    {
        r.push(b);
        proof {
            assert(r@ =~= Seq::new((i + 1) as nat, |j: int| b));
        }
        i = i + 1;
    }
    r
}

proof fn lemma_count_const(n: nat, b: bool)
    ensures
        count_true(Seq::new(n, |i: int| b)) == if b {
            n as int
        } else {
            0
        },
    decreases n,
{
    if n > 0 {
        assert(Seq::new(n, |i: int| b).drop_last() =~= Seq::new((n - 1) as nat, |i: int| b));
        lemma_count_const((n - 1) as nat, b);
    }
}

/// The invariant of the remainder method: the groups hold `total` steps of
/// which `pulses` are on, and the first group starts with a pulse.
pub open spec fn bjorklund_inv(p: Seq<Seq<bool>>, r: Seq<Seq<bool>>, total: int, pulses: int) -> bool {
    &&& flatten(p).len() + flatten(r).len() == total
    &&& count_true(flatten(p)) + count_true(flatten(r)) == pulses
    &&& p.len() >= 1
    &&& p[0].len() >= 1
    &&& p[0][0]
}

/// One round of the remainder method: the first `m = min(|p|, |r|)` groups of
/// `p` each take the matching group of `r` on their end; the groups left over
/// form the new remainder, the shorter of the two leftovers first (the pattern
/// leftovers first when they are no longer).
pub open spec fn bjorklund_step(p: Seq<Seq<bool>>, r: Seq<Seq<bool>>) -> (Seq<Seq<bool>>, Seq<Seq<bool>>) {
    let m = if p.len() < r.len() {
        p.len()
    } else {
        r.len()
    };
    let np = Seq::new(m, |i: int| p[i] + r[i]);
    let lp = p.skip(m as int);
    let lr = r.skip(m as int);
    let nr = if lp.len() == 0 {
        lr
    } else if lr.len() == 0 {
        lp
    } else if lp.len() >= lr.len() {
        lr + lp
    } else {
        lp + lr
    };
    (np, nr)
}

/// Rounds of the remainder method until at most one remainder group is left.
pub open spec fn bjorklund_groups(p: Seq<Seq<bool>>, r: Seq<Seq<bool>>) -> (Seq<Seq<bool>>, Seq<Seq<bool>>)
    decreases p.len() + r.len(),
{
    if r.len() <= 1 || p.len() == 0 {
        (p, r)
    } else {
        let (np, nr) = bjorklund_step(p, r);
        bjorklund_groups(np, nr)
    }
}

/// The Euclidean rhythm Bjorklund's remainder method yields: no steps for
/// `total == 0`; all rests for no pulses; all pulses when `pulses >= total`;
/// otherwise `pulses` groups `[true]` and `total - pulses` groups `[false]`
/// combined round by round, then read out pattern groups first.
pub open spec fn bjorklund(pulses: int, total: int) -> Seq<bool> {
    let k = if pulses < total {
        pulses
    } else {
        total
    };
    if total <= 0 {
        Seq::empty()
    } else if k <= 0 {
        Seq::new(total as nat, |i: int| false)
    } else if k == total {
        Seq::new(total as nat, |i: int| true)
    } else {
        let (p, r) = bjorklund_groups(singles(k, true), singles(total - k, false));
        flatten(p) + flatten(r)
    }
}

/// Generate a Euclidean rhythm of `total` steps with `pulses` onsets (clamped
/// to `total`) by Bjorklund's remainder method.
pub fn euclidean_rhythm(pulses: usize, total: usize) -> (out: Vec<bool>)
    ensures
        out@.len() == total,
        count_true(out@) == (if pulses < total {
            pulses as int
        } else {
            total as int
        }),
        pulses > 0 && total > 0 ==> out@[0],
        out@ == bjorklund(pulses as int, total as int),
{
    if total == 0 {
        return Vec::new();
    }
    let pulses = if pulses < total {
        pulses
    } else {
        total
    };
    if pulses == 0 {
        proof {
            lemma_count_const(total as nat, false);
        }
        return filled(total, false);
    }
    if pulses == total {
        proof {
            lemma_count_const(total as nat, true);
        }
        return filled(total, true);
    }
    let mut pattern: Vec<Vec<bool>> = Vec::new();
    let mut remainder: Vec<Vec<bool>> = Vec::new();
    let mut i: usize = 0;
    while i < pulses
        invariant
            i <= pulses,
            groups(pattern@) == singles(i as int, true),
        decreases pulses - i,
    {
        let mut g: Vec<bool> = Vec::new();
        g.push(true);
        proof {
            assert(g@ =~= seq![true]);
        }
        let ghost before = pattern@;
        pattern.push(g);
        proof {
            assert(pattern@ == before.push(g));
            assert(groups(pattern@) =~= groups(before).push(seq![true]));
            assert(groups(pattern@) =~= singles(i as int + 1, true));
        }
        i = i + 1;
    }
    let mut i: usize = 0;
    while i < total - pulses
        invariant
            i <= total - pulses,
            groups(remainder@) == singles(i as int, false),
        decreases total - pulses - i,
    {
        let mut g: Vec<bool> = Vec::new();
        g.push(false);
        proof {
            assert(g@ =~= seq![false]);
        }
        let ghost before = remainder@;
        remainder.push(g);
        proof {
            assert(remainder@ == before.push(g));
            assert(groups(remainder@) =~= groups(before).push(seq![false]));
            assert(groups(remainder@) =~= singles(i as int + 1, false));
        }
        i = i + 1;
    }
    proof {
        lemma_singles(pulses as int, true);
        lemma_singles((total - pulses) as int, false);
        assert(groups(pattern@)[0] == seq![true]);
    }
    let ghost start = bjorklund_groups(singles(pulses as int, true), singles((total - pulses) as int, false));
    loop
        invariant
            bjorklund_inv(groups(pattern@), groups(remainder@), total as int, pulses as int),
            bjorklund_groups(groups(pattern@), groups(remainder@)) == start,
            start == bjorklund_groups(singles(pulses as int, true), singles((total - pulses) as int, false)),
        ensures
            bjorklund_inv(groups(pattern@), groups(remainder@), total as int, pulses as int),
            bjorklund_groups(groups(pattern@), groups(remainder@)) == start,
            start == bjorklund_groups(singles(pulses as int, true), singles((total - pulses) as int, false)),
            remainder@.len() <= 1,
        decreases pattern@.len() + remainder@.len(),
    {
        let rem_len = remainder.len();
        if rem_len <= 1 {
            break;
        }
        let min_len = if pattern.len() < rem_len {
            pattern.len()
        } else {
            rem_len
        };
        let ghost p0 = groups(pattern@);
        let ghost r0 = groups(remainder@);
        let mut new_pattern: Vec<Vec<bool>> = Vec::new();
        let mut j: usize = 0;
        while j < min_len
            invariant
                j <= min_len,
                min_len <= pattern@.len(),
                min_len <= remainder@.len(),
                p0 == groups(pattern@),
                r0 == groups(remainder@),
                new_pattern@.len() == j,
                flatten(groups(new_pattern@)).len() == flatten(p0.take(j as int)).len() + flatten(
                    r0.take(j as int),
                ).len(),
                count_true(flatten(groups(new_pattern@))) == count_true(flatten(p0.take(j as int)))
                    + count_true(flatten(r0.take(j as int))),
                j > 0 ==> groups(new_pattern@)[0] == p0[0] + r0[0],
                groups(new_pattern@) == Seq::new(j as nat, |i: int| p0[i] + r0[i]),
            decreases min_len - j,
        {
            let mut combined = copy_bools(&pattern[j]);
            extend_bools(&mut combined, &remainder[j]);
            let ghost before = groups(new_pattern@);
            new_pattern.push(combined);
            proof {
                assert(groups(new_pattern@) =~= before.push(p0[j as int] + r0[j as int]));
                assert(groups(new_pattern@) =~= Seq::new((j + 1) as nat, |i: int| p0[i] + r0[i]));
                lemma_flatten_push(before, p0[j as int] + r0[j as int]);
                assert(p0.take(j as int + 1) =~= p0.take(j as int).push(p0[j as int]));
                assert(r0.take(j as int + 1) =~= r0.take(j as int).push(r0[j as int]));
                lemma_flatten_push(p0.take(j as int), p0[j as int]);
                lemma_flatten_push(r0.take(j as int), r0[j as int]);
                lemma_count_true_concat(flatten(before), p0[j as int] + r0[j as int]);
                lemma_count_true_concat(p0[j as int], r0[j as int]);
                lemma_count_true_concat(flatten(p0.take(j as int)), p0[j as int]);
                lemma_count_true_concat(flatten(r0.take(j as int)), r0[j as int]);
            }
            j = j + 1;
        }
        let leftovers_p = pattern.split_off(min_len);
        let leftovers_r = remainder.split_off(min_len);
        proof {
            assert(p0 =~= p0.take(min_len as int) + groups(leftovers_p@));
            assert(r0 =~= r0.take(min_len as int) + groups(leftovers_r@));
            lemma_flatten_concat(p0.take(min_len as int), groups(leftovers_p@));
            lemma_flatten_concat(r0.take(min_len as int), groups(leftovers_r@));
            lemma_count_true_concat(flatten(p0.take(min_len as int)), flatten(groups(leftovers_p@)));
            lemma_count_true_concat(flatten(r0.take(min_len as int)), flatten(groups(leftovers_r@)));
            lemma_flatten_concat(groups(leftovers_r@), groups(leftovers_p@));
            lemma_flatten_concat(groups(leftovers_p@), groups(leftovers_r@));
            lemma_count_true_concat(flatten(groups(leftovers_r@)), flatten(groups(leftovers_p@)));
            lemma_count_true_concat(flatten(groups(leftovers_p@)), flatten(groups(leftovers_r@)));
            assert(groups(new_pattern@)[0] == p0[0] + r0[0]);
            assert((p0[0] + r0[0])[0] == p0[0][0]);
        }
        pattern = new_pattern;
        remainder = if leftovers_p.len() == 0 {
            leftovers_r
        } else if leftovers_r.len() == 0 {
            leftovers_p
        } else {
            if leftovers_p.len() >= leftovers_r.len() {
                let mut r = leftovers_r;
                let mut lp = leftovers_p;
                proof {
                    assert(groups(r@ + lp@) =~= groups(r@) + groups(lp@));
                }
                r.append(&mut lp);
                r
            } else {
                let mut r = leftovers_p;
                let mut lr = leftovers_r;
                proof {
                    assert(groups(r@ + lr@) =~= groups(r@) + groups(lr@));
                }
                r.append(&mut lr);
                r
            }
        };
        proof {
            if leftovers_p@.len() == 0 {
                assert(groups(leftovers_p@) =~= Seq::<Seq<bool>>::empty());
            }
            if leftovers_r@.len() == 0 {
                assert(groups(leftovers_r@) =~= Seq::<Seq<bool>>::empty());
            }
            assert(groups(leftovers_p@) =~= p0.skip(min_len as int));
            assert(groups(leftovers_r@) =~= r0.skip(min_len as int));
            let st = bjorklund_step(p0, r0);
            assert(groups(pattern@) =~= st.0);
            assert(groups(remainder@) =~= st.1);
            assert(bjorklund_groups(p0, r0) == bjorklund_groups(st.0, st.1));
        }
    }
    proof {
        assert(bjorklund_groups(groups(pattern@), groups(remainder@)) == (groups(pattern@), groups(remainder@)));
    }
    let mut result: Vec<bool> = Vec::new();
    let mut k: usize = 0;
    while k < pattern.len()
        invariant
            k <= pattern@.len(),
            result@ == flatten(groups(pattern@).take(k as int)),
        decreases pattern@.len() - k,
    {
        let ghost before = result@;
        extend_bools(&mut result, &pattern[k]);
        proof {
            assert(groups(pattern@).take(k as int + 1) =~= groups(pattern@).take(k as int).push(
                groups(pattern@)[k as int],
            ));
            lemma_flatten_push(groups(pattern@).take(k as int), groups(pattern@)[k as int]);
        }
        k = k + 1;
    }
    let mut k: usize = 0;
    let ghost fp = result@;
    proof {
        assert(groups(pattern@).take(pattern@.len() as int) =~= groups(pattern@));
    }
    while k < remainder.len()
        invariant
            k <= remainder@.len(),
            fp == flatten(groups(pattern@)),
            result@ == fp + flatten(groups(remainder@).take(k as int)),
        decreases remainder@.len() - k,
    {
        extend_bools(&mut result, &remainder[k]);
        proof {
            assert(groups(remainder@).take(k as int + 1) =~= groups(remainder@).take(k as int).push(
                groups(remainder@)[k as int],
            ));
            lemma_flatten_push(groups(remainder@).take(k as int), groups(remainder@)[k as int]);
        }
        k = k + 1;
    }
    proof {
        assert(groups(remainder@).take(remainder@.len() as int) =~= groups(remainder@));
        lemma_count_true_concat(fp, flatten(groups(remainder@)));
        let p = groups(pattern@);
        assert(p =~= p.take(0).push(p[0]) + p.skip(1));
        lemma_flatten_concat(p.take(0).push(p[0]), p.skip(1));
        lemma_flatten_push(p.take(0), p[0]);
        assert(flatten(p.take(0)) =~= Seq::<bool>::empty());
        assert(fp[0] == p[0][0]);
    }
    let ghost full = result@;
    result.truncate(total);
    proof {
        assert(full.subrange(0, total as int) =~= full);
    }
    result
}

/// Rotate a rhythm right by `offset` steps: the last `offset % n` steps move
/// to the front.
pub fn rotate(rhythm: &[bool], offset: usize) -> (out: Vec<bool>)
    ensures
        rhythm@.len() == 0 ==> out@.len() == 0,
        rhythm@.len() > 0 ==> out@ == rhythm@.skip(rhythm@.len() - (offset as int) % (rhythm@.len() as int))
            + rhythm@.take(rhythm@.len() - (offset as int) % (rhythm@.len() as int)),
{
    let n = rhythm.len();
    if n == 0 {
        return Vec::new();
    }
    let offset = offset % n;
    let cut = n - offset;
    let mut out: Vec<bool> = Vec::new();
    let mut i: usize = cut;
    while i < n
        invariant
            cut <= i <= n,
            n == rhythm@.len(),
            out@ == rhythm@.subrange(cut as int, i as int),
        decreases n - i,
    {
        out.push(rhythm[i]);
        proof {
            assert(rhythm@.subrange(cut as int, i as int + 1) =~= rhythm@.subrange(cut as int, i as int).push(rhythm@[i as int]));
        }
        i = i + 1;
    }
    let mut i: usize = 0;
    while i < cut
        invariant
            i <= cut <= n,
            n == rhythm@.len(),
            out@ == rhythm@.subrange(cut as int, n as int) + rhythm@.subrange(0, i as int),
        decreases cut - i,
    {
        out.push(rhythm[i]);
        proof {
            assert(rhythm@.subrange(0, i as int + 1) =~= rhythm@.subrange(0, i as int).push(rhythm@[i as int]));
        }
        i = i + 1;
    }
    proof {
        assert(out@ =~= rhythm@.skip(cut as int) + rhythm@.take(cut as int));
    }
    out
}

/// E(3,8) is the tresillo `x..x..x.`.
pub proof fn lemma_e_3_8_is_tresillo()
    ensures
        bjorklund(3, 8) == seq![true, false, false, true, false, false, true, false],
{
    let p0 = singles(3, true);
    let r0 = singles(5, false);
    let s1 = bjorklund_step(p0, r0);
    let tf = seq![true, false];
    assert forall|i: int| 0 <= i < 3 implies s1.0[i] == tf by {
        assert(s1.0[i] =~= tf);
    }
    assert(s1.0 =~= seq![tf, tf, tf]);
    assert(s1.1 =~= seq![seq![false], seq![false]]);
    let s2 = bjorklund_step(s1.0, s1.1);
    let tff = seq![true, false, false];
    assert forall|i: int| 0 <= i < 2 implies s2.0[i] == tff by {
        assert(s2.0[i] =~= tff);
    }
    assert(s2.0 =~= seq![tff, tff]);
    assert(s2.1 =~= seq![tf]);
    assert(bjorklund_groups(s2.0, s2.1) == (s2.0, s2.1));
    assert(bjorklund_groups(s1.0, s1.1) == bjorklund_groups(s2.0, s2.1));
    assert(bjorklund_groups(p0, r0) == bjorklund_groups(s1.0, s1.1));
    assert(bjorklund_groups(p0, r0) == (s2.0, s2.1));
    reveal_with_fuel(flatten, 3);
    assert(flatten(s2.0) =~= tff + tff);
    assert(flatten(s2.1) =~= tf);
    assert(bjorklund(3, 8) =~= seq![true, false, false, true, false, false, true, false]);
}

} // verus!
