//! Stable ordering of positions by a timestamp: the order that a stable
//! sort by time gives, pinned down as the unique sequence that is strictly
//! increasing in (time, position).

use vstd::prelude::*;

verus! {

/// `i` comes before `j` when its time is earlier, or the times tie and its
/// position is earlier (the tie-break of a stable sort).
pub open spec fn before(times: Seq<u64>, i: int, j: int) -> bool {
    times[i] < times[j] || (times[i] == times[j] && i < j)
}

/// `s` lists positions in strictly increasing (time, position) order.
pub open spec fn ordered_by_time(times: Seq<u64>, s: Seq<usize>) -> bool {
    forall|a: int, b: int| 0 <= a < b < s.len() ==> before(times, s[a] as int, s[b] as int)
}

/// Every position in `s` indexes `times`.
pub open spec fn in_range(times: Seq<u64>, s: Seq<usize>) -> bool {
    forall|a: int| 0 <= a < s.len() ==> s[a] < times.len()
}

/// `s` and `t` hold the same positions.
pub open spec fn same_members(s: Seq<usize>, t: Seq<usize>) -> bool {
    forall|x: usize| s.contains(x) <==> t.contains(x)
}

/// The positions of `idxs` in time order (ties kept in position order).
pub open spec fn time_order(times: Seq<u64>, idxs: Seq<usize>) -> Seq<usize> {
    choose|s: Seq<usize>| same_members(s, idxs) && ordered_by_time(times, s)
}

/// Two time-ordered listings of the same positions are the same listing.
pub proof fn lemma_time_order_unique(times: Seq<u64>, s1: Seq<usize>, s2: Seq<usize>)
    requires
        ordered_by_time(times, s1),
        ordered_by_time(times, s2),
        same_members(s1, s2),
        in_range(times, s1),
        in_range(times, s2),
    ensures
        s1 == s2,
    decreases s1.len() + s2.len(),
{
    if s1.len() == 0 {
        if s2.len() > 0 {
            assert(s2.contains(s2[0]));
        }
        assert(s1 =~= s2);
    } else if s2.len() == 0 {
        assert(s1.contains(s1[0]));
    } else {
        // The first element of each is the least member of the common set.
        assert(s1.contains(s1[0]));
        assert(s2.contains(s1[0]));
        let k2 = choose|k: int| 0 <= k < s2.len() && s2[k] == s1[0];
        assert(s1.contains(s2[0]));
        let k1 = choose|k: int| 0 <= k < s1.len() && s1[k] == s2[0];
        if k2 > 0 {
            assert(before(times, s2[0] as int, s1[0] as int));
            if k1 > 0 {
                assert(before(times, s1[0] as int, s2[0] as int));
                assert(false);
            } else {
                assert(s1[0] == s2[0]);
            }
        }
        assert(s1[0] == s2[0]);
        let t1 = s1.drop_first();
        let t2 = s2.drop_first();
        assert forall|x: usize| t1.contains(x) implies t2.contains(x) by {
            let a = choose|a: int| 0 <= a < t1.len() && t1[a] == x;
            assert(s1[a + 1] == x);
            assert(before(times, s1[0] as int, s1[a + 1] as int));
            assert(x != s1[0]);
            assert(s2.contains(x));
            let b = choose|b: int| 0 <= b < s2.len() && s2[b] == x;
            assert(b != 0);
            assert(t2[b - 1] == x);
        }
        assert forall|x: usize| t2.contains(x) implies t1.contains(x) by {
            let a = choose|a: int| 0 <= a < t2.len() && t2[a] == x;
            assert(s2[a + 1] == x);
            assert(before(times, s2[0] as int, s2[a + 1] as int));
            assert(x != s2[0]);
            assert(s1.contains(x));
            let b = choose|b: int| 0 <= b < s1.len() && s1[b] == x;
            assert(b != 0);
            assert(t1[b - 1] == x);
        }
        assert(ordered_by_time(times, t1)) by {
            assert forall|a: int, b: int| 0 <= a < b < t1.len() implies before(times, t1[a] as int, t1[b] as int) by {
                assert(t1[a] == s1[a + 1] && t1[b] == s1[b + 1]);
            }
        }
        assert(ordered_by_time(times, t2)) by {
            assert forall|a: int, b: int| 0 <= a < b < t2.len() implies before(times, t2[a] as int, t2[b] as int) by {
                assert(t2[a] == s2[a + 1] && t2[b] == s2[b + 1]);
            }
        }
        lemma_time_order_unique(times, t1, t2);
        assert(s1 =~= s2) by {
            assert forall|i: int| 0 <= i < s1.len() implies s1[i] == s2[i] by {
                if i > 0 {
                    assert(s1[i] == t1[i - 1]);
                    assert(s2[i] == t2[i - 1]);
                }
            }
        }
    }
}

/// Sorts the positions `idxs` by `times`, keeping equal times in position
/// order (a stable sort of positions listed in increasing order).
pub fn sort_by_time(times: &Vec<u64>, idxs: &Vec<usize>) -> (r: Vec<usize>)
    requires
        in_range(times@, idxs@),
        forall|a: int, b: int| 0 <= a < b < idxs@.len() ==> idxs@[a] != idxs@[b],
    ensures
        r@ == time_order(times@, idxs@),
        same_members(r@, idxs@),
        ordered_by_time(times@, r@),
        in_range(times@, r@),
        r@.len() == idxs@.len(),
{
    let mut r: Vec<usize> = Vec::new();
    let mut k: usize = 0;
    while k < idxs.len()
        invariant
            k <= idxs@.len(),
            in_range(times@, idxs@),
            forall|a: int, b: int| 0 <= a < b < idxs@.len() ==> idxs@[a] != idxs@[b],
            same_members(r@, idxs@.take(k as int)),
            ordered_by_time(times@, r@),
            in_range(times@, r@),
            r@.len() == k,
        decreases idxs@.len() - k,
    {
        let x = idxs[k];
        let mut p: usize = 0;
        while p < r.len() && (times[r[p]] < times[x] || (times[r[p]] == times[x] && r[p] < x))
            invariant
                p <= r@.len(),
                x < times@.len(),
                in_range(times@, r@),
                forall|a: int| 0 <= a < p ==> before(times@, r@[a] as int, x as int),
            decreases r@.len() - p,
        {
            p += 1;
        }
        let ghost old_r = r@;
        // x is not among the positions already placed
        assert(!old_r.contains(x)) by {
            if old_r.contains(x) {
                assert(idxs@.take(k as int).contains(x));
                let j = choose|j: int| 0 <= j < k && idxs@.take(k as int)[j] == x;
                assert(idxs@[j] == idxs@[k as int]);
            }
        }
        r.insert(p, x);
        proof {
            old_r.insert_ensures(p as int, x);
            assert(r@ == old_r.insert(p as int, x));
            if p < old_r.len() {
                assert(!before(times@, old_r[p as int] as int, x as int));
                assert(old_r[p as int] != x);
                assert(before(times@, x as int, old_r[p as int] as int));
            }
            assert forall|a: int, b: int| 0 <= a < b < r@.len() implies before(times@, r@[a] as int, r@[b] as int) by {
                if b < p {
                    assert(r@[a] == old_r[a] && r@[b] == old_r[b]);
                } else if b == p {
                    assert(r@[a] == old_r[a]);
                } else if a == p {
                    assert(r@[b] == old_r[b - 1]);
                    if b - 1 > p {
                        assert(before(times@, old_r[p as int] as int, old_r[b - 1] as int));
                    }
                } else if a < p {
                    assert(r@[a] == old_r[a] && r@[b] == old_r[b - 1]);
                } else {
                    assert(r@[a] == old_r[a - 1] && r@[b] == old_r[b - 1]);
                }
            }
            let tk = idxs@.take(k as int);
            let tk1 = idxs@.take(k + 1);
            assert forall|y: usize| r@.contains(y) <==> tk1.contains(y) by {
                if r@.contains(y) {
                    let j = choose|j: int| 0 <= j < r@.len() && r@[j] == y;
                    if j < p {
                        assert(old_r[j] == y);
                        assert(old_r.contains(y));
                        let m = choose|m: int| 0 <= m < tk.len() && tk[m] == y;
                        assert(tk1[m] == y);
                    } else if j == p {
                        assert(tk1[k as int] == y);
                    } else {
                        assert(old_r[j - 1] == y);
                        assert(old_r.contains(y));
                        let m = choose|m: int| 0 <= m < tk.len() && tk[m] == y;
                        assert(tk1[m] == y);
                    }
                }
                if tk1.contains(y) {
                    let m = choose|m: int| 0 <= m < tk1.len() && tk1[m] == y;
                    if m < k {
                        assert(tk[m] == y);
                        assert(tk.contains(y));
                        assert(old_r.contains(y));
                        let j = choose|j: int| 0 <= j < old_r.len() && old_r[j] == y;
                        if j < p {
                            assert(r@[j] == y);
                        } else {
                            assert(r@[j + 1] == y);
                        }
                    } else {
                        assert(r@[p as int] == y);
                    }
                }
            }
        }
        k += 1;
    }
    proof {
        assert(idxs@.take(idxs@.len() as int) =~= idxs@);
        let s = time_order(times@, idxs@);
        assert(same_members(r@, idxs@) && ordered_by_time(times@, r@));
        assert(same_members(s, idxs@) && ordered_by_time(times@, s));
        assert(in_range(times@, s)) by {
            assert forall|a: int| 0 <= a < s.len() implies s[a] < times@.len() by {
                assert(s.contains(s[a]));
                assert(idxs@.contains(s[a]));
            }
        }
        assert forall|x: usize| r@.contains(x) <==> s.contains(x) by {}
        lemma_time_order_unique(times@, r@, s);
    }
    r
}

} // verus!
