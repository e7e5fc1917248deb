//! Constraint-based layout solver used by [`VStack`](crate::widget::VStack) and
//! [`HStack`](crate::widget::HStack).

use vstd::prelude::*;

verus! {

/// Describes how a child in a [`VStack`](crate::widget::VStack) or
/// [`HStack`](crate::widget::HStack) should be sized.
#[derive(Debug, Clone, Copy)]
pub enum Constraint {
    /// Exactly `n` rows or columns.
    Fixed(u16),
    /// Take an equal share of whatever space remains after `Fixed` and `Ratio` children.
    Fill,
    /// A fractional share of the total — e.g. `Ratio(1, 3)` is one third.
    Ratio(u16, u16),
}

/// The smaller of two integers.
pub open spec fn min_int(a: int, b: int) -> int {
    if a <= b {
        a
    } else {
        b
    }
}

/// What a `Fixed` or `Ratio` constraint receives when `used` of `total` units are
/// taken by the constraints before it: its request, clamped to what is left. A
/// `Fill` receives nothing in this first pass.
pub open spec fn first_alloc(c: Constraint, total: int, used: int) -> int {
    match c {
        Constraint::Fixed(n) => min_int(n as int, total - used),
        Constraint::Ratio(num, den) => if den == 0 {
            0
        } else {
            min_int(total * num / (den as int), total - used)
        },
        Constraint::Fill => 0,
    }
}

/// The units taken by the `Fixed` and `Ratio` constraints of `cs`.
pub open spec fn used_by(cs: Seq<Constraint>, total: int) -> int
    decreases cs.len(),
{
    if cs.len() == 0 {
        0
    } else {
        let u = used_by(cs.drop_last(), total);
        u + first_alloc(cs.last(), total, u)
    }
}

/// The number of `Fill` constraints in `cs`.
pub open spec fn fill_count(cs: Seq<Constraint>) -> int
    decreases cs.len(),
{
    if cs.len() == 0 {
        0
    } else {
        fill_count(cs.drop_last()) + if cs.last() is Fill {
            1int
        } else {
            0int
        }
    }
}

/// The size given to constraint `i` of `cs` out of `total`.
///
/// `Fixed` and `Ratio` constraints get their clamped request in order; the units
/// left over are split among the `Fill` constraints, each getting the same share
/// and the first `remainder` of them one unit more.
pub open spec fn solved(cs: Seq<Constraint>, total: int, i: int) -> int {
    if cs[i] is Fill {
        let rem = total - used_by(cs, total);
        let fc = fill_count(cs);
        rem / fc + if fill_count(cs.take(i)) < rem % fc {
            1int
        } else {
            0int
        }
    } else {
        first_alloc(cs[i], total, used_by(cs.take(i), total))
    }
}

/// All sizes that `solve` gives.
pub open spec fn solution(cs: Seq<Constraint>, total: int) -> Seq<int> {
    Seq::new(cs.len(), |i: int| solved(cs, total, i))
}

/// The sum of a sequence of integers.
pub open spec fn seq_sum(s: Seq<int>) -> int
    decreases s.len(),
{
    if s.len() == 0 {
        0
    } else {
        seq_sum(s.drop_last()) + s.last()
    }
}

proof fn lemma_take_step<A>(s: Seq<A>, k: int)
    requires
        0 <= k < s.len(),
    ensures
        s.take(k + 1).drop_last() == s.take(k),
        s.take(k + 1).last() == s[k],
{
    assert(s.take(k + 1).drop_last() =~= s.take(k));
}

proof fn lemma_ratio_share_nonneg(total: int, num: int, den: int)
    requires
        total >= 0,
        num >= 0,
        den > 0,
    ensures
        total * num / den >= 0,
{
    assert(total * num >= 0) by (nonlinear_arith)
        requires
            total >= 0,
            num >= 0,
    ;
    assert(total * num / den >= 0) by (nonlinear_arith)
        requires
            total * num >= 0,
            den > 0,
    ;
}

/// The first pass never takes more than the total, nor a negative amount.
proof fn lemma_used_bounded(cs: Seq<Constraint>, total: int)
    requires
        total >= 0,
    ensures
        0 <= used_by(cs, total) <= total,
    decreases cs.len(),
{
    if cs.len() > 0 {
        lemma_used_bounded(cs.drop_last(), total);
        match cs.last() {
            Constraint::Ratio(num, den) => {
                if den != 0 {
                    lemma_ratio_share_nonneg(total, num as int, den as int);
                }
            },
            _ => {},
        }
    }
}

/// Counting `Fill` constraints over a longer prefix never gives less.
proof fn lemma_fill_count_monotone(cs: Seq<Constraint>, i: int, j: int)
    requires
        0 <= i <= j <= cs.len(),
    ensures
        fill_count(cs.take(i)) <= fill_count(cs.take(j)),
        fill_count(cs.take(j)) <= j,
        fill_count(cs.take(j)) >= 0,
    decreases j - i,
{
    if i < j {
        lemma_fill_count_monotone(cs, i, j - 1);
        lemma_take_step(cs, j - 1);
    } else {
        lemma_fill_count_bounds(cs.take(j));
    }
}

proof fn lemma_fill_count_bounds(cs: Seq<Constraint>)
    ensures
        0 <= fill_count(cs) <= cs.len(),
    decreases cs.len(),
{
    if cs.len() > 0 {
        lemma_fill_count_bounds(cs.drop_last());
    }
}

/// Extending a prefix by one constraint adds one fill exactly when that
/// constraint is `Fill`.
proof fn lemma_fill_count_step(cs: Seq<Constraint>, k: int)
    requires
        0 <= k < cs.len(),
    ensures
        fill_count(cs.take(k + 1)) == fill_count(cs.take(k)) + if cs[k] is Fill {
            1int
        } else {
            0int
        },
{
    lemma_take_step(cs, k);
    let t = cs.take(k + 1);
    assert(fill_count(t) == fill_count(t.drop_last()) + if t.last() is Fill {
        1int
    } else {
        0int
    });
}

/// Fewer fills come before a `Fill` constraint than there are in all.
proof fn lemma_fill_at(cs: Seq<Constraint>, i: int)
    requires
        0 <= i < cs.len(),
        cs[i] is Fill,
    ensures
        0 <= fill_count(cs.take(i)) < fill_count(cs),
{
    lemma_fill_count_step(cs, i);
    lemma_fill_count_monotone(cs, i + 1, cs.len() as int);
    lemma_fill_count_bounds(cs.take(i));
    assert(cs.take(cs.len() as int) =~= cs);
}

/// The sum of the first `k` sizes: the first-pass units taken so far, plus the
/// equal share of every fill so far, plus one unit for each of them that comes
/// before the remainder runs out.
proof fn lemma_prefix_sum(cs: Seq<Constraint>, total: int, k: int)
    requires
        total >= 0,
        0 <= k <= cs.len(),
        fill_count(cs) > 0,
    ensures
        ({
            let rem = total - used_by(cs, total);
            let fc = fill_count(cs);
            let f = fill_count(cs.take(k));
            seq_sum(solution(cs, total).take(k)) == used_by(cs.take(k), total) + (rem / fc) * f
                + min_int(f, rem % fc)
        }),
    decreases k,
{
    let rem = total - used_by(cs, total);
    let fc = fill_count(cs);
    let per = rem / fc;
    let extra = rem % fc;
    if k == 0 {
        assert(solution(cs, total).take(0) =~= Seq::<int>::empty());
        assert(cs.take(0) =~= Seq::<Constraint>::empty());
        lemma_used_bounded(cs, total);
        assert(extra >= 0) by (nonlinear_arith)
            requires
                fc > 0,
                extra == rem % fc,
        ;
        assert(per * 0 == 0) by (nonlinear_arith);
    } else {
        lemma_prefix_sum(cs, total, k - 1);
        lemma_take_step(cs, k - 1);
        let sol = solution(cs, total);
        assert(sol.take(k).drop_last() =~= sol.take(k - 1));
        assert(sol.take(k).last() == solved(cs, total, k - 1));
        let f = fill_count(cs.take(k - 1));
        assert(per * (f + 1) == per * f + per) by (nonlinear_arith);
    }
}

/// `solve` never hands out more than `total`; when some constraint is `Fill`, it
/// hands out exactly `total`. Every size is non-negative.
pub proof fn lemma_solution_sum(cs: Seq<Constraint>, total: int)
    requires
        total >= 0,
    ensures
        seq_sum(solution(cs, total)) <= total,
        fill_count(cs) > 0 ==> seq_sum(solution(cs, total)) == total,
        forall|i: int| 0 <= i < cs.len() ==> #[trigger] solution(cs, total)[i] >= 0,
{
    lemma_used_bounded(cs, total);
    lemma_fill_count_bounds(cs);
    assert forall|i: int| 0 <= i < cs.len() implies #[trigger] solution(cs, total)[i] >= 0 by {
        lemma_solved_nonneg(cs, total, i);
    }
    if fill_count(cs) > 0 {
        lemma_prefix_sum(cs, total, cs.len() as int);
        assert(solution(cs, total).take(cs.len() as int) =~= solution(cs, total));
        assert(cs.take(cs.len() as int) =~= cs);
        let rem = total - used_by(cs, total);
        let fc = fill_count(cs);
        assert(rem == (rem / fc) * fc + rem % fc && 0 <= rem % fc < fc) by (nonlinear_arith)
            requires
                fc > 0,
        ;
        assert((rem / fc) * fc == (rem / fc) * fc);
    } else {
        lemma_sum_without_fill(cs, total, cs.len() as int);
        assert(solution(cs, total).take(cs.len() as int) =~= solution(cs, total));
        assert(cs.take(cs.len() as int) =~= cs);
    }
}

proof fn lemma_sum_without_fill(cs: Seq<Constraint>, total: int, k: int)
    requires
        total >= 0,
        0 <= k <= cs.len(),
        fill_count(cs) == 0,
    ensures
        seq_sum(solution(cs, total).take(k)) == used_by(cs.take(k), total),
    decreases k,
{
    if k == 0 {
        assert(solution(cs, total).take(0) =~= Seq::<int>::empty());
        assert(cs.take(0) =~= Seq::<Constraint>::empty());
    } else {
        lemma_sum_without_fill(cs, total, k - 1);
        lemma_take_step(cs, k - 1);
        let sol = solution(cs, total);
        assert(sol.take(k).drop_last() =~= sol.take(k - 1));
        if cs[k - 1] is Fill {
            lemma_fill_at(cs, k - 1);
        }
        assert(sol.take(k).last() == solved(cs, total, k - 1));
    }
}

proof fn lemma_solved_nonneg(cs: Seq<Constraint>, total: int, i: int)
    requires
        total >= 0,
        0 <= i < cs.len(),
    ensures
        solved(cs, total, i) >= 0,
{
    lemma_used_bounded(cs, total);
    lemma_used_bounded(cs.take(i), total);
    if cs[i] is Fill {
        lemma_fill_at(cs, i);
        let rem = total - used_by(cs, total);
        let fc = fill_count(cs);
        assert(rem / fc >= 0) by (nonlinear_arith)
            requires
                rem >= 0,
                fc > 0,
        ;
    } else {
        match cs[i] {
            Constraint::Ratio(num, den) => {
                if den != 0 {
                    lemma_ratio_share_nonneg(total, num as int, den as int);
                }
            },
            _ => {},
        }
    }
}

/// Every prefix of the sizes sums to at most the sum of all sizes (so at most
/// `total`), and to no less than zero.
pub proof fn lemma_prefix_within_total(cs: Seq<Constraint>, total: int, k: int)
    requires
        total >= 0,
        0 <= k <= cs.len(),
    ensures
        0 <= seq_sum(solution(cs, total).take(k)) <= seq_sum(solution(cs, total)) <= total,
    decreases cs.len() - k,
{
    lemma_solution_sum(cs, total);
    let sol = solution(cs, total);
    if k == cs.len() {
        assert(sol.take(k) =~= sol);
        lemma_prefix_nonneg(sol, k);
    } else {
        lemma_prefix_within_total(cs, total, k + 1);
        assert(sol.take(k + 1).drop_last() =~= sol.take(k));
        assert(sol[k] >= 0);
        lemma_prefix_nonneg(sol, k);
    }
}

proof fn lemma_prefix_nonneg(s: Seq<int>, k: int)
    requires
        0 <= k <= s.len(),
        forall|i: int| 0 <= i < s.len() ==> s[i] >= 0,
    ensures
        seq_sum(s.take(k)) >= 0,
    decreases k,
{
    if k > 0 {
        lemma_prefix_nonneg(s, k - 1);
        assert(s.take(k).drop_last() =~= s.take(k - 1));
    }
}

/// Fill constraints share the space equally: any two get sizes that differ by at
/// most one, and an earlier one never gets less than a later one.
pub proof fn lemma_fill_shares_equal(cs: Seq<Constraint>, total: int, i: int, j: int)
    requires
        total >= 0,
        0 <= i < j < cs.len(),
        cs[i] is Fill,
        cs[j] is Fill,
    ensures
        solved(cs, total, j) <= solved(cs, total, i) <= solved(cs, total, j) + 1,
{
    lemma_fill_count_monotone(cs, i + 1, j);
    lemma_take_step(cs, i);
}

/// The sizes `Fixed` constraints ask for (zero for the others).
pub open spec fn requests(cs: Seq<Constraint>) -> Seq<int> {
    cs.map_values(|c: Constraint| match c {
        Constraint::Fixed(n) => n as int,
        _ => 0int,
    })
}

proof fn lemma_nonneg_prefix_le(s: Seq<int>, k: int)
    requires
        0 <= k <= s.len(),
        forall|i: int| 0 <= i < s.len() ==> s[i] >= 0,
    ensures
        seq_sum(s.take(k)) <= seq_sum(s),
    decreases s.len() - k,
{
    if k < s.len() {
        lemma_nonneg_prefix_le(s, k + 1);
        lemma_take_step(s, k);
    } else {
        assert(s.take(k) =~= s);
    }
}

proof fn lemma_fixed_used(cs: Seq<Constraint>, total: int, k: int)
    requires
        0 <= k <= cs.len(),
        forall|i: int| 0 <= i < cs.len() ==> cs[i] is Fixed,
        seq_sum(requests(cs)) <= total,
    ensures
        used_by(cs.take(k), total) == seq_sum(requests(cs).take(k)),
    decreases k,
{
    let req = requests(cs);
    if k == 0 {
        assert(cs.take(0) =~= Seq::<Constraint>::empty());
        assert(req.take(0) =~= Seq::<int>::empty());
    } else {
        lemma_fixed_used(cs, total, k - 1);
        lemma_take_step(cs, k - 1);
        lemma_take_step(req, k - 1);
        lemma_nonneg_prefix_le(req, k);
    }
}

/// When every constraint is `Fixed` and the requests add up to no more than
/// `total`, each constraint gets exactly the size it asks for.
pub proof fn lemma_fixed_requests_met(cs: Seq<Constraint>, total: int, i: int)
    requires
        0 <= i < cs.len(),
        forall|j: int| 0 <= j < cs.len() ==> cs[j] is Fixed,
        seq_sum(requests(cs)) <= total,
    ensures
        solved(cs, total, i) == cs[i]->Fixed_0,
{
    let req = requests(cs);
    lemma_fixed_used(cs, total, i);
    lemma_take_step(req, i);
    lemma_nonneg_prefix_le(req, i + 1);
}

/// A lone `Ratio(num, den)` with `0 < den` and `num <= den` gets `total * num / den`,
/// its share rounded down.
pub proof fn lemma_ratio_share(num: u16, den: u16, total: int)
    requires
        0 < den,
        num <= den,
        total >= 0,
    ensures
        solved(seq![Constraint::Ratio(num, den)], total, 0) == total * num / (den as int),
{
    let cs = seq![Constraint::Ratio(num, den)];
    assert(cs.take(0) =~= Seq::<Constraint>::empty());
    assert(total * num / (den as int) <= total) by (nonlinear_arith)
        requires
            0 < den,
            num <= den,
            total >= 0,
    ;
}

/// Allocates `total` units across `constraints`. Returns one length per constraint.
pub fn solve(constraints: &[Constraint], total: u16) -> (sizes: Vec<u16>)
    ensures
        sizes@.len() == constraints@.len(),
        forall|i: int|
            0 <= i < constraints@.len() ==> sizes@[i] as int == #[trigger] solved(
                constraints@,
                total as int,
                i,
            ),
{
    let ghost cs = constraints@;
    let n = constraints.len();
    let mut sizes: Vec<u16> = Vec::new();
    let mut used: u16 = 0;
    let mut fills: usize = 0;
    let mut i: usize = 0;
    while i < n
        invariant
            n == cs.len(),
            cs == constraints@,
            i <= n,
            sizes@.len() == i,
            used as int == used_by(cs.take(i as int), total as int),
            fills as int == fill_count(cs.take(i as int)),
            forall|k: int|
                0 <= k < i ==> sizes@[k] as int == (if cs[k] is Fill {
                    0
                } else {
                    first_alloc(cs[k], total as int, used_by(cs.take(k), total as int))
                }),
        decreases n - i,
    {
        proof {
            lemma_take_step(cs, i as int);
            lemma_used_bounded(cs.take(i as int), total as int);
            lemma_fill_count_bounds(cs.take(i as int));
        }
        let remaining = total - used;
        match constraints[i] {
            Constraint::Fixed(want) => {
                let alloc = if want < remaining {
                    want
                } else {
                    remaining
                };
                sizes.push(alloc);
                used = used + alloc;
            },
            Constraint::Ratio(num, den) => {
                let alloc: u16 = if den == 0 {
                    0
                } else {
                    proof {
                        assert((total as int) * (num as int) <= 0xffff * 0xffff) by (nonlinear_arith)
                            requires
                                total <= 0xffff,
                                num <= 0xffff,
                        ;
                    }
                    let share: u32 = (total as u32) * (num as u32) / (den as u32);
                    if share < remaining as u32 {
                        share as u16
                    } else {
                        remaining
                    }
                };
                proof {
                    if den != 0 {
                        lemma_ratio_share_nonneg(total as int, num as int, den as int);
                    }
                }
                sizes.push(alloc);
                used = used + alloc;
            },
            Constraint::Fill => {
                sizes.push(0);
                fills = fills + 1;
            },
        }
        i = i + 1;
    }
    proof {
        assert(cs.take(n as int) =~= cs);
        lemma_used_bounded(cs, total as int);
    }
    if fills > 0 {
        let remaining: u16 = total - used;
        let per_fill: u16 = ((remaining as usize) / fills) as u16;
        let extra0: usize = (remaining as usize) % fills;
        let mut extra: usize = extra0;
        let ghost first = sizes@;
        proof {
            assert(per_fill as int == (remaining as int) / (fills as int)) by (nonlinear_arith)
                requires
                    fills > 0,
                    remaining >= 0,
                    ((remaining as usize) / fills) as u16 == per_fill,
                    (remaining as int) / (fills as int) <= remaining,
            {
            }
            assert((remaining as int) / (fills as int) <= remaining) by (nonlinear_arith)
                requires
                    fills > 0,
                    remaining >= 0,
            ;
            assert(per_fill as int * fills as int + extra0 == remaining as int && extra0
                < fills) by (nonlinear_arith)
                requires
                    fills > 0,
                    per_fill as int == (remaining as int) / (fills as int),
                    extra0 as int == (remaining as int) % (fills as int),
            ;
        }
        let mut j: usize = 0;
        while j < n
            invariant
                n == cs.len(),
                cs == constraints@,
                j <= n,
                sizes@.len() == n,
                fills as int == fill_count(cs),
                fills > 0,
                used as int == used_by(cs, total as int),
                remaining as int == total - used,
                per_fill as int == (remaining as int) / (fills as int),
                extra0 as int == (remaining as int) % (fills as int),
                per_fill as int * fills as int + extra0 == remaining as int,
                extra0 < fills,
                extra as int == if fill_count(cs.take(j as int)) < extra0 {
                    extra0 - fill_count(cs.take(j as int))
                } else {
                    0
                },
                forall|k: int| 0 <= k < n ==> first[k] as int == (if cs[k] is Fill {
                    0
                } else {
                    first_alloc(cs[k], total as int, used_by(cs.take(k), total as int))
                }),
                forall|k: int| j <= k < n ==> sizes@[k] == first[k],
                forall|k: int| 0 <= k < j ==> sizes@[k] as int == solved(cs, total as int, k),
            decreases n - j,
        {
            proof {
                lemma_take_step(cs, j as int);
                lemma_fill_count_monotone(cs, j as int, n as int);
                lemma_fill_count_monotone(cs, j as int + 1, n as int);
                assert(cs.take(n as int) =~= cs);
            }
            proof {
                lemma_fill_count_step(cs, j as int);
                lemma_fill_count_bounds(cs.take(j as int));
            }
            if let Constraint::Fill = constraints[j] {
                let bonus: u16 = if extra > 0 {
                    1
                } else {
                    0
                };
                proof {
                    assert(per_fill as int + bonus <= remaining) by (nonlinear_arith)
                        requires
                            per_fill as int * fills as int + extra0 == remaining as int,
                            fills >= 1,
                            per_fill >= 0,
                            bonus == 1 ==> extra0 >= 1,
                            bonus <= 1,
                    ;
                }
                assert(per_fill + bonus == solved(cs, total as int, j as int));
                sizes.set(j, per_fill + bonus);
                if extra > 0 {
                    extra = extra - 1;
                }
            } else {
                assert(sizes@[j as int] == first[j as int]);
                assert(sizes@[j as int] as int == solved(cs, total as int, j as int));
            }
            j = j + 1;
        }
    } else {
        proof {
            assert forall|k: int| 0 <= k < n implies !(cs[k] is Fill) by {
                if cs[k] is Fill {
                    lemma_fill_at(cs, k);
                }
            }
        }
    }
    sizes
}

} // verus!
