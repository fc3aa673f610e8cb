//! A portfolio: its positions in declared order, total value, allocation
//! by asset class, and historic valuation from per-ticker answers.

use vstd::prelude::*;
use vstd::math::abs;
use crate::fixed::{SCALE, percent_of, floor_div};
use crate::position::{PortfolioPosition, MAX_LOTS, max_balance, lemma_balance_bound};

verus! {

/// Most positions one portfolio may hold. With balances below about 10^27,
/// a total stays below about 5 * 10^29, so a difference of two totals times
/// one hundred percent (10^8 units) stays below 10^38, within `i128`
/// (1.7 * 10^38); the sum of per-position shares is bounded the same way.
pub const MAX_POSITIONS: usize = 500;

pub open spec fn positions_wf(ps: Seq<PortfolioPosition>) -> bool {
    &&& ps.len() <= MAX_POSITIONS
    &&& forall|i: int| 0 <= i < ps.len() ==> (#[trigger] ps[i]).wf()
}

/// Sum of the balances.
pub open spec fn total_of(ps: Seq<PortfolioPosition>) -> int
    decreases ps.len(),
{
    if ps.len() == 0 {
        0
    } else {
        total_of(ps.drop_last()) + ps.last().balance()
    }
}

/// One position's share of the total, in percent, rounded down; no share
/// of a zero total.
pub open spec fn share_of(balance: int, total: int) -> int {
    if total > 0 {
        percent_of(balance, total)
    } else if total < 0 {
        percent_of(-balance, -total)
    } else {
        0
    }
}

/// Sum of all per-position shares.
#[verifier::opaque]
pub open spec fn shares_sum(ps: Seq<PortfolioPosition>, total: int) -> int
    decreases ps.len(),
{
    if ps.len() == 0 {
        0
    } else {
        shares_sum(ps.drop_last(), total) + share_of(ps.last().balance(), total)
    }
}

/// Largest magnitude of a portfolio's total value.
pub open spec fn max_total() -> int {
    MAX_POSITIONS * max_balance()
}

proof fn lemma_prefix_step(ps: Seq<PortfolioPosition>, i: int, total: int)
    requires
        0 <= i < ps.len(),
    ensures
        total_of(ps.subrange(0, i + 1)) == total_of(ps.subrange(0, i)) + ps[i].balance(),
        shares_sum(ps.subrange(0, i + 1), total) == shares_sum(ps.subrange(0, i), total) + share_of(ps[i].balance(), total),
{
    reveal(shares_sum);
    assert(ps.subrange(0, i + 1).drop_last() =~= ps.subrange(0, i));
}

proof fn lemma_total_bound(ps: Seq<PortfolioPosition>)
    requires
        forall|i: int| 0 <= i < ps.len() ==> (#[trigger] ps[i]).wf(),
    ensures
        -(ps.len() * max_balance()) <= total_of(ps) <= ps.len() * max_balance(),
    decreases ps.len(),
{
    if ps.len() > 0 {
        let t = ps.drop_last();
        assert(forall|i: int| 0 <= i < t.len() ==> t[i] == ps[i]);
        lemma_total_bound(t);
        assert(ps.last() == ps[ps.len() - 1]);
        lemma_balance_bound(ps.last());
        let n = t.len() as int;
        let m = max_balance();
        assert(ps.len() * m == n * m + m) by (nonlinear_arith)
            requires ps.len() == n + 1;
    }
}

proof fn lemma_prefix_total_bound(ps: Seq<PortfolioPosition>, i: int)
    requires
        positions_wf(ps),
        0 <= i <= ps.len(),
    ensures
        -max_total() <= total_of(ps.subrange(0, i)) <= max_total(),
{
    let t = ps.subrange(0, i);
    assert(forall|j: int| 0 <= j < t.len() ==> t[j] == ps[j]);
    lemma_total_bound(t);
    let n = t.len() as int;
    let m = max_balance();
    assert(n * m <= MAX_POSITIONS * m) by (nonlinear_arith)
        requires 0 <= n <= MAX_POSITIONS, m > 0;
}

/// Largest magnitude of one share, for a positive total.
pub open spec fn max_share() -> int {
    max_balance() * 100 * SCALE
}

/// Dividing by a positive divisor does not move a value away from zero.
proof fn lemma_div_toward_zero(x: int, d: int)
    requires
        d >= 1,
    ensures
        x >= 0 ==> 0 <= x / d <= x,
        x < 0 ==> x <= x / d < 0,
{
    vstd::arithmetic::div_mod::lemma_fundamental_div_mod(x, d);
    let q = x / d;
    let r = x % d;
    assert(x == d * q + r);
    assert(0 <= r < d);
    if x >= 0 {
        assert(0 <= q <= x) by (nonlinear_arith)
            requires x == d * q + r, 0 <= r < d, d >= 1, x >= 0;
    } else {
        assert(x <= q < 0) by (nonlinear_arith)
            requires x == d * q + r, 0 <= r < d, d >= 1, x < 0;
    }
}

proof fn lemma_share_bound(b: int, total: int)
    requires
        -max_balance() <= b <= max_balance(),
    ensures
        -max_share() <= share_of(b, total) <= max_share(),
{
    if total > 0 {
        let mb = max_balance();
        let k = 100 * SCALE as int;
        assert(k == 100_000_000);
        let x = b * 100 * SCALE;
        assert(x == b * k);
        assert(-(mb * k) <= b * k <= mb * k) by (nonlinear_arith)
            requires -mb <= b <= mb, k == 100_000_000;
        assert(max_share() == mb * k);
        lemma_div_toward_zero(x, total);
    } else if total < 0 {
        let mb = max_balance();
        let k = 100 * SCALE as int;
        assert(k == 100_000_000);
        let x = (-b) * 100 * SCALE;
        assert(x == (-b) * k);
        assert(-(mb * k) <= (-b) * k <= mb * k) by (nonlinear_arith)
            requires -mb <= b <= mb, k == 100_000_000;
        assert(max_share() == mb * k);
        lemma_div_toward_zero(x, -total);
    }
}

/// `a` before `b` in balance order: larger balance first, and for equal
/// balances the one declared earlier (`ia`, `ib` are declared positions).
pub open spec fn ordered_pair(a: PortfolioPosition, b: PortfolioPosition, ia: int, ib: int) -> bool {
    a.balance() > b.balance() || (a.balance() == b.balance() && ia < ib)
}

/// `after` is `before` reordered by `perm` (after[k] == before[perm[k]]),
/// by descending balance, equal balances in their former order.
pub open spec fn stable_reorder(before: Seq<PortfolioPosition>, after: Seq<PortfolioPosition>, perm: Seq<int>) -> bool {
    &&& perm.len() == before.len() == after.len()
    &&& forall|k: int| 0 <= k < perm.len() ==> 0 <= #[trigger] perm[k] < perm.len()
    &&& forall|a: int, b: int| 0 <= a < b < perm.len() ==> #[trigger] perm[a] != #[trigger] perm[b]
    &&& forall|k: int| 0 <= k < after.len() ==> after[k] == before[#[trigger] perm[k]]
    &&& forall|a: int, b: int| 0 <= a < b < after.len() ==> ordered_pair(#[trigger] after[a], #[trigger] after[b], perm[a], perm[b])
}

/// A portfolio in declared order.
pub struct Portfolio {
    pub positions: Vec<PortfolioPosition>,
}

impl Portfolio {
    pub open spec fn wf(&self) -> bool {
        positions_wf(self.positions@)
    }

    pub fn new() -> (r: Portfolio)
        ensures
            r.wf(),
            r.positions@.len() == 0,
    {
        Portfolio { positions: Vec::new() }
    }

    /// Appends a position, keeping declared order.
    pub fn add_position(&mut self, position: PortfolioPosition)
        requires
            old(self).wf(),
            position.wf(),
            old(self).positions@.len() < MAX_POSITIONS,
        ensures
            final(self).wf(),
            final(self).positions@ == old(self).positions@.push(position),
    {
        self.positions.push(position);
    }

    /// Orders positions by balance, largest first; positions of equal
    /// balance keep their order.
    pub fn sort_positions_by_value_desc(&mut self)
        requires
            old(self).wf(),
        ensures
            final(self).wf(),
            final(self).positions@.to_multiset() == old(self).positions@.to_multiset(),
            forall|a: int, b: int| 0 <= a < b < final(self).positions@.len() ==>
                (#[trigger] final(self).positions@[a]).balance() >= (#[trigger] final(self).positions@[b]).balance(),
            exists|perm: Seq<int>| #[trigger] stable_reorder(old(self).positions@, final(self).positions@, perm),
    {
        let n = self.positions.len();
        let ghost orig = self.positions@;
        let ghost mut perm: Seq<int> = Seq::new(n as nat, |k: int| k);
        if n == 0 {
            assert(stable_reorder(orig, self.positions@, perm));
            return;
        }
        let mut i: usize = 1;
        while i < n
            invariant
                1 <= i <= n,
                n == self.positions@.len(),
                orig == old(self).positions@,
                self.wf(),
                self.positions@.to_multiset() == orig.to_multiset(),
                perm.len() == n,
                forall|k: int| 0 <= k < n ==> self.positions@[k] == orig[#[trigger] perm[k]],
                forall|k: int| 0 <= k < i ==> 0 <= #[trigger] perm[k] < i,
                forall|k: int| i <= k < n ==> #[trigger] perm[k] == k,
                forall|a: int, b: int| 0 <= a < b < n ==> #[trigger] perm[a] != #[trigger] perm[b],
                forall|a: int, b: int| 0 <= a < b < i ==> ordered_pair(
                    #[trigger] self.positions@[a], #[trigger] self.positions@[b], perm[a], perm[b]),
            decreases n - i,
        {
            let ghost before = self.positions@;
            let ghost pbefore = perm;
            let x = self.positions.remove(i);
            assert(x == before[i as int]);
            assert(self.positions@ =~= before.remove(i as int));
            let xb = x.get_balance();
            let mut j: usize = 0;
            while j < i && self.positions[j].get_balance() >= xb
                invariant
                    0 <= j <= i,
                    i < n,
                    before.len() == n,
                    self.positions@ == before.remove(i as int),
                    self.positions@.len() == n - 1,
                    forall|k: int| 0 <= k < self.positions@.len() ==> (#[trigger] self.positions@[k]).wf(),
                    forall|a: int| 0 <= a < j ==> (#[trigger] self.positions@[a]).balance() >= xb,
                decreases i - j,
            {
                j = j + 1;
            }
            let ghost mid = self.positions@;
            proof {
                assert(forall|k: int| 0 <= k < i ==> mid[k] == before[k]);
                vstd::seq_lib::to_multiset_remove(before, i as int);
            }
            self.positions.insert(j, x);
            proof {
                perm = pbefore.remove(i as int).insert(j as int, i as int);
                let v = self.positions@;
                vstd::seq_lib::to_multiset_insert(mid, j as int, x);
                assert(v == mid.insert(j as int, x));
                broadcast use vstd::seq_lib::group_to_multiset_ensures;
                assert(before.contains(x));
                assert(v.to_multiset() =~= before.to_multiset());
                assert forall|k: int| 0 <= k < n implies v[k] == orig[#[trigger] perm[k]] by {
                    if k < j {
                        assert(v[k] == before[k] && perm[k] == pbefore[k]);
                    } else if k == j {
                        assert(pbefore[i as int] == i);
                    } else if k <= i {
                        assert(v[k] == before[k - 1] && perm[k] == pbefore[k - 1]);
                    } else {
                        assert(v[k] == before[k] && perm[k] == pbefore[k]);
                    }
                }
                assert forall|k: int| 0 <= k < i + 1 implies 0 <= #[trigger] perm[k] < i + 1 by {
                    if k < j {
                        assert(perm[k] == pbefore[k]);
                    } else if k > j {
                        assert(perm[k] == pbefore[k - 1]);
                    }
                }
                assert forall|k: int| i + 1 <= k < n implies #[trigger] perm[k] == k by {
                    assert(perm[k] == pbefore[k]);
                }
                assert forall|a: int, b: int| 0 <= a < b < n implies #[trigger] perm[a] != #[trigger] perm[b] by {
                    let pa = if a < j { a } else if a == j { i as int } else if a <= i { a - 1 } else { a };
                    let pb = if b < j { b } else if b == j { i as int } else if b <= i { b - 1 } else { b };
                    assert(perm[a] == pbefore[pa]);
                    assert(perm[b] == pbefore[pb]);
                    assert(pa != pb);
                }
                assert forall|a: int, b: int| 0 <= a < b < i + 1 implies ordered_pair(
                    #[trigger] v[a], #[trigger] v[b], perm[a], perm[b]) by {
                    if b < j {
                        assert(v[a] == before[a] && v[b] == before[b]);
                        assert(perm[a] == pbefore[a] && perm[b] == pbefore[b]);
                    } else if b == j {
                        assert(v[a] == mid[a] && mid[a] == before[a]);
                        assert(perm[a] == pbefore[a]);
                        assert(0 <= pbefore[a] < i);
                    } else if a == j {
                        assert(v[b] == mid[b - 1]);
                        assert(mid[b - 1] == before[b - 1]);
                        assert(perm[b] == pbefore[b - 1]);
                        assert(mid[j as int].balance() < xb);
                        assert(mid[j as int] == before[j as int]);
                        if j as int != b - 1 {
                            assert(ordered_pair(before[j as int], before[b - 1], pbefore[j as int], pbefore[b - 1]));
                        }
                    } else if a < j {
                        assert(v[a] == before[a] && perm[a] == pbefore[a]);
                        assert(v[b] == before[b - 1] && perm[b] == pbefore[b - 1]);
                    } else {
                        assert(v[a] == before[a - 1] && perm[a] == pbefore[a - 1]);
                        assert(v[b] == before[b - 1] && perm[b] == pbefore[b - 1]);
                    }
                }
                assert forall|k: int| 0 <= k < v.len() implies (#[trigger] v[k]).wf() by {
                    if k < j {
                        assert(v[k] == mid[k]);
                    } else if k > j {
                        assert(v[k] == mid[k - 1]);
                    }
                }
            }
            i = i + 1;
        }
        proof {
            assert(stable_reorder(orig, self.positions@, perm));
        }
    }

    /// Sum of the balances of all positions.
    pub fn get_total_value(&self) -> (r: i128)
        requires
            self.wf(),
        ensures
            r == total_of(self.positions@),
            -max_total() <= r <= max_total(),
    {
        let mut sum: i128 = 0;
        let mut i: usize = 0;
        while i < self.positions.len()
            invariant
                self.wf(),
                0 <= i <= self.positions@.len(),
                sum == total_of(self.positions@.subrange(0, i as int)),
            decreases self.positions@.len() - i,
        {
            proof {
                lemma_prefix_step(self.positions@, i as int, 0);
                lemma_prefix_total_bound(self.positions@, i as int + 1);
            }
            sum = sum + self.positions[i].get_balance();
            i = i + 1;
        }
        assert(self.positions@.subrange(0, i as int) =~= self.positions@);
        proof {
            lemma_prefix_total_bound(self.positions@, i as int);
        }
        sum
    }

    /// Percentage of the total held by each asset class, classes in order
    /// of first appearance. Each position's percentage is computed on its
    /// own and the percentages of one class are summed; classes merge on
    /// exact name.
    pub fn get_allocation(&self) -> (r: Vec<(String, i128)>)
        requires
            self.wf(),
        ensures
            alloc_view(r@) == allocation_of(self.positions@, total_of(self.positions@)),
    {
        let total = self.get_total_value();
        let ghost ps = self.positions@;
        let mut acc: Vec<(String, i128)> = Vec::new();
        let mut i: usize = 0;
        proof {
            assert(ps.subrange(0, 0) =~= Seq::<PortfolioPosition>::empty());
            assert(alloc_view(acc@) =~= allocation_of(ps.subrange(0, 0), total as int));
        }
        while i < self.positions.len()
            invariant
                self.wf(),
                ps == self.positions@,
                total == total_of(ps),
                -max_total() <= total <= max_total(),
                0 <= i <= ps.len(),
                alloc_view(acc@) == allocation_of(ps.subrange(0, i as int), total as int),
            decreases ps.len() - i,
        {
            let p = &self.positions[i];
            let balance = p.get_balance();
            proof {
                lemma_balance_bound(*p);
                lemma_share_bound(balance as int, total as int);
                lemma_allocation_bound(ps.subrange(0, i as int), total as int);
                assert(ps.subrange(0, i as int + 1).drop_last() =~= ps.subrange(0, i as int));
                let n = i as int;
                let m = max_share();
                assert((n + 1) * m <= MAX_POSITIONS * m) by (nonlinear_arith)
                    requires n + 1 <= MAX_POSITIONS, m >= 0;
                assert(n * m + m == (n + 1) * m) by (nonlinear_arith);
            }
            let share: i128 = if total > 0 {
                proof {
                    let mb = max_balance();
                    assert(-(mb * 100_000_000) <= balance * 100_000_000 <= mb * 100_000_000) by (nonlinear_arith)
                        requires -mb <= balance <= mb;
                }
                floor_div(balance * 100 * SCALE as i128, total)
            } else if total < 0 {
                proof {
                    assert(max_total() < 1_000_000_000_000_000_000_000_000_000_000);
                    let mb = max_balance();
                    assert(-(mb * 100_000_000) <= balance * 100_000_000 <= mb * 100_000_000) by (nonlinear_arith)
                        requires -mb <= balance <= mb;
                }
                floor_div(-(balance * 100 * SCALE as i128), -total)
            } else {
                0
            };
            proof {
                let n = i as int;
                let m = max_share();
                assert forall|a: int| 0 <= a < acc@.len() implies i128::MIN <= (#[trigger] acc@[a]).1 + share <= i128::MAX by {
                    assert(alloc_view(acc@)[a].1 == acc@[a].1);
                    assert(-(n * m) <= alloc_view(acc@)[a].1 <= n * m);
                    assert(max_share() < 200_000_000_000_000_000_000_000_000_000_000_000);
                }
            }
            add_share(&mut acc, &p.asset_class, share);
            i = i + 1;
        }
        assert(ps.subrange(0, i as int) =~= ps);
        acc
    }
}

/// An allocation as classes and percentages.
pub open spec fn alloc_view(s: Seq<(String, i128)>) -> Seq<(Seq<char>, int)> {
    s.map_values(|e: (String, i128)| (e.0@, e.1 as int))
}

/// `x` added to the entry of class `c`, or a new last entry for it.
pub open spec fn add_to(s: Seq<(Seq<char>, int)>, c: Seq<char>, x: int) -> Seq<(Seq<char>, int)>
    decreases s.len(),
{
    if s.len() == 0 {
        seq![(c, x)]
    } else if s[0].0 == c {
        s.update(0, (c, s[0].1 + x))
    } else {
        seq![s[0]] + add_to(s.drop_first(), c, x)
    }
}

/// Allocation of the positions against `total`: each position's share
/// added to its class, in order.
pub open spec fn allocation_of(ps: Seq<PortfolioPosition>, total: int) -> Seq<(Seq<char>, int)>
    decreases ps.len(),
{
    if ps.len() == 0 {
        Seq::empty()
    } else {
        add_to(allocation_of(ps.drop_last(), total), ps.last().asset_class@, share_of(ps.last().balance(), total))
    }
}

/// Sum of the percentages of an allocation.
pub open spec fn alloc_sum(s: Seq<(Seq<char>, int)>) -> int
    decreases s.len(),
{
    if s.len() == 0 {
        0
    } else {
        s[0].1 + alloc_sum(s.drop_first())
    }
}

proof fn lemma_add_to_found(s: Seq<(Seq<char>, int)>, c: Seq<char>, x: int, j: int)
    requires
        0 <= j < s.len(),
        s[j].0 == c,
        forall|a: int| 0 <= a < j ==> (#[trigger] s[a]).0 != c,
    ensures
        add_to(s, c, x) == s.update(j, (c, s[j].1 + x)),
    decreases s.len(),
{
    if j > 0 {
        let t = s.drop_first();
        assert forall|a: int| 0 <= a < j - 1 implies (#[trigger] t[a]).0 != c by {
            assert(t[a] == s[a + 1]);
        }
        lemma_add_to_found(t, c, x, j - 1);
        assert(seq![s[0]] + t.update(j - 1, (c, s[j].1 + x)) =~= s.update(j, (c, s[j].1 + x)));
    }
}

proof fn lemma_add_to_absent(s: Seq<(Seq<char>, int)>, c: Seq<char>, x: int)
    requires
        forall|a: int| 0 <= a < s.len() ==> (#[trigger] s[a]).0 != c,
    ensures
        add_to(s, c, x) == s.push((c, x)),
    decreases s.len(),
{
    if s.len() > 0 {
        let t = s.drop_first();
        assert forall|a: int| 0 <= a < t.len() implies (#[trigger] t[a]).0 != c by {
            assert(t[a] == s[a + 1]);
        }
        lemma_add_to_absent(t, c, x);
        assert(seq![s[0]] + t.push((c, x)) =~= s.push((c, x)));
    } else {
        assert(seq![(c, x)] =~= s.push((c, x)));
    }
}

proof fn lemma_add_to_sum(s: Seq<(Seq<char>, int)>, c: Seq<char>, x: int)
    ensures
        alloc_sum(add_to(s, c, x)) == alloc_sum(s) + x,
    decreases s.len(),
{
    if s.len() == 0 {
        let u = seq![(c, x)];
        assert(u.drop_first() =~= Seq::<(Seq<char>, int)>::empty());
        assert(alloc_sum(u) == u[0].1 + alloc_sum(u.drop_first()));
        assert(alloc_sum(u.drop_first()) == 0);
    } else if s[0].0 == c {
        let u = s.update(0, (c, s[0].1 + x));
        assert(u.drop_first() =~= s.drop_first());
        assert(alloc_sum(u) == u[0].1 + alloc_sum(u.drop_first()));
    } else {
        lemma_add_to_sum(s.drop_first(), c, x);
        let u = seq![s[0]] + add_to(s.drop_first(), c, x);
        assert(u.drop_first() =~= add_to(s.drop_first(), c, x));
        assert(u[0] == s[0]);
        assert(alloc_sum(u) == u[0].1 + alloc_sum(u.drop_first()));
    }
}

proof fn lemma_add_to_bound(s: Seq<(Seq<char>, int)>, c: Seq<char>, x: int, b: int)
    requires
        forall|a: int| 0 <= a < s.len() ==> -b <= (#[trigger] s[a]).1 <= b,
        b >= 0,
    ensures
        forall|a: int| 0 <= a < add_to(s, c, x).len() ==> -(b + abs(x)) <= (#[trigger] add_to(s, c, x)[a]).1 <= b + abs(x),
    decreases s.len(),
{
    if s.len() > 0 && s[0].0 != c {
        let t = s.drop_first();
        assert forall|a: int| 0 <= a < t.len() implies -b <= (#[trigger] t[a]).1 <= b by {
            assert(t[a] == s[a + 1]);
        }
        lemma_add_to_bound(t, c, x, b);
        let u = add_to(s, c, x);
        assert forall|a: int| 0 <= a < u.len() implies -(b + abs(x)) <= (#[trigger] u[a]).1 <= b + abs(x) by {
            if a > 0 {
                assert(u[a] == add_to(t, c, x)[a - 1]);
            }
        }
    }
}

/// Every percentage built from `n` positions is within `n` shares of zero.
proof fn lemma_allocation_bound(ps: Seq<PortfolioPosition>, total: int)
    requires
        forall|i: int| 0 <= i < ps.len() ==> (#[trigger] ps[i]).wf(),
    ensures
        forall|a: int| 0 <= a < allocation_of(ps, total).len() ==>
            -(ps.len() * max_share()) <= (#[trigger] allocation_of(ps, total)[a]).1 <= ps.len() * max_share(),
    decreases ps.len(),
{
    if ps.len() > 0 {
        let t = ps.drop_last();
        assert(forall|i: int| 0 <= i < t.len() ==> t[i] == ps[i]);
        lemma_allocation_bound(t, total);
        assert(ps.last() == ps[ps.len() - 1]);
        lemma_balance_bound(ps.last());
        lemma_share_bound(ps.last().balance(), total);
        let n = t.len() as int;
        let m = max_share();
        assert(n * m >= 0) by (nonlinear_arith) requires n >= 0, m >= 0;
        assert(n * m + m == ps.len() * m) by (nonlinear_arith) requires ps.len() == n + 1;
        lemma_add_to_bound(allocation_of(t, total), ps.last().asset_class@, share_of(ps.last().balance(), total), n * m);
    }
}

proof fn lemma_alloc_sum_is_shares(ps: Seq<PortfolioPosition>, total: int)
    ensures
        alloc_sum(allocation_of(ps, total)) == shares_sum(ps, total),
    decreases ps.len(),
{
    reveal(shares_sum);
    if ps.len() > 0 {
        lemma_alloc_sum_is_shares(ps.drop_last(), total);
        lemma_add_to_sum(allocation_of(ps.drop_last(), total), ps.last().asset_class@, share_of(ps.last().balance(), total));
    } else {
        assert(alloc_sum(Seq::<(Seq<char>, int)>::empty()) == 0);
    }
}

/// Rounding each share down loses less than one unit per position.
proof fn lemma_shares_rounding(ps: Seq<PortfolioPosition>, total: int)
    requires
        total > 0,
    ensures
        shares_sum(ps, total) * total <= total_of(ps) * (100 * SCALE),
        shares_sum(ps, total) * total >= total_of(ps) * (100 * SCALE) - ps.len() * total,
        ps.len() > 0 ==> shares_sum(ps, total) * total > total_of(ps) * (100 * SCALE) - ps.len() * total,
    decreases ps.len(),
{
    reveal(shares_sum);
    if ps.len() > 0 {
        let t = ps.drop_last();
        lemma_shares_rounding(t, total);
        let k = 100 * SCALE as int;
        let b = ps.last().balance();
        let x = b * k;
        vstd::arithmetic::div_mod::lemma_fundamental_div_mod(x, total);
        let q = x / total;
        assert(q == share_of(b, total));
        let r = x % total;
        assert(x == total * q + r && 0 <= r < total);
        let s0 = shares_sum(t, total);
        let v0 = total_of(t);
        let n = t.len() as int;
        assert((s0 + q) * total <= (v0 + b) * k && (s0 + q) * total > (v0 + b) * k - (n + 1) * total) by (nonlinear_arith)
            requires s0 * total <= v0 * k, s0 * total >= v0 * k - n * total, x == b * k, x == total * q + r, 0 <= r < total;
    }
}

/// The percentages of the allocation of a portfolio with positive value add
/// up to one hundred percent, less under one unit of rounding per position.
pub proof fn lemma_allocation_sums_to_whole(ps: Seq<PortfolioPosition>)
    requires
        total_of(ps) > 0,
    ensures
        100 * SCALE - ps.len() < alloc_sum(allocation_of(ps, total_of(ps))) <= 100 * SCALE,
{
    if ps.len() == 0 {
        assert(total_of(ps) == 0);
    }
    let t = total_of(ps);
    lemma_alloc_sum_is_shares(ps, t);
    lemma_shares_rounding(ps, t);
    let s = shares_sum(ps, t);
    let k = 100 * SCALE as int;
    let n = ps.len() as int;
    assert(s <= k) by (nonlinear_arith)
        requires s * t <= t * k, t > 0;
    assert(s > k - n) by (nonlinear_arith)
        requires s * t > t * k - n * t, t > 0;
}

/// Adds `share` to the entry of `class`, or appends an entry for it.
fn add_share(acc: &mut Vec<(String, i128)>, class: &String, share: i128)
    requires
        forall|a: int| 0 <= a < old(acc)@.len() ==> i128::MIN <= (#[trigger] old(acc)@[a]).1 + share <= i128::MAX,
    ensures
        alloc_view(final(acc)@) == add_to(alloc_view(old(acc)@), class@, share as int),
{
    let ghost s = alloc_view(acc@);
    let mut j: usize = 0;
    while j < acc.len() && acc[j].0 != *class
        invariant
            0 <= j <= acc@.len(),
            s == alloc_view(acc@),
            forall|a: int| 0 <= a < j ==> (#[trigger] acc@[a]).0@ != class@,
        decreases acc@.len() - j,
    {
        j = j + 1;
    }
    proof {
        assert forall|a: int| 0 <= a < j implies (#[trigger] s[a]).0 != class@ by {
            assert(s[a].0 == acc@[a].0@);
        }
    }
    if j < acc.len() {
        proof {
            lemma_add_to_found(s, class@, share as int, j as int);
        }
        let (name, value) = acc.remove(j);
        acc.insert(j, (name, value + share));
        assert(alloc_view(acc@) =~= s.update(j as int, (class@, s[j as int].1 + share)));
    } else {
        proof {
            lemma_add_to_absent(s, class@, share as int);
        }
        acc.push((class.clone(), share));
        assert(alloc_view(acc@) =~= s.push((class@, share as int)));
    }
}

} // verus!
