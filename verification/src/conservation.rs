//! What a streaming step does to the fluid as a whole: it rearranges the
//! components of the fluid cells, and so it keeps their total.

use vstd::prelude::*;
use vstd::seq_lib::lemma_fold_left_permutation;
use vstd::seq_lib::to_multiset_contains;
use crate::fluid_struct::lemma_slot_number;
use crate::fluid_struct::Deposit;
use crate::fluid_struct::LBFluidSim;
use crate::fluid_struct::Slot;

verus! {

/// Adds the amount of one more slot to a running total.
spec fn add_amount(amounts: spec_fn(Slot) -> int) -> spec_fn(int, Slot) -> int {
    |sum: int, s: Slot| sum + amounts(s)
}

/// The total of the amounts in the slots of `slots`.
spec fn sum_over(slots: Seq<Slot>, amounts: spec_fn(Slot) -> int) -> int {
    slots.fold_left(0int, add_amount(amounts))
}

impl LBFluidSim {
    /// The slots of fluid cells among the first `n` slots of a sweep, in the
    /// order of the sweep.
    pub open spec fn fluid_slots(&self, n: nat) -> Seq<Slot>
        decreases n,
    {
        if n == 0 {
            Seq::empty()
        } else {
            let s = self.slot_at(n - 1);
            let before = self.fluid_slots((n - 1) as nat);
            if self.fluid_slot(s) {
                before.push(s)
            } else {
                before
            }
        }
    }

    /// The total of the amounts that the fluid cells hold in the first `n`
    /// slots of a sweep.
    pub open spec fn total(&self, amounts: spec_fn(Slot) -> int, n: nat) -> int
        decreases n,
    {
        if n == 0 {
            0
        } else {
            let s = self.slot_at(n - 1);
            self.total(amounts, (n - 1) as nat) + if self.fluid_slot(s) {
                amounts(s)
            } else {
                0
            }
        }
    }

    /// The mass of the fluid: the total of the amounts in all slots of all
    /// fluid cells.
    pub open spec fn mass(&self, amounts: spec_fn(Slot) -> int) -> int {
        self.total(amounts, self.slot_count())
    }

    /// The amounts after a streaming step: each slot holds what its source
    /// held before the step.
    pub open spec fn streamed(&self, amounts: spec_fn(Slot) -> int) -> spec_fn(Slot) -> int {
        |t: Slot| amounts(self.source(t))
    }

    /// The amounts after `steps` streaming steps.
    pub open spec fn streamed_times(&self, amounts: spec_fn(Slot) -> int, steps: nat) -> spec_fn(
        Slot,
    ) -> int
        decreases steps,
    {
        if steps == 0 {
            amounts
        } else {
            self.streamed(self.streamed_times(amounts, (steps - 1) as nat))
        }
    }

    /// Every slot of the grid has a number below the number of slots, and
    /// is the slot with that number.
    pub proof fn lemma_number_of_slot(&self, s: Slot)
        requires
            self.wf(),
            self.in_grid(s.i as int, s.j as int),
            s.q < 9,
        ensures
            0 <= self.number_of(s) < self.slot_count(),
            self.slot_at(self.number_of(s)) == s,
    {
        self.lemma_wf();
        let rows = self.dims().0 as int;
        let cols = self.dims().1 as int;
        lemma_slot_number(s.i as int, s.j as int, s.q as int, cols);
        assert((s.i * cols + s.j) * 9 + s.q < rows * cols * 9) by (nonlinear_arith)
            requires
                0 <= s.i < rows,
                0 <= s.j < cols,
                0 <= s.q < 9,
        ;
    }

    /// Every number below the number of slots is the number of a slot of
    /// the grid.
    pub proof fn lemma_slot_of_number(&self, m: int)
        requires
            self.wf(),
            0 <= m < self.slot_count(),
        ensures
            self.in_grid(self.slot_at(m).i as int, self.slot_at(m).j as int),
            self.slot_at(m).q < 9,
            self.number_of(self.slot_at(m)) == m,
    {
        self.lemma_wf();
        let rows = self.dims().0 as int;
        let cols = self.dims().1 as int;
        let c = m / 9;
        vstd::arithmetic::div_mod::lemma_fundamental_div_mod(m, 9);
        vstd::arithmetic::div_mod::lemma_fundamental_div_mod(c, cols);
        vstd::arithmetic::div_mod::lemma_mod_bound(c, cols);
        let i = c / cols;
        let j = c % cols;
        assert(0 <= c < rows * cols);
        assert(0 <= i < rows) by (nonlinear_arith)
            requires
                c == cols * i + j,
                0 <= j < cols,
                0 <= c < rows * cols,
        ;
        assert(cols * i == i * cols) by (nonlinear_arith);
    }

    proof fn lemma_fluid_slots(&self, n: nat)
        requires
            self.wf(),
            n <= self.slot_count(),
        ensures
            forall|k: int|
                0 <= k < self.fluid_slots(n).len() ==> self.fluid_slot(
                    #[trigger] self.fluid_slots(n)[k],
                ) && 0 <= self.number_of(self.fluid_slots(n)[k]) < n,
            forall|k1: int, k2: int|
                0 <= k1 < k2 < self.fluid_slots(n).len() ==> self.number_of(
                    #[trigger] self.fluid_slots(n)[k1],
                ) < self.number_of(#[trigger] self.fluid_slots(n)[k2]),
            forall|s: Slot|
                self.fluid_slot(s) && self.number_of(s) < n ==> #[trigger] self.fluid_slots(
                    n,
                ).contains(s),
        decreases n,
    {
        if n > 0 {
            let before = self.fluid_slots((n - 1) as nat);
            let now = self.fluid_slots(n);
            let last = self.slot_at(n - 1);
            self.lemma_fluid_slots((n - 1) as nat);
            self.lemma_slot_of_number(n - 1);
            assert forall|s: Slot| self.fluid_slot(s) && self.number_of(s) < n implies now.contains(
                s,
            ) by {
                if self.number_of(s) < n - 1 {
                    assert(before.contains(s));
                    let k = choose|k: int| 0 <= k < before.len() && before[k] == s;
                    assert(now[k] == s);
                } else {
                    self.lemma_number_of_slot(s);
                    assert(s == last);
                    assert(now[now.len() - 1] == s);
                }
            }
        } else {
            assert forall|s: Slot| self.fluid_slot(s) && self.number_of(s) < n implies
                #[trigger] self.fluid_slots(n).contains(s) by {
                self.lemma_number_of_slot(s);
            }
        }
    }

    proof fn lemma_deposits_follow_slots(&self, n: nat)
        ensures
            self.deposits(n).len() == self.fluid_slots(n).len(),
            forall|k: int|
                0 <= k < self.deposits(n).len() ==> #[trigger] self.deposits(n)[k] == (Deposit {
                    from: self.fluid_slots(n)[k],
                    to: self.target(self.fluid_slots(n)[k]),
                }),
        decreases n,
    {
        if n > 0 {
            self.lemma_deposits_follow_slots((n - 1) as nat);
        }
    }

    /// Each move of a streaming step takes from a slot of a fluid cell and
    /// adds to the target of that slot, which is a slot of a fluid cell too:
    /// no move reads or writes an obstacle.
    pub proof fn lemma_stream_moves(&self, k: int)
        requires
            self.wf(),
            0 <= k < self.plan().len(),
        ensures
            self.fluid_slot(self.plan()[k].from),
            self.plan()[k].to == self.target(self.plan()[k].from),
            self.fluid_slot(self.plan()[k].to),
    {
        self.lemma_fluid_slots(self.slot_count());
        self.lemma_deposits_follow_slots(self.slot_count());
        self.lemma_source_of_target(self.fluid_slots(self.slot_count())[k]);
    }

    /// A streaming step takes from the slots of the fluid cells in the order
    /// of the sweep, and from each of them once.
    pub proof fn lemma_stream_order(&self, s: Slot)
        requires
            self.wf(),
            self.fluid_slot(s),
        ensures
            exists|k: int| 0 <= k < self.plan().len() && (#[trigger] self.plan()[k]).from == s,
            forall|k1: int, k2: int|
                0 <= k1 < k2 < self.plan().len() ==> self.number_of(
                    (#[trigger] self.plan()[k1]).from,
                ) < self.number_of((#[trigger] self.plan()[k2]).from),
    {
        let n = self.slot_count();
        let slots = self.fluid_slots(n);
        let plan = self.plan();
        self.lemma_fluid_slots(n);
        self.lemma_deposits_follow_slots(n);
        self.lemma_number_of_slot(s);
        assert(slots.contains(s));
        let k = choose|k: int| 0 <= k < slots.len() && slots[k] == s;
        assert(plan[k].from == s);
        assert forall|k1: int, k2: int| 0 <= k1 < k2 < plan.len() implies self.number_of(
            (#[trigger] plan[k1]).from,
        ) < self.number_of((#[trigger] plan[k2]).from) by {
            assert(self.number_of(slots[k1]) < self.number_of(slots[k2]));
        }
    }

    /// A streaming step fills every slot of a fluid cell exactly once: one
    /// move adds to it, which takes from the slot's source, and no two
    /// moves add to the same slot.
    pub proof fn lemma_stream_fills_each_slot_once(&self, t: Slot)
        requires
            self.wf(),
            self.fluid_slot(t),
        ensures
            exists|k: int|
                0 <= k < self.plan().len() && #[trigger] self.plan()[k] == (Deposit {
                    from: self.source(t),
                    to: t,
                }),
            forall|k1: int, k2: int|
                0 <= k1 < self.plan().len() && 0 <= k2 < self.plan().len() && (
                #[trigger] self.plan()[k1]).to == (#[trigger] self.plan()[k2]).to ==> k1 == k2,
    {
        let n = self.slot_count();
        let slots = self.fluid_slots(n);
        let plan = self.plan();
        self.lemma_fluid_slots(n);
        self.lemma_deposits_follow_slots(n);
        self.lemma_target_of_source(t);
        let s = self.source(t);
        self.lemma_number_of_slot(s);
        assert(slots.contains(s));
        let k = choose|k: int| 0 <= k < slots.len() && slots[k] == s;
        assert(plan[k] == Deposit { from: s, to: t });
        assert forall|k1: int, k2: int|
            0 <= k1 < plan.len() && 0 <= k2 < plan.len() && (#[trigger] plan[k1]).to == (
            #[trigger] plan[k2]).to implies k1 == k2 by {
            self.lemma_target_injective(slots[k1], slots[k2]);
            if k1 < k2 {
                assert(self.number_of(slots[k1]) < self.number_of(slots[k2]));
            }
            if k2 < k1 {
                assert(self.number_of(slots[k2]) < self.number_of(slots[k1]));
            }
        }
    }

    proof fn lemma_total_is_sum(&self, amounts: spec_fn(Slot) -> int, n: nat)
        ensures
            self.total(amounts, n) == sum_over(self.fluid_slots(n), amounts),
        decreases n,
    {
        if n > 0 {
            self.lemma_total_is_sum(amounts, (n - 1) as nat);
            let before = self.fluid_slots((n - 1) as nat);
            let s = self.slot_at(n - 1);
            if self.fluid_slot(s) {
                assert(before.push(s).drop_last() == before);
            }
        }
    }

    proof fn lemma_sum_of_targets(&self, amounts: spec_fn(Slot) -> int, n: nat)
        requires
            self.wf(),
            n <= self.slot_count(),
        ensures
            sum_over(
                self.fluid_slots(n).map_values(|s: Slot| self.target(s)),
                self.streamed(amounts),
            ) == self.total(amounts, n),
        decreases n,
    {
        let to = |s: Slot| self.target(s);
        if n > 0 {
            self.lemma_sum_of_targets(amounts, (n - 1) as nat);
            let before = self.fluid_slots((n - 1) as nat);
            let s = self.slot_at(n - 1);
            if self.fluid_slot(s) {
                self.lemma_source_of_target(s);
                assert(before.push(s).map_values(to).drop_last() == before.map_values(to));
            }
        }
    }

    /// Mass conservation: a streaming step keeps the mass of the fluid,
    /// whatever the obstacles are. It only moves amounts from slot to
    /// slot, around the edges of the grid and back from obstacles.
    pub proof fn lemma_stream_conserves_mass(&self, amounts: spec_fn(Slot) -> int)
        requires
            self.wf(),
        ensures
            self.mass(self.streamed(amounts)) == self.mass(amounts),
    {
        let n = self.slot_count();
        let after = self.streamed(amounts);
        let slots = self.fluid_slots(n);
        let to = |s: Slot| self.target(s);
        let targets = slots.map_values(to);
        self.lemma_fluid_slots(n);
        assert forall|i: int, j: int|
            0 <= i < slots.len() && 0 <= j < slots.len() && i != j implies slots[i]
            != slots[j] by {
            if i < j {
                assert(self.number_of(slots[i]) < self.number_of(slots[j]));
            } else {
                assert(self.number_of(slots[j]) < self.number_of(slots[i]));
            }
        }
        assert forall|i: int, j: int|
            0 <= i < targets.len() && 0 <= j < targets.len() && i != j implies targets[i]
            != targets[j] by {
            if targets[i] == targets[j] {
                self.lemma_target_injective(slots[i], slots[j]);
            }
        }
        slots.lemma_multiset_has_no_duplicates();
        targets.lemma_multiset_has_no_duplicates();
        assert forall|x: Slot| slots.to_multiset().count(x) == targets.to_multiset().count(
            x,
        ) by {
            to_multiset_contains(slots, x);
            to_multiset_contains(targets, x);
            if slots.contains(x) {
                let k = choose|k: int| 0 <= k < slots.len() && slots[k] == x;
                self.lemma_target_of_source(x);
                let s = self.source(x);
                self.lemma_number_of_slot(s);
                assert(slots.contains(s));
                let m = choose|m: int| 0 <= m < slots.len() && slots[m] == s;
                assert(targets[m] == x);
                assert(targets.contains(x));
            }
            if targets.contains(x) {
                let k = choose|k: int| 0 <= k < targets.len() && targets[k] == x;
                self.lemma_source_of_target(slots[k]);
                self.lemma_number_of_slot(x);
                assert(slots.contains(x));
            }
        }
        assert(slots.to_multiset() =~= targets.to_multiset());
        lemma_fold_left_permutation::<Slot, int>(slots, targets, add_amount(after), 0int);
        self.lemma_total_is_sum(after, n);
        self.lemma_sum_of_targets(amounts, n);
    }

    /// Mass conservation over time: any number of streaming steps keeps the
    /// mass of the fluid.
    pub proof fn lemma_stream_conserves_mass_over_steps(
        &self,
        amounts: spec_fn(Slot) -> int,
        steps: nat,
    )
        requires
            self.wf(),
        ensures
            self.mass(self.streamed_times(amounts, steps)) == self.mass(amounts),
        decreases steps,
    {
        if steps > 0 {
            let before = self.streamed_times(amounts, (steps - 1) as nat);
            self.lemma_stream_conserves_mass_over_steps(amounts, (steps - 1) as nat);
            self.lemma_stream_conserves_mass(before);
        }
    }
}

} // verus!
