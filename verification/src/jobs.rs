use vstd::prelude::*;

verus! {

/// How many worker threads to start: as many as requested, but no more than
/// there are tasks, and at least one.
pub fn worker_count(jobs: usize, tasks: usize) -> (n: usize)
    ensures
        n == if jobs < tasks {
            if jobs == 0 {
                1
            } else {
                jobs
            }
        } else if tasks == 0 {
            1
        } else {
            tasks
        },
        n >= 1,
        n <= jobs || n == 1,
        n <= tasks || n == 1,
{
    let m = if jobs < tasks {
        jobs
    } else {
        tasks
    };
    if m < 1 {
        1
    } else {
        m
    }
}

/// One slot per task, filled by results that arrive in any order and read
/// back in task order.
pub struct ResultSlots<T> {
    slots: Vec<Option<T>>,
}

impl<T> View for ResultSlots<T> {
    type V = Seq<Option<T>>;

    closed spec fn view(&self) -> Seq<Option<T>> {
        self.slots@
    }
}

/// Whether every slot holds a result.
pub open spec fn all_filled<T>(s: Seq<Option<T>>) -> bool {
    forall|i: int| 0 <= i < s.len() ==> (#[trigger] s[i]) is Some
}

impl<T> ResultSlots<T> {
    /// `n` empty slots.
    pub fn new(n: usize) -> (r: Self)
        ensures
            r@ == Seq::new(n as nat, |i: int| None::<T>),
    {
        let mut slots: Vec<Option<T>> = Vec::new();
        let mut i: usize = 0;
        while i < n
            invariant
                i <= n,
                slots@ == Seq::new(i as nat, |k: int| None::<T>),
            decreases n - i,
        {
            slots.push(None);
            i = i + 1;
            assert(slots@ =~= Seq::new(i as nat, |k: int| None::<T>));
        }
        ResultSlots { slots }
    }

    /// The number of slots.
    pub fn len(&self) -> (n: usize)
        ensures
            n == self@.len(),
    {
        self.slots.len()
    }

    /// Stores the result of task `index`, replacing whatever was there.
    pub fn put(&mut self, index: usize, value: T)
        requires
            index < old(self)@.len(),
        ensures
            final(self)@ == old(self)@.update(index as int, Some(value)),
    {
        self.slots.set(index, Some(value));
    }

    /// Whether every task has its result.
    pub fn is_complete(&self) -> (b: bool)
        ensures
            b == all_filled(self@),
    {
        let n = self.slots.len();
        let mut i: usize = 0;
        while i < n
            invariant
                n == self@.len(),
                i <= n,
                forall|k: int| 0 <= k < i ==> (#[trigger] self@[k]) is Some,
            decreases n - i,
        {
            if self.slots[i].is_none() {
                return false;
            }
            i = i + 1;
        }
        true
    }

    /// The results in task order.
    pub fn into_results(self) -> (r: Vec<T>)
        requires
            all_filled(self@),
        ensures
            r@.len() == self@.len(),
            forall|i: int| 0 <= i < r@.len() ==> Some(#[trigger] r@[i]) == self@[i],
    {
        let ghost all = self@;
        let mut slots = self.slots;
        let mut reversed: Vec<T> = Vec::new();
        while slots.len() > 0
            invariant
                slots@.len() + reversed@.len() == all.len(),
                forall|k: int| 0 <= k < slots@.len() ==> slots@[k] == all[k],
                forall|k: int|
                    0 <= k < reversed@.len() ==> Some(#[trigger] reversed@[k]) == all[all.len() - 1
                        - k],
                all_filled(all),
            decreases slots@.len(),
        {
            let slot = slots.pop().unwrap();
            assert(slot == all[slots@.len() as int]);
            let item = slot.unwrap();
            reversed.push(item);
        }
        let mut out: Vec<T> = Vec::new();
        while reversed.len() > 0
            invariant
                out@.len() + reversed@.len() == all.len(),
                forall|k: int|
                    0 <= k < reversed@.len() ==> Some(#[trigger] reversed@[k]) == all[all.len() - 1
                        - k],
                forall|k: int| 0 <= k < out@.len() ==> Some(#[trigger] out@[k]) == all[k],
            decreases reversed@.len(),
        {
            let item = reversed.pop().unwrap();
            out.push(item);
        }
        out
    }
}

/// The slots after storing each `(index, result)` pair in turn, as a run of
/// [`ResultSlots::put`] calls leaves them.
pub open spec fn apply_puts<T>(s: Seq<Option<T>>, puts: Seq<(int, T)>) -> Seq<Option<T>>
    decreases puts.len(),
{
    if puts.len() == 0 {
        s
    } else {
        apply_puts(s.update(puts[0].0, Some(puts[0].1)), puts.drop_first())
    }
}

/// Whether the pairs name slots of `s`, no slot twice.
pub open spec fn distinct_indices<T>(n: nat, puts: Seq<(int, T)>) -> bool {
    &&& forall|k: int| 0 <= k < puts.len() ==> 0 <= #[trigger] puts[k].0 < n
    &&& forall|k1: int, k2: int|
        0 <= k1 < puts.len() && 0 <= k2 < puts.len() && k1 != k2 ==> #[trigger] puts[k1].0
            != #[trigger] puts[k2].0
}

proof fn lemma_apply_puts<T>(s: Seq<Option<T>>, puts: Seq<(int, T)>)
    requires
        distinct_indices(s.len(), puts),
    ensures
        apply_puts(s, puts).len() == s.len(),
        forall|k: int|
            0 <= k < puts.len() ==> apply_puts(s, puts)[#[trigger] puts[k].0] == Some(puts[k].1),
        forall|j: int|
            0 <= j < s.len() && (forall|k: int| 0 <= k < puts.len() ==> #[trigger] puts[k].0 != j)
                ==> apply_puts(s, puts)[j] == s[j],
    decreases puts.len(),
{
    if puts.len() > 0 {
        let s2 = s.update(puts[0].0, Some(puts[0].1));
        let rest = puts.drop_first();
        assert(distinct_indices(s2.len(), rest)) by {
            assert forall|k1: int, k2: int|
                0 <= k1 < rest.len() && 0 <= k2 < rest.len() && k1 != k2 implies #[trigger] rest[k1].0
                    != #[trigger] rest[k2].0 by {
                assert(rest[k1] == puts[k1 + 1] && rest[k2] == puts[k2 + 1]);
            }
            assert forall|k: int| 0 <= k < rest.len() implies 0 <= #[trigger] rest[k].0 < s2.len() by {
                assert(rest[k] == puts[k + 1]);
            }
        }
        lemma_apply_puts(s2, rest);
        let r = apply_puts(s, puts);
        assert(r == apply_puts(s2, rest));
        assert forall|k: int| 0 <= k < puts.len() implies r[#[trigger] puts[k].0] == Some(puts[k].1) by {
            if k > 0 {
                assert(rest[k - 1] == puts[k]);
                assert(apply_puts(s2, rest)[rest[k - 1].0] == Some(rest[k - 1].1));
            } else {
                assert forall|k2: int| 0 <= k2 < rest.len() implies #[trigger] rest[k2].0 != puts[0].0 by {
                    assert(rest[k2] == puts[k2 + 1]);
                    assert(puts[k2 + 1].0 != puts[0].0);
                }
                assert(apply_puts(s2, rest)[puts[0].0] == s2[puts[0].0]);
            }
        }
        assert forall|j: int|
            0 <= j < s.len() && (forall|k: int| 0 <= k < puts.len() ==> #[trigger] puts[k].0 != j)
            implies r[j] == s[j] by {
            assert(puts[0].0 != j);
            assert forall|k2: int| 0 <= k2 < rest.len() implies #[trigger] rest[k2].0 != j by {
                assert(rest[k2] == puts[k2 + 1]);
                assert(puts[k2 + 1].0 != j);
            }
            assert(apply_puts(s2, rest)[j] == s2[j]);
        }
    }
}

/// Whether some pair stores a result into slot `j`.
pub open spec fn delivered<T>(puts: Seq<(int, T)>, j: int) -> bool {
    exists|k: int| 0 <= k < puts.len() && #[trigger] puts[k].0 == j
}

/// Results come out in task order, whatever order they arrive in: when every
/// task's result is stored exactly once into fresh slots, in any order, every
/// slot is filled and slot `i` holds task `i`'s result.
pub proof fn law_results_in_task_order<T>(n: nat, puts: Seq<(int, T)>)
    requires
        distinct_indices(n, puts),
        forall|j: int| 0 <= j < n ==> #[trigger] delivered(puts, j),
    ensures
        all_filled(apply_puts(Seq::new(n, |i: int| None::<T>), puts)),
        apply_puts(Seq::new(n, |i: int| None::<T>), puts).len() == n,
        forall|k: int|
            0 <= k < puts.len() ==> apply_puts(Seq::new(n, |i: int| None::<T>), puts)[
                #[trigger] puts[k].0
            ] == Some(puts[k].1),
{
    let s = Seq::new(n, |i: int| None::<T>);
    lemma_apply_puts(s, puts);
    let r = apply_puts(s, puts);
    assert forall|j: int| 0 <= j < r.len() implies (#[trigger] r[j]) is Some by {
        assert(delivered(puts, j));
        let k = choose|k: int| 0 <= k < puts.len() && #[trigger] puts[k].0 == j;
        assert(r[puts[k].0] == Some(puts[k].1));
    }
}

} // verus!
