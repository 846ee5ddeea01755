//! The vesting ledger: a store of one schedule per beneficiary, with the
//! deposit, withdrawal, and query operations.
//!
//! The ledger is pure state-machine logic. The caller supplies the current
//! time to every time-dependent operation and performs the actual value
//! transfer with the amount a successful withdrawal returns; a host binding
//! wires both to its clock and payment primitives.

use crate::schedule::{
    lemma_vested_bounds, lemma_vested_split, vested, VestingSchedule,
};
use vstd::prelude::*;

verus! {

/// Why an operation was refused. Every failure leaves the ledger unchanged.
#[derive(Clone, Copy, Debug, PartialEq, Eq, Structural)]
pub enum VestingError {
    /// A deposit's `end_time` does not lie strictly after its `start_time`.
    InvalidTimeRange,
    /// A deposit's `total_amount` is zero.
    ZeroAmount,
    /// No schedule exists for the beneficiary.
    UnknownBeneficiary,
    /// The current time lies before the schedule's `start_time`.
    VestingNotStarted,
    /// Nothing has vested beyond what was already released.
    NothingWithdrawable,
    /// A partial withdrawal asked for more than is currently releasable.
    ExceedsReleasable,
}

/// The map a sequence of `(beneficiary, schedule)` entries denotes.
pub open spec fn entries_map(entries: Seq<(String, VestingSchedule)>) -> Map<
    Seq<char>,
    VestingSchedule,
>
    decreases entries.len(),
{
    if entries.len() == 0 {
        Map::empty()
    } else {
        entries_map(entries.drop_last()).insert(entries.last().0@, entries.last().1)
    }
}

/// No two entries name the same beneficiary.
pub open spec fn keys_unique(entries: Seq<(String, VestingSchedule)>) -> bool {
    forall|i: int, j: int|
        0 <= i < j < entries.len() ==> (#[trigger] entries[i]).0@ != (#[trigger] entries[j]).0@
}

/// The vesting ledger: each beneficiary's one schedule, keyed by the
/// beneficiary's account name.
pub struct TokenVesting {
    beneficiaries: Vec<(String, VestingSchedule)>,
}

impl View for TokenVesting {
    type V = Map<Seq<char>, VestingSchedule>;

    closed spec fn view(&self) -> Map<Seq<char>, VestingSchedule> {
        entries_map(self.beneficiaries@)
    }
}

proof fn lemma_keys_unique_drop_last(entries: Seq<(String, VestingSchedule)>)
    requires
        keys_unique(entries),
        entries.len() > 0,
    ensures
        keys_unique(entries.drop_last()),
{
    let dl = entries.drop_last();
    assert forall|i: int, j: int|
        0 <= i < j < dl.len() implies (#[trigger] dl[i]).0@ != (#[trigger] dl[j]).0@ by {
        assert(dl[i] == entries[i]);
        assert(dl[j] == entries[j]);
    }
}

/// A key no entry carries is absent from the denoted map.
proof fn lemma_entries_map_absent(entries: Seq<(String, VestingSchedule)>, k: Seq<char>)
    requires
        forall|i: int| 0 <= i < entries.len() ==> (#[trigger] entries[i]).0@ != k,
    ensures
        !entries_map(entries).dom().contains(k),
    decreases entries.len(),
{
    if entries.len() > 0 {
        let dl = entries.drop_last();
        assert forall|i: int| 0 <= i < dl.len() implies (#[trigger] dl[i]).0@ != k by {
            assert(dl[i] == entries[i]);
        }
        lemma_entries_map_absent(dl, k);
        assert(entries.last() == entries[entries.len() - 1]);
    }
}

/// With unique keys, the denoted map holds exactly each entry's schedule.
proof fn lemma_entries_map_found(entries: Seq<(String, VestingSchedule)>, i: int)
    requires
        keys_unique(entries),
        0 <= i < entries.len(),
    ensures
        entries_map(entries).dom().contains(entries[i].0@),
        entries_map(entries)[entries[i].0@] == entries[i].1,
    decreases entries.len(),
{
    if i < entries.len() - 1 {
        lemma_keys_unique_drop_last(entries);
        lemma_entries_map_found(entries.drop_last(), i);
        assert(entries.drop_last()[i] == entries[i]);
        assert((#[trigger] entries[i]).0@ != (#[trigger] entries[entries.len() - 1]).0@);
    }
}

/// Appending an entry with a fresh key inserts it into the denoted map.
proof fn lemma_entries_map_push(
    entries: Seq<(String, VestingSchedule)>,
    b: String,
    s: VestingSchedule,
)
    ensures
        entries_map(entries.push((b, s))) == entries_map(entries).insert(b@, s),
{
    let p = entries.push((b, s));
    assert(p.drop_last() =~= entries);
    assert(p.last() == (b, s));
}

/// Overwriting the entry that already carries a key updates the denoted map
/// at that key.
proof fn lemma_entries_map_update(
    entries: Seq<(String, VestingSchedule)>,
    i: int,
    b: String,
    s: VestingSchedule,
)
    requires
        keys_unique(entries),
        0 <= i < entries.len(),
        entries[i].0@ == b@,
    ensures
        entries_map(entries.update(i, (b, s))) == entries_map(entries).insert(b@, s),
    decreases entries.len(),
{
    let u = entries.update(i, (b, s));
    let last = entries[entries.len() - 1];
    if i == entries.len() - 1 {
        assert(u.drop_last() =~= entries.drop_last());
        assert(u.last() == (b, s));
        assert(entries_map(entries).insert(b@, s) =~= entries_map(entries.drop_last()).insert(
            b@,
            s,
        ));
    } else {
        lemma_keys_unique_drop_last(entries);
        assert(entries.drop_last()[i] == entries[i]);
        lemma_entries_map_update(entries.drop_last(), i, b, s);
        assert(u.drop_last() =~= entries.drop_last().update(i, (b, s)));
        assert(u.last() == last);
        assert((#[trigger] entries[i]).0@ != (#[trigger] entries[entries.len() - 1]).0@);
        assert(entries_map(entries.drop_last()).insert(b@, s).insert(last.0@, last.1)
            =~= entries_map(entries.drop_last()).insert(last.0@, last.1).insert(b@, s));
    }
}

impl TokenVesting {
    /// Ledger invariant: one entry per beneficiary, every schedule well
    /// formed.
    pub closed spec fn wf(self) -> bool {
        &&& keys_unique(self.beneficiaries@)
        &&& forall|i: int|
            0 <= i < self.beneficiaries@.len() ==> (#[trigger] self.beneficiaries@[i]).1.wf()
    }

    /// An empty ledger.
    pub fn new() -> (r: TokenVesting)
        ensures
            r.wf(),
            r@ == Map::<Seq<char>, VestingSchedule>::empty(),
    {
        TokenVesting { beneficiaries: Vec::new() }
    }

    /// The index of the beneficiary's entry, if one exists.
    fn find_index(&self, beneficiary: &String) -> (r: Option<usize>)
        ensures
            match r {
                Some(i) => i < self.beneficiaries@.len() && self.beneficiaries@[i as int].0@
                    == beneficiary@,
                None => forall|i: int|
                    0 <= i < self.beneficiaries@.len() ==> (#[trigger] self.beneficiaries@[i]).0@
                        != beneficiary@,
            },
    {
        let mut i: usize = 0;
        while i < self.beneficiaries.len()
            invariant
                i <= self.beneficiaries@.len(),
                forall|j: int|
                    0 <= j < i ==> (#[trigger] self.beneficiaries@[j]).0@ != beneficiary@,
            decreases self.beneficiaries@.len() - i,
        {
            if self.beneficiaries[i].0 == *beneficiary {
                return Some(i);
            }
            i = i + 1;
        }
        None
    }

    /// Insert or overwrite the beneficiary's schedule.
    fn put_schedule(&mut self, beneficiary: String, schedule: VestingSchedule)
        requires
            old(self).wf(),
            schedule.wf(),
        ensures
            final(self).wf(),
            final(self)@ == old(self)@.insert(beneficiary@, schedule),
    {
        let ghost entries = self.beneficiaries@;
        match self.find_index(&beneficiary) {
            Some(i) => {
                self.beneficiaries.set(i, (beneficiary, schedule));
                proof {
                    let u = self.beneficiaries@;
                    assert forall|j: int, k: int|
                        0 <= j < k < u.len() implies (#[trigger] u[j]).0@ != (#[trigger] u[k]).0@
                        by {
                        assert(entries[j].0@ != entries[k].0@);
                    }
                    lemma_entries_map_update(entries, i as int, beneficiary, schedule);
                }
            },
            None => {
                self.beneficiaries.push((beneficiary, schedule));
                proof {
                    let u = self.beneficiaries@;
                    assert forall|j: int, k: int|
                        0 <= j < k < u.len() implies (#[trigger] u[j]).0@ != (#[trigger] u[k]).0@
                        by {
                        if k < entries.len() {
                            assert(entries[j].0@ != entries[k].0@);
                        }
                    }
                    lemma_entries_map_push(entries, beneficiary, schedule);
                }
            },
        }
    }

    /// The beneficiary's current schedule, if one exists. Read-only.
    pub fn get_vesting_schedule(&self, beneficiary: &String) -> (r: Option<VestingSchedule>)
        requires
            self.wf(),
        ensures
            r == if self@.dom().contains(beneficiary@) {
                Some(self@[beneficiary@])
            } else {
                None::<VestingSchedule>
            },
            self@.dom().contains(beneficiary@) ==> self@[beneficiary@].wf(),
    {
        match self.find_index(beneficiary) {
            Some(i) => {
                proof {
                    lemma_entries_map_found(self.beneficiaries@, i as int);
                }
                Some(self.beneficiaries[i].1)
            },
            None => {
                proof {
                    lemma_entries_map_absent(self.beneficiaries@, beneficiary@);
                }
                None
            },
        }
    }

    /// The vested amount of `schedule` at `current_time`: exactly
    /// `vested(schedule, current_time)`, the piecewise-linear interpolation.
    pub fn calculate_vested_amount(&self, schedule: &VestingSchedule, current_time: u64) -> (r:
        u128)
        ensures
            r as int == vested(*schedule, current_time),
    {
        if current_time >= schedule.end_time {
            schedule.total_amount
        } else if current_time <= schedule.start_time {
            0
        } else {
            let elapsed: u128 = (current_time - schedule.start_time) as u128;
            let duration: u128 = (schedule.end_time - schedule.start_time) as u128;
            proof {
                lemma_vested_split(schedule.total_amount as int, elapsed as int, duration as int);
            }
            (schedule.total_amount / duration) * elapsed + (schedule.total_amount % duration)
                * elapsed / duration
        }
    }

    /// Record a vesting schedule for `beneficiary`: `total_amount` vesting
    /// linearly from `start_time` to `end_time`, nothing released yet. Any
    /// prior schedule for the beneficiary is discarded wholly.
    pub fn deposit(
        &mut self,
        beneficiary: String,
        total_amount: u128,
        start_time: u64,
        end_time: u64,
    ) -> (r: Result<(), VestingError>)
        requires
            old(self).wf(),
        ensures
            final(self).wf(),
            end_time <= start_time ==> r == Err::<(), VestingError>(VestingError::InvalidTimeRange)
                && final(self)@ == old(self)@,
            end_time > start_time && total_amount == 0 ==> r == Err::<(), VestingError>(
                VestingError::ZeroAmount,
            ) && final(self)@ == old(self)@,
            end_time > start_time && total_amount > 0 ==> r == Ok::<(), VestingError>(())
                && final(self)@ == old(self)@.insert(
                beneficiary@,
                (VestingSchedule { total_amount, released_amount: 0, start_time, end_time }),
            ),
    {
        if end_time <= start_time {
            return Err(VestingError::InvalidTimeRange);
        }
        if total_amount == 0 {
            return Err(VestingError::ZeroAmount);
        }
        let schedule = VestingSchedule { total_amount, released_amount: 0, start_time, end_time };
        self.put_schedule(beneficiary, schedule);
        Ok(())
    }

    /// Withdraw everything vested but not yet released at time `now`. On
    /// success the schedule's released amount rises to the vested amount and
    /// the returned value is what the caller must transfer to the
    /// beneficiary.
    pub fn withdraw(&mut self, beneficiary: &String, now: u64) -> (r: Result<u128, VestingError>)
        requires
            old(self).wf(),
        ensures
            final(self).wf(),
            !old(self)@.dom().contains(beneficiary@) ==> r == Err::<u128, VestingError>(
                VestingError::UnknownBeneficiary,
            ) && final(self)@ == old(self)@,
            old(self)@.dom().contains(beneficiary@) ==> ({
                let s = old(self)@[beneficiary@];
                if now < s.start_time {
                    r == Err::<u128, VestingError>(VestingError::VestingNotStarted) && final(self)@
                        == old(self)@
                } else if vested(s, now) <= s.released_amount {
                    r == Err::<u128, VestingError>(VestingError::NothingWithdrawable) && final(self)@ == old(self)@
                } else {
                    &&& r == Ok::<u128, VestingError>((vested(s, now) - s.released_amount) as u128)
                    &&& final(self)@ == old(self)@.insert(
                        beneficiary@,
                        (VestingSchedule { released_amount: vested(s, now) as u128, ..s }),
                    )
                }
            }),
    {
        let mut schedule = match self.get_vesting_schedule(beneficiary) {
            Some(s) => s,
            None => {
                return Err(VestingError::UnknownBeneficiary);
            },
        };
        if now < schedule.start_time {
            return Err(VestingError::VestingNotStarted);
        }
        let vested_amount = self.calculate_vested_amount(&schedule, now);
        if vested_amount <= schedule.released_amount {
            return Err(VestingError::NothingWithdrawable);
        }
        let releasable_amount = vested_amount - schedule.released_amount;
        proof {
            lemma_vested_bounds(schedule, now);
        }
        schedule.released_amount = vested_amount;
        self.put_schedule(beneficiary.clone(), schedule);
        Ok(releasable_amount)
    }

    /// Withdraw exactly `amount` at time `now`, which must not exceed what is
    /// currently releasable. On success the schedule's released amount rises
    /// by `amount` and the caller must transfer `amount` to the beneficiary.
    pub fn partial_withdraw(&mut self, beneficiary: &String, amount: u128, now: u64) -> (r: Result<
        u128,
        VestingError,
    >)
        requires
            old(self).wf(),
        ensures
            final(self).wf(),
            !old(self)@.dom().contains(beneficiary@) ==> r == Err::<u128, VestingError>(
                VestingError::UnknownBeneficiary,
            ) && final(self)@ == old(self)@,
            old(self)@.dom().contains(beneficiary@) ==> ({
                let s = old(self)@[beneficiary@];
                if now < s.start_time {
                    r == Err::<u128, VestingError>(VestingError::VestingNotStarted) && final(self)@
                        == old(self)@
                } else if vested(s, now) <= s.released_amount {
                    r == Err::<u128, VestingError>(VestingError::NothingWithdrawable) && final(self)@ == old(self)@
                } else if amount > vested(s, now) - s.released_amount {
                    r == Err::<u128, VestingError>(VestingError::ExceedsReleasable) && final(self)@
                        == old(self)@
                } else {
                    &&& r == Ok::<u128, VestingError>(amount)
                    &&& final(self)@ == old(self)@.insert(
                        beneficiary@,
                        (VestingSchedule {
                            released_amount: (s.released_amount + amount) as u128,
                            ..s
                        }),
                    )
                }
            }),
    {
        let mut schedule = match self.get_vesting_schedule(beneficiary) {
            Some(s) => s,
            None => {
                return Err(VestingError::UnknownBeneficiary);
            },
        };
        if now < schedule.start_time {
            return Err(VestingError::VestingNotStarted);
        }
        let vested_amount = self.calculate_vested_amount(&schedule, now);
        if vested_amount <= schedule.released_amount {
            return Err(VestingError::NothingWithdrawable);
        }
        let releasable_amount = vested_amount - schedule.released_amount;
        if amount > releasable_amount {
            return Err(VestingError::ExceedsReleasable);
        }
        proof {
            lemma_vested_bounds(schedule, now);
        }
        schedule.released_amount = schedule.released_amount + amount;
        self.put_schedule(beneficiary.clone(), schedule);
        Ok(amount)
    }

    /// The amount vested but not yet released at time `now`. The caller's
    /// clock must not run backwards: under a monotone clock the released
    /// amount never exceeds the vested amount, which the `requires` records.
    pub fn get_remaining_amount(&self, beneficiary: &String, now: u64) -> (r: Result<
        u128,
        VestingError,
    >)
        requires
            self.wf(),
            self@.dom().contains(beneficiary@) ==> self@[beneficiary@].released_amount <= vested(
                self@[beneficiary@],
                now,
            ),
        ensures
            !self@.dom().contains(beneficiary@) ==> r == Err::<u128, VestingError>(
                VestingError::UnknownBeneficiary,
            ),
            self@.dom().contains(beneficiary@) ==> r == Ok::<u128, VestingError>(
                (vested(self@[beneficiary@], now) - self@[beneficiary@].released_amount) as u128,
            ),
    {
        match self.get_vesting_schedule(beneficiary) {
            None => Err(VestingError::UnknownBeneficiary),
            Some(schedule) => {
                let vested_amount = self.calculate_vested_amount(&schedule, now);
                Ok(vested_amount - schedule.released_amount)
            },
        }
    }
}

/// After a successful full withdrawal at time `now`, nothing further is
/// withdrawable at that same instant: the updated schedule's remaining
/// amount is zero.
pub proof fn lemma_nothing_remains_after_withdraw(s: VestingSchedule, now: u64)
    requires
        s.wf(),
        vested(s, now) > s.released_amount,
    ensures
        ({
            let updated = (VestingSchedule { released_amount: vested(s, now) as u128, ..s });
            vested(updated, now) - updated.released_amount == 0
        }),
{
    lemma_vested_bounds(s, now);
}

/// A second deposit for the same beneficiary replaces the schedule wholly:
/// the store afterwards is as if only the second deposit had happened, and
/// nothing of the first schedule — in particular its released amount —
/// carries over.
pub proof fn lemma_redeposit_replaces(
    m: Map<Seq<char>, VestingSchedule>,
    b: Seq<char>,
    first: VestingSchedule,
    second: VestingSchedule,
)
    ensures
        m.insert(b, first).insert(b, second) == m.insert(b, second),
        m.insert(b, first).insert(b, second)[b] == second,
{
    assert(m.insert(b, first).insert(b, second) =~= m.insert(b, second));
}

} // verus!
