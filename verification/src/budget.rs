//! Budgets for memory: how many bytes of uploads and of unsaved writes a
//! mount holds at a time, counted in whole units.

use vstd::prelude::*;

verus! {

/// The unit of both budgets: one mebibyte.
pub const BUDGET_UNIT: usize = 1_048_576;

/// The most units that a budget can have.
pub const MAX_UNITS: usize = 4_294_967_295;

/// The units that bytes take, the last one filled in part.
pub open spec fn units_of(bytes: nat) -> nat {
    (bytes + BUDGET_UNIT - 1) as nat / BUDGET_UNIT as nat
}

/// The units of a budget of so many bytes.
pub open spec fn capacity_of(bytes: nat) -> nat {
    if units_of(bytes) <= MAX_UNITS {
        units_of(bytes)
    } else {
        MAX_UNITS as nat
    }
}

/// The units that bytes take.
pub fn units_for_bytes(bytes: usize) -> (r: usize)
    ensures
        r == units_of(bytes as nat),
        r as int * BUDGET_UNIT >= bytes,
{
    let whole: usize = bytes / BUDGET_UNIT;
    if bytes % BUDGET_UNIT == 0 {
        whole
    } else {
        whole + 1
    }
}

fn capacity(bytes: usize) -> (r: usize)
    requires
        bytes > 0,
    ensures
        r == capacity_of(bytes as nat),
        r >= 1,
{
    let units: usize = units_for_bytes(bytes);
    if units <= MAX_UNITS {
        units
    } else {
        MAX_UNITS
    }
}

/// The units of the upload budget; none where it is not limited.
pub fn upload_budget_units(max_bytes: Option<usize>) -> (r: Option<usize>)
    ensures
        r is None <==> max_bytes is None || max_bytes == Some(0usize),
        r matches Some(units) ==> units == capacity_of(max_bytes->0 as nat) && units >= 1,
{
    match max_bytes {
        Some(bytes) => if bytes == 0 {
            None
        } else {
            Some(capacity(bytes))
        },
        None => None,
    }
}

/// What an upload needs of the budget.
#[derive(Debug, Clone, Copy, PartialEq, Eq, Structural)]
pub enum UploadNeed {
    /// Nothing has to be taken.
    Free,
    /// So many units have to be taken for the whole upload.
    Units { units: usize },
    /// It is larger than the whole budget of so many bytes.
    TooLarge { budget_bytes: usize },
}

/// What an upload of so many bytes needs of a budget.
pub open spec fn upload_need(bytes: nat, budget: Option<usize>) -> UploadNeed {
    match budget {
        None => UploadNeed::Free,
        Some(units) => if units_of(bytes) > units {
            UploadNeed::TooLarge {
                budget_bytes: if units * BUDGET_UNIT <= usize::MAX {
                    (units * BUDGET_UNIT) as usize
                } else {
                    usize::MAX
                },
            }
        } else if units_of(bytes) == 0 {
            UploadNeed::Free
        } else {
            UploadNeed::Units { units: units_of(bytes) as usize }
        },
    }
}

/// What an upload of so many bytes needs of a budget. One that is larger than
/// the whole budget is refused.
pub fn acquire_upload_budget(bytes: usize, budget: Option<usize>) -> (r: UploadNeed)
    ensures
        r == upload_need(bytes as nat, budget),
{
    let total: usize = match budget {
        Some(units) => units,
        None => {
            return UploadNeed::Free;
        },
    };
    let units: usize = units_for_bytes(bytes);
    if units > total {
        let budget_bytes: usize = match total.checked_mul(BUDGET_UNIT) {
            Some(n) => n,
            None => usize::MAX,
        };
        UploadNeed::TooLarge { budget_bytes }
    } else if units == 0 {
        UploadNeed::Free
    } else {
        UploadNeed::Units { units }
    }
}

/// The budget for writes that are not saved yet.
#[derive(Debug)]
pub struct DirtyBudget {
    max_units: usize,
    available: usize,
}

/// Units taken from the budget, to be given back.
#[derive(Debug)]
pub struct DirtyPermit {
    units: usize,
}

/// Why units cannot be taken.
#[derive(Debug, Clone, Copy, PartialEq, Eq, Structural)]
pub enum BudgetError {
    /// The bytes are more than the whole budget.
    TooLarge,
    /// Too few units are left.
    Busy,
}

impl DirtyPermit {
    /// The units taken.
    pub closed spec fn spec_units(&self) -> nat {
        self.units as nat
    }

    /// A permit for nothing.
    pub fn noop() -> (r: DirtyPermit)
        ensures
            r.spec_units() == 0,
    {
        DirtyPermit { units: 0 }
    }
}

impl DirtyBudget {
    /// The units of the whole budget.
    pub closed spec fn spec_max(&self) -> nat {
        self.max_units as nat
    }

    /// The units that are left.
    pub closed spec fn spec_available(&self) -> nat {
        self.available as nat
    }

    /// No more units are left than there are, and there are some.
    pub open spec fn wf(&self) -> bool {
        1 <= self.spec_max() <= MAX_UNITS && self.spec_available() <= self.spec_max()
    }

    /// A budget of so many bytes, rounded up to whole units; none for zero.
    pub fn new(max_bytes: usize) -> (r: Option<DirtyBudget>)
        ensures
            r is None <==> max_bytes == 0,
            r matches Some(b) ==> b.wf() && b.spec_max() == capacity_of(max_bytes as nat)
                && b.spec_available() == b.spec_max(),
    {
        if max_bytes == 0 {
            return None;
        }
        let max_units: usize = capacity(max_bytes);
        Some(DirtyBudget { max_units, available: max_units })
    }

    /// The bytes of a unit.
    pub fn unit(&self) -> (r: usize)
        ensures
            r == BUDGET_UNIT,
    {
        BUDGET_UNIT
    }

    /// The units of the whole budget.
    pub fn max_units(&self) -> (r: usize)
        ensures
            r == self.spec_max(),
    {
        self.max_units
    }

    /// The units that are left.
    pub fn available_units(&self) -> (r: usize)
        ensures
            r == self.spec_available(),
    {
        self.available
    }

    /// The units that bytes take, unless they are more than the whole budget.
    pub fn units_for(&self, bytes: usize) -> (r: Result<usize, BudgetError>)
        ensures
            units_of(bytes as nat) > self.spec_max() ==> r == Err::<usize, BudgetError>(
                BudgetError::TooLarge,
            ),
            units_of(bytes as nat) <= self.spec_max() ==> (r matches Ok(n) && n == units_of(bytes as nat)),
    {
        let units: usize = units_for_bytes(bytes);
        if units > self.max_units {
            Err(BudgetError::TooLarge)
        } else {
            Ok(units)
        }
    }

    /// Takes units, if so many are left.
    pub fn try_acquire_units(&mut self, units: usize) -> (r: Option<DirtyPermit>)
        requires
            old(self).wf(),
        ensures
            final(self).wf(),
            final(self).spec_max() == old(self).spec_max(),
            r is Some <==> units <= old(self).spec_available(),
            r matches Some(p) ==> p.spec_units() == units && final(self).spec_available()
                == old(self).spec_available() - units,
            r is None ==> *final(self) == *old(self),
    {
        if units > self.available {
            return None;
        }
        self.available = self.available - units;
        Some(DirtyPermit { units })
    }

    /// Takes units as soon as so many are left: until then it is busy. No
    /// units are always there.
    pub fn acquire_units(&mut self, units: usize) -> (r: Result<DirtyPermit, BudgetError>)
        requires
            old(self).wf(),
        ensures
            final(self).wf(),
            final(self).spec_max() == old(self).spec_max(),
            units <= old(self).spec_available() ==> (r matches Ok(p) && p.spec_units() == units)
                && final(self).spec_available() == old(self).spec_available() - units,
            units > old(self).spec_available() ==> r == Err::<DirtyPermit, BudgetError>(BudgetError::Busy)
                && *final(self) == *old(self),
    {
        match self.try_acquire_units(units) {
            Some(p) => Ok(p),
            None => Err(BudgetError::Busy),
        }
    }

    /// Gives units back.
    pub fn release(&mut self, permit: DirtyPermit)
        requires
            old(self).wf(),
            old(self).spec_available() + permit.spec_units() <= old(self).spec_max(),
        ensures
            final(self).wf(),
            final(self).spec_max() == old(self).spec_max(),
            final(self).spec_available() == old(self).spec_available() + permit.spec_units(),
    {
        self.available = self.available + permit.units;
    }
}

/// How many units a handle has taken for its unsaved bytes: as many as it
/// ever needed at once.
#[derive(Debug, Clone, Copy, PartialEq, Eq, Structural)]
pub struct Reservation {
    pub units: usize,
}

/// What a handle needs beyond what it has taken.
#[derive(Debug, Clone, Copy, PartialEq, Eq, Structural)]
pub enum ReserveStep {
    /// Nothing more.
    Enough,
    /// So many units more, after which it holds `total`.
    Take { more: usize, total: usize },
}

/// What a handle needs of the budget to hold so many bytes.
pub open spec fn reserve_step(held: nat, bytes: nat) -> ReserveStep {
    if units_of(bytes) <= held {
        ReserveStep::Enough
    } else {
        ReserveStep::Take { more: (units_of(bytes) - held) as usize, total: units_of(bytes) as usize }
    }
}

impl Reservation {
    /// Nothing taken.
    pub fn new() -> (r: Self)
        ensures
            r.units == 0,
    {
        Reservation { units: 0 }
    }

    /// What the handle needs to hold so many bytes. Without a budget it needs
    /// nothing; more than the whole budget is refused.
    pub fn reserve_dirty(&self, budget: Option<&DirtyBudget>, bytes: usize) -> (r: Result<ReserveStep, BudgetError>)
        ensures
            match budget {
                None => r == Ok::<ReserveStep, BudgetError>(ReserveStep::Enough),
                Some(b) => if units_of(bytes as nat) > b.spec_max() {
                    r == Err::<ReserveStep, BudgetError>(BudgetError::TooLarge)
                } else {
                    r == Ok::<ReserveStep, BudgetError>(reserve_step(self.units as nat, bytes as nat))
                },
            },
    {
        match budget {
            None => Ok(ReserveStep::Enough),
            Some(b) => match b.units_for(bytes) {
                Ok(units) => if units <= self.units {
                    Ok(ReserveStep::Enough)
                } else {
                    Ok(ReserveStep::Take { more: units - self.units, total: units })
                },
                Err(e) => Err(e),
            },
        }
    }
}

/// Takes what a handle needs to hold so many bytes, or refuses: where the
/// bytes are more than the whole budget, or where too few units are left.
pub fn reserve_now(budget: &mut DirtyBudget, held: &mut Reservation, bytes: usize) -> (r: Result<DirtyPermit, BudgetError>)
    requires
        old(budget).wf(),
    ensures
        final(budget).wf(),
        final(budget).spec_max() == old(budget).spec_max(),
        ({
            let need = units_of(bytes as nat);
            let more = need - old(held).units;
            if need > old(budget).spec_max() {
                r == Err::<DirtyPermit, BudgetError>(BudgetError::TooLarge)
            } else if more <= 0 {
                r matches Ok(p) && p.spec_units() == 0
            } else if more > old(budget).spec_available() {
                r == Err::<DirtyPermit, BudgetError>(BudgetError::Busy)
            } else {
                &&& r matches Ok(p) && p.spec_units() == more
                &&& final(held).units == need
                &&& final(budget).spec_available() == old(budget).spec_available() - more
            }
        }),
        r is Err || r->Ok_0.spec_units() == 0 ==> *final(budget) == *old(budget) && *final(held)
            == *old(held),
{
    match held.reserve_dirty(Some(&*budget), bytes) {
        Err(e) => Err(e),
        Ok(ReserveStep::Enough) => Ok(DirtyPermit::noop()),
        Ok(ReserveStep::Take { more, total }) => match budget.try_acquire_units(more) {
            Some(p) => {
                held.units = total;
                Ok(p)
            },
            None => Err(BudgetError::Busy),
        },
    }
}

/// Giving back what was taken leaves the budget as it was.
pub proof fn law_budget_release(before: DirtyBudget, after: DirtyBudget, permit: DirtyPermit)
    requires
        before.wf(),
        after.spec_max() == before.spec_max(),
        after.spec_available() == before.spec_available() - permit.spec_units(),
    ensures
        after.spec_available() + permit.spec_units() <= after.spec_max(),
        after.spec_available() + permit.spec_units() == before.spec_available(),
{
}

/// The units that a handle holds cover its bytes.
pub proof fn law_units_cover(bytes: nat)
    ensures
        units_of(bytes) * BUDGET_UNIT >= bytes,
        bytes > 0 ==> (units_of(bytes) - 1) * BUDGET_UNIT < bytes,
{
}

/// Memory is counted in units of a mebibyte, as many as the bytes take and no
/// more.
pub proof fn law_units(bytes: nat)
    ensures
        units_of(0) == 0,
        bytes > 0 ==> units_of(bytes) >= 1,
        units_of(bytes) * 1_048_576 >= bytes,
        bytes > 0 ==> (units_of(bytes) - 1) * 1_048_576 < bytes,
        units_of(bytes) <= 4_294_967_295 ==> capacity_of(bytes) == units_of(bytes),
        units_of(bytes) > 4_294_967_295 ==> capacity_of(bytes) == 4_294_967_295,
{
}

/// What an upload needs of a budget: nothing where there is none or the upload
/// is empty; all the units that it takes where the whole budget has so many; and
/// one that is larger than the whole budget is refused, with its bytes told.
pub proof fn law_upload_need(bytes: nat, units: usize)
    requires
        units <= 4_294_967_295,
        units * 1_048_576 <= usize::MAX,
    ensures
        upload_need(bytes, None) == UploadNeed::Free,
        upload_need(0, Some(units)) == UploadNeed::Free,
        0 < bytes <= units * 1_048_576 ==> upload_need(bytes, Some(units)) == (UploadNeed::Units {
            units: units_of(bytes) as usize,
        }),
        bytes > units * 1_048_576 ==> upload_need(bytes, Some(units)) == (UploadNeed::TooLarge {
            budget_bytes: (units * 1_048_576) as usize,
        }),
{
    law_units(bytes);
}

/// A file takes of a budget what it does not hold yet, and never gives back
/// before it is closed.
pub proof fn law_reserve_step(held: nat, bytes: nat)
    requires
        units_of(bytes) <= usize::MAX,
    ensures
        bytes <= held * 1_048_576 ==> reserve_step(held, bytes) == ReserveStep::Enough,
        bytes > held * 1_048_576 ==> {
            &&& reserve_step(held, bytes) matches ReserveStep::Take { more, total } && held + more == total && total
                * 1_048_576 >= bytes && (total - 1) * 1_048_576 < bytes
        },
{
    law_units(bytes);
}

} // verus!
