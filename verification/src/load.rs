//! Fetching the content of an object into memory: what has to be held of the
//! budget before and after.

use vstd::prelude::*;

verus! {

/// How far a load has come.
#[derive(Debug, Clone, Copy, PartialEq, Eq, Structural)]
pub enum LoadStage {
    Start,
    /// The size of the object was asked for.
    Sizing,
    /// What the object takes was asked of the budget.
    Reserving,
    /// The object is being fetched.
    Fetching,
    /// What was fetched was asked of the budget.
    ToppingUp,
    /// What the size set for the file takes was asked of the budget.
    Extending,
    Done,
    Failed,
}

/// What is to be done next.
#[derive(Debug, Clone, Copy, PartialEq, Eq, Structural)]
pub enum LoadAction {
    /// The size of the object is to be asked for; one that cannot be told is
    /// taken for zero.
    AskSize,
    /// So many bytes are to be held of the budget.
    Reserve { bytes: usize },
    /// The object is to be fetched.
    Fetch,
    /// The content is there and may be used.
    Use,
    /// The load is given up.
    Fail,
}

/// What happened.
#[derive(Debug, Clone, Copy, PartialEq, Eq, Structural)]
pub enum LoadEvent {
    Begin,
    Size { bytes: usize },
    Granted,
    Denied,
    Fetched { len: usize },
    FetchFailed,
}

/// A load: what it has to ask for, and how far it has come.
#[derive(Debug, Clone, Copy, PartialEq, Eq, Structural)]
pub struct Load {
    /// There is a budget, so that the size is to be asked for first.
    pub budgeted: bool,
    /// What was fetched is held too, in case the object has grown.
    pub top_up: bool,
    /// The bytes that the content will have at least.
    pub at_least: usize,
    /// The size that was set for the file, if any.
    pub extend: usize,
    pub stage: LoadStage,
}

/// What follows once the content was fetched and paid for.
pub open spec fn after_fetch(load: Load) -> (LoadStage, LoadAction) {
    if load.extend > 0 {
        (LoadStage::Extending, LoadAction::Reserve { bytes: load.extend })
    } else {
        (LoadStage::Done, LoadAction::Use)
    }
}

/// The next stage and what is to be done. Anything that does not belong to the
/// stage ends the load.
pub open spec fn load_step(load: Load, event: LoadEvent) -> (LoadStage, LoadAction) {
    match (load.stage, event) {
        (LoadStage::Start, LoadEvent::Begin) => if load.budgeted {
            (LoadStage::Sizing, LoadAction::AskSize)
        } else {
            (LoadStage::Fetching, LoadAction::Fetch)
        },
        (LoadStage::Sizing, LoadEvent::Size { bytes }) => (
            LoadStage::Reserving,
            LoadAction::Reserve {
                bytes: if bytes > load.at_least {
                    bytes
                } else {
                    load.at_least
                },
            },
        ),
        (LoadStage::Reserving, LoadEvent::Granted) => (LoadStage::Fetching, LoadAction::Fetch),
        (LoadStage::Fetching, LoadEvent::Fetched { len }) => if load.budgeted && load.top_up {
            (LoadStage::ToppingUp, LoadAction::Reserve { bytes: len })
        } else {
            after_fetch(load)
        },
        (LoadStage::ToppingUp, LoadEvent::Granted) => after_fetch(load),
        (LoadStage::Extending, LoadEvent::Granted) => (LoadStage::Done, LoadAction::Use),
        _ => (LoadStage::Failed, LoadAction::Fail),
    }
}

impl Load {
    /// A load that has not begun.
    pub fn new(budgeted: bool, top_up: bool, at_least: usize, extend: usize) -> (r: Load)
        ensures
            r == (Load { budgeted, top_up, at_least, extend, stage: LoadStage::Start }),
    {
        Load { budgeted, top_up, at_least, extend, stage: LoadStage::Start }
    }

    fn fetched(&self) -> (r: (LoadStage, LoadAction))
        ensures
            r == after_fetch(*self),
    {
        if self.extend > 0 {
            (LoadStage::Extending, LoadAction::Reserve { bytes: self.extend })
        } else {
            (LoadStage::Done, LoadAction::Use)
        }
    }

    /// Takes what happened, and tells what is to be done.
    pub fn step(&mut self, event: LoadEvent) -> (r: LoadAction)
        ensures
            (final(self).stage, r) == load_step(*old(self), event),
            *final(self) == (Load { stage: final(self).stage, ..*old(self) }),
    {
        let (stage, action) = match (self.stage, event) {
            (LoadStage::Start, LoadEvent::Begin) => if self.budgeted {
                (LoadStage::Sizing, LoadAction::AskSize)
            } else {
                (LoadStage::Fetching, LoadAction::Fetch)
            },
            (LoadStage::Sizing, LoadEvent::Size { bytes }) => {
                let need: usize = if bytes > self.at_least {
                    bytes
                } else {
                    self.at_least
                };
                (LoadStage::Reserving, LoadAction::Reserve { bytes: need })
            },
            (LoadStage::Reserving, LoadEvent::Granted) => (LoadStage::Fetching, LoadAction::Fetch),
            (LoadStage::Fetching, LoadEvent::Fetched { len }) => if self.budgeted && self.top_up {
                (LoadStage::ToppingUp, LoadAction::Reserve { bytes: len })
            } else {
                self.fetched()
            },
            (LoadStage::ToppingUp, LoadEvent::Granted) => self.fetched(),
            (LoadStage::Extending, LoadEvent::Granted) => (LoadStage::Done, LoadAction::Use),
            _ => (LoadStage::Failed, LoadAction::Fail),
        };
        self.stage = stage;
        action
    }
}

/// Where there is a budget, an object is fetched only once what it takes was
/// granted: one that is too large is refused before anything is fetched.
pub proof fn law_granted_before_fetch(load: Load, event: LoadEvent)
    requires
        load.budgeted,
        load_step(load, event).1 == LoadAction::Fetch,
    ensures
        load.stage == LoadStage::Reserving,
        event == LoadEvent::Granted,
{
}

/// What is refused once stays refused: after a denial nothing is fetched and
/// nothing is used.
pub proof fn law_denied_ends(load: Load, later: LoadEvent)
    ensures
        load_step(load, LoadEvent::Denied) == (LoadStage::Failed, LoadAction::Fail),
        load_step((Load { stage: LoadStage::Failed, ..load }), later) == (LoadStage::Failed, LoadAction::Fail),
{
}

/// A load that is granted everything comes to its end: it asks for the size of
/// the object, fetches it, and asks for what it turned out to take.
pub proof fn law_load_ends(load: Load, size: usize, len: usize)
    requires
        load.stage == LoadStage::Start,
    ensures
        ({
            let fetching = if load.budgeted {
                let a = Load { stage: load_step(load, LoadEvent::Begin).0, ..load };
                let b = Load { stage: load_step(a, LoadEvent::Size { bytes: size }).0, ..load };
                Load { stage: load_step(b, LoadEvent::Granted).0, ..load }
            } else {
                Load { stage: load_step(load, LoadEvent::Begin).0, ..load }
            };
            let got = Load { stage: load_step(fetching, LoadEvent::Fetched { len }).0, ..load };
            let paid = if got.stage == LoadStage::ToppingUp {
                Load { stage: load_step(got, LoadEvent::Granted).0, ..load }
            } else {
                got
            };
            let end = if paid.stage == LoadStage::Extending {
                Load { stage: load_step(paid, LoadEvent::Granted).0, ..load }
            } else {
                paid
            };
            &&& fetching.stage == LoadStage::Fetching
            &&& end.stage == LoadStage::Done
        }),
{
}

/// What a load asks for, step by step. Under a budget it asks for the size, then
/// for as much of the budget as that or the least that is needed, then for the
/// content; what was fetched is paid for where it may have grown, and so is the
/// size that was set. Without a budget the content is asked for at once.
pub proof fn law_load_asks(load: Load, bytes: usize)
    ensures
        load.stage == LoadStage::Start && load.budgeted ==> load_step(load, LoadEvent::Begin).1 == LoadAction::AskSize,
        load.stage == LoadStage::Start && !load.budgeted ==> load_step(load, LoadEvent::Begin).1 == LoadAction::Fetch,
        load.stage == LoadStage::Sizing && bytes >= load.at_least ==> load_step(load, LoadEvent::Size { bytes }).1 == (
        LoadAction::Reserve { bytes }),
        load.stage == LoadStage::Sizing && bytes < load.at_least ==> load_step(load, LoadEvent::Size { bytes }).1 == (
        LoadAction::Reserve { bytes: load.at_least }),
        load.stage == LoadStage::Reserving ==> load_step(load, LoadEvent::Granted).1 == LoadAction::Fetch,
        load.stage == LoadStage::Fetching && load.budgeted && load.top_up ==> load_step(load, LoadEvent::Fetched {
            len: bytes,
        }).1 == (LoadAction::Reserve { bytes }),
        load.stage == LoadStage::Fetching && !(load.budgeted && load.top_up) && load.extend > 0 ==> load_step(
            load,
            LoadEvent::Fetched { len: bytes },
        ).1 == (LoadAction::Reserve { bytes: load.extend }),
        load.stage == LoadStage::Fetching && !(load.budgeted && load.top_up) && load.extend == 0 ==> load_step(
            load,
            LoadEvent::Fetched { len: bytes },
        ).1 == LoadAction::Use,
        load.stage == LoadStage::ToppingUp && load.extend > 0 ==> load_step(load, LoadEvent::Granted).1 == (
        LoadAction::Reserve { bytes: load.extend }),
        load.stage == LoadStage::ToppingUp && load.extend == 0 ==> load_step(load, LoadEvent::Granted).1 == LoadAction::Use,
        load.stage == LoadStage::Extending ==> load_step(load, LoadEvent::Granted).1 == LoadAction::Use,
        load_step(load, LoadEvent::FetchFailed).1 == LoadAction::Fail,
{
}

/// Content that could not be fetched or paid for is never used.
pub proof fn law_used_only_if_fetched(load: Load, event: LoadEvent)
    requires
        load_step(load, event).1 == LoadAction::Use,
    ensures
        event == LoadEvent::Granted || event is Fetched,
        load.stage == LoadStage::Fetching || load.stage == LoadStage::ToppingUp || load.stage == LoadStage::Extending,
{
}

} // verus!
