//! The values that a repair session works on.

use vstd::prelude::*;
use crate::fuzzy::ScoredCandidate;
use crate::text::{decimal, push_decimal};

verus! {

/// One broken link to repair: where it is, what it pointed at, and the
/// ranked places its target may have moved to.
pub struct RepairCase {
    pub link: String,
    pub original_target: String,
    pub candidates: Vec<ScoredCandidate>,
}

impl RepairCase {
    pub fn new(link: String, original_target: String, candidates: Vec<ScoredCandidate>) -> (r:
        RepairCase)
        ensures
            r.link == link,
            r.original_target == original_target,
            r.candidates == candidates,
    {
        RepairCase { link, original_target, candidates }
    }
}

/// What is done with a broken link.
pub enum Action {
    /// Point the link at this path.
    Relink(String),
    Skip,
    Remove,
}

/// An action as a mathematical value.
pub enum ActionSpec {
    Relink(Seq<char>),
    Skip,
    Remove,
}

impl View for Action {
    type V = ActionSpec;

    open spec fn view(&self) -> ActionSpec {
        match self {
            Action::Relink(p) => ActionSpec::Relink(p@),
            Action::Skip => ActionSpec::Skip,
            Action::Remove => ActionSpec::Remove,
        }
    }
}

/// How many links a session relinked, skipped and removed.
#[derive(Debug, Clone, Copy, PartialEq, Eq, Structural)]
pub struct Summary {
    pub relinked: usize,
    pub skipped: usize,
    pub removed: usize,
}

/// `s` after counting one more `a`.
pub open spec fn recorded(s: Summary, a: ActionSpec) -> Summary {
    match a {
        ActionSpec::Relink(_) => Summary { relinked: (s.relinked + 1) as usize, ..s },
        ActionSpec::Skip => Summary { skipped: (s.skipped + 1) as usize, ..s },
        ActionSpec::Remove => Summary { removed: (s.removed + 1) as usize, ..s },
    }
}

impl Summary {
    /// Every count added up.
    pub open spec fn total_spec(&self) -> int {
        self.relinked + self.skipped + self.removed
    }

    /// A summary with nothing counted yet.
    pub fn new() -> (r: Summary)
        ensures
            r == (Summary { relinked: 0, skipped: 0, removed: 0 }),
    {
        Summary { relinked: 0, skipped: 0, removed: 0 }
    }

    /// Counts one more link handled with `action`.
    pub fn record(&mut self, action: &Action)
        requires
            old(self).total_spec() < usize::MAX,
        ensures
            *final(self) == recorded(*old(self), action@),
            final(self).total_spec() == old(self).total_spec() + 1,
    {
        match action {
            Action::Relink(_) => self.relinked = self.relinked + 1,
            Action::Skip => self.skipped = self.skipped + 1,
            Action::Remove => self.removed = self.removed + 1,
        }
    }

    /// How many links were handled in all.
    pub fn total(&self) -> (r: usize)
        requires
            self.total_spec() <= usize::MAX,
        ensures
            r == self.total_spec(),
    {
        self.relinked + self.skipped + self.removed
    }
}

/// The one-line account of a summary.
pub open spec fn summary_text(s: Summary) -> Seq<char> {
    decimal(s.relinked as nat) + " relinked, "@ + decimal(s.skipped as nat) + " skipped, "@
        + decimal(s.removed as nat) + " removed"@
}

impl Summary {
    /// Renders the counts on one line.
    pub fn to_string(&self) -> (r: String)
        ensures
            r@ == summary_text(*self),
    {
        let mut r = String::new();
        push_decimal(&mut r, self.relinked as u64);
        r.append(" relinked, ");
        push_decimal(&mut r, self.skipped as u64);
        r.append(" skipped, ");
        push_decimal(&mut r, self.removed as u64);
        r.append(" removed");
        assert(r@ =~= summary_text(*self));
        r
    }
}

impl Default for Summary {
    fn default() -> (r: Summary)
        ensures
            r == (Summary { relinked: 0, skipped: 0, removed: 0 }),
    {
        Summary::new()
    }
}

} // verus!
