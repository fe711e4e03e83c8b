//! What the context pickers share: how a confirmation ends, the clamped
//! selection, and the clock of queries by which only the latest query's
//! result is shown.

use vstd::prelude::*;
use crate::cancel::CancellationToken;

verus! {

/// Whether a picker stays open after a confirmed selection.
#[derive(Clone, Copy, PartialEq, Eq, Structural, Debug)]
pub enum ConfirmBehavior {
    KeepOpen,
    Close,
}

/// The kind tag under which a selection enters a context store.
#[derive(Clone, Copy, PartialEq, Eq, Structural, Debug)]
pub enum ContextKind {
    Directory,
    Thread,
}

/// What a picker does once the store has answered a confirmation.
#[derive(Clone, Copy, PartialEq, Eq, Structural, Debug)]
pub enum AfterConfirm {
    StayOpen,
    Dismiss,
}

/// A non-owning reference to something outside the picker, by
/// identifier. Whoever resolves it must expect that the entity is gone.
#[derive(Clone, Copy, PartialEq, Eq, Structural, Debug)]
pub struct Handle {
    pub id: u64,
}

/// What a confirmed selection asks a context store to insert.
#[derive(Debug)]
pub struct ContextInsertion {
    pub kind: ContextKind,
    pub label: String,
    pub text: String,
}

/// The mathematical value of a `ContextInsertion`.
pub struct ContextInsertionView {
    pub kind: ContextKind,
    pub label: Seq<char>,
    pub text: Seq<char>,
}

impl View for ContextInsertion {
    type V = ContextInsertionView;

    open spec fn view(&self) -> ContextInsertionView {
        ContextInsertionView { kind: self.kind, label: self.label@, text: self.text@ }
    }
}

/// One rendered row of a picker.
#[derive(Debug)]
pub struct ListItem {
    pub index: usize,
    pub inset: bool,
    pub selected: bool,
    pub label: String,
}

/// The mathematical value of a `ListItem`.
pub struct ListItemView {
    pub index: nat,
    pub inset: bool,
    pub selected: bool,
    pub label: Seq<char>,
}

impl View for ListItem {
    type V = ListItemView;

    open spec fn view(&self) -> ListItemView {
        ListItemView {
            index: self.index as nat,
            inset: self.inset,
            selected: self.selected,
            label: self.label@,
        }
    }
}

/// The index nearest to `ix` that selects one of `count` matches; zero
/// where there is none to select.
pub open spec fn clamped(ix: int, count: int) -> int {
    if count <= 0 {
        0
    } else if ix < count {
        ix
    } else {
        count - 1
    }
}

/// Clamps a selection to the matches that there are.
pub fn clamp_selection(ix: usize, count: usize) -> (r: usize)
    ensures
        r == clamped(ix as int, count as int),
        count > 0 ==> r < count,
{
    if count == 0 {
        0
    } else if ix < count {
        ix
    } else {
        count - 1
    }
}

/// A picker closes after a confirmation only where it was told to close
/// and the store took the insertion: a failed insertion leaves the
/// picker as it was.
pub open spec fn outcome_of(behavior: ConfirmBehavior, inserted: bool) -> AfterConfirm {
    if inserted && behavior == ConfirmBehavior::Close {
        AfterConfirm::Dismiss
    } else {
        AfterConfirm::StayOpen
    }
}

/// What to do after the store has answered: `inserted` says whether it
/// took the insertion.
pub fn after_insertion(behavior: ConfirmBehavior, inserted: bool) -> (r: AfterConfirm)
    ensures
        r == outcome_of(behavior, inserted),
{
    if inserted && behavior == ConfirmBehavior::Close {
        AfterConfirm::Dismiss
    } else {
        AfterConfirm::StayOpen
    }
}

/// The clock of search generations. Every query gets the next generation
/// and a fresh token; the token of the query before it is raised at that
/// moment. A result is shown only under the latest generation.
pub struct QueryClock {
    issued: u64,
    token: CancellationToken,
}

impl QueryClock {
    /// The generation of the latest query; zero before the first.
    pub closed spec fn issued(&self) -> nat {
        self.issued as nat
    }

    /// A clock that no query has advanced yet.
    pub fn new() -> (clock: Self)
        ensures
            clock.issued() == 0,
    {
        QueryClock { issued: 0, token: CancellationToken::new() }
    }

    /// The generation of the latest query.
    pub fn latest(&self) -> (generation: u64)
        ensures
            generation == self.issued(),
    {
        self.issued
    }

    /// Opens the next generation: raises the token of the query before,
    /// and returns the new generation with its token.
    pub fn begin(&mut self) -> (r: (u64, CancellationToken))
        requires
            old(self).issued() < u64::MAX,
        ensures
            final(self).issued() == old(self).issued() + 1,
            r.0 == final(self).issued(),
    {
        self.token.raise();
        let token = CancellationToken::new();
        self.token = token.clone();
        self.issued = self.issued + 1;
        (self.issued, token)
    }

    /// Whether a result computed under `generation` may be shown.
    pub fn admits(&self, generation: u64) -> (b: bool)
        ensures
            b == passes(self.issued(), generation as nat),
    {
        generation > 0 && generation == self.issued
    }
}

/// A result passes where its generation is that of the latest query.
pub open spec fn passes(issued: nat, generation: nat) -> bool {
    generation > 0 && generation == issued
}

/// Of two generations only the later can be the latest: whichever of the
/// two results arrives first, the earlier one never passes.
pub proof fn lemma_only_latest_passes(issued: nat, earlier: nat, later: nat)
    requires
        earlier < later <= issued,
    ensures
        !passes(issued, earlier),
        passes(issued, later) <==> later == issued,
{
}

} // verus!
