//! The thread picker: searches the summaries of the stored threads and
//! hands the selected thread, as a transcript, to a context store.

use vstd::prelude::*;
use crate::cancel::CancellationToken;
use crate::picker::{AfterConfirm, ConfirmBehavior, ContextInsertion, ContextInsertionView,
    ContextKind, Handle, ListItem, ListItemView, QueryClock, after_insertion, clamp_selection,
    clamped, outcome_of, passes};
use crate::rank::{MatchView, views};
use crate::search::{MAX_RESULTS, browse_entry, lemma_search_result, search, search_result,
    text_views};
use crate::text::is_subsequence;

verus! {

/// Who spoke a message.
#[derive(Clone, Copy, PartialEq, Eq, Structural, Debug)]
pub enum Role {
    User,
    Assistant,
    System,
}

/// One message of a thread.
#[derive(Debug)]
pub struct Message {
    pub role: Role,
    pub text: String,
}

/// The mathematical value of a `Message`.
pub struct MessageView {
    pub role: Role,
    pub text: Seq<char>,
}

impl View for Message {
    type V = MessageView;

    open spec fn view(&self) -> MessageView {
        MessageView { role: self.role, text: self.text@ }
    }
}

/// The values of a sequence of messages.
pub open spec fn message_views(messages: Seq<Message>) -> Seq<MessageView> {
    messages.map_values(|m: Message| m@)
}

/// The line that introduces a message of the given role.
pub open spec fn role_label(role: Role) -> Seq<char> {
    match role {
        Role::User => "User:"@,
        Role::Assistant => "Assistant:"@,
        Role::System => "System:"@,
    }
}

/// The transcript of a thread: for each message the line of its role and
/// its text, each closed by a line feed.
pub open spec fn transcript(messages: Seq<MessageView>) -> Seq<char>
    decreases messages.len(),
{
    if messages.len() == 0 {
        Seq::empty()
    } else {
        transcript(messages.drop_last()) + role_label(messages.last().role) + "\n"@
            + messages.last().text + "\n"@
    }
}

/// Writes the transcript of a thread.
pub fn thread_text(messages: &Vec<Message>) -> (text: String)
    ensures
        text@ == transcript(message_views(messages@)),
{
    let mut text = String::new();
    let mut i: usize = 0;
    assert(message_views(messages@).take(0) =~= Seq::<MessageView>::empty());
    while i < messages.len()
        invariant
            i <= messages@.len(),
            text@ == transcript(message_views(messages@).take(i as int)),
        decreases messages@.len() - i,
    {
        let ghost before = message_views(messages@).take(i as int);
        let ghost now = message_views(messages@).take(i + 1);
        proof {
            assert(now.drop_last() =~= before);
            assert(now.last() == messages@[i as int]@);
        }
        let message = &messages[i];
        match message.role {
            Role::User => text.append("User:"),
            Role::Assistant => text.append("Assistant:"),
            Role::System => text.append("System:"),
        }
        text.append("\n");
        text.append(message.text.as_str());
        text.append("\n");
        i = i + 1;
    }
    assert(message_views(messages@).take(messages@.len() as int) =~= message_views(messages@));
    text
}

/// A thread as the picker lists it.
#[derive(Debug)]
pub struct ThreadContextEntry {
    pub id: String,
    pub summary: String,
}

/// The mathematical value of a `ThreadContextEntry`.
pub struct ThreadContextEntryView {
    pub id: Seq<char>,
    pub summary: Seq<char>,
}

impl View for ThreadContextEntry {
    type V = ThreadContextEntryView;

    open spec fn view(&self) -> ThreadContextEntryView {
        ThreadContextEntryView { id: self.id@, summary: self.summary@ }
    }
}

impl Clone for ThreadContextEntry {
    fn clone(&self) -> (r: Self)
        ensures
            r@ == self@,
    {
        ThreadContextEntry { id: self.id.clone(), summary: self.summary.clone() }
    }
}

impl ThreadContextEntry {
    /// The entry of a thread; one without a summary is listed as
    /// "New Thread".
    pub fn new(id: String, summary: Option<String>) -> (entry: Self)
        ensures
            entry.id@ == id@,
            summary matches Some(s) ==> entry.summary@ == s@,
            summary is None ==> entry.summary@ == "New Thread"@,
    {
        match summary {
            Some(s) => ThreadContextEntry { id, summary: s },
            None => ThreadContextEntry { id, summary: String::from_str("New Thread") },
        }
    }
}

/// The values of a sequence of entries.
pub open spec fn entry_views(entries: Seq<ThreadContextEntry>) -> Seq<ThreadContextEntryView> {
    entries.map_values(|e: ThreadContextEntry| e@)
}

/// The display texts of the entries: their summaries.
pub open spec fn summaries(entries: Seq<ThreadContextEntryView>) -> Seq<Seq<char>> {
    entries.map_values(|e: ThreadContextEntryView| e.summary)
}

/// The entries that the matches `ms` stand for, in the order of `ms`.
pub open spec fn entries_of(entries: Seq<ThreadContextEntryView>, ms: Seq<MatchView>) -> Seq<
    ThreadContextEntryView,
> {
    ms.map_values(|m: MatchView| entries[m.candidate as int])
}

/// What a picker shows after a result computed under `generation` has
/// arrived: the result where its generation is the latest, else what it showed.
pub open spec fn shown_after(
    issued: nat,
    shown: Seq<ThreadContextEntryView>,
    generation: nat,
    entries: Seq<ThreadContextEntryView>,
) -> Seq<ThreadContextEntryView> {
    if passes(issued, generation) {
        entries
    } else {
        shown
    }
}

/// Of two queries the later one decides what is shown, in whichever
/// order their results arrive.
pub proof fn lemma_latest_query_is_shown(
    shown: Seq<ThreadContextEntryView>,
    earlier: nat,
    earlier_entries: Seq<ThreadContextEntryView>,
    later: nat,
    later_entries: Seq<ThreadContextEntryView>,
)
    requires
        earlier < later,
    ensures
        shown_after(later, shown_after(later, shown, earlier, earlier_entries), later, later_entries)
            == later_entries,
        shown_after(later, shown_after(later, shown, later, later_entries), earlier, earlier_entries)
            == later_entries,
{
}

/// Searches the summaries of `threads` for at most `MAX_RESULTS`
/// entries.
///
/// The result stands, match for match, for what the search over the
/// summaries returns at the point where it saw `cancel` raised, or at
/// its end.
pub fn search_threads(
    query: &str,
    threads: &Vec<ThreadContextEntry>,
    cancel: &CancellationToken,
) -> (found: Vec<ThreadContextEntry>)
    ensures
        exists|k: int|
            0 <= k <= threads@.len() && entry_views(found@) == entries_of(
                entry_views(threads@),
                #[trigger] search_result(
                    query@,
                    summaries(entry_views(threads@)),
                    MAX_RESULTS as nat,
                    k,
                ),
            ),
        found@.len() <= MAX_RESULTS,
        found@.len() <= threads@.len(),
        query@.len() == 0 ==> forall|i: int|
            0 <= i < found@.len() ==> (#[trigger] found@[i])@ == threads@[i]@,
        query@.len() > 0 ==> forall|i: int|
            0 <= i < found@.len() ==> is_subsequence(query@, (#[trigger] found@[i]).summary@),
{
    let ghost ev = entry_views(threads@);
    let mut texts: Vec<String> = Vec::new();
    let mut i: usize = 0;
    while i < threads.len()
        invariant
            i <= threads@.len(),
            texts@.len() == i,
            forall|j: int| 0 <= j < i ==> (#[trigger] texts@[j])@ == threads@[j].summary@,
        decreases threads@.len() - i,
    {
        texts.push(threads[i].summary.clone());
        i = i + 1;
    }
    assert(text_views(texts@) =~= summaries(ev));
    let ranked = search(query, &texts, MAX_RESULTS, cancel);
    let ghost k = choose|k: int|
        0 <= k <= texts@.len() && views(ranked@) == #[trigger] search_result(
            query@,
            text_views(texts@),
            MAX_RESULTS as nat,
            k,
        );
    let mut found: Vec<ThreadContextEntry> = Vec::new();
    let mut i: usize = 0;
    while i < ranked.len()
        invariant
            i <= ranked@.len(),
            found@.len() == i,
            texts@.len() == threads@.len(),
            forall|j: int|
                0 <= j < ranked@.len() ==> (#[trigger] ranked@[j]).candidate < texts@.len(),
            forall|j: int|
                0 <= j < i ==> (#[trigger] found@[j])@ == threads@[ranked@[j].candidate as int]@,
        decreases ranked@.len() - i,
    {
        found.push(threads[ranked[i].candidate].clone());
        i = i + 1;
    }
    proof {
        let r = search_result(query@, summaries(ev), MAX_RESULTS as nat, k);
        assert(entry_views(found@) =~= entries_of(ev, r)) by {
            assert forall|j: int| 0 <= j < found@.len() implies entry_views(found@)[j]
                == entries_of(ev, r)[j] by {
                assert(views(ranked@)[j] == ranked@[j]@);
            }
        }
        lemma_search_result(query@, summaries(ev), MAX_RESULTS as nat, k);
        assert forall|j: int| 0 <= j < found@.len() && query@.len() == 0 implies (
        #[trigger] found@[j])@ == threads@[j]@ by {
            assert(views(ranked@)[j] == ranked@[j]@);
            assert(r[j] == browse_entry(0, j as nat));
        }
        assert forall|j: int| 0 <= j < found@.len() && query@.len() > 0 implies is_subsequence(
            query@,
            (#[trigger] found@[j]).summary@,
        ) by {
            assert(views(ranked@)[j] == ranked@[j]@);
            assert(summaries(ev)[ranked@[j].candidate as int]
                == threads@[ranked@[j].candidate as int].summary@);
        }
    }
    found
}

/// The state behind the thread picker: the entries on display and the
/// selected one.
pub struct ThreadContextPickerDelegate {
    thread_store: Handle,
    context_picker: Handle,
    context_store: Handle,
    confirm_behavior: ConfirmBehavior,
    matches: Vec<ThreadContextEntry>,
    selected_index: usize,
}

impl ThreadContextPickerDelegate {
    /// The entries on display.
    pub closed spec fn shown(&self) -> Seq<ThreadContextEntryView> {
        entry_views(self.matches@)
    }

    /// The selected index.
    pub closed spec fn selection(&self) -> nat {
        self.selected_index as nat
    }

    /// Whether the picker closes after a confirmed selection.
    pub closed spec fn behavior(&self) -> ConfirmBehavior {
        self.confirm_behavior
    }

    /// The thread store, the context picker and the context store that
    /// the delegate refers to.
    pub closed spec fn handles(&self) -> (Handle, Handle, Handle) {
        (self.thread_store, self.context_picker, self.context_store)
    }

    /// The selection points at an entry, or at zero where there is none.
    pub open spec fn wf(&self) -> bool {
        self.selection() == clamped(self.selection() as int, self.shown().len() as int)
    }

    /// A delegate without entries, with the selection at zero.
    pub fn new(
        thread_store: Handle,
        context_picker: Handle,
        context_store: Handle,
        confirm_behavior: ConfirmBehavior,
    ) -> (delegate: Self)
        ensures
            delegate.wf(),
            delegate.shown() == Seq::<ThreadContextEntryView>::empty(),
            delegate.selection() == 0,
            delegate.behavior() == confirm_behavior,
            delegate.handles() == (thread_store, context_picker, context_store),
    {
        let delegate = ThreadContextPickerDelegate {
            thread_store,
            context_picker,
            context_store,
            confirm_behavior,
            matches: Vec::new(),
            selected_index: 0,
        };
        assert(delegate.shown() =~= Seq::<ThreadContextEntryView>::empty());
        delegate
    }

    /// Searches the summaries of `threads` as `search_threads` does.
    pub fn search(
        &self,
        query: &str,
        threads: &Vec<ThreadContextEntry>,
        cancel: &CancellationToken,
    ) -> (found: Vec<ThreadContextEntry>)
        ensures
            exists|k: int|
                0 <= k <= threads@.len() && entry_views(found@) == entries_of(
                    entry_views(threads@),
                    #[trigger] search_result(
                        query@,
                        summaries(entry_views(threads@)),
                        MAX_RESULTS as nat,
                        k,
                    ),
                ),
            found@.len() <= MAX_RESULTS,
            found@.len() <= threads@.len(),
            query@.len() == 0 ==> forall|i: int|
                0 <= i < found@.len() ==> (#[trigger] found@[i])@ == threads@[i]@,
            query@.len() > 0 ==> forall|i: int|
                0 <= i < found@.len() ==> is_subsequence(query@, (#[trigger] found@[i]).summary@),
    {
        search_threads(query, threads, cancel)
    }

    /// How many entries are on display.
    pub fn match_count(&self) -> (n: usize)
        ensures
            n == self.shown().len(),
    {
        self.matches.len()
    }

    /// The selected index.
    pub fn selected_index(&self) -> (ix: usize)
        ensures
            ix == self.selection(),
    {
        self.selected_index
    }

    /// Selects the entry at `ix`, or the nearest that there is.
    pub fn set_selected_index(&mut self, ix: usize)
        ensures
            final(self).wf(),
            final(self).selection() == clamped(ix as int, old(self).shown().len() as int),
            final(self).shown() == old(self).shown(),
            final(self).behavior() == old(self).behavior(),
            final(self).handles() == old(self).handles(),
    {
        self.selected_index = clamp_selection(ix, self.matches.len());
    }

    /// The hint shown in the empty query field.
    pub fn placeholder_text(&self) -> (text: &'static str)
        ensures
            text@ == "Search threads…"@,
    {
        "Search threads…"
    }

    /// Puts a search result on display and selects its first entry.
    pub fn update_matches(&mut self, matches: Vec<ThreadContextEntry>)
        ensures
            final(self).wf(),
            final(self).shown() == entry_views(matches@),
            final(self).selection() == 0,
            final(self).behavior() == old(self).behavior(),
            final(self).handles() == old(self).handles(),
    {
        self.matches = matches;
        self.selected_index = 0;
    }

    /// The entry that a confirmation is about: the selected one, or
    /// nothing where no entry is selected.
    pub fn confirm(&self) -> (entry: Option<ThreadContextEntry>)
        ensures
            self.selection() >= self.shown().len() ==> entry is None,
            self.selection() < self.shown().len() ==> entry is Some && entry->0@
                == self.shown()[self.selection() as int],
    {
        if self.selected_index < self.matches.len() {
            let entry = self.matches[self.selected_index].clone();
            assert(self.shown()[self.selection() as int] == entry@);
            Some(entry)
        } else {
            None
        }
    }

    /// What confirming `entry` asks the context store to insert: the
    /// thread under its summary, with its transcript as text.
    pub fn insertion(entry: &ThreadContextEntry, messages: &Vec<Message>) -> (insertion:
        ContextInsertion)
        ensures
            insertion@ == (ContextInsertionView {
                kind: ContextKind::Thread,
                label: entry.summary@,
                text: transcript(message_views(messages@)),
            }),
    {
        ContextInsertion {
            kind: ContextKind::Thread,
            label: entry.summary.clone(),
            text: thread_text(messages),
        }
    }

    /// What the picker does once the store has answered a confirmation.
    pub fn confirmed(&self, inserted: bool) -> (r: AfterConfirm)
        ensures
            r == outcome_of(self.behavior(), inserted),
    {
        after_insertion(self.confirm_behavior, inserted)
    }

    /// The picker was dismissed: returns the context picker that is to
    /// leave its mode and announce the dismissal.
    pub fn dismissed(&self) -> (observer: Handle)
        ensures
            observer == self.handles().1,
    {
        self.context_picker
    }

    /// The thread store whose threads are searched and opened.
    pub fn thread_store(&self) -> (store: Handle)
        ensures
            store == self.handles().0,
    {
        self.thread_store
    }

    /// The context store that takes the insertions.
    pub fn context_store(&self) -> (store: Handle)
        ensures
            store == self.handles().2,
    {
        self.context_store
    }

    /// The row for the entry at `ix`, labelled with its summary.
    pub fn render_match(&self, ix: usize, selected: bool) -> (item: Option<ListItem>)
        requires
            ix < self.shown().len(),
        ensures
            item is Some,
            item->0@ == (ListItemView {
                index: ix as nat,
                inset: true,
                selected,
                label: self.shown()[ix as int].summary,
            }),
    {
        let thread = &self.matches[ix];
        assert(self.shown()[ix as int] == thread@);
        Some(ListItem { index: ix, inset: true, selected, label: thread.summary.clone() })
    }
}

/// The thread picker: its delegate, and the clock of its queries, by
/// which only the latest query's result reaches it.
pub struct ThreadContextPicker {
    picker: ThreadContextPickerDelegate,
    clock: QueryClock,
}

impl ThreadContextPicker {
    /// The entries on display.
    pub closed spec fn shown(&self) -> Seq<ThreadContextEntryView> {
        self.picker.shown()
    }

    /// The selected index.
    pub closed spec fn selection(&self) -> nat {
        self.picker.selection()
    }

    /// The generation of the latest query; zero before the first.
    pub closed spec fn issued(&self) -> nat {
        self.clock.issued()
    }

    /// Whether the picker closes after a confirmed selection.
    pub closed spec fn behavior(&self) -> ConfirmBehavior {
        self.picker.behavior()
    }

    /// The selection points at an entry, or at zero where there is none.
    pub closed spec fn wf(&self) -> bool {
        self.picker.wf()
    }

    /// A picker that shows nothing and has been asked nothing.
    pub fn new(
        thread_store: Handle,
        context_picker: Handle,
        context_store: Handle,
        confirm_behavior: ConfirmBehavior,
    ) -> (picker: Self)
        ensures
            picker.wf(),
            picker.shown() == Seq::<ThreadContextEntryView>::empty(),
            picker.selection() == 0,
            picker.issued() == 0,
            picker.behavior() == confirm_behavior,
    {
        let delegate = ThreadContextPickerDelegate::new(
            thread_store,
            context_picker,
            context_store,
            confirm_behavior,
        );
        ThreadContextPicker { picker: delegate, clock: QueryClock::new() }
    }

    /// The delegate, to read and to search with.
    pub fn delegate(&self) -> (delegate: &ThreadContextPickerDelegate)
        ensures
            delegate.shown() == self.shown(),
            delegate.selection() == self.selection(),
            delegate.behavior() == self.behavior(),
            delegate.wf() == self.wf(),
    {
        &self.picker
    }

    /// The generation of the latest query; zero before the first.
    pub fn latest_generation(&self) -> (generation: u64)
        ensures
            generation == self.issued(),
    {
        self.clock.latest()
    }

    /// A new query was typed: the search of the query before is told to
    /// stop, and the new one gets the next generation and its own token.
    /// What is shown stays until a result arrives.
    pub fn begin_query(&mut self) -> (r: (u64, CancellationToken))
        requires
            old(self).issued() < u64::MAX,
        ensures
            final(self).issued() == old(self).issued() + 1,
            r.0 == final(self).issued(),
            final(self).shown() == old(self).shown(),
            final(self).selection() == old(self).selection(),
            final(self).behavior() == old(self).behavior(),
            final(self).wf() == old(self).wf(),
    {
        self.clock.begin()
    }

    /// The result of the search begun under `generation` has arrived. It
    /// goes on display, with its first entry selected, where that
    /// generation is the latest; a result of an earlier one is dropped
    /// and changes nothing. Returns whether the result was put on
    /// display.
    pub fn complete(&mut self, generation: u64, entries: Vec<ThreadContextEntry>) -> (applied: bool)
        ensures
            applied == passes(old(self).issued(), generation as nat),
            final(self).issued() == old(self).issued(),
            final(self).behavior() == old(self).behavior(),
            final(self).shown() == shown_after(
                old(self).issued(),
                old(self).shown(),
                generation as nat,
                entry_views(entries@),
            ),
            applied ==> final(self).wf() && final(self).selection() == 0,
            !applied ==> final(self).selection() == old(self).selection() && final(self).wf()
                == old(self).wf(),
    {
        if self.clock.admits(generation) {
            self.picker.update_matches(entries);
            true
        } else {
            false
        }
    }

    /// Selects the entry at `ix`, or the nearest that there is.
    pub fn set_selected_index(&mut self, ix: usize)
        ensures
            final(self).wf(),
            final(self).selection() == clamped(ix as int, old(self).shown().len() as int),
            final(self).shown() == old(self).shown(),
            final(self).issued() == old(self).issued(),
            final(self).behavior() == old(self).behavior(),
    {
        self.picker.set_selected_index(ix);
    }
}

} // verus!
