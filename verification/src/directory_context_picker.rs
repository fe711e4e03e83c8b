//! The directory picker: searches the directories of the open worktrees
//! and hands the selected one to a context store.

use vstd::prelude::*;
use crate::cancel::CancellationToken;
use crate::picker::{AfterConfirm, ConfirmBehavior, ContextInsertion, ContextInsertionView,
    ContextKind, Handle, ListItem, ListItemView, QueryClock, after_insertion, clamp_selection,
    clamped, outcome_of, passes};
use crate::rank::{MatchView, views};
use crate::search::{MAX_RESULTS, text_views};
use crate::sources::{is_entry_of, is_match_of, is_progress, lemma_sources_result,
    search_sources, source_views, sources_result};
use crate::text::is_subsequence;

verus! {

/// What the picker reads of one worktree: its identifier, the name of its
/// root, and the relative paths of its directories in tree order.
#[derive(Debug)]
pub struct WorktreeSnapshot {
    pub id: usize,
    pub root_name: String,
    pub directories: Vec<String>,
}

/// The mathematical value of a `WorktreeSnapshot`.
pub struct WorktreeView {
    pub id: nat,
    pub root_name: Seq<char>,
    pub directories: Seq<Seq<char>>,
}

impl View for WorktreeSnapshot {
    type V = WorktreeView;

    open spec fn view(&self) -> WorktreeView {
        WorktreeView {
            id: self.id as nat,
            root_name: self.root_name@,
            directories: text_views(self.directories@),
        }
    }
}

/// The values of a sequence of worktrees.
pub open spec fn worktree_views(worktrees: Seq<WorktreeSnapshot>) -> Seq<WorktreeView> {
    worktrees.map_values(|w: WorktreeSnapshot| w@)
}

/// The candidate sources of a search: the directories of each worktree.
pub open spec fn directory_sources(worktrees: Seq<WorktreeView>) -> Seq<Seq<Seq<char>>> {
    worktrees.map_values(|w: WorktreeView| w.directories)
}

/// A matched path.
#[derive(Debug)]
pub struct PathMatch {
    pub score: u64,
    pub positions: Vec<usize>,
    pub worktree_id: usize,
    pub path: String,
    pub path_prefix: String,
    /// How far the path lies from a reference path. This picker gives
    /// none, so the distance is always zero.
    pub distance_to_relative_ancestor: usize,
    pub is_dir: bool,
}

/// The mathematical value of a `PathMatch`.
pub struct PathMatchView {
    pub score: nat,
    pub positions: Seq<usize>,
    pub worktree_id: nat,
    pub path: Seq<char>,
    pub path_prefix: Seq<char>,
    pub distance_to_relative_ancestor: nat,
    pub is_dir: bool,
}

impl View for PathMatch {
    type V = PathMatchView;

    open spec fn view(&self) -> PathMatchView {
        PathMatchView {
            score: self.score as nat,
            positions: self.positions@,
            worktree_id: self.worktree_id as nat,
            path: self.path@,
            path_prefix: self.path_prefix@,
            distance_to_relative_ancestor: self.distance_to_relative_ancestor as nat,
            is_dir: self.is_dir,
        }
    }
}

impl Clone for PathMatch {
    fn clone(&self) -> (r: Self)
        ensures
            r@ == self@,
    {
        let mut positions: Vec<usize> = Vec::new();
        let mut i: usize = 0;
        while i < self.positions.len()
            invariant
                i <= self.positions@.len(),
                positions@ == self.positions@.take(i as int),
            decreases self.positions@.len() - i,
        {
            positions.push(self.positions[i]);
            i = i + 1;
        }
        assert(positions@ =~= self.positions@);
        PathMatch {
            score: self.score,
            positions,
            worktree_id: self.worktree_id,
            path: self.path.clone(),
            path_prefix: self.path_prefix.clone(),
            distance_to_relative_ancestor: self.distance_to_relative_ancestor,
            is_dir: self.is_dir,
        }
    }
}

/// The values of a sequence of path matches.
pub open spec fn path_views(paths: Seq<PathMatch>) -> Seq<PathMatchView> {
    paths.map_values(|p: PathMatch| p@)
}

/// The path match that stands for the match `m` of a search over the
/// directories of `worktrees`.
pub open spec fn path_match_of(worktrees: Seq<WorktreeView>, m: MatchView) -> PathMatchView {
    PathMatchView {
        score: m.score,
        positions: m.positions,
        worktree_id: worktrees[m.source as int].id,
        path: worktrees[m.source as int].directories[m.candidate as int],
        path_prefix: worktrees[m.source as int].root_name,
        distance_to_relative_ancestor: 0,
        is_dir: true,
    }
}

/// The path matches that stand for the matches `ms`.
pub open spec fn path_matches_of(worktrees: Seq<WorktreeView>, ms: Seq<MatchView>) -> Seq<
    PathMatchView,
> {
    ms.map_values(|m: MatchView| path_match_of(worktrees, m))
}

/// A path match is shown unless its path is empty: the empty path stands
/// for a worktree's root, which is no directory to pick.
pub open spec fn is_shown(p: PathMatchView) -> bool {
    p.path.len() > 0
}

/// The path matches that are shown, in their order.
pub open spec fn shown_paths(paths: Seq<PathMatchView>) -> Seq<PathMatchView> {
    paths.filter(|p: PathMatchView| is_shown(p))
}

/// What a picker shows after a result computed under `generation` has
/// arrived: the result where its generation is the latest, else what it showed.
pub open spec fn shown_after(
    issued: nat,
    shown: Seq<PathMatchView>,
    generation: nat,
    paths: Seq<PathMatchView>,
) -> Seq<PathMatchView> {
    if passes(issued, generation) {
        shown_paths(paths)
    } else {
        shown
    }
}

/// Of two queries the later one decides what is shown, in whichever
/// order their results arrive.
pub proof fn lemma_latest_query_is_shown(
    shown: Seq<PathMatchView>,
    earlier: nat,
    earlier_paths: Seq<PathMatchView>,
    later: nat,
    later_paths: Seq<PathMatchView>,
)
    requires
        earlier < later,
    ensures
        shown_after(later, shown_after(later, shown, earlier, earlier_paths), later, later_paths)
            == shown_paths(later_paths),
        shown_after(later, shown_after(later, shown, later, later_paths), earlier, earlier_paths)
            == shown_paths(later_paths),
{
}

/// The directories of the worktrees as candidate sources.
fn directory_texts(worktrees: &Vec<WorktreeSnapshot>) -> (sources: Vec<Vec<String>>)
    ensures
        source_views(sources@) == directory_sources(worktree_views(worktrees@)),
{
    let mut sources: Vec<Vec<String>> = Vec::new();
    let mut s: usize = 0;
    while s < worktrees.len()
        invariant
            s <= worktrees@.len(),
            sources@.len() == s,
            forall|i: int| 0 <= i < s ==> text_views((#[trigger] sources@[i])@) == worktrees@[i]@.directories,
        decreases worktrees@.len() - s,
    {
        let directories = &worktrees[s].directories;
        let mut texts: Vec<String> = Vec::new();
        let mut k: usize = 0;
        while k < directories.len()
            invariant
                k <= directories@.len(),
                texts@.len() == k,
                forall|i: int| 0 <= i < k ==> (#[trigger] texts@[i])@ == directories@[i]@,
            decreases directories@.len() - k,
        {
            texts.push(directories[k].clone());
            k = k + 1;
        }
        assert(text_views(texts@) =~= text_views(directories@));
        sources.push(texts);
        s = s + 1;
    }
    assert(source_views(sources@) =~= directory_sources(worktree_views(worktrees@)));
    sources
}

/// Searches the directories of `worktrees`, all worktrees ranked
/// together, for at most `MAX_RESULTS` path matches.
///
/// The result stands, match for match, for what the search over the
/// directories as candidate sources returns at the point where it saw
/// `cancel` raised, or at its end.
pub fn search_directories(
    query: &str,
    worktrees: &Vec<WorktreeSnapshot>,
    cancel: &CancellationToken,
) -> (found: Vec<PathMatch>)
    ensures
        exists|s: int, k: int|
            is_progress(directory_sources(worktree_views(worktrees@)), s, k) && path_views(
                found@,
            ) == path_matches_of(
                worktree_views(worktrees@),
                #[trigger] sources_result(
                    query@,
                    directory_sources(worktree_views(worktrees@)),
                    MAX_RESULTS as nat,
                    s,
                    k,
                ),
            ),
        found@.len() <= MAX_RESULTS,
        forall|i: int|
            0 <= i < found@.len() ==> (#[trigger] found@[i]).is_dir
                && found@[i].distance_to_relative_ancestor == 0,
        query@.len() == 0 ==> forall|i: int|
            0 <= i < found@.len() ==> (#[trigger] found@[i]).score == 0
                && found@[i].positions@.len() == 0,
        query@.len() > 0 ==> forall|i: int|
            0 <= i < found@.len() ==> (#[trigger] found@[i]).score > 0 && is_subsequence(
                query@,
                found@[i].path@,
            ),
{
    let ghost wv = worktree_views(worktrees@);
    let ghost dirs = directory_sources(wv);
    let sources = directory_texts(worktrees);
    let ranked = search_sources(query, &sources, MAX_RESULTS, cancel);
    let ghost (s, k) = choose|s: int, k: int|
        is_progress(dirs, s, k) && views(ranked@) == #[trigger] sources_result(
            query@,
            dirs,
            MAX_RESULTS as nat,
            s,
            k,
        );
    let mut found: Vec<PathMatch> = Vec::new();
    let mut i: usize = 0;
    while i < ranked.len()
        invariant
            i <= ranked@.len(),
            found@.len() == i,
            wv == worktree_views(worktrees@),
            dirs == directory_sources(wv),
            source_views(sources@) == dirs,
            forall|j: int|
                0 <= j < ranked@.len() ==> (#[trigger] ranked@[j]).source < sources@.len()
                    && ranked@[j].candidate < sources@[ranked@[j].source as int]@.len(),
            forall|j: int| 0 <= j < i ==> (#[trigger] found@[j])@ == path_match_of(wv, ranked@[j]@),
        decreases ranked@.len() - i,
    {
        let m = ranked[i].clone();
        assert(m@ == ranked@[i as int]@);
        assert(dirs.len() == worktrees@.len());
        assert(dirs[m.source as int] == text_views(sources@[m.source as int]@));
        assert(dirs[m.source as int] == wv[m.source as int].directories);
        let worktree = &worktrees[m.source];
        assert(worktree@ == wv[m.source as int]);
        assert(worktree.directories@.len() == sources@[m.source as int]@.len());
        let path = worktree.directories[m.candidate].clone();
        let p = PathMatch {
            score: m.score,
            positions: m.positions,
            worktree_id: worktree.id,
            path,
            path_prefix: worktree.root_name.clone(),
            distance_to_relative_ancestor: 0,
            is_dir: true,
        };
        found.push(p);
        i = i + 1;
    }
    proof {
        let r = sources_result(query@, dirs, MAX_RESULTS as nat, s, k);
        assert(path_views(found@) =~= path_matches_of(wv, r)) by {
            assert forall|j: int| 0 <= j < found@.len() implies path_views(found@)[j]
                == path_matches_of(wv, r)[j] by {
                assert(views(ranked@)[j] == ranked@[j]@);
            }
        }
        lemma_sources_result(query@, dirs, MAX_RESULTS as nat, s, k);
        assert forall|j: int| 0 <= j < found@.len() && query@.len() == 0 implies (
        #[trigger] found@[j]).score == 0 && found@[j].positions@.len() == 0 by {
            assert(views(ranked@)[j] == ranked@[j]@);
            assert(is_entry_of(r[j], dirs));
        }
        assert forall|j: int| 0 <= j < found@.len() && query@.len() > 0 implies (
        #[trigger] found@[j]).score > 0 && is_subsequence(query@, found@[j].path@) by {
            assert(views(ranked@)[j] == ranked@[j]@);
            assert(is_match_of(r[j], query@, dirs));
        }
    }
    found
}

/// The state behind the directory picker: the matches on display and the
/// selected one.
pub struct DirectoryContextPickerDelegate {
    context_picker: Handle,
    workspace: Handle,
    context_store: Handle,
    confirm_behavior: ConfirmBehavior,
    matches: Vec<PathMatch>,
    selected_index: usize,
}

impl DirectoryContextPickerDelegate {
    /// The matches on display.
    pub closed spec fn shown(&self) -> Seq<PathMatchView> {
        path_views(self.matches@)
    }

    /// The selected index.
    pub closed spec fn selection(&self) -> nat {
        self.selected_index as nat
    }

    /// Whether the picker closes after a confirmed selection.
    pub closed spec fn behavior(&self) -> ConfirmBehavior {
        self.confirm_behavior
    }

    /// The context picker, the workspace and the context store that the
    /// delegate refers to.
    pub closed spec fn handles(&self) -> (Handle, Handle, Handle) {
        (self.context_picker, self.workspace, self.context_store)
    }

    /// The selection points at a match, or at zero where there is none.
    pub open spec fn wf(&self) -> bool {
        self.selection() == clamped(self.selection() as int, self.shown().len() as int)
    }

    /// A delegate without matches, with the selection at zero.
    pub fn new(
        context_picker: Handle,
        workspace: Handle,
        context_store: Handle,
        confirm_behavior: ConfirmBehavior,
    ) -> (delegate: Self)
        ensures
            delegate.wf(),
            delegate.shown() == Seq::<PathMatchView>::empty(),
            delegate.selection() == 0,
            delegate.behavior() == confirm_behavior,
            delegate.handles() == (context_picker, workspace, context_store),
    {
        let delegate = DirectoryContextPickerDelegate {
            context_picker,
            workspace,
            context_store,
            confirm_behavior,
            matches: Vec::new(),
            selected_index: 0,
        };
        assert(delegate.shown() =~= Seq::<PathMatchView>::empty());
        delegate
    }

    /// Searches the directories of `worktrees` as `search_directories`
    /// does.
    pub fn search(
        &self,
        query: &str,
        worktrees: &Vec<WorktreeSnapshot>,
        cancel: &CancellationToken,
    ) -> (found: Vec<PathMatch>)
        ensures
            exists|s: int, k: int|
                is_progress(directory_sources(worktree_views(worktrees@)), s, k) && path_views(
                    found@,
                ) == path_matches_of(
                    worktree_views(worktrees@),
                    #[trigger] sources_result(
                        query@,
                        directory_sources(worktree_views(worktrees@)),
                        MAX_RESULTS as nat,
                        s,
                        k,
                    ),
                ),
            found@.len() <= MAX_RESULTS,
            forall|i: int|
                0 <= i < found@.len() ==> (#[trigger] found@[i]).is_dir
                    && found@[i].distance_to_relative_ancestor == 0,
            query@.len() == 0 ==> forall|i: int|
                0 <= i < found@.len() ==> (#[trigger] found@[i]).score == 0
                    && found@[i].positions@.len() == 0,
            query@.len() > 0 ==> forall|i: int|
                0 <= i < found@.len() ==> (#[trigger] found@[i]).score > 0 && is_subsequence(
                    query@,
                    found@[i].path@,
                ),
    {
        search_directories(query, worktrees, cancel)
    }

    /// How many matches are on display.
    pub fn match_count(&self) -> (n: usize)
        ensures
            n == self.shown().len(),
    {
        self.matches.len()
    }

    /// The selected index.
    pub fn selected_index(&self) -> (ix: usize)
        ensures
            ix == self.selection(),
    {
        self.selected_index
    }

    /// Selects the match at `ix`, or the nearest that there is.
    pub fn set_selected_index(&mut self, ix: usize)
        ensures
            final(self).wf(),
            final(self).selection() == clamped(ix as int, old(self).shown().len() as int),
            final(self).shown() == old(self).shown(),
            final(self).behavior() == old(self).behavior(),
            final(self).handles() == old(self).handles(),
    {
        self.selected_index = clamp_selection(ix, self.matches.len());
    }

    /// The hint shown in the empty query field.
    pub fn placeholder_text(&self) -> (text: &'static str)
        ensures
            text@ == "Search folders…"@,
    {
        "Search folders…"
    }

    /// Puts a search result on display: the path matches with an empty
    /// path leave, the others stay in their order, and the selection is
    /// clamped to them. Nothing is scored again.
    pub fn update_matches(&mut self, paths: Vec<PathMatch>)
        ensures
            final(self).wf(),
            final(self).shown() == shown_paths(path_views(paths@)),
            final(self).selection() == clamped(
                old(self).selection() as int,
                final(self).shown().len() as int,
            ),
            final(self).behavior() == old(self).behavior(),
            final(self).handles() == old(self).handles(),
    {
        let mut kept: Vec<PathMatch> = Vec::new();
        let mut i: usize = 0;
        assert(path_views(paths@).take(0) =~= Seq::<PathMatchView>::empty());
        assert(shown_paths(Seq::<PathMatchView>::empty()) =~= Seq::<PathMatchView>::empty()) by {
            reveal(Seq::filter);
        }
        assert(path_views(kept@) =~= Seq::<PathMatchView>::empty());
        while i < paths.len()
            invariant
                i <= paths@.len(),
                path_views(kept@) == shown_paths(path_views(paths@).take(i as int)),
            decreases paths@.len() - i,
        {
            let ghost before = path_views(paths@).take(i as int);
            let ghost now = path_views(paths@).take(i + 1);
            let ghost held = path_views(kept@);
            proof {
                reveal(Seq::filter);
                assert(now.drop_last() =~= before);
                assert(now.last() == paths@[i as int]@);
            }
            if !paths[i].path.as_str().is_empty() {
                kept.push(paths[i].clone());
                assert(path_views(kept@) =~= held.push(paths@[i as int]@));
            }
            i = i + 1;
        }
        assert(path_views(paths@).take(paths@.len() as int) =~= path_views(paths@));
        self.selected_index = clamp_selection(self.selected_index, kept.len());
        self.matches = kept;
    }

    /// What confirming the selection asks the context store to insert:
    /// the selected directory under its path, with no text. Nothing where
    /// no match is selected.
    pub fn confirm(&self) -> (insertion: Option<ContextInsertion>)
        ensures
            self.selection() >= self.shown().len() ==> insertion is None,
            self.selection() < self.shown().len() ==> insertion is Some && insertion->0@ == (
            ContextInsertionView {
                kind: ContextKind::Directory,
                label: self.shown()[self.selection() as int].path,
                text: Seq::<char>::empty(),
            }),
    {
        if self.selected_index < self.matches.len() {
            let mat = &self.matches[self.selected_index];
            assert(self.shown()[self.selection() as int] == mat@);
            Some(
                ContextInsertion {
                    kind: ContextKind::Directory,
                    label: mat.path.clone(),
                    text: String::new(),
                },
            )
        } else {
            None
        }
    }

    /// What the picker does once the store has answered a confirmation.
    pub fn confirmed(&self, inserted: bool) -> (r: AfterConfirm)
        ensures
            r == outcome_of(self.behavior(), inserted),
    {
        after_insertion(self.confirm_behavior, inserted)
    }

    /// The picker was dismissed: returns the context picker that is to
    /// leave its mode and announce the dismissal.
    pub fn dismissed(&self) -> (observer: Handle)
        ensures
            observer == self.handles().0,
    {
        self.context_picker
    }

    /// The workspace whose worktrees are searched.
    pub fn workspace(&self) -> (workspace: Handle)
        ensures
            workspace == self.handles().1,
    {
        self.workspace
    }

    /// The context store that takes the insertions.
    pub fn context_store(&self) -> (store: Handle)
        ensures
            store == self.handles().2,
    {
        self.context_store
    }

    /// The row for the match at `ix`, labelled with its path.
    pub fn render_match(&self, ix: usize, selected: bool) -> (item: Option<ListItem>)
        requires
            ix < self.shown().len(),
        ensures
            item is Some,
            item->0@ == (ListItemView {
                index: ix as nat,
                inset: true,
                selected,
                label: self.shown()[ix as int].path,
            }),
    {
        let path_match = &self.matches[ix];
        assert(self.shown()[ix as int] == path_match@);
        Some(ListItem { index: ix, inset: true, selected, label: path_match.path.clone() })
    }
}

/// The directory picker: its delegate, and the clock of its queries, by
/// which only the latest query's result reaches it.
pub struct DirectoryContextPicker {
    picker: DirectoryContextPickerDelegate,
    clock: QueryClock,
}

impl DirectoryContextPicker {
    /// The matches on display.
    pub closed spec fn shown(&self) -> Seq<PathMatchView> {
        self.picker.shown()
    }

    /// The selected index.
    pub closed spec fn selection(&self) -> nat {
        self.picker.selection()
    }

    /// The generation of the latest query; zero before the first.
    pub closed spec fn issued(&self) -> nat {
        self.clock.issued()
    }

    /// Whether the picker closes after a confirmed selection.
    pub closed spec fn behavior(&self) -> ConfirmBehavior {
        self.picker.behavior()
    }

    /// The selection points at a match, or at zero where there is none.
    pub closed spec fn wf(&self) -> bool {
        self.picker.wf()
    }

    /// A picker that shows nothing and has been asked nothing.
    pub fn new(
        context_picker: Handle,
        workspace: Handle,
        context_store: Handle,
        confirm_behavior: ConfirmBehavior,
    ) -> (picker: Self)
        ensures
            picker.wf(),
            picker.shown() == Seq::<PathMatchView>::empty(),
            picker.selection() == 0,
            picker.issued() == 0,
            picker.behavior() == confirm_behavior,
    {
        let delegate = DirectoryContextPickerDelegate::new(
            context_picker,
            workspace,
            context_store,
            confirm_behavior,
        );
        DirectoryContextPicker { picker: delegate, clock: QueryClock::new() }
    }

    /// The delegate, to read and to search with.
    pub fn delegate(&self) -> (delegate: &DirectoryContextPickerDelegate)
        ensures
            delegate.shown() == self.shown(),
            delegate.selection() == self.selection(),
            delegate.behavior() == self.behavior(),
            delegate.wf() == self.wf(),
    {
        &self.picker
    }

    /// The generation of the latest query; zero before the first.
    pub fn latest_generation(&self) -> (generation: u64)
        ensures
            generation == self.issued(),
    {
        self.clock.latest()
    }

    /// A new query was typed: the search of the query before is told to
    /// stop, and the new one gets the next generation and its own token.
    /// What is shown stays until a result arrives.
    pub fn begin_query(&mut self) -> (r: (u64, CancellationToken))
        requires
            old(self).issued() < u64::MAX,
        ensures
            final(self).issued() == old(self).issued() + 1,
            r.0 == final(self).issued(),
            final(self).shown() == old(self).shown(),
            final(self).selection() == old(self).selection(),
            final(self).behavior() == old(self).behavior(),
            final(self).wf() == old(self).wf(),
    {
        self.clock.begin()
    }

    /// The result of the search begun under `generation` has arrived. It
    /// goes on display where that generation is the latest; a result of
    /// an earlier one is dropped and changes nothing. Returns whether the
    /// result was put on display.
    pub fn complete(&mut self, generation: u64, paths: Vec<PathMatch>) -> (applied: bool)
        ensures
            applied == passes(old(self).issued(), generation as nat),
            final(self).issued() == old(self).issued(),
            final(self).behavior() == old(self).behavior(),
            final(self).shown() == shown_after(
                old(self).issued(),
                old(self).shown(),
                generation as nat,
                path_views(paths@),
            ),
            applied ==> final(self).wf() && final(self).selection() == clamped(
                old(self).selection() as int,
                final(self).shown().len() as int,
            ),
            !applied ==> final(self).selection() == old(self).selection() && final(self).wf()
                == old(self).wf(),
    {
        if self.clock.admits(generation) {
            self.picker.update_matches(paths);
            true
        } else {
            false
        }
    }

    /// Selects the match at `ix`, or the nearest that there is.
    pub fn set_selected_index(&mut self, ix: usize)
        ensures
            final(self).wf(),
            final(self).selection() == clamped(ix as int, old(self).shown().len() as int),
            final(self).shown() == old(self).shown(),
            final(self).issued() == old(self).issued(),
            final(self).behavior() == old(self).behavior(),
    {
        self.picker.set_selected_index(ix);
    }
}

} // verus!
