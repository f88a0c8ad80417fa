//! The panel itself: what it holds, and how it reacts to what happens around
//! it.

use crate::panel::expansion;
use crate::panel::expansion::Expanded;
use crate::panel::file_menu;
use crate::panel::file_menu::{requested_move, requested_unshelve, MoveRequest};
use crate::panel::rows;
use crate::panel::rows::{build_rows, render_row, DraggedPerforceFile, Row, RowRef};
use crate::path::RepoPath;
use crate::perforce::changelists::{
    ChangelistFile, ChangelistId, PerforceChangelist, PerforceChangelistView,
};
use crate::perforce::repository::LogSource;
use crate::status::FileStatus;
use crate::text;
use crate::text_map::PathSet;
use vstd::prelude::*;

verus! {

/// A side of the window that a panel can stand on.
#[derive(Debug, Clone, Copy, PartialEq, Eq, Structural)]
pub enum DockPosition {
    Left,
    Bottom,
    Right,
}

/// An icon of the panel.
#[derive(Debug, Clone, Copy, PartialEq, Eq, Structural)]
pub enum PanelIcon {
    GitBranch,
    ListTree,
    ListCollapse,
}

/// What happened to a repository.
#[derive(Debug, Clone, Copy, PartialEq, Eq, Structural)]
pub enum RepositoryEvent {
    StatusesChanged,
    HeadChanged,
    Other,
}

/// What happened to the repositories of the project.
#[derive(Debug, Clone, Copy, PartialEq, Eq, Structural)]
pub enum GitStoreEvent {
    ActiveRepositoryChanged,
    RepositoryAdded,
    RepositoryRemoved,
    /// Whether it is the active repository says `is_active`.
    RepositoryUpdated { event: RepositoryEvent, is_active: bool },
    Other,
}

/// Whether an event can change which repository is active or what it holds.
pub open spec fn concerns_panel(event: GitStoreEvent) -> bool {
    match event {
        GitStoreEvent::ActiveRepositoryChanged => true,
        GitStoreEvent::RepositoryAdded => true,
        GitStoreEvent::RepositoryRemoved => true,
        GitStoreEvent::RepositoryUpdated { event, is_active } => is_active && event
            != RepositoryEvent::Other,
        GitStoreEvent::Other => false,
    }
}

/// What the panel asks for: to be drawn again, and to be given the changelists
/// and the files that are out of date.
#[derive(Debug, Clone, Copy, PartialEq, Eq, Structural)]
pub struct Reaction {
    pub notify: bool,
    pub fetch: bool,
}

/// What the panel asks for when the active repository may be another one.
#[derive(Debug, Clone, Copy, PartialEq, Eq, Structural)]
pub enum RefreshStep {
    /// To be told whether the active repository is a Perforce workspace.
    Resolve,
    Done(Reaction),
}

/// The panel that shows the pending changelists.
pub struct PerforcePanel {
    /// Whether a repository is active.
    has_repository: bool,
    /// Whether the active repository is a Perforce workspace, as far as known.
    active_is_perforce: bool,
    changelists: Vec<PerforceChangelist>,
    /// The rows of the changelists.
    entries: Vec<RowRef>,
    /// The changelists that show their files.
    expanded: Expanded,
    /// The open files of which a newer revision exists.
    out_of_date: PathSet,
    position: DockPosition,
    /// Whether the panel is shown.
    active: bool,
}

/// What a [`PerforcePanel`] holds.
#[verifier::ext_equal]
pub struct PanelView {
    pub has_repository: bool,
    pub active_is_perforce: bool,
    pub changelists: Seq<PerforceChangelistView>,
    pub entries: Seq<RowRef>,
    pub expanded: Set<ChangelistId>,
    pub out_of_date: Set<Seq<char>>,
    pub position: DockPosition,
    pub active: bool,
}

impl View for PerforcePanel {
    type V = PanelView;

    closed spec fn view(&self) -> PanelView {
        PanelView {
            has_repository: self.has_repository,
            active_is_perforce: self.active_is_perforce,
            changelists: text::views(self.changelists@),
            entries: self.entries@,
            expanded: self.expanded@,
            out_of_date: self.out_of_date@,
            position: self.position,
            active: self.active,
        }
    }
}

/// Whether the rows are those of the changelists.
pub open spec fn is_consistent(panel: PanelView) -> bool {
    panel.entries == rows::rows(panel.changelists, panel.expanded)
}

/// `panel` with other changelists.
pub open spec fn with_changelists(
    panel: PanelView,
    changelists: Seq<PerforceChangelistView>,
) -> PanelView {
    PanelView { changelists, entries: rows::rows(changelists, panel.expanded), ..panel }
}

/// `panel` with other changelists expanded.
pub open spec fn with_expanded(panel: PanelView, expanded: Set<ChangelistId>) -> PanelView {
    PanelView { expanded, entries: rows::rows(panel.changelists, expanded), ..panel }
}

/// Whether the changelists of a repository that is no Perforce workspace are
/// still shown.
pub open spec fn shows_stale(panel: PanelView) -> bool {
    panel.active && !panel.active_is_perforce && panel.changelists.len() > 0
}

/// What a reload comes to. A panel that is not shown does nothing; one without a
/// Perforce workspace is emptied; another one asks for what it shows.
pub open spec fn reloaded(panel: PanelView) -> (PanelView, Reaction) {
    if shows_stale(panel) {
        (with_changelists(panel, Seq::empty()), Reaction { notify: true, fetch: false })
    } else {
        (
            panel,
            Reaction {
                notify: false,
                fetch: panel.active && panel.active_is_perforce && panel.has_repository,
            },
        )
    }
}

/// What it comes to that a repository is active or none is.
pub open spec fn repository_read(panel: PanelView, has_repository: bool) -> (
    PanelView,
    RefreshStep,
) {
    let read = PanelView { has_repository, ..panel };
    if has_repository {
        (read, RefreshStep::Resolve)
    } else {
        let (after, reaction) = reloaded(PanelView { active_is_perforce: false, ..read });
        (
            after,
            RefreshStep::Done(
                Reaction { notify: panel.active_is_perforce || reaction.notify, ..reaction },
            ),
        )
    }
}

/// What it comes to that the active repository is a Perforce workspace or is
/// none. The panel is drawn again either way, so that its icon follows.
pub open spec fn repository_resolved(panel: PanelView, is_perforce: bool) -> (PanelView, Reaction) {
    let (after, reaction) = reloaded(PanelView { active_is_perforce: is_perforce, ..panel });
    (after, Reaction { notify: true, ..reaction })
}

/// What fetched changelists and files come to. Without changelists nothing
/// changes; without the files that are out of date none is.
pub open spec fn fetched(
    panel: PanelView,
    changelists: Option<Seq<PerforceChangelistView>>,
    out_of_date: Option<Set<Seq<char>>>,
) -> PanelView {
    match changelists {
        Some(changelists) => PanelView {
            out_of_date: match out_of_date {
                Some(paths) => paths,
                None => Set::empty(),
            },
            ..with_changelists(panel, changelists)
        },
        None => panel,
    }
}

/// The icon and the text of the button above the rows.
pub open spec fn toolbar_of(panel: PanelView) -> (PanelIcon, Seq<char>) {
    if expansion::all_expanded(panel.changelists, panel.expanded) {
        (PanelIcon::ListCollapse, "Collapse All"@)
    } else {
        (PanelIcon::ListTree, "Expand All"@)
    }
}

/// The key under which the panel is kept.
pub const PERFORCE_PANEL_KEY: &'static str = "PerforcePanel";

/// What is shown instead of rows.
pub const NO_CHANGELISTS: &'static str = "No pending changelists";

/// What is shown while the pointer rests on the panel's icon.
pub const ICON_TOOLTIP: &'static str = "Perforce Changes";

/// Where the panel's icon stands among the others: between those of the version
/// control panel and the collaboration panel.
pub const ACTIVATION_PRIORITY: u32 = 4;

/// What the panel shows.
#[derive(Debug, Clone, Copy)]
pub enum PanelContent {
    /// A text in place of rows.
    Message(&'static str),
    /// A button with an icon and a text, and below it so many rows.
    List { icon: PanelIcon, tooltip: &'static str, rows: usize },
}

/// A request to show the changes of a file, alone where `solo` holds.
#[derive(Debug)]
pub struct DiffRequest {
    pub path: RepoPath,
    pub status: FileStatus,
    pub solo: bool,
}

/// A request to shelve a file, and to revert it after that where `also_revert`
/// holds.
#[derive(Debug)]
pub struct ShelveRequest {
    pub changelist: u32,
    pub path: RepoPath,
    pub also_revert: bool,
}

/// A request to revert a file. Where `asks` holds, the user is asked what to do
/// with it.
#[derive(Debug)]
pub struct RevertRequest {
    pub path: RepoPath,
    pub asks: bool,
}

impl PerforcePanel {
    /// Whether the rows are those of the changelists.
    pub open spec fn wf(self) -> bool {
        is_consistent(self@)
    }

    /// A panel that is not shown yet, on the left.
    pub fn new(has_repository: bool) -> (r: PerforcePanel)
        ensures
            r.wf(),
            r@ == (PanelView {
                has_repository,
                active_is_perforce: false,
                changelists: Seq::empty(),
                entries: Seq::empty(),
                expanded: Set::empty(),
                out_of_date: Set::empty(),
                position: DockPosition::Left,
                active: false,
            }),
    {
        let r = PerforcePanel {
            has_repository,
            active_is_perforce: false,
            changelists: Vec::new(),
            entries: Vec::new(),
            expanded: Expanded::new(),
            out_of_date: PathSet::new(),
            position: DockPosition::Left,
            active: false,
        };
        assert(r@.changelists =~= Seq::<PerforceChangelistView>::empty());
        assert(r@.entries =~= Seq::<RowRef>::empty());
        r
    }

    /// Whether an event is a reason to look at the active repository again.
    pub fn heeds(event: GitStoreEvent) -> (r: bool)
        ensures
            r == concerns_panel(event),
    {
        match event {
            GitStoreEvent::ActiveRepositoryChanged => true,
            GitStoreEvent::RepositoryAdded => true,
            GitStoreEvent::RepositoryRemoved => true,
            GitStoreEvent::RepositoryUpdated { event, is_active } => is_active && event
                != RepositoryEvent::Other,
            GitStoreEvent::Other => false,
        }
    }

    /// Whether the active repository is a Perforce workspace, as far as known.
    pub fn is_active_perforce(&self) -> (r: bool)
        ensures
            r == self@.active_is_perforce,
    {
        self.active_is_perforce
    }

    /// Takes that a repository is active or that none is.
    pub fn refresh_is_perforce(&mut self, has_repository: bool) -> (r: RefreshStep)
        requires
            old(self).wf(),
        ensures
            final(self).wf(),
            (final(self)@, r) == repository_read(old(self)@, has_repository),
    {
        self.has_repository = has_repository;
        if has_repository {
            return RefreshStep::Resolve;
        }
        let was_perforce = self.active_is_perforce;
        self.active_is_perforce = false;
        let reaction = self.reload();
        RefreshStep::Done(
            Reaction { notify: was_perforce || reaction.notify, fetch: reaction.fetch },
        )
    }

    /// Takes that the active repository is a Perforce workspace or is none.
    pub fn resolve_is_perforce(&mut self, is_perforce: bool) -> (r: Reaction)
        requires
            old(self).wf(),
        ensures
            final(self).wf(),
            (final(self)@, r) == repository_resolved(old(self)@, is_perforce),
    {
        self.active_is_perforce = is_perforce;
        let reaction = self.reload();
        Reaction { notify: true, fetch: reaction.fetch }
    }

    /// Reloads what is shown.
    pub fn reload(&mut self) -> (r: Reaction)
        requires
            old(self).wf(),
        ensures
            final(self).wf(),
            (final(self)@, r) == reloaded(old(self)@),
    {
        if !self.active {
            return Reaction { notify: false, fetch: false };
        }
        if !self.is_active_perforce() {
            assert(self@.changelists.len() == self.changelists@.len());
            if self.changelists.len() != 0 {
                self.changelists = Vec::new();
                assert(text::views(self.changelists@) =~= Seq::<PerforceChangelistView>::empty());
                self.rebuild_entries();
                return Reaction { notify: true, fetch: false };
            }
            return Reaction { notify: false, fetch: false };
        }
        Reaction { notify: false, fetch: self.has_repository }
    }

    /// Takes what was fetched. Says whether the panel is drawn again.
    pub fn loaded(
        &mut self,
        changelists: Option<Vec<PerforceChangelist>>,
        out_of_date: Option<PathSet>,
    ) -> (r: bool)
        requires
            old(self).wf(),
        ensures
            final(self).wf(),
            final(self)@ == fetched(
                old(self)@,
                match changelists {
                    Some(list) => Some(text::views(list@)),
                    None => None,
                },
                text::option_view(out_of_date),
            ),
            r == (changelists is Some),
    {
        match changelists {
            Some(list) => {
                self.changelists = list;
                self.out_of_date = match out_of_date {
                    Some(paths) => paths,
                    None => PathSet::new(),
                };
                self.rebuild_entries();
                true
            },
            None => false,
        }
    }

    /// Builds the rows anew.
    fn rebuild_entries(&mut self)
        ensures
            final(self)@ == (PanelView {
                entries: rows::rows(old(self)@.changelists, old(self)@.expanded),
                ..old(self)@
            }),
    {
        self.entries = build_rows(&self.changelists, &self.expanded);
    }

    /// Switches whether a changelist shows its files.
    pub fn toggle_expanded(&mut self, id: ChangelistId)
        requires
            old(self).wf(),
        ensures
            final(self).wf(),
            final(self)@ == with_expanded(
                old(self)@,
                expansion::toggled(old(self)@.expanded, id),
            ),
    {
        self.expanded.toggle(id);
        self.rebuild_entries();
    }

    /// Whether there are changelists and all of them show their files.
    pub fn all_expanded(&self) -> (r: bool)
        ensures
            r == expansion::all_expanded(self@.changelists, self@.expanded),
    {
        self.expanded.holds_all(&self.changelists)
    }

    /// Lets no changelist show its files where all do, and all where not.
    pub fn toggle_all_expanded(&mut self)
        requires
            old(self).wf(),
        ensures
            final(self).wf(),
            final(self)@ == with_expanded(
                old(self)@,
                expansion::all_toggled(old(self)@.changelists, old(self)@.expanded),
            ),
    {
        self.expanded = if self.all_expanded() {
            Expanded::new()
        } else {
            Expanded::all_of(&self.changelists)
        };
        self.rebuild_entries();
    }

    /// The icon and the text of the button above the rows.
    pub fn toolbar(&self) -> (r: (PanelIcon, &'static str))
        ensures
            (r.0, r.1@) == toolbar_of(self@),
    {
        if self.all_expanded() {
            (PanelIcon::ListCollapse, "Collapse All")
        } else {
            (PanelIcon::ListTree, "Expand All")
        }
    }

    /// How many rows there are.
    pub fn entry_count(&self) -> (r: usize)
        ensures
            r == self@.entries.len(),
    {
        self.entries.len()
    }

    /// What the panel shows: a text where there are no rows, and the rows below
    /// the button otherwise. [`Self::visible_rows`] says what is in the rows.
    pub fn render(&self) -> (r: PanelContent)
        ensures
            match r {
                PanelContent::Message(message) => self@.entries.len() == 0 && message@
                    == NO_CHANGELISTS@,
                PanelContent::List { icon, tooltip, rows } => self@.entries.len() > 0 && rows
                    == self@.entries.len() && (icon, tooltip@) == toolbar_of(self@),
            },
    {
        if self.entries.len() == 0 {
            PanelContent::Message(NO_CHANGELISTS)
        } else {
            let (icon, tooltip) = self.toolbar();
            PanelContent::List { icon, tooltip, rows: self.entries.len() }
        }
    }

    /// The rows from `start` up to `end`.
    pub fn visible_rows(&self, start: usize, end: usize) -> (r: Vec<Row>)
        requires
            self.wf(),
            start <= end <= self@.entries.len(),
        ensures
            r@.len() == end - start,
            forall|i: int|
                0 <= i < r@.len() ==> (#[trigger] r@[i])@ == rows::shown_row(
                    self@.entries[start + i],
                    self@.changelists,
                    self@.expanded,
                    self@.out_of_date,
                ),
    {
        let mut out: Vec<Row> = Vec::new();
        let mut i: usize = start;
        proof {
            self.changelists_fit();
        }
        while i < end
            invariant
                start <= i <= end <= self@.entries.len(),
                self.wf(),
                rows_fit(self@.changelists),
                out@.len() == i - start,
                forall|k: int|
                    0 <= k < out@.len() ==> (#[trigger] out@[k])@ == rows::shown_row(
                        self@.entries[start + k],
                        self@.changelists,
                        self@.expanded,
                        self@.out_of_date,
                    ),
            decreases end - i,
        {
            let entry = self.entries[i];
            proof {
                assert(self@.entries.contains(self@.entries[i as int]));
                rows::rows_are_exact(self@.changelists, self@.expanded, entry);
            }
            out.push(render_row(entry, &self.changelists, &self.expanded, &self.out_of_date));
            i = i + 1;
        }
        out
    }

    proof fn changelists_fit(&self)
        ensures
            rows_fit(self@.changelists),
    {
        assert(self.changelists.len() == self.changelists@.len());
        assert forall|i: int| 0 <= i < self@.changelists.len() implies (
        #[trigger] self@.changelists[i]).files.len() <= usize::MAX by {
            assert(self.changelists@[i].files.len() == self.changelists@[i].files@.len());
        }
    }

    /// What a file asks for that is dropped on the header of a changelist.
    pub fn drop_on_changelist(&self, dragged: &DraggedPerforceFile, target: ChangelistId) -> (r:
        Option<MoveRequest>)
        ensures
            text::option_view(r) == (if self@.has_repository {
                file_menu::drop_request(dragged@, target)
            } else {
                None
            }),
    {
        if self.has_repository {
            requested_move(dragged, target)
        } else {
            None
        }
    }

    /// What unshelving a file asks for.
    pub fn unshelve_file(&self, changelist: u32, path: RepoPath) -> (r: Option<MoveRequest>)
        ensures
            text::option_view(r) == (if self@.has_repository {
                Some(
                    file_menu::MoveRequestView {
                        path: path@,
                        target: ChangelistId::Numbered(changelist),
                        shelved_source: Some(changelist),
                    },
                )
            } else {
                None
            }),
    {
        if self.has_repository {
            Some(requested_unshelve(changelist, path))
        } else {
            None
        }
    }

    /// What shelving a file asks for.
    pub fn shelve_file(&self, changelist: u32, path: RepoPath, also_revert: bool) -> (r: Option<
        ShelveRequest,
    >)
        ensures
            r is Some <==> self@.has_repository,
            r matches Some(s) ==> s.changelist == changelist && s.path@ == path@ && s.also_revert
                == also_revert,
    {
        if self.has_repository {
            Some(ShelveRequest { changelist, path, also_revert })
        } else {
            None
        }
    }

    /// What reverting a file asks for.
    pub fn revert_file(&self, file: &ChangelistFile) -> (r: Option<RevertRequest>)
        ensures
            r is Some <==> self@.has_repository,
            r matches Some(request) ==> request.path@ == file.path@ && request.asks
                == file_menu::asks_to_delete(file.status),
    {
        if self.has_repository {
            Some(
                RevertRequest { path: file.path.clone(), asks: file_menu::revert_asks(file) },
            )
        } else {
            None
        }
    }

    /// Which file is opened.
    pub fn open_file(&self, path: RepoPath) -> (r: Option<RepoPath>)
        ensures
            text::option_view(r) == (if self@.has_repository {
                Some(path@)
            } else {
                None
            }),
    {
        if self.has_repository {
            Some(path)
        } else {
            None
        }
    }

    /// Which history is shown: that of the file.
    pub fn view_file_history(&self, path: RepoPath) -> (r: Option<LogSource>)
        ensures
            r is Some <==> self@.has_repository,
            r matches Some(source) ==> (source matches LogSource::Path(p) && p@ == path@),
    {
        if self.has_repository {
            Some(LogSource::Path(path))
        } else {
            None
        }
    }

    /// Which changes are shown.
    pub fn open_diff(&self, file: &ChangelistFile, solo: bool) -> (r: Option<DiffRequest>)
        ensures
            r is Some <==> self@.has_repository,
            r matches Some(request) ==> request.path@ == file.path@ && request.status
                == file.status && request.solo == solo,
    {
        if self.has_repository {
            Some(DiffRequest { path: file.path.clone(), status: file.status, solo })
        } else {
            None
        }
    }

    /// Takes that the window has become the active one or has ceased to be.
    pub fn window_activation_changed(&mut self, is_window_active: bool) -> (r: Reaction)
        requires
            old(self).wf(),
        ensures
            final(self).wf(),
            (final(self)@, r) == (if is_window_active {
                reloaded(old(self)@)
            } else {
                (old(self)@, Reaction { notify: false, fetch: false })
            }),
    {
        if is_window_active {
            self.reload()
        } else {
            Reaction { notify: false, fetch: false }
        }
    }

    /// Where the panel stands.
    pub fn position(&self) -> (r: DockPosition)
        ensures
            r == self@.position,
    {
        self.position
    }

    /// Whether the panel can stand on a side of the window.
    pub fn position_is_valid(position: DockPosition) -> (r: bool)
        ensures
            r == (position != DockPosition::Bottom),
    {
        match position {
            DockPosition::Left => true,
            DockPosition::Right => true,
            DockPosition::Bottom => false,
        }
    }

    /// Moves the panel.
    pub fn set_position(&mut self, position: DockPosition)
        requires
            old(self).wf(),
        ensures
            final(self).wf(),
            final(self)@ == (PanelView { position, ..old(self)@ }),
    {
        self.position = position;
    }

    /// Shows the panel, which reloads it, or hides it.
    pub fn set_active(&mut self, active: bool) -> (r: Reaction)
        requires
            old(self).wf(),
        ensures
            final(self).wf(),
            (final(self)@, r) == reloaded(PanelView { active, ..old(self)@ }),
    {
        self.active = active;
        if active {
            self.reload()
        } else {
            Reaction { notify: false, fetch: false }
        }
    }

    /// The panel's icon in the dock. There is one in a Perforce workspace only,
    /// where the Git panel has none, so both share the icon of source control.
    pub fn icon(&self) -> (r: Option<PanelIcon>)
        ensures
            r == (if self@.active_is_perforce {
                Some(PanelIcon::GitBranch)
            } else {
                None
            }),
    {
        if self.is_active_perforce() {
            Some(PanelIcon::GitBranch)
        } else {
            None
        }
    }
}

/// Whether the changelists fit in memory.
pub open spec fn rows_fit(changelists: Seq<PerforceChangelistView>) -> bool {
    &&& changelists.len() <= usize::MAX
    &&& forall|i: int|
        0 <= i < changelists.len() ==> (#[trigger] changelists[i]).files.len() <= usize::MAX
}

/// A hidden panel asks for nothing, whatever happens.
pub proof fn hidden_panel_fetches_nothing(panel: PanelView, is_perforce: bool)
    requires
        !panel.active,
    ensures
        !reloaded(panel).1.fetch,
        !repository_resolved(panel, is_perforce).1.fetch,
        repository_read(panel, false).1 matches RefreshStep::Done(reaction) && !reaction.fetch,
{
}

/// A repository that is no Perforce workspace is asked for nothing, and after
/// the panel has been shown nothing is left in it.
pub proof fn other_repositories_are_left_alone(panel: PanelView)
    requires
        !panel.active_is_perforce,
    ensures
        !reloaded(panel).1.fetch,
        panel.active ==> reloaded(panel).0.changelists.len() == 0,
{
}

/// What happens around a panel leaves its rows those of its changelists.
pub proof fn rows_stay_consistent(
    panel: PanelView,
    is_perforce: bool,
    has_repository: bool,
    changelists: Option<Seq<PerforceChangelistView>>,
    out_of_date: Option<Set<Seq<char>>>,
    expanded: Set<ChangelistId>,
)
    requires
        is_consistent(panel),
    ensures
        is_consistent(reloaded(panel).0),
        is_consistent(repository_read(panel, has_repository).0),
        is_consistent(repository_resolved(panel, is_perforce).0),
        is_consistent(fetched(panel, changelists, out_of_date)),
        is_consistent(with_expanded(panel, expanded)),
{
}

/// Reloading twice is the same as reloading once, but that it is drawn again
/// only the first time.
pub proof fn reloading_twice_changes_nothing(panel: PanelView)
    ensures
        reloaded(reloaded(panel).0).0 == reloaded(panel).0,
        !reloaded(reloaded(panel).0).1.notify,
        reloaded(reloaded(panel).0).1.fetch == reloaded(panel).1.fetch,
{
}

/// A panel that is shown in a Perforce workspace asks for what it shows whenever
/// it is reloaded, and keeps what it has until that comes.
pub proof fn shown_panel_fetches(panel: PanelView)
    requires
        panel.active,
        panel.active_is_perforce,
        panel.has_repository,
    ensures
        reloaded(panel).1.fetch,
        reloaded(panel).0 == panel,
{
}

/// What was fetched is shown: the changelists, with those expanded that were, and
/// the files that are out of date. Where the changelists could not be had, all
/// stays; where the files could not, none is marked.
pub proof fn fetched_changelists_are_shown(
    panel: PanelView,
    changelists: Seq<PerforceChangelistView>,
    out_of_date: Set<Seq<char>>,
)
    ensures
        ({
            let after = fetched(panel, Some(changelists), Some(out_of_date));
            &&& after.changelists == changelists
            &&& after.out_of_date == out_of_date
            &&& after.expanded == panel.expanded
            &&& after.entries == rows::rows(changelists, panel.expanded)
            &&& after.active == panel.active && after.position == panel.position
                && after.has_repository == panel.has_repository && after.active_is_perforce
                == panel.active_is_perforce
        }),
        fetched(panel, Some(changelists), None).changelists == changelists,
        fetched(panel, Some(changelists), None).out_of_date.is_empty(),
        fetched(panel, None, Some(out_of_date)) == panel,
{
}

/// Without a repository the panel is none of a Perforce workspace, and is drawn
/// again where it was one; with one it asks whether it is.
pub proof fn panel_follows_the_repository(panel: PanelView, is_perforce: bool)
    ensures
        repository_read(panel, true).1 == RefreshStep::Resolve,
        repository_read(panel, true).0 == (PanelView { has_repository: true, ..panel }),
        !repository_read(panel, false).0.has_repository,
        !repository_read(panel, false).0.active_is_perforce,
        panel.active_is_perforce ==> (repository_read(panel, false).1 matches RefreshStep::Done(
            reaction,
        ) && reaction.notify),
        repository_resolved(panel, is_perforce).0.active_is_perforce == is_perforce,
        repository_resolved(panel, is_perforce).1.notify,
        panel.active && panel.has_repository && is_perforce ==> repository_resolved(
            panel,
            is_perforce,
        ).1.fetch,
{
}

/// The button above the rows offers to collapse all just where all are expanded,
/// and to expand all otherwise.
pub proof fn button_offers_the_other(panel: PanelView)
    ensures
        ({
            let all = panel.changelists.len() > 0 && forall|i: int|
                0 <= i < panel.changelists.len() ==> panel.expanded.contains(
                    (#[trigger] panel.changelists[i]).id,
                );
            &&& all ==> toolbar_of(panel) == (PanelIcon::ListCollapse, "Collapse All"@)
            &&& !all ==> toolbar_of(panel) == (PanelIcon::ListTree, "Expand All"@)
        }),
{
}

/// Any change of the repositories concerns the panel; what happens within one
/// does only where it is the active one and its files or its head changed.
pub proof fn panel_heeds_the_active_repository(event: RepositoryEvent)
    ensures
        concerns_panel(GitStoreEvent::ActiveRepositoryChanged),
        concerns_panel(GitStoreEvent::RepositoryAdded),
        concerns_panel(GitStoreEvent::RepositoryRemoved),
        !concerns_panel(GitStoreEvent::Other),
        !concerns_panel(GitStoreEvent::RepositoryUpdated { event, is_active: false }),
        concerns_panel(GitStoreEvent::RepositoryUpdated { event, is_active: true }) <==> event
            == RepositoryEvent::StatusesChanged || event == RepositoryEvent::HeadChanged,
{
}

} // verus!
