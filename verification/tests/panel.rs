//! The panel of pending changelists.

use editor_backend::panel::dock::{
    DockPosition, GitStoreEvent, PanelContent, PanelIcon, PerforcePanel, Reaction, RefreshStep, RepositoryEvent,
};
use editor_backend::panel::file_menu::{
    file_context_menu, revert_asks, revert_deletes, swarm_url, FileMenuEntry,
};
use editor_backend::panel::rows::{
    render_changelist_header, render_file_row, tooltip_lines, DraggedPerforceFile, Row,
};
use editor_backend::panel::expansion::Expanded;
use editor_backend::path::RepoPath;
use editor_backend::perforce::changelists::{ChangelistFile, ChangelistId, PerforceChangelist};
use editor_backend::perforce::repository::LogSource;
use editor_backend::status::{FileStatus, StatusCode};
use editor_backend::text_map::PathSet;

fn repo_path(s: &str) -> RepoPath {
    RepoPath::new(s).unwrap()
}

fn file(path: &str, code: StatusCode, shelved: bool) -> ChangelistFile {
    ChangelistFile { path: repo_path(path), status: FileStatus::worktree(code), shelved }
}

fn changelist(id: ChangelistId, description: &str, files: Vec<ChangelistFile>) -> PerforceChangelist {
    PerforceChangelist { id, description: description.to_string(), files }
}

fn sample() -> Vec<PerforceChangelist> {
    vec![
        changelist(
            ChangelistId::Default,
            "",
            vec![file("top.txt", StatusCode::Modified, false)],
        ),
        changelist(
            ChangelistId::Numbered(42),
            "First line\n\nMore",
            vec![
                file("a/b/c.cpp", StatusCode::Deleted, false),
                file("a/b/c.cpp", StatusCode::Modified, true),
            ],
        ),
    ]
}

fn shown_panel() -> PerforcePanel {
    let mut panel = PerforcePanel::new(true);
    panel.set_active(true);
    assert_eq!(panel.resolve_is_perforce(true), Reaction { notify: true, fetch: true });
    assert!(panel.loaded(Some(sample()), None));
    panel
}

#[test]
fn panel_starts_collapsed_and_expands() {
    let mut panel = shown_panel();
    assert_eq!(panel.entry_count(), 2);
    assert!(!panel.all_expanded());
    assert_eq!(panel.toolbar(), (PanelIcon::ListTree, "Expand All"));
    panel.toggle_expanded(ChangelistId::Numbered(42));
    assert_eq!(panel.entry_count(), 4);
    let rows = panel.visible_rows(0, 4);
    assert!(matches!(&rows[0], Row::Header(h) if h.title == "Default Changelist" && !h.expanded));
    assert!(matches!(&rows[1], Row::Header(h) if h.title == "#42: First line" && h.expanded));
    assert!(matches!(&rows[2], Row::File(f) if !f.dragged.shelved && f.dimmed));
    assert!(matches!(&rows[3], Row::File(f) if f.dragged.shelved && !f.dimmed));
    // Switching twice changes nothing.
    panel.toggle_expanded(ChangelistId::Numbered(42));
    assert_eq!(panel.entry_count(), 2);
}

#[test]
fn panel_without_rows_says_so() {
    assert!(matches!(
        PerforcePanel::new(true).render(),
        PanelContent::Message("No pending changelists")
    ));
    assert!(matches!(
        shown_panel().render(),
        PanelContent::List { icon: PanelIcon::ListTree, tooltip: "Expand All", rows: 2 }
    ));
}

#[test]
fn all_changelists_are_switched_together() {
    let mut panel = shown_panel();
    panel.toggle_expanded(ChangelistId::Default);
    panel.toggle_all_expanded();
    assert!(panel.all_expanded());
    assert_eq!(panel.entry_count(), 5);
    assert_eq!(panel.toolbar(), (PanelIcon::ListCollapse, "Collapse All"));
    panel.toggle_all_expanded();
    assert!(!panel.all_expanded());
    assert_eq!(panel.entry_count(), 2);
    // Without changelists not all of them are expanded.
    assert!(!PerforcePanel::new(true).all_expanded());
}

#[test]
fn hidden_panel_asks_for_nothing() {
    let mut panel = PerforcePanel::new(true);
    assert_eq!(panel.resolve_is_perforce(true), Reaction { notify: true, fetch: false });
    assert_eq!(panel.reload(), Reaction { notify: false, fetch: false });
    assert_eq!(panel.set_active(true), Reaction { notify: false, fetch: true });
    assert_eq!(panel.set_active(false), Reaction { notify: false, fetch: false });
    assert_eq!(panel.window_activation_changed(true), Reaction { notify: false, fetch: false });
}

#[test]
fn panel_is_emptied_outside_perforce() {
    let mut panel = shown_panel();
    assert_eq!(panel.icon(), Some(PanelIcon::GitBranch));
    assert_eq!(panel.refresh_is_perforce(true), RefreshStep::Resolve);
    assert_eq!(panel.resolve_is_perforce(false), Reaction { notify: true, fetch: false });
    assert_eq!(panel.entry_count(), 0);
    assert_eq!(panel.icon(), None);
    assert_eq!(panel.reload(), Reaction { notify: false, fetch: false });
}

#[test]
fn panel_is_emptied_without_a_repository() {
    let mut panel = shown_panel();
    assert_eq!(
        panel.refresh_is_perforce(false),
        RefreshStep::Done(Reaction { notify: true, fetch: false })
    );
    assert!(!panel.is_active_perforce());
    assert_eq!(panel.entry_count(), 0);
    assert_eq!(
        panel.refresh_is_perforce(false),
        RefreshStep::Done(Reaction { notify: false, fetch: false })
    );
}

#[test]
fn failed_fetch_keeps_what_is_shown() {
    let mut panel = shown_panel();
    assert!(!panel.loaded(None, Some(PathSet::new())));
    assert_eq!(panel.entry_count(), 2);
}

#[test]
fn window_activation_reloads_a_shown_panel() {
    let mut panel = shown_panel();
    assert_eq!(panel.window_activation_changed(true), Reaction { notify: false, fetch: true });
    assert_eq!(panel.window_activation_changed(false), Reaction { notify: false, fetch: false });
}

#[test]
fn events_of_other_repositories_are_not_heeded() {
    assert!(PerforcePanel::heeds(GitStoreEvent::ActiveRepositoryChanged));
    assert!(PerforcePanel::heeds(GitStoreEvent::RepositoryAdded));
    assert!(PerforcePanel::heeds(GitStoreEvent::RepositoryRemoved));
    for event in [RepositoryEvent::StatusesChanged, RepositoryEvent::HeadChanged] {
        assert!(PerforcePanel::heeds(GitStoreEvent::RepositoryUpdated { event, is_active: true }));
        assert!(!PerforcePanel::heeds(GitStoreEvent::RepositoryUpdated { event, is_active: false }));
    }
    assert!(!PerforcePanel::heeds(GitStoreEvent::RepositoryUpdated {
        event: RepositoryEvent::Other,
        is_active: true
    }));
    assert!(!PerforcePanel::heeds(GitStoreEvent::Other));
}

#[test]
fn panel_stands_at_the_sides() {
    let mut panel = PerforcePanel::new(false);
    assert_eq!(panel.position(), DockPosition::Left);
    panel.set_position(DockPosition::Right);
    assert_eq!(panel.position(), DockPosition::Right);
    assert!(PerforcePanel::position_is_valid(DockPosition::Left));
    assert!(PerforcePanel::position_is_valid(DockPosition::Right));
    assert!(!PerforcePanel::position_is_valid(DockPosition::Bottom));
}

#[test]
fn headers_show_number_title_and_counts() {
    let lists = sample();
    let header = render_changelist_header(&lists[1], &Expanded::new());
    assert_eq!(header.element_id, "cl_Numbered(42)");
    assert_eq!(header.title, "#42: First line");
    assert_eq!(header.pending, "1+");
    assert_eq!(header.shelved, "1");
    assert!(header.shelved_stands_out);
    let tooltip = header.tooltip.unwrap();
    assert_eq!(tooltip, "#42\nFirst line\n\nMore");
    assert_eq!(tooltip_lines(&tooltip), vec!["#42", "First line", "", "More"]);

    let header = render_changelist_header(&lists[0], &Expanded::new());
    assert_eq!(header.element_id, "cl_Default");
    assert_eq!(header.pending, "1+");
    assert_eq!(header.shelved, "0");
    assert!(!header.shelved_stands_out);
    assert_eq!(header.tooltip, None);

    let bare = changelist(ChangelistId::Numbered(7), "", vec![]);
    let header = render_changelist_header(&bare, &Expanded::new());
    assert_eq!(header.title, "#7");
    assert_eq!(header.tooltip, None);
    let blank = changelist(ChangelistId::Numbered(7), "\nlater", vec![]);
    assert_eq!(render_changelist_header(&blank, &Expanded::new()).title, "#7");
}

#[test]
fn file_rows_part_directory_and_name() {
    let mut stale = PathSet::new();
    stale.insert(&repo_path("a/b/c.cpp"));
    let row = render_file_row(
        &file("a/b/c.cpp", StatusCode::Modified, true),
        ChangelistId::Numbered(42),
        &stale,
    );
    assert_eq!(row.element_id, "p4_file_s_a/b/c.cpp");
    assert_eq!(row.label, "c.cpp ");
    assert_eq!(row.directory.as_deref(), Some("a/b/"));
    assert!(row.out_of_date && !row.dimmed);
    assert_eq!(row.dragged.name, "c.cpp");
    let row = render_file_row(
        &file("top.txt", StatusCode::Deleted, false),
        ChangelistId::Default,
        &stale,
    );
    assert_eq!(row.element_id, "p4_file_p_top.txt");
    assert_eq!(row.label, "top.txt ");
    assert_eq!(row.directory, None);
    assert!(!row.out_of_date && row.dimmed);
}

fn labels(file: &ChangelistFile, source: ChangelistId, host: Option<&str>) -> Vec<&'static str> {
    file_context_menu(file, source, host).iter().map(|entry| entry.label()).collect()
}

#[test]
fn menus_fit_the_file() {
    let pending = file("a", StatusCode::Modified, false);
    let shelved = file("a", StatusCode::Modified, true);
    assert_eq!(
        labels(&pending, ChangelistId::Numbered(5), Some("https://swarm/")),
        vec![
            "Open File",
            "Open Diff",
            "Open Diff (File)",
            "View File History",
            "",
            "Shelve",
            "Shelve and Revert",
            "Revert",
            "",
            "View in Swarm"
        ]
    );
    assert_eq!(
        labels(&pending, ChangelistId::Default, Some("https://swarm/")),
        vec!["Open File", "Open Diff", "Open Diff (File)", "View File History", "", "Revert"]
    );
    assert_eq!(
        labels(&shelved, ChangelistId::Numbered(5), None),
        vec!["Open File", "View File History", "", "Unshelve"]
    );
    let menu = file_context_menu(&shelved, ChangelistId::Numbered(5), Some(" https://swarm/ "));
    assert!(matches!(
        menu.last(),
        Some(FileMenuEntry::ViewInSwarm { url }) if url == "https://swarm/changes/5"
    ));
    assert_eq!(swarm_url(Some("  "), 5), None);
    assert_eq!(swarm_url(None, 5), None);
}

fn dragged(source: ChangelistId, shelved: bool) -> DraggedPerforceFile {
    DraggedPerforceFile {
        path: repo_path("a/b"),
        source,
        shelved,
        name: "b".to_string(),
        status: FileStatus::worktree(StatusCode::Modified),
    }
}

#[test]
fn dropped_files_move() {
    let panel = shown_panel();
    let five = ChangelistId::Numbered(5);
    assert!(panel.drop_on_changelist(&dragged(five, false), five).is_none());
    let request = panel.drop_on_changelist(&dragged(five, false), ChangelistId::Default).unwrap();
    assert_eq!(request.target, ChangelistId::Default);
    assert_eq!(request.shelved_source, None);
    assert_eq!(request.path.as_unix_str(), "a/b");
    // A shelved file dropped on its own changelist is unshelved into it.
    let request = panel.drop_on_changelist(&dragged(five, true), five).unwrap();
    assert_eq!(request.shelved_source, Some(5));
    assert!(PerforcePanel::new(false).drop_on_changelist(&dragged(five, true), five).is_none());
    let request = panel.unshelve_file(9, repo_path("x")).unwrap();
    assert_eq!((request.target, request.shelved_source), (ChangelistId::Numbered(9), Some(9)));
}

#[test]
fn actions_need_a_repository() {
    let with = shown_panel();
    let without = PerforcePanel::new(false);
    let added = file("new.txt", StatusCode::Added, false);
    let request = with.revert_file(&added).unwrap();
    assert!(request.asks);
    assert!(!with.revert_file(&file("old.txt", StatusCode::Modified, false)).unwrap().asks);
    assert!(without.revert_file(&added).is_none());
    assert!(with.shelve_file(3, repo_path("x"), true).unwrap().also_revert);
    assert!(without.shelve_file(3, repo_path("x"), true).is_none());
    assert!(with.open_diff(&added, true).unwrap().solo);
    assert!(without.open_diff(&added, true).is_none());
    assert_eq!(with.open_file(repo_path("x")).unwrap().as_unix_str(), "x");
    assert!(without.open_file(repo_path("x")).is_none());
    assert!(matches!(with.view_file_history(repo_path("x")), Some(LogSource::Path(_))));
    assert!(without.view_file_history(repo_path("x")).is_none());
}

#[test]
fn reverted_adds_are_deleted_on_request_only() {
    assert!(revert_asks(&file("a", StatusCode::Added, false)));
    assert!(!revert_asks(&file("a", StatusCode::Deleted, false)));
    assert!(revert_deletes(true, Some(1)));
    assert!(!revert_deletes(true, Some(0)));
    assert!(!revert_deletes(true, None));
    assert!(!revert_deletes(false, Some(1)));
}
