//! What the commands of a repository are, and what is made of their output.

use editor_backend::oid::{change_to_oid, Oid};
use editor_backend::path::RepoPath;
use editor_backend::perforce::blame::split_lines;
use editor_backend::perforce::changelists::{parse_change_field, parse_shelved_files, ChangelistId};
use editor_backend::perforce::client::{client_syntax_path, local_path_to_repo_path};
use editor_backend::perforce::commands::P4OpenAction;
use editor_backend::perforce::commit::assemble_file;
use editor_backend::perforce::config::{
    is_p4_config_name, p4_config_args, parse_p4_config_setting, resolve_p4_config_marker_names,
    set_p4_config_marker_names, P4ConfigMarkers,
};
use editor_backend::perforce::describe::parse_describe_files;
use editor_backend::perforce::history::parse_p4_datetime;
use editor_backend::perforce::lcs::lcs_line_match;
use editor_backend::perforce::opened::parse_out_of_date;
use editor_backend::perforce::pending::parse_pending_changes;
use editor_backend::perforce::repository::{
    committed_text, FileTime, LogSource, OpenPlan, PerforceRepository, ShowPlan,
    ONLY_FILE_HISTORY,
};
use editor_backend::perforce::script::{
    continue_script, require_success, start_script, NextStep, P4Command, P4Outcome, ScriptStep,
};
use editor_backend::perforce::workspace::{
    classify_open_candidate, paths_to_open, workspace_root_matches, FileFacts, OpenCandidate,
    PerforceWorkspace,
};
use editor_backend::status::StatusCode;
use editor_backend::text;
use editor_backend::decimal;

fn repo_path(s: &str) -> RepoPath {
    RepoPath::new(s).unwrap()
}

fn repository() -> PerforceRepository {
    PerforceRepository::new(
        PerforceWorkspace { client_root: "/ws".to_string(), client_name: "client".to_string() },
        50,
    )
}

fn line(command: P4Command) -> String {
    command.argv().join(" ")
}

fn step_lines(steps: Vec<ScriptStep>) -> Vec<(String, Option<String>)> {
    steps.into_iter().map(|step| (line(step.command), step.required)).collect()
}

#[test]
fn classify_readonly_file_is_not_open() {
    assert_eq!(
        classify_open_candidate(Some(FileFacts { is_file: true, readonly: true })),
        OpenCandidate::DefinitelyNotOpen
    );
}

#[test]
fn classify_writable_file_maybe_open() {
    assert_eq!(
        classify_open_candidate(Some(FileFacts { is_file: true, readonly: false })),
        OpenCandidate::MaybeOpen
    );
}

#[test]
fn classify_missing_path_maybe_open() {
    // A missing file can be open for delete.
    assert_eq!(classify_open_candidate(None), OpenCandidate::MaybeOpen);
}

#[test]
fn classify_directory_maybe_open() {
    // The files of a directory are not looked at.
    for readonly in [false, true] {
        assert_eq!(
            classify_open_candidate(Some(FileFacts { is_file: false, readonly })),
            OpenCandidate::MaybeOpen
        );
    }
}

#[test]
fn edit_skips_already_writable_files() {
    let candidates = [OpenCandidate::DefinitelyNotOpen, OpenCandidate::MaybeOpen];
    let kept = paths_to_open(
        P4OpenAction::Edit,
        vec![repo_path("ro.txt"), repo_path("rw.txt")],
        &candidates,
    );
    assert_eq!(kept, vec![repo_path("ro.txt")]);
    let added = paths_to_open(
        P4OpenAction::Add,
        vec![repo_path("ro.txt"), repo_path("rw.txt")],
        &candidates,
    );
    assert_eq!(added.len(), 2);
}

#[test]
fn workspace_is_found_by_its_root() {
    assert_eq!(line(PerforceRepository::detect_command()), "-ztag info");
    let info = "... clientRoot E:\\Projects\\Ws\n... clientName my_client\n";
    let found = PerforceRepository::detect(info, true, "e:/projects/ws/sub").unwrap();
    assert_eq!(found.client_name, "my_client");
    assert_eq!(found.client_root, "E:\\Projects\\Ws");
    assert!(PerforceRepository::detect(info, true, "e:/projects/other").is_none());
    assert!(PerforceRepository::detect(info, false, "e:/projects/ws").is_none());
    assert!(PerforceRepository::detect("... userName x\n", true, "/").is_none());
}

#[test]
fn roots_are_compared_without_regard_to_case() {
    assert!(workspace_root_matches("/Straße/ÄÖÜ", "/straße/äöü/x"));
    assert!(!workspace_root_matches("/straße", "/strasse"));
    // Only at the border of a component.
    assert!(!workspace_root_matches("/a/ws", "/a/ws2"));
    assert!(!workspace_root_matches("", "/a"));
}

#[test]
fn repository_knows_its_place() {
    let mut repository = repository();
    assert_eq!(repository.path(), "/ws");
    assert_eq!(repository.main_repository_path(), "/ws");
    assert!(repository.is_perforce());
    assert!(!repository.is_trusted());
    repository.set_trusted(true);
    assert!(repository.is_trusted());
    assert_eq!(repository.client_syntax_path(&repo_path("a/b")), "//client/a/b");
    assert_eq!(client_syntax_path("c", &repo_path("x")), "//c/x");
}

#[test]
fn status_queries_are_scoped_or_skipped() {
    let repository = repository();
    let paths = [repo_path("a"), repo_path("b")];
    let closed = OpenCandidate::DefinitelyNotOpen;
    let maybe = OpenCandidate::MaybeOpen;
    assert!(repository.status(&paths, &[closed, closed]).is_none());
    assert_eq!(
        line(repository.status(&paths, &[closed, maybe]).unwrap()),
        "-ztag opened //client/a //client/b"
    );
    assert_eq!(line(repository.status(&[], &[]).unwrap()), "-ztag opened");
    let many: Vec<RepoPath> = (0..65).map(|i| repo_path(&format!("f{i}"))).collect();
    assert_eq!(line(repository.status(&many, &[]).unwrap()), "-ztag opened");
    let status = repository.status_of(
        "... clientFile //client/b.txt\n... action edit\n\n... clientFile //client/a.txt\n... action add\n",
    );
    assert_eq!(status.entries.len(), 2);
    assert_eq!(status.entries[0].0, repo_path("a.txt"));
    assert!(status.entries[0].1.is_created());
}

#[test]
fn committed_text_is_that_of_the_synced_revision() {
    assert_eq!(
        line(repository().load_committed_text(&repo_path("a/b"))),
        "print -q //client/a/b#have"
    );
}

#[test]
fn files_are_opened_once() {
    let repository = repository();
    let plan = repository.open_for(
        P4OpenAction::Edit,
        vec![repo_path("a"), repo_path("b")],
        &[OpenCandidate::DefinitelyNotOpen, OpenCandidate::MaybeOpen],
    );
    match plan {
        OpenPlan::Script(steps) => assert_eq!(
            step_lines(steps),
            vec![("edit //client/a".to_string(), Some("p4 edit".to_string()))]
        ),
        OpenPlan::AskOpened(_) => panic!("no question"),
    }
    match repository.open_for(
        P4OpenAction::Edit,
        vec![repo_path("b")],
        &[OpenCandidate::MaybeOpen],
    ) {
        OpenPlan::Script(steps) => assert!(steps.is_empty()),
        OpenPlan::AskOpened(_) => panic!("no question"),
    }
    match repository.open_for(P4OpenAction::Delete, vec![repo_path("b")], &[]) {
        OpenPlan::AskOpened(command) => assert_eq!(line(command), "-ztag opened //client/b"),
        OpenPlan::Script(_) => panic!("a question"),
    }
    match repository.open_for(P4OpenAction::Delete, vec![], &[]) {
        OpenPlan::Script(steps) => assert!(steps.is_empty()),
        OpenPlan::AskOpened(_) => panic!("no question"),
    }
}

#[test]
fn open_files_are_reverted_before_they_are_deleted() {
    let opened = "\
... clientFile //client/added
... action add

... clientFile //client/edited
... action edit
";
    let paths = vec![repo_path("plain"), repo_path("edited"), repo_path("added")];
    let lines = step_lines(repository().delete_paths(&paths, opened));
    assert_eq!(
        lines,
        vec![
            ("revert //client/added".to_string(), Some("p4 revert".to_string())),
            ("revert -k //client/edited".to_string(), Some("p4 revert".to_string())),
            ("delete //client/edited".to_string(), Some("p4 delete".to_string())),
            ("delete //client/plain".to_string(), Some("p4 delete".to_string())),
        ]
    );
    assert!(repository().delete_paths(&vec![], opened).is_empty());
}

#[test]
fn failed_deletion_surfaces() {
    let steps = repository().delete_paths(&vec![repo_path("plain")], "");
    assert!(matches!(continue_script(&steps, 0, &exited(true, "")), NextStep::Done));
    match continue_script(&steps, 0, &exited(false, "no permission")) {
        NextStep::Failed(error) => assert_eq!(error, "p4 delete failed: no permission"),
        _ => panic!("the failure is reported"),
    }
    let opened = "... clientFile //client/edited\n... action edit\n";
    let steps = repository().delete_paths(&vec![repo_path("edited")], opened);
    assert!(matches!(continue_script(&steps, 0, &exited(true, "")), NextStep::Run(1)));
    match continue_script(&steps, 0, &exited(false, "locked")) {
        NextStep::Failed(error) => assert_eq!(error, "p4 revert failed: locked"),
        _ => panic!("the failure is reported"),
    }
    match continue_script(&steps, 1, &exited(false, "denied")) {
        NextStep::Failed(error) => assert_eq!(error, "p4 delete failed: denied"),
        _ => panic!("the failure is reported"),
    }
    let not_run = P4Outcome::NotRun("no p4".to_string());
    assert!(matches!(continue_script(&steps, 1, &not_run), NextStep::Failed(_)));
}

#[test]
fn renames_open_the_source_first() {
    assert_eq!(
        step_lines(repository().move_path(&repo_path("a"), &repo_path("b"))),
        vec![
            ("edit //client/a".to_string(), None),
            ("move -k //client/a //client/b".to_string(), Some("p4 move".to_string())),
        ]
    );
}

fn step(required: Option<&str>) -> ScriptStep {
    ScriptStep {
        command: P4Command { tagged: false, args: vec!["x".to_string()] },
        required: required.map(str::to_string),
    }
}

fn exited(success: bool, stderr: &str) -> P4Outcome {
    P4Outcome::Exited { success, stderr: stderr.to_string() }
}

#[test]
fn scripts_stop_at_a_required_failure() {
    let steps = vec![step(None), step(Some("p4 move")), step(None)];
    assert!(matches!(start_script(&steps), NextStep::Run(0)));
    assert!(matches!(start_script(&vec![]), NextStep::Done));
    assert!(matches!(continue_script(&steps, 0, &exited(false, "x")), NextStep::Run(1)));
    assert!(matches!(continue_script(&steps, 1, &exited(true, "warning")), NextStep::Run(2)));
    match continue_script(&steps, 1, &exited(false, " no such file \n")) {
        NextStep::Failed(message) => assert!(message.contains("p4 move") && message.contains("no such file")),
        other => panic!("{other:?}"),
    }
    assert!(matches!(continue_script(&steps, 2, &exited(false, "")), NextStep::Done));
    assert_eq!(require_success(&exited(true, "x")), Ok(()));
    assert!(require_success(&exited(false, "x")).is_err());
    assert!(require_success(&P4Outcome::NotRun("no p4".to_string())).is_err());
}

#[test]
fn changelists_are_listed_and_grouped() {
    let repository = repository();
    let (opened, changes) = repository.changelists();
    assert_eq!(line(opened), "-ztag opened");
    assert!(line(changes).starts_with("-ztag changes"));
    let pending = parse_pending_changes(
        "... change 7\n... desc \n... shelved \n\n... change 9\n... desc Text\n",
    );
    let queries = repository.shelved_queries(&pending);
    assert_eq!(queries.len(), 1);
    let groups = repository.group_changelists(
        "... clientFile //client/x\n... action edit\n... change 9\n",
        &pending,
        &vec!["... clientFile /ws/s.txt\n... action edit\n... shelved \n... change 7\n".to_string()],
    );
    let ids: Vec<ChangelistId> = groups.iter().map(|g| g.id).collect();
    assert!(ids.contains(&ChangelistId::Numbered(9)) && ids.contains(&ChangelistId::Numbered(7)));
    assert_eq!(parse_change_field("default"), Some(ChangelistId::Default));
    assert_eq!(parse_change_field("12"), Some(ChangelistId::Numbered(12)));
    assert_eq!(parse_change_field(" 12 "), None);
    assert_eq!(parse_change_field("x"), None);
    for id in [ChangelistId::Default, ChangelistId::Numbered(0), ChangelistId::Numbered(u32::MAX)] {
        assert_eq!(parse_change_field(&id.as_p4_arg()), Some(id));
    }
}

#[test]
fn files_move_between_changelists_and_shelves() {
    let repository = repository();
    let file = repo_path("a");
    let reopen = repository.move_to_changelist(&file, ChangelistId::Default, None);
    assert_eq!(line(reopen.command), "reopen -c default //client/a");
    let unshelve = repository.move_to_changelist(&file, ChangelistId::Numbered(5), Some(4));
    assert_eq!(line(unshelve.command), "unshelve -s 4 -c 5 -Af //client/a");
    assert_eq!(line(repository.revert(&file).command), "revert //client/a");
    assert_eq!(repository.shelve(5, &file, false).len(), 1);
    let both = step_lines(repository.shelve(5, &file, true));
    assert_eq!(both.len(), 2);
    assert!(both[0].0.starts_with("shelve") && both[0].0.contains("-c 5"));
    assert_eq!(both[1].0, "revert //client/a");
    // What could not be shelved is not reverted.
    let steps = repository.shelve(5, &file, true);
    assert!(matches!(continue_script(&steps, 0, &exited(true, "")), NextStep::Run(1)));
    match continue_script(&steps, 0, &exited(false, "locked")) {
        NextStep::Failed(message) => assert_eq!(message, "p4 shelve failed: locked"),
        other => panic!("{other:?}"),
    }
    let not_run = P4Outcome::NotRun("no p4".to_string());
    assert!(matches!(continue_script(&steps, 0, &not_run), NextStep::Failed(_)));
}

#[test]
fn out_of_date_files_are_those_behind_the_head() {
    let repository = repository();
    assert_eq!(line(repository.out_of_date_command()), "-ztag fstat -Ro //client/...");
    let output = "... clientFile //client/a\n... haveRev 1\n... headRev 2\n";
    assert!(repository.out_of_date_paths(output, true).contains(&repo_path("a")));
}

#[test]
fn stale_files_are_named_by_local_paths() {
    let repository = PerforceRepository::new(
        PerforceWorkspace {
            client_root: "C:\\client".to_string(),
            client_name: "some_client_name".to_string(),
        },
        50,
    );
    let output = "\
... clientFile C:\\client\\a\\stale.cpp
... headRev 5
... haveRev 3

... clientFile c:/client/b/current.cpp
... headRev 7
... haveRev 7

... clientFile C:\\client\\c\\added.md
... action add

... clientFile C:\\client_other\\d.cpp
... headRev 5
... haveRev 3

... clientFile //some_client_name/e/stale.cpp
... headRev 2
... haveRev 1
";
    let stale = repository.out_of_date_paths(output, true);
    assert_eq!(stale.len(), 2);
    assert!(stale.contains(&repo_path("a/stale.cpp")));
    assert!(stale.contains(&repo_path("e/stale.cpp")));
    assert_eq!(repository.out_of_date_paths(output, false).len(), 0);
    // Read as client syntax alone, local paths name nothing.
    assert_eq!(parse_out_of_date("some_client_name", output).len(), 1);
}

const FILELOG: &str = "\
//depot/a.txt
... #2 change 1002 edit on 2020/02/03 04:05:06 by someuser@client (text)

\tSecond change.

... #1 change 1001 add on 2020/01/02 03:04:05 by other@client (text)

\tFirst change.
";

#[test]
fn history_is_recorded_and_shown() {
    let mut repository = repository();
    let path = repo_path("a.txt");
    let command = repository.initial_graph_data(&LogSource::Path(path)).unwrap();
    assert_eq!(line(command), "filelog -l -t -m 50 //client/a.txt");
    assert_eq!(repository.initial_graph_data(&LogSource::All).unwrap_err(), ONLY_FILE_HISTORY);
    assert_eq!(
        repository.initial_graph_data(&LogSource::Branch("b".to_string())).unwrap_err(),
        ONLY_FILE_HISTORY
    );

    let id = change_to_oid(1002);
    let hex: String = "000003ea".to_string() + &"0".repeat(32);
    assert_eq!(Oid::parse(&hex), Some(id));
    match repository.show(&hex) {
        ShowPlan::Describe { change, command } => {
            assert_eq!(change, 1002);
            assert_eq!(line(command), "-ztag describe -s 1002");
        }
        other => panic!("{other:?}"),
    }
    assert!(repository.commit_data(&id).is_err());

    let graph = repository.record_history(FILELOG);
    assert_eq!(graph.len(), 2);
    assert_eq!(graph[0].sha, id);
    assert_eq!(graph[0].parents, vec![change_to_oid(1001)]);
    assert!(graph[1].parents.is_empty());
    match repository.show(&hex) {
        ShowPlan::Known(details) => {
            assert_eq!(details.sha, hex);
            assert_eq!(details.author_name, "someuser");
            assert_eq!(details.message, "Second change.");
            assert_eq!(details.commit_timestamp, parse_p4_datetime("2020/02/03 04:05:06").unwrap());
        }
        other => panic!("{other:?}"),
    }
    assert_eq!(repository.commit_data(&id).unwrap().subject, "Second change.");
    assert!(matches!(repository.show("not hex"), ShowPlan::Invalid));
}

#[test]
fn described_changes_have_details() {
    let output = "... change 5\n... user u\n... time 1700000000\n... desc Title\n";
    let details = PerforceRepository::show_described("abc", 5, output);
    assert_eq!(details.sha, "abc");
    assert_eq!(details.author_name, "u");
    assert_eq!(details.commit_timestamp, 1_700_000_000);
    assert_eq!(details.message, "Title");
    let unknown = PerforceRepository::show_described("abc", 6, output);
    assert_eq!((unknown.author_name.as_str(), unknown.commit_timestamp), ("", 0));
    let data = PerforceRepository::commit_data_described(change_to_oid(5), output);
    assert_eq!(data.author_name, "u");
}

#[test]
fn commits_are_loaded_file_by_file() {
    let repository = repository();
    let described = "\
... change 5
... depotFile0 //depot/a.txt
... action0 edit
... rev0 3
... depotFile1 //depot/new.txt
... action1 add
... rev1 1
... depotFile2 //depot/gone.txt
... action2 delete
... rev2 4
... depotFile3 //depot/elsewhere.txt
... action3 edit
... rev3 2
";
    let files = PerforceRepository::commit_files(described);
    assert_eq!(files.len(), 4);
    assert_eq!(parse_describe_files(described).len(), 4);
    let located = "\
... depotFile //depot/a.txt
... clientFile //client/a.txt

... depotFile //depot/new.txt
... clientFile //client/new.txt

... depotFile //depot/gone.txt
... clientFile //client/gone.txt
";
    let plans = repository.load_commit(&files, located);
    assert_eq!(plans.len(), 3);
    let lines: Vec<(String, Option<String>, Option<String>)> = plans
        .into_iter()
        .map(|plan| (plan.path.as_unix_str().to_string(), plan.old.map(line), plan.new.map(line)))
        .collect();
    assert_eq!(
        lines,
        vec![
            (
                "a.txt".to_string(),
                Some("print -q //depot/a.txt#2".to_string()),
                Some("print -q //depot/a.txt#3".to_string())
            ),
            ("new.txt".to_string(), None, Some("print -q //depot/new.txt#1".to_string())),
            ("gone.txt".to_string(), Some("print -q //depot/gone.txt#3".to_string()), None),
        ]
    );
    let plan = repository.load_commit(&files, located).remove(0);
    let file = assemble_file(plan, Some("old".to_string()), None);
    assert_eq!(file.old_text.as_deref(), Some("old"));
    assert_eq!(file.new_text, None);
    assert!(!file.is_binary);
}

#[test]
fn blame_is_kept_until_the_file_changes() {
    let mut repository = repository();
    let path = repo_path("a.txt");
    assert_eq!(
        line(repository.annotate_command(&path)),
        "-ztag -F %lower%|%user%|%time% annotate -q -u -c -i -dw //client/a.txt#have"
    );
    let annotated = "||\n7|u|2020/01/02 03:04:05\n8|v|2020/01/02 03:04:05\n";
    let commands = repository.description_commands(annotated);
    assert_eq!(commands.len(), 1);
    assert_eq!(line(commands.into_iter().next().unwrap()), "-ztag describe -s 7 8");
    let mtime = Some(FileTime { secs: 5, nanos: 6 });
    assert!(repository.cached_blame(&path, mtime, "one\ntwo\n").is_none());
    let blame = repository.blame(
        &path,
        mtime,
        annotated,
        "one\ntwo\n",
        &vec![Some("... change 7\n... user u\n... time 1\n... desc Seven\n".to_string())],
        "one\ntwo\n",
    );
    assert_eq!(blame.entries.len(), 2);
    assert_eq!(blame.entries[0].summary.as_deref(), Some("Seven"));
    // An edited buffer is blamed anew from what is kept.
    let edited = repository.cached_blame(&path, mtime, "new\none\ntwo\n").unwrap();
    assert_eq!(edited.entries[0].range, 1..2);
    assert!(repository
        .cached_blame(&path, Some(FileTime { secs: 9, nanos: 6 }), "one\ntwo\n")
        .is_none());
}

#[test]
fn descriptions_are_asked_for_in_chunks() {
    let mut annotated = String::new();
    for change in 1..=120 {
        annotated.push_str(&format!("{change}|u|2020/01/02 03:04:05\n"));
    }
    let workspace =
        || PerforceWorkspace { client_root: "/".to_string(), client_name: "c".to_string() };
    let commands = PerforceRepository::new(workspace(), 110).description_commands(&annotated);
    let sizes: Vec<usize> = commands.iter().map(|c| c.args.len() - 2).collect();
    assert_eq!(sizes, vec![50, 50, 10]);
}

#[test]
fn marker_names_are_set_once() {
    let mut markers = P4ConfigMarkers::new();
    assert!(is_p4_config_name(&markers, ".p4config") && is_p4_config_name(&markers, "p4config.txt"));
    set_p4_config_marker_names(&mut markers, vec!["custom".to_string()]);
    assert!(is_p4_config_name(&markers, "custom") && !is_p4_config_name(&markers, ".p4config"));
    set_p4_config_marker_names(&mut markers, vec!["late".to_string()]);
    assert!(!is_p4_config_name(&markers, "late"));
    assert_eq!(p4_config_args(), vec!["set", "P4CONFIG"]);
    assert_eq!(
        parse_p4_config_setting("P4CONFIG=my.cfg (set)"),
        resolve_p4_config_marker_names(Some("P4CONFIG=my.cfg (set)")).first().cloned()
    );
    assert!(!resolve_p4_config_marker_names(None).is_empty());
}

#[test]
fn local_paths_outside_the_root_have_no_place() {
    assert!(local_path_to_repo_path("/ws", "/other/a").is_none());
    assert!(local_path_to_repo_path("/ws", "/ws/").is_none());
    assert_eq!(local_path_to_repo_path("C:\\Ws\\", "c:/ws\\a\\b"), Some(repo_path("a/b")));
    assert_eq!(local_path_to_repo_path("/ws", "/ws/a/b"), Some(repo_path("a/b")));
}

#[test]
fn sibling_directories_have_no_place() {
    assert_eq!(local_path_to_repo_path("E:/Projects/ws", "E:/Projects/ws_other/a.md"), None);
    assert_eq!(local_path_to_repo_path("E:\\Projects\\ws\\", "e:\\projects\\ws2\\a.md"), None);
    assert_eq!(
        local_path_to_repo_path("E:/Projects/ws", "E:/Projects/ws/a.md"),
        Some(repo_path("a.md"))
    );
    assert_eq!(local_path_to_repo_path("E:/Projects/ws", "E:/Projects/ws"), None);
    let output = "\
... depotFile //depot/a.md
... clientFile E:\\Projects\\ws_other\\a.md
... action edit
... change 7

... depotFile //depot/b.md
... clientFile E:\\Projects\\ws\\b.md
... action edit
... change 7
";
    let files: Vec<String> = parse_shelved_files("E:/Projects/ws", output)
        .into_iter()
        .map(|(_, file)| file.path.as_unix_str().to_string())
        .collect();
    assert_eq!(files, vec!["b.md".to_string()]);
}

#[test]
fn committed_text_has_unix_lines() {
    assert_eq!(committed_text("a\r\nb\r\n"), "a\nb\n");
    assert_eq!(committed_text("a\nb"), "a\nb");
    assert_eq!(committed_text("a\rb\r"), "a\rb\r");
    assert_eq!(committed_text("\r\n\r\n"), "\n\n");
    assert_eq!(committed_text(""), "");
}

#[test]
fn timestamps_are_exact() {
    assert_eq!(parse_p4_datetime("1970/01/01 00:00:00"), Some(0));
    assert_eq!(parse_p4_datetime("2000/02/29 23:59:59"), Some(951_868_799));
    assert_eq!(parse_p4_datetime("2024/12/31 12:34:56"), Some(1_735_648_496));
    assert_eq!(parse_p4_datetime("2023/02/29 00:00:00"), None);
    assert_eq!(parse_p4_datetime("2023/13/01 00:00:00"), None);
    assert_eq!(parse_p4_datetime("2023/12/01 24:00:00"), None);
}

#[test]
fn longest_common_subsequences_are_found() {
    let a: Vec<char> = "a\nb\nc\nd".chars().collect();
    let b: Vec<char> = "b\nx\nd\ne".chars().collect();
    let left = split_lines(&a);
    let right = split_lines(&b);
    assert_eq!(lcs_line_match(&left, &right), vec![Some(1), None, Some(3), None]);
    // A text matches itself line by line.
    assert_eq!(lcs_line_match(&left, &left), vec![Some(0), Some(1), Some(2), Some(3)]);
    assert_eq!(lcs_line_match(&vec![], &left), vec![None; 4]);
    let crlf: Vec<char> = "a\r\nb\r\n\n".chars().collect();
    let lines: Vec<String> = split_lines(&crlf).iter().map(|l| l.iter().collect()).collect();
    assert_eq!(lines, vec!["a", "b", ""]);
}

#[test]
fn every_change_has_its_own_id() {
    for change in [0, 1, 255, 256, 65_536, u32::MAX] {
        let id = change_to_oid(change);
        assert_eq!(editor_backend::oid::oid_to_change(&id), change);
    }
    assert_ne!(change_to_oid(1), change_to_oid(256));
    assert_eq!(Oid::parse("xyz"), None);
}

#[test]
fn whitespace_is_that_of_the_language() {
    for code in 0..=0x10_ffff_u32 {
        if let Some(c) = char::from_u32(code) {
            assert_eq!(text::char_is_whitespace(c), c.is_whitespace(), "{code:x}");
        }
    }
    let padded: Vec<char> = "\u{a0} x y\u{3000}\n".chars().collect();
    let trimmed: String = text::trim(&padded).iter().collect();
    assert_eq!(trimmed, "\u{a0} x y\u{3000}\n".trim());
}

#[test]
fn numbers_are_read_as_the_language_reads_them() {
    let read = |s: &str| decimal::parse_u32(&s.chars().collect::<Vec<char>>());
    for s in ["0", "007", "4294967295", "4294967296", "+5", "-5", "", "+", "1 ", "１"] {
        assert_eq!(read(s), s.parse::<u32>().ok(), "{s:?}");
    }
    let read = |s: &str| decimal::parse_i64(&s.chars().collect::<Vec<char>>());
    for s in ["-9223372036854775808", "9223372036854775808", "-0", "+1", "--1", "-"] {
        assert_eq!(read(s), s.parse::<i64>().ok(), "{s:?}");
    }
    assert_eq!(decimal::to_digits(u64::MAX), u64::MAX.to_string());
    assert_eq!(decimal::to_digits(0), "0");
}

#[test]
fn statuses_say_what_was_done() {
    let status = |code| editor_backend::status::FileStatus::worktree(code);
    assert!(status(StatusCode::Added).is_created() && !status(StatusCode::Added).is_deleted());
    assert!(status(StatusCode::Deleted).is_deleted());
    assert!(status(StatusCode::Modified).is_modified());
}
