//! Perforce output, commands, changelists, history and blame.

use editor_backend::oid::{change_to_oid, oid_to_change};
use editor_backend::path::RepoPath;
use editor_backend::perforce::blame::{
    build_p4_blame, build_p4_blame_mapped, parse_formatted_annotate, remap_annotation_to_content,
    AnnotatedLine,
};
use editor_backend::perforce::changelists::{
    build_changelists, parse_shelved_files, ChangelistFile, ChangelistId,
};
use editor_backend::perforce::client::{client_path_to_repo_path, local_path_to_repo_path};
use editor_backend::perforce::commands::{
    p4_move_args, p4_open_args, p4_reopen_args, p4_revert_args, p4_shelve_args, p4_unshelve_args,
    swarm_changelist_url, P4OpenAction,
};
use editor_backend::perforce::config::{
    is_p4_config_name, parse_p4_config_setting, P4ConfigMarkers,
};
use editor_backend::perforce::describe::{
    parse_describe_files, parse_describe_meta, parse_where, ChangeMeta,
};
use editor_backend::perforce::history::{parse_filelog, parse_p4_datetime};
use editor_backend::perforce::opened::{
    action_to_status, parse_opened_actions, parse_opened_status, parse_out_of_date,
};
use editor_backend::perforce::pending::parse_pending_changes;
use editor_backend::perforce::workspace::{
    can_skip_opened_query, workspace_root_matches, OpenCandidate,
};
use editor_backend::perforce::ztag::parse_ztag;
use editor_backend::status::FileStatus;
use std::collections::HashMap;

#[test]
fn workspace_root_match_accepts_dir_inside_client_root() {
    assert!(workspace_root_matches(
        "E:/Projects/ws_branch_a",
        "E:/Projects/ws_branch_a",
    ));
    assert!(workspace_root_matches(
        "E:/Projects/ws_branch_a",
        "E:/Projects/ws_branch_a/sub/dir",
    ));
}

#[test]
fn workspace_root_match_normalizes_slashes_and_case() {
    assert!(workspace_root_matches(
        "E:/Projects\\ws_branch_a",
        "e:\\projects\\WS_BRANCH_A",
    ));
}

#[test]
fn workspace_root_match_rejects_mismatched_client() {
    assert!(!workspace_root_matches(
        "E:/Projects/ws_branch_a",
        "E:/Projects/ws_branch_b",
    ));
    assert!(!workspace_root_matches(
        "E:/Projects/ws",
        "E:/Projects/ws_other",
    ));
}

const INFO_FIXTURE: &str = "\
... userName someuser
... clientName some_client_name
... clientRoot E:/Projects\\some_client_name
... clientStream //Depot.Project/Release/branch_x
... clientCase insensitive
";

const OPENED_FIXTURE: &str = "\
... depotFile //Depot.Project/Release/branch_x/a/added.md
... clientFile //some_client_name/a/added.md
... rev 1
... action add
... change 6596347
... type text

... depotFile //Depot.Project/Release/branch_x/b/edited.cpp
... clientFile //some_client_name/b/edited.cpp
... rev 3
... action edit
... change default
... type text

... depotFile //Depot.Project/Release/branch_x/c/gone.txt
... clientFile //some_client_name/c/gone.txt
... rev 2
... action delete
... change 6596347
... type text
";

#[test]
fn ztag_splits_records_on_blank_lines() {
    let records = parse_ztag(INFO_FIXTURE);
    assert_eq!(records.len(), 1);
    let info = &records[0];
    assert_eq!(info.get("clientName").unwrap(), "some_client_name");
    assert_eq!(info.get("clientRoot").unwrap(), "E:/Projects\\some_client_name");
    assert_eq!(info.get("clientCase").unwrap(), "insensitive");
}

#[test]
fn ztag_handles_valueless_field() {
    let records = parse_ztag("... mapped\n... depotFile //x/y\n");
    assert_eq!(records.len(), 1);
    assert_eq!(records[0].get("mapped").unwrap(), "");
    assert_eq!(records[0].get("depotFile").unwrap(), "//x/y");
}

#[test]
fn pending_changes_keep_multiline_desc_with_blank_lines() {
    let output = "\
... change 7398454
... status pending
... desc single line summary


... change 7397357
... status pending
... shelved
... desc first line

second paragraph
- bullet a
- bullet b


... change 7334528
... status pending
... desc only line
";
    let parsed = parse_pending_changes(output);
    assert_eq!(parsed.len(), 3);
    assert_eq!(parsed[0].number, 7398454);
    assert_eq!(parsed[0].description, "single line summary");
    assert!(!parsed[0].has_shelved);
    assert_eq!(parsed[1].number, 7397357);
    assert_eq!(
        parsed[1].description,
        "first line\n\nsecond paragraph\n- bullet a\n- bullet b"
    );
    assert!(parsed[1].has_shelved);
    assert_eq!(parsed[2].number, 7334528);
    assert_eq!(parsed[2].description, "only line");
    assert!(!parsed[2].has_shelved);
}

#[test]
fn pending_changes_handle_desc_not_last_field() {
    let output = "\
... change 42
... user someuser
... desc line one

line two
... status pending
... changeType public
";
    let parsed = parse_pending_changes(output);
    assert_eq!(parsed.len(), 1);
    assert_eq!(parsed[0].number, 42);
    assert_eq!(parsed[0].description, "line one\n\nline two");
}

#[test]
fn client_path_strips_client_prefix() {
    let p = client_path_to_repo_path("some_client_name", "//some_client_name/a/added.md")
        .expect("should map");
    assert_eq!(p.as_unix_str(), "a/added.md");
}

#[test]
fn client_path_rejects_foreign_client() {
    assert!(client_path_to_repo_path("some_client_name", "//other_client/a/b.md").is_none());
}

#[test]
fn opened_status_maps_actions() {
    let status = parse_opened_status("some_client_name", OPENED_FIXTURE);
    let map: HashMap<String, FileStatus> = status
        .entries
        .iter()
        .map(|(p, s)| (p.as_unix_str().to_string(), *s))
        .collect();
    assert_eq!(map.len(), 3);
    assert!(map["a/added.md"].is_created());
    assert!(map["b/edited.cpp"].is_modified());
    assert!(map["c/gone.txt"].is_deleted());
}

const CHANGES_FIXTURE: &str = "\
... change 6596347
... time 1700000000
... user someuser
... client some_client_name
... status pending
... changeType public
... desc First feature work

... change 6500000
... time 1699000000
... user someuser
... client some_client_name
... status pending
... changeType public
... desc Older change
";

#[test]
fn changelists_group_files_and_sort_default_first_then_descending() {
    let changes = parse_pending_changes(CHANGES_FIXTURE);
    let groups = build_changelists("some_client_name", OPENED_FIXTURE, &changes, Vec::new());

    let ids: Vec<ChangelistId> = groups.iter().map(|g| g.id).collect();
    assert_eq!(
        ids,
        vec![
            ChangelistId::Default,
            ChangelistId::Numbered(6596347),
            ChangelistId::Numbered(6500000),
        ]
    );

    let default = &groups[0];
    assert_eq!(default.description, "");
    assert_eq!(default.files.len(), 1);
    assert_eq!(default.files[0].path.as_unix_str(), "b/edited.cpp");
    assert!(default.files[0].status.is_modified());
    assert!(!default.files[0].shelved);

    let cl = &groups[1];
    assert_eq!(cl.description, "First feature work");
    let files: Vec<(&str, bool)> = cl
        .files
        .iter()
        .map(|f| (f.path.as_unix_str(), f.status.is_deleted()))
        .collect();
    assert_eq!(files, vec![("a/added.md", false), ("c/gone.txt", true)]);

    let empty = &groups[2];
    assert_eq!(empty.description, "Older change");
    assert!(empty.files.is_empty());
}

#[test]
fn local_path_maps_under_client_root() {
    let root = "E:/Projects/some_client_name";
    let p = local_path_to_repo_path(root, "E:/Projects\\some_client_name\\a\\shelved.md")
        .expect("should map under root");
    assert_eq!(p.as_unix_str(), "a/shelved.md");
    let p2 = local_path_to_repo_path(root, "e:/projects/SOME_CLIENT_NAME/b/x.txt")
        .expect("case-insensitive root");
    assert_eq!(p2.as_unix_str(), "b/x.txt");
    assert!(local_path_to_repo_path(root, "D:/elsewhere/a.md").is_none());
}

const SHELVED_FIXTURE: &str = "\
... depotFile //Depot.Project/Release/branch_x/a/shelved_add.md
... clientFile E:/Projects\\some_client_name\\a\\shelved_add.md
... shelved
... isMapped
... action add
... change 6596347
... type text

... desc a shelved changelist
";

#[test]
fn shelved_files_parse_with_local_paths() {
    let root = "E:/Projects/some_client_name";
    let parsed = parse_shelved_files(root, SHELVED_FIXTURE);
    assert_eq!(parsed.len(), 1);
    let (change, file) = &parsed[0];
    assert_eq!(*change, 6596347);
    assert_eq!(file.path.as_unix_str(), "a/shelved_add.md");
    assert!(file.shelved);
    assert!(file.status.is_created());
}

#[test]
fn changelists_append_shelved_after_opened() {
    let changes = parse_pending_changes(CHANGES_FIXTURE);
    let shelved = vec![(
        6596347u32,
        ChangelistFile {
            path: repo_path("a/shelved.md"),
            status: action_to_status("edit").unwrap(),
            shelved: true,
        },
    )];
    let groups = build_changelists("some_client_name", OPENED_FIXTURE, &changes, shelved);

    let cl = &groups[1];
    assert_eq!(cl.id, ChangelistId::Numbered(6596347));
    assert_eq!(cl.files.len(), 3);
    assert_eq!(cl.files.iter().filter(|f| !f.shelved).count(), 2);
    let last = cl.files.last().unwrap();
    assert!(last.shelved);
    assert_eq!(last.path.as_unix_str(), "a/shelved.md");
}

#[test]
fn parse_p4config_setting_variants() {
    assert_eq!(
        parse_p4_config_setting("P4CONFIG=.p4config (set) (config 'noconfig')").as_deref(),
        Some(".p4config")
    );
    assert_eq!(
        parse_p4_config_setting("P4CONFIG=p4config.txt (set -s)").as_deref(),
        Some("p4config.txt")
    );
    assert_eq!(
        parse_p4_config_setting("P4CONFIG= (config 'noconfig')"),
        None
    );
    assert_eq!(
        parse_p4_config_setting("P4CONFIG=.myp4cfg").as_deref(),
        Some(".myp4cfg")
    );
    assert_eq!(parse_p4_config_setting("P4PORT=ssl:host:1666\n"), None);
}

#[test]
fn is_p4_config_name_defaults_before_resolution() {
    let markers = P4ConfigMarkers::new();
    assert!(is_p4_config_name(&markers, ".p4config"));
    assert!(is_p4_config_name(&markers, "p4config.txt"));
    assert!(!is_p4_config_name(&markers, "some_custom_name"));
    assert!(!is_p4_config_name(&markers, ".gitignore"));
}

#[test]
fn skip_decision_all_readonly_skips() {
    let candidates = vec![
        OpenCandidate::DefinitelyNotOpen,
        OpenCandidate::DefinitelyNotOpen,
    ];
    assert!(can_skip_opened_query(&candidates));
}

#[test]
fn skip_decision_any_maybe_open_queries() {
    let candidates = vec![
        OpenCandidate::DefinitelyNotOpen,
        OpenCandidate::MaybeOpen,
        OpenCandidate::DefinitelyNotOpen,
    ];
    assert!(!can_skip_opened_query(&candidates));
}

#[test]
fn skip_decision_empty_never_skips() {
    assert!(!can_skip_opened_query(&[]));
}

fn repo_path(unix: &str) -> RepoPath {
    RepoPath::new(unix).unwrap()
}

#[test]
fn open_action_verbs() {
    assert_eq!(P4OpenAction::Edit.verb(), "edit");
    assert_eq!(P4OpenAction::Add.verb(), "add");
    assert_eq!(P4OpenAction::Delete.verb(), "delete");
}

#[test]
fn open_args_build_client_syntax_paths() {
    let args = p4_open_args(
        P4OpenAction::Edit,
        "some_client_name",
        &[repo_path("a/added.md"), repo_path("b/edited.cpp")],
    );
    assert_eq!(
        args,
        vec![
            "edit".to_string(),
            "//some_client_name/a/added.md".to_string(),
            "//some_client_name/b/edited.cpp".to_string(),
        ]
    );
}

#[test]
fn open_args_add_and_delete_use_correct_verb() {
    let add = p4_open_args(P4OpenAction::Add, "c", &[repo_path("new.txt")]);
    assert_eq!(add, vec!["add".to_string(), "//c/new.txt".to_string()]);
    let del = p4_open_args(P4OpenAction::Delete, "c", &[repo_path("gone.txt")]);
    assert_eq!(del, vec!["delete".to_string(), "//c/gone.txt".to_string()]);
}

#[test]
fn open_args_no_ztag_flag_present() {
    let args = p4_open_args(P4OpenAction::Edit, "c", &[repo_path("f.rs")]);
    assert!(!args.iter().any(|a| a == "-ztag"));
    assert_eq!(args[0], "edit");
}

#[test]
fn move_args_keep_workspace_client_syntax() {
    let args = p4_move_args(
        "some_client_name",
        &repo_path("a/old.txt"),
        &repo_path("b/new.txt"),
    );
    assert_eq!(
        args,
        vec![
            "move".to_string(),
            "-k".to_string(),
            "//some_client_name/a/old.txt".to_string(),
            "//some_client_name/b/new.txt".to_string(),
        ]
    );
}

#[test]
fn reopen_args_target_changelist() {
    let args = p4_reopen_args("c", ChangelistId::Numbered(60000001), &repo_path("a/b.txt"));
    assert_eq!(
        args,
        vec![
            "reopen".to_string(),
            "-c".to_string(),
            "60000001".to_string(),
            "//c/a/b.txt".to_string(),
        ]
    );
    let default = p4_reopen_args("c", ChangelistId::Default, &repo_path("a/b.txt"));
    assert_eq!(default[2], "default");
}

#[test]
fn unshelve_args_restore_into_target() {
    let args = p4_unshelve_args(
        "c",
        7369367,
        ChangelistId::Numbered(7397357),
        &repo_path("a/b.md"),
    );
    assert_eq!(
        args,
        vec![
            "unshelve".to_string(),
            "-s".to_string(),
            "7369367".to_string(),
            "-c".to_string(),
            "7397357".to_string(),
            "-Af".to_string(),
            "//c/a/b.md".to_string(),
        ]
    );
}

#[test]
fn out_of_date_flags_only_stale_opened_files() {
    let ztag = "\
... depotFile //Depot.Project/Release/branch_x/a/stale.cpp
... clientFile //some_client_name/a/stale.cpp
... headRev 5
... haveRev 3
... action edit

... depotFile //Depot.Project/Release/branch_x/b/current.cpp
... clientFile //some_client_name/b/current.cpp
... headRev 7
... haveRev 7
... action edit

... depotFile //Depot.Project/Release/branch_x/c/added.md
... clientFile //some_client_name/c/added.md
... action add
";
    let stale = parse_out_of_date("some_client_name", ztag);
    assert_eq!(stale.len(), 1);
    assert!(stale.contains(&repo_path("a/stale.cpp")));
    assert!(!stale.contains(&repo_path("b/current.cpp")));
    assert!(!stale.contains(&repo_path("c/added.md")));
}

#[test]
fn describe_files_parse_indexed_records() {
    let ztag = "\
... change 6596347
... user someuser
... time 1700000000
... depotFile0 //Depot.Project/Release/branch_x/a/b.cpp
... action0 edit
... type0 text
... rev0 3
... depotFile1 //Depot.Project/Release/branch_x/c/new.md
... action1 add
... type1 text
... rev1 1
";
    let files = parse_describe_files(ztag);
    assert_eq!(
        files,
        vec![
            ("//Depot.Project/Release/branch_x/a/b.cpp".to_string(), 3, "edit".to_string()),
            ("//Depot.Project/Release/branch_x/c/new.md".to_string(), 1, "add".to_string()),
        ]
    );
}

#[test]
fn where_maps_depot_to_client() {
    let ztag = "\
... depotFile //Depot.Project/Release/branch_x/a/b.cpp
... clientFile //some_client_name/a/b.cpp
... path E:\\Projects\\some_client_name\\a\\b.cpp

... depotFile //Depot.Project/Release/branch_x/c/new.md
... clientFile //some_client_name/c/new.md
... path E:\\Projects\\some_client_name\\c\\new.md
";
    let map = parse_where(ztag);
    assert_eq!(
        map.get("//Depot.Project/Release/branch_x/a/b.cpp").map(String::as_str),
        Some("//some_client_name/a/b.cpp")
    );
    assert_eq!(map.len(), 2);
}

#[test]
fn oid_change_roundtrip() {
    let oid = change_to_oid(6596347);
    assert_eq!(oid_to_change(&oid), 6596347);
    assert_eq!(oid_to_change(&change_to_oid(1)), 1);
}

#[test]
fn filelog_parses_revisions_newest_first() {
    let output = "\
//Depot.Project/Release/branch_x/a/b.cpp
... #3 change 6596347 edit on 2023/11/14 18:30:00 by someuser@some_client_name (text)

\tFix the thing
\tsecond line

... #2 change 6500000 add on 2023/06/01 09:00:00 by someuser@some_client_name (text)

\tInitial work
";
    let revs = parse_filelog(output);
    assert_eq!(revs.len(), 2);
    assert_eq!(revs[0].rev, 3);
    assert_eq!(revs[0].change, 6596347);
    assert_eq!(revs[0].action, "edit");
    assert_eq!(revs[0].user, "someuser");
    assert_eq!(revs[0].desc, "Fix the thing\nsecond line");
    assert!(revs[0].time.is_some());
    assert_eq!(revs[1].rev, 2);
    assert_eq!(revs[1].change, 6500000);
    assert_eq!(revs[1].action, "add");
    assert_eq!(revs[1].desc, "Initial work");
}

#[test]
fn filelog_ignores_integration_lines() {
    let output = "\
//Depot.Project/Release/branch_x/a/b.cpp
... #1 change 6400000 branch on 2023/01/01 00:00:00 by someuser@some_client_name (text)
... ... branch from //Depot.Project/Main/a/b.cpp#4

\tBranched in
";
    let revs = parse_filelog(output);
    assert_eq!(revs.len(), 1);
    assert_eq!(revs[0].change, 6400000);
    assert_eq!(revs[0].desc, "Branched in");
}

#[test]
fn revert_args_just_the_file() {
    let args = p4_revert_args("some_client_name", &repo_path("a/b.cpp"));
    assert_eq!(
        args,
        vec![
            "revert".to_string(),
            "//some_client_name/a/b.cpp".to_string(),
        ]
    );
}

#[test]
fn shelve_args_into_numbered_changelist() {
    let args = p4_shelve_args("c", 6596347, &repo_path("a/b.cpp"));
    assert_eq!(
        args,
        vec![
            "shelve".to_string(),
            "-c".to_string(),
            "6596347".to_string(),
            "//c/a/b.cpp".to_string(),
        ]
    );
}

#[test]
fn swarm_url_appends_changes_path() {
    assert_eq!(
        swarm_changelist_url("https://swarm.example.com", 6596347),
        "https://swarm.example.com/changes/6596347"
    );
    assert_eq!(
        swarm_changelist_url("https://swarm.example.com/", 6596347),
        "https://swarm.example.com/changes/6596347"
    );
}

#[test]
fn opened_actions_parse() {
    let ztag = "\
... clientFile //some_client_name/a/edited.cpp
... action edit

... clientFile //some_client_name/b/added.md
... action add
";
    let map = parse_opened_actions("some_client_name", ztag);
    assert_eq!(map.get(repo_path("a/edited.cpp").as_unix_str()).map(String::as_str), Some("edit"));
    assert_eq!(map.get(repo_path("b/added.md").as_unix_str()).map(String::as_str), Some("add"));
}

#[test]
fn formatted_annotate_parses_origin_change_user_time() {
    let out = "\
||
1001|devuser1|2020/01/02 03:04:05
1002|devuser2|2020/02/03 04:05:06
";
    let lines = parse_formatted_annotate(out);
    assert_eq!(lines.len(), 2);
    assert_eq!(lines[0].change, 1001);
    assert_eq!(lines[0].user.as_deref(), Some("devuser1"));
    assert!(lines[0].time.is_some()); // real timestamp, not None -> not "just now"
    assert_eq!(lines[1].change, 1002);
    assert_eq!(lines[1].user.as_deref(), Some("devuser2"));
}

#[test]
fn p4_datetime_parses() {
    let t1 = parse_p4_datetime("2020/01/02 16:53:00").unwrap();
    let t0 = parse_p4_datetime("2020/01/02 00:00:00").unwrap();
    assert_eq!(t1 - t0, 16 * 3600 + 53 * 60);
    assert!(parse_p4_datetime("2020/01/02").is_some());
    assert!(parse_p4_datetime("garbage").is_none());
}

#[test]
fn describe_meta_parses_change_records() {
    let ztag = "\
... change 2001
... user devuser1
... time 1700000000
... desc add curves

... change 2002
... user devuser2
... time 1690000000
... desc [CODE] initial import
";
    let meta = parse_describe_meta(ztag);
    let a = meta.get(&2001).unwrap();
    assert_eq!(a.user.as_deref(), Some("devuser1"));
    assert_eq!(a.time, Some(1700000000));
    assert_eq!(a.summary.as_deref(), Some("add curves"));
    assert_eq!(meta.get(&2002).unwrap().summary.as_deref(), Some("[CODE] initial import"));
}

#[test]
fn build_blame_groups_consecutive_changes() {
    let lines = vec![
        AnnotatedLine {
            change: 2001,
            user: Some("devuser1".into()),
            time: Some(1700000000),
        },
        AnnotatedLine {
            change: 2001,
            user: Some("devuser1".into()),
            time: Some(1700000000),
        },
        AnnotatedLine {
            change: 2002,
            user: Some("devuser2".into()),
            time: Some(1690000000),
        },
    ];
    let mut descriptions = HashMap::default();
    descriptions.insert(
        2001,
        ChangeMeta {
            user: None,
            time: None,
            summary: Some("add curves".into()),
        },
    );
    let blame = build_p4_blame(&lines, &descriptions, "a/b.cpp".into());
    assert_eq!(blame.entries.len(), 2);
    assert_eq!(blame.entries[0].range, 0..2);
    assert_eq!(blame.entries[0].revision_label.as_deref(), Some("@2001"));
    assert_eq!(blame.entries[0].author.as_deref(), Some("devuser1"));
    assert_eq!(blame.entries[0].author_time, Some(1700000000));
    assert_eq!(blame.entries[0].summary.as_deref(), Some("add curves"));
    assert_eq!(blame.entries[1].range, 2..3);
    assert_eq!(blame.entries[1].revision_label.as_deref(), Some("@2002"));
    assert_eq!(blame.entries[1].author.as_deref(), Some("devuser2"));
    assert_eq!(blame.entries[1].summary, None);
    assert_ne!(blame.entries[0].sha, blame.entries[1].sha);
    assert_eq!(
        blame.message(&change_to_oid(2001)).map(String::as_str),
        Some("add curves")
    );
}

fn annotated(change: u32) -> AnnotatedLine {
    AnnotatedLine {
        change,
        user: Some(format!("user{change}")),
        time: Some(1_700_000_000 + change as i64),
    }
}

#[test]
fn remap_clean_buffer_is_identity() {
    let depot = vec![annotated(1001), annotated(1001), annotated(1002)];
    let depot_text = "a\nb\nc\n";
    let content = "a\nb\nc\n";
    let mapped = remap_annotation_to_content(&depot, depot_text, content);
    let changes: Vec<Option<u32>> = mapped.iter().map(|m| m.as_ref().map(|l| l.change)).collect();
    assert_eq!(changes, vec![Some(1001), Some(1001), Some(1002)]);
}

#[test]
fn remap_inserted_line_gets_no_blame_and_shifts_rest() {
    let depot = vec![annotated(1001), annotated(1002), annotated(1003)];
    let depot_text = "a\nb\nc\n";
    let content = "a\nb\nx\nc\n";
    let mapped = remap_annotation_to_content(&depot, depot_text, content);
    let changes: Vec<Option<u32>> = mapped.iter().map(|m| m.as_ref().map(|l| l.change)).collect();
    assert_eq!(changes, vec![Some(1001), Some(1002), None, Some(1003)]);
}

#[test]
fn remap_edited_line_gets_no_blame() {
    let depot = vec![annotated(1001), annotated(1002), annotated(1003)];
    let depot_text = "a\nb\nc\n";
    let content = "a\nB\nc\n";
    let mapped = remap_annotation_to_content(&depot, depot_text, content);
    let changes: Vec<Option<u32>> = mapped.iter().map(|m| m.as_ref().map(|l| l.change)).collect();
    assert_eq!(changes, vec![Some(1001), None, Some(1003)]);
}

#[test]
fn remap_deleted_line_drops_depot_row() {
    let depot = vec![annotated(1001), annotated(1002), annotated(1003)];
    let depot_text = "a\nb\nc\n";
    let content = "a\nc\n";
    let mapped = remap_annotation_to_content(&depot, depot_text, content);
    let changes: Vec<Option<u32>> = mapped.iter().map(|m| m.as_ref().map(|l| l.change)).collect();
    assert_eq!(changes, vec![Some(1001), Some(1003)]);
}

#[test]
fn remap_mismatched_counts_falls_back_to_raw() {
    let depot = vec![annotated(1001), annotated(1002)];
    let depot_text = "a\nb\nc\n";
    let content = "a\nb\nc\n";
    let mapped = remap_annotation_to_content(&depot, depot_text, content);
    let changes: Vec<Option<u32>> = mapped.iter().map(|m| m.as_ref().map(|l| l.change)).collect();
    assert_eq!(changes, vec![Some(1001), Some(1002)]);
}

#[test]
fn blame_from_remapped_hides_holes_and_offsets() {
    let mapped = vec![
        Some(annotated(2001)),
        None,
        Some(annotated(2002)),
    ];
    let descriptions = HashMap::default();
    let blame = build_p4_blame_mapped(&mapped, &descriptions, "a/b.cpp".into());
    assert_eq!(blame.entries.len(), 2);
    assert_eq!(blame.entries[0].range, 0..1);
    assert_eq!(blame.entries[0].revision_label.as_deref(), Some("@2001"));
    assert_eq!(blame.entries[1].range, 2..3);
    assert_eq!(blame.entries[1].revision_label.as_deref(), Some("@2002"));
}

#[test]
fn action_mapping_known_verbs() {
    assert!(action_to_status("add").unwrap().is_created());
    assert!(action_to_status("branch").unwrap().is_created());
    assert!(action_to_status("move/add").unwrap().is_created());
    assert!(action_to_status("edit").unwrap().is_modified());
    assert!(action_to_status("integrate").unwrap().is_modified());
    assert!(action_to_status("delete").unwrap().is_deleted());
    assert!(action_to_status("move/delete").unwrap().is_deleted());
    assert!(action_to_status("nonsense").is_none());
}
