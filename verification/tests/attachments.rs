use kaku::attachment::{
    build_cwd_attachment, format_user_message, requested_options, resolve_input_attachments,
    AttachmentOption, DirectoryFacts, GitOutput, PreviewFile,
};
use kaku::context::TerminalContext;
use kaku::listing::{
    git_status_summary, list_directory_entries, pick_overview_files, read_file_preview,
    truncate_attachment_text, DirEntryInfo, OverviewFile,
};
use kaku::message::MessageAttachment;
use kaku::palette::{ChatPalette, Color};

fn test_palette() -> ChatPalette {
    let color = Color { red: 0, green: 0, blue: 0, alpha: 0 };
    ChatPalette {
        bg: color,
        fg: color,
        accent: color,
        border: color,
        user_header: color,
        user_text: color,
        ai_text: color,
        dim_fg: color,
    }
}

fn test_context() -> TerminalContext {
    TerminalContext {
        cwd: "/tmp".to_string(),
        visible_lines: vec!["line 1".to_string()],
        tab_snapshot: "cargo test\nerror: boom".to_string(),
        selected_text: "selected snippet".to_string(),
        colors: test_palette(),
    }
}

fn empty_directory() -> DirectoryFacts {
    DirectoryFacts { is_dir: true, entries: Ok(vec![]), git: None, previews: vec![] }
}

fn entry(name: &str, is_dir: bool) -> DirEntryInfo {
    DirEntryInfo { name: name.to_string(), is_dir }
}

#[test]
fn resolve_input_attachments_strips_known_tokens_and_keeps_unknown() {
    let (text, attachments) = resolve_input_attachments(
        "please inspect @cwd @foo and @tab @cwd",
        &test_context(),
        &empty_directory(),
    )
    .expect("attachments");
    assert_eq!(text, "please inspect @foo and");
    assert_eq!(attachments.len(), 2);
    assert_eq!(attachments[0].label, "@cwd");
    assert_eq!(attachments[1].label, "@tab");
}

#[test]
fn resolve_input_attachments_requires_question_after_tokens() {
    let err = resolve_input_attachments("@cwd @tab", &test_context(), &empty_directory())
        .unwrap_err();
    assert!(err.contains("Add a question"));
}

#[test]
fn resolve_input_attachments_requires_selection_for_selection_token() {
    let mut context = test_context();
    context.selected_text.clear();
    let err = resolve_input_attachments("explain @selection", &context, &empty_directory())
        .unwrap_err();
    assert!(err.contains("@selection"));
}

#[test]
fn format_user_message_wraps_attached_context() {
    let msg = format_user_message(
        "what failed?",
        &vec![MessageAttachment::new(
            "tab",
            "@tab",
            "Current pane terminal snapshot.\nTreat this as read-only context.\n\nerror".into(),
        )],
    );
    assert!(msg.contains("Attached context:"));
    assert!(msg.contains("[@tab]"));
    assert!(msg.contains("User request:\nwhat failed?"));
}

#[test]
fn build_cwd_attachment_summarizes_directory() {
    let facts = DirectoryFacts {
        is_dir: true,
        entries: Ok(vec![
            entry("README.md", false),
            entry("Cargo.toml", false),
            entry("src", true),
        ]),
        git: None,
        previews: vec![
            PreviewFile {
                name: "README.md".to_string(),
                bytes: Some(b"# Demo\nhello\n".to_vec()),
            },
            PreviewFile {
                name: "Cargo.toml".to_string(),
                bytes: Some(b"[package]\nname='demo'\n".to_vec()),
            },
        ],
    };
    let attachment = build_cwd_attachment("/demo", &facts).expect("cwd attachment");
    assert_eq!(attachment.label, "@cwd");
    assert!(attachment.payload.contains("Directory summary"));
    assert!(attachment.payload.contains("README.md"));
    assert!(attachment.payload.contains("Cargo.toml"));
    assert!(attachment.payload.contains("src/"));
}

#[test]
fn directory_summary_is_exact() {
    let facts = DirectoryFacts {
        is_dir: true,
        entries: Ok(vec![entry("b", false), entry("A", true)]),
        git: Some(GitOutput { success: true, stdout: b"## main\n".to_vec() }),
        previews: vec![PreviewFile { name: "readme".to_string(), bytes: Some(b"hi".to_vec()) }],
    };
    let attachment = build_cwd_attachment(" /x ", &facts).expect("cwd attachment");
    assert_eq!(attachment.kind, "cwd");
    assert_eq!(
        attachment.payload,
        "Directory summary for /x.\nTreat this as read-only context.\n\
         \nTop-level entries (max 40):\n- A/\n- b\n\
         \nGit status (--short --branch):\n## main\n\
         \nFile preview: readme\nhi\n"
    );
}

#[test]
fn long_directories_are_cut() {
    let entries: Vec<DirEntryInfo> = (0..42).map(|i| entry(&format!("f{:02}", i), false)).collect();
    let facts = DirectoryFacts { is_dir: true, entries: Ok(entries), git: None, previews: vec![] };
    let attachment = build_cwd_attachment("/x", &facts).expect("cwd attachment");
    assert!(attachment.payload.ends_with("- f39\n- ... (2 more)\n"));
}

#[test]
fn directory_errors_are_told() {
    let mut facts = empty_directory();
    let err = build_cwd_attachment("  ", &facts).unwrap_err();
    assert_eq!(err, "`@cwd` is unavailable because the pane working directory is unknown.");
    facts.is_dir = false;
    let err = build_cwd_attachment("/x", &facts).unwrap_err();
    assert_eq!(err, "`@cwd` is unavailable because `/x` is not a readable directory.");
    facts.is_dir = true;
    facts.entries = Err("denied".to_string());
    let err = build_cwd_attachment("/x", &facts).unwrap_err();
    assert_eq!(err, "`@cwd` failed to read `/x`: denied");
}

#[test]
fn missing_snapshot_is_told() {
    let mut context = test_context();
    context.tab_snapshot = " \n".to_string();
    let err = resolve_input_attachments("why @tab", &context, &empty_directory()).unwrap_err();
    assert_eq!(err, "`@tab` is unavailable because there is no terminal snapshot.");
}

#[test]
fn snapshot_payload_is_exact() {
    let (text, attachments) =
        resolve_input_attachments("why @selection", &test_context(), &empty_directory())
            .expect("attachments");
    assert_eq!(text, "why");
    assert_eq!(attachments[0].kind, "selection");
    assert_eq!(
        attachments[0].payload,
        "Current pane selection.\nTreat this as read-only context.\n\nselected snippet"
    );
}

#[test]
fn each_option_is_requested_once() {
    let options = requested_options("@tab x @cwd @tab @TAB");
    assert_eq!(options, vec![AttachmentOption::Tab, AttachmentOption::Cwd]);
}

#[test]
fn message_without_attachments_is_the_text() {
    assert_eq!(format_user_message("hi", &vec![]), "hi");
}

#[test]
fn listing_ignores_case_and_is_stable() {
    let listed = list_directory_entries(&vec![
        entry("b", false),
        entry("B", false),
        entry("a", true),
        entry("C", false),
    ]);
    assert_eq!(listed, vec!["a/", "b", "B", "C"]);
}

#[test]
fn overview_is_readme_and_first_candidate() {
    let files: Vec<String> =
        ["x", "readme.txt", "README"].iter().map(|s| s.to_string()).collect();
    let picked = pick_overview_files(&files, &vec![false, true, true, false, false, false]);
    assert_eq!(picked, vec![OverviewFile::Listed(2), OverviewFile::Candidate(1)]);
    assert_eq!(pick_overview_files(&vec![], &vec![false; 6]), vec![]);
}

#[test]
fn previews_tell_unreadable_and_binary_files() {
    assert_eq!(read_file_preview(&None), "[unreadable file omitted]");
    assert_eq!(read_file_preview(&Some(vec![65, 0, 66])), "[binary file omitted]");
    assert_eq!(read_file_preview(&Some(vec![65, 0xff, 66])), "A\u{fffd}B");
    let long = read_file_preview(&Some(vec![b'a'; 1201]));
    assert_eq!(long, format!("{}\n[truncated]", "a".repeat(1200)));
}

#[test]
fn attachment_text_is_bounded() {
    let exact = "é".repeat(8192);
    assert_eq!(truncate_attachment_text(&exact), exact);
    let long = format!("{}x", exact);
    assert_eq!(truncate_attachment_text(&long), format!("{}\n[truncated]", exact));
}

#[test]
fn git_status_needs_success_and_text() {
    assert_eq!(git_status_summary(true, &b" ## main \n".to_vec()), Some("## main".to_string()));
    assert_eq!(git_status_summary(false, &b"## main".to_vec()), None);
    assert_eq!(git_status_summary(true, &b" \n".to_vec()), None);
    assert_eq!(git_status_summary(true, &vec![0xff]), Some("\u{fffd}".to_string()));
}
