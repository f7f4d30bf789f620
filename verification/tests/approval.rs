use kaku::agent::{
    approval_summary, args_from_fields, parse_args, Agent, AgentAction, AgentEvent, Phase, Step,
    ToolArgs,
};
use kaku::prompt::{ApiMessage, ToolCall};
use kaku::shell::{
    has_output_flag, shell_command_requires_approval, split_shell_pipeline, words_are_read_only,
};
use kaku::stream::StreamMsg;

fn object(name: &str, value: &str) -> ToolArgs {
    let key = serde_json::Value::String(name.to_string());
    let text = serde_json::Value::String(value.to_string());
    parse_args(&format!("{{{}: {}}}", key, text))
}

#[test]
fn approval_summary_mutating_tools() {
    let args = object("command", "rm -rf /tmp/foo");
    assert!(approval_summary("shell_exec", &args).is_some());
    assert!(approval_summary("shell_bg", &args).is_some());
    let args = object("path", "/tmp/foo.txt");
    assert!(approval_summary("fs_write", &args).is_some());
    assert!(approval_summary("fs_patch", &args).is_some());
    assert!(approval_summary("fs_mkdir", &args).is_some());
    assert!(approval_summary("fs_delete", &args).is_some());
}

#[test]
fn approval_summary_readonly_tools_return_none() {
    let args = object("path", "/tmp");
    assert!(approval_summary("fs_read", &args).is_none());
    assert!(approval_summary("fs_list", &args).is_none());
    assert!(approval_summary("fs_search", &args).is_none());
    assert!(approval_summary("pwd", &parse_args("{}")).is_none());
    assert!(approval_summary("shell_poll", &parse_args("{\"pid\": 123}")).is_none());
    assert!(approval_summary("unknown_tool", &args).is_none());
}

#[test]
fn shell_exec_read_only_commands_skip_approval() {
    for command in [
        "pwd",
        "ls -la",
        "cat Cargo.toml",
        "head -20 README.md",
        "tail -5 foo.log",
        "wc -l src/main.rs",
        "rg TODO src",
        "grep main Cargo.toml",
        "which cargo",
        "whereis git",
        "cut -d: -f1 Cargo.toml",
        "sort Cargo.toml",
        "uniq Cargo.toml",
        "nl Cargo.toml",
        "stat Cargo.toml",
        "file Cargo.toml",
        "realpath Cargo.toml",
        "readlink Cargo.toml",
        "basename src/main.rs",
        "dirname src/main.rs",
        "find . -name '*.rs'",
        "git status",
        "git diff HEAD~1",
        "git diff --output-indicator-new=+",
        "git show HEAD",
        "git log --oneline -5",
        "git grep main",
        "git ls-files",
        "git branch",
        "git branch -a",
        "git branch --list 'feat/*'",
        "git branch --show-current",
        "git remote -v",
        "git tag -l 'V0.*'",
        "git stash list",
        "git rev-parse --show-toplevel",
        "grep 'foo|bar' Cargo.toml",
        "cat Cargo.toml | tr a-z A-Z",
        "rg TODO src | sort | uniq",
        "git diff HEAD~1 | head -20",
        "find . -name '*.rs' | wc -l",
    ] {
        assert!(
            approval_summary("shell_exec", &object("command", command)).is_none(),
            "expected read-only command to skip approval: {}",
            command
        );
    }
}

#[test]
fn shell_exec_mutating_or_compound_commands_require_approval() {
    for command in [
        "git checkout main",
        "git branch new-feature",
        "git tag V0.9.0",
        "git remote add origin https://example.com/repo.git",
        "git stash push -m test",
        "rm -rf /tmp/x",
        "ls || wc",
        "cat a > b",
        "find . -delete",
        "find . -fprint out.txt",
        "sort -o out.txt Cargo.toml",
        "tree -o out.txt .",
        "bash -lc 'pwd'",
        "rg TODO src | xargs rm",
        "pwd && ls",
        "git diff --output=out.patch",
    ] {
        assert!(
            approval_summary("shell_exec", &object("command", command)).is_some(),
            "expected command to require approval: {}",
            command
        );
    }
}

#[test]
fn approval_lines_are_exact() {
    let path = "p".repeat(70);
    let args = object("path", &path);
    let shown = "p".repeat(60);
    assert_eq!(approval_summary("fs_write", &args), Some(format!("write file: {}", shown)));
    assert_eq!(approval_summary("fs_patch", &args), Some(format!("patch file: {}", shown)));
    assert_eq!(approval_summary("fs_mkdir", &args), Some(format!("mkdir: {}", shown)));
    assert_eq!(approval_summary("fs_delete", &args), Some(format!("delete: {}", shown)));
    assert_eq!(approval_summary("shell_bg", &args), Some("shell_bg: ".to_string()));
    assert_eq!(approval_summary("shell_exec", &args), Some("shell: ".to_string()));
    let args = object("command", "rm x");
    assert_eq!(approval_summary("shell_exec", &args), Some("shell: rm x".to_string()));
}

#[test]
fn arguments_are_read_from_json() {
    let args = parse_args("{\"b\": \"two\", \"a\": 1, \"path\": \"p\\\"q\"}");
    assert_eq!(args.text("b"), "two");
    assert_eq!(args.text("a"), "");
    assert_eq!(args.text("c"), "");
    assert_eq!(args.preview(), "p\"q");
    assert_eq!(parse_args("not json").fields.len(), 0);
    assert_eq!(parse_args("[1]").fields.len(), 0);
    assert_eq!(parse_args("{\"x\": \"first\"}").preview(), "first");
    assert_eq!(parse_args("{\"path\": 1, \"a\": \"x\"}").preview(), "");
}

#[test]
fn preview_is_cut() {
    let args = args_from_fields(Some(vec![("x".to_string(), Some("y".repeat(50)))]));
    assert_eq!(args.preview(), "y".repeat(40));
    assert_eq!(args_from_fields(None).preview(), "");
}

#[test]
fn pipelines_split_outside_quotes() {
    assert_eq!(
        split_shell_pipeline("a 'x|y' | b \"c|d\""),
        Some(vec!["a 'x|y'".to_string(), "b \"c|d\"".to_string()])
    );
    assert_eq!(split_shell_pipeline("a | | b"), None);
    assert_eq!(split_shell_pipeline("a 'open"), None);
    assert_eq!(split_shell_pipeline("a $(b)"), None);
    assert_eq!(split_shell_pipeline("a \\"), None);
    assert_eq!(split_shell_pipeline("a \\; b"), Some(vec!["a \\; b".to_string()]));
    assert_eq!(split_shell_pipeline(""), None);
}

#[test]
fn words_decide_what_only_reads() {
    let words = |s: &[&str]| Some(s.iter().map(|w| w.to_string()).collect::<Vec<String>>());
    assert!(words_are_read_only(&words(&["git", "log"])));
    assert!(!words_are_read_only(&words(&["git"])));
    assert!(!words_are_read_only(&words(&["git", "branch", "--list", "-d"])));
    assert!(!words_are_read_only(&words(&[])));
    assert!(!words_are_read_only(&None));
}

#[test]
fn output_flags_are_seen_in_every_form() {
    let words = |s: &[&str]| s.iter().map(|w| w.to_string()).collect::<Vec<String>>();
    let flags = ["-o", "--output"];
    assert!(has_output_flag(&words(&["sort", "-o", "x"]), &flags));
    assert!(has_output_flag(&words(&["sort", "-ox"]), &flags));
    assert!(has_output_flag(&words(&["sort", "--output=x"]), &flags));
    assert!(has_output_flag(&words(&["sort", "--output"]), &flags));
    assert!(!has_output_flag(&words(&["-o"]), &flags));
    assert!(!has_output_flag(&words(&["git", "--output-indicator-new=+"]), &flags));
}

#[test]
fn shell_words_are_unquoted() {
    // The words of a shell: quotes around the program do not hide it.
    assert!(!shell_command_requires_approval("'ls' -l"));
    assert!(shell_command_requires_approval("'rm' -l"));
    assert!(shell_command_requires_approval("   "));
}

// ─── The agent ───────────────────────────────────────────────────────────────

fn call(id: &str, name: &str, arguments: &str) -> ToolCall {
    ToolCall { id: id.to_string(), name: name.to_string(), arguments: arguments.to_string() }
}

fn asking() -> Agent {
    let mut agent = Agent::new(vec![ApiMessage::User("hi".to_string())]);
    let step = agent.start(false);
    assert!(matches!(step.action, AgentAction::Ask));
    assert!(step.send.is_empty());
    agent
}

fn last_result(agent: &Agent) -> (String, String) {
    match agent.messages.last() {
        Some(ApiMessage::ToolResult { id, content }) => (id.clone(), content.clone()),
        _ => panic!("expected a tool result"),
    }
}

#[test]
fn answer_without_tools_ends_the_turn() {
    let mut agent = asking();
    let step = agent.step(AgentEvent::Replied(vec![]), false);
    assert!(matches!(step.action, AgentAction::Stop));
    assert!(matches!(step.send[..], [StreamMsg::Done]));
    assert_eq!(agent.phase, Phase::Finished);
}

#[test]
fn failed_request_ends_the_turn() {
    let mut agent = asking();
    let step = agent.step(AgentEvent::AskFailed("no net".to_string()), false);
    assert!(matches!(step.action, AgentAction::Stop));
    assert!(matches!(&step.send[..], [StreamMsg::Failed(e)] if e == "no net"));
}

#[test]
fn reading_tool_runs_and_is_answered() {
    let mut agent = asking();
    let reply = vec![call("1", "fs_read", "{\"path\": \"/a\"}")];
    let step = agent.step(AgentEvent::Replied(reply), false);
    assert!(matches!(&step.action, AgentAction::Run(c) if c.id == "1"));
    assert!(matches!(
        &step.send[..],
        [StreamMsg::ToolStart { name, args_preview }] if name == "fs_read" && args_preview == "/a"
    ));
    let step = agent.step(AgentEvent::ToolSucceeded("text".to_string()), false);
    assert!(matches!(step.action, AgentAction::Ask));
    assert!(matches!(&step.send[..], [StreamMsg::ToolDone { result_preview }] if result_preview.is_empty()));
    assert_eq!(last_result(&agent), ("1".to_string(), "text".to_string()));
    assert_eq!(agent.round, 2);
}

fn approving() -> (Agent, Step) {
    let mut agent = asking();
    let reply = vec![
        call("1", "fs_delete", "{\"path\": \"/a\"}"),
        call("2", "fs_list", "{}"),
    ];
    let step = agent.step(AgentEvent::Replied(reply), false);
    (agent, step)
}

#[test]
fn changing_tool_waits_for_consent() {
    let (mut agent, step) = approving();
    assert!(matches!(step.action, AgentAction::AwaitDecision));
    assert!(matches!(
        &step.send[..],
        [StreamMsg::ApprovalRequired { summary }] if summary == "delete: /a"
    ));
    let step = agent.step(AgentEvent::Decided(true), false);
    assert!(matches!(&step.action, AgentAction::Run(c) if c.id == "1"));
    let step = agent.step(AgentEvent::ToolErred("busy".to_string()), false);
    assert!(matches!(
        &step.send[..],
        [StreamMsg::ToolFailed { error }, StreamMsg::ToolStart { name, .. }]
            if error == "busy" && name == "fs_list"
    ));
    assert_eq!(last_result(&agent), ("1".to_string(), "Error: busy".to_string()));
}

#[test]
fn refused_tool_is_answered_and_passed_over() {
    let (mut agent, _) = approving();
    let step = agent.step(AgentEvent::Decided(false), false);
    assert!(matches!(&step.action, AgentAction::Run(c) if c.id == "2"));
    assert!(matches!(
        &step.send[..],
        [StreamMsg::ToolFailed { error }, StreamMsg::ToolStart { .. }]
            if error == "Operation rejected by user."
    ));
    assert_eq!(
        last_result(&agent),
        ("1".to_string(), "Error: user rejected the operation.".to_string())
    );
}

#[test]
fn events_that_do_not_fit_are_ignored() {
    let mut agent = asking();
    let step = agent.step(AgentEvent::Decided(true), false);
    assert!(matches!(step.action, AgentAction::Ignored));
    assert!(step.send.is_empty());
    assert_eq!(agent.phase, Phase::Asking);
}

#[test]
fn leaving_ends_the_turn() {
    let (mut agent, _) = approving();
    let step = agent.step(AgentEvent::Decided(false), true);
    assert!(matches!(step.action, AgentAction::Stop));
    assert!(matches!(step.send.last(), Some(StreamMsg::Done)));
    let mut agent = Agent::new(vec![]);
    let step = agent.start(true);
    assert!(matches!(step.action, AgentAction::Stop));
}

#[test]
fn rounds_are_limited() {
    let mut agent = asking();
    let mut asked = 1;
    loop {
        let step = agent.step(AgentEvent::Replied(vec![call("x", "pwd", "{}")]), false);
        assert!(matches!(step.action, AgentAction::Run(_)));
        let step = agent.step(AgentEvent::ToolSucceeded(String::new()), false);
        match step.action {
            AgentAction::Ask => asked += 1,
            _ => {
                assert!(matches!(step.send.last(), Some(StreamMsg::Done)));
                break;
            }
        }
    }
    assert_eq!(asked, 15);
}

#[test]
fn first_piece_of_text_starts_the_answer() {
    let mut agent = asking();
    let first = agent.on_token("a");
    assert!(matches!(&first[..], [StreamMsg::AssistantStart, StreamMsg::Token(t)] if t == "a"));
    let second = agent.on_token("b");
    assert!(matches!(&second[..], [StreamMsg::Token(t)] if t == "b"));
}
