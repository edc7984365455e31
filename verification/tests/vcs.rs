use dotrs::dotfiles::{
    assert_stage_dir_initialized, auto_message, change_to_string, import_commands, pull_begin,
    update_begin, Error, GitCommand, PullState, UpdateState,
};
use dotrs::git::{
    exec_outcome, parse_change, parse_changes, Change, CommandOutput, Error as GitError, Git,
    DEFAULT_COMMIT_AUTHOR,
};

fn output(success: bool, code: Option<i32>, stdout: &str, stderr: &str) -> CommandOutput {
    CommandOutput {
        success,
        code,
        stdout_bytes: stdout.as_bytes().to_vec(),
        stderr_bytes: stderr.as_bytes().to_vec(),
    }
}

#[test]
fn successful_command_yields_its_stdout() {
    let out = output(true, Some(0), "main\n", "");
    assert_eq!(exec_outcome(&out), Ok("main\n".to_string()));
}

#[test]
fn failed_command_carries_code_and_stderr() {
    let out = output(false, Some(128), "ignored", "fatal: broken\n");
    assert_eq!(
        exec_outcome(&out),
        Err(GitError::NonZeroExit { code: 128, message: "fatal: broken\n".to_string() })
    );
}

#[test]
fn blank_stderr_falls_back_to_stdout() {
    let out = output(false, Some(2), "the real message", "  \n");
    assert_eq!(
        exec_outcome(&out),
        Err(GitError::NonZeroExit { code: 2, message: "the real message".to_string() })
    );
}

#[test]
fn missing_exit_code_reports_minus_one() {
    let out = output(false, None, "", "killed\n");
    assert_eq!(
        exec_outcome(&out),
        Err(GitError::NonZeroExit { code: -1, message: "killed\n".to_string() })
    );
}

#[test]
fn non_utf8_output_is_rejected() {
    let out = CommandOutput {
        success: true,
        code: Some(0),
        stdout_bytes: vec![0xff, 0xfe],
        stderr_bytes: vec![],
    };
    assert_eq!(exec_outcome(&out), Err(GitError::Utf8Transform));
    assert_eq!(out.stdout(), Err(GitError::Utf8Transform));
    assert!(out.stderr().is_ok());
}

#[test]
fn change_codes_parse_to_their_kinds() {
    assert_eq!(parse_change(" M a.txt").unwrap(), (Change::Modified, "a.txt".to_string()));
    assert_eq!(parse_change("A  b.txt").unwrap(), (Change::Added, "b.txt".to_string()));
    assert_eq!(parse_change("D c.txt").unwrap(), (Change::Deleted, "c.txt".to_string()));
}

#[test]
fn unknown_change_code_is_an_error() {
    match parse_change("R renamed.txt") {
        Err(GitError::InvalidChangeType(t)) => assert_eq!(t, "R"),
        other => panic!("expected InvalidChangeType, got {:?}", other),
    }
}

#[test]
fn short_change_line_is_an_error() {
    match parse_change("M") {
        Err(GitError::InvalidChangeLine(l)) => assert_eq!(l, "M"),
        other => panic!("expected InvalidChangeLine, got {:?}", other),
    }
}

#[test]
fn status_text_parses_line_by_line() {
    let cs = parse_changes("M a.txt\nA b.txt\nD c.txt\n").unwrap();
    assert_eq!(
        cs,
        vec![
            (Change::Modified, "a.txt".to_string()),
            (Change::Added, "b.txt".to_string()),
            (Change::Deleted, "c.txt".to_string()),
        ]
    );
    assert!(parse_changes("").unwrap().is_empty());
}

#[test]
fn auto_message_is_verb_path_joined_by_commas() {
    let changes = vec![
        (Change::Modified, "a.txt".to_string()),
        (Change::Added, "b.txt".to_string()),
        (Change::Deleted, "c.txt".to_string()),
    ];
    assert_eq!(auto_message(&changes), "update a.txt, add b.txt, remove c.txt");
    assert_eq!(change_to_string(&changes[0]), "update a.txt");
    assert_eq!(auto_message(&vec![]), "");
}

#[test]
fn uninitialized_stage_is_refused() {
    assert!(assert_stage_dir_initialized(true).is_ok());
    assert_eq!(assert_stage_dir_initialized(false), Err(Error::NotInitialized));
    match update_begin(false, "a".to_string(), None).state {
        UpdateState::Failed(Error::NotInitialized) => {},
        _ => panic!("expected immediate failure"),
    }
    assert_eq!(pull_begin(false), PullState::Failed(Error::NotInitialized));
}

fn ok(s: &str) -> Result<String, GitError> {
    Ok(s.to_string())
}

#[test]
fn update_with_no_changes_ends_after_the_diff_probe() {
    let flow = update_begin(true, DEFAULT_COMMIT_AUTHOR.to_string(), None);
    assert_eq!(flow.next_command(), Some(GitCommand::CurrentBranch));
    let flow = flow.step(ok("main\n"));
    assert_eq!(
        flow.next_command(),
        Some(GitCommand::Pull { branch: "main".to_string() })
    );
    let flow = flow.step(ok(""));
    assert_eq!(flow.next_command(), Some(GitCommand::DiffQuiet));
    let flow = flow.step(ok(""));
    assert_eq!(flow.state, UpdateState::Done { published: false });
    assert_eq!(flow.next_command(), None);
}

fn diff_exit(code: i32) -> Result<String, GitError> {
    Err(GitError::NonZeroExit { code, message: String::new() })
}

#[test]
fn update_with_changes_stages_commits_and_pushes() {
    let flow = update_begin(true, "me <m@e>".to_string(), None)
        .step(ok("main\n"))
        .step(ok(""));
    // diff exit 1: changes exist
    let flow = flow.step(diff_exit(1));
    assert_eq!(flow.next_command(), Some(GitCommand::AddAll));
    let flow = flow.step(ok(""));
    // no message given: the change list builds one
    assert_eq!(flow.next_command(), Some(GitCommand::Status));
    let flow = flow.step(ok("M a.txt\nA b.txt\nD c.txt\n"));
    assert_eq!(
        flow.next_command(),
        Some(GitCommand::Commit {
            message: "update a.txt, add b.txt, remove c.txt".to_string(),
            author: "me <m@e>".to_string(),
        })
    );
    let flow = flow.step(ok(""));
    assert_eq!(
        flow.next_command(),
        Some(GitCommand::Push { branch: "main".to_string() })
    );
    let flow = flow.step(ok(""));
    assert_eq!(flow.state, UpdateState::Done { published: true });
}

#[test]
fn update_keeps_a_caller_supplied_message() {
    let flow = update_begin(true, "me <m@e>".to_string(), Some("fixed".to_string()))
        .step(ok("main\n"))
        .step(ok(""))
        .step(diff_exit(1))
        .step(ok(""));
    assert_eq!(
        flow.next_command(),
        Some(GitCommand::Commit { message: "fixed".to_string(), author: "me <m@e>".to_string() })
    );
}

#[test]
fn unexpected_diff_exit_surfaces_as_error() {
    let flow = update_begin(true, "a".to_string(), None)
        .step(ok("main\n"))
        .step(ok(""))
        .step(diff_exit(2));
    match flow.state {
        UpdateState::Failed(Error::Git(GitError::NonZeroExit { code: 2, .. })) => {},
        other => panic!("expected a failure with exit 2, got {:?}", state_name(&other)),
    }
}

fn state_name(s: &UpdateState) -> &'static str {
    match s {
        UpdateState::NeedBranch => "NeedBranch",
        UpdateState::NeedPull { .. } => "NeedPull",
        UpdateState::NeedDiff { .. } => "NeedDiff",
        UpdateState::NeedAdd { .. } => "NeedAdd",
        UpdateState::NeedStatus { .. } => "NeedStatus",
        UpdateState::NeedCommit { .. } => "NeedCommit",
        UpdateState::NeedPush { .. } => "NeedPush",
        UpdateState::Done { .. } => "Done",
        UpdateState::Failed(_) => "Failed",
    }
}

#[test]
fn pull_runs_branch_then_pull() {
    let st = pull_begin(true);
    assert_eq!(st.next_command(), Some(GitCommand::CurrentBranch));
    let st = st.step(ok("  work \n"));
    assert_eq!(
        st.next_command(),
        Some(GitCommand::Pull { branch: "work".to_string() })
    );
    let st = st.step(ok(""));
    assert_eq!(st, PullState::Done);
    assert_eq!(st.next_command(), None);
}

#[test]
fn pull_failure_is_carried() {
    let st = pull_begin(true).step(Err(GitError::CommandExecFailed("gone".to_string())));
    assert_eq!(
        st,
        PullState::Failed(Error::Git(GitError::CommandExecFailed("gone".to_string())))
    );
}

#[test]
fn git_command_args_are_exact() {
    assert_eq!(GitCommand::CurrentBranch.args(), vec!["branch", "--show-current"]);
    assert_eq!(
        GitCommand::Pull { branch: "main".to_string() }.args(),
        vec!["pull", "origin", "main"]
    );
    assert_eq!(GitCommand::DiffQuiet.args(), vec!["diff", "--quiet", "--exit-code"]);
    assert_eq!(GitCommand::AddAll.args(), vec!["add", "."]);
    assert_eq!(
        GitCommand::Commit { message: "m".to_string(), author: "a".to_string() }.args(),
        vec!["commit", "--message", "m", "--author", "a"]
    );
    assert_eq!(GitCommand::Status.args(), vec!["status", "--porcelain"]);
}

#[test]
fn import_plans_the_four_commands_in_order() {
    let cmds = import_commands(false, "git@host:me/dots.git", "main").unwrap();
    let args: Vec<Vec<String>> = cmds.iter().map(|c| c.args()).collect();
    assert_eq!(
        args,
        vec![
            vec!["init".to_string()],
            vec![
                "remote".to_string(),
                "add".to_string(),
                "origin".to_string(),
                "git@host:me/dots.git".to_string(),
            ],
            vec!["fetch".to_string(), "--all".to_string()],
            vec!["checkout".to_string(), "main".to_string()],
        ]
    );
    assert_eq!(import_commands(true, "u", "m"), Err(Error::AlreadyInitialized));
}

#[test]
fn git_remembers_its_working_directory() {
    let g = Git::new("/stage".to_string());
    assert_eq!(g.dir, "/stage");
}
