use pty_sessions::claude::{
    claude_args, claude_session_args, invoke_outcome, is_blank, version_outcome, ClaudeOptions,
    InvokeOutcome,
};
use pty_sessions::config::{agent_info_from_file, command_info_from_file};
use pty_sessions::listing::{
    extension_of, file_stem_of, make_directory_listing, make_file_entry,
};
use pty_sessions::result::CommandResult;

#[test]
fn test_claude_options_default() {
    let options = ClaudeOptions::default();
    assert!(options.model.is_none());
    assert!(options.session_id.is_none());
    assert!(!options.continue_session);
    assert!(options.cwd.is_none());
}

#[test]
fn test_command_result_ok() {
    let result: CommandResult<String> = CommandResult::ok("test".to_string());
    assert!(result.success);
    assert_eq!(result.data, Some("test".to_string()));
    assert!(result.error.is_none());
}

#[test]
fn test_command_result_err() {
    let result: CommandResult<String> = CommandResult::err("error message".to_string());
    assert!(!result.success);
    assert!(result.data.is_none());
    assert_eq!(result.error, Some("error message".to_string()));
}

#[test]
fn claude_args_for_plain_prompt() {
    let options = ClaudeOptions::default();
    let args = claude_args("hello", &options, false);
    assert_eq!(args, vec!["-p", "hello", "--output-format", "json"]);
    let streaming = claude_args("hello", &options, true);
    assert_eq!(streaming, vec!["-p", "hello", "--output-format", "stream-json"]);
}

#[test]
fn claude_args_with_model_and_session() {
    let options = ClaudeOptions {
        model: Some("sonnet".to_string()),
        session_id: Some("s-1".to_string()),
        continue_session: false,
        cwd: None,
    };
    let args = claude_args("q", &options, false);
    assert_eq!(
        args,
        vec!["-p", "q", "--output-format", "json", "--model", "sonnet", "--resume", "s-1"]
    );
    let continued = ClaudeOptions { continue_session: true, ..options };
    let args = claude_args("q", &continued, false);
    assert_eq!(
        args,
        vec!["-p", "q", "--output-format", "json", "--model", "sonnet", "--continue"]
    );
}

#[test]
fn claude_session_args_carry_resume_token() {
    assert!(claude_session_args(&None).is_empty());
    let args = claude_session_args(&Some("tok".to_string()));
    assert_eq!(args, vec!["--resume", "tok"]);
}

#[test]
fn version_outcome_trims_and_reports() {
    let ok = version_outcome(&InvokeOutcome::Completed {
        status_ok: true,
        stdout: "  1.2.3\n".to_string(),
        stderr: String::new(),
    });
    assert!(ok.success);
    assert_eq!(ok.data, Some("1.2.3".to_string()));

    let failed = version_outcome(&InvokeOutcome::Completed {
        status_ok: false,
        stdout: String::new(),
        stderr: String::new(),
    });
    assert_eq!(
        failed.error,
        Some("CLI not found or returned an error".to_string())
    );

    let launch = version_outcome(&InvokeOutcome::LaunchFailed("not found".to_string()));
    assert_eq!(
        launch.error,
        Some("Failed to execute CLI: not found".to_string())
    );
}

#[test]
fn invoke_outcome_passes_streams_through() {
    let ok = invoke_outcome(&InvokeOutcome::Completed {
        status_ok: true,
        stdout: "{\"answer\":42}".to_string(),
        stderr: String::new(),
    });
    assert_eq!(ok.data, Some("{\"answer\":42}".to_string()));

    let failed = invoke_outcome(&InvokeOutcome::Completed {
        status_ok: false,
        stdout: String::new(),
        stderr: "bad prompt".to_string(),
    });
    assert_eq!(failed.error, Some("bad prompt".to_string()));

    let launch = invoke_outcome(&InvokeOutcome::LaunchFailed("oops".to_string()));
    assert_eq!(launch.error, Some("Failed to invoke CLI: oops".to_string()));
}

#[test]
fn blank_lines_are_skipped_in_streams() {
    assert!(is_blank(""));
    assert!(is_blank("   \t"));
    assert!(!is_blank(" {\"a\":1} "));
}

#[test]
fn command_and_agent_info_from_markdown() {
    let content = "---\ndescription: \"Greets\"\n---\nSay hi";
    let c = command_info_from_file("greet".to_string(), content);
    assert_eq!(c.name, "greet");
    assert_eq!(c.description, Some("Greets".to_string()));
    assert_eq!(c.content, "Say hi");
    assert!(c.enabled);

    let a = agent_info_from_file("helper".to_string(), content);
    assert_eq!(a.name, "helper");
    assert_eq!(a.description, Some("Greets".to_string()));
    assert_eq!(a.system_prompt, "Say hi");
    assert!(a.tools.is_empty());
    assert!(a.enabled);
}

#[test]
fn extensions_and_stems_follow_path_rules() {
    assert_eq!(extension_of("a.rs"), Some("rs".to_string()));
    assert_eq!(extension_of("archive.tar.gz"), Some("gz".to_string()));
    assert_eq!(extension_of(".gitignore"), None);
    assert_eq!(extension_of("plain"), None);
    assert_eq!(file_stem_of("a.rs"), "a");
    assert_eq!(file_stem_of("archive.tar.gz"), "archive.tar");
    assert_eq!(file_stem_of(".gitignore"), ".gitignore");
    assert_eq!(file_stem_of("plain"), "plain");
}

#[test]
fn file_entries_carry_derived_metadata() {
    let f = make_file_entry("notes.md".to_string(), "/d/notes.md".to_string(), false, true, 12);
    assert!(!f.is_hidden);
    assert_eq!(f.size, Some(12));
    assert_eq!(f.extension, Some("md".to_string()));

    let d = make_file_entry(".config".to_string(), "/d/.config".to_string(), true, false, 0);
    assert!(d.is_hidden);
    assert_eq!(d.size, None);
    assert_eq!(d.extension, None);
}

#[test]
fn listing_sorts_directories_first_then_case_folded_names() {
    let entries = vec![
        make_file_entry("B.txt".to_string(), "/d/B.txt".to_string(), false, true, 1),
        make_file_entry("a.txt".to_string(), "/d/a.txt".to_string(), false, true, 1),
        make_file_entry("zdir".to_string(), "/d/zdir".to_string(), true, false, 0),
        make_file_entry("Adir".to_string(), "/d/Adir".to_string(), true, false, 0),
    ];
    let listing = make_directory_listing("/d".to_string(), entries, Some("/".to_string()));
    let names: Vec<&str> = listing.entries.iter().map(|e| e.name.as_str()).collect();
    assert_eq!(names, vec!["Adir", "zdir", "a.txt", "B.txt"]);
    assert_eq!(listing.path, "/d");
    assert_eq!(listing.parent, Some("/".to_string()));
}
