use phi_tools::shell::{format_result, LocalShellTool, ShellOutcome};

#[test]
fn test_format_result_success() {
    let result = format_result("echo hello", "hello", "", Some(0), false);
    assert_eq!(result, "hello");
}

#[test]
fn test_format_result_no_output() {
    let result = format_result("true", "", "", Some(0), false);
    assert!(result.contains("no output"));
}

#[test]
fn test_format_result_failure() {
    let result = format_result("false", "", "error", Some(1), false);
    assert!(result.contains("Command Failed"));
    assert!(result.contains("exit code: 1"));
}

#[test]
fn test_format_result_timeout() {
    let result = format_result("sleep 100", "", "", None, true);
    assert!(result.contains("Command Timed Out"));
}

#[test]
fn test_name() {
    let tool = LocalShellTool::new(30000);
    assert_eq!(tool.name(), "execute_command");
}

#[test]
fn format_result_exact_texts() {
    assert_eq!(
        format_result("true", " \n", "\t", Some(0), false),
        "Command executed successfully with no output."
    );
    assert_eq!(format_result("ls", "", " warn \n", Some(0), false), "stderr:\nwarn");
    assert_eq!(
        format_result("ls", "a\n", "b\n", Some(0), false),
        "stdout:\na\n\nstderr:\nb"
    );
    assert_eq!(
        format_result("false", "", "error", Some(1), false),
        "[Command Failed (exit code: 1)]\ncommand: false\nstdout:\n(empty)\nstderr:\nerror"
    );
    assert_eq!(
        format_result("x", "out", "", Some(-2), false),
        "[Command Failed (exit code: -2)]\ncommand: x\nstdout:\nout\nstderr:\n(empty)"
    );
    assert_eq!(
        format_result("kill me", "", "", None, false),
        "[Command Terminated]\ncommand: kill me\nstdout:\n(empty)\nstderr:\n(empty)"
    );
    assert_eq!(
        format_result("sleep 100", " partial ", "", Some(0), true),
        "[Command Timed Out]\ncommand: sleep 100\nstdout:\npartial\nstderr:\n(empty)"
    );
}

#[test]
fn command_argument_is_trimmed_or_missing() {
    assert_eq!(LocalShellTool::command_from("  ls -la \n"), Some("ls -la".to_string()));
    assert_eq!(LocalShellTool::command_from(" \t "), None);
    assert_eq!(LocalShellTool::missing_command_reply(), "[Error]: No command provided.");
}

#[test]
fn replies_for_each_outcome() {
    let tool = LocalShellTool::new(1500);
    assert_eq!(tool.timeout_ms(), 1500);
    assert_eq!(
        tool.reply("sleep 9", &ShellOutcome::TimedOut),
        "[Command Timed Out after 1500ms]\ncommand: sleep 9"
    );
    assert_eq!(
        tool.reply("nope", &ShellOutcome::SpawnFailed("No such file".to_string())),
        "[Error]: Command execution failed: No such file"
    );
    assert_eq!(
        tool.reply("nope", &ShellOutcome::WaitFailed("broken pipe".to_string())),
        "[Error]: Command execution failed: broken pipe"
    );
    assert_eq!(
        tool.reply(
            "echo hi",
            &ShellOutcome::Exited {
                stdout: "hi\n".to_string(),
                stderr: String::new(),
                exit_code: Some(0)
            }
        ),
        "hi"
    );
}
