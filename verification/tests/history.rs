use shelltape::models::Command;
use shelltape::models::Session;
use shelltape::recorder::Recorder;
use shelltape::storage::Storage;
use shelltape::storage::StorageError;
use shelltape::storage::average_duration;
use shelltape::storage::cleanup_old_commands;
use shelltape::storage::get_stats;
use shelltape::storage::get_recent_commands;
use shelltape::storage::longest_command_index;
use shelltape::storage::search_commands;
use shelltape::storage::update_session;

fn sample_command(id: &str, command: &str, output: &str, started_at: i64, duration_ms: u64) -> Command {
    Command {
        id: id.to_string(),
        command: command.to_string(),
        output: output.to_string(),
        exit_code: 0,
        cwd: "/tmp".to_string(),
        started_at,
        duration_ms,
        session_id: "session-1".to_string(),
        shell: "bash".to_string(),
        hostname: "localhost".to_string(),
        username: "testuser".to_string(),
    }
}

#[test]
fn test_record_command() {
    let storage = Storage::with_dir("/tmp/shelltape-test".to_string());
    let recorder = Recorder::with_storage(storage);

    let start = chrono::Utc::now().timestamp_nanos_opt().unwrap();
    let end = start + 10_000_000; // 10ms later

    let cmd = recorder.record(
        "echo test".to_string(),
        "test\n".to_string(),
        0,
        start,
        end,
        "/tmp".to_string(),
        "session-1".to_string(),
        "bash".to_string(),
        "testuser".to_string(),
    );

    assert_eq!(cmd.command, "echo test");
    assert_eq!(cmd.exit_code, 0);
    assert_eq!(cmd.output, "test\n");
    assert_eq!(cmd.started_at, start);
    assert_eq!(cmd.duration_ms, 10);
    assert_eq!(cmd.id.len(), 36);
}

#[test]
fn test_truncate_output() {
    let storage = Storage::with_dir("/tmp/shelltape-test".to_string());
    let recorder = Recorder::with_storage(storage).with_max_output_size(100);

    let large_output = "a".repeat(200);
    let start = chrono::Utc::now().timestamp_nanos_opt().unwrap();
    let end = start + 10_000_000;

    let cmd = recorder.record(
        "echo test".to_string(),
        large_output,
        0,
        start,
        end,
        "/tmp".to_string(),
        "session-1".to_string(),
        "bash".to_string(),
        "testuser".to_string(),
    );

    assert!(cmd.output.contains("[Output truncated"));
}

#[test]
fn test_truncate_output_exact() {
    let storage = Storage::with_dir("/tmp/shelltape-test".to_string());
    let recorder = Recorder::with_storage(storage).with_max_output_size(3);
    let truncated = recorder.truncate_output("abcdef".to_string());
    assert_eq!(truncated, "abc...\n[Output truncated: 6 bytes total]");
    let recorder2 = Recorder::with_storage(Storage::with_dir("/tmp/x".to_string()));
    assert_eq!(recorder2.truncate_output("short".to_string()), "short");
}

#[test]
fn test_truncate_output_char_boundaries() {
    // a two-byte character straddling the cap: the cut backs off to the
    // previous character boundary, and the note reports the byte length
    let r2 = Recorder::with_storage(Storage::with_dir("/tmp/x".to_string())).with_max_output_size(2);
    assert_eq!(
        r2.truncate_output("\u{e9}a".to_string()),
        "\u{e9}...\n[Output truncated: 3 bytes total]"
    );
    let r1 = Recorder::with_storage(Storage::with_dir("/tmp/x".to_string())).with_max_output_size(1);
    assert_eq!(
        r1.truncate_output("\u{e9}a".to_string()),
        "...\n[Output truncated: 3 bytes total]"
    );
}

#[test]
fn test_search() {
    let cmd1 = sample_command("test-1", "echo hello", "hello\n", 10, 10);
    let cmd2 = Command { duration_ms: 5, ..sample_command("test-2", "ls -la", "total 0\n", 20, 5) };

    let results = search_commands(vec![cmd1, cmd2], "echo", 10);
    assert_eq!(results.len(), 1);
    assert_eq!(results[0].command, "echo hello");
}

#[test]
fn test_search_is_case_insensitive() {
    let cmd = sample_command("test-1", "Echo Hello", "HELLO\n", 10, 10);
    let results = search_commands(vec![cmd], "echo", 10);
    assert_eq!(results.len(), 1);
    assert_eq!(results[0].command, "Echo Hello");
}

#[test]
fn test_search_limit_keeps_most_recent() {
    let a = sample_command("a", "echo one", "", 10, 1);
    let b = sample_command("b", "echo two", "", 30, 1);
    let c = sample_command("c", "echo three", "", 20, 1);
    let results = search_commands(vec![a, b, c], "echo", 2);
    assert_eq!(results.len(), 2);
    assert_eq!(results[0].command, "echo two");
    assert_eq!(results[1].command, "echo three");
}

#[test]
fn test_recent_commands_sorted() {
    let a = sample_command("a", "first", "", 10, 1);
    let b = sample_command("b", "third", "", 30, 1);
    let c = sample_command("c", "second", "", 20, 1);
    let results = get_recent_commands(vec![a, b, c], 10);
    assert_eq!(results.len(), 3);
    assert_eq!(results[0].command, "third");
    assert_eq!(results[1].command, "second");
    assert_eq!(results[2].command, "first");
}

#[test]
fn test_cleanup_drops_old_commands() {
    let old = sample_command("a", "old", "", 10, 1);
    let new = sample_command("b", "new", "", 100, 1);
    let (kept, removed) = cleanup_old_commands(vec![old, new], 50);
    assert_eq!(removed, 1);
    assert_eq!(kept.len(), 1);
    assert_eq!(kept[0].command, "new");
}

#[test]
fn test_update_session() {
    let s1 = Session {
        id: "s-1".to_string(),
        started_at: 10,
        ended_at: None,
        hostname: "localhost".to_string(),
        shell: "bash".to_string(),
        command_count: 2,
    };
    let s2 = Session {
        id: "s-2".to_string(),
        started_at: 20,
        ended_at: None,
        hostname: "localhost".to_string(),
        shell: "bash".to_string(),
        command_count: 0,
    };
    let updated = match update_session(vec![s1, s2], "s-2", 99) {
        Ok(v) => v,
        Err(_) => panic!("expected the update to succeed"),
    };
    assert_eq!(updated[0].ended_at, None);
    assert_eq!(updated[1].ended_at, Some(99));
}

#[test]
fn test_update_session_not_found() {
    match update_session(vec![], "missing", 99) {
        Err(e) => assert_eq!(e, StorageError::SessionNotFound),
        Ok(_) => panic!("expected the lookup to fail"),
    }
}

#[test]
fn test_get_stats() {
    let a = sample_command("a", "ls", "", 10, 4);
    let b = sample_command("b", "ls", "", 20, 6);
    let c = Command { exit_code: 1, ..sample_command("c", "make", "", 30, 20) };
    let commands = vec![a, b, c];
    let stats = get_stats(&commands, 2);
    assert_eq!(stats.total_commands, 3);
    assert_eq!(stats.total_sessions, 2);
    assert_eq!(stats.successful_commands, 2);
    assert_eq!(stats.most_used_commands.len(), 2);
    assert_eq!(stats.most_used_commands[0], ("ls".to_string(), 2));
    assert_eq!(stats.most_used_commands[1], ("make".to_string(), 1));
}

#[test]
fn test_average_and_longest_duration() {
    let a = sample_command("a", "ls", "", 10, 4);
    let b = sample_command("b", "du", "", 20, 6);
    let c = sample_command("c", "make", "", 30, 20);
    let commands = vec![a, b, c];
    assert_eq!(average_duration(&commands), 10);
    assert_eq!(longest_command_index(&commands), Some(2));
    let none: Vec<Command> = Vec::new();
    assert_eq!(longest_command_index(&none), None);
}

#[test]
fn test_storage_paths() {
    let storage = Storage::with_dir("/home/u/.shelltape".to_string());
    assert_eq!(storage.data_dir().as_str(), "/home/u/.shelltape");
    assert_eq!(storage.commands_file().as_str(), "/home/u/.shelltape/commands.jsonl");
    assert_eq!(storage.sessions_file().as_str(), "/home/u/.shelltape/sessions.jsonl");
}

#[test]
fn test_storage_error_messages() {
    assert_eq!(
        StorageError::NoHomeDirectory.message(),
        "Could not determine home directory"
    );
    assert_eq!(StorageError::SessionNotFound.message(), "Session not found");
}

#[test]
fn test_render_command_markdown() {
    let cmd = sample_command("a", "ls", "hi\n", 10, 7);
    let md = shelltape::export::render_command(&cmd, "2024-01-02 03:04:05", true);
    assert_eq!(
        md,
        "## 2024-01-02 03:04:05\n\n**Directory:** `/tmp`\n\n**Duration:** 7ms\n\n\
         **Exit Code:** 0 (✓ Success)\n\n**Shell:** bash\n\n**Hostname:** localhost\n\n\
         **User:** testuser\n\n**Command:**\n\n```bash\nls\n```\n\n\
         **Output:**\n\n```\nhi\n\n```\n\n---\n\n"
    );

    let failed = Command { exit_code: -2, ..sample_command("b", "make", "", 20, 3) };
    let md2 = shelltape::export::render_command(&failed, "2024-01-02 03:04:06", false);
    assert_eq!(
        md2,
        "## 2024-01-02 03:04:06\n\n**Directory:** `/tmp`\n\n**Duration:** 3ms\n\n\
         **Exit Code:** -2 (✗ Failed)\n\n**Command:**\n\n```bash\nmake\n```\n\n---\n\n"
    );
}
