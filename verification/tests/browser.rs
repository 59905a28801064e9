use shelltape::cli::Shell;
use shelltape::cli::strip_hook_lines;
use shelltape::models::Command;
use shelltape::storage::Storage;
use shelltape::text::ellipsize_end;
use shelltape::text::ellipsize_start;
use shelltape::text::usize_to_dec;
use shelltape::tui_app::App;
use shelltape::tui_app::ViewMode;
use shelltape::tui_events::Key;
use shelltape::tui_events::KeyPress;
use shelltape::tui_events::UiAction;
use shelltape::tui_events::handle_key_event;

fn sample_command(id: &str, command: &str, started_at: i64) -> Command {
    Command {
        id: id.to_string(),
        command: command.to_string(),
        output: String::new(),
        exit_code: 0,
        cwd: "/tmp".to_string(),
        started_at,
        duration_ms: 1,
        session_id: "session-1".to_string(),
        shell: "bash".to_string(),
        hostname: "localhost".to_string(),
        username: "testuser".to_string(),
    }
}

fn sample_app() -> App {
    let storage = Storage::with_dir("/tmp/shelltape-test".to_string());
    let commands = vec![
        sample_command("a", "echo one", 10),
        sample_command("b", "ls -la", 30),
        sample_command("c", "echo two", 20),
    ];
    App::new(storage, commands)
}

fn plain(code: Key) -> KeyPress {
    KeyPress { code, ctrl: false }
}

#[test]
fn test_navigation_keys() {
    let mut app = sample_app();
    assert_eq!(app.selected, 0);
    handle_key_event(&mut app, plain(Key::Char('j')));
    assert_eq!(app.selected, 1);
    handle_key_event(&mut app, plain(Key::Down));
    assert_eq!(app.selected, 2);
    handle_key_event(&mut app, plain(Key::Char('j')));
    assert_eq!(app.selected, 2);
    handle_key_event(&mut app, plain(Key::Char('k')));
    assert_eq!(app.selected, 1);
    handle_key_event(&mut app, plain(Key::Char('g')));
    assert_eq!(app.selected, 0);
    handle_key_event(&mut app, plain(Key::Char('G')));
    assert_eq!(app.selected, 2);
}

#[test]
fn test_paging_needs_control() {
    let mut app = sample_app();
    handle_key_event(&mut app, plain(Key::PageDown));
    assert_eq!(app.selected, 0);
    handle_key_event(&mut app, KeyPress { code: Key::PageDown, ctrl: true });
    assert_eq!(app.selected, 2);
    handle_key_event(&mut app, KeyPress { code: Key::Char('u'), ctrl: true });
    assert_eq!(app.selected, 0);
}

#[test]
fn test_search_flow() {
    let mut app = sample_app();
    handle_key_event(&mut app, plain(Key::Char('/')));
    assert!(app.search_mode);
    handle_key_event(&mut app, plain(Key::Char('e')));
    handle_key_event(&mut app, plain(Key::Char('c')));
    handle_key_event(&mut app, plain(Key::Char('x')));
    handle_key_event(&mut app, plain(Key::Backspace));
    handle_key_event(&mut app, plain(Key::Char('h')));
    handle_key_event(&mut app, plain(Key::Char('o')));
    assert_eq!(app.search_query, "echo");
    handle_key_event(&mut app, plain(Key::Enter));
    assert!(!app.search_mode);
    assert_eq!(app.filtered_commands.len(), 2);
    let first = app.get_selected_command().unwrap();
    assert_eq!(first.command, "echo two");
    handle_key_event(&mut app, plain(Key::Esc));
    assert_eq!(app.filtered_commands.len(), 3);
    assert_eq!(app.search_query, "");
}

#[test]
fn test_marks_and_export_action() {
    let mut app = sample_app();
    let r = handle_key_event(&mut app, plain(Key::Char('e')));
    assert_eq!(r, UiAction::Nothing);
    handle_key_event(&mut app, plain(Key::Char(' ')));
    assert!(app.marked.contains(&0));
    assert_eq!(app.selected, 1);
    let r = handle_key_event(&mut app, plain(Key::Char('e')));
    assert_eq!(r, UiAction::ExportMarked);
    assert_eq!(app.marked_indices_in_order(), vec![0]);
    handle_key_event(&mut app, plain(Key::Char('a')));
    assert_eq!(app.marked_indices_in_order(), vec![0, 1, 2]);
    handle_key_event(&mut app, plain(Key::Char('c')));
    assert!(app.marked.is_empty());
}

#[test]
fn test_detail_view_and_quit() {
    let mut app = sample_app();
    handle_key_event(&mut app, plain(Key::Enter));
    assert_eq!(app.view_mode, ViewMode::Detail);
    handle_key_event(&mut app, plain(Key::Esc));
    assert_eq!(app.view_mode, ViewMode::List);
    assert!(!app.should_quit);
    handle_key_event(&mut app, plain(Key::Char('q')));
    assert!(app.should_quit);
}

#[test]
fn test_classify_shell() {
    assert_eq!(Shell::classify("/bin/bash"), Some(Shell::Bash));
    assert_eq!(Shell::classify("/usr/bin/zsh"), Some(Shell::Zsh));
    assert_eq!(Shell::classify("/usr/local/bin/fish"), Some(Shell::Fish));
    assert_eq!(Shell::classify("/bin/dash"), None);
}

#[test]
fn test_shell_files_and_hook_line() {
    assert_eq!(Shell::Bash.rc_file(), ".bashrc");
    assert_eq!(Shell::Zsh.rc_file(), ".zshrc");
    assert_eq!(Shell::Fish.hook_file(), "fish.fish");
    assert_eq!(Shell::Bash.hook_line(), "source ~/.shelltape/bash.sh");
    assert_eq!(Shell::Powershell.hook_line(), ". ~\\.shelltape\\powershell.ps1");
}

#[test]
fn test_hooks_installed() {
    assert!(Shell::Bash.hooks_installed("# stuff\nsource ~/.shelltape/bash.sh\n"));
    assert!(Shell::Zsh.hooks_installed("alias st=shelltape"));
    assert!(!Shell::Bash.hooks_installed("export PATH=$PATH"));
}

#[test]
fn test_strip_hook_lines_comment_and_hook() {
    let content = "export A=1\n# Shelltape - Terminal command history recorder\nsource ~/.shelltape/bash.sh\n\nexport B=2";
    let cleaned = strip_hook_lines(content, "source ~/.shelltape/bash.sh");
    assert_eq!(cleaned, "export A=1\nexport B=2");
}

#[test]
fn test_strip_hook_lines_bare_hook() {
    let content = "a\nsource ~/.shelltape/zsh.sh\nb";
    let cleaned = strip_hook_lines(content, "source ~/.shelltape/zsh.sh");
    assert_eq!(cleaned, "a\nb");
}

#[test]
fn test_strip_hook_lines_keeps_unrelated() {
    let content = "# Shelltape note\nnot the hook\nplain";
    let cleaned = strip_hook_lines(content, "source ~/.shelltape/bash.sh");
    assert_eq!(cleaned, "# Shelltape note\nnot the hook\nplain");
}

#[test]
fn test_ellipsize() {
    assert_eq!(ellipsize_end("hello world", 8, 5), "hello...");
    assert_eq!(ellipsize_end("short", 8, 5), "short");
    assert_eq!(ellipsize_start("/very/long/path", 8, 5), ".../path");
    assert_eq!(ellipsize_start("/tmp", 8, 5), "/tmp");
}

#[test]
fn test_decimal_rendering() {
    assert_eq!(usize_to_dec(0), "0");
    assert_eq!(usize_to_dec(7), "7");
    assert_eq!(usize_to_dec(105), "105");
    assert_eq!(usize_to_dec(98765), "98765");
}
