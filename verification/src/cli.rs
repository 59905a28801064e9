//! The command-line surface: the subcommands the tool accepts and the shells
//! it can hook into. The argument-parsing layer mirrors these types; here they
//! are plain data, and the per-shell facts (rc file, hook file, hook line),
//! shell detection, and the rc-file editing rules are verified.

use crate::text::contains_str;
use crate::text::is_substring;
use vstd::prelude::*;

verus! {

/// The shells the tool can install its recording hooks into.
#[derive(Clone, Copy, Debug, PartialEq, Eq, Structural)]
pub enum Shell {
    /// Bash shell.
    Bash,
    /// Zsh shell.
    Zsh,
    /// Fish shell.
    Fish,
    /// PowerShell.
    Powershell,
}

impl Shell {
    /// The path of this shell's rc file, relative to the home directory.
    pub open spec fn rc_file_spec(self) -> Seq<char> {
        match self {
            Shell::Bash => ".bashrc"@,
            Shell::Zsh => ".zshrc"@,
            Shell::Fish => ".config/fish/config.fish"@,
            Shell::Powershell => "Documents/PowerShell/Microsoft.PowerShell_profile.ps1"@,
        }
    }

    /// The name of the hook file the installer places under the data directory.
    pub open spec fn hook_file_spec(self) -> Seq<char> {
        match self {
            Shell::Bash => "bash.sh"@,
            Shell::Zsh => "zsh.sh"@,
            Shell::Fish => "fish.fish"@,
            Shell::Powershell => "powershell.ps1"@,
        }
    }

    /// The line the installer adds to the rc file to source the hook.
    pub open spec fn hook_line_spec(self) -> Seq<char> {
        match self {
            Shell::Bash => "source ~/.shelltape/"@ + self.hook_file_spec(),
            Shell::Zsh => "source ~/.shelltape/"@ + self.hook_file_spec(),
            Shell::Fish => "source ~/.shelltape/"@ + self.hook_file_spec(),
            Shell::Powershell => ". ~\\.shelltape\\"@ + self.hook_file_spec(),
        }
    }

    /// Get the rc file path for this shell, relative to the home directory.
    pub fn rc_file(&self) -> (r: &'static str)
        ensures
            r@ == self.rc_file_spec(),
    {
        match self {
            Shell::Bash => ".bashrc",
            Shell::Zsh => ".zshrc",
            Shell::Fish => ".config/fish/config.fish",
            Shell::Powershell => "Documents/PowerShell/Microsoft.PowerShell_profile.ps1",
        }
    }

    /// Get the hook file name for this shell.
    pub fn hook_file(&self) -> (r: &'static str)
        ensures
            r@ == self.hook_file_spec(),
    {
        match self {
            Shell::Bash => "bash.sh",
            Shell::Zsh => "zsh.sh",
            Shell::Fish => "fish.fish",
            Shell::Powershell => "powershell.ps1",
        }
    }

    /// Build the line that sources this shell's hook from the rc file.
    pub fn hook_line(&self) -> (r: String)
        ensures
            r@ == self.hook_line_spec(),
    {
        match self {
            Shell::Bash => String::from_str("source ~/.shelltape/").concat("bash.sh"),
            Shell::Zsh => String::from_str("source ~/.shelltape/").concat("zsh.sh"),
            Shell::Fish => String::from_str("source ~/.shelltape/").concat("fish.fish"),
            Shell::Powershell => String::from_str(". ~\\.shelltape\\").concat("powershell.ps1"),
        }
    }

    /// The shell a login-shell path names: the first of bash, zsh, fish whose
    /// name occurs in the path, if any.
    pub open spec fn classify_spec(shell_path: Seq<char>) -> Option<Shell> {
        if is_substring("bash"@, shell_path) {
            Some(Shell::Bash)
        } else if is_substring("zsh"@, shell_path) {
            Some(Shell::Zsh)
        } else if is_substring("fish"@, shell_path) {
            Some(Shell::Fish)
        } else {
            None
        }
    }

    /// Name the shell behind a login-shell path (the value of the shell
    /// environment variable, read by the invocation layer).
    pub fn classify(shell_path: &str) -> (r: Option<Shell>)
        ensures
            r == Self::classify_spec(shell_path@),
    {
        if contains_str(shell_path, "bash") {
            Some(Shell::Bash)
        } else if contains_str(shell_path, "zsh") {
            Some(Shell::Zsh)
        } else if contains_str(shell_path, "fish") {
            Some(Shell::Fish)
        } else {
            None
        }
    }

    /// Whether an rc file's content shows this shell's hook: either the
    /// tool's name or the shell's hook file name occurs in it.
    pub fn hooks_installed(&self, content: &str) -> (r: bool)
        ensures
            r == (is_substring("shelltape"@, content@) || is_substring(
                self.hook_file_spec(),
                content@,
            )),
    {
        contains_str(content, "shelltape") || contains_str(content, self.hook_file())
    }
}

/// The tool's top-level command line: exactly one subcommand.
pub struct Cli {
    /// The subcommand to run.
    pub command: Commands,
}

/// The subcommands the tool accepts. The invocation layer parses the raw
/// arguments into this shape and acts on it.
#[allow(inconsistent_fields)]
pub enum Commands {
    /// Install shell hooks for automatic command recording.
    Install {
        /// Shell to install hooks for (auto-detected when absent).
        shell: Option<Shell>,
    },
    /// Uninstall shell hooks.
    Uninstall {
        /// Shell to uninstall hooks from (auto-detected when absent).
        shell: Option<Shell>,
    },
    /// Execute a command with output capture (wrapper mode).
    Exec {
        /// The command to execute, as the words given on the command line.
        command: Vec<String>,
        /// Session identifier for this shell session.
        session_id: String,
    },
    /// Record a command (called by shell hooks).
    Record {
        /// The command that was executed.
        command: String,
        /// Exit code from the command.
        exit_code: i32,
        /// Start time in nanoseconds since the Unix epoch.
        start_time: i64,
        /// End time in nanoseconds since the Unix epoch.
        end_time: i64,
        /// Working directory the command ran in.
        cwd: String,
        /// Session identifier for this shell session.
        session_id: String,
        /// Command output, possibly empty.
        output: String,
    },
    /// Browse commands interactively.
    Browse,
    /// List recent commands.
    List {
        /// Maximum number of commands to display.
        limit: usize,
        /// Show only commands matching this query.
        filter: Option<String>,
    },
    /// Export commands to markdown.
    Export {
        /// Output file path.
        output: String,
        /// Keep only commands of this session.
        session: Option<String>,
        /// Keep only commands matching this query.
        filter: Option<String>,
    },
    /// Show statistics about the command history.
    Stats,
    /// Clean old commands from the history.
    Clean {
        /// Remove commands older than this many days.
        older_than_days: u64,
        /// Skip the confirmation prompt.
        yes: bool,
    },
    /// Show status and storage information.
    Status,
}

/// Length of the leading run of characters before a line break.
pub open spec fn line_len(s: Seq<char>) -> nat
    decreases s.len(),
{
    if s.len() == 0 || s[0] == '\n' {
        0
    } else {
        1 + line_len(s.drop_first())
    }
}

proof fn lemma_line_len_le(s: Seq<char>)
    ensures
        line_len(s) <= s.len(),
    decreases s.len(),
{
    if s.len() != 0 && s[0] != '\n' {
        lemma_line_len_le(s.drop_first());
    }
}

proof fn lemma_line_len_exact(s: Seq<char>, k: int)
    requires
        0 <= k <= s.len(),
        forall|j: int| 0 <= j < k ==> s[j] != '\n',
        k < s.len() ==> s[k] == '\n',
    ensures
        line_len(s) == k,
    decreases k,
{
    if k > 0 {
        lemma_line_len_exact(s.drop_first(), k - 1);
    }
}

/// A line with one trailing carriage return removed.
pub open spec fn strip_cr(l: Seq<char>) -> Seq<char> {
    if l.len() > 0 && l.last() == '\r' {
        l.drop_last()
    } else {
        l
    }
}

/// Text broken into lines: split at each line feed, the line feed dropped,
/// one trailing carriage return stripped per line, and no empty final line
/// for text that ends in a line feed.
pub open spec fn split_lines(s: Seq<char>) -> Seq<Seq<char>>
    decreases s.len(),
    via split_lines_decreases
{
    if s.len() == 0 {
        Seq::empty()
    } else {
        let k = line_len(s) as int;
        if k == s.len() {
            seq![strip_cr(s)]
        } else {
            seq![strip_cr(s.take(k))] + split_lines(s.skip(k + 1))
        }
    }
}

#[via_fn]
proof fn split_lines_decreases(s: Seq<char>) {
    lemma_line_len_le(s);
}

/// Every character of the line is whitespace (so the line reads as blank).
pub open spec fn all_space(l: Seq<char>) -> bool {
    forall|j: int| 0 <= j < l.len() ==> crate::pty_capture::is_cmd_space(#[trigger] l[j])
}

/// Drop leading blank lines.
pub open spec fn drop_blank_prefix(lines: Seq<Seq<char>>) -> Seq<Seq<char>>
    decreases lines.len(),
{
    if lines.len() > 0 && all_space(lines[0]) {
        drop_blank_prefix(lines.drop_first())
    } else {
        lines
    }
}

proof fn lemma_drop_blank_prefix_le(lines: Seq<Seq<char>>)
    ensures
        drop_blank_prefix(lines).len() <= lines.len(),
    decreases lines.len(),
{
    if lines.len() > 0 && all_space(lines[0]) {
        lemma_drop_blank_prefix_le(lines.drop_first());
    }
}

/// The lines kept when the hook is removed: a comment line introducing the
/// hook followed by the hook line goes, with the blank lines after it; a
/// bare hook line goes; everything else stays, in order.
pub open spec fn remove_hook_lines(lines: Seq<Seq<char>>, hook: Seq<char>) -> Seq<Seq<char>>
    decreases lines.len(),
    via remove_hook_lines_decreases
{
    if lines.len() == 0 {
        Seq::empty()
    } else if is_substring("# Shelltape"@, lines[0]) && lines.len() >= 2 && is_substring(
        hook,
        lines[1],
    ) {
        remove_hook_lines(drop_blank_prefix(lines.skip(2)), hook)
    } else if is_substring(hook, lines[0]) {
        remove_hook_lines(lines.drop_first(), hook)
    } else {
        seq![lines[0]] + remove_hook_lines(lines.drop_first(), hook)
    }
}

#[via_fn]
proof fn remove_hook_lines_decreases(lines: Seq<Seq<char>>, hook: Seq<char>) {
    if lines.len() >= 2 {
        lemma_drop_blank_prefix_le(lines.skip(2));
    }
}

/// Lines joined back into text with a line feed between each pair.
pub open spec fn join_lines(lines: Seq<Seq<char>>) -> Seq<char>
    decreases lines.len(),
{
    if lines.len() == 0 {
        Seq::empty()
    } else if lines.len() == 1 {
        lines[0]
    } else {
        join_lines(lines.drop_last()) + seq!['\n'] + lines.last()
    }
}

/// Whether the line reads as blank.
fn line_is_blank(l: &str) -> (r: bool)
    ensures
        r == all_space(l@),
{
    let n = l.unicode_len();
    let mut j: usize = 0;
    while j < n
        invariant
            n == l@.len(),
            j <= n,
            forall|t: int| 0 <= t < j ==> crate::pty_capture::is_cmd_space(#[trigger] l@[t]),
        decreases n - j,
    {
        if !crate::pty_capture::is_cmd_space_char(l.get_char(j)) {
            return false;
        }
        j += 1;
    }
    true
}

/// Break text into its lines.
fn split_content_lines(s: &str) -> (v: Vec<String>)
    ensures
        v@.map_values(|l: String| l@) == split_lines(s@),
{
    let len = s.unicode_len();
    let mut v: Vec<String> = Vec::new();
    let mut k: usize = 0;
    proof {
        assert(s@.skip(0) =~= s@);
        assert(v@.map_values(|l: String| l@) =~= Seq::<Seq<char>>::empty());
    }
    while k < len
        invariant
            len == s@.len(),
            k <= len,
            split_lines(s@) =~= v@.map_values(|l: String| l@) + split_lines(s@.skip(k as int)),
        decreases len - k,
    {
        let start = k;
        while k < len && s.get_char(k) != '\n'
            invariant
                len == s@.len(),
                start <= k <= len,
                forall|j: int| start <= j < k ==> s@[j] != '\n',
            decreases len - k,
        {
            k += 1;
        }
        let raw = s.substring_char(start, k);
        let line = strip_cr_exec(raw);
        proof {
            let rest = s@.skip(start as int);
            assert forall|j: int| 0 <= j < k - start implies rest[j] != '\n' by {
                assert(rest[j] == s@[start + j]);
            }
            if k < len {
                assert(rest[k - start] == s@[k as int]);
            }
            lemma_line_len_exact(rest, k - start);
            assert(rest.take(k - start) =~= s@.subrange(start as int, k as int));
            if k < len {
                assert(rest.skip(k - start + 1) =~= s@.skip(k + 1));
            }
            assert((v@.push(line)).map_values(|l: String| l@) =~= v@.map_values(
                |l: String| l@,
            ).push(line@));
        }
        v.push(line);
        if k < len {
            k += 1;
        }
        proof {
            if k == len {
                assert(s@.skip(len as int) =~= Seq::<char>::empty());
            }
        }
    }
    proof {
        assert(s@.skip(len as int) =~= Seq::<char>::empty());
        assert(split_lines(s@) =~= v@.map_values(|l: String| l@));
    }
    v
}

/// One trailing carriage return removed.
fn strip_cr_exec(l: &str) -> (r: String)
    ensures
        r@ == strip_cr(l@),
{
    let n = l.unicode_len();
    if n > 0 && l.get_char(n - 1) == '\r' {
        l.substring_char(0, n - 1).to_owned()
    } else {
        l.to_owned()
    }
}

/// Remove the tool's hook from an rc file's text: the comment line that
/// introduces the hook and the hook line after it go, with the blank lines
/// that followed them; a bare hook line goes too; every other line stays, in
/// order, joined back with line feeds.
#[verifier::loop_isolation(false)]
pub fn strip_hook_lines(content: &str, hook_line: &str) -> (r: String)
    ensures
        r@ == join_lines(remove_hook_lines(split_lines(content@), hook_line@)),
{
    let lines = split_content_lines(content);
    let ghost all = lines@.map_values(|l: String| l@);
    let n = lines.len();
    let mut kept: Vec<String> = Vec::new();
    let mut i: usize = 0;
    proof {
        assert(all.skip(0) =~= all);
        assert(kept@.map_values(|l: String| l@) =~= Seq::<Seq<char>>::empty());
    }
    while i < n
        invariant
            i <= n,
            remove_hook_lines(all, hook_line@) == kept@.map_values(|l: String| l@)
                + remove_hook_lines(all.skip(i as int), hook_line@),
        decreases n - i,
    {
        proof {
            assert(all.skip(i as int)[0] == lines@[i as int]@);
        }
        if contains_str(lines[i].as_str(), "# Shelltape") && i + 1 < n && contains_str(
            lines[i + 1].as_str(),
            hook_line,
        ) {
            proof {
                assert(all.skip(i as int)[1] == lines@[i + 1]@);
                assert(all.skip(i as int).skip(2) =~= all.skip(i + 2));
            }
            i += 2;
            let ghost base = i as int;
            while i < n && line_is_blank(lines[i].as_str())
                invariant
                    base <= i <= n,
                    remove_hook_lines(all, hook_line@) == kept@.map_values(|l: String| l@)
                        + remove_hook_lines(drop_blank_prefix(all.skip(i as int)), hook_line@),
                decreases n - i,
            {
                proof {
                    assert(all.skip(i as int)[0] == lines@[i as int]@);
                    assert(all.skip(i as int).drop_first() =~= all.skip(i + 1));
                }
                i += 1;
            }
            proof {
                if i < n {
                    assert(all.skip(i as int)[0] == lines@[i as int]@);
                    assert(drop_blank_prefix(all.skip(i as int)) == all.skip(i as int));
                } else {
                    assert(all.skip(i as int) =~= Seq::<Seq<char>>::empty());
                }
            }
        } else if contains_str(lines[i].as_str(), hook_line) {
            proof {
                assert(all.skip(i as int).drop_first() =~= all.skip(i + 1));
            }
            i += 1;
        } else {
            let line = lines[i].clone();
            proof {
                assert(all.skip(i as int).drop_first() =~= all.skip(i + 1));
                assert((kept@.push(line)).map_values(|l: String| l@) =~= kept@.map_values(
                    |l: String| l@,
                ).push(line@));
                assert(seq![all.skip(i as int)[0]] + remove_hook_lines(
                    all.skip(i + 1),
                    hook_line@,
                ) =~= remove_hook_lines(all.skip(i as int), hook_line@));
            }
            kept.push(line);
            i += 1;
        }
    }
    proof {
        assert(all.skip(n as int) =~= Seq::<Seq<char>>::empty());
        assert(remove_hook_lines(all, hook_line@) =~= kept@.map_values(|l: String| l@));
    }
    let mut out = String::new();
    let m = kept.len();
    let mut idx: usize = 0;
    proof {
        assert(join_lines(kept@.map_values(|l: String| l@).take(0)) =~= Seq::<char>::empty());
    }
    while idx < m
        invariant
            idx <= m,
            out@ == join_lines(kept@.map_values(|l: String| l@).take(idx as int)),
        decreases m - idx,
    {
        if idx > 0 {
            out = out.concat("\n");
            proof {
                reveal_strlit("\n");
                assert("\n"@ =~= seq!['\n']);
            }
        }
        out = out.concat(kept[idx].as_str());
        proof {
            let views = kept@.map_values(|l: String| l@);
            assert(views.take(idx + 1).drop_last() =~= views.take(idx as int));
            assert(views.take(idx + 1).last() == views[idx as int]);
        }
        idx += 1;
    }
    proof {
        assert(kept@.map_values(|l: String| l@).take(m as int) =~= kept@.map_values(
            |l: String| l@,
        ));
    }
    out
}

} // verus!
