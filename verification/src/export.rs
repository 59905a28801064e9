//! Rendering one stored record as a markdown section, for the export file and
//! for the browser's marked-records export. The caller supplies the record's
//! start time already formatted as text (date formatting is the invocation
//! layer's); everything else in the section is pinned here.

use crate::models::Command;
use crate::text::dec_int;
use crate::text::dec_nat;
use crate::text::i32_to_dec;
use crate::text::u64_to_dec;
use vstd::prelude::*;

verus! {

/// The status note shown beside an exit code.
pub open spec fn exit_status_note(exit_code: i32) -> Seq<char> {
    if exit_code == 0 {
        "✓ Success"@
    } else {
        "✗ Failed"@
    }
}

/// The markdown section for one record: heading with the formatted start
/// time, directory, duration, exit code with its status note, optionally the
/// shell/host/user identity lines, the command line in a code block, the
/// output in a code block when there is any, and a closing rule.
pub open spec fn command_markdown(c: Command, ts: Seq<char>, with_identity: bool) -> Seq<char> {
    "## "@ + ts + "\n\n**Directory:** `"@ + c.cwd@ + "`\n\n**Duration:** "@ + dec_nat(
        c.duration_ms as int,
    ) + "ms\n\n**Exit Code:** "@ + dec_int(c.exit_code as int) + " ("@ + exit_status_note(
        c.exit_code,
    ) + ")\n\n"@ + (if with_identity {
        "**Shell:** "@ + c.shell@ + "\n\n**Hostname:** "@ + c.hostname@ + "\n\n**User:** "@
            + c.username@ + "\n\n"@
    } else {
        Seq::<char>::empty()
    }) + "**Command:**\n\n```bash\n"@ + c.command@ + "\n```\n\n"@ + (if c.output@.len() > 0 {
        "**Output:**\n\n```\n"@ + c.output@ + "\n```\n\n"@
    } else {
        Seq::<char>::empty()
    }) + "---\n\n"@
}

/// Render one record as a markdown section, around its already-formatted
/// start time.
pub fn render_command(cmd: &Command, started_at_text: &str, with_identity: bool) -> (r: String)
    ensures
        r@ == command_markdown(*cmd, started_at_text@, with_identity),
{
    let mut out = String::from_str("## ").concat(started_at_text);
    out = out.concat("\n\n**Directory:** `").concat(cmd.cwd.as_str());
    out = out.concat("`\n\n**Duration:** ").concat(u64_to_dec(cmd.duration_ms).as_str());
    out = out.concat("ms\n\n**Exit Code:** ").concat(i32_to_dec(cmd.exit_code).as_str());
    out = out.concat(" (");
    if cmd.exit_code == 0 {
        out = out.concat("✓ Success");
    } else {
        out = out.concat("✗ Failed");
    }
    out = out.concat(")\n\n");
    if with_identity {
        out = out.concat("**Shell:** ").concat(cmd.shell.as_str());
        out = out.concat("\n\n**Hostname:** ").concat(cmd.hostname.as_str());
        out = out.concat("\n\n**User:** ").concat(cmd.username.as_str());
        out = out.concat("\n\n");
    }
    out = out.concat("**Command:**\n\n```bash\n").concat(cmd.command.as_str());
    out = out.concat("\n```\n\n");
    if cmd.output.as_str().unicode_len() > 0 {
        out = out.concat("**Output:**\n\n```\n").concat(cmd.output.as_str());
        out = out.concat("\n```\n\n");
    }
    let r = out.concat("---\n\n");
    proof {
        assert(r@ =~= command_markdown(*cmd, started_at_text@, with_identity));
    }
    r
}

} // verus!
