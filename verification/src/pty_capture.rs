//! The process-capture core: splitting a command line into program and
//! arguments, the append-only capture buffer the output pump writes into, the
//! session coordinator's state machine, and the assembly of the final
//! execution result. The blocking work (the pseudo-terminal itself, the two
//! pumps, the child wait) lives with the invocation layer, which drives the
//! coordinator and hands the captured bytes back to this module.

use vstd::prelude::*;

verus! {

/// The characters the splitter breaks on: exactly the Unicode white-space
/// set (the `White_Space` property), as the standard library's trimming and
/// whitespace splitting use it.
pub open spec fn is_cmd_space(c: char) -> bool {
    c == ' ' || c == '\t' || c == '\n' || c == '\r' || c == '\x0b' || c == '\x0c' || c
        == '\u{85}' || c == '\u{a0}' || c == '\u{1680}' || (0x2000 <= c as u32 && c as u32
        <= 0x200a) || c == '\u{2028}' || c == '\u{2029}' || c == '\u{202f}' || c == '\u{205f}'
        || c == '\u{3000}'
}

/// Length of the leading run of non-whitespace characters.
pub open spec fn token_len(s: Seq<char>) -> nat
    decreases s.len(),
{
    if s.len() == 0 || is_cmd_space(s[0]) {
        0
    } else {
        1 + token_len(s.drop_first())
    }
}

proof fn lemma_token_len_le(s: Seq<char>)
    ensures
        token_len(s) <= s.len(),
    decreases s.len(),
{
    if s.len() != 0 && !is_cmd_space(s[0]) {
        lemma_token_len_le(s.drop_first());
    }
}

/// `token_len` is exactly the position of the first whitespace character
/// (or the whole length when there is none).
proof fn lemma_token_len_exact(s: Seq<char>, k: int)
    requires
        0 <= k <= s.len(),
        forall|j: int| 0 <= j < k ==> !is_cmd_space(s[j]),
        k < s.len() ==> is_cmd_space(s[k]),
    ensures
        token_len(s) == k,
    decreases k,
{
    if k == 0 {
    } else {
        assert(!is_cmd_space(s[0]));
        lemma_token_len_exact(s.drop_first(), k - 1);
    }
}

/// The command line broken into whitespace-separated tokens, in order.
pub open spec fn split_ws(s: Seq<char>) -> Seq<Seq<char>>
    decreases s.len(),
    via split_ws_decreases
{
    if s.len() == 0 {
        Seq::empty()
    } else if is_cmd_space(s[0]) {
        split_ws(s.drop_first())
    } else {
        seq![s.take(token_len(s) as int)] + split_ws(s.skip(token_len(s) as int))
    }
}

#[via_fn]
proof fn split_ws_decreases(s: Seq<char>) {
    if s.len() != 0 && !is_cmd_space(s[0]) {
        lemma_token_len_le(s);
    }
}

/// Break a string into its whitespace-separated tokens.
fn split_tokens(s: &str) -> (toks: Vec<String>)
    ensures
        toks@.len() == split_ws(s@).len(),
        forall|i: int| 0 <= i < toks@.len() ==> toks@[i]@ == split_ws(s@)[i],
{
    let len = s.unicode_len();
    let mut toks: Vec<String> = Vec::new();
    let mut k: usize = 0;
    proof {
        assert(s@.skip(0) =~= s@);
        assert(toks@.map_values(|t: String| t@) =~= Seq::<Seq<char>>::empty());
    }
    while k < len
        invariant
            len == s@.len(),
            k <= len,
            split_ws(s@) =~= toks@.map_values(|t: String| t@) + split_ws(s@.skip(k as int)),
        decreases len - k,
    {
        if is_cmd_space_char(s.get_char(k)) {
            proof {
                assert(s@.skip(k as int).drop_first() =~= s@.skip(k + 1));
            }
            k += 1;
        } else {
            let start = k;
            k += 1;
            while k < len && !is_cmd_space_char(s.get_char(k))
                invariant
                    len == s@.len(),
                    start < k <= len,
                    forall|j: int| start <= j < k ==> !is_cmd_space(s@[j]),
                decreases len - k,
            {
                k += 1;
            }
            let tok = s.substring_char(start, k).to_owned();
            proof {
                let rest = s@.skip(start as int);
                assert forall|j: int| 0 <= j < k - start implies !is_cmd_space(rest[j]) by {
                    assert(rest[j] == s@[start + j]);
                }
                if k < len {
                    assert(rest[k - start] == s@[k as int]);
                }
                lemma_token_len_exact(rest, k - start);
                assert(rest.take(k - start) =~= s@.subrange(start as int, k as int));
                assert(rest.skip(k - start) =~= s@.skip(k as int));
                assert(split_ws(rest) == seq![s@.subrange(start as int, k as int)] + split_ws(
                    s@.skip(k as int),
                ));
                assert((toks@.push(tok)).map_values(|t: String| t@) =~= toks@.map_values(
                    |t: String| t@,
                ).push(tok@));
            }
            toks.push(tok);
        }
    }
    proof {
        assert(s@.skip(len as int) =~= Seq::<char>::empty());
        assert(split_ws(s@) =~= toks@.map_values(|t: String| t@));
        assert forall|i: int| 0 <= i < toks@.len() implies toks@[i]@ == split_ws(s@)[i] by {
            assert(split_ws(s@)[i] == toks@.map_values(|t: String| t@)[i]);
        }
    }
    toks
}

/// Whether one character is splitter whitespace.
pub(crate) fn is_cmd_space_char(c: char) -> (r: bool)
    ensures
        r == is_cmd_space(c),
{
    let v = c as u32;
    v == 0x20 || v == 0x09 || v == 0x0a || v == 0x0d || v == 0x0b || v == 0x0c || v == 0x85 || v
        == 0xa0 || v == 0x1680 || (0x2000 <= v && v <= 0x200a) || v == 0x2028 || v == 0x2029 || v
        == 0x202f || v == 0x205f || v == 0x3000
}

/// The kind of shell hosting the invocation, chosen once by the caller.
/// Under a PowerShell-family host the whole command line is handed to the
/// PowerShell interpreter, whose own tokenizer owns quoting; everywhere else
/// the line is split on whitespace.
#[derive(Clone, Copy, Debug, PartialEq, Eq, Structural)]
pub enum HostShell {
    /// Split the command line on whitespace.
    Plain,
    /// Wrap the whole command line for a PowerShell-family interpreter.
    Powershell,
}

/// Relies on which::which: reports whether the modern PowerShell executable
/// is somewhere on the search path. The answer depends on the machine.
#[verifier::external_body]
fn pwsh_available() -> bool {
    which::which("pwsh.exe").is_ok()
}

/// Parse a command string into a program and its arguments.
///
/// On a plain host the line is split on whitespace: the first token is the
/// program and the remaining tokens are the arguments, kept verbatim. An
/// empty or whitespace-only line yields an empty program and no arguments,
/// and the caller must not spawn anything in that case. Under a PowerShell
/// host the program is the PowerShell executable (the modern one when it is
/// on the search path, otherwise the legacy one) and the arguments are a
/// fixed non-interactive, no-profile flag set followed by the entire
/// original line as one argument.
pub fn parse_command(command: &str, host: HostShell) -> (r: (String, Vec<String>))
    ensures
        ({
            let toks = split_ws(command@);
            match host {
                HostShell::Plain => (toks.len() == 0 ==> r.0@ == Seq::<char>::empty()
                    && r.1@.len() == 0) && (toks.len() > 0 ==> r.0@ == toks[0] && r.1@.len()
                    == toks.len() - 1 && (forall|i: int|
                    0 <= i < r.1@.len() ==> r.1@[i]@ == toks[i + 1])),
                HostShell::Powershell => (r.0@ == "pwsh.exe"@ || r.0@ == "powershell.exe"@)
                    && r.1@.len() == 4 && r.1@[0]@ == "-NoProfile"@ && r.1@[1]@
                    == "-NonInteractive"@ && r.1@[2]@ == "-Command"@ && r.1@[3]@ == command@,
            }
        }),
{
    match host {
        HostShell::Powershell => {
            let program = if pwsh_available() {
                String::from_str("pwsh.exe")
            } else {
                String::from_str("powershell.exe")
            };
            let mut args: Vec<String> = Vec::new();
            args.push(String::from_str("-NoProfile"));
            args.push(String::from_str("-NonInteractive"));
            args.push(String::from_str("-Command"));
            args.push(command.to_owned());
            (program, args)
        },
        HostShell::Plain => {
            let mut toks = split_tokens(command);
            if toks.len() == 0 {
                (String::new(), toks)
            } else {
                let program = toks.remove(0);
                (program, toks)
            }
        },
    }
}

/// Result of one command execution with captured output.
pub struct ExecutionResult {
    /// The captured byte stream, decoded permissively into text.
    pub output: String,
    /// Exit status the child reported.
    pub exit_code: i32,
    /// Wall-clock instant just before spawning, nanoseconds since the epoch.
    pub start_time: i64,
    /// Wall-clock instant just after the child exited, nanoseconds since the
    /// epoch.
    pub end_time: i64,
}

impl ExecutionResult {
    /// A result never ends before it starts.
    pub open spec fn wf(self) -> bool {
        self.start_time <= self.end_time
    }

    /// Build a result from its parts.
    pub fn new(output: String, exit_code: i32, start_time: i64, end_time: i64) -> (r: Self)
        requires
            start_time <= end_time,
        ensures
            r.output == output,
            r.exit_code == exit_code,
            r.start_time == start_time,
            r.end_time == end_time,
            r.wf(),
    {
        ExecutionResult { output, exit_code, start_time, end_time }
    }
}

/// The span of a well-formed result is never negative: however short the
/// command, `end_time - start_time >= 0`.
pub proof fn lemma_duration_nonnegative(r: ExecutionResult)
    requires
        r.wf(),
    ensures
        r.end_time - r.start_time >= 0,
{
}

/// The buffer the output pump appends every captured chunk to. It only ever
/// grows at the end, so bytes keep the order in which they were read.
pub struct CaptureBuffer {
    data: Vec<u8>,
}

impl View for CaptureBuffer {
    type V = Seq<u8>;

    closed spec fn view(&self) -> Seq<u8> {
        self.data@
    }
}

impl CaptureBuffer {
    /// A fresh, empty capture buffer.
    pub fn new() -> (r: Self)
        ensures
            r@ == Seq::<u8>::empty(),
    {
        CaptureBuffer { data: Vec::new() }
    }

    /// Append one chunk at the end; everything already captured stays where
    /// it was.
    pub fn append(&mut self, chunk: &[u8])
        requires
            old(self)@.len() + chunk@.len() <= usize::MAX,
        ensures
            final(self)@ == old(self)@ + chunk@,
    {
        let mut i: usize = 0;
        while i < chunk.len()
            invariant
                i <= chunk@.len(),
                self@ =~= old(self)@ + chunk@.take(i as int),
                old(self)@.len() + chunk@.len() <= usize::MAX,
            decreases chunk@.len() - i,
        {
            self.data.push(chunk[i]);
            proof {
                assert(old(self)@ + chunk@.take(i + 1) =~= (old(self)@ + chunk@.take(i as int)).push(
                    chunk@[i as int],
                ));
            }
            i += 1;
        }
        proof {
            assert(chunk@.take(chunk@.len() as int) =~= chunk@);
        }
    }

    /// How many bytes have been captured.
    pub fn len(&self) -> (r: usize)
        ensures
            r == self@.len(),
    {
        self.data.len()
    }

    /// The captured bytes, in capture order.
    pub fn bytes(&self) -> (r: &[u8])
        ensures
            r@ == self@,
    {
        self.data.as_slice()
    }
}

/// A sequence of chunks laid out one after the other.
pub open spec fn chunks_concat(chunks: Seq<Seq<u8>>) -> Seq<u8>
    decreases chunks.len(),
{
    if chunks.len() == 0 {
        Seq::empty()
    } else {
        chunks[0] + chunks_concat(chunks.drop_first())
    }
}

/// Appending chunks one by one yields their concatenation: the single-writer,
/// append-only buffer keeps every chunk intact and in append order, each at
/// the offset given by the chunks before it.
pub proof fn lemma_chunks_keep_order(base: Seq<u8>, chunks: Seq<Seq<u8>>)
    requires
        chunks.len() > 0,
    ensures
        base + chunks_concat(chunks) == (base + chunks[0]) + chunks_concat(chunks.drop_first()),
        (base + chunks_concat(chunks)).subrange(
            base.len() as int,
            base.len() + chunks[0].len() as int,
        ) == chunks[0],
    decreases chunks.len(),
{
    assert(base + chunks_concat(chunks) =~= (base + chunks[0]) + chunks_concat(
        chunks.drop_first(),
    ));
    assert((base + chunks_concat(chunks)).subrange(base.len() as int, base.len() + chunks[0].len() as int)
        =~= chunks[0]);
}

/// The text a byte stream decodes to under permissive decoding. Invalid
/// sequences map to replacement characters; the result depends on the bytes
/// alone.
pub uninterp spec fn lossy_decoded(bytes: Seq<u8>) -> Seq<char>;

/// Relies on String::from_utf8_lossy: decodes bytes permissively, never
/// failing; invalid sequences are replaced. Bytes that are all ASCII are
/// valid UTF-8 and decode to themselves.
#[verifier::external_body]
fn decode_lossy(bytes: &[u8]) -> (r: String)
    ensures
        r@ == lossy_decoded(bytes@),
        (forall|i: int| 0 <= i < bytes@.len() ==> bytes@[i] < 128) ==> r@ == bytes@.map_values(
            |b: u8| b as char,
        ),
{
    String::from_utf8_lossy(bytes).into_owned()
}

/// Assemble the final result of a session from the captured bytes, the exit
/// status the child reported, and the two clock readings.
pub fn assemble_result(captured: &CaptureBuffer, exit_code: i32, start_time: i64, end_time: i64) -> (r:
    ExecutionResult)
    requires
        start_time <= end_time,
    ensures
        r.output@ == lossy_decoded(captured@),
        (forall|i: int| 0 <= i < captured@.len() ==> captured@[i] < 128) ==> r.output@
            == captured@.map_values(|b: u8| b as char),
        r.exit_code == exit_code,
        r.start_time == start_time,
        r.end_time == end_time,
        r.wf(),
{
    let output = decode_lossy(captured.bytes());
    ExecutionResult::new(output, exit_code, start_time, end_time)
}

/// Where the session coordinator stands.
#[derive(Clone, Copy, Debug, PartialEq, Eq, Structural)]
pub enum SessionPhase {
    /// The child was just spawned.
    Spawned,
    /// Blocked on the child's exit status.
    WaitingForExit,
    /// The child has exited; waiting, boundedly, for the output pump.
    Draining,
    /// The session is complete and a result can be assembled.
    Done,
    /// A setup or wait error ended the session early.
    Failed,
}

/// What the invocation layer observed since the last step.
#[derive(Clone, Copy, Debug, PartialEq, Eq, Structural)]
pub enum SessionEvent {
    /// The session is set up and the pumps are running.
    Begin,
    /// The child exited with this status.
    ChildExited(i32),
    /// Waiting for the child failed.
    WaitFailed,
    /// The output pump reported completion.
    PumpFinished,
    /// The pump has not reported yet; this much time has elapsed since the
    /// drain began, in milliseconds.
    PollTick(u64),
}

/// What the invocation layer must do next.
#[derive(Clone, Copy, Debug, PartialEq, Eq, Structural)]
pub enum SessionAction {
    /// Block on the child's exit status.
    WaitForChild,
    /// Release the controller-side handle, then start polling the pump.
    CloseController,
    /// Sleep briefly and poll the output pump again.
    PollPump,
    /// Assemble and return the result.
    Finish,
    /// Abandon the session and report the error.
    Abort,
    /// The event does not apply in this phase; nothing changes.
    Ignore,
}

/// The session coordinator: owns the child's lifecycle as a pure state
/// machine. The invocation layer performs each returned action and feeds the
/// outcome back in as the next event.
pub struct Coordinator {
    /// Current phase.
    pub phase: SessionPhase,
    /// The child's exit status, once it has exited.
    pub exit_code: Option<i32>,
    /// Upper bound on the drain wait, in milliseconds.
    pub drain_timeout_ms: u64,
}

impl Coordinator {
    /// Once the session is draining or done, the child has exited and its
    /// status is in hand: the exit code is extracted only after the child is
    /// confirmed exited.
    pub open spec fn wf(self) -> bool {
        self.phase == SessionPhase::Draining || self.phase == SessionPhase::Done
            ==> self.exit_code is Some
    }

    /// The transition relation: next coordinator state and required action
    /// for one observed event.
    pub open spec fn step_spec(self, ev: SessionEvent) -> (Coordinator, SessionAction) {
        match (self.phase, ev) {
            (SessionPhase::Spawned, SessionEvent::Begin) => (
                Coordinator { phase: SessionPhase::WaitingForExit, ..self },
                SessionAction::WaitForChild,
            ),
            (SessionPhase::WaitingForExit, SessionEvent::ChildExited(code)) => (
                Coordinator { phase: SessionPhase::Draining, exit_code: Some(code), ..self },
                SessionAction::CloseController,
            ),
            (SessionPhase::WaitingForExit, SessionEvent::WaitFailed) => (
                Coordinator { phase: SessionPhase::Failed, ..self },
                SessionAction::Abort,
            ),
            (SessionPhase::Draining, SessionEvent::PumpFinished) => (
                Coordinator { phase: SessionPhase::Done, ..self },
                SessionAction::Finish,
            ),
            (SessionPhase::Draining, SessionEvent::PollTick(elapsed_ms)) => if elapsed_ms
                >= self.drain_timeout_ms {
                (Coordinator { phase: SessionPhase::Done, ..self }, SessionAction::Finish)
            } else {
                (self, SessionAction::PollPump)
            },
            _ => (self, SessionAction::Ignore),
        }
    }

    /// A fresh coordinator for one session.
    pub fn new(drain_timeout_ms: u64) -> (r: Self)
        ensures
            r.phase == SessionPhase::Spawned,
            r.exit_code == Option::<i32>::None,
            r.drain_timeout_ms == drain_timeout_ms,
    {
        Coordinator { phase: SessionPhase::Spawned, exit_code: None, drain_timeout_ms }
    }

    /// Take one step: move to the next state and say what to do.
    pub fn step(&mut self, ev: SessionEvent) -> (action: SessionAction)
        ensures
            (*final(self), action) == old(self).step_spec(ev),
    {
        match (self.phase, ev) {
            (SessionPhase::Spawned, SessionEvent::Begin) => {
                self.phase = SessionPhase::WaitingForExit;
                SessionAction::WaitForChild
            },
            (SessionPhase::WaitingForExit, SessionEvent::ChildExited(code)) => {
                self.phase = SessionPhase::Draining;
                self.exit_code = Some(code);
                SessionAction::CloseController
            },
            (SessionPhase::WaitingForExit, SessionEvent::WaitFailed) => {
                self.phase = SessionPhase::Failed;
                SessionAction::Abort
            },
            (SessionPhase::Draining, SessionEvent::PumpFinished) => {
                self.phase = SessionPhase::Done;
                SessionAction::Finish
            },
            (SessionPhase::Draining, SessionEvent::PollTick(elapsed_ms)) => {
                if elapsed_ms >= self.drain_timeout_ms {
                    self.phase = SessionPhase::Done;
                    SessionAction::Finish
                } else {
                    SessionAction::PollPump
                }
            },
            _ => SessionAction::Ignore,
        }
    }
}

/// No step loses the child's status: a well-formed coordinator steps to a
/// well-formed coordinator, so whenever the session is draining or done the
/// exit code is available for the final result.
pub proof fn lemma_step_preserves_wf(c: Coordinator, ev: SessionEvent)
    requires
        c.wf(),
    ensures
        c.step_spec(ev).0.wf(),
{
}

/// The drain wait is bounded: once the elapsed time reaches the timeout, a
/// poll tick completes the session even though the pump never reported, so
/// the coordinator still returns a result rather than hanging.
pub proof fn lemma_drain_is_bounded(c: Coordinator, elapsed_ms: u64)
    requires
        c.phase == SessionPhase::Draining,
        elapsed_ms >= c.drain_timeout_ms,
    ensures
        c.step_spec(SessionEvent::PollTick(elapsed_ms)).0.phase == SessionPhase::Done,
        c.step_spec(SessionEvent::PollTick(elapsed_ms)).1 == SessionAction::Finish,
{
}

} // verus!
