//! Building the record of one executed command: truncating oversized output,
//! computing the duration, and attaching a fresh identifier and the machine's
//! hostname. The caller supplies what only the environment knows (shell and
//! user names) and persists the finished record.

use crate::models::Command;
use crate::storage::Storage;
use crate::storage::StorageError;
use crate::text::dec_nat;
use crate::text::usize_to_dec;
use vstd::prelude::*;
use vstd::utf8::encode_scalar;
use vstd::utf8::encode_utf8;

verus! {

/// Relies on uuid::Uuid::new_v4 and its text form: a fresh random identifier
/// rendered as 36 characters of hyphenated lowercase hex. Nothing more is
/// assumed of a random value. The call aborts only if the operating system's
/// randomness source fails — an environmental failure independent of any
/// input.
#[verifier::external_body]
fn fresh_uuid_string() -> (r: String)
    ensures
        r@.len() == 36,
{
    uuid::Uuid::new_v4().to_string()
}

/// Relies on hostname::get: the machine's hostname, decoded permissively.
/// The answer depends on the machine; the call can fail.
#[verifier::external_body]
fn hostname_string() -> Option<String> {
    hostname::get().ok().map(|h| h.to_string_lossy().into_owned())
}

proof fn lemma_encode_utf8_concat(a: Seq<char>, b: Seq<char>)
    ensures
        encode_utf8(a + b) == encode_utf8(a) + encode_utf8(b),
    decreases a.len(),
{
    if a.len() == 0 {
        assert(a + b =~= b);
        assert(encode_utf8(a) + encode_utf8(b) =~= encode_utf8(b));
    } else {
        assert((a + b).drop_first() =~= a.drop_first() + b);
        lemma_encode_utf8_concat(a.drop_first(), b);
        assert((a + b)[0] == a[0]);
        assert(encode_utf8(a + b) =~= encode_utf8(a) + encode_utf8(b));
    }
}

/// Extending a prefix by one character extends its encoding by that
/// character's encoding.
proof fn lemma_encode_utf8_step(s: Seq<char>, n: int)
    requires
        0 <= n < s.len(),
    ensures
        encode_utf8(s.take(n + 1)) == encode_utf8(s.take(n)) + encode_scalar(s[n] as u32),
{
    assert(s.take(n + 1) =~= s.take(n) + seq![s[n]]);
    lemma_encode_utf8_concat(s.take(n), seq![s[n]]);
    let single = seq![s[n]];
    assert(single.len() == 1 && single[0] == s[n]);
    assert(single.drop_first() =~= Seq::<char>::empty());
    assert(encode_utf8(single.drop_first()) =~= Seq::<u8>::empty());
    assert(encode_utf8(single) =~= encode_scalar(s[n] as u32));
}

/// A longer character prefix never encodes to fewer bytes.
proof fn lemma_encode_utf8_monotonic(s: Seq<char>, a: int, b: int)
    requires
        0 <= a <= b <= s.len(),
    ensures
        encode_utf8(s.take(a)).len() <= encode_utf8(s.take(b)).len(),
{
    assert(s.take(b) =~= s.take(a) + s.subrange(a, b));
    lemma_encode_utf8_concat(s.take(a), s.subrange(a, b));
}

/// The longest character prefix whose UTF-8 encoding fits within `max`
/// bytes: the cut at byte `max`, backed off to the previous character
/// boundary when `max` falls inside a character's encoding.
pub open spec fn truncation_point(s: Seq<char>, max: int) -> int
    decreases s.len(),
{
    if encode_utf8(s).len() <= max {
        s.len() as int
    } else if s.len() == 0 {
        0
    } else {
        truncation_point(s.drop_last(), max)
    }
}

/// `truncation_point` is exactly the prefix length where the encoding still
/// fits but one more character would not.
proof fn lemma_truncation_point_at(s: Seq<char>, max: int, n: int)
    requires
        0 <= max,
        0 <= n <= s.len(),
        encode_utf8(s.take(n)).len() <= max,
        n < s.len() ==> encode_utf8(s.take(n + 1)).len() > max,
        encode_utf8(s).len() > max,
    ensures
        truncation_point(s, max) == n,
    decreases s.len(),
{
    assert(s.take(s.len() as int) =~= s);
    assert(n < s.len());
    let d = s.drop_last();
    assert(d =~= s.take(s.len() - 1));
    assert(truncation_point(s, max) == truncation_point(d, max));
    if n == s.len() - 1 {
        assert(d =~= s.take(n));
        assert(encode_utf8(d).len() <= max);
        assert(truncation_point(d, max) == d.len());
    } else {
        lemma_encode_utf8_monotonic(s, n + 1, s.len() - 1);
        assert(encode_utf8(d).len() > max);
        assert(d.take(n) =~= s.take(n));
        assert(d.take(n + 1) =~= s.take(n + 1));
        lemma_truncation_point_at(d, max, n);
    }
}

/// UTF-8 byte length of one character.
fn char_utf8_len(c: char) -> (r: usize)
    ensures
        r == encode_scalar(c as u32).len(),
{
    broadcast use vstd::utf8::char_is_scalar;

    let v = c as u32;
    if v <= 0x7f {
        1
    } else if v <= 0x7ff {
        2
    } else if v <= 0xffff {
        3
    } else {
        4
    }
}

/// The output kept in a record: unchanged while its UTF-8 encoding is within
/// the size cap in bytes, otherwise cut at the cap — backed off to a
/// character boundary — with a note giving the original byte length.
pub open spec fn truncated_output(max: int, s: Seq<char>) -> Seq<char> {
    if encode_utf8(s).len() <= max {
        s
    } else {
        s.take(truncation_point(s, max)) + "...\n[Output truncated: "@ + dec_nat(
            encode_utf8(s).len() as int,
        ) + " bytes total]"@
    }
}

/// Command recorder: assembles the record of one command execution.
pub struct Recorder {
    /// Where the records live.
    pub storage: Storage,
    /// Captured output longer than this many bytes is truncated.
    pub max_output_size: usize,
}

impl Recorder {
    /// A recorder over the default storage location, with the default
    /// output cap. Fails only when no home directory can be determined.
    pub fn new() -> (r: Result<Recorder, StorageError>)
        ensures
            match r {
                Ok(rec) => rec.storage.wf() && rec.max_output_size == 100000
                    && rec.storage.data_dir@.len() >= 11 && rec.storage.data_dir@.subrange(
                    rec.storage.data_dir@.len() - 11,
                    rec.storage.data_dir@.len() as int,
                ) == "/.shelltape"@,
                Err(e) => e == StorageError::NoHomeDirectory,
            },
    {
        match Storage::new() {
            Ok(storage) => Ok(Recorder { storage, max_output_size: 100000 }),
            Err(e) => Err(e),
        }
    }

    /// A recorder over the given storage, with the default output cap.
    pub fn with_storage(storage: Storage) -> (r: Recorder)
        ensures
            r.storage == storage,
            r.max_output_size == 100000,
    {
        Recorder { storage, max_output_size: 100000 }
    }

    /// Change the output cap, in bytes.
    pub fn with_max_output_size(self, size: usize) -> (r: Recorder)
        ensures
            r.storage == self.storage,
            r.max_output_size == size,
    {
        Recorder { max_output_size: size, ..self }
    }

    /// Cut output down to the cap: output of at most `max_output_size` bytes
    /// is kept whole; longer output is cut at the cap — backed off to a
    /// character boundary when the cap falls inside a character — followed by
    /// a note giving the original byte length.
    #[verifier::loop_isolation(false)]
    pub fn truncate_output(&self, output: String) -> (r: String)
        ensures
            r@ == truncated_output(self.max_output_size as int, output@),
    {
        broadcast use vstd::slice::axiom_spec_len;

        let total = output.as_str().as_bytes().len();
        if total <= self.max_output_size {
            output
        } else {
            let s = output.as_str();
            let char_count = s.unicode_len();
            let max = self.max_output_size;
            let mut n: usize = 0;
            let mut used: usize = 0;
            proof {
                assert(s@.take(0) =~= Seq::<char>::empty());
            }
            while n < char_count && char_utf8_len(s.get_char(n)) <= max - used
                invariant
                    n <= char_count,
                    used == encode_utf8(s@.take(n as int)).len(),
                    used <= max,
                decreases char_count - n,
            {
                proof {
                    lemma_encode_utf8_step(s@, n as int);
                }
                used = used + char_utf8_len(s.get_char(n));
                n += 1;
            }
            proof {
                if n == char_count {
                    assert(s@.take(n as int) =~= s@);
                }
                assert(n < char_count);
                lemma_encode_utf8_step(s@, n as int);
                lemma_truncation_point_at(s@, max as int, n as int);
            }
            let head = s.substring_char(0, n);
            let count = usize_to_dec(total);
            let r = head.to_owned().concat("...\n[Output truncated: ").concat(
                count.as_str(),
            ).concat(" bytes total]");
            proof {
                assert(s@.subrange(0, n as int) =~= s@.take(n as int));
                assert(r@ =~= truncated_output(self.max_output_size as int, output@));
            }
            r
        }
    }

    /// Build the record of one command execution: the output is truncated to
    /// the cap, the duration is the elapsed nanoseconds in whole
    /// milliseconds, a fresh identifier is attached, and the hostname is
    /// whatever the machine reports (or a fixed placeholder when it reports
    /// none). The caller persists the returned record.
    pub fn record(
        &self,
        command: String,
        output: String,
        exit_code: i32,
        start_time: i64,
        end_time: i64,
        cwd: String,
        session_id: String,
        shell: String,
        username: String,
    ) -> (r: Command)
        requires
            start_time <= end_time,
            end_time - start_time <= i64::MAX,
        ensures
            r.id@.len() == 36,
            r.command == command,
            r.output@ == truncated_output(self.max_output_size as int, output@),
            r.exit_code == exit_code,
            r.cwd == cwd,
            r.started_at == start_time,
            r.duration_ms == (end_time - start_time) / 1000000,
            r.session_id == session_id,
            r.shell == shell,
            r.username == username,
    {
        let id = fresh_uuid_string();
        let hostname = match hostname_string() {
            Some(h) => h,
            None => String::from_str("unknown"),
        };
        let elapsed = end_time - start_time;
        let duration_ms = (elapsed / 1000000) as u64;
        Command {
            id,
            command,
            output: self.truncate_output(output),
            exit_code,
            cwd,
            started_at: start_time,
            duration_ms,
            session_id,
            shell,
            hostname,
            username,
        }
    }
}

} // verus!
