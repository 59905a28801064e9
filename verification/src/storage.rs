//! The storage layer's pure half: where the data files live, and every
//! decision taken over the stored records — matching a search query, ordering
//! by time, trimming to a limit, closing a session, and dropping old entries.
//! Reading and writing the files themselves is the invocation layer's job; it
//! hands the parsed records in and persists what comes back.

use crate::models::Command;
use crate::models::Session;
use crate::text::contains_str;
use crate::text::is_substring;
use crate::text::lowercased;
use crate::text::str_eq;
use crate::text::to_lowercase_string;
use vstd::prelude::*;

verus! {

/// What can go wrong while locating or updating the stored data.
#[derive(Clone, Copy, Debug, PartialEq, Eq, Structural)]
pub enum StorageError {
    /// The home directory could not be determined.
    NoHomeDirectory,
    /// No stored session carries the requested identifier.
    SessionNotFound,
}

impl StorageError {
    /// A short description of the error.
    pub fn message(&self) -> (r: &'static str)
        ensures
            *self == StorageError::NoHomeDirectory ==> r@ == "Could not determine home directory"@,
            *self == StorageError::SessionNotFound ==> r@ == "Session not found"@,
    {
        match self {
            StorageError::NoHomeDirectory => "Could not determine home directory",
            StorageError::SessionNotFound => "Session not found",
        }
    }
}

/// Relies on dirs::home_dir: yields the user's home directory, if the system
/// knows one. The answer depends on the machine and environment.
#[verifier::external_body]
fn home_dir_string() -> Option<String> {
    dirs::home_dir().map(|p| p.to_string_lossy().into_owned())
}

/// Storage manager: knows where the data directory and the two record files
/// live. The paths are fixed at construction.
pub struct Storage {
    /// The data directory.
    pub data_dir: String,
    /// The file commands are appended to, inside the data directory.
    pub commands_file: String,
    /// The file sessions are appended to, inside the data directory.
    pub sessions_file: String,
}

impl Storage {
    /// The two record files sit inside the data directory under fixed names.
    pub open spec fn wf(self) -> bool {
        self.commands_file@ == self.data_dir@ + "/commands.jsonl"@ && self.sessions_file@
            == self.data_dir@ + "/sessions.jsonl"@
    }

    /// Create a storage rooted at the default data directory, a fixed
    /// dot-directory under the user's home. Fails only when no home
    /// directory can be determined.
    pub fn new() -> (r: Result<Storage, StorageError>)
        ensures
            match r {
                Ok(s) => s.wf() && s.data_dir@.len() >= 11 && s.data_dir@.subrange(
                    s.data_dir@.len() - 11,
                    s.data_dir@.len() as int,
                ) == "/.shelltape"@,
                Err(e) => e == StorageError::NoHomeDirectory,
            },
    {
        match home_dir_string() {
            None => Err(StorageError::NoHomeDirectory),
            Some(home) => {
                let data_dir = home.concat("/.shelltape");
                proof {
                    reveal_strlit("/.shelltape");
                    assert(data_dir@.subrange(data_dir@.len() - 11, data_dir@.len() as int)
                        =~= "/.shelltape"@);
                }
                Ok(Storage::with_dir(data_dir))
            },
        }
    }

    /// Create a storage rooted at the given data directory.
    pub fn with_dir(data_dir: String) -> (s: Storage)
        ensures
            s.data_dir@ == data_dir@,
            s.wf(),
    {
        let commands_file = data_dir.clone().concat("/commands.jsonl");
        let sessions_file = data_dir.clone().concat("/sessions.jsonl");
        Storage { data_dir, commands_file, sessions_file }
    }

    /// The data directory path.
    pub fn data_dir(&self) -> (r: &String)
        ensures
            r@ == self.data_dir@,
    {
        &self.data_dir
    }

    /// The path of the commands file.
    pub fn commands_file(&self) -> (r: &String)
        ensures
            r@ == self.commands_file@,
    {
        &self.commands_file
    }

    /// The path of the sessions file.
    pub fn sessions_file(&self) -> (r: &String)
        ensures
            r@ == self.sessions_file@,
    {
        &self.sessions_file
    }
}

/// Records ordered from most recent to oldest.
pub open spec fn sorted_by_time_desc(s: Seq<Command>) -> bool {
    forall|i: int, j: int| 0 <= i < j < s.len() ==> s[i].started_at >= s[j].started_at
}

/// A command record matches an already-lowercased query when the query
/// occurs in the lowercased command line, working directory, or output.
pub open spec fn cmd_matches(c: Command, q_lower: Seq<char>) -> bool {
    is_substring(q_lower, lowercased(c.command@)) || is_substring(q_lower, lowercased(c.cwd@))
        || is_substring(q_lower, lowercased(c.output@))
}

/// Whether one record matches the lowercased query.
pub(crate) fn cmd_matches_exec(c: &Command, q_lower: &String) -> (r: bool)
    ensures
        r == cmd_matches(*c, q_lower@),
{
    let lc = to_lowercase_string(c.command.as_str());
    if contains_str(lc.as_str(), q_lower.as_str()) {
        return true;
    }
    let lw = to_lowercase_string(c.cwd.as_str());
    if contains_str(lw.as_str(), q_lower.as_str()) {
        return true;
    }
    let lo = to_lowercase_string(c.output.as_str());
    contains_str(lo.as_str(), q_lower.as_str())
}

/// Sort records from most recent to oldest. The result is a permutation of
/// the input.
#[verifier::loop_isolation(false)]
pub(crate) fn sort_commands_desc(commands: Vec<Command>) -> (r: Vec<Command>)
    ensures
        sorted_by_time_desc(r@),
        r@.to_multiset() == commands@.to_multiset(),
{
    broadcast use vstd::seq_lib::group_to_multiset_ensures;

    let ghost orig = commands@;
    let mut rest = commands;
    let mut out: Vec<Command> = Vec::new();
    proof {
        assert(out@.to_multiset().add(rest@.to_multiset()) =~= orig.to_multiset());
    }
    while rest.len() > 0
        invariant
            sorted_by_time_desc(out@),
            out@.to_multiset().add(rest@.to_multiset()) == orig.to_multiset(),
            forall|i: int, j: int|
                0 <= i < out@.len() && 0 <= j < rest@.len() ==> out@[i].started_at
                    >= rest@[j].started_at,
        decreases rest@.len(),
    {
        let mut best: usize = 0;
        let mut idx: usize = 1;
        while idx < rest.len()
            invariant
                rest@.len() > 0,
                best < idx <= rest@.len(),
                forall|t: int| 0 <= t < idx ==> rest@[t].started_at <= rest@[best as int].started_at,
            decreases rest@.len() - idx,
        {
            if rest[idx].started_at > rest[best].started_at {
                best = idx;
            }
            idx += 1;
        }
        let x = rest.remove(best);
        proof {
            assert(out@.push(x).to_multiset().add(rest@.to_multiset()) =~= orig.to_multiset());
            assert(forall|j: int|
                0 <= j < rest@.len() ==> x.started_at >= #[trigger] rest@[j].started_at);
        }
        out.push(x);
    }
    proof {
        assert(rest@.to_multiset().len() == 0);
        assert(out@.to_multiset().add(rest@.to_multiset()) =~= out@.to_multiset());
    }
    out
}

/// Keep only the `limit` most recent of the given records, most recent
/// first.
///
/// The result is sorted from most recent to oldest, holds
/// `min(limit, n)` of the input records, and any input record left out is no
/// more recent than any record kept.
#[verifier::loop_isolation(false)]
pub fn take_most_recent(commands: Vec<Command>, limit: usize) -> (r: Vec<Command>)
    ensures
        r@.len() == vstd::math::min(commands@.len() as int, limit as int),
        sorted_by_time_desc(r@),
        forall|c: Command| #[trigger]
            r@.to_multiset().count(c) <= commands@.to_multiset().count(c),
        forall|c: Command|
            #[trigger] commands@.to_multiset().count(c) > r@.to_multiset().count(c) ==> forall|
                i: int,
            | 0 <= i < r@.len() ==> c.started_at <= r@[i].started_at,
{
    broadcast use vstd::seq_lib::group_to_multiset_ensures;

    let ghost orig = commands@;
    let mut v = sort_commands_desc(commands);
    proof {
        assert(v@.len() == v@.to_multiset().len());
        assert(orig.len() == orig.to_multiset().len());
    }
    while v.len() > limit
        invariant
            sorted_by_time_desc(v@),
            v@.len() <= orig.len(),
            v@.len() >= limit || v@.len() == orig.len(),
            forall|c: Command| #[trigger] v@.to_multiset().count(c) <= orig.to_multiset().count(c),
            forall|c: Command|
                #[trigger] orig.to_multiset().count(c) > v@.to_multiset().count(c) ==> forall|
                    i: int,
                | 0 <= i < v@.len() ==> c.started_at <= v@[i].started_at,
        decreases v@.len(),
    {
        let ghost prev = v@;
        let _popped = v.pop();
        proof {
            assert(prev.drop_last() =~= prev.remove(prev.len() - 1));
            assert(v@.to_multiset() =~= prev.to_multiset().remove(prev.last()));
            assert forall|c: Command| #[trigger] orig.to_multiset().count(c)
                > v@.to_multiset().count(c) implies forall|i: int|
                0 <= i < v@.len() ==> c.started_at <= v@[i].started_at by {
                if orig.to_multiset().count(c) > prev.to_multiset().count(c) {
                } else {
                    assert(c == prev.last());
                    assert(forall|i: int|
                        0 <= i < v@.len() ==> #[trigger] v@[i].started_at >= prev.last().started_at);
                }
            }
        }
    }
    v
}

/// Search stored records for those matching a query, most recent first,
/// at most `limit` of them.
///
/// A record matches when the lowercased query occurs in its lowercased
/// command line, working directory, or output. The result holds the
/// `min(limit, m)` most recent of the `m` matching records, most recent
/// first: any matching record left out is no more recent than any returned.
#[verifier::loop_isolation(false)]
pub fn search_commands(commands: Vec<Command>, query: &str, limit: usize) -> (r: Vec<Command>)
    ensures
        ({
            let q = lowercased(query@);
            let m = commands@.filter(|c: Command| cmd_matches(c, q));
            r@.len() == vstd::math::min(m.len() as int, limit as int) && sorted_by_time_desc(r@)
                && (forall|i: int| 0 <= i < r@.len() ==> cmd_matches(#[trigger] r@[i], q)) && (forall|
                c: Command,
            | #[trigger] r@.to_multiset().count(c) <= m.to_multiset().count(c)) && (forall|
                c: Command,
            |
                #[trigger] m.to_multiset().count(c) > r@.to_multiset().count(c) ==> forall|i: int|
                    0 <= i < r@.len() ==> c.started_at <= r@[i].started_at)
        }),
{
    broadcast use vstd::seq_lib::group_to_multiset_ensures;

    let ghost orig = commands@;
    let ghost q = lowercased(query@);
    let ghost pred = |c: Command| cmd_matches(c, q);
    let q_lower = to_lowercase_string(query);
    let mut rest = commands;
    let mut kept: Vec<Command> = Vec::new();
    let ghost mut i: int = 0;
    proof {
        assert(orig.take(0).filter(pred) =~= Seq::<Command>::empty());
        assert(rest@ =~= orig.skip(0));
    }
    while rest.len() > 0
        invariant
            0 <= i <= orig.len(),
            rest@ == orig.skip(i),
            kept@ == orig.take(i).filter(pred),
        decreases rest@.len(),
    {
        let c = rest.remove(0);
        proof {
            assert(c == orig[i]);
            assert(orig.take(i + 1).drop_last() =~= orig.take(i));
            assert(orig.take(i + 1).last() == orig[i]);
            reveal(Seq::filter);
        }
        if cmd_matches_exec(&c, &q_lower) {
            kept.push(c);
        }
        proof {
            assert(rest@ =~= orig.skip(i + 1));
            i = i + 1;
        }
    }
    proof {
        assert(orig.take(i) =~= orig);
        assert(pred =~= (|c: Command| cmd_matches(c, q)));
    }
    let r = take_most_recent(kept, limit);
    proof {
        let m = orig.filter(pred);
        assert forall|j: int| 0 <= j < r@.len() implies cmd_matches(#[trigger] r@[j], q) by {
            assert(r@.to_multiset().count(r@[j]) > 0);
            assert(m.to_multiset().count(r@[j]) > 0);
            assert(m.contains(r@[j]));
            let w = choose|w: int| 0 <= w < m.len() && m[w] == r@[j];
            assert(pred(m[w]));
        }
    }
    r
}

/// The most recent stored records, most recent first, at most `limit` of
/// them. Any record left out is no more recent than any returned.
pub fn get_recent_commands(commands: Vec<Command>, limit: usize) -> (r: Vec<Command>)
    ensures
        r@.len() == vstd::math::min(commands@.len() as int, limit as int),
        sorted_by_time_desc(r@),
        forall|c: Command| #[trigger]
            r@.to_multiset().count(c) <= commands@.to_multiset().count(c),
        forall|c: Command|
            #[trigger] commands@.to_multiset().count(c) > r@.to_multiset().count(c) ==> forall|
                i: int,
            | 0 <= i < r@.len() ==> c.started_at <= r@[i].started_at,
{
    take_most_recent(commands, limit)
}

/// Records ordered from oldest to most recent.
pub open spec fn sorted_by_time_asc(s: Seq<Command>) -> bool {
    forall|i: int, j: int| 0 <= i < j < s.len() ==> s[i].started_at <= s[j].started_at
}

/// Keep, in stored order, exactly the records of one session.
#[verifier::loop_isolation(false)]
pub fn filter_by_session(commands: Vec<Command>, session_id: &str) -> (r: Vec<Command>)
    ensures
        r@ == commands@.filter(|c: Command| c.session_id@ == session_id@),
{
    let ghost orig = commands@;
    let ghost pred = |c: Command| c.session_id@ == session_id@;
    let mut rest = commands;
    let mut kept: Vec<Command> = Vec::new();
    let ghost mut i: int = 0;
    proof {
        assert(orig.take(0).filter(pred) =~= Seq::<Command>::empty());
        assert(rest@ =~= orig.skip(0));
    }
    while rest.len() > 0
        invariant
            0 <= i <= orig.len(),
            rest@ == orig.skip(i),
            kept@ == orig.take(i).filter(pred),
        decreases rest@.len(),
    {
        let c = rest.remove(0);
        proof {
            assert(c == orig[i]);
            assert(orig.take(i + 1).drop_last() =~= orig.take(i));
            assert(orig.take(i + 1).last() == orig[i]);
            reveal(Seq::filter);
        }
        if str_eq(c.session_id.as_str(), session_id) {
            kept.push(c);
        }
        proof {
            assert(rest@ =~= orig.skip(i + 1));
            i = i + 1;
        }
    }
    proof {
        assert(orig.take(i) =~= orig);
        assert(pred =~= (|c: Command| c.session_id@ == session_id@));
    }
    kept
}

/// Keep, in stored order, exactly the records whose lowercased command line
/// contains the lowercased query.
#[verifier::loop_isolation(false)]
pub fn filter_by_query(commands: Vec<Command>, query: &str) -> (r: Vec<Command>)
    ensures
        r@ == commands@.filter(
            |c: Command| is_substring(lowercased(query@), lowercased(c.command@)),
        ),
{
    let ghost orig = commands@;
    let ghost pred = |c: Command| is_substring(lowercased(query@), lowercased(c.command@));
    let q_lower = to_lowercase_string(query);
    let mut rest = commands;
    let mut kept: Vec<Command> = Vec::new();
    let ghost mut i: int = 0;
    proof {
        assert(orig.take(0).filter(pred) =~= Seq::<Command>::empty());
        assert(rest@ =~= orig.skip(0));
    }
    while rest.len() > 0
        invariant
            0 <= i <= orig.len(),
            rest@ == orig.skip(i),
            kept@ == orig.take(i).filter(pred),
        decreases rest@.len(),
    {
        let c = rest.remove(0);
        proof {
            assert(c == orig[i]);
            assert(orig.take(i + 1).drop_last() =~= orig.take(i));
            assert(orig.take(i + 1).last() == orig[i]);
            reveal(Seq::filter);
        }
        let lc = to_lowercase_string(c.command.as_str());
        if contains_str(lc.as_str(), q_lower.as_str()) {
            kept.push(c);
        }
        proof {
            assert(rest@ =~= orig.skip(i + 1));
            i = i + 1;
        }
    }
    proof {
        assert(orig.take(i) =~= orig);
        assert(pred =~= (
        |c: Command| is_substring(lowercased(query@), lowercased(c.command@))));
    }
    kept
}

/// Sort records from oldest to most recent. The result is a permutation of
/// the input.
#[verifier::loop_isolation(false)]
pub fn sort_commands_asc(commands: Vec<Command>) -> (r: Vec<Command>)
    ensures
        sorted_by_time_asc(r@),
        r@.to_multiset() == commands@.to_multiset(),
{
    broadcast use vstd::seq_lib::group_to_multiset_ensures;

    let ghost orig = commands@;
    let mut rest = commands;
    let mut out: Vec<Command> = Vec::new();
    proof {
        assert(out@.to_multiset().add(rest@.to_multiset()) =~= orig.to_multiset());
    }
    while rest.len() > 0
        invariant
            sorted_by_time_asc(out@),
            out@.to_multiset().add(rest@.to_multiset()) == orig.to_multiset(),
            forall|i: int, j: int|
                0 <= i < out@.len() && 0 <= j < rest@.len() ==> out@[i].started_at
                    <= rest@[j].started_at,
        decreases rest@.len(),
    {
        let mut best: usize = 0;
        let mut idx: usize = 1;
        while idx < rest.len()
            invariant
                rest@.len() > 0,
                best < idx <= rest@.len(),
                forall|t: int| 0 <= t < idx ==> rest@[t].started_at >= rest@[best as int].started_at,
            decreases rest@.len() - idx,
        {
            if rest[idx].started_at < rest[best].started_at {
                best = idx;
            }
            idx += 1;
        }
        let x = rest.remove(best);
        proof {
            assert(out@.push(x).to_multiset().add(rest@.to_multiset()) =~= orig.to_multiset());
            assert(forall|j: int|
                0 <= j < rest@.len() ==> x.started_at <= #[trigger] rest@[j].started_at);
        }
        out.push(x);
    }
    proof {
        assert(rest@.to_multiset().len() == 0);
        assert(out@.to_multiset().add(rest@.to_multiset()) =~= out@.to_multiset());
    }
    out
}

/// Index of the first session carrying the identifier, or `-1` when none
/// does.
pub open spec fn first_session_match(s: Seq<Session>, id: Seq<char>) -> int
    decreases s.len(),
{
    if s.len() == 0 {
        -1
    } else if s[0].id@ == id {
        0
    } else {
        let rest = first_session_match(s.drop_first(), id);
        if rest < 0 {
            -1
        } else {
            1 + rest
        }
    }
}

proof fn lemma_first_session_match_at(s: Seq<Session>, id: Seq<char>, k: int)
    requires
        0 <= k <= s.len(),
        forall|j: int| 0 <= j < k ==> s[j].id@ != id,
        k < s.len() ==> s[k].id@ == id,
    ensures
        first_session_match(s, id) == if k < s.len() {
            k
        } else {
            -1
        },
    decreases k,
{
    if k == 0 {
        if s.len() > 0 && s[0].id@ != id {
            lemma_first_session_match_none(s.drop_first(), id);
        }
    } else {
        lemma_first_session_match_at(s.drop_first(), id, k - 1);
    }
}

proof fn lemma_first_session_match_none(s: Seq<Session>, id: Seq<char>)
    requires
        forall|j: int| 0 <= j < s.len() ==> s[j].id@ != id,
    ensures
        first_session_match(s, id) == -1,
    decreases s.len(),
{
    if s.len() > 0 {
        lemma_first_session_match_none(s.drop_first(), id);
    }
}

/// Close a session: set the end time of the first stored session carrying
/// the identifier. Fails, leaving nothing changed, exactly when no stored
/// session carries it.
#[verifier::loop_isolation(false)]
pub fn update_session(sessions: Vec<Session>, session_id: &str, ended_at: i64) -> (r: Result<
    Vec<Session>,
    StorageError,
>)
    ensures
        ({
            let k = first_session_match(sessions@, session_id@);
            match r {
                Ok(v) => k >= 0 && v@ == sessions@.update(
                    k,
                    Session { ended_at: Some(ended_at), ..sessions@[k] },
                ),
                Err(e) => k == -1 && e == StorageError::SessionNotFound,
            }
        }),
{
    let ghost orig = sessions@;
    let mut v = sessions;
    let mut i: usize = 0;
    while i < v.len()
        invariant
            v@ == orig,
            i <= orig.len(),
            forall|j: int| 0 <= j < i ==> orig[j].id@ != session_id@,
        decreases orig.len() - i,
    {
        if str_eq(v[i].id.as_str(), session_id) {
            let mut s = v.remove(i);
            s.ended_at = Some(ended_at);
            v.insert(i, s);
            proof {
                lemma_first_session_match_at(orig, session_id@, i as int);
                assert(v@ =~= orig.update(
                    i as int,
                    Session { ended_at: Some(ended_at), ..orig[i as int] },
                ));
            }
            return Ok(v);
        }
        i += 1;
    }
    proof {
        lemma_first_session_match_none(orig, session_id@);
    }
    Err(StorageError::SessionNotFound)
}

/// Drop records older than the cutoff: keep, in stored order, exactly the
/// records started strictly after it, and report how many were dropped.
#[verifier::loop_isolation(false)]
pub fn cleanup_old_commands(commands: Vec<Command>, cutoff: i64) -> (r: (Vec<Command>, usize))
    ensures
        r.0@ == commands@.filter(|c: Command| c.started_at > cutoff),
        r.1 == commands@.len() - r.0@.len(),
{
    broadcast use vstd::seq_lib::group_filter_ensures;

    let ghost orig = commands@;
    let ghost pred = |c: Command| c.started_at > cutoff;
    let mut rest = commands;
    let total = rest.len();
    let mut kept: Vec<Command> = Vec::new();
    let ghost mut i: int = 0;
    proof {
        assert(orig.take(0).filter(pred) =~= Seq::<Command>::empty());
        assert(rest@ =~= orig.skip(0));
    }
    while rest.len() > 0
        invariant
            0 <= i <= orig.len(),
            rest@ == orig.skip(i),
            kept@ == orig.take(i).filter(pred),
        decreases rest@.len(),
    {
        let c = rest.remove(0);
        proof {
            assert(c == orig[i]);
            assert(orig.take(i + 1).drop_last() =~= orig.take(i));
            assert(orig.take(i + 1).last() == orig[i]);
            reveal(Seq::filter);
        }
        if c.started_at > cutoff {
            kept.push(c);
        }
        proof {
            assert(rest@ =~= orig.skip(i + 1));
            i = i + 1;
        }
    }
    proof {
        assert(orig.take(i) =~= orig);
        orig.lemma_filter_len(pred);
        assert(pred =~= (|c: Command| c.started_at > cutoff));
    }
    let removed = commands_len_minus(total, kept.len());
    (kept, removed)
}

/// Subtract the kept count from the total.
fn commands_len_minus(total: usize, kept: usize) -> (r: usize)
    requires
        kept <= total,
    ensures
        r == total - kept,
{
    total - kept
}

/// How many records carry exactly this command line.
pub open spec fn count_occurrences(s: Seq<Command>, name: Seq<char>) -> int {
    s.filter(|c: Command| c.command@ == name).len() as int
}

/// How many records exited with code 0.
pub open spec fn count_successful(s: Seq<Command>) -> int {
    s.filter(|c: Command| c.exit_code == 0).len() as int
}

/// Some record carries this command line.
pub open spec fn appears(s: Seq<Command>, name: Seq<char>) -> bool {
    exists|i: int| 0 <= i < s.len() && #[trigger] s[i].command@ == name
}

/// This command line is one of the listed keys.
pub open spec fn key_listed(u: Seq<(String, usize)>, name: Seq<char>) -> bool {
    exists|i: int| 0 <= i < u.len() && #[trigger] u[i].0@ == name
}

/// No two entries share a command line.
pub open spec fn distinct_keys(u: Seq<(String, usize)>) -> bool {
    forall|i: int, j: int| 0 <= i < j < u.len() ==> u[i].0@ != u[j].0@
}

/// Entries ordered from most used to least used.
pub open spec fn sorted_by_count_desc(u: Seq<(String, usize)>) -> bool {
    forall|i: int, j: int| 0 <= i < j < u.len() ==> u[i].1 >= u[j].1
}

/// Count how often each distinct command line occurs: one entry per distinct
/// line, carrying its exact number of occurrences.
#[verifier::loop_isolation(false)]
fn count_usage(commands: &Vec<Command>) -> (pairs: Vec<(String, usize)>)
    ensures
        distinct_keys(pairs@),
        forall|p: int|
            0 <= p < pairs@.len() ==> #[trigger] pairs@[p].1 == count_occurrences(
                commands@,
                pairs@[p].0@,
            ) && appears(commands@, pairs@[p].0@),
        forall|n: Seq<char>| #[trigger] appears(commands@, n) ==> key_listed(pairs@, n),
{
    broadcast use vstd::seq_lib::group_filter_ensures;

    let mut pairs: Vec<(String, usize)> = Vec::new();
    let mut i: usize = 0;
    proof {
        assert(commands@.take(0) =~= Seq::<Command>::empty());
    }
    while i < commands.len()
        invariant
            i <= commands@.len(),
            distinct_keys(pairs@),
            forall|p: int|
                0 <= p < pairs@.len() ==> #[trigger] pairs@[p].1 == count_occurrences(
                    commands@.take(i as int),
                    pairs@[p].0@,
                ) && appears(commands@.take(i as int), pairs@[p].0@),
            forall|n: Seq<char>|
                #[trigger] appears(commands@.take(i as int), n) ==> key_listed(pairs@, n),
        decreases commands@.len() - i,
    {
        proof {
            assert(commands@.take(i + 1).drop_last() =~= commands@.take(i as int));
            assert(commands@.take(i + 1).last() == commands@[i as int]);
            reveal(Seq::filter);
            assert forall|n: Seq<char>|
                count_occurrences(commands@.take(i + 1), n) == count_occurrences(
                    commands@.take(i as int),
                    n,
                ) + if commands@[i as int].command@ == n {
                    1int
                } else {
                    0int
                } by {
                assert(commands@.take(i + 1).drop_last() =~= commands@.take(i as int));
            }
        }
        let name = &commands[i].command;
        let mut j: usize = 0;
        let mut found = false;
        while j < pairs.len()
            invariant
                j <= pairs@.len(),
                !found ==> forall|t: int| 0 <= t < j ==> pairs@[t].0@ != name@,
                found ==> j < pairs@.len() && pairs@[j as int].0@ == name@,
            decreases pairs@.len() - j,
        {
            if str_eq(pairs[j].0.as_str(), name.as_str()) {
                found = true;
                break ;
            }
            j += 1;
        }
        if found {
            let ghost old_pairs = pairs@;
            let entry = pairs.remove(j);
            proof {
                commands@.take(i as int).lemma_filter_len(
                    |c: Command| c.command@ == entry.0@,
                );
            }
            pairs.insert(j, (entry.0, entry.1 + 1));
            proof {
                assert(pairs@ =~= old_pairs.update(j as int, (entry.0, (entry.1 + 1) as usize)));
                assert(pairs@[j as int].0@ == name@);
                assert forall|p: int|
                    0 <= p < pairs@.len() implies #[trigger] pairs@[p].1 == count_occurrences(
                        commands@.take(i + 1),
                        pairs@[p].0@,
                    ) && appears(commands@.take(i + 1), pairs@[p].0@) by {
                    assert(commands@.take(i + 1)[i as int].command@ == commands@[
                        i as int
                    ].command@);
                    if p != j {
                        assert(pairs@[p] == old_pairs[p]);
                        assert(old_pairs[p].0@ != name@);
                        assert(old_pairs[p].1 == count_occurrences(
                            commands@.take(i as int),
                            old_pairs[p].0@,
                        ));
                        assert(appears(commands@.take(i as int), old_pairs[p].0@));
                        let w = choose|w: int|
                            0 <= w < commands@.take(i as int).len() && #[trigger] commands@.take(
                                i as int,
                            )[w].command@ == old_pairs[p].0@;
                        assert(commands@.take(i + 1)[w].command@ == old_pairs[p].0@);
                        assert(appears(commands@.take(i + 1), pairs@[p].0@));
                    } else {
                        assert(commands@.take(i + 1)[i as int].command@ == pairs@[p].0@);
                        assert(appears(commands@.take(i + 1), pairs@[p].0@));
                    }
                }
                assert forall|n: Seq<char>| #[trigger]
                    key_listed(old_pairs, n) implies key_listed(pairs@, n) by {
                    let t = choose|t: int| 0 <= t < old_pairs.len() && #[trigger] old_pairs[t].0@
                        == n;
                    assert(pairs@[t].0@ == n);
                }
            }
        } else {
            proof {
                assert(!appears(commands@.take(i as int), name@)) by {
                    if appears(commands@.take(i as int), name@) {
                        let t = choose|t: int|
                            0 <= t < pairs@.len() && #[trigger] pairs@[t].0@ == name@;
                    }
                }
                assert(count_occurrences(commands@.take(i as int), name@) == 0) by {
                    let prefix = commands@.take(i as int);
                    let f = prefix.filter(|c: Command| c.command@ == name@);
                    if f.len() > 0 {
                        assert(f[0].command@ == name@);
                        assert(f.contains(f[0]));
                        prefix.lemma_filter_contains_rev(|c: Command| c.command@ == name@, f[0]);
                        assert(prefix.contains(f[0]));
                        let w = choose|w: int| 0 <= w < prefix.len() && prefix[w] == f[0];
                        assert(prefix[w].command@ == name@);
                        assert(appears(prefix, name@));
                    }
                }
            }
            let ghost old_pairs = pairs@;
            pairs.push((name.clone(), 1));
            proof {
                assert(commands@.take(i + 1)[i as int].command@ == name@);
                assert(pairs@[pairs@.len() - 1].0@ == name@);
                assert forall|n: Seq<char>| #[trigger]
                    key_listed(old_pairs, n) implies key_listed(pairs@, n) by {
                    let t = choose|t: int| 0 <= t < old_pairs.len() && #[trigger] old_pairs[t].0@
                        == n;
                    assert(pairs@[t].0@ == n);
                }
            }
        }
        proof {
            assert(key_listed(pairs@, commands@[i as int].command@));
            assert forall|n: Seq<char>| #[trigger]
                appears(commands@.take(i + 1), n) implies key_listed(pairs@, n) by {
                if n == commands@[i as int].command@ {
                } else {
                    let w = choose|w: int|
                        0 <= w < commands@.take(i + 1).len() && #[trigger] commands@.take(i + 1)[
                            w
                        ].command@ == n;
                    assert(commands@.take(i as int)[w].command@ == n);
                    assert(appears(commands@.take(i as int), n));
                }
            }
        }
        i += 1;
    }
    proof {
        assert(commands@.take(commands@.len() as int) =~= commands@);
    }
    pairs
}

/// Sort usage entries from most used to least used. The result is a
/// permutation of the input.
#[verifier::loop_isolation(false)]
fn sort_pairs_desc(pairs: Vec<(String, usize)>) -> (r: Vec<(String, usize)>)
    ensures
        sorted_by_count_desc(r@),
        r@.to_multiset() == pairs@.to_multiset(),
{
    broadcast use vstd::seq_lib::group_to_multiset_ensures;

    let ghost orig = pairs@;
    let mut rest = pairs;
    let mut out: Vec<(String, usize)> = Vec::new();
    proof {
        assert(out@.to_multiset().add(rest@.to_multiset()) =~= orig.to_multiset());
    }
    while rest.len() > 0
        invariant
            sorted_by_count_desc(out@),
            out@.to_multiset().add(rest@.to_multiset()) == orig.to_multiset(),
            forall|i: int, j: int|
                0 <= i < out@.len() && 0 <= j < rest@.len() ==> out@[i].1 >= rest@[j].1,
        decreases rest@.len(),
    {
        let mut best: usize = 0;
        let mut idx: usize = 1;
        while idx < rest.len()
            invariant
                rest@.len() > 0,
                best < idx <= rest@.len(),
                forall|t: int| 0 <= t < idx ==> rest@[t].1 <= rest@[best as int].1,
            decreases rest@.len() - idx,
        {
            if rest[idx].1 > rest[best].1 {
                best = idx;
            }
            idx += 1;
        }
        let x = rest.remove(best);
        proof {
            assert(out@.push(x).to_multiset().add(rest@.to_multiset()) =~= orig.to_multiset());
            assert(forall|j: int| 0 <= j < rest@.len() ==> x.1 >= #[trigger] rest@[j].1);
        }
        out.push(x);
    }
    proof {
        assert(rest@.to_multiset().len() == 0);
        assert(out@.to_multiset().add(rest@.to_multiset()) =~= out@.to_multiset());
    }
    out
}

/// The most used command lines, most used first, at most `top` of them.
///
/// Each entry carries a command line that occurs in the records and its
/// exact occurrence count; no line is listed twice; counts never increase
/// along the list; a line left unlisted occurs no more often than any listed
/// one; and the list is shorter than `top` only when every distinct line is
/// on it.
#[verifier::loop_isolation(false)]
pub fn most_used_commands(commands: &Vec<Command>, top: usize) -> (u: Vec<(String, usize)>)
    ensures
        u@.len() <= top,
        distinct_keys(u@),
        sorted_by_count_desc(u@),
        forall|p: int|
            0 <= p < u@.len() ==> #[trigger] u@[p].1 == count_occurrences(commands@, u@[p].0@)
                && appears(commands@, u@[p].0@),
        forall|n: Seq<char>|
            #[trigger] appears(commands@, n) && !key_listed(u@, n) ==> forall|p: int|
                0 <= p < u@.len() ==> count_occurrences(commands@, n) <= #[trigger] u@[p].1,
        u@.len() < top ==> forall|n: Seq<char>| #[trigger]
            appears(commands@, n) ==> key_listed(u@, n),
{
    broadcast use vstd::seq_lib::group_to_multiset_ensures;

    let pairs = count_usage(commands);
    let ghost p0 = pairs@;
    let mut v = sort_pairs_desc(pairs);
    proof {
        assert(v@.len() == v@.to_multiset().len());
        assert(p0.len() == p0.to_multiset().len());
        assert(p0.no_duplicates()) by {
            assert forall|a: int, b: int|
                0 <= a < p0.len() && 0 <= b < p0.len() && a != b implies p0[a] != p0[b] by {
                assert(p0[a].0@ != p0[b].0@);
            }
        }
        p0.lemma_multiset_has_no_duplicates();
        v@.lemma_multiset_has_no_duplicates_conv();
        assert forall|a: int, b: int| 0 <= a < b < v@.len() implies v@[a].0@ != v@[b].0@ by {
            assert(v@[a] != v@[b]);
            assert(p0.contains(v@[a])) by {
                assert(v@.contains(v@[a]));
                assert(p0.to_multiset().count(v@[a]) > 0);
            }
            assert(p0.contains(v@[b])) by {
                assert(v@.contains(v@[b]));
                assert(p0.to_multiset().count(v@[b]) > 0);
            }
            let ia = choose|w: int| 0 <= w < p0.len() && #[trigger] p0[w] == v@[a];
            let ib = choose|w: int| 0 <= w < p0.len() && #[trigger] p0[w] == v@[b];
            assert(p0[ia].0@ != p0[ib].0@ || ia == ib);
        }
        assert forall|n: Seq<char>| #[trigger] key_listed(p0, n) implies key_listed(v@, n) by {
            let w = choose|w: int| 0 <= w < p0.len() && #[trigger] p0[w].0@ == n;
            assert(p0.to_multiset().count(p0[w]) > 0) by {
                assert(p0.contains(p0[w]));
            }
            assert(v@.to_multiset().count(p0[w]) > 0);
            assert(v@.contains(p0[w]));
            let x = choose|x: int| 0 <= x < v@.len() && v@[x] == p0[w];
            assert(v@[x].0@ == n);
        }
        assert forall|p: int|
            0 <= p < v@.len() implies #[trigger] v@[p].1 == count_occurrences(
                commands@,
                v@[p].0@,
            ) && appears(commands@, v@[p].0@) by {
            assert(v@.to_multiset().count(v@[p]) > 0) by {
                assert(v@.contains(v@[p]));
            }
            assert(p0.to_multiset().count(v@[p]) > 0);
            assert(p0.contains(v@[p]));
            let w = choose|w: int| 0 <= w < p0.len() && p0[w] == v@[p];
            assert(v@[p] == p0[w]);
            assert(p0[w].1 == count_occurrences(commands@, p0[w].0@));
            assert(appears(commands@, p0[w].0@));
        }
    }
    while v.len() > top
        invariant
            distinct_keys(v@),
            sorted_by_count_desc(v@),
            v@.len() >= top || v@.len() == p0.len(),
            forall|p: int|
                0 <= p < v@.len() ==> #[trigger] v@[p].1 == count_occurrences(
                    commands@,
                    v@[p].0@,
                ) && appears(commands@, v@[p].0@),
            forall|n: Seq<char>|
                #[trigger] appears(commands@, n) && !key_listed(v@, n) ==> forall|p: int|
                    0 <= p < v@.len() ==> count_occurrences(commands@, n) <= #[trigger] v@[p].1,
            v@.len() < top ==> forall|n: Seq<char>| #[trigger]
                appears(commands@, n) ==> key_listed(v@, n),
        decreases v@.len(),
    {
        let ghost prev = v@;
        let _popped = v.pop();
        proof {
            assert(v@ == prev.drop_last());
            assert forall|n: Seq<char>|
                #[trigger] appears(commands@, n) && !key_listed(v@, n) implies forall|p: int|
                0 <= p < v@.len() ==> count_occurrences(commands@, n) <= #[trigger] v@[p].1 by {
                if key_listed(prev, n) {
                    let w = choose|w: int| 0 <= w < prev.len() && #[trigger] prev[w].0@ == n;
                    assert(w == prev.len() - 1) by {
                        if w < prev.len() - 1 {
                            assert(v@[w] == prev[w]);
                            assert(key_listed(v@, n));
                        }
                    }
                    assert(prev[w].1 == count_occurrences(commands@, n));
                    assert(forall|p: int|
                        0 <= p < v@.len() ==> #[trigger] prev[p].1 >= prev[w].1);
                    assert(forall|p: int| 0 <= p < v@.len() ==> v@[p] == prev[p]);
                } else {
                    assert(forall|p: int| 0 <= p < v@.len() ==> v@[p] == prev[p]);
                }
            }
        }
    }
    v
}

/// Statistics over the stored records: totals, the count of successful
/// commands, and the ten most used command lines.
pub fn get_stats(commands: &Vec<Command>, total_sessions: usize) -> (r: crate::models::Stats)
    ensures
        r.total_commands == commands@.len(),
        r.total_sessions == total_sessions,
        r.successful_commands == count_successful(commands@),
        r.most_used_commands@.len() <= 10,
        distinct_keys(r.most_used_commands@),
        sorted_by_count_desc(r.most_used_commands@),
        forall|p: int|
            0 <= p < r.most_used_commands@.len() ==> #[trigger] r.most_used_commands@[p].1
                == count_occurrences(commands@, r.most_used_commands@[p].0@) && appears(
                commands@,
                r.most_used_commands@[p].0@,
            ),
        forall|n: Seq<char>|
            #[trigger] appears(commands@, n) && !key_listed(r.most_used_commands@, n)
                ==> forall|p: int|
                0 <= p < r.most_used_commands@.len() ==> count_occurrences(commands@, n)
                    <= #[trigger] r.most_used_commands@[p].1,
        r.most_used_commands@.len() < 10 ==> forall|n: Seq<char>| #[trigger]
            appears(commands@, n) ==> key_listed(r.most_used_commands@, n),
{
    let successful = count_successful_exec(commands);
    let most_used = most_used_commands(commands, 10);
    crate::models::Stats {
        total_commands: commands.len(),
        total_sessions,
        successful_commands: successful,
        most_used_commands: most_used,
    }
}

/// Sum of the records' durations, in milliseconds.
pub open spec fn total_duration(s: Seq<Command>) -> int
    decreases s.len(),
{
    if s.len() == 0 {
        0
    } else {
        total_duration(s.drop_last()) + s.last().duration_ms
    }
}

proof fn lemma_total_duration_bound(s: Seq<Command>)
    ensures
        0 <= total_duration(s) <= s.len() * (u64::MAX as int),
    decreases s.len(),
{
    if s.len() > 0 {
        lemma_total_duration_bound(s.drop_last());
        assert(s.len() * (u64::MAX as int) == (s.len() - 1) * (u64::MAX as int) + u64::MAX)
            by (nonlinear_arith);
    }
}

/// The mean duration over the records, in whole milliseconds.
#[verifier::loop_isolation(false)]
pub fn average_duration(commands: &Vec<Command>) -> (r: u64)
    requires
        commands@.len() > 0,
    ensures
        r == total_duration(commands@) / commands@.len() as int,
{
    let n = commands.len();
    let mut sum: u128 = 0;
    let mut i: usize = 0;
    proof {
        assert(commands@.take(0) =~= Seq::<Command>::empty());
    }
    while i < n
        invariant
            i <= n,
            sum == total_duration(commands@.take(i as int)),
        decreases n - i,
    {
        proof {
            assert(commands@.take(i + 1).drop_last() =~= commands@.take(i as int));
            lemma_total_duration_bound(commands@.take(i as int));
            assert((i as int) * (u64::MAX as int) + u64::MAX < u128::MAX) by (nonlinear_arith)
                requires
                    0 <= i < 0x1_0000_0000_0000_0000,
            ;
        }
        sum = sum + (commands[i].duration_ms as u128);
        i += 1;
    }
    proof {
        assert(commands@.take(n as int) =~= commands@);
        lemma_total_duration_bound(commands@);
        vstd::arithmetic::div_mod::lemma_div_is_ordered(
            sum as int,
            (n as int) * (u64::MAX as int),
            n as int,
        );
        vstd::arithmetic::div_mod::lemma_div_by_multiple(u64::MAX as int, n as int);
        assert((n as int) * (u64::MAX as int) == (u64::MAX as int) * (n as int))
            by (nonlinear_arith);
    }
    let avg = sum / (n as u128);
    avg as u64
}

/// The position of a longest-running record — the last one at the maximum —
/// or nothing when there are no records.
pub fn longest_command_index(commands: &Vec<Command>) -> (r: Option<usize>)
    ensures
        match r {
            Some(i) => i < commands@.len() && (forall|j: int|
                0 <= j < commands@.len() ==> (#[trigger] commands@[j].duration_ms)
                    <= commands@[i as int].duration_ms) && (forall|j: int|
                i < j < commands@.len() ==> (#[trigger] commands@[j].duration_ms)
                    < commands@[i as int].duration_ms),
            None => commands@.len() == 0,
        },
{
    let n = commands.len();
    if n == 0 {
        return None;
    }
    let mut best: usize = 0;
    let mut idx: usize = 1;
    while idx < n
        invariant
            n == commands@.len(),
            best < idx <= n,
            forall|j: int|
                0 <= j < idx ==> (#[trigger] commands@[j].duration_ms) <= commands@[
                    best as int
                ].duration_ms,
            forall|j: int|
                best < j < idx ==> (#[trigger] commands@[j].duration_ms) < commands@[
                    best as int
                ].duration_ms,
        decreases n - idx,
    {
        if commands[idx].duration_ms >= commands[best].duration_ms {
            best = idx;
        }
        idx += 1;
    }
    Some(best)
}

/// Count the records that exited with code 0.
#[verifier::loop_isolation(false)]
fn count_successful_exec(commands: &Vec<Command>) -> (r: usize)
    ensures
        r == count_successful(commands@),
{
    broadcast use vstd::seq_lib::group_filter_ensures;

    let mut n: usize = 0;
    let mut i: usize = 0;
    proof {
        assert(commands@.take(0) =~= Seq::<Command>::empty());
    }
    while i < commands.len()
        invariant
            i <= commands@.len(),
            n == count_successful(commands@.take(i as int)),
        decreases commands@.len() - i,
    {
        proof {
            assert(commands@.take(i + 1).drop_last() =~= commands@.take(i as int));
            assert(commands@.take(i + 1).last() == commands@[i as int]);
            reveal(Seq::filter);
            commands@.take(i as int).lemma_filter_len(|c: Command| c.exit_code == 0);
        }
        if commands[i].exit_code == 0 {
            n += 1;
        }
        i += 1;
    }
    proof {
        assert(commands@.take(commands@.len() as int) =~= commands@);
    }
    n
}

} // verus!
