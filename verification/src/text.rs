//! Text helpers shared by the search, display and recording layers: substring
//! search, display shortening, decimal rendering, and lowercase folding.

use vstd::prelude::*;

verus! {

/// `needle` occurs contiguously somewhere inside `hay`.
pub open spec fn is_substring(needle: Seq<char>, hay: Seq<char>) -> bool {
    exists|k: int|
        0 <= k <= hay.len() - needle.len() && #[trigger] hay.subrange(k, k + needle.len())
            == needle
}

/// `hay` has a copy of `needle` starting at position `k`.
fn matches_at(hay: &str, needle: &str, k: usize, nn: usize) -> (r: bool)
    requires
        nn == needle@.len(),
        k + nn <= hay@.len(),
        hay@.len() <= usize::MAX,
    ensures
        r == (hay@.subrange(k as int, k + nn) == needle@),
{
    let mut j: usize = 0;
    while j < nn
        invariant
            nn == needle@.len(),
            k + nn <= hay@.len(),
            hay@.len() <= usize::MAX,
            j <= nn,
            forall|t: int| 0 <= t < j ==> hay@[k + t] == needle@[t],
        decreases nn - j,
    {
        if hay.get_char(k + j) != needle.get_char(j) {
            proof {
                assert(hay@.subrange(k as int, k + nn)[j as int] != needle@[j as int]);
            }
            return false;
        }
        j += 1;
    }
    proof {
        assert(hay@.subrange(k as int, k + nn) =~= needle@);
    }
    true
}

/// Whether `hay` contains `needle` as a contiguous run of characters.
/// An empty needle is contained in every string.
pub fn contains_str(hay: &str, needle: &str) -> (r: bool)
    ensures
        r == is_substring(needle@, hay@),
{
    let hn = hay.unicode_len();
    let nn = needle.unicode_len();
    if nn > hn {
        return false;
    }
    if nn == 0 {
        proof {
            assert(hay@.subrange(0, 0 + needle@.len() as int) =~= needle@);
            assert(is_substring(needle@, hay@));
        }
        return true;
    }
    let mut k: usize = 0;
    while k <= hn - nn
        invariant
            hn == hay@.len(),
            nn == needle@.len(),
            1 <= nn <= hn,
            k <= hn - nn + 1,
            forall|t: int| 0 <= t < k ==> #[trigger] hay@.subrange(t, t + nn) != needle@,
        decreases hn - nn + 1 - k,
    {
        if matches_at(hay, needle, k, nn) {
            proof {
                assert(is_substring(needle@, hay@)) by {
                    assert(hay@.subrange(k as int, k + nn) == needle@);
                }
            }
            return true;
        }
        k += 1;
    }
    false
}

/// Whether two strings hold the same characters.
pub fn str_eq(a: &str, b: &str) -> (r: bool)
    ensures
        r == (a@ == b@),
{
    let an = a.unicode_len();
    let bn = b.unicode_len();
    if an != bn {
        return false;
    }
    let mut j: usize = 0;
    while j < an
        invariant
            an == a@.len(),
            an == b@.len(),
            j <= an,
            forall|t: int| 0 <= t < j ==> a@[t] == b@[t],
        decreases an - j,
    {
        if a.get_char(j) != b.get_char(j) {
            return false;
        }
        j += 1;
    }
    proof {
        assert(a@ =~= b@);
    }
    true
}

/// The result of folding a string to lower case. The mapping depends on the
/// characters alone; its full definition lives with the Unicode tables.
pub uninterp spec fn lowercased(s: Seq<char>) -> Seq<char>;

/// Relies on str::to_lowercase: folds a string to lower case, a function of
/// the input characters alone.
#[verifier::external_body]
pub(crate) fn to_lowercase_string(s: &str) -> (r: String)
    ensures
        r@ == lowercased(s@),
{
    s.to_lowercase()
}

/// Shorten text for display: text of at most `limit` characters is returned
/// unchanged; longer text is cut to its first `keep` characters with `"..."`
/// appended.
pub fn ellipsize_end(s: &str, limit: usize, keep: usize) -> (r: String)
    requires
        keep <= limit,
    ensures
        s@.len() <= limit ==> r@ == s@,
        s@.len() > limit ==> r@ == s@.subrange(0, keep as int) + "..."@,
{
    let n = s.unicode_len();
    if n <= limit {
        s.to_owned()
    } else {
        let head = s.substring_char(0, keep);
        head.to_owned().concat("...")
    }
}

/// Shorten a path-like text for display: text of at most `limit` characters is
/// returned unchanged; longer text keeps only its last `keep` characters with
/// `"..."` prepended.
pub fn ellipsize_start(s: &str, limit: usize, keep: usize) -> (r: String)
    requires
        keep <= limit,
    ensures
        s@.len() <= limit ==> r@ == s@,
        s@.len() > limit ==> r@ == "..."@ + s@.subrange(s@.len() - keep, s@.len() as int),
{
    let n = s.unicode_len();
    if n <= limit {
        s.to_owned()
    } else {
        let tail = s.substring_char(n - keep, n);
        String::from_str("...").concat(tail)
    }
}

/// The character for one decimal digit.
pub open spec fn dec_digit(d: int) -> char
    recommends
        0 <= d < 10,
{
    seq!['0', '1', '2', '3', '4', '5', '6', '7', '8', '9'][d]
}

/// The decimal numeral of a non-negative number, most significant digit first.
pub open spec fn dec_nat(n: int) -> Seq<char>
    recommends
        n >= 0,
    decreases n,
{
    if n < 10 {
        seq![dec_digit(n)]
    } else {
        dec_nat(n / 10) + seq![dec_digit(n % 10)]
    }
}

/// One decimal digit as text.
fn digit_str(d: u64) -> (r: &'static str)
    requires
        d < 10,
    ensures
        r@ == seq![dec_digit(d as int)],
{
    let r = match d {
        0 => "0",
        1 => "1",
        2 => "2",
        3 => "3",
        4 => "4",
        5 => "5",
        6 => "6",
        7 => "7",
        8 => "8",
        _ => "9",
    };
    proof {
        reveal_strlit("0");
        reveal_strlit("1");
        reveal_strlit("2");
        reveal_strlit("3");
        reveal_strlit("4");
        reveal_strlit("5");
        reveal_strlit("6");
        reveal_strlit("7");
        reveal_strlit("8");
        reveal_strlit("9");
        assert(r@ =~= seq![dec_digit(d as int)]);
    }
    r
}

/// Render a number in decimal.
pub fn u64_to_dec(n: u64) -> (r: String)
    ensures
        r@ == dec_nat(n as int),
    decreases n,
{
    if n < 10 {
        digit_str(n).to_owned()
    } else {
        let prefix = u64_to_dec(n / 10);
        let r = prefix.concat(digit_str(n % 10));
        proof {
            assert(r@ =~= dec_nat(n as int));
        }
        r
    }
}

/// Render a machine-size count in decimal.
pub fn usize_to_dec(n: usize) -> (r: String)
    ensures
        r@ == dec_nat(n as int),
{
    u64_to_dec(n as u64)
}

/// The decimal numeral of a number, with a leading minus sign when it is
/// negative.
pub open spec fn dec_int(n: int) -> Seq<char> {
    if n < 0 {
        seq!['-'] + dec_nat(-n)
    } else {
        dec_nat(n)
    }
}

/// Render a signed number in decimal.
pub fn i32_to_dec(n: i32) -> (r: String)
    ensures
        r@ == dec_int(n as int),
{
    if n >= 0 {
        u64_to_dec(n as u64)
    } else {
        let magnitude = (-(n as i64)) as u64;
        let r = String::from_str("-").concat(u64_to_dec(magnitude).as_str());
        proof {
            reveal_strlit("-");
            assert(r@ =~= dec_int(n as int));
        }
        r
    }
}

} // verus!
