use vstd::prelude::*;
use crate::error::VCSError;

verus! {

/// The lowercase hexadecimal digits.
pub open spec fn hex_digits() -> Seq<char> {
    seq!['0', '1', '2', '3', '4', '5', '6', '7', '8', '9', 'a', 'b', 'c', 'd', 'e', 'f']
}

/// `h` in lowercase hexadecimal, without leading zeros.
pub open spec fn lower_hex(h: nat) -> Seq<char>
    decreases h,
{
    if h < 16 {
        seq![hex_digits()[h as int]]
    } else {
        lower_hex(h / 16) + seq![hex_digits()[(h % 16) as int]]
    }
}

/// The log record of a commit: its id, its time and its message, separated by tabs.
pub open spec fn log_line(id: Seq<char>, time: Seq<char>, message: Seq<char>) -> Seq<char> {
    id + seq!['\t'] + time + seq!['\t'] + message
}

/// The text that chrono writes for the UTC instant `secs` seconds and
/// `nanos` nanoseconds after the Unix epoch, by the format `fmt`.
pub uninterp spec fn utc_time_text(secs: int, nanos: int, fmt: Seq<char>) -> Seq<char>;

/// The last second of the year 9999, UTC.
pub const LAST_SECOND_OF_9999: i64 = 253402300799;

/// Relies on chrono's `DateTime::<Utc>::from_timestamp` and `format`: the
/// instant is in range for any second up to the year 9999 with fewer than
/// 1e9 nanoseconds, and the format is a fixed, valid strftime pattern.
#[verifier::external_body]
fn format_utc(secs: i64, nanos: u32, fmt: &str) -> (r: Option<String>)
    requires
        fmt@ == "%Y/%m/%d %T"@,
    ensures
        r matches Some(s) ==> s@ == utc_time_text(secs as int, nanos as int, fmt@),
        0 <= secs <= LAST_SECOND_OF_9999 && nanos < 1_000_000_000 ==> r is Some,
{
    match chrono::DateTime::<chrono::Utc>::from_timestamp(secs, nanos) {
        Some(t) => Some(t.format(fmt).to_string()),
        None => None,
    }
}

/// The 64-bit hash that std's `DefaultHasher` gives the instant.
pub uninterp spec fn instant_hash(secs: int, nanos: int) -> u64;

/// Relies on std's `BuildHasher::hash_one` with `DefaultHasher`: instances
/// made by `new`/`default` are unseeded and hash equal values alike.
#[verifier::external_body]
fn hash_instant(secs: i64, nanos: u32) -> (r: u64)
    ensures
        r == instant_hash(secs as int, nanos as int),
{
    std::hash::BuildHasher::hash_one(
        &std::hash::BuildHasherDefault::<std::hash::DefaultHasher>::default(),
        (secs, nanos),
    )
}

fn hex_char(d: u64) -> (r: &'static str)
    requires
        d < 16,
    ensures
        r@ == seq![hex_digits()[d as int]],
{
    let digits = "0123456789abcdef";
    proof {
        reveal_strlit("0123456789abcdef");
    }
    let r = digits.substring_char(d as usize, d as usize + 1);
    assert(r@ =~= seq![hex_digits()[d as int]]);
    r
}

/// `h` in lowercase hexadecimal, without leading zeros.
pub fn hex_id(h: u64) -> (r: String)
    ensures
        r@ == lower_hex(h as nat),
    decreases h,
{
    if h < 16 {
        String::from_str(hex_char(h))
    } else {
        let mut r = hex_id(h / 16);
        r.append(hex_char(h % 16));
        r
    }
}

/// The id of a commit made at the given instant: a hash of the instant in
/// lowercase hexadecimal.
pub fn calculate_hash(secs: i64, nanos: u32) -> (r: String)
    ensures
        r@ == lower_hex(instant_hash(secs as int, nanos as int) as nat),
{
    let h = hash_instant(secs, nanos);
    hex_id(h)
}

/// A commit record: its id, its message and the time it was made, as written to the log.
pub struct Commit {
    pub id: String,
    pub message: String,
    pub time: String,
}

impl Commit {
    /// The commit of `message` made at the instant `secs` seconds and
    /// `nanos` nanoseconds after the Unix epoch.
    pub fn new(message: String, secs: i64, nanos: u32) -> (r: Result<Commit, VCSError>)
        ensures
            r matches Ok(c) ==> c.message == message && c.id@ == lower_hex(
                instant_hash(secs as int, nanos as int) as nat,
            ) && c.time@ == utc_time_text(
                secs as int,
                nanos as int,
                "%Y/%m/%d %T"@,
            ),
            r matches Err(e) ==> e is Other,
            0 <= secs <= LAST_SECOND_OF_9999 && nanos < 1_000_000_000 ==> r is Ok,
    {
        match format_utc(secs, nanos, "%Y/%m/%d %T") {
            Some(time) => {
                let id = calculate_hash(secs, nanos);
                Ok(Commit { id, message, time })
            },
            None => Err(VCSError::Other(String::from_str("Commit time out of range"))),
        }
    }

    /// The line this commit adds to the log.
    pub fn to_log_line(&self) -> (r: String)
        ensures
            r@ == log_line(self.id@, self.time@, self.message@),
    {
        let mut r = self.id.clone();
        r.append("\t");
        r.append(self.time.as_str());
        r.append("\t");
        r.append(self.message.as_str());
        proof {
            reveal_strlit("\t");
        }
        r
    }
}

} // verus!
