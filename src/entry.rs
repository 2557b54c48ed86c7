//! One retained clipboard snapshot: its text, when it was taken, and whether
//! it is pinned.
use vstd::prelude::*;
use vstd::string::*;

verus! {

/// Previews of texts longer than this many characters are cut.
pub const PREVIEW_LIMIT: usize = 50;

/// Characters of the text that a cut preview keeps, before the ellipsis.
pub const PREVIEW_KEEP: usize = 47;

/// Seconds in a day.
pub const DAY_SECS: u64 = 86400;

/// A moment: seconds since the Unix epoch, and the offset of the local time
/// zone from UTC in seconds at that moment.
#[derive(Clone, Copy, Debug, PartialEq, Eq, Structural)]
pub struct Timestamp {
    pub secs: i64,
    pub offset_secs: i32,
}

/// Relies on chrono's `From<SystemTime> for DateTime<Utc>`, which also takes
/// clock readings before the Unix epoch, then `DateTime::with_timezone(&Local)`,
/// `DateTime::timestamp` and `FixedOffset::local_minus_utc`. The offset is a
/// `FixedOffset`, which `FixedOffset::east_opt` keeps strictly within a day;
/// nothing more is promised of values that depend on the clock.
#[verifier::external_body]
pub(crate) fn local_now() -> (r: Timestamp)
    ensures
        -86400 < r.offset_secs < 86400,
{
    let now = chrono::DateTime::<chrono::Utc>::from(std::time::SystemTime::now())
        .with_timezone(&chrono::Local);
    Timestamp { secs: now.timestamp(), offset_secs: now.offset().local_minus_utc() }
}

/// Seconds since local midnight.
pub open spec fn seconds_of_day(t: Timestamp) -> int {
    (t.secs + t.offset_secs) % (DAY_SECS as int)
}

pub open spec fn digit(d: int) -> char {
    seq!['0', '1', '2', '3', '4', '5', '6', '7', '8', '9'][d]
}

/// A number below 100 written with two decimal digits.
pub open spec fn two_digits(n: int) -> Seq<char> {
    seq![digit(n / 10), digit(n % 10)]
}

/// The local time of day as `HH:MM:SS`.
pub open spec fn clock_text(t: Timestamp) -> Seq<char> {
    let s = seconds_of_day(t);
    two_digits(s / 3600) + seq![':'] + two_digits((s % 3600) / 60) + seq![':'] + two_digits(
        s % 60,
    )
}

/// What is shown of a text: the text itself up to the limit, else its first
/// characters followed by an ellipsis.
pub open spec fn preview_of(s: Seq<char>) -> Seq<char> {
    if s.len() > PREVIEW_LIMIT {
        s.subrange(0, PREVIEW_KEEP as int) + seq!['.', '.', '.']
    } else {
        s
    }
}

/// An entry as a mathematical value.
pub struct EntryView {
    pub content: Seq<char>,
    pub timestamp: Timestamp,
    pub pinned: bool,
}

/// A retained clipboard text.
#[derive(Debug)]
pub struct ClipboardEntry {
    pub content: String,
    pub timestamp: Timestamp,
    pub pinned: bool,
}

impl View for ClipboardEntry {
    type V = EntryView;

    open spec fn view(&self) -> EntryView {
        EntryView { content: self.content@, timestamp: self.timestamp, pinned: self.pinned }
    }
}

fn append_two_digits(s: &mut String, n: u64)
    requires
        n < 100,
    ensures
        final(s)@ == old(s)@ + two_digits(n as int),
{
    let digits = "0123456789";
    proof {
        reveal_strlit("0123456789");
    }
    let hi = (n / 10) as usize;
    let lo = (n % 10) as usize;
    s.append(digits.substring_char(hi, hi + 1));
    s.append(digits.substring_char(lo, lo + 1));
    assert(final(s)@ =~= old(s)@ + two_digits(n as int));
}

impl ClipboardEntry {
    /// A new unpinned entry taken at the given moment.
    pub fn new_at(content: String, timestamp: Timestamp) -> (r: Self)
        ensures
            r@ == (EntryView { content: content@, timestamp, pinned: false }),
    {
        ClipboardEntry { content, timestamp, pinned: false }
    }

    /// A new unpinned entry taken now.
    pub fn new(content: String) -> (r: Self)
        ensures
            r.content@ == content@,
            !r.pinned,
    {
        Self::new_at(content, local_now())
    }

    /// The local time of day at which the entry was taken, as `HH:MM:SS`.
    pub fn formatted_time(&self) -> (r: String)
        ensures
            r@ == clock_text(self.timestamp),
    {
        let local: i128 = self.timestamp.secs as i128 + self.timestamp.offset_secs as i128;
        // A multiple of a day large enough to make every local time positive.
        let shift: i128 = 200_000_000_000_000i128 * 86400i128;
        let day = ((local + shift) as u128 % 86400u128) as u64;
        proof {
            vstd::arithmetic::div_mod::lemma_mod_multiples_vanish(
                200_000_000_000_000int,
                local as int,
                86400,
            );
            assert(day == seconds_of_day(self.timestamp));
        }
        let mut r = String::new();
        append_two_digits(&mut r, day / 3600);
        r.append(":");
        append_two_digits(&mut r, (day % 3600) / 60);
        r.append(":");
        append_two_digits(&mut r, day % 60);
        proof {
            reveal_strlit(":");
        }
        assert(r@ =~= clock_text(self.timestamp));
        r
    }

    /// The text as shown in a list: whole up to the limit, otherwise its
    /// first characters and an ellipsis. Never cuts inside a character.
    pub fn preview(&self) -> (r: String)
        ensures
            r@ == preview_of(self.content@),
    {
        let s = self.content.as_str();
        if s.unicode_len() > PREVIEW_LIMIT {
            let kept = String::from_str(s.substring_char(0, PREVIEW_KEEP));
            let r = kept.concat("...");
            proof {
                reveal_strlit("...");
            }
            assert(r@ =~= preview_of(self.content@));
            r
        } else {
            String::from_str(s)
        }
    }
}

} // verus!
