//! Commit timestamps: the recorded (seconds, offset) pair and the local
//! calendar time it stands for.
use vstd::prelude::*;

verus! {

/// The calendar text that chrono renders for a count of seconds since the
/// epoch read as a time-zone-free UTC time; `None` outside chrono's range.
pub uninterp spec fn calendar_text(secs: int) -> Option<Seq<char>>;

/// Relies on `chrono::DateTime::from_timestamp` (which is `None` for seconds
/// outside its calendar) and the `Display` of `NaiveDateTime`.
#[verifier::external_body]
fn naive_calendar_text(secs: i64) -> (r: Option<String>)
    ensures
        match r {
            Some(t) => calendar_text(secs as int) == Some(t@),
            None => calendar_text(secs as int) is None,
        },
{
    chrono::DateTime::from_timestamp(secs, 0).map(|d| d.naive_utc().to_string())
}

/// A commit time as the repository records it: seconds since the epoch and
/// the committer's offset from UTC in minutes.
#[derive(Clone, Copy, Debug, PartialEq, Eq)]
pub struct CommitTime {
    pub seconds: i64,
    pub offset_minutes: i32,
}

/// The local time of a commit, in seconds of a time-zone-free clock: the
/// UTC seconds shifted by the recorded offset.
pub open spec fn local_seconds_of(seconds: int, offset_minutes: int) -> int {
    seconds + 60 * offset_minutes
}

/// The calendar text of a commit time: that of its local seconds, where
/// they fit in an `i64` and chrono's calendar holds them.
pub open spec fn time_text(t: CommitTime) -> Option<Seq<char>> {
    let l = local_seconds_of(t.seconds as int, t.offset_minutes as int);
    if i64::MIN <= l <= i64::MAX {
        calendar_text(l)
    } else {
        None
    }
}

impl CommitTime {
    /// The normalized local time, when it fits in an `i64`.
    pub fn local_seconds(&self) -> (r: Option<i64>)
        ensures
            match r {
                Some(l) => l == local_seconds_of(self.seconds as int, self.offset_minutes as int),
                None => !(i64::MIN <= local_seconds_of(self.seconds as int, self.offset_minutes as int)
                    <= i64::MAX),
            },
    {
        let shift: i64 = 60 * (self.offset_minutes as i64);
        self.seconds.checked_add(shift)
    }

    /// The normalized local time as calendar text; `None` where it falls
    /// outside the calendar.
    pub fn to_text(&self) -> (r: Option<String>)
        ensures
            match r {
                Some(t) => time_text(*self) == Some(t@),
                None => time_text(*self) is None,
            },
    {
        match self.local_seconds() {
            Some(l) => naive_calendar_text(l),
            None => None,
        }
    }
}

} // verus!
