//! Timestamps: one instant on the UTC time line and the offset of the zone
//! it is shown in.

use vstd::prelude::*;
use chrono::{DateTime, FixedOffset};

verus! {

/// The wall-clock text `YYYY-MM-DD HH:MM:SS` that chrono gives for the
/// instant `secs` seconds and `nanos` nanoseconds after the Unix epoch, as
/// read in a zone `offset` seconds east of UTC; `None` where chrono cannot
/// represent the instant, the offset or the local time.
pub uninterp spec fn clock_text(secs: i64, nanos: u32, offset: i32) -> Option<Seq<char>>;

/// The characters of an optional string.
pub open spec fn text_view(t: Option<String>) -> Option<Seq<char>> {
    match t {
        Some(s) => Some(s@),
        None => None,
    }
}

/// Calls chrono's `NaiveDateTime::format` with the pattern
/// `%Y-%m-%d %H:%M:%S` on the local time that chrono makes of the three
/// numbers, by `DateTime::from_timestamp`, `FixedOffset::east_opt` and
/// `NaiveDateTime::checked_add_offset`. Nothing is proved of the text: the
/// contract only names it, as a function of the three numbers, with `None`
/// where one of the steps refuses.
#[verifier::external_body]
fn format_clock(secs: i64, nanos: u32, offset: i32) -> (r: Option<String>)
    ensures
        text_view(r) == clock_text(secs, nanos, offset),
{
    let utc = DateTime::from_timestamp(secs, nanos)?;
    let zone = FixedOffset::east_opt(offset)?;
    let local = utc.naive_utc().checked_add_offset(zone)?;
    let mut text = String::new();
    local.format("%Y-%m-%d %H:%M:%S").write_to(&mut text).ok()?;
    Some(text)
}

/// An instant together with the zone offset it is displayed in. Ordering
/// goes by the instant alone; the offset matters only when the timestamp
/// is turned into text.
#[derive(Clone, Copy, Debug)]
pub struct Timestamp {
    secs: i64,
    nanos: u32,
    offset: i32,
}

impl Timestamp {
    /// Whole seconds since the Unix epoch, in UTC.
    pub closed spec fn seconds(&self) -> int {
        self.secs as int
    }

    /// Nanoseconds past the whole second.
    pub closed spec fn subsec(&self) -> int {
        self.nanos as int
    }

    /// Seconds east of UTC of the display zone.
    pub closed spec fn zone(&self) -> int {
        self.offset as int
    }

    /// The wall-clock text of the timestamp in its display zone.
    pub closed spec fn display_text(&self) -> Seq<char> {
        clock_text(self.secs, self.nanos, self.offset)->Some_0
    }

    #[verifier::type_invariant]
    spec fn displayable(&self) -> bool {
        clock_text(self.secs, self.nanos, self.offset) is Some
    }

    /// A timestamp from its three numbers; `None` exactly where the
    /// instant has no wall-clock text in that zone.
    pub fn new(secs: i64, nanos: u32, offset: i32) -> (r: Option<Timestamp>)
        ensures
            r is Some <==> clock_text(secs, nanos, offset) is Some,
            r is Some ==> r->Some_0.seconds() == secs && r->Some_0.subsec() == nanos
                && r->Some_0.zone() == offset
                && r->Some_0.display_text() == clock_text(secs, nanos, offset)->Some_0,
    {
        match format_clock(secs, nanos, offset) {
            Some(_) => Some(Timestamp { secs, nanos, offset }),
            None => None,
        }
    }

    /// Whole seconds since the Unix epoch.
    pub fn timestamp(&self) -> (r: i64)
        ensures
            r == self.seconds(),
    {
        self.secs
    }

    /// Nanoseconds past the whole second.
    pub fn subsec_nanos(&self) -> (r: u32)
        ensures
            r == self.subsec(),
    {
        self.nanos
    }

    /// Seconds east of UTC of the display zone.
    pub fn offset_seconds(&self) -> (r: i32)
        ensures
            r == self.zone(),
    {
        self.offset
    }

    /// The timestamp as `YYYY-MM-DD HH:MM:SS` in its display zone.
    pub fn updated_str(&self) -> (r: String)
        ensures
            r@ == self.display_text(),
    {
        proof {
            use_type_invariant(self);
        }
        match format_clock(self.secs, self.nanos, self.offset) {
            Some(text) => text,
            None => unreached(),
        }
    }
}

} // verus!
