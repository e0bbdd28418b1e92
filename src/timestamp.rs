use vstd::prelude::*;

verus! {

/// The earliest second that a timestamp can hold: the start of year -262143.
pub const MIN_SECS: i64 = -8334601228800;

/// The latest second that a timestamp can hold: the last second of year 262142.
pub const MAX_SECS: i64 = 8210266876799;

/// Nanoseconds in one second.
pub const NANOS_PER_SEC: u32 = 1_000_000_000;

/// An instant in UTC: whole seconds since 1970-01-01T00:00:00Z and the nanoseconds within that
/// second. A nanosecond count of one second or more marks a leap second, which only the last
/// second of a minute can carry.
#[derive(Clone, Copy, Debug, PartialEq, Eq, Structural)]
pub struct Timestamp {
    pub secs: i64,
    pub nanos: u32,
}

impl Timestamp {
    /// The instant lies in the range of calendar dates that the library handles, and its
    /// nanosecond count is one a clock can show.
    pub open spec fn wf(self) -> bool {
        &&& MIN_SECS <= self.secs <= MAX_SECS
        &&& (self.nanos < NANOS_PER_SEC || (self.nanos < 2 * NANOS_PER_SEC && (self.secs
            - MIN_SECS) % 60 == 59))
    }

    /// `self` comes strictly before `other`.
    pub open spec fn before(self, other: Timestamp) -> bool {
        self.secs < other.secs || (self.secs == other.secs && self.nanos < other.nanos)
    }

    pub fn is_valid(&self) -> (r: bool)
        ensures
            r == self.wf(),
    {
        if self.secs < MIN_SECS || self.secs > MAX_SECS {
            return false;
        }
        if self.nanos < NANOS_PER_SEC {
            return true;
        }
        let offset = (self.secs - MIN_SECS) as u64;
        self.nanos < 2 * NANOS_PER_SEC && offset % 60 == 59
    }

    /// Whether `self` comes strictly before `other`.
    pub fn is_before(&self, other: &Timestamp) -> (r: bool)
        ensures
            r == self.before(*other),
    {
        self.secs < other.secs || (self.secs == other.secs && self.nanos < other.nanos)
    }
}

/// The RFC 3339 text that chrono writes for an instant, in UTC with a `Z` suffix and as many
/// fraction digits (none, 3, 6 or 9) as the nanoseconds need.
pub uninterp spec fn rfc3339_text(secs: i64, nanos: u32) -> Seq<char>;

/// The instant that chrono reads from an RFC 3339 text, as seconds and nanoseconds in UTC.
pub uninterp spec fn parsed_instant(text: Seq<char>) -> Option<(i64, u32)>;

/// Relies on `chrono::DateTime::<Utc>::from_timestamp` and `to_rfc3339_opts` with
/// `SecondsFormat::AutoSi` and `Z`: a valid instant is written in full, so that reading the text
/// back gives the same instant.
#[verifier::external_body]
pub(crate) fn format_rfc3339(t: &Timestamp) -> (r: String)
    requires
        t.wf(),
    ensures
        r@ == rfc3339_text(t.secs, t.nanos),
        parsed_instant(r@) == Some((t.secs, t.nanos)),
{
    match chrono::DateTime::from_timestamp(t.secs, t.nanos) {
        Some(dt) => dt.to_rfc3339_opts(chrono::SecondsFormat::AutoSi, true),
        None => String::new(),
    }
}

/// Relies on `str::parse::<chrono::DateTime<FixedOffset>>`, with `timestamp` and
/// `timestamp_subsec_nanos` giving the instant in UTC.
#[verifier::external_body]
pub(crate) fn parse_rfc3339(text: &str) -> (r: Option<(i64, u32)>)
    ensures
        r == parsed_instant(text@),
{
    match text.parse::<chrono::DateTime<chrono::FixedOffset>>() {
        Ok(dt) => Some((dt.timestamp(), dt.timestamp_subsec_nanos())),
        Err(_) => None,
    }
}

/// Relies on `chrono::Utc::now`: the system clock, read as a duration since the Unix epoch, so
/// never before it and never within a leap second.
#[verifier::external_body]
pub(crate) fn current_time() -> (r: Timestamp)
    ensures
        0 <= r.secs <= MAX_SECS,
        r.nanos < NANOS_PER_SEC,
{
    let now = chrono::Utc::now();
    Timestamp { secs: now.timestamp(), nanos: now.timestamp_subsec_nanos() }
}

/// The instant that a metadata field's text stands for, where chrono reads one from it and it
/// lies in the handled range.
pub open spec fn timestamp_of_text(text: Seq<char>) -> Option<Timestamp> {
    match parsed_instant(text) {
        Some((secs, nanos)) => {
            let t = Timestamp { secs, nanos };
            if t.wf() {
                Some(t)
            } else {
                None
            }
        },
        None => None,
    }
}

/// Reads the instant written in `text`; `None` where chrono reads none or it lies out of range.
pub fn read_timestamp(text: &str) -> (r: Option<Timestamp>)
    ensures
        r == timestamp_of_text(text@),
{
    match parse_rfc3339(text) {
        Some((secs, nanos)) => {
            let t = Timestamp { secs, nanos };
            if t.is_valid() {
                Some(t)
            } else {
                None
            }
        },
        None => None,
    }
}

} // verus!
