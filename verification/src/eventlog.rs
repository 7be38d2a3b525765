//! Installation times from the text of Windows event log queries: the
//! DriverFrameworks-UserMode log as `wevtutil` prints it, and the System
//! log as the PowerShell query prints it (`time|message` lines).

use vstd::prelude::*;
use vstd::string::StringExecFns;
use crate::text::{
    chars_of, contains, contains_str, find, find_chars_from, find_str, is_whitespace, is_ws, lines,
    lemma_find_from, occurs_at, split_lines, starts_with, starts_with_str, string_of, sub_chars, trim,
    trim_bounds,
};
use crate::timestamps::{Timestamp, TimestampMap, timestamp_of};

verus! {

broadcast use vstd::string::group_string_axioms;

/// Name for the instant that `chrono::DateTime::parse_from_rfc3339(text)`
/// yields, as seconds and nanoseconds since the Unix epoch (UTC).
pub uninterp spec fn rfc3339_instant(text: Seq<char>) -> Option<(i64, u32)>;

/// Parses an RFC 3339 date and time (`chrono::DateTime::parse_from_rfc3339`)
/// and takes the instant in UTC; the result is named, not described.
#[verifier::external_body]
fn parse_rfc3339_utc(text: &str) -> (r: Option<Timestamp>)
    ensures
        r == timestamp_of(rfc3339_instant(text@)),
{
    match chrono::DateTime::parse_from_rfc3339(text) {
        Ok(dt) => Some(Timestamp { seconds: dt.timestamp(), nanos: dt.timestamp_subsec_nanos() }),
        Err(_) => None,
    }
}

/// The date text of an event line: what follows `Date:` (trimmed), or the
/// quoted value of `SystemTime='...'` in a line with `TimeCreated`.
pub open spec fn event_date(l: Seq<char>) -> Option<Seq<char>> {
    if starts_with(l, "Date:"@) {
        Some(trim(l.subrange(5, l.len() as int)))
    } else if contains(l, "TimeCreated"@) {
        match find(l, "SystemTime='"@) {
            None => None,
            Some(s) => match find(l.subrange(s + 12, l.len() as int), seq!['\'']) {
                None => None,
                Some(e) => Some(l.subrange(s + 12, s + 12 + e)),
            },
        }
    } else {
        None
    }
}

/// A character that ends a `VID_...` identifier in an event message.
pub open spec fn ends_event_id(c: char) -> bool {
    is_ws(c) || c == '\\' || c == '&'
}

/// First index at or after `i` of a character that ends an identifier.
pub open spec fn first_id_end(l: Seq<char>, i: int) -> Option<int>
    decreases l.len() - i,
{
    if i < 0 || i >= l.len() {
        None
    } else if ends_event_id(l[i]) {
        Some(i)
    } else {
        first_id_end(l, i + 1)
    }
}

/// The device identifier of an event message: from the first `VID_` up to
/// the next white space, `\` or `&` (when there is one); otherwise
/// `USBSTOR_Device` when the message names `USBSTOR`.
pub open spec fn event_device_id(l: Seq<char>) -> Option<Seq<char>> {
    let from_vid = match find(l, "VID_"@) {
        Some(s) => match first_id_end(l, s) {
            Some(e) => Some(l.subrange(s, e)),
            None => None,
        },
        None => None,
    };
    if from_vid is Some {
        from_vid
    } else if contains(l, "USBSTOR"@) {
        Some("USBSTOR_Device"@)
    } else {
        None
    }
}

proof fn lemma_first_id_end(l: Seq<char>, i: int)
    requires
        0 <= i,
    ensures
        first_id_end(l, i) matches Some(k) ==> i <= k < l.len(),
    decreases l.len() - i,
{
    if i < l.len() {
        lemma_first_id_end(l, i + 1);
    }
}

/// An identifier taken from an event message starts with `VID_`, or is
/// `USBSTOR_Device`.
pub proof fn event_id_shape(l: Seq<char>)
    requires
        event_device_id(l) is Some,
    ensures
        starts_with(event_device_id(l)->0, "VID_"@) || event_device_id(l)->0 == "USBSTOR_Device"@,
{
    reveal_strlit("VID_");
    if let Some(s) = find(l, "VID_"@) {
        lemma_find_from(l, "VID_"@, 0);
        if let Some(e) = first_id_end(l, s) {
            assert(l.subrange(s, s + 4) == "VID_"@);
            assert(l[s] == 'V' && l[s + 1] == 'I' && l[s + 2] == 'D' && l[s + 3] == '_') by {
                assert(l.subrange(s, s + 4)[0] == l[s]);
                assert(l.subrange(s, s + 4)[1] == l[s + 1]);
                assert(l.subrange(s, s + 4)[2] == l[s + 2]);
                assert(l.subrange(s, s + 4)[3] == l[s + 3]);
            }
            assert(!ends_event_id(l[s]) && !ends_event_id(l[s + 1]) && !ends_event_id(l[s + 2])
                && !ends_event_id(l[s + 3]));
            assert(first_id_end(l, s) == first_id_end(l, s + 1));
            assert(first_id_end(l, s + 1) == first_id_end(l, s + 2));
            assert(first_id_end(l, s + 2) == first_id_end(l, s + 3));
            assert(first_id_end(l, s + 3) == first_id_end(l, s + 4));
            lemma_first_id_end(l, s + 4);
            assert(l.subrange(s, e).subrange(0, 4) =~= l.subrange(s, s + 4));
        }
    }
}

/// The date text of an event line (see `event_date`).
pub fn extract_date(line: &str) -> (r: Option<String>)
    ensures
        match event_date(line@) {
            Some(d) => r matches Some(x) && x@ == d,
            None => r is None,
        },
{
    let v = chars_of(line);
    proof {
        reveal_strlit("Date:");
        reveal_strlit("SystemTime='");
    }
    if starts_with_str(&v, "Date:") {
        let (a, b) = trim_bounds(&v, 5, v.len());
        return Some(string_of(&v, a, b));
    }
    if contains_str(&v, "TimeCreated") {
        if let Some(s) = find_str(&v, "SystemTime='") {
            proof {
                lemma_find_from(v@, "SystemTime='"@, 0);
                assert("SystemTime='"@.len() == 12);
                assert(s + 12 <= v@.len());
                assert(v@.len() == v.len());
            }
            let rest = sub_chars(&v, s + 12, v.len());
            let quote: Vec<char> = vec!['\''];
            proof {
                assert(quote@ =~= seq!['\'']);
            }
            if let Some(e) = find_chars_from(&rest, &quote, 0) {
                proof {
                    lemma_find_from(rest@, seq!['\''], 0);
                    assert(v@.subrange(s + 12, s + 12 + e) =~= rest@.subrange(0, e as int));
                }
                return Some(string_of(&rest, 0, e));
            }
        }
    }
    None
}

/// The device identifier of an event message (see `event_device_id`).
pub fn extract_device_id(line: &str) -> (r: Option<String>)
    ensures
        match event_device_id(line@) {
            Some(d) => r matches Some(x) && x@ == d,
            None => r is None,
        },
{
    let v = chars_of(line);
    if let Some(s) = find_str(&v, "VID_") {
        proof {
            lemma_find_from(v@, "VID_"@, 0);
        }
        let mut j = s;
        while j < v.len() && !(is_whitespace(v[j]) || v[j] == '\\' || v[j] == '&')
            invariant
                s <= j <= v.len(),
                first_id_end(v@, s as int) == first_id_end(v@, j as int),
            decreases v.len() - j,
        {
            j += 1;
        }
        if j < v.len() {
            return Some(string_of(&v, s, j));
        }
    }
    if contains_str(&v, "USBSTOR") {
        return Some(String::from_str("USBSTOR_Device"));
    }
    None
}

/// A line that carries an event date: it starts with `Date:` or names
/// `TimeCreated`.
pub open spec fn is_date_line(t: Seq<char>) -> bool {
    starts_with(t, "Date:"@) || contains(t, "TimeCreated"@)
}

/// The instant of a (trimmed) DriverFrameworks log line that carries a
/// date that parses.
pub open spec fn frameworks_line_date(t: Seq<char>) -> Option<Timestamp> {
    if is_date_line(t) {
        match event_date(t) {
            Some(d) => timestamp_of(rfc3339_instant(d)),
            None => None,
        }
    } else {
        None
    }
}

/// One trimmed line `t` of the DriverFrameworks log, with `date` the
/// instant it carries: a date line sets the current time; a line naming
/// `USB` with an identifier, while a time is current, records that time for
/// the identifier and clears it.
pub open spec fn frameworks_step(
    m: Map<Seq<char>, Timestamp>,
    cur: Option<Timestamp>,
    t: Seq<char>,
    date: Option<Timestamp>,
) -> (Map<Seq<char>, Timestamp>, Option<Timestamp>) {
    let cur1 = if is_date_line(t) && date is Some {
        date
    } else {
        cur
    };
    if (contains(t, "USB"@) || contains(t, "USBSTOR"@)) && cur1 is Some {
        match event_device_id(t) {
            Some(id) => (m.insert(id, cur1->0), None),
            None => (m, cur1),
        }
    } else {
        (m, cur1)
    }
}

/// The scan of the lines `ls` of the DriverFrameworks log, each trimmed.
pub open spec fn frameworks_scan(ls: Seq<Seq<char>>) -> (
    Map<Seq<char>, Timestamp>,
    Option<Timestamp>,
)
    decreases ls.len(),
{
    if ls.len() == 0 {
        (Map::empty(), None)
    } else {
        let (m, c) = frameworks_scan(ls.drop_last());
        let t = trim(ls.last());
        frameworks_step(m, c, t, frameworks_line_date(t))
    }
}

/// A date line whose date parses makes that date the current time,
/// replacing any earlier one, and records nothing when it names no `USB`
/// device: for one step and for the scan of the lines with it appended.
pub proof fn frameworks_date_line_sets_time(
    ls: Seq<Seq<char>>,
    l: Seq<char>,
    m: Map<Seq<char>, Timestamp>,
    cur: Option<Timestamp>,
    d: Timestamp,
)
    requires
        is_date_line(trim(l)),
        !contains(trim(l), "USB"@),
        frameworks_line_date(trim(l)) == Some(d),
    ensures
        frameworks_step(m, cur, trim(l), Some(d)) == (m, Some(d)),
        frameworks_scan(ls.push(l)) == (frameworks_scan(ls).0, Some(d)),
{
    assert(ls.push(l).drop_last() =~= ls);
    let t = trim(l);
    if contains(t, "USBSTOR"@) {
        lemma_find_from(t, "USBSTOR"@, 0);
        lemma_find_from(t, "USB"@, 0);
        let i = find(t, "USBSTOR"@)->0;
        reveal_strlit("USBSTOR");
        reveal_strlit("USB");
        assert(occurs_at(t, "USBSTOR"@, i));
        assert("USBSTOR"@.subrange(0, 3) =~= "USB"@);
        assert(t.subrange(i, i + 3) =~= t.subrange(i, i + 7).subrange(0, 3));
        assert(occurs_at(t, "USB"@, i));
        lemma_find_from(t, "USB"@, 0);
    }
}

/// A line naming `USB` with a device identifier, while a time is current,
/// records that time for the identifier and clears the current time.
pub proof fn frameworks_usb_line_records_time(
    m: Map<Seq<char>, Timestamp>,
    c: Timestamp,
    t: Seq<char>,
    id: Seq<char>,
)
    requires
        !is_date_line(t),
        contains(t, "USB"@),
        event_device_id(t) == Some(id),
    ensures
        frameworks_step(m, Some(c), t, None) == (m.insert(id, c), None::<Timestamp>),
{
}

/// Timestamps found in the DriverFrameworks log so far, and the time of the
/// last date line not yet given to a device.
pub struct FrameworksScan {
    timestamps: TimestampMap,
    current: Option<Timestamp>,
}

impl FrameworksScan {
    /// The timestamps found so far.
    pub closed spec fn found(&self) -> Map<Seq<char>, Timestamp> {
        self.timestamps@
    }

    /// The current time.
    pub closed spec fn pending(&self) -> Option<Timestamp> {
        self.current
    }

    /// A scan that has seen no line.
    pub fn new() -> (r: Self)
        ensures
            r.found() == Map::<Seq<char>, Timestamp>::empty(),
            r.pending() is None,
    {
        FrameworksScan { timestamps: TimestampMap::new(), current: None }
    }

    /// Applies the trimmed line `line`, which carries the instant `date`.
    pub fn step(&mut self, line: &str, date: Option<Timestamp>)
        ensures
            (final(self).found(), final(self).pending()) == frameworks_step(
                old(self).found(),
                old(self).pending(),
                line@,
                date,
            ),
    {
        let t = chars_of(line);
        if starts_with_str(&t, "Date:") || contains_str(&t, "TimeCreated") {
            if date.is_some() {
                self.current = date;
            }
        }
        if (contains_str(&t, "USB") || contains_str(&t, "USBSTOR")) && self.current.is_some() {
            if let Some(id) = extract_device_id(line) {
                match self.current {
                    Some(ts) => self.timestamps.insert(id, ts),
                    None => {},
                }
                self.current = None;
            }
        }
    }

    /// The timestamps found.
    pub fn into_timestamps(self) -> (r: TimestampMap)
        ensures
            r@ == self.found(),
    {
        self.timestamps
    }
}

/// The instant a trimmed DriverFrameworks line carries (see
/// `frameworks_line_date`).
pub fn frameworks_date(line: &str) -> (r: Option<Timestamp>)
    ensures
        r == frameworks_line_date(line@),
{
    let t = chars_of(line);
    if starts_with_str(&t, "Date:") || contains_str(&t, "TimeCreated") {
        match extract_date(line) {
            Some(d) => parse_rfc3339_utc(d.as_str()),
            None => None,
        }
    } else {
        None
    }
}

/// The installation timestamps in the text that `wevtutil` printed for
/// the DriverFrameworks-UserMode log; `None` when it holds none.
pub fn parse_driver_frameworks_output(text: &str) -> (r: Option<TimestampMap>)
    ensures
        ({
            let m = frameworks_scan(lines(text@)).0;
            if m.dom().len() == 0 {
                r is None
            } else {
                r matches Some(x) && x@ == m
            }
        }),
{
    let ls = split_lines(text);
    let ghost lc = lines(text@);
    let mut scan = FrameworksScan::new();
    let mut i: usize = 0;
    while i < ls.len()
        invariant
            i <= ls.len(),
            ls@.len() == lc.len(),
            forall|k: int| 0 <= k < ls@.len() ==> #[trigger] ls@[k]@ == lc[k],
            frameworks_scan(lc.take(i as int)) == (scan.found(), scan.pending()),
        decreases ls.len() - i,
    {
        let v = chars_of(ls[i].as_str());
        let (a, b) = trim_bounds(&v, 0, v.len());
        proof {
            assert(v@.subrange(0, v@.len() as int) =~= v@);
            assert(lc.take(i + 1).drop_last() =~= lc.take(i as int));
        }
        let t = string_of(&v, a, b);
        let date = frameworks_date(t.as_str());
        scan.step(t.as_str(), date);
        i += 1;
    }
    proof {
        assert(lc.take(lc.len() as int) =~= lc);
    }
    let m = scan.into_timestamps();
    if m.is_empty() {
        None
    } else {
        Some(m)
    }
}

/// The time text of a System log line `time|message`: the trimmed part
/// before the first `|`.
pub open spec fn system_time_text(l: Seq<char>) -> Option<Seq<char>> {
    match find(l, seq!['|']) {
        Some(k) => Some(trim(l.take(k))),
        None => None,
    }
}

/// The entry of a System log line `time|message` whose time parsed to
/// `parsed`: the device identifier of the message with that time.
pub open spec fn system_entry(l: Seq<char>, parsed: Option<Timestamp>) -> Option<
    (Seq<char>, Timestamp),
> {
    match find(l, seq!['|']) {
        Some(k) => match parsed {
            Some(ts) => match event_device_id(l.subrange(k + 1, l.len() as int)) {
                Some(id) => Some((id, ts)),
                None => None,
            },
            None => None,
        },
        None => None,
    }
}

/// The instant of a System log line, parsed from its time text.
pub open spec fn system_line_time(l: Seq<char>) -> Option<Timestamp> {
    match system_time_text(l) {
        Some(t) => timestamp_of(rfc3339_instant(t)),
        None => None,
    }
}

/// The timestamps of the System log lines `ls`.
pub open spec fn system_scan(ls: Seq<Seq<char>>) -> Map<Seq<char>, Timestamp>
    decreases ls.len(),
{
    if ls.len() == 0 {
        Map::empty()
    } else {
        let m = system_scan(ls.drop_last());
        match system_entry(ls.last(), system_line_time(ls.last())) {
            Some((id, ts)) => m.insert(id, ts),
            None => m,
        }
    }
}

/// Each System log line that gives an entry `(id, ts)` sets `id` to `ts`,
/// whether or not an earlier line gave `id` a time (the later line wins);
/// a line that gives no entry changes nothing.
pub proof fn system_line_sets_time(ls: Seq<Seq<char>>, l: Seq<char>)
    ensures
        match system_entry(l, system_line_time(l)) {
            Some((id, ts)) => system_scan(ls.push(l)) == system_scan(ls).insert(id, ts),
            None => system_scan(ls.push(l)) == system_scan(ls),
        },
{
    assert(ls.push(l).drop_last() =~= ls);
}

/// The position of the first `|` in `v`.
fn find_bar(v: &Vec<char>) -> (r: Option<usize>)
    ensures
        match r {
            Some(k) => find(v@, seq!['|']) == Some(k as int) && k < v.len(),
            None => find(v@, seq!['|']) is None,
        },
{
    let bar: Vec<char> = vec!['|'];
    proof {
        assert(bar@ =~= seq!['|']);
    }
    let r = find_chars_from(v, &bar, 0);
    proof {
        lemma_find_from(v@, seq!['|'], 0);
    }
    r
}

/// The time text of a System log line (see `system_time_text`).
pub fn system_log_time_text(line: &str) -> (r: Option<String>)
    ensures
        match system_time_text(line@) {
            Some(t) => r matches Some(x) && x@ == t,
            None => r is None,
        },
{
    let v = chars_of(line);
    match find_bar(&v) {
        Some(k) => {
            let (a, b) = trim_bounds(&v, 0, k);
            proof {
                assert(v@.subrange(0, k as int) =~= v@.take(k as int));
            }
            Some(string_of(&v, a, b))
        },
        None => None,
    }
}

/// The entry of a System log line whose time parsed to `parsed` (see
/// `system_entry`).
pub fn system_log_entry(line: &str, parsed: Option<Timestamp>) -> (r: Option<(String, Timestamp)>)
    ensures
        match system_entry(line@, parsed) {
            Some((id, ts)) => r matches Some((x, y)) && x@ == id && y == ts,
            None => r is None,
        },
{
    let v = chars_of(line);
    match find_bar(&v) {
        Some(k) => match parsed {
            Some(ts) => {
                let message = string_of(&v, k + 1, v.len());
                match extract_device_id(message.as_str()) {
                    Some(id) => Some((id, ts)),
                    None => None,
                }
            },
            None => None,
        },
        None => None,
    }
}

/// The installation timestamps in the text of the System log query
/// (`time|message` lines); `None` when it holds none.
pub fn parse_system_log_output(text: &str) -> (r: Option<TimestampMap>)
    ensures
        ({
            let m = system_scan(lines(text@));
            if m.dom().len() == 0 {
                r is None
            } else {
                r matches Some(x) && x@ == m
            }
        }),
{
    let ls = split_lines(text);
    let ghost lc = lines(text@);
    let mut m = TimestampMap::new();
    let mut i: usize = 0;
    while i < ls.len()
        invariant
            i <= ls.len(),
            ls@.len() == lc.len(),
            forall|k: int| 0 <= k < ls@.len() ==> #[trigger] ls@[k]@ == lc[k],
            system_scan(lc.take(i as int)) == m@,
        decreases ls.len() - i,
    {
        proof {
            assert(lc.take(i + 1).drop_last() =~= lc.take(i as int));
        }
        let line = ls[i].as_str();
        let parsed = match system_log_time_text(line) {
            Some(t) => parse_rfc3339_utc(t.as_str()),
            None => None,
        };
        match system_log_entry(line, parsed) {
            Some((id, ts)) => m.insert(id, ts),
            None => {},
        }
        i += 1;
    }
    proof {
        assert(lc.take(lc.len() as int) =~= lc);
    }
    if m.is_empty() {
        None
    } else {
        Some(m)
    }
}

/// The timestamps of a query's result; none when it gave none.
pub open spec fn times_or_empty(o: Option<TimestampMap>) -> Map<Seq<char>, Timestamp> {
    match o {
        Some(m) => m@,
        None => Map::empty(),
    }
}

/// The installation timestamps from the event logs: those of the
/// DriverFrameworks log (`frameworks`) when it gave any; otherwise those
/// that `system_log` reads from the System log, which is queried only then.
pub fn collect_event_timestamps<F: FnOnce() -> Option<TimestampMap>>(
    frameworks: Option<TimestampMap>,
    system_log: F,
) -> (r: TimestampMap)
    requires
        system_log.requires(()),
    ensures
        times_or_empty(frameworks) != Map::<Seq<char>, Timestamp>::empty() ==> r@
            == times_or_empty(frameworks),
        times_or_empty(frameworks) == Map::<Seq<char>, Timestamp>::empty() ==> exists|
            s: Option<TimestampMap>,
        | #[trigger] system_log.ensures((), s) && r@ == times_or_empty(s),
{
    match frameworks {
        Some(ts) => {
            if !ts.is_empty() {
                return ts;
            }
        },
        None => {},
    }
    let s = system_log();
    let ghost g = s;
    proof {
        assert(system_log.ensures((), g));
    }
    match s {
        Some(ts) => ts,
        None => TimestampMap::new(),
    }
}

} // verus!
