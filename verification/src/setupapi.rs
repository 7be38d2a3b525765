//! Installation times from the lines of `setupapi.dev.log`.
//!
//! Device identifiers are cut out of a line at byte offsets, so their model
//! is stated over the UTF-8 bytes of the line (`line.spec_bytes()`).

use vstd::prelude::*;
use vstd::utf8::*;
use vstd::string::StringSliceAdditionalSpecFns;
use vstd::string::StringExecFns;
use crate::text::{
    chars_of, contains, find, find_bytes_from, find_str, lemma_find_from, skip_whitespace, skip_word,
    skip_ws, starts_with, starts_with_str, string_of, string_of_all, sub_chars, trim, trim_bounds,
    word_end, contains_str,
};
use crate::timestamps::{Timestamp, TimestampMap, timestamp_of};

verus! {

broadcast use {vstd::string::group_string_axioms, vstd::utf8::group_utf8_lib};

/// `\` or `]`, the bytes that close a device path.
pub open spec fn is_closer(c: u8) -> bool {
    c == 0x5c || c == 0x5d
}

/// `\`, `]` or `&`.
pub open spec fn is_terminator(c: u8) -> bool {
    is_closer(c) || c == 0x26
}

/// First index at or after `i` of a terminator byte.
pub open spec fn first_terminator(b: Seq<u8>, i: int) -> Option<int>
    decreases b.len() - i,
{
    if i < 0 || i >= b.len() {
        None
    } else if is_terminator(b[i]) {
        Some(i)
    } else {
        first_terminator(b, i + 1)
    }
}

/// First index at or after `i` of a closing byte.
pub open spec fn first_closer(b: Seq<u8>, i: int) -> Option<int>
    decreases b.len() - i,
{
    if i < 0 || i >= b.len() {
        None
    } else if is_closer(b[i]) {
        Some(i)
    } else {
        first_closer(b, i + 1)
    }
}

/// What the device identifier of a log line is, over the line's bytes `b`:
/// `None` when the extraction panics (it slices `b` inside a character or
/// past its end), `Some(None)` when the line has no identifier, and
/// `Some(Some(id))` for the identifier `VID_xxxx&PID_yyyy`.
///
/// From the first `VID_` at `s`, the identifier ends at the first `\` or `]`;
/// a `&` ends it too unless `PID_` occurs in the 20 bytes from `s`, which
/// are looked at (and must exist as a whole string) when a `&` comes first.
/// Within it `PID_` must occur, the first `&PID_` (at `q`) must be followed
/// by four bytes that form whole characters, and the identifier is the
/// 8 bytes from `s` followed by the 9 bytes from `q`.
pub open spec fn setupapi_id(b: Seq<u8>) -> Option<Option<Seq<char>>> {
    match find(b, "VID_".spec_bytes()) {
        None => Some(None),
        Some(s) => match first_terminator(b, s) {
            None => Some(None),
            Some(f) => {
                if b[f] == 0x26 && !(s + 20 <= b.len() && is_char_boundary(b, s + 20)) {
                    None
                } else {
                    let end = if b[f] == 0x26 && contains(
                        b.subrange(s, s + 20),
                        "PID_".spec_bytes(),
                    ) {
                        first_closer(b, s)
                    } else {
                        Some(f)
                    };
                    match end {
                        None => Some(None),
                        Some(e) => {
                            let d = b.subrange(s, e);
                            if !contains(d, "PID_".spec_bytes()) {
                                Some(None)
                            } else {
                                match find(d, "&PID_".spec_bytes()) {
                                    None => Some(None),
                                    Some(p) => {
                                        let q = s + p;
                                        if !(q + 9 <= e && is_char_boundary(b, q + 5)
                                            && is_char_boundary(b, q + 9)) {
                                            Some(None)
                                        } else if !is_char_boundary(b, s + 8) {
                                            None
                                        } else {
                                            Some(
                                                Some(
                                                    decode_utf8(b.subrange(s, s + 8)) + decode_utf8(
                                                        b.subrange(q, q + 9),
                                                    ),
                                                ),
                                            )
                                        }
                                    }
                                }
                            }
                        }
                    }
                }
            }
        },
    }
}

/// The bytes of the literals searched for.
proof fn lemma_tag_bytes()
    ensures
        "VID_".spec_bytes() == seq![0x56u8, 0x49u8, 0x44u8, 0x5fu8],
        "&PID_".spec_bytes() == seq![0x26u8, 0x50u8, 0x49u8, 0x44u8, 0x5fu8],
{
    reveal_strlit("VID_");
    reveal_strlit("&PID_");
    assert(is_ascii_chars("VID_"@));
    assert(is_ascii_chars("&PID_"@));
    assert("VID_".spec_bytes() =~= seq![0x56u8, 0x49u8, 0x44u8, 0x5fu8]);
    assert("&PID_".spec_bytes() =~= seq![0x26u8, 0x50u8, 0x49u8, 0x44u8, 0x5fu8]);
}

proof fn lemma_first_terminator(b: Seq<u8>, i: int)
    requires
        0 <= i,
    ensures
        first_terminator(b, i) matches Some(k) ==> i <= k < b.len() && is_terminator(b[k]),
        first_closer(b, i) matches Some(k) ==> i <= k < b.len() && is_closer(b[k]),
    decreases b.len() - i,
{
    if i < b.len() {
        lemma_first_terminator(b, i + 1);
    }
}

/// Boundaries of a suffix that starts at a boundary are those of the whole.
proof fn lemma_suffix_boundary(b: Seq<u8>, lo: int, k: int)
    requires
        valid_utf8(b),
        is_char_boundary(b, lo),
        0 <= lo <= k <= b.len(),
    ensures
        valid_utf8(b.subrange(lo, b.len() as int)),
        is_char_boundary(b.subrange(lo, b.len() as int), k - lo) == is_char_boundary(b, k),
{
    let t = b.subrange(lo, b.len() as int);
    valid_utf8_split(b, lo);
    if k == b.len() {
        is_char_boundary_start_end_of_seq(t);
        is_char_boundary_start_end_of_seq(b);
    } else {
        is_char_boundary_iff_not_is_continuation_byte(t, k - lo);
        is_char_boundary_iff_not_is_continuation_byte(b, k);
    }
}

/// An ASCII byte of valid UTF-8 starts a character.
proof fn lemma_ascii_boundary(b: Seq<u8>, k: int)
    requires
        valid_utf8(b),
        0 <= k < b.len(),
        b[k] < 0x80,
    ensures
        is_char_boundary(b, k),
{
    is_char_boundary_iff_not_is_continuation_byte(b, k);
}

/// The bytes `b[lo..hi]` as a vector.
fn copy_bytes(b: &[u8], lo: usize, hi: usize) -> (r: Vec<u8>)
    requires
        lo <= hi <= b@.len(),
    ensures
        r@ == b@.subrange(lo as int, hi as int),
{
    let mut r: Vec<u8> = Vec::new();
    let mut i = lo;
    while i < hi
        invariant
            lo <= i <= hi <= b@.len(),
            r@ == b@.subrange(lo as int, i as int),
        decreases hi - i,
    {
        r.push(b[i]);
        assert(b@.subrange(lo as int, i + 1) =~= b@.subrange(lo as int, i as int).push(b@[i as int]));
        i += 1;
    }
    r
}

/// The identifier extraction, telling apart the inputs on which it panics.
fn device_id_outcome(line: &str) -> (r: Option<Option<String>>)
    ensures
        match setupapi_id(line.spec_bytes()) {
            None => r is None,
            Some(None) => r matches Some(None),
            Some(Some(id)) => r matches Some(Some(x)) && x@ == id,
        },
{
    let b = line.as_bytes();
    let ghost bs = line.spec_bytes();
    let n = b.len();
    proof {
        lemma_tag_bytes();
        assert(valid_utf8(bs));
    }
    let s = match find_bytes_from(b, "VID_".as_bytes(), 0) {
        None => {
            return Some(None);
        },
        Some(s) => s,
    };
    proof {
        lemma_find_from(bs, "VID_".spec_bytes(), 0);
        assert(bs.subrange(s as int, s + 4)[0] == bs[s as int]);
    }
    let mut f = s;
    while f < n && !(b[f] == 0x5c || b[f] == 0x5d || b[f] == 0x26)
        invariant
            n == bs.len(),
            b@ == bs,
            s <= f <= n,
            first_terminator(bs, s as int) == first_terminator(bs, f as int),
        decreases n - f,
    {
        f += 1;
    }
    if f == n {
        return Some(None);
    }
    let amp = b[f] == 0x26;
    let mut has_pid = false;
    if amp {
        if !(s <= n && 20 <= n - s && line.is_char_boundary(s + 20)) {
            return None;
        }
        let window = copy_bytes(b, s, s + 20);
        has_pid = find_bytes_from(window.as_slice(), "PID_".as_bytes(), 0).is_some();
    }
    let e = if amp && has_pid {
        let mut c = s;
        while c < n && !(b[c] == 0x5c || b[c] == 0x5d)
            invariant
                n == bs.len(),
                b@ == bs,
                s <= c <= n,
                first_closer(bs, s as int) == first_closer(bs, c as int),
            decreases n - c,
        {
            c += 1;
        }
        if c == n {
            return Some(None);
        }
        c
    } else {
        f
    };
    let d = copy_bytes(b, s, e);
    if find_bytes_from(d.as_slice(), "PID_".as_bytes(), 0).is_none() {
        return Some(None);
    }
    let p = match find_bytes_from(d.as_slice(), "&PID_".as_bytes(), 0) {
        None => {
            return Some(None);
        },
        Some(p) => p,
    };
    proof {
        lemma_find_from(d@, "&PID_".spec_bytes(), 0);
        assert(d@.subrange(p as int, p + 5)[0] == d@[p as int]);
        assert(bs[s + p] == 0x26);
    }
    let q = s + p;
    if !(q <= e && 9 <= e - q && line.is_char_boundary(q + 5) && line.is_char_boundary(q + 9)) {
        return Some(None);
    }
    if !line.is_char_boundary(s + 8) {
        return None;
    }
    proof {
        lemma_ascii_boundary(bs, s as int);
        lemma_ascii_boundary(bs, q as int);
        lemma_suffix_boundary(bs, s as int, s + 8);
        lemma_suffix_boundary(bs, q as int, q + 9);
    }
    let (_, from_vid) = line.split_at(s);
    let (vid_part, _) = from_vid.split_at(8);
    let (_, from_pid) = line.split_at(q);
    let (pid_part, _) = from_pid.split_at(9);
    proof {
        assert(vid_part.spec_bytes() =~= bs.subrange(s as int, s + 8));
        assert(pid_part.spec_bytes() =~= bs.subrange(q as int, q + 9));
        encode_utf8_decode_utf8(vid_part@);
        encode_utf8_decode_utf8(pid_part@);
    }
    let mut id = String::from_str(vid_part);
    id.append(pid_part);
    Some(Some(id))
}

proof fn lemma_encode_concat(a: Seq<char>, c: Seq<char>)
    ensures
        encode_utf8(a + c) == encode_utf8(a) + encode_utf8(c),
    decreases a.len(),
{
    if a.len() == 0 {
        assert(a + c =~= c);
        assert(encode_utf8(a) + encode_utf8(c) =~= encode_utf8(c));
    } else {
        assert((a + c).drop_first() =~= a.drop_first() + c);
        assert((a + c)[0] == a[0]);
        lemma_encode_concat(a.drop_first(), c);
        assert(encode_scalar(a[0] as u32) + (encode_utf8(a.drop_first()) + encode_utf8(c))
            =~= (encode_scalar(a[0] as u32) + encode_utf8(a.drop_first())) + encode_utf8(c));
    }
}

/// The bytes of `decode_utf8(x) + decode_utf8(y)` for valid `x` and `y`.
proof fn lemma_encode_decoded_pair(x: Seq<u8>, y: Seq<u8>)
    requires
        valid_utf8(x),
        valid_utf8(y),
    ensures
        encode_utf8(decode_utf8(x) + decode_utf8(y)) == x + y,
{
    lemma_encode_concat(decode_utf8(x), decode_utf8(y));
    decode_utf8_encode_utf8(x);
    decode_utf8_encode_utf8(y);
}

/// Valid UTF-8 between two character boundaries.
proof fn lemma_valid_between(b: Seq<u8>, lo: int, hi: int)
    requires
        valid_utf8(b),
        0 <= lo <= hi <= b.len(),
        is_char_boundary(b, lo),
        is_char_boundary(b, hi),
    ensures
        valid_utf8(b.subrange(lo, hi)),
{
    lemma_suffix_boundary(b, lo, hi);
    let t = b.subrange(lo, b.len() as int);
    valid_utf8_split(t, hi - lo);
    assert(t.subrange(0, hi - lo) =~= b.subrange(lo, hi));
}

/// An extracted identifier is the `VID_` tag with the four bytes after it
/// followed by the `&PID_` tag with the four bytes after it: 17 bytes.
pub proof fn device_id_shape(b: Seq<u8>)
    requires
        valid_utf8(b),
        setupapi_id(b) matches Some(Some(_)),
    ensures
        encode_utf8(setupapi_id(b)->0->0).len() == 17,
        encode_utf8(setupapi_id(b)->0->0).take(4) == "VID_".spec_bytes(),
        encode_utf8(setupapi_id(b)->0->0).subrange(8, 13) == "&PID_".spec_bytes(),
{
    lemma_tag_bytes();
    let s = find(b, "VID_".spec_bytes())->0;
    lemma_find_from(b, "VID_".spec_bytes(), 0);
    lemma_first_terminator(b, s);
    let f = first_terminator(b, s)->0;
    let e = if b[f] == 0x26 && contains(b.subrange(s, s + 20), "PID_".spec_bytes()) {
        first_closer(b, s)->0
    } else {
        f
    };
    let d = b.subrange(s, e);
    let p = find(d, "&PID_".spec_bytes())->0;
    lemma_find_from(d, "&PID_".spec_bytes(), 0);
    let q = s + p;
    assert(d.subrange(p, p + 5)[0] == d[p]);
    assert(b[s] == 0x56);
    assert(b[q] == 0x26);
    lemma_ascii_boundary(b, s);
    lemma_ascii_boundary(b, q);
    lemma_valid_between(b, s, s + 8);
    lemma_valid_between(b, q, q + 9);
    lemma_encode_decoded_pair(b.subrange(s, s + 8), b.subrange(q, q + 9));
    let all = b.subrange(s, s + 8) + b.subrange(q, q + 9);
    assert(all.take(4) =~= b.subrange(s, s + 4));
    assert(all.subrange(8, 13) =~= d.subrange(p, p + 5));
}

/// Whether extracting the identifier of `line` would panic.
pub fn device_id_extraction_panics(line: &str) -> (r: bool)
    ensures
        r == (setupapi_id(line.spec_bytes()) is None),
{
    device_id_outcome(line).is_none()
}

/// The `VID_xxxx&PID_yyyy` identifier in a device install header line.
pub fn extract_device_id(line: &str) -> (r: Option<String>)
    requires
        setupapi_id(line.spec_bytes()) is Some,
    ensures
        match setupapi_id(line.spec_bytes()) {
            Some(Some(id)) => r matches Some(x) && x@ == id,
            _ => r is None,
        },
{
    match device_id_outcome(line) {
        Some(r) => r,
        None => None,
    }
}

/// Name for what `chrono::NaiveDateTime::parse_from_str(text, fmt)` yields,
/// read as a UTC instant: seconds and nanoseconds since the Unix epoch.
pub uninterp spec fn naive_datetime_utc(text: Seq<char>, fmt: Seq<char>) -> Option<(i64, u32)>;

/// Parses `text` by the `strftime` format `fmt` as a date and time in UTC
/// (`chrono::NaiveDateTime::parse_from_str`); the result is the one the
/// crate computes, which is named, not described.
#[verifier::external_body]
fn parse_naive_utc(text: &str, fmt: &str) -> (r: Option<Timestamp>)
    ensures
        r == timestamp_of(naive_datetime_utc(text@, fmt@)),
{
    match chrono::NaiveDateTime::parse_from_str(text, fmt) {
        Ok(dt) => Some(
            Timestamp { seconds: dt.and_utc().timestamp(), nanos: dt.and_utc().timestamp_subsec_nanos() },
        ),
        Err(_) => None,
    }
}

/// `w` with every `/` replaced by `-`.
pub open spec fn slashes_to_dashes(w: Seq<char>) -> Seq<char> {
    Seq::new(w.len(), |k: int| if w[k] == '/' { '-' } else { w[k] })
}

/// `w` up to its first `.`, or all of `w`.
pub open spec fn before_dot(w: Seq<char>) -> Seq<char> {
    match find(w, seq!['.']) {
        Some(k) => w.take(k),
        None => w,
    }
}

/// The date and time text of a `Section start` line, `YYYY-MM-DD HH:MM:SS`:
/// after the first `Section start`, the first two white-space separated
/// words of the trimmed rest, the date with `-` for `/` and the time
/// without its fraction. `None` when there is no such marker or fewer than
/// two words.
pub open spec fn timestamp_text(l: Seq<char>) -> Option<Seq<char>> {
    match find(l, "Section start"@) {
        None => None,
        Some(i) => {
            let t = trim(l.subrange(i + 13, l.len() as int));
            let a0 = skip_ws(t, 0);
            let b0 = word_end(t, a0);
            let a1 = skip_ws(t, b0);
            let b1 = word_end(t, a1);
            if a1 < t.len() {
                Some(
                    slashes_to_dashes(t.subrange(a0, b0)) + seq![' '] + before_dot(
                        t.subrange(a1, b1),
                    ),
                )
            } else {
                None
            }
        },
    }
}

/// The format of the date and time text.
pub open spec fn setupapi_time_format() -> Seq<char> {
    "%Y-%m-%d %H:%M:%S"@
}

/// The instant of a `Section start` line, as `parse_timestamp` gives it.
pub open spec fn line_timestamp(l: Seq<char>) -> Option<Timestamp> {
    match timestamp_text(l) {
        Some(t) => timestamp_of(naive_datetime_utc(t, setupapi_time_format())),
        None => None,
    }
}

/// The date and time text of a `Section start` line (see `timestamp_text`).
pub fn section_start_text(line: &str) -> (r: Option<String>)
    ensures
        match timestamp_text(line@) {
            Some(t) => r matches Some(x) && x@ == t,
            None => r is None,
        },
{
    let v = chars_of(line);
    let i = match find_str(&v, "Section start") {
        None => {
            return None;
        },
        Some(i) => i,
    };
    proof {
        reveal_strlit("Section start");
        lemma_find_from(v@, "Section start"@, 0);
    }
    proof {
        assert("Section start"@.len() == 13);
        assert(i + 13 <= v@.len());
        assert(v@.len() == v.len());
    }
    let (ta, tb) = trim_bounds(&v, i + 13, v.len());
    let t = sub_chars(&v, ta, tb);
    let a0 = skip_whitespace(&t, 0);
    let b0 = skip_word(&t, a0);
    let a1 = skip_whitespace(&t, b0);
    let b1 = skip_word(&t, a1);
    if a1 >= t.len() {
        return None;
    }
    let mut out: Vec<char> = Vec::new();
    let mut k = a0;
    while k < b0
        invariant
            a0 <= k <= b0 <= t.len(),
            out@ == slashes_to_dashes(t@.subrange(a0 as int, k as int)),
        decreases b0 - k,
    {
        let c = t[k];
        out.push(if c == '/' { '-' } else { c });
        assert(slashes_to_dashes(t@.subrange(a0 as int, k + 1)) =~= slashes_to_dashes(
            t@.subrange(a0 as int, k as int),
        ).push(if c == '/' { '-' } else { c }));
        k += 1;
    }
    out.push(' ');
    let ghost date = out@;
    let w = sub_chars(&t, a1, b1);
    let dot: Vec<char> = vec!['.'];
    let cut = match crate::text::find_chars_from(&w, &dot, 0) {
        Some(d) => d,
        None => w.len(),
    };
    proof {
        assert(dot@ =~= seq!['.']);
        lemma_find_from(w@, seq!['.'], 0);
    }
    let mut j: usize = 0;
    while j < cut
        invariant
            j <= cut <= w.len(),
            out@ == date + w@.take(j as int),
        decreases cut - j,
    {
        out.push(w[j]);
        assert(w@.take(j + 1) =~= w@.take(j as int).push(w@[j as int]));
        j += 1;
    }
    proof {
        assert(w@.take(w@.len() as int) =~= w@);
        assert(out@ =~= slashes_to_dashes(t@.subrange(a0 as int, b0 as int)) + seq![' '] + before_dot(
            w@,
        ));
    }
    Some(string_of_all(&out))
}

/// The instant of a `>>>  Section start YYYY/MM/DD HH:MM:SS.mmm` line, in
/// UTC, the milliseconds dropped.
pub fn parse_timestamp(line: &str) -> (r: Option<Timestamp>)
    ensures
        r == line_timestamp(line@),
{
    match section_start_text(line) {
        Some(text) => parse_naive_utc(text.as_str(), "%Y-%m-%d %H:%M:%S"),
        None => None,
    }
}

/// The characters of an optional string.
pub open spec fn opt_chars(o: Option<String>) -> Option<Seq<char>> {
    match o {
        Some(s) => Some(s@),
        None => None,
    }
}

/// A device install header: `>>>` and `Device Install` in the line.
pub open spec fn is_install_header(t: Seq<char>) -> bool {
    starts_with(t, ">>>"@) && contains(t, "Device Install"@)
}

/// A header of a USB device whose identifier is extracted.
pub open spec fn is_usb_header(t: Seq<char>) -> bool {
    is_install_header(t) && contains(t, "USB\\VID_"@)
}

/// One trimmed log line `t` applied to the timestamps found so far `m` and
/// the device waiting for its time `cur`; `parsed` is the instant of the
/// line when it is a `Section start` line. A device that already has a time
/// keeps it, so each device keeps the time it was first installed (the log
/// is written in time order). `None` when the identifier extraction panics
/// on the line.
pub open spec fn setupapi_step(
    m: Map<Seq<char>, Timestamp>,
    cur: Option<Seq<char>>,
    t: Seq<char>,
    parsed: Option<Timestamp>,
) -> Option<(Map<Seq<char>, Timestamp>, Option<Seq<char>>)> {
    if is_usb_header(t) && setupapi_id(encode_utf8(t)) is None {
        None
    } else {
        let cur1 = if is_usb_header(t) {
            setupapi_id(encode_utf8(t))->0
        } else if is_install_header(t) && contains(t, "USBSTOR"@) {
            Some("USBSTOR"@)
        } else {
            cur
        };
        if contains(t, "Section start"@) && parsed is Some && cur1 is Some {
            if m.dom().contains(cur1->0) {
                Some((m, None))
            } else {
                Some((m.insert(cur1->0, parsed->0), None))
            }
        } else {
            Some((m, cur1))
        }
    }
}

/// The scan of the log lines `ls` (each trimmed first); `None` when a line
/// makes the identifier extraction panic.
pub open spec fn setupapi_scan(ls: Seq<Seq<char>>) -> Option<
    (Map<Seq<char>, Timestamp>, Option<Seq<char>>),
>
    decreases ls.len(),
{
    if ls.len() == 0 {
        Some((Map::empty(), None))
    } else {
        match setupapi_scan(ls.drop_last()) {
            None => None,
            Some((m, c)) => {
                let t = trim(ls.last());
                setupapi_step(m, c, t, line_timestamp(t))
            },
        }
    }
}

/// The timestamps that the scan of `ls` has recorded; empty when the scan
/// aborts.
pub open spec fn scan_times(ls: Seq<Seq<char>>) -> Map<Seq<char>, Timestamp> {
    match setupapi_scan(ls) {
        Some((m, _)) => m,
        None => Map::empty(),
    }
}

/// Once a line aborts the scan, every longer prefix is aborted too.
proof fn lemma_scan_stays_aborted(ls: Seq<Seq<char>>, k: int)
    requires
        0 <= k <= ls.len(),
        setupapi_scan(ls.take(k)) is None,
    ensures
        setupapi_scan(ls.take(ls.len() as int)) is None,
    decreases ls.len() - k,
{
    if k < ls.len() {
        assert(ls.take(k + 1).drop_last() =~= ls.take(k));
        lemma_scan_stays_aborted(ls, k + 1);
    }
}

/// A time recorded after the first `n` lines stays, unchanged, to the end.
proof fn lemma_scan_keeps_recorded(ls: Seq<Seq<char>>, n: int, k: Seq<char>)
    requires
        0 <= n <= ls.len(),
        setupapi_scan(ls.take(n)) is Some,
        scan_times(ls.take(n)).dom().contains(k),
        setupapi_scan(ls) is Some,
    ensures
        scan_times(ls).dom().contains(k),
        scan_times(ls)[k] == scan_times(ls.take(n))[k],
    decreases ls.len() - n,
{
    if n == ls.len() {
        assert(ls.take(n) =~= ls);
    } else {
        assert(ls.take(n + 1).drop_last() =~= ls.take(n));
        lemma_scan_keeps_recorded_prefix(ls, n + 1);
        lemma_scan_keeps_recorded(ls, n + 1, k);
    }
}

/// A scan that completes completes on every prefix.
proof fn lemma_scan_keeps_recorded_prefix(ls: Seq<Seq<char>>, n: int)
    requires
        0 <= n <= ls.len(),
        setupapi_scan(ls) is Some,
    ensures
        setupapi_scan(ls.take(n)) is Some,
{
    if setupapi_scan(ls.take(n)) is None {
        lemma_scan_stays_aborted(ls, n);
        assert(ls.take(ls.len() as int) =~= ls);
    }
}

/// Each device keeps the first time recorded for it: a time recorded after
/// any prefix of the lines is the time in the end.
pub proof fn setupapi_first_time_kept(ls: Seq<Seq<char>>, n: int, k: Seq<char>)
    requires
        0 <= n <= ls.len(),
        setupapi_scan(ls) is Some,
        scan_times(ls.take(n)).dom().contains(k),
    ensures
        scan_times(ls).dom().contains(k),
        scan_times(ls)[k] == scan_times(ls.take(n))[k],
{
    lemma_scan_keeps_recorded_prefix(ls, n);
    lemma_scan_keeps_recorded(ls, n, k);
}

/// The characters of each line.
pub open spec fn lines_chars(ls: Seq<String>) -> Seq<Seq<char>> {
    ls.map_values(|l: String| l@)
}

/// Timestamps gathered from the log so far, and the device that waits for
/// its `Section start` line.
pub struct SetupApiScan {
    timestamps: TimestampMap,
    current: Option<String>,
}

impl SetupApiScan {
    /// The timestamps found so far.
    pub closed spec fn found(&self) -> Map<Seq<char>, Timestamp> {
        self.timestamps@
    }

    /// The identifier waiting for its time.
    pub closed spec fn pending(&self) -> Option<Seq<char>> {
        opt_chars(self.current)
    }

    /// A scan that has seen no line.
    pub fn new() -> (r: Self)
        ensures
            r.found() == Map::<Seq<char>, Timestamp>::empty(),
            r.pending() is None,
    {
        SetupApiScan { timestamps: TimestampMap::new(), current: None }
    }

    /// Applies the trimmed line `line`, whose instant is `parsed` when it is
    /// a `Section start` line. Returns `false`, and changes nothing, when the
    /// identifier extraction panics on the line.
    pub fn step(&mut self, line: &str, parsed: Option<Timestamp>) -> (ok: bool)
        ensures
            match setupapi_step(old(self).found(), old(self).pending(), line@, parsed) {
                None => !ok && final(self).found() == old(self).found() && final(self).pending()
                    == old(self).pending(),
                Some((m, c)) => ok && final(self).found() == m && final(self).pending() == c,
            },
    {
        let t = chars_of(line);
        let header = starts_with_str(&t, ">>>") && contains_str(&t, "Device Install");
        if header {
            if contains_str(&t, "USB\\VID_") {
                match device_id_outcome(line) {
                    None => {
                        return false;
                    },
                    Some(id) => {
                        self.current = id;
                    },
                }
            } else if contains_str(&t, "USBSTOR") {
                self.current = Some(String::from_str("USBSTOR"));
            }
        }
        if contains_str(&t, "Section start") {
            if let Some(ts) = parsed {
                if self.current.is_some() {
                    let mut cur = None;
                    std::mem::swap(&mut cur, &mut self.current);
                    match cur {
                        Some(d) => {
                            if self.timestamps.get(&d).is_none() {
                                self.timestamps.insert(d, ts);
                            }
                        },
                        None => {},
                    }
                }
            }
        }
        true
    }

    /// The timestamps found.
    pub fn into_timestamps(self) -> (r: TimestampMap)
        ensures
            r@ == self.found(),
    {
        self.timestamps
    }
}

/// The installation timestamps of the lines of `setupapi.dev.log`, keyed
/// by `VID_xxxx&PID_yyyy` (or `USBSTOR`); `None` when a line makes the
/// identifier extraction panic, which aborts the scan. The log is written
/// in time order, and each device keeps the time of its first header and
/// `Section start` pair: a time recorded after any prefix of the lines is
/// the time returned.
pub fn parse_setupapi_lines(lines: &Vec<String>) -> (r: Option<TimestampMap>)
    ensures
        match setupapi_scan(lines_chars(lines@)) {
            None => r is None,
            Some((m, _)) => r matches Some(x) && x@ == m,
        },
        forall|n: int, k: Seq<char>|
            0 <= n <= lines@.len() && r is Some && #[trigger] scan_times(
                lines_chars(lines@).take(n),
            ).dom().contains(k) ==> r->0@.dom().contains(k) && r->0@[k] == scan_times(
                lines_chars(lines@).take(n),
            )[k],
{
    proof {
        assert forall|n: int, k: Seq<char>|
            0 <= n <= lines@.len() && setupapi_scan(lines_chars(lines@)) is Some
                && #[trigger] scan_times(lines_chars(lines@).take(n)).dom().contains(
                k,
            ) implies scan_times(lines_chars(lines@)).dom().contains(k) && scan_times(
            lines_chars(lines@),
        )[k] == scan_times(lines_chars(lines@).take(n))[k] by {
            setupapi_first_time_kept(lines_chars(lines@), n, k);
        }
    }
    let ghost ls = lines_chars(lines@);
    let mut scan = SetupApiScan::new();
    let mut i: usize = 0;
    while i < lines.len()
        invariant
            i <= lines.len(),
            ls == lines_chars(lines@),
            setupapi_scan(ls.take(i as int)) == Some((scan.found(), scan.pending())),
        decreases lines.len() - i,
    {
        let v = chars_of(lines[i].as_str());
        let (a, b) = trim_bounds(&v, 0, v.len());
        proof {
            assert(v@.subrange(0, v@.len() as int) =~= v@);
            assert(ls.take(i + 1).drop_last() =~= ls.take(i as int));
        }
        let t = string_of(&v, a, b);
        let tc = sub_chars(&v, a, b);
        let parsed = if contains_str(&tc, "Section start") {
            parse_timestamp(t.as_str())
        } else {
            None
        };
        if !scan.step(t.as_str(), parsed) {
            proof {
                lemma_scan_stays_aborted(ls, i + 1);
                assert(ls.take(ls.len() as int) =~= ls);
            }
            return None;
        }
        i += 1;
    }
    proof {
        assert(ls.take(ls.len() as int) =~= ls);
    }
    Some(scan.into_timestamps())
}

} // verus!
