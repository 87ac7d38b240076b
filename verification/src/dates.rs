use vstd::prelude::*;

verus! {

/// The first unix timestamp chrono can place on its calendar: midnight
/// opening the earliest representable day (year -262143, January 1).
pub const TIMESTAMP_MIN: i64 = -8_334_601_228_800;

/// The last such timestamp: the final second of the latest representable
/// day (year 262142, December 31).
pub const TIMESTAMP_MAX: i64 = 8_210_266_876_799;

/// The timestamps that have a calendar date; everything outside is
/// rejected as unrepresentable.
pub open spec fn timestamp_in_range(t: int) -> bool {
    TIMESTAMP_MIN <= t <= TIMESTAMP_MAX
}

/// The `YYYY-MM-DD` rendering of the UTC calendar day containing unix
/// time `t`, as chrono formats it.
pub uninterp spec fn date_of_timestamp(t: int) -> Seq<char>;

/// `d` renders the calendar day of `t` in some fixed UTC offset: the
/// day `t` falls on in a time zone whose offset chrono bounds strictly
/// within one day. This is what "the local calendar date of `t`" can
/// say without fixing the host's zone.
pub open spec fn is_local_date_of(d: Seq<char>, t: int) -> bool {
    exists|off: int| -86400 < off < 86400 && d == #[trigger] date_of_timestamp(t + off)
}

/// Relies on chrono's `DateTime::from_timestamp`, `with_timezone` into
/// `Local`, and `%Y-%m-%d` formatting. The conversion succeeds exactly
/// on `timestamp_in_range` (the bounds are the timestamps of chrono's
/// earliest and latest representable days). The rendered local day is
/// the UTC day of `t` shifted by the zone's offset, which chrono's
/// `FixedOffset` keeps strictly within one day; which offset the host
/// zone holds is not promised.
#[verifier::external_body]
pub(crate) fn local_date_of(t: i64) -> (r: Option<String>)
    ensures
        r is Some <==> timestamp_in_range(t as int),
        r matches Some(s) ==> exists|off: int|
            -86400 < off < 86400 && s@ == #[trigger] date_of_timestamp(t as int + off),
{
    chrono::DateTime::from_timestamp(t, 0)
        .map(|d| d.with_timezone(&chrono::Local).format("%Y-%m-%d").to_string())
}

/// Relies on chrono's `Local::now` with `%Y-%m-%d` formatting. The value
/// depends on the host clock and time zone, so nothing is promised of it.
#[verifier::external_body]
pub(crate) fn today_local() -> (r: String) {
    chrono::Local::now().format("%Y-%m-%d").to_string()
}

/// Relies on chrono's `Local::now().timestamp()`. The value depends on
/// the host clock, so nothing is promised of it.
#[verifier::external_body]
pub(crate) fn now_timestamp() -> (r: i64) {
    chrono::Local::now().timestamp()
}

/// The decimal digit character for `d`.
pub open spec fn digit_char(d: int) -> char
    recommends
        0 <= d < 10,
{
    ((48 + d) as u32) as char
}

/// Two zero-padded decimal digits for `n`.
pub open spec fn two_digits(n: int) -> Seq<char>
    recommends
        0 <= n < 100,
{
    seq![digit_char(n / 10), digit_char(n % 10)]
}

/// The `HH:MM` rendering of the UTC time of day at unix time `t`.
pub open spec fn hm_of_timestamp(t: int) -> Seq<char> {
    let s = ((t % 86400) + 86400) % 86400;
    two_digits(s / 3600) + seq![':'] + two_digits((s / 60) % 60)
}

fn digit_of(d: u8) -> (r: char)
    requires
        d < 10,
    ensures
        r == digit_char(d as int),
{
    (48 + d) as char
}

/// Renders the UTC time of day of `t` as a zero-padded `HH:MM` string.
pub fn format_hm(t: i64) -> (r: String)
    ensures
        r@ == hm_of_timestamp(t as int),
{
    let m: i64 = t % 86400;
    let tod: i64 = if m < 0 {
        m + 86400
    } else {
        m
    };
    assert(tod == ((t as int % 86400) + 86400) % 86400);
    let hh: i64 = tod / 3600;
    let mm: i64 = (tod / 60) % 60;
    let mut out = String::new();
    let c1 = digit_of((hh / 10) as u8);
    let c2 = digit_of((hh % 10) as u8);
    let c3 = digit_of((mm / 10) as u8);
    let c4 = digit_of((mm % 10) as u8);
    push_char(&mut out, c1);
    push_char(&mut out, c2);
    push_char(&mut out, ':');
    push_char(&mut out, c3);
    push_char(&mut out, c4);
    proof {
        assert(out@ =~= hm_of_timestamp(t as int));
    }
    out
}

/// Relies on `String::push`: appends exactly one character.
#[verifier::external_body]
pub(crate) fn push_char(s: &mut String, c: char)
    ensures
        final(s)@ == old(s)@.push(c),
{
    s.push(c)
}

} // verus!
