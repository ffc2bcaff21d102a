//! Timestamps and their on-disk rendering. The cache stores instants as unix
//! seconds and persists them in RFC 3339 form through the `time` crate; the
//! rendering itself is trusted, named by `rfc3339_of`.
use vstd::prelude::*;

verus! {

/// Last unix second the RFC 3339 renderer accepts: 9999-12-31T23:59:59Z.
pub const MAX_RFC3339_SECS: i64 = 253402300799;

/// The unset sentinel: the origin of unix time.
pub const ORIGIN_SECS: i64 = 0;

pub open spec fn valid_ts(t: i64) -> bool {
    0 <= t <= MAX_RFC3339_SECS
}

/// What the `time` crate prints for the instant `t` seconds after the unix
/// epoch, in the well-known RFC 3339 format; a function of `t` alone.
pub uninterp spec fn rfc3339_of(t: i64) -> Seq<char>;

/// Relies on time::OffsetDateTime::now_utc, read as unix seconds. Nothing is
/// promised of a clock.
#[verifier::external_body]
pub(crate) fn now_unix() -> i64 {
    time::OffsetDateTime::now_utc().unix_timestamp()
}

/// Relies on time's OffsetDateTime::format with the well-known RFC 3339
/// description: the output is determined by the instant and is built from
/// digits and the punctuation `-:TZ.+`, so it never holds a space, a line
/// break, or a percent sign.
#[verifier::external_body]
pub(crate) fn format_rfc3339(t: i64) -> (r: String)
    requires
        valid_ts(t),
    ensures
        r@ == rfc3339_of(t),
        r@.len() > 0,
        forall|i: int|
            0 <= i < r@.len() ==> r@[i] != ' ' && r@[i] != '\n' && r@[i] != '\r' && r@[i] != '%',
{
    let odt = time::OffsetDateTime::from_unix_timestamp(t).unwrap();
    odt.format(&time::format_description::well_known::Rfc3339).unwrap()
}

/// Relies on time's OffsetDateTime::parse with the well-known RFC 3339
/// description: a string that the formatter produced for an instant parses
/// back to that instant.
#[verifier::external_body]
pub(crate) fn parse_rfc3339(s: &str) -> (r: Option<i64>)
    ensures
        forall|t: i64| valid_ts(t) && s@ == #[trigger] rfc3339_of(t) ==> r == Some(t),
{
    match time::OffsetDateTime::parse(s, &time::format_description::well_known::Rfc3339) {
        Ok(odt) => Some(odt.unix_timestamp()),
        Err(_) => None,
    }
}

/// A clock reading forced into the representable range.
pub fn clamp_ts(t: i64) -> (r: i64)
    ensures
        valid_ts(r),
        valid_ts(t) ==> r == t,
{
    if t < 0 {
        0
    } else if t > MAX_RFC3339_SECS {
        MAX_RFC3339_SECS
    } else {
        t
    }
}

/// The current unix second, clamped into the representable range.
pub fn now_ts() -> (r: i64)
    ensures
        valid_ts(r),
{
    clamp_ts(now_unix())
}

} // verus!
