//! Points in time, and the texts that stand for them.

use crate::text;
use vstd::prelude::*;

verus! {

/// A point in time: whole seconds since 1970, and nanoseconds of the next one.
#[derive(Debug)]
pub struct Moment {
    pub secs: i64,
    pub nanos: u32,
}

impl Moment {
    /// Whether the moment lies in the years 1970 to 9999, which a text with a year of four digits
    /// can stand for.
    pub open spec fn valid(&self) -> bool {
        0 <= self.secs <= 253_402_300_799 && self.nanos < 1_000_000_000
    }
}

/// The whole seconds of a time span, with what is left over cut off.
pub open spec fn whole_seconds(secs: int, nanos: int) -> int {
    let total = secs * 1_000_000_000 + nanos;
    if total >= 0 {
        total / 1_000_000_000
    } else {
        -((-total) / 1_000_000_000)
    }
}

/// The seconds that have gone by at a moment since the one that a text stands for; `None` where it
/// stands for none.
pub uninterp spec fn seconds_since(text: Seq<char>, secs: i64, nanos: u32) -> Option<i64>;

/// The text of a moment in the form of RFC 3339, with as many decimals as it needs.
pub uninterp spec fn rfc3339(secs: i64, nanos: u32) -> Seq<char>;

/// The text of a moment in the form of RFC 3339, with nine decimals and a `Z`.
pub uninterp spec fn rfc3339_nanos(secs: i64, nanos: u32) -> Seq<char>;

/// `DateTime::parse_from_rfc3339`, and `DateTime::signed_duration_since` from the moment that the
/// text stands for, in whole seconds.
#[verifier::external_body]
pub(crate) fn seconds_since_text(text: &str, now: &Moment) -> (r: Option<i64>)
    requires
        now.valid(),
    ensures
        r == seconds_since(text@, now.secs, now.nanos),
{
    let now = chrono::DateTime::from_timestamp(now.secs, now.nanos).unwrap_or_default();
    let then = chrono::DateTime::parse_from_rfc3339(text).ok()?;
    Some(now.signed_duration_since(then.with_timezone(&chrono::Utc)).num_seconds())
}

/// `DateTime::to_rfc3339`. Reading the text gives the moment back: at any other moment, the seconds
/// since then are those between the two.
#[verifier::external_body]
pub(crate) fn rfc3339_text(moment: &Moment) -> (r: String)
    requires
        moment.valid(),
    ensures
        r@ == rfc3339(moment.secs, moment.nanos),
        forall|secs: i64, nanos: u32|
            (Moment { secs, nanos }).valid() ==> #[trigger] seconds_since(r@, secs, nanos) == Some(
                whole_seconds(secs - moment.secs, nanos - moment.nanos) as i64,
            ),
{
    chrono::DateTime::from_timestamp(moment.secs, moment.nanos).unwrap_or_default().to_rfc3339()
}

/// `DateTime::to_rfc3339_opts` with `SecondsFormat::Nanos` and a `Z`.
#[verifier::external_body]
pub(crate) fn rfc3339_nanos_text(moment: &Moment) -> (r: String)
    requires
        moment.valid(),
    ensures
        r@ == rfc3339_nanos(moment.secs, moment.nanos),
{
    chrono::DateTime::from_timestamp(moment.secs, moment.nanos)
        .unwrap_or_default()
        .to_rfc3339_opts(chrono::SecondsFormat::Nanos, true)
}

} // verus!
