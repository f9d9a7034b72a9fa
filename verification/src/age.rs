//! How long ago a project was modified, as the project list words it.

use vstd::prelude::*;
use crate::project::Timestamp;

verus! {

/// Nanoseconds in a second.
pub const NANOS_PER_SECOND: i128 = 1_000_000_000;

/// Below this many seconds a modification counts as just made.
pub const JUST_NOW_SECONDS: i64 = 60;

/// Up to this many seconds the distance is spelled out; beyond it the date
/// is shown.
pub const SPELLED_OUT_SECONDS: i64 = 172_800;

/// How a modification time relates to the present.
#[derive(Debug, Clone, Copy, PartialEq, Eq)]
pub enum Age {
    /// Less than a minute away.
    JustNow,
    /// More than two days away: shown as a date.
    OnDate,
    /// So many whole seconds in the past.
    Ago(i64),
    /// So many whole seconds in the future.
    FromNow(i64),
}

impl Age {
    /// A spelled-out distance lies between a minute and two days.
    pub open spec fn wf(self) -> bool {
        match self {
            Age::Ago(seconds) => JUST_NOW_SECONDS <= seconds <= SPELLED_OUT_SECONDS,
            Age::FromNow(seconds) => JUST_NOW_SECONDS <= seconds <= SPELLED_OUT_SECONDS,
            _ => true,
        }
    }
}

/// The age of `modified` at the time `now`.
pub open spec fn age_at(now: Timestamp, modified: Timestamp) -> Age {
    let distance = now - modified;
    let size = if distance >= 0 {
        distance
    } else {
        -distance
    };
    if size < JUST_NOW_SECONDS * NANOS_PER_SECOND {
        Age::JustNow
    } else if size > SPELLED_OUT_SECONDS * NANOS_PER_SECOND {
        Age::OnDate
    } else if distance >= 0 {
        Age::Ago((size / NANOS_PER_SECOND as int) as i64)
    } else {
        Age::FromNow((size / NANOS_PER_SECOND as int) as i64)
    }
}

/// Tells how a modification time relates to the present.
pub fn age(now: Timestamp, modified: Timestamp) -> (r: Age)
    ensures
        r == age_at(now, modified),
        r.wf(),
{
    let limit: i128 = 172_800_000_000_000;
    let least: i128 = 60_000_000_000;
    match now.checked_sub(modified) {
        Some(distance) => {
            if distance > limit || distance < -limit {
                Age::OnDate
            } else if distance >= 0 {
                if distance < least {
                    Age::JustNow
                } else {
                    Age::Ago((distance / NANOS_PER_SECOND) as i64)
                }
            } else {
                let size: i128 = -distance;
                if size < least {
                    Age::JustNow
                } else {
                    Age::FromNow((size / NANOS_PER_SECOND) as i64)
                }
            }
        },
        None => Age::OnDate,
    }
}

/// A unit in which a distance is spelled out.
#[derive(Debug, Clone, Copy, PartialEq, Eq)]
pub enum SpanPart {
    Days,
    Hours,
    Minutes,
}

/// The units in which a distance is spelled out: days, hours and minutes.
pub open spec fn spelled_units() -> Seq<SpanPart> {
    seq![SpanPart::Days, SpanPart::Hours, SpanPart::Minutes]
}

/// Lists the units in which a distance is spelled out.
pub fn spelled_parts() -> (parts: Vec<SpanPart>)
    ensures
        parts@ == spelled_units(),
{
    let mut parts: Vec<SpanPart> = Vec::new();
    parts.push(SpanPart::Days);
    parts.push(SpanPart::Hours);
    parts.push(SpanPart::Minutes);
    proof {
        assert(parts@ =~= spelled_units());
    }
    parts
}

/// The text that `fancy_duration` gives for a span of whole seconds of which
/// only the units in `kept` are kept.
pub uninterp spec fn fancy_span(seconds: i64, kept: Seq<SpanPart>) -> Seq<char>;

/// Calls `fancy_duration::FancyDuration::filter` with the kept units, and
/// its `Display`, on a `chrono::TimeDelta` of so many seconds. Trusted: the
/// text is a function of the seconds and the kept units alone. The span is
/// kept within two days, where neither call can fail.
#[verifier::external_body]
fn format_span(seconds: i64, kept: &Vec<SpanPart>) -> (text: String)
    requires
        0 <= seconds <= SPELLED_OUT_SECONDS,
    ensures
        text@ == fancy_span(seconds, kept@),
{
    let mut parts: Vec<fancy_duration::DurationPart> = Vec::new();
    for part in kept {
        parts.push(match part {
            SpanPart::Days => fancy_duration::DurationPart::Days,
            SpanPart::Hours => fancy_duration::DurationPart::Hours,
            SpanPart::Minutes => fancy_duration::DurationPart::Minutes,
        });
    }
    let span = chrono::TimeDelta::seconds(seconds);
    fancy_duration::FancyDuration::new(span).filter(&parts).to_string()
}

/// The words for an age whose distance, where one is spelled out, reads
/// `span`. A date has none: it is written out by whoever knows the time zone.
pub open spec fn words(age: Age, span: Seq<char>) -> Option<Seq<char>> {
    match age {
        Age::JustNow => Some("just now"@),
        Age::OnDate => None,
        Age::Ago(_) => Some(span + " ago"@),
        Age::FromNow(_) => Some(span + " from now"@),
    }
}

/// The seconds that an age spells out, or none.
pub open spec fn spelled_out(age: Age) -> i64 {
    match age {
        Age::Ago(seconds) => seconds,
        Age::FromNow(seconds) => seconds,
        _ => 0,
    }
}

/// Puts an age in words around its spelled-out distance.
pub fn age_words(age: Age, span: String) -> (r: Option<String>)
    ensures
        match words(age, span@) {
            Some(text) => r matches Some(s) && s@ == text,
            None => r is None,
        },
{
    match age {
        Age::JustNow => Some("just now".to_owned()),
        Age::OnDate => None,
        Age::Ago(_) => Some(span.concat(" ago")),
        Age::FromNow(_) => Some(span.concat(" from now")),
    }
}

/// Puts an age in words.
pub fn age_text(age: Age) -> (r: Option<String>)
    requires
        age.wf(),
    ensures
        match words(age, fancy_span(spelled_out(age), spelled_units())) {
            Some(text) => r matches Some(s) && s@ == text,
            None => r is None,
        },
{
    match age {
        Age::Ago(seconds) => age_words(age, format_span(seconds, &spelled_parts())),
        Age::FromNow(seconds) => age_words(age, format_span(seconds, &spelled_parts())),
        _ => age_words(age, String::new()),
    }
}

} // verus!
