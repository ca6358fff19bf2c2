//! Moments as the database writes them.

use vstd::prelude::*;
use crate::db::types::Moment;

verus! {

/// The moment that `chrono` reads from a text in RFC 3339, or `None` where it
/// reports an error.
pub uninterp spec fn rfc3339_reading(value: Seq<char>) -> Option<Moment>;

/// The moment that `chrono` reads from a text without a time zone in a format, as
/// UTC, or the text of the error that it reports.
pub uninterp spec fn naive_reading(value: Seq<char>, format: Seq<char>) -> Result<
    Moment,
    Seq<char>,
>;

/// The text in RFC 3339 that `chrono` writes for a moment, or `None` where the
/// moment is out of its range.
pub uninterp spec fn rfc3339_writing(moment: Moment) -> Option<Seq<char>>;

/// Whether a moment lies in the years 0 to 9999 and within its second.
pub open spec fn has_plain_year(moment: Moment) -> bool {
    -62167219200 <= moment.seconds <= 253402300799 && moment.nanos < 1000000000
}

/// `DateTime::parse_from_rfc3339`: the same text gives the same moment.
#[verifier::external_body]
fn read_rfc3339(value: &str) -> (out: Option<Moment>)
    ensures
        out == rfc3339_reading(value@),
{
    let parsed = chrono::DateTime::parse_from_rfc3339(value).ok()?;
    Some(Moment { seconds: parsed.timestamp(), nanos: parsed.timestamp_subsec_nanos() })
}

/// `NaiveDateTime::parse_from_str`: the same text and format give the same moment, or
/// the same text of an error.
#[verifier::external_body]
fn read_naive(value: &str, format: &str) -> (out: Result<Moment, String>)
    ensures
        match out {
            Ok(m) => naive_reading(value@, format@) == Ok::<Moment, Seq<char>>(m),
            Err(e) => naive_reading(value@, format@) == Err::<Moment, Seq<char>>(e@),
        },
{
    let parsed = chrono::NaiveDateTime::parse_from_str(value, format).map_err(|e| e.to_string())?;
    let at = parsed.and_utc();
    Ok(Moment { seconds: at.timestamp(), nanos: at.timestamp_subsec_nanos() })
}

/// `DateTime::from_timestamp` and `DateTime::to_rfc3339`: the same moment gives the
/// same text. In the years 0 to 9999 there is a text, and reading it gives the
/// moment back.
#[verifier::external_body]
pub(crate) fn write_rfc3339(moment: Moment) -> (out: Option<String>)
    ensures
        match out {
            Some(t) => rfc3339_writing(moment) == Some(t@),
            None => rfc3339_writing(moment) is None,
        },
        has_plain_year(moment) ==> out is Some && rfc3339_reading(out->0@) == Some(moment),
{
    let at = chrono::DateTime::from_timestamp(moment.seconds, moment.nanos)?;
    Some(at.to_rfc3339())
}

/// The text that `chrono` writes for a moment in a format, or `None` where the moment is
/// out of its range.
pub uninterp spec fn formatting(moment: Moment, format: Seq<char>) -> Option<Seq<char>>;

/// `DateTime::from_timestamp` and `DateTime::format` with a format of plain date and
/// time fields: the same moment gives the same text. In the years 0 to 9999 there is
/// one.
#[verifier::external_body]
pub(crate) fn write_formatted(moment: Moment, format: &str) -> (out: Option<String>)
    requires
        format@ == "%Y-%m-%d %H:%M:%S"@,
    ensures
        match out {
            Some(t) => formatting(moment, format@) == Some(t@),
            None => formatting(moment, format@) is None,
        },
        has_plain_year(moment) ==> out is Some,
{
    let at = chrono::DateTime::from_timestamp(moment.seconds, moment.nanos)?;
    Some(at.format(format).to_string())
}

/// The moment that a stored text means: as RFC 3339, else as a plain date and time,
/// whose error it is where neither can be read.
pub open spec fn stored_moment(value: Seq<char>) -> Result<Moment, Seq<char>> {
    match rfc3339_reading(value) {
        Some(m) => Ok(m),
        None => naive_reading(value, "%Y-%m-%d %H:%M:%S"@),
    }
}

/// Takes the first reading where there is one, else the second.
pub fn first_reading(rfc3339: Option<Moment>, naive: Result<Moment, String>) -> (out: Result<
    Moment,
    String,
>)
    ensures
        out == (match rfc3339 {
            Some(m) => Ok::<Moment, String>(m),
            None => naive,
        }),
{
    match rfc3339 {
        Some(m) => Ok(m),
        None => naive,
    }
}

/// The moment that a stored text means.
pub fn parse_datetime(value: &str) -> (out: Result<Moment, String>)
    ensures
        match out {
            Ok(m) => stored_moment(value@) == Ok::<Moment, Seq<char>>(m),
            Err(e) => stored_moment(value@) == Err::<Moment, Seq<char>>(e@),
        },
{
    first_reading(read_rfc3339(value), read_naive(value, "%Y-%m-%d %H:%M:%S"))
}

/// The moment that an optional text means, where there is one.
pub open spec fn opt_moment(value: Option<String>) -> Result<Option<Moment>, Seq<char>> {
    match value {
        Some(v) => match stored_moment(v@) {
            Ok(m) => Ok(Some(m)),
            Err(e) => Err(e),
        },
        None => Ok(None),
    }
}

/// The moment that an optional stored text means.
pub fn parse_optional_datetime(value: &Option<String>) -> (out: Result<Option<Moment>, String>)
    ensures
        match out {
            Ok(m) => opt_moment(*value) == Ok::<Option<Moment>, Seq<char>>(m),
            Err(e) => opt_moment(*value) == Err::<Option<Moment>, Seq<char>>(e@),
        },
{
    match value {
        Some(v) => match parse_datetime(v.as_str()) {
            Ok(m) => Ok(Some(m)),
            Err(e) => Err(e),
        },
        None => Ok(None),
    }
}

/// A stored text is read as RFC 3339 where it can be, and as a plain date and time only
/// where it cannot; nothing is read where neither can.
pub proof fn lemma_stored_texts_are_read(value: Option<String>)
    ensures
        value is None ==> opt_moment(value) == Ok::<Option<Moment>, Seq<char>>(None),
        value matches Some(v) ==> {
            let plain = naive_reading(v@, "%Y-%m-%d %H:%M:%S"@);
            &&& rfc3339_reading(v@) is Some ==> opt_moment(value) == Ok::<
                Option<Moment>,
                Seq<char>,
            >(rfc3339_reading(v@))
            &&& rfc3339_reading(v@) is None && plain is Ok ==> opt_moment(value) == Ok::<
                Option<Moment>,
                Seq<char>,
            >(Some(plain->Ok_0))
            &&& opt_moment(value) is Err <==> rfc3339_reading(v@) is None && plain is Err
            &&& opt_moment(value) is Err ==> opt_moment(value)->Err_0 == plain->Err_0
        },
{
}

} // verus!
