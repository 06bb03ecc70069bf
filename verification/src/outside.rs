//! The calls that the library makes into other crates, and into a part of the
//! standard library that the verifier knows nothing of. Nothing in this file is
//! proved: each function's contract says what its call is taken to do.

use vstd::prelude::*;
use vstd::string::*;

use crate::text;
use crate::time;
use crate::urls;

verus! {

/// What `urlencoding::decode` makes of a percent-encoded text; `None` where the
/// decoded bytes are not UTF-8.
pub uninterp spec fn url_decoded(raw: Seq<char>) -> Option<Seq<char>>;

/// `urlencoding::decode`: the result depends on the text alone, and a text
/// without `%` decodes to itself.
#[verifier::external_body]
pub(crate) fn url_decode(raw: &str) -> (decoded: Option<String>)
    ensures
        text::optional_text(decoded) == url_decoded(raw@),
        !raw@.contains('%') ==> text::optional_text(decoded) == Some(raw@),
{
    urlencoding::decode(raw).ok().map(|text| text.into_owned())
}

/// `urlencoding::encode`: each byte of the text's UTF-8 form that is a letter or digit
/// of ASCII, `-`, `_`, `.` or `~` stays, every other becomes `%` and two capital
/// hexadecimal digits.
#[verifier::external_body]
pub(crate) fn url_encode(plain: &str) -> (encoded: String)
    ensures
        encoded@ == urls::encoded(plain@),
{
    urlencoding::encode(plain).into_owned()
}

/// What `bcrypt::verify` answers to whether a password fits a stored hash; `None`
/// where what is stored is no bcrypt hash.
pub uninterp spec fn bcrypt_answer(stored: Seq<char>, given: Seq<char>) -> Option<bool>;

/// `bcrypt::verify`: the answer depends on the hash and the password alone.
#[verifier::external_body]
pub(crate) fn bcrypt_verify(stored: &str, given: &str) -> (answer: Option<bool>)
    ensures
        answer == bcrypt_answer(stored@, given@),
{
    bcrypt::verify(given, stored).ok()
}

/// A character that `bcrypt::hash` can write.
pub open spec fn is_bcrypt_char(c: char) -> bool {
    text::is_alphanumeric(c) || c == '$' || c == '.' || c == '/'
}

/// `bcrypt::hash` at `bcrypt::DEFAULT_COST`: the salt is random, so two calls
/// differ. A hash that it returns fits the password it was made from, begins with
/// `$2b$12$` and holds letters and digits of ASCII, `$`, `.` and `/` only. It fails
/// where the system gives no randomness; the error is then the text of the
/// `bcrypt::BcryptError`.
#[verifier::external_body]
pub(crate) fn bcrypt_hash(password: &str) -> (hash: Result<String, String>)
    ensures
        hash matches Ok(h) ==> bcrypt_answer(h@, password@) == Some(true),
        hash matches Ok(h) ==> "$2b$12$"@.is_prefix_of(h@),
        hash matches Ok(h) ==> forall|i: int|
            0 <= i < h@.len() ==> is_bcrypt_char(#[trigger] h@[i]),
{
    bcrypt::hash(password, bcrypt::DEFAULT_COST).map_err(|error| error.to_string())
}

/// A character that HTTP allows in a header name.
pub open spec fn is_header_name_char(c: char) -> bool {
    ||| text::is_alphanumeric(c)
    ||| c == '!' || c == '#' || c == '$' || c == '%' || c == '&' || c == '\'' || c == '*'
    ||| c == '+' || c == '-' || c == '.' || c == '^' || c == '_' || c == '`' || c == '|'
    ||| c == '~'
}

/// A text that names an HTTP header.
pub open spec fn is_header_name(name: Seq<char>) -> bool {
    &&& 0 < name.len() <= 65535
    &&& forall|i: int| 0 <= i < name.len() ==> is_header_name_char(#[trigger] name[i])
}

/// `axum::http::HeaderName::from_bytes` accepts one to 65535 characters of the
/// set that HTTP allows in a header name, and nothing else.
#[verifier::external_body]
pub(crate) fn header_name_accepted(name: &str) -> (accepted: bool)
    ensures
        accepted == is_header_name(name@),
{
    axum::http::HeaderName::from_bytes(name.as_bytes()).is_ok()
}

/// A text that can stand as the value of an HTTP header: no control characters
/// but the tab.
pub open spec fn is_header_value(value: Seq<char>) -> bool {
    forall|i: int|
        0 <= i < value.len() ==> (' ' <= #[trigger] value[i] && value[i] != '\u{7f}')
            || value[i] == '\t'
}

/// `axum::http::HeaderValue::from_str` accepts a text whose bytes are 32 and
/// above but for 127, and the tab. Every byte of a character outside ASCII is
/// above 127.
#[verifier::external_body]
pub(crate) fn header_value_accepted(value: &str) -> (accepted: bool)
    ensures
        accepted == is_header_value(value@),
{
    axum::http::HeaderValue::from_str(value).is_ok()
}

/// `axum::http::StatusCode::from_u16` accepts 100 to 999, and nothing else.
#[verifier::external_body]
pub(crate) fn status_code_accepted(status: u16) -> (accepted: bool)
    ensures
        accepted == (100 <= status <= 999),
{
    axum::http::StatusCode::from_u16(status).is_ok()
}

/// `rand::distributions::Alphanumeric`, sampled `length` times from
/// `rand::thread_rng`: letters and digits of ASCII, drawn at random. The call panics
/// where the system gives no entropy to seed the generator with.
#[verifier::external_body]
pub(crate) fn random_alphanumeric(length: usize) -> (token: String)
    ensures
        token@.len() == length,
        forall|i: int|
            0 <= i < token@.len() ==> text::is_alphanumeric(#[trigger] token@[i]),
{
    rand::Rng::sample_iter(rand::thread_rng(), &rand::distributions::Alphanumeric)
        .take(length)
        .map(char::from)
        .collect()
}

/// What decoding gzip data with `flate2::read::GzDecoder` yields: the data, or
/// the text of the error.
pub uninterp spec fn gunzipped(data: Seq<u8>) -> Result<Seq<u8>, Seq<char>>;

/// The content of a decoding result.
pub open spec fn decoding(result: Result<Vec<u8>, String>) -> Result<Seq<u8>, Seq<char>> {
    match result {
        Ok(data) => Ok(data@),
        Err(error) => Err(error@),
    }
}

/// `flate2::read::GzDecoder`, read to its end: the result depends on the data
/// alone.
#[verifier::external_body]
pub(crate) fn gunzip(data: &[u8]) -> (result: Result<Vec<u8>, String>)
    ensures
        decoding(result) == gunzipped(data@),
{
    let mut out: Vec<u8> = Vec::new();
    let mut decoder = flate2::read::GzDecoder::new(data);
    match std::io::Read::read_to_end(&mut decoder, &mut out) {
        Ok(_) => Ok(out),
        Err(error) => Err(error.to_string()),
    }
}

/// What `String::from_utf8_lossy` makes of bytes.
pub uninterp spec fn lossy_text(bytes: Seq<u8>) -> Seq<char>;

/// `String::from_utf8_lossy`: the result depends on the bytes alone, and bytes
/// that are UTF-8 give the text that they encode.
#[verifier::external_body]
pub(crate) fn utf8_lossy(bytes: &[u8]) -> (text: String)
    ensures
        text@ == lossy_text(bytes@),
        vstd::utf8::valid_utf8(bytes@) ==> text@ == vstd::utf8::decode_utf8(bytes@),
{
    String::from_utf8_lossy(bytes).into_owned()
}

/// The calendar date, as year, month and day, that a clock at `offset` seconds
/// east of Greenwich shows `secs` seconds after the Unix epoch.
pub uninterp spec fn calendar_date(secs: i64, offset: i32) -> (i32, u32, u32);

/// `chrono::Datelike` on the time `secs` after the Unix epoch at a fixed offset:
/// the date depends on the two numbers alone; months count from 1 to 12, days
/// from 1 to 31.
#[verifier::external_body]
pub(crate) fn local_date(secs: i64, offset: i32) -> (date: (i32, u32, u32))
    requires
        time::is_moment(secs as int, 0, offset as int),
    ensures
        date == calendar_date(secs, offset),
        1 <= date.1 <= 12,
        1 <= date.2 <= 31,
{
    let zone = chrono::FixedOffset::east_opt(offset).unwrap();
    let time = chrono::DateTime::from_timestamp(secs, 0).unwrap().with_timezone(&zone);
    (
        chrono::Datelike::year(&time),
        chrono::Datelike::month(&time),
        chrono::Datelike::day(&time),
    )
}

/// How `chrono::DateTime::to_rfc3339` writes a time.
pub uninterp spec fn rfc3339(secs: i64, nanos: u32, offset: i32) -> Seq<char>;

/// `chrono::DateTime::to_rfc3339` on the time `secs` and `nanos` after the Unix
/// epoch at a fixed offset: the text depends on the three numbers alone.
#[verifier::external_body]
pub(crate) fn rfc3339_text(secs: i64, nanos: u32, offset: i32) -> (text: String)
    requires
        time::is_moment(secs as int, nanos as int, offset as int),
    ensures
        text@ == rfc3339(secs, nanos, offset),
{
    let zone = chrono::FixedOffset::east_opt(offset).unwrap();
    chrono::DateTime::from_timestamp(secs, nanos).unwrap().with_timezone(&zone).to_rfc3339()
}

/// `chrono::DateTime::format` with year, month, day, hour, minute and second on the
/// time `secs` and `nanos` after the Unix epoch at a fixed offset: two digits for each
/// part but the year, which has four, and a sign where it is below 0 or above 9999.
/// In a leap second the second is one more than the clock shows. Other patterns than
/// the one asked for here can be malformed, on which the call panics.
#[verifier::external_body]
pub(crate) fn format_time(secs: i64, nanos: u32, offset: i32, pattern: &str) -> (text:
    String)
    requires
        time::is_moment(secs as int, nanos as int, offset as int),
        pattern@ == "%Y-%m-%d %H:%M:%S"@,
    ensures
        text@ == time::written(time::shown_at(secs, offset), nanos as int / 1_000_000_000),
{
    let zone = chrono::FixedOffset::east_opt(offset).unwrap();
    let time = chrono::DateTime::from_timestamp(secs, nanos).unwrap().with_timezone(&zone);
    time.format(pattern).to_string()
}

} // verus!
