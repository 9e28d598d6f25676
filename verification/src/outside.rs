//! What the library has from outside: UTF-8 decoding, session ids and the time of day.
use vstd::prelude::*;
use vstd::string::*;
use vstd::arithmetic::power::pow;
use vstd::utf8::{decode_utf8, valid_utf8};
use crate::text::Text;

verus! {

/// `std::str::from_utf8`: bytes that are valid UTF-8 give the text they encode, others give none.
#[verifier::external_body]
pub(crate) fn utf8_text(bytes: &[u8]) -> (res: Option<&str>)
    ensures
        match res {
            Some(s) => valid_utf8(bytes@) && s@ == decode_utf8(bytes@),
            None => !valid_utf8(bytes@),
        },
{
    std::str::from_utf8(bytes).ok()
}

/// The text that `String::from_utf8_lossy` makes of bytes.
pub uninterp spec fn lossy_text(bytes: Seq<u8>) -> Seq<char>;

/// `String::from_utf8_lossy`: bytes that are valid UTF-8 give the text they encode; in others each
/// invalid part is replaced by U+FFFD. Where the replacements fall is left to the name.
#[verifier::external_body]
fn utf8_lossy(bytes: &[u8]) -> (res: String)
    ensures
        res@ == lossy_text(bytes@),
        valid_utf8(bytes@) ==> res@ == decode_utf8(bytes@),
{
    String::from_utf8_lossy(bytes).into_owned()
}

/// The text of bytes: what they encode, or, where they are not UTF-8, what is left of that with the
/// invalid parts replaced.
pub open spec fn readable(bytes: Seq<u8>) -> Text {
    if valid_utf8(bytes) {
        decode_utf8(bytes)
    } else {
        lossy_text(bytes)
    }
}

/// The text of bytes; parts that are not UTF-8 are replaced.
pub fn readable_text(bytes: &[u8]) -> (res: String)
    ensures
        res@ == readable(bytes@),
{
    utf8_lossy(bytes)
}

// ---------------------------------------------------------------------------
// Session ids
// ---------------------------------------------------------------------------

/// The lower-case hexadecimal digit of a number below 16.
pub open spec fn hex_digit(d: int) -> char {
    if d < 10 {
        (48 + d) as char
    } else {
        (87 + d) as char
    }
}

/// The hexadecimal digit in place `n` of the 32 digits of `id`, the highest first.
pub open spec fn id_digit(id: u128, n: int) -> char {
    hex_digit((id as int / pow(16, (31 - n) as nat)) % 16)
}

/// The hyphenated form of a session id: groups of 8, 4, 4, 4 and 12 hexadecimal digits.
pub open spec fn id_text(id: u128) -> Text {
    Seq::new(
        36,
        |i: int|
            if i == 8 || i == 13 || i == 18 || i == 23 {
                '-'
            } else if i < 8 {
                id_digit(id, i)
            } else if i < 13 {
                id_digit(id, i - 1)
            } else if i < 18 {
                id_digit(id, i - 2)
            } else if i < 23 {
                id_digit(id, i - 3)
            } else {
                id_digit(id, i - 4)
            },
    )
}

/// `uuid::Uuid::from_u128` and its `to_string`: the hyphenated lower-case form of the id.
#[verifier::external_body]
fn uuid_text(id: u128) -> (res: String)
    ensures
        res@ == id_text(id),
{
    uuid::Uuid::from_u128(id).to_string()
}

/// `uuid::Uuid::new_v4`: a random id. Of its 128 bits, the four of the version hold 4 and the two
/// of the variant hold binary 10; nothing is said of the others.
#[verifier::external_body]
pub(crate) fn random_id() -> (res: u128)
    ensures
        (res >> 76u128) & 0xf == 4,
        (res >> 62u128) & 3 == 2,
{
    uuid::Uuid::new_v4().as_u128()
}

/// The first eight hexadecimal digits of a session id.
pub open spec fn short_id_text(id: u128) -> Text {
    Seq::new(8, |i: int| id_digit(id, i))
}

/// The first eight hexadecimal digits of a session id.
pub fn short_id(id: u128) -> (res: String)
    ensures
        res@ == short_id_text(id),
{
    let full = uuid_text(id);
    let short = full.as_str().substring_char(0, 8);
    assert(short@ == short_id_text(id));
    short.to_string()
}

// ---------------------------------------------------------------------------
// Time
// ---------------------------------------------------------------------------

/// A moment in UTC: seconds since the start of 1970 and nanoseconds within the second.
#[derive(Clone, Copy, Debug, PartialEq, Eq, Structural)]
pub struct Timestamp {
    /// Seconds since the start of 1970.
    pub secs: i64,
    /// Nanoseconds within the second; a leap second counts past one billion.
    pub nanos: u32,
}

impl Timestamp {
    /// Whether this moment is not later than `other`.
    pub open spec fn no_later(self, other: Timestamp) -> bool {
        self.secs < other.secs || (self.secs == other.secs && self.nanos <= other.nanos)
    }
}

/// `chrono::Utc::now`: the present moment, which is not before 1970 and within a second counts
/// nanoseconds below one billion. (It panics where the system clock stands before 1970.)
#[verifier::external_body]
pub(crate) fn utc_now() -> (res: Timestamp)
    ensures
        res.secs >= 0,
        res.nanos < 1_000_000_000,
{
    let now = chrono::Utc::now();
    Timestamp { secs: now.timestamp(), nanos: now.timestamp_subsec_nanos() }
}

} // verus!
