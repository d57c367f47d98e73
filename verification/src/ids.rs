//! Task ids: the 128-bit values of UUIDs, made, printed and read back by the
//! `uuid` crate.

use vstd::prelude::*;

use crate::text::{trim_text, trimmed};

verus! {

/// The lower-case hexadecimal digit for `n`, which is below 16.
pub open spec fn hex_char(n: nat) -> char {
    seq!['0', '1', '2', '3', '4', '5', '6', '7', '8', '9', 'a', 'b', 'c', 'd', 'e', 'f'][n as int]
}

/// The last `count` hexadecimal digits of `value`, most significant first.
pub open spec fn hex_digits(value: nat, count: nat) -> Seq<char>
    decreases count,
{
    if count == 0 {
        Seq::empty()
    } else {
        hex_digits(value / 16, (count - 1) as nat).push(hex_char(value % 16))
    }
}

/// The hyphenated form of a UUID, such as `67e55044-10b1-426f-9247-bb680e5fe0c8`:
/// its 32 lower-case hexadecimal digits in groups of 8, 4, 4, 4 and 12.
pub open spec fn uuid_text(id: u128) -> Seq<char> {
    let d = hex_digits(id as nat, 32);
    d.subrange(0, 8) + seq!['-'] + d.subrange(8, 12) + seq!['-'] + d.subrange(12, 16) + seq![
        '-',
    ] + d.subrange(16, 20) + seq!['-'] + d.subrange(20, 32)
}

/// What `uuid::Uuid::parse_str` gives for a text, as the 128-bit value of the
/// UUID, or `None` where it returns an error.
pub uninterp spec fn uuid_parse(text: Seq<char>) -> Option<u128>;

/// Calls `uuid::Uuid::new_v4` and returns the UUID's 128-bit value. The value is
/// random; all that is stated is what `new_v4` fixes of every outcome: the
/// version nibble is 4 and the two variant bits are `10`.
#[verifier::external_body]
pub(crate) fn random_uuid() -> (id: u128)
    ensures
        (id >> 76u128) & 0xfu128 == 4u128,
        (id >> 62u128) & 0x3u128 == 2u128,
{
    uuid::Uuid::new_v4().as_u128()
}

/// Formats the UUID with the 128-bit value `id` by `uuid::Uuid`'s `Display`
/// (through `to_string`). The contract states that this is the hyphenated
/// lower-case form, and that `uuid::Uuid::parse_str` reads that form back as
/// `id`, as the crate's documentation of `parse_str` says of every format it
/// generates.
#[verifier::external_body]
pub(crate) fn uuid_string(id: u128) -> (s: String)
    ensures
        s@ == uuid_text(id),
        uuid_parse(s@) == Some(id),
{
    uuid::Uuid::from_u128(id).to_string()
}

/// The message of the error that `uuid::Uuid::parse_str` returns for a text it
/// does not accept (its `Display` text).
pub uninterp spec fn uuid_parse_error(text: Seq<char>) -> Seq<char>;

/// Calls `uuid::Uuid::parse_str` on `text` and returns the 128-bit value of the
/// UUID it reads, or the text of the error it returns. Which texts it accepts
/// (simple, hyphenated, braced and URN forms, in either case) and what the
/// error says are not stated: they are named by `uuid_parse` and
/// `uuid_parse_error`.
#[verifier::external_body]
pub(crate) fn parse_uuid(text: &str) -> (r: Result<u128, String>)
    ensures
        match r {
            Ok(id) => uuid_parse(text@) == Some(id),
            Err(e) => uuid_parse(text@) is None && e@ == uuid_parse_error(text@),
        },
{
    match uuid::Uuid::parse_str(text) {
        Ok(u) => Ok(u.as_u128()),
        Err(e) => Err(e.to_string()),
    }
}

/// Reads a task id typed by the user: the line without its leading and
/// trailing white space, read as a UUID. An unreadable id gives the text of
/// the parser's error, for the "Invalid taskId" message.
pub fn parse_task_id(line: &str) -> (r: Result<u128, String>)
    ensures
        match r {
            Ok(id) => uuid_parse(trimmed(line@)) == Some(id),
            Err(e) => uuid_parse(trimmed(line@)) is None && e@ == uuid_parse_error(trimmed(line@)),
        },
{
    parse_uuid(trim_text(line))
}

} // verus!
