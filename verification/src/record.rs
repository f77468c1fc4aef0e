//! Reads one log line: whether it is blank, and the request record that a
//! valid line describes.

use vstd::prelude::*;
use vstd::utf8::*;

use crate::ids::{ClientId, Endpoint, StatusCode};
use crate::order::{compare_text, Comparison};
use crate::timestamp::rfc3339_form_seconds;

verus! {

/// Length in seconds of one rate-limit bucket.
pub const BUCKET_SECONDS: i64 = 10;

/// Lowest HTTP status code a record may carry.
pub const MIN_STATUS_CODE: u64 = 100;

/// Highest HTTP status code a record may carry.
pub const MAX_STATUS_CODE: u64 = 599;

// ---------------------------------------------------------------------------
// Blank lines
// ---------------------------------------------------------------------------

/// `c` has the Unicode White_Space property, the test of `char::is_whitespace`.
pub open spec fn is_white_space(c: char) -> bool {
    let v = c as u32;
    ||| 0x09 <= v <= 0x0d
    ||| v == 0x20
    ||| v == 0x85
    ||| v == 0xa0
    ||| v == 0x1680
    ||| 0x2000 <= v <= 0x200a
    ||| v == 0x2028
    ||| v == 0x2029
    ||| v == 0x202f
    ||| v == 0x205f
    ||| v == 0x3000
}

/// A line is blank when it is UTF-8 text made of white space alone (the
/// empty line among them).
pub open spec fn is_blank_line(line: Seq<u8>) -> bool {
    &&& valid_utf8(line)
    &&& forall|i: int|
        0 <= i < decode_utf8(line).len() ==> #[trigger] is_white_space(decode_utf8(line)[i])
}

/// Whether `c` is Unicode white space.
pub fn is_whitespace(c: char) -> (r: bool)
    ensures
        r == is_white_space(c),
{
    let v = c as u32;
    (0x09 <= v && v <= 0x0d) || v == 0x20 || v == 0x85 || v == 0xa0 || v == 0x1680 || (0x2000 <= v
        && v <= 0x200a) || v == 0x2028 || v == 0x2029 || v == 0x202f || v == 0x205f || v == 0x3000
}

/// `std::str::from_utf8`: the text that `bytes` encode, where they are valid
/// UTF-8; the contract claims that it succeeds exactly on valid UTF-8 and
/// that the text it gives back encodes to `bytes` again.
#[verifier::external_body]
fn utf8_text(bytes: &[u8]) -> (text: Option<&str>)
    ensures
        text is Some <==> valid_utf8(bytes@),
        text matches Some(t) ==> encode_utf8(t@) == bytes@,
{
    match std::str::from_utf8(bytes) {
        Ok(t) => Some(t),
        Err(_) => None,
    }
}

/// Whether `line` is blank: valid UTF-8 holding nothing but white space.
pub fn is_blank(line: &[u8]) -> (r: bool)
    ensures
        r == is_blank_line(line@),
{
    match utf8_text(line) {
        None => false,
        Some(text) => {
            proof {
                encode_utf8_decode_utf8(text@);
            }
            for c in it: text.chars()
                invariant
                    it.seq() == text@,
                    decode_utf8(line@) == text@,
                    forall|j: int| 0 <= j < it.index() ==> #[trigger] is_white_space(text@[j]),
            {
                if !is_whitespace(c) {
                    return false;
                }
            }
            true
        },
    }
}


// ---------------------------------------------------------------------------
// JSON members
// ---------------------------------------------------------------------------

/// One member of a JSON object: its name, its value read as a string (`None`
/// where the value is not a string) and its value read as an unsigned
/// integer (`None` where it is not a non-negative integer that fits `u64`).
pub struct JsonField {
    pub key: String,
    pub text: Option<String>,
    pub unsigned: Option<u64>,
}

/// The view of an optional text.
pub open spec fn optional_text(t: Option<String>) -> Option<Seq<char>> {
    match t {
        Some(s) => Some(s@),
        None => None,
    }
}

impl View for JsonField {
    type V = (Seq<char>, Option<Seq<char>>, Option<u64>);

    open spec fn view(&self) -> (Seq<char>, Option<Seq<char>>, Option<u64>) {
        (self.key@, optional_text(self.text), self.unsigned)
    }
}

/// The views of a list of members.
pub open spec fn members_view(members: Seq<JsonField>) -> Seq<
    (Seq<char>, Option<Seq<char>>, Option<u64>),
> {
    members.map_values(|f: JsonField| f@)
}

/// The views of an optional list of members.
pub open spec fn optional_members_view(members: Option<Vec<JsonField>>) -> Option<
    Seq<(Seq<char>, Option<Seq<char>>, Option<u64>)>,
> {
    match members {
        Some(v) => Some(members_view(v@)),
        None => None,
    }
}

/// The members of the JSON object that `text` holds, as `serde_json` reads
/// them into a `Value`; `None` where `text` is not a JSON object.
pub uninterp spec fn json_object_members(text: Seq<u8>) -> Option<
    Seq<(Seq<char>, Option<Seq<char>>, Option<u64>)>,
>;

/// `serde_json::from_slice::<serde_json::Value>`, with `Value::as_str` and
/// `Value::as_u64` on each member of the object: the contract claims only
/// that the result is the one that `json_object_members` names for `text`.
#[verifier::external_body]
fn read_json_object(text: &[u8]) -> (members: Option<Vec<JsonField>>)
    ensures
        optional_members_view(members) == json_object_members(text@),
{
    match serde_json::from_slice::<serde_json::Value>(text) {
        Ok(serde_json::Value::Object(object)) => Some(
            object.into_iter().map(
                |(key, value)|
                    JsonField { key, text: value.as_str().map(str::to_owned), unsigned: value.as_u64() },
            ).collect(),
        ),
        _ => None,
    }
}

/// The value of the member called `name`, as a map lookup finds it.
pub open spec fn member_value(
    members: Seq<(Seq<char>, Option<Seq<char>>, Option<u64>)>,
    name: Seq<char>,
) -> Option<(Option<Seq<char>>, Option<u64>)>
    decreases members.len(),
{
    if members.len() == 0 {
        None
    } else if members[0].0 == name {
        Some((members[0].1, members[0].2))
    } else {
        member_value(members.drop_first(), name)
    }
}

/// The member called `name`, where it is a string.
pub open spec fn text_member(
    members: Seq<(Seq<char>, Option<Seq<char>>, Option<u64>)>,
    name: Seq<char>,
) -> Option<Seq<char>> {
    match member_value(members, name) {
        Some((t, _)) => t,
        None => None,
    }
}

/// The member called `name`, where it is an unsigned integer.
pub open spec fn unsigned_member(
    members: Seq<(Seq<char>, Option<Seq<char>>, Option<u64>)>,
    name: Seq<char>,
) -> Option<u64> {
    match member_value(members, name) {
        Some((_, u)) => u,
        None => None,
    }
}

pub proof fn lemma_member_value_at(
    members: Seq<(Seq<char>, Option<Seq<char>>, Option<u64>)>,
    name: Seq<char>,
    i: int,
)
    requires
        0 <= i <= members.len(),
        forall|j: int| 0 <= j < i ==> (#[trigger] members[j]).0 != name,
        i < members.len() ==> members[i].0 == name,
    ensures
        member_value(members, name) == if i < members.len() {
            Some((members[i].1, members[i].2))
        } else {
            None::<(Option<Seq<char>>, Option<u64>)>
        },
    decreases i,
{
    if i > 0 {
        let rest = members.drop_first();
        assert forall|j: int| 0 <= j < i - 1 implies (#[trigger] rest[j]).0 != name by {
            assert(rest[j] == members[j + 1]);
        }
        assert(members[0].0 != name);
        lemma_member_value_at(rest, name, i - 1);
    }
}

/// Position of the first member called `name`.
fn find_member(members: &Vec<JsonField>, name: &str) -> (r: Option<usize>)
    ensures
        member_value(members_view(members@), name@) == match r {
            Some(i) => Some((members_view(members@)[i as int].1, members_view(members@)[i as int].2)),
            None => None::<(Option<Seq<char>>, Option<u64>)>,
        },
        r matches Some(i) ==> i < members.len(),
{
    let ghost mv = members_view(members@);
    let mut i: usize = 0;
    while i < members.len()
        invariant
            i <= members.len(),
            mv == members_view(members@),
            forall|j: int| 0 <= j < i ==> (#[trigger] mv[j]).0 != name@,
        decreases members.len() - i,
    {
        assert(mv[i as int] == members@[i as int]@);
        if let Comparison::Equal = compare_text(members[i].key.as_str(), name) {
            proof {
                lemma_member_value_at(mv, name@, i as int);
            }
            return Some(i);
        }
        i = i + 1;
    }
    proof {
        lemma_member_value_at(mv, name@, i as int);
    }
    None
}

/// The member called `name`, where it is a string.
fn member_text(members: &Vec<JsonField>, name: &str) -> (r: Option<String>)
    ensures
        optional_text(r) == text_member(members_view(members@), name@),
{
    match find_member(members, name) {
        Some(i) => match &members[i].text {
            Some(t) => Some(t.clone()),
            None => None,
        },
        None => None,
    }
}

/// The member called `name`, where it is an unsigned integer.
fn member_unsigned(members: &Vec<JsonField>, name: &str) -> (r: Option<u64>)
    ensures
        r == unsigned_member(members_view(members@), name@),
{
    match find_member(members, name) {
        Some(i) => members[i].unsigned,
        None => None,
    }
}

// ---------------------------------------------------------------------------
// Request records
// ---------------------------------------------------------------------------

/// The fields of a line that passed the member checks, before its timestamp
/// is read.
pub struct CheckedFieldsView {
    pub timestamp: Seq<char>,
    pub client_id: Seq<char>,
    pub endpoint: Seq<char>,
    pub status_code: u16,
}

/// The member checks: `request_id`, `timestamp`, `client_id` and `endpoint`
/// are nonempty strings and `status_code` is an integer from 100 to 599;
/// other members are ignored.
pub open spec fn check_members_spec(
    members: Seq<(Seq<char>, Option<Seq<char>>, Option<u64>)>,
) -> Option<CheckedFieldsView> {
    match (
        text_member(members, "request_id"@),
        text_member(members, "timestamp"@),
        text_member(members, "client_id"@),
        text_member(members, "endpoint"@),
        unsigned_member(members, "status_code"@),
    ) {
        (Some(request_id), Some(timestamp), Some(client_id), Some(endpoint), Some(status)) => {
            if request_id.len() == 0 || timestamp.len() == 0 || client_id.len() == 0
                || endpoint.len() == 0 || status < MIN_STATUS_CODE || status > MAX_STATUS_CODE {
                None
            } else {
                Some(
                    CheckedFieldsView {
                        timestamp,
                        client_id,
                        endpoint,
                        status_code: status as u16,
                    },
                )
            }
        },
        _ => None,
    }
}

/// A valid request record: its timestamp is reduced to the ten-second UTC
/// bucket that holds it.
pub struct RecordView {
    pub client_id: Seq<char>,
    pub endpoint: Seq<char>,
    pub status_code: u16,
    pub bucket: i64,
}

/// The bucket of a Unix time: the floor of its quotient by ten, so that each
/// bucket starts on a multiple of ten seconds and holds its start but not its
/// end.
pub open spec fn bucket_of(unix_seconds: i64) -> i64 {
    (unix_seconds as int / BUCKET_SECONDS as int) as i64
}

/// The Unix time, in whole seconds, of the RFC 3339 timestamp `text`, as
/// `time::OffsetDateTime::parse` with `Rfc3339` and then `unix_timestamp`
/// read it; `None` where `text` is not a valid RFC 3339 timestamp.
pub uninterp spec fn rfc3339_unix_seconds(text: Seq<char>) -> Option<i64>;

/// `time::OffsetDateTime::parse(text, &Rfc3339)` followed by
/// `OffsetDateTime::unix_timestamp`. The contract claims that the result is
/// the one that `rfc3339_unix_seconds` names for `text`, and that for a
/// timestamp in the plain RFC 3339 form (`rfc3339_form_seconds`) it is that
/// form's Unix time: the date and time written, less the offset, with any
/// fraction of a second dropped. What the parser does with other text (other
/// separators than `T`, a leap second `60`, malformed text) is left unsaid.
#[verifier::external_body]
fn read_rfc3339_unix_seconds(text: &str) -> (seconds: Option<i64>)
    ensures
        seconds == rfc3339_unix_seconds(text@),
        rfc3339_form_seconds(text@) matches Some(v) ==> seconds == Some(v as i64),
{
    match time::OffsetDateTime::parse(text, &time::format_description::well_known::Rfc3339) {
        Ok(moment) => Some(moment.unix_timestamp()),
        Err(_) => None,
    }
}

/// The Unix time, in whole seconds, of a record's timestamp: that of the
/// plain RFC 3339 form where the timestamp has it, else what the parser
/// gives; `None` where the timestamp is not valid RFC 3339.
pub open spec fn timestamp_unix_seconds(text: Seq<char>) -> Option<i64> {
    match rfc3339_form_seconds(text) {
        Some(v) => Some(v as i64),
        None => rfc3339_unix_seconds(text),
    }
}

/// The record that a checked line describes, given the Unix time of its
/// timestamp.
pub open spec fn record_from_checked(checked: CheckedFieldsView, unix_seconds: i64) -> RecordView {
    RecordView {
        client_id: checked.client_id,
        endpoint: checked.endpoint,
        status_code: checked.status_code,
        bucket: bucket_of(unix_seconds),
    }
}

/// The record that `line` describes: a JSON object whose members pass the
/// checks and whose timestamp is valid RFC 3339; `None` for a malformed line.
pub open spec fn parse_record(line: Seq<u8>) -> Option<RecordView> {
    match json_object_members(line) {
        None => None,
        Some(members) => match check_members_spec(members) {
            None => None,
            Some(checked) => match timestamp_unix_seconds(checked.timestamp) {
                None => None,
                Some(unix_seconds) => Some(record_from_checked(checked, unix_seconds)),
            },
        },
    }
}

/// The fields of a line that passed the member checks.
pub struct CheckedFields {
    pub timestamp: String,
    pub client_id: String,
    pub endpoint: String,
    pub status_code: u16,
}

impl View for CheckedFields {
    type V = CheckedFieldsView;

    open spec fn view(&self) -> CheckedFieldsView {
        CheckedFieldsView {
            timestamp: self.timestamp@,
            client_id: self.client_id@,
            endpoint: self.endpoint@,
            status_code: self.status_code,
        }
    }
}

/// Applies the member checks to the members of a JSON object.
pub fn check_members(members: &Vec<JsonField>) -> (checked: Option<CheckedFields>)
    ensures
        match checked {
            Some(c) => check_members_spec(members_view(members@)) == Some(c@),
            None => check_members_spec(members_view(members@)) is None,
        },
{
    let request_id = member_text(members, "request_id");
    let timestamp = member_text(members, "timestamp");
    let client_id = member_text(members, "client_id");
    let endpoint = member_text(members, "endpoint");
    let status = member_unsigned(members, "status_code");
    match (request_id, timestamp, client_id, endpoint, status) {
        (Some(request_id), Some(timestamp), Some(client_id), Some(endpoint), Some(status)) => {
            if request_id.as_str().is_empty() || timestamp.as_str().is_empty()
                || client_id.as_str().is_empty() || endpoint.as_str().is_empty() || status
                < MIN_STATUS_CODE || status > MAX_STATUS_CODE {
                None
            } else {
                Some(CheckedFields { timestamp, client_id, endpoint, status_code: status as u16 })
            }
        },
        _ => None,
    }
}

/// A single validated log line, with its timestamp reduced to a UTC
/// rate-limit bucket.
pub struct RequestRecord {
    pub client_id: ClientId,
    pub endpoint: Endpoint,
    pub status_code: StatusCode,
    pub bucket: i64,
}

impl View for RequestRecord {
    type V = RecordView;

    open spec fn view(&self) -> RecordView {
        RecordView {
            client_id: self.client_id@,
            endpoint: self.endpoint@,
            status_code: self.status_code@,
            bucket: self.bucket,
        }
    }
}

/// The bucket of a Unix time.
pub fn bucket_of_seconds(unix_seconds: i64) -> (bucket: i64)
    ensures
        bucket == bucket_of(unix_seconds),
{
    match unix_seconds.checked_div_euclid(BUCKET_SECONDS) {
        Some(bucket) => bucket,
        None => {
            proof {
                assert(false);
            }
            0
        },
    }
}

impl RequestRecord {
    /// The record that checked fields describe, given the Unix time of their
    /// timestamp.
    pub fn from_checked(checked: CheckedFields, unix_seconds: i64) -> (r: Self)
        ensures
            r@ == record_from_checked(checked@, unix_seconds),
    {
        RequestRecord {
            client_id: ClientId::new(checked.client_id),
            endpoint: Endpoint::new(checked.endpoint),
            status_code: StatusCode::new(checked.status_code),
            bucket: bucket_of_seconds(unix_seconds),
        }
    }

    /// Parses and validates one line (without its line terminator).
    pub fn parse(line: &[u8]) -> (r: Option<Self>)
        ensures
            match r {
                Some(record) => parse_record(line@) == Some(record@),
                None => parse_record(line@) is None,
            },
    {
        let members = match read_json_object(line) {
            Some(members) => members,
            None => return None,
        };
        let checked = match check_members(&members) {
            Some(checked) => checked,
            None => return None,
        };
        match read_rfc3339_unix_seconds(checked.timestamp.as_str()) {
            Some(unix_seconds) => Some(RequestRecord::from_checked(checked, unix_seconds)),
            None => None,
        }
    }
}

} // verus!
