//! The library's boundary to the crates it builds on: each item states what the library relies
//! on, and nothing here is proved.

use std::time::Duration;
use std::time::SystemTime;

use vstd::prelude::*;
use vstd::string::*;

use iddqd::IdOrdMap;

use crate::hexadecimal::{hex_bytes, hex_digit, is_hex, lower_hex};
use crate::model::views;
use crate::slice::{
    outputs_ascending, pins_ascending, repeats_output, ComponentPin, UpstreamOutput,
};

verus! {

// ---------------------------------------------------------------------------
// std
// ---------------------------------------------------------------------------
/// What `{:?}` makes of a text: the text in double quotes, with escapes.
pub uninterp spec fn debug_quoted(text: Seq<char>) -> Seq<char>;

/// `<str as Debug>::fmt`, through `format!`: the quoted and escaped text, the same for the same
/// text. Which characters are escaped is not stated.
#[verifier::external_body]
pub(crate) fn debug_text(text: &str) -> (quoted: String)
    ensures
        quoted@ == debug_quoted(text@),
{
    format!("{text:?}")
}

/// Decimal digits, at least one.
pub open spec fn is_digits(text: Seq<char>) -> bool {
    text.len() > 0 && forall|i: int| 0 <= i < text.len() ==> '0' <= #[trigger] text[i] <= '9'
}

/// The number that decimal digits stand for.
pub open spec fn digits_value(text: Seq<char>) -> nat
    decreases text.len(),
{
    if text.len() == 0 {
        0
    } else {
        (digits_value(text.drop_last()) * 10 + (text.last() as int - 48)) as nat
    }
}

/// The digits of a number with an optional plus sign before them.
pub open spec fn unsigned_digits(text: Seq<char>) -> Seq<char> {
    if text.len() > 0 && text[0] == '+' {
        text.drop_first()
    } else {
        text
    }
}

/// The text is a number that fits a port.
pub open spec fn is_port(text: Seq<char>) -> bool {
    is_digits(unsigned_digits(text)) && digits_value(unsigned_digits(text)) <= u16::MAX
}

/// Why a text is no number.
#[verifier::external_type_specification]
#[verifier::external_body]
pub struct ExParseIntError(std::num::ParseIntError);

/// What `u16::from_str` says of a text that it refuses.
pub uninterp spec fn port_refusal(text: Seq<char>) -> std::num::ParseIntError;

/// `<u16 as FromStr>::from_str`: the number that an optional plus sign and decimal digits stand
/// for, where it fits; any other text is refused, with the same error for the same text.
#[verifier::external_body]
pub(crate) fn port_parse(text: &str) -> (port: Result<u16, std::num::ParseIntError>)
    ensures
        match port {
            Ok(port) => is_port(text@) && port == digits_value(unsigned_digits(text@)),
            Err(error) => !is_port(text@) && error == port_refusal(text@),
        },
{
    text.parse()
}

/// How a `ParseIntError` reads.
pub uninterp spec fn number_error_message(error: std::num::ParseIntError) -> Seq<char>;

/// `<ParseIntError as Display>::fmt`: the error's message.
#[verifier::external_body]
pub(crate) fn number_error_text(error: &std::num::ParseIntError) -> (message: String)
    ensures
        message@ == number_error_message(*error),
{
    error.to_string()
}

/// The total number of nanoseconds that a `Duration` spans.
pub uninterp spec fn duration_nanos(duration: Duration) -> nat;

/// The nanoseconds of the longest `Duration`.
pub open spec fn max_duration_nanos() -> nat {
    (u64::MAX * 1_000_000_000 + 999_999_999) as nat
}

/// `Duration::as_nanos`: the total number of nanoseconds, which no `Duration` has more of than
/// `Duration::MAX`.
pub assume_specification[ Duration::as_nanos ](duration: &Duration) -> (nanos: u128)
    ensures
        nanos == duration_nanos(*duration),
        nanos <= max_duration_nanos(),
;

/// `Duration::new`: the sum of whole seconds and additional nanoseconds. The carry from
/// nanoseconds to seconds is left out by `requires`.
pub assume_specification[ Duration::new ](secs: u64, nanos: u32) -> (duration: Duration)
    requires
        nanos < 1_000_000_000,
    ensures
        duration_nanos(duration) == secs * 1_000_000_000 + nanos,
;

/// A point on the system clock.
#[verifier::external_type_specification]
#[verifier::external_body]
pub struct ExSystemTime(SystemTime);

/// `SystemTime::now`: some point in time, of which nothing is known.
#[verifier::external_body]
pub(crate) fn system_now() -> SystemTime {
    SystemTime::now()
}

/// `SystemTime::duration_since`, from the Unix epoch on: some duration, or none where the clock
/// stands before the epoch.
#[verifier::external_body]
pub(crate) fn since_epoch(now: &SystemTime) -> Option<Duration> {
    now.duration_since(std::time::UNIX_EPOCH).ok()
}

// ---------------------------------------------------------------------------
// hex
// ---------------------------------------------------------------------------
/// `hex::encode`: two lowercase hexadecimal digits for each byte.
#[verifier::external_body]
pub(crate) fn hex_encode(bytes: &[u8]) -> (text: String)
    ensures
        text@ == lower_hex(bytes@),
{
    hex::encode(bytes)
}

/// Why `hex::decode` refused a text.
#[verifier::external_type_specification]
#[verifier::external_body]
pub struct ExFromHexError(hex::FromHexError);

/// What `hex::decode` says of a text that it refuses.
pub uninterp spec fn hex_refusal(text: Seq<char>) -> hex::FromHexError;

/// `hex::decode`: the bytes that pairs of hexadecimal digits in either case stand for; any other
/// text is refused, with the same error for the same text.
#[verifier::external_body]
pub(crate) fn hex_decode(text: &str) -> (bytes: Result<Vec<u8>, hex::FromHexError>)
    ensures
        match bytes {
            Ok(bytes) => is_hex(text@) && bytes@ == hex_bytes(text@),
            Err(error) => !is_hex(text@) && error == hex_refusal(text@),
        },
{
    hex::decode(text)
}

/// How a `hex::FromHexError` reads.
pub uninterp spec fn hex_error_message(error: hex::FromHexError) -> Seq<char>;

/// `<hex::FromHexError as Display>::fmt`: the error's message.
#[verifier::external_body]
pub(crate) fn hex_error_text(error: &hex::FromHexError) -> (message: String)
    ensures
        message@ == hex_error_message(*error),
{
    error.to_string()
}

// ---------------------------------------------------------------------------
// blake3
// ---------------------------------------------------------------------------
/// The BLAKE3 hash of a byte string.
pub uninterp spec fn blake3_digest(input: Seq<u8>) -> Seq<u8>;

/// `blake3::hash`: the 32 bytes of the input's BLAKE3 hash.
#[verifier::external_body]
pub(crate) fn blake3_hash(input: &[u8]) -> (digest: [u8; 32])
    ensures
        digest@ == blake3_digest(input@),
{
    *blake3::hash(input).as_bytes()
}

/// An incremental BLAKE3 computation.
#[verifier::external_type_specification]
#[verifier::external_body]
pub struct ExHasher(blake3::Hasher);

/// The bytes that a `blake3::Hasher` has taken in so far.
pub uninterp spec fn hasher_input(hasher: blake3::Hasher) -> Seq<u8>;

/// `blake3::Hasher::new`: a hasher that has taken in nothing.
#[verifier::external_body]
pub(crate) fn hasher_new() -> (hasher: blake3::Hasher)
    ensures
        hasher_input(hasher) == Seq::<u8>::empty(),
{
    blake3::Hasher::new()
}

/// `blake3::Hasher::update`: takes in further bytes behind those taken in before.
#[verifier::external_body]
pub(crate) fn hasher_update(hasher: &mut blake3::Hasher, input: &[u8])
    ensures
        hasher_input(*final(hasher)) == hasher_input(*old(hasher)) + input@,
{
    hasher.update(input);
}

/// `blake3::Hasher::finalize` and `blake3::Hash::to_hex`: the BLAKE3 hash of all bytes taken in,
/// 32 of them, in lowercase hexadecimal.
#[verifier::external_body]
pub(crate) fn hasher_finish(hasher: &blake3::Hasher) -> (digest: String)
    ensures
        digest@ == lower_hex(blake3_digest(hasher_input(*hasher))),
        digest@.len() == 64,
{
    hasher.finalize().to_hex().to_string()
}

// ---------------------------------------------------------------------------
// http
// ---------------------------------------------------------------------------
/// A parsed URI.
#[verifier::external_type_specification]
#[verifier::external_body]
pub struct ExUri(http::Uri);

/// Why `http` refused a URI.
#[verifier::external_type_specification]
#[verifier::external_body]
pub struct ExInvalidUri(http::uri::InvalidUri);

/// What `http::Uri` makes of a text.
pub uninterp spec fn uri_parsed(text: Seq<char>) -> Result<http::Uri, http::uri::InvalidUri>;

/// `<http::Uri as FromStr>::from_str`: the URI that the text writes down, or an error; the same for
/// the same text.
#[verifier::external_body]
pub(crate) fn uri_parse(text: &str) -> (parsed: Result<http::Uri, http::uri::InvalidUri>)
    ensures
        parsed == uri_parsed(text@),
{
    text.parse()
}

/// How an `http::uri::InvalidUri` reads.
pub uninterp spec fn uri_error_message(error: http::uri::InvalidUri) -> Seq<char>;

/// `<http::uri::InvalidUri as Display>::fmt`: the error's message.
#[verifier::external_body]
pub(crate) fn uri_error_text(error: &http::uri::InvalidUri) -> (message: String)
    ensures
        message@ == uri_error_message(*error),
{
    error.to_string()
}

// ---------------------------------------------------------------------------
// serde_json
// ---------------------------------------------------------------------------
/// A parsed JSON value.
#[verifier::external_type_specification]
#[verifier::external_body]
pub struct ExValue(serde_json::Value);

/// Why `serde_json` refused an input.
#[verifier::external_type_specification]
#[verifier::external_body]
pub struct ExJsonError(serde_json::Error);

/// What `serde_json::from_slice` makes of a byte string.
pub uninterp spec fn json_parsed(bytes: Seq<u8>) -> Result<serde_json::Value, serde_json::Error>;

/// `serde_json::from_slice` into a `Value`: the value that the bytes write down, or an error; the
/// same for the same bytes.
#[verifier::external_body]
pub(crate) fn json_parse(bytes: &[u8]) -> (parsed: Result<serde_json::Value, serde_json::Error>)
    ensures
        parsed == json_parsed(bytes@),
{
    serde_json::from_slice(bytes)
}

/// How a `serde_json::Error` reads.
pub uninterp spec fn json_error_message(error: serde_json::Error) -> Seq<char>;

/// `<serde_json::Error as Display>::fmt`: the error's message.
#[verifier::external_body]
pub(crate) fn json_error_text(error: &serde_json::Error) -> (message: String)
    ensures
        message@ == json_error_message(*error),
{
    error.to_string()
}

/// The members of a JSON object by name; none for a value that is no object.
pub uninterp spec fn json_members(value: serde_json::Value) -> Map<Seq<char>, serde_json::Value>;

/// `serde_json::Value::get` by name: the member of that name, where the value is an object that
/// has it.
#[verifier::external_body]
pub(crate) fn json_get<'a>(value: &'a serde_json::Value, name: &str) -> (member: Option<
    &'a serde_json::Value,
>)
    ensures
        match member {
            Some(member) => json_members(*value).contains_key(name@) && *member == json_members(
                *value,
            )[name@],
            None => !json_members(*value).contains_key(name@),
        },
{
    value.get(name)
}

/// The text of a JSON string; none for a value that is no string.
pub uninterp spec fn json_string(value: serde_json::Value) -> Option<Seq<char>>;

/// `serde_json::Value::as_str`: the text of a JSON string, none for any other value.
#[verifier::external_body]
pub(crate) fn json_as_str(value: &serde_json::Value) -> (text: Option<&str>)
    ensures
        match text {
            Some(text) => json_string(*value) == Some(text@),
            None => json_string(*value) is None,
        },
{
    value.as_str()
}

/// A JSON value written down in compact form.
pub uninterp spec fn json_compact(value: serde_json::Value) -> Seq<char>;

/// `<serde_json::Value as Display>::fmt`: the value in compact form.
#[verifier::external_body]
pub(crate) fn json_to_text(value: &serde_json::Value) -> (text: String)
    ensures
        text@ == json_compact(*value),
{
    value.to_string()
}

/// How one character stands in a JSON string.
pub open spec fn json_escape(c: char) -> Seq<char> {
    if c == '"' || c == '\\' {
        seq!['\\', c]
    } else if c == '\u{8}' {
        seq!['\\', 'b']
    } else if c == '\u{c}' {
        seq!['\\', 'f']
    } else if c == '\n' {
        seq!['\\', 'n']
    } else if c == '\r' {
        seq!['\\', 'r']
    } else if c == '\t' {
        seq!['\\', 't']
    } else if '\u{20}' > c {
        seq!['\\', 'u', '0', '0', hex_digit(c as nat / 16), hex_digit(c as nat % 16)]
    } else {
        seq![c]
    }
}

/// How a text stands between the quotes of a JSON string.
pub open spec fn json_escaped(text: Seq<char>) -> Seq<char>
    decreases text.len(),
{
    if text.len() == 0 {
        Seq::empty()
    } else {
        json_escaped(text.drop_last()) + json_escape(text.last())
    }
}

/// A text written as a JSON string.
pub open spec fn json_quoted(text: Seq<char>) -> Seq<char> {
    seq!['"'] + json_escaped(text) + seq!['"']
}

/// `serde_json::to_string` of a `str`, which never fails: the text in double quotes, with quotes,
/// backslashes and control characters escaped.
#[verifier::external_body]
pub(crate) fn json_quote(text: &str) -> (quoted: Result<String, serde_json::Error>)
    ensures
        quoted matches Ok(quoted) && quoted@ == json_quoted(text@),
{
    serde_json::to_string(text)
}

// ---------------------------------------------------------------------------
// iddqd
// ---------------------------------------------------------------------------
/// A map that orders its items by a key that each item carries.
#[verifier::external_type_specification]
#[verifier::external_body]
#[verifier::reject_recursive_types(T)]
pub struct ExIdOrdMap<T>(IdOrdMap<T>);

/// The components in a map, in the order of their spec hashes.
pub uninterp spec fn pins(map: IdOrdMap<ComponentPin>) -> Seq<ComponentPin>;

/// The upstream outputs in a map, in the order of their producers' spec hashes.
pub uninterp spec fn outputs(map: IdOrdMap<UpstreamOutput>) -> Seq<UpstreamOutput>;

/// `IdOrdMap::new`: a map without items.
#[verifier::external_body]
pub(crate) fn pins_new() -> (map: IdOrdMap<ComponentPin>)
    ensures
        pins(map) == Seq::<ComponentPin>::empty(),
{
    IdOrdMap::new()
}

/// `IdOrdMap::insert_unique`: refuses an item whose key the map has, and leaves the map as it was;
/// puts any other item where its key belongs. The map panics beyond `u32::MAX` items.
#[verifier::external_body]
pub(crate) fn pins_insert(map: &mut IdOrdMap<ComponentPin>, pin: ComponentPin) -> (inserted: bool)
    requires
        pins(*old(map)).len() < u32::MAX,
    ensures
        inserted == !(exists|i: int|
            0 <= i < pins(*old(map)).len() && #[trigger] pins(*old(map))[i].spec_hash@
                == pin.spec_hash@),
        !inserted ==> pins(*final(map)) == pins(*old(map)),
        inserted ==> exists|at: int|
            0 <= at <= pins(*old(map)).len() && pins(*final(map)) == #[trigger] pins(
                *old(map),
            ).insert(at, pin),
        pins_ascending(views(pins(*final(map)))),
{
    map.insert_unique(pin).is_ok()
}

/// `IdOrdMap::iter`: the items, in ascending order of their keys.
#[verifier::external_body]
pub(crate) fn pins_list(map: &IdOrdMap<ComponentPin>) -> (list: Vec<&ComponentPin>)
    ensures
        list@.len() == pins(*map).len(),
        forall|i: int| 0 <= i < list@.len() ==> *#[trigger] list@[i] == pins(*map)[i],
        pins_ascending(views(list@)),
{
    map.iter().collect()
}

/// `<IdOrdMap as Clone>::clone`: a map of copies of the items.
#[verifier::external_body]
pub(crate) fn pins_copy(map: &IdOrdMap<ComponentPin>) -> (copy: IdOrdMap<ComponentPin>)
    ensures
        views(pins(copy)) == views(pins(*map)),
{
    map.clone()
}

/// `IdOrdMap::from_iter_unique`: a map of these items, unless two of them share a key. The map
/// panics beyond `u32::MAX` items.
#[verifier::external_body]
pub(crate) fn outputs_from(items: Vec<UpstreamOutput>) -> (built: Option<IdOrdMap<UpstreamOutput>>)
    requires
        items@.len() <= u32::MAX,
    ensures
        built is None <==> repeats_output(views(items@)),
        built matches Some(map) ==> views(outputs(map)).to_multiset() == views(items@).to_multiset(),
        built matches Some(map) ==> outputs_ascending(views(outputs(map))),
{
    IdOrdMap::from_iter_unique(items).ok()
}

/// `IdOrdMap::iter`: the items, in ascending order of their keys.
#[verifier::external_body]
pub(crate) fn outputs_list(map: &IdOrdMap<UpstreamOutput>) -> (list: Vec<&UpstreamOutput>)
    ensures
        list@.len() == outputs(*map).len(),
        forall|i: int| 0 <= i < list@.len() ==> *#[trigger] list@[i] == outputs(*map)[i],
        outputs_ascending(views(list@)),
{
    map.iter().collect()
}

/// `<IdOrdMap as Clone>::clone`: a map of copies of the items.
#[verifier::external_body]
pub(crate) fn outputs_copy(map: &IdOrdMap<UpstreamOutput>) -> (copy: IdOrdMap<UpstreamOutput>)
    ensures
        views(outputs(copy)) == views(outputs(*map)),
{
    map.clone()
}

/// `IdOrdMap::get`: the one item with this key, where the map has one.
#[verifier::external_body]
pub(crate) fn outputs_get<'a>(
    map: &'a IdOrdMap<UpstreamOutput>,
    hash: &[u8; 32],
) -> (output: Option<&'a UpstreamOutput>)
    ensures
        match output {
            Some(output) => {
                &&& outputs(*map).contains(*output)
                &&& output.component_spec_hash@ == hash@
                &&& forall|i: int|
                    0 <= i < outputs(*map).len() && outputs(*map)[i].component_spec_hash@ == hash@
                        ==> #[trigger] outputs(*map)[i] == *output
            },
            None => forall|i: int|
                0 <= i < outputs(*map).len() ==> (
                #[trigger] outputs(*map)[i]).component_spec_hash@ != hash@,
        },
{
    map.get(hash)
}

} // verus!
