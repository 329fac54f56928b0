//! What the broker decides about the serial device: which port is the
//! device's, which of its messages are well-formed, and whether it answered
//! as it should.  The port itself is opened, written and read elsewhere.

use vstd::prelude::*;
use vstd::string::*;
use vstd::utf8::{decode_utf8, valid_utf8};
use crate::json::{json_document, parse_json, Json, JsonView};
use crate::text::{chars_of, contains_text, decimal_of, format_decimal, str_contains};

verus! {

/// The lowercase of a text, as `str::to_lowercase` gives it.
pub uninterp spec fn lowercase_of(text: Seq<char>) -> Seq<char>;

/// Whether a character is white space, as `char::is_whitespace` says.
pub uninterp spec fn is_whitespace(c: char) -> bool;

/// A text without the white space at its start.
pub open spec fn trim_start(text: Seq<char>) -> Seq<char>
    decreases text.len(),
{
    if text.len() > 0 && is_whitespace(text.first()) {
        trim_start(text.drop_first())
    } else {
        text
    }
}

/// A text without the white space at its end.
pub open spec fn trim_end(text: Seq<char>) -> Seq<char>
    decreases text.len(),
{
    if text.len() > 0 && is_whitespace(text.last()) {
        trim_end(text.drop_last())
    } else {
        text
    }
}

/// A text without the white space at its start and at its end.
pub open spec fn trimmed(text: Seq<char>) -> Seq<char> {
    trim_end(trim_start(text))
}

/// Calls `str::to_lowercase`.  Believed: the result is the lowercase of the
/// text, the same for the same text.
#[verifier::external_body]
fn to_lowercase(text: &str) -> (lower: String)
    ensures
        lower@ == lowercase_of(text@),
{
    text.to_lowercase()
}

/// Calls `char::is_whitespace`.  Believed: the answer depends on the
/// character alone.
#[verifier::external_body]
fn char_is_whitespace(c: char) -> (white: bool)
    ensures
        white == is_whitespace(c),
{
    c.is_whitespace()
}

/// The text without the white space at its start and at its end.
pub fn trim(text: &str) -> (inner: &str)
    ensures
        inner@ == trimmed(text@),
{
    let chars = chars_of(text);
    let n = chars.len();
    let mut start: usize = 0;
    proof {
        assert(text@.skip(0) =~= text@);
    }
    while start < n && char_is_whitespace(chars[start])
        invariant
            start <= n,
            n == chars@.len(),
            chars@ == text@,
            trim_start(text@) == trim_start(text@.skip(start as int)),
        decreases n - start,
    {
        proof {
            assert(text@.skip(start as int).drop_first() =~= text@.skip(start + 1));
        }
        start += 1;
    }
    let ghost rest = text@.skip(start as int);
    proof {
        assert(trim_start(text@) == rest);
        assert(text@.subrange(start as int, n as int) =~= rest);
    }
    let mut end: usize = n;
    while end > start && char_is_whitespace(chars[end - 1])
        invariant
            start <= end <= n,
            n == chars@.len(),
            chars@ == text@,
            trim_end(rest) == trim_end(text@.subrange(start as int, end as int)),
        decreases end - start,
    {
        proof {
            assert(text@.subrange(start as int, end as int).drop_last() =~= text@.subrange(
                start as int,
                end - 1,
            ));
        }
        end -= 1;
    }
    text.substring_char(start, end)
}

/// Calls `String::from_utf8`.  Believed: the call succeeds exactly on valid
/// UTF-8, and the string then holds the characters that the bytes encode.
#[verifier::external_body]
fn string_from_utf8(bytes: Vec<u8>) -> (text: Option<String>)
    ensures
        match text {
            Some(decoded) => valid_utf8(bytes@) && decoded@ == decode_utf8(bytes@),
            None => !valid_utf8(bytes@),
        },
{
    String::from_utf8(bytes).ok()
}

/// The characters that a product name may hold between its words.
pub open spec fn is_separator(c: char) -> bool {
    c == ' ' || c == '_' || c == '-'
}

/// A product name as it is compared: in lowercase, without separators.
pub open spec fn normalized(name: Seq<char>) -> Seq<char> {
    lowercase_of(name).filter(|c: char| !is_separator(c))
}

/// Normalizes a product name: turns it to lowercase and removes spaces,
/// underscores and hyphens.
pub fn normalize_product_name(name: &str) -> (normal: String)
    ensures
        normal@ == normalized(name@),
{
    let lower = to_lowercase(name);
    let chars = chars_of(lower.as_str());
    let mut normal = String::new();
    let mut i: usize = 0;
    proof {
        reveal(Seq::filter);
        assert(chars@.take(0) =~= Seq::<char>::empty());
    }
    while i < chars.len()
        invariant
            i <= chars@.len(),
            chars@ == lower@,
            normal@ == chars@.take(i as int).filter(|c: char| !is_separator(c)),
        decreases chars@.len() - i,
    {
        let c = chars[i];
        proof {
            reveal(Seq::filter);
            assert(chars@.take(i + 1).drop_last() =~= chars@.take(i as int));
        }
        if !(c == ' ' || c == '_' || c == '-') {
            let piece = lower.as_str().substring_char(i, i + 1);
            assert(piece@ =~= seq![c]);
            normal.append(piece);
            assert(normal@ =~= chars@.take(i as int).filter(|c: char| !is_separator(c)).push(c));
        }
        i += 1;
    }
    proof {
        assert(chars@.take(i as int) =~= chars@);
    }
    normal
}

/// The port with this product is the device named `device_name`.
pub open spec fn is_device(product: Option<String>, device_name: Seq<char>) -> bool {
    match product {
        Some(name) => normalized(name@) == normalized(device_name),
        None => false,
    }
}

/// Finds the device among the serial ports.  `products` holds, for each port
/// in turn, the product that it reports over USB, if any.  The device is the
/// first port whose product, normalized, is the normalized `device_name`.
pub fn find_and_validate_arduino(products: &Vec<Option<String>>, device_name: &str) -> (port:
    Option<usize>)
    ensures
        match port {
            Some(at) => {
                &&& at < products@.len()
                &&& is_device(products@[at as int], device_name@)
                &&& forall|j: int| 0 <= j < at ==> !is_device(#[trigger] products@[j], device_name@)
            },
            None => forall|j: int|
                0 <= j < products@.len() ==> !is_device(#[trigger] products@[j], device_name@),
        },
{
    let target = normalize_product_name(device_name);
    let mut i: usize = 0;
    while i < products.len()
        invariant
            i <= products@.len(),
            target@ == normalized(device_name@),
            forall|j: int| 0 <= j < i ==> !is_device(#[trigger] products@[j], device_name@),
        decreases products@.len() - i,
    {
        match &products[i] {
            Some(product) => {
                let normal = normalize_product_name(product.as_str());
                if normal == target {
                    return Some(i);
                }
            },
            None => {},
        }
        i += 1;
    }
    None
}

/// An element of a message is well-formed when it is an object with a member
/// `type` and a member `value`.
pub open spec fn is_valid_item(item: JsonView) -> bool {
    &&& item is Object
    &&& item.get("type"@) is Some
    &&& item.get("value"@) is Some
}

/// A message is well-formed when it is a JSON array of well-formed elements.
pub open spec fn is_valid_message(data: Seq<char>) -> bool {
    match json_document(data) {
        Some(JsonView::Array(items)) => forall|i: int|
            0 <= i < items.len() ==> is_valid_item(#[trigger] items[i]),
        _ => false,
    }
}

/// Decides whether a message of the device is well-formed.
pub fn is_valid_data(data: &str) -> (valid: bool)
    ensures
        valid == is_valid_message(data@),
{
    let document = match parse_json(data) {
        Some(document) => document,
        None => {
            return false;
        },
    };
    let items = match document.as_array() {
        Some(items) => items,
        None => {
            return false;
        },
    };
    let ghost elements = document@->Array_0;
    let mut i: usize = 0;
    while i < items.len()
        invariant
            i <= items@.len(),
            json_document(data@) == Some(JsonView::Array(elements)),
            elements.len() == items@.len(),
            forall|j: int| 0 <= j < items@.len() ==> elements[j] == (#[trigger] items@[j])@,
            forall|j: int| 0 <= j < i ==> is_valid_item(#[trigger] elements[j]),
        decreases items@.len() - i,
    {
        let item = &items[i];
        assert(elements[i as int] == items@[i as int]@);
        let is_object = match item {
            Json::Object(_) => true,
            _ => false,
        };
        if !is_object || item.get("type").is_none() || item.get("value").is_none() {
            assert(!is_valid_item(elements[i as int]));
            assert(json_document(data@)->0->Array_0 == elements);
            return false;
        }
        i += 1;
    }
    true
}

/// What to do after an attempt to read from the device.
#[derive(Debug)]
pub enum ReadStep {
    /// The device sent a well-formed message: hand it on.
    Deliver(String),
    /// The device sent something else: drop it and read again.
    Retry,
    /// The device sent nothing: wait, then read again.
    Wait,
}

/// Decides what follows an attempt to read from the device, which brought
/// `attempt`, or nothing.
pub fn read_data_step(attempt: Option<String>) -> (step: ReadStep)
    ensures
        match attempt {
            None => step is Wait,
            Some(data) => if is_valid_message(data@) {
                step matches ReadStep::Deliver(message) && message@ == data@
            } else {
                step is Retry
            },
        },
{
    match attempt {
        None => ReadStep::Wait,
        Some(data) => {
            if is_valid_data(data.as_str()) {
                ReadStep::Deliver(data)
            } else {
                ReadStep::Retry
            }
        },
    }
}

/// The text of what was read from the device: the characters that the bytes
/// encode, without the white space around them, or `None` where the bytes are
/// not UTF-8.
pub fn decode_reading(buffer: Vec<u8>) -> (text: Option<String>)
    ensures
        match text {
            Some(data) => valid_utf8(buffer@) && data@ == trimmed(decode_utf8(buffer@)),
            None => !valid_utf8(buffer@),
        },
{
    match string_from_utf8(buffer) {
        Some(decoded) => Some(trim(decoded.as_str()).to_owned()),
        None => None,
    }
}

/// Decides whether the device answered a ping as it should: with `PONG`, and
/// white space at most around it.
pub fn is_pong(reply: &str) -> (pong: bool)
    ensures
        pong == (trimmed(reply@) == "PONG"@),
{
    let answer = trim(reply).to_owned();
    let expected = "PONG".to_owned();
    answer == expected
}

/// What the device answers when it has set its clock to `timestamp`.
pub open spec fn time_acknowledgement(timestamp: i64) -> Seq<char> {
    "New timestamp received and set: "@ + decimal_of(timestamp as int)
}

/// The two lines that tell the device to set its clock to `timestamp`: the
/// command, and the timestamp in decimal.
pub fn set_time(timestamp: i64) -> (lines: (String, String))
    ensures
        lines.0@ == "SET_TIME\n"@,
        lines.1@ == decimal_of(timestamp as int) + "\n"@,
{
    let command = "SET_TIME\n".to_owned();
    let mut argument = format_decimal(timestamp);
    argument.append("\n");
    (command, argument)
}

/// Decides whether the device acknowledged that it has set its clock to
/// `timestamp`: whether its response holds the acknowledgement.
pub fn is_time_acknowledged(response: &str, timestamp: i64) -> (acknowledged: bool)
    ensures
        acknowledged == contains_text(response@, time_acknowledgement(timestamp)),
{
    let mut expected = "New timestamp received and set: ".to_owned();
    let decimal = format_decimal(timestamp);
    expected.append(decimal.as_str());
    str_contains(response, expected.as_str())
}

} // verus!
