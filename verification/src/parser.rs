//! Turning one raw device message into readings.
//!
//! A device speaks one of two syntaxes.  In the tagged list a message is a
//! JSON array of objects, each with a string under `type`, a number under
//! `value` and, if it likes, an integer under `timestamp`.  In the delimited
//! triple a message is `<t|h|a>`: three numbers, the temperature, the humidity
//! and the air quality, in that order.
//!
//! A message is read whole or not at all: the first fault fails the parse.

use vstd::prelude::*;
use vstd::string::*;
use crate::clock::current_millis;
use crate::data_manipulation::{tags_view, views, MyDataPoint, MyDataPointView, TagsView};
use crate::errors::ParseError;
use crate::json::{json_document, parse_json, Json, JsonView};
use crate::text::chars_of;

verus! {

/// The tags of every reading of a device at `location`.
pub open spec fn location_tags(location: Seq<char>) -> TagsView {
    seq![("location"@, location)]
}

/// What a parse returned: the readings, or the error.
pub open spec fn outcome_view(outcome: Result<Vec<MyDataPoint>, ParseError>) -> Result<
    Seq<MyDataPointView>,
    ParseError,
> {
    match outcome {
        Ok(points) => Ok(views(points@)),
        Err(error) => Err(error),
    }
}

/// What a document holds, where there is one.
pub open spec fn view_of(document: Option<Json>) -> Option<JsonView> {
    match document {
        Some(json) => Some(json@),
        None => None,
    }
}

/// The measurement that an element of a tagged list names.
pub open spec fn item_type(item: JsonView) -> Option<Seq<char>> {
    match item.get("type"@) {
        Some(member) => member.as_str(),
        None => None,
    }
}

/// The value that an element of a tagged list carries.
pub open spec fn item_value(item: JsonView) -> Option<u64> {
    match item.get("value"@) {
        Some(member) => member.as_double(),
        None => None,
    }
}

/// The timestamp that an element of a tagged list carries.
pub open spec fn item_timestamp(item: JsonView) -> Option<i64> {
    match item.get("timestamp"@) {
        Some(member) => member.as_i64(),
        None => None,
    }
}

/// The fault of an element of a tagged list, if it has one.
pub open spec fn item_error(item: JsonView) -> Option<ParseError> {
    if item_type(item) is None {
        Some(ParseError::MissingType)
    } else if item_value(item) is None {
        Some(ParseError::InvalidValue)
    } else {
        None
    }
}

/// The reading that a faultless element of a tagged list stands for, when it
/// is read at `now` from a device at `location`.
pub open spec fn item_reading(item: JsonView, location: Seq<char>, now: i64) -> MyDataPointView {
    MyDataPointView {
        measurement: item_type(item)->0,
        tags: location_tags(location),
        value: item_value(item),
        timestamp: Some(
            match item_timestamp(item) {
                Some(timestamp) => timestamp,
                None => now,
            },
        ),
    }
}

/// The element at `at` is the first of `items` with a fault.
pub open spec fn is_first_fault(items: Seq<JsonView>, at: int) -> bool {
    &&& 0 <= at < items.len()
    &&& item_error(items[at]) is Some
    &&& forall|j: int| 0 <= j < at ==> item_error(#[trigger] items[j]) is None
}

/// `outcome` is what a tagged list yields, when `document` is what the JSON
/// parser made of the message: the readings of all its elements, in their
/// order, or the fault of the first element that has one.
pub open spec fn is_parse_of_list(
    outcome: Result<Seq<MyDataPointView>, ParseError>,
    document: Option<JsonView>,
    location: Seq<char>,
    now: i64,
) -> bool {
    match document {
        None => outcome == Err::<Seq<MyDataPointView>, ParseError>(ParseError::InvalidJson),
        Some(JsonView::Array(items)) => match outcome {
            Ok(points) => {
                &&& points.len() == items.len()
                &&& forall|i: int|
                    0 <= i < items.len() ==> {
                        &&& item_error(#[trigger] items[i]) is None
                        &&& points[i] == item_reading(items[i], location, now)
                    }
            },
            Err(error) => exists|at: int|
                is_first_fault(items, at) && item_error(#[trigger] items[at]) == Some(error),
        },
        Some(_) => outcome == Err::<Seq<MyDataPointView>, ParseError>(ParseError::NotAnArray),
    }
}

/// The tags of a reading of a device at `location`.
fn make_location_tags(location: &str) -> (tags: Vec<(String, String)>)
    ensures
        tags_view(tags@) == location_tags(location@),
{
    let mut tags: Vec<(String, String)> = Vec::new();
    tags.push(("location".to_owned(), location.to_owned()));
    assert(tags_view(tags@) =~= location_tags(location@));
    tags
}

/// Reads one element of a tagged list, at `now`, from a device at `location`.
pub fn data_point_from_item(item: &Json, location: &str, now: i64) -> (outcome: Result<
    MyDataPoint,
    ParseError,
>)
    ensures
        match outcome {
            Ok(point) => item_error(item@) is None && point@ == item_reading(
                item@,
                location@,
                now,
            ),
            Err(error) => item_error(item@) == Some(error),
        },
{
    let sensor_type = match item.get("type") {
        Some(member) => member.as_str(),
        None => None,
    };
    let value = match item.get("value") {
        Some(member) => member.as_double(),
        None => None,
    };
    let timestamp = match item.get("timestamp") {
        Some(member) => member.as_i64(),
        None => None,
    };
    match sensor_type {
        None => Err(ParseError::MissingType),
        Some(name) => match value {
            None => Err(ParseError::InvalidValue),
            Some(bits) => {
                let instant = match timestamp {
                    Some(given) => given,
                    None => now,
                };
                Ok(
                    MyDataPoint::new(
                        name.to_owned(),
                        make_location_tags(location),
                        Some(bits),
                        Some(instant),
                    ),
                )
            },
        },
    }
}

/// Reads the elements of a tagged list, at `now`, from a device at `location`.
pub fn data_points_from_document(document: Option<Json>, location: &str, now: i64) -> (outcome:
    Result<Vec<MyDataPoint>, ParseError>)
    ensures
        is_parse_of_list(outcome_view(outcome), view_of(document), location@, now),
{
    let json = match document {
        Some(json) => json,
        None => {
            return Err(ParseError::InvalidJson);
        },
    };
    let items = match json.as_array() {
        Some(items) => items,
        None => {
            return Err(ParseError::NotAnArray);
        },
    };
    let ghost elements = json@->Array_0;
    let mut points: Vec<MyDataPoint> = Vec::new();
    let mut i: usize = 0;
    while i < items.len()
        invariant
            i <= items@.len(),
            view_of(document) == Some(JsonView::Array(elements)),
            elements.len() == items@.len(),
            forall|j: int| 0 <= j < items@.len() ==> elements[j] == (#[trigger] items@[j])@,
            points@.len() == i,
            forall|j: int|
                0 <= j < i ==> {
                    &&& item_error(#[trigger] elements[j]) is None
                    &&& points@[j]@ == item_reading(elements[j], location@, now)
                },
        decreases items@.len() - i,
    {
        match data_point_from_item(&items[i], location, now) {
            Ok(point) => {
                assert(elements[i as int] == items@[i as int]@);
                points.push(point);
            },
            Err(error) => {
                assert(elements[i as int] == items@[i as int]@);
                assert(is_first_fault(elements, i as int));
                assert(item_error(elements[i as int]) == Some(error));
                return Err(error);
            },
        }
        i += 1;
    }
    Ok(points)
}

/// Reads a tagged list at `now`, from a device at `location`.
pub fn parse_sensor_data_at(input: &str, location: &str, now: i64) -> (outcome: Result<
    Vec<MyDataPoint>,
    ParseError,
>)
    ensures
        is_parse_of_list(outcome_view(outcome), json_document(input@), location@, now),
{
    data_points_from_document(parse_json(input), location, now)
}

/// Reads a tagged list from a device at `location`.  An element without a
/// timestamp gets the instant at which the message is read, which is the same
/// for all the elements of one message.
pub fn parse_sensor_data(input: String, location: &str) -> (outcome: Result<
    Vec<MyDataPoint>,
    ParseError,
>)
    ensures
        exists|now: i64|
            is_parse_of_list(outcome_view(outcome), json_document(input@), location@, now),
{
    let now = current_millis();
    parse_sensor_data_at(input.as_str(), location, now)
}

/// The pieces into which `separator` cuts `text`: one more than the times it
/// occurs, none of them holding it.
pub open spec fn split_fields(text: Seq<char>, separator: char) -> Seq<Seq<char>>
    decreases text.len(),
{
    if text.len() == 0 {
        seq![Seq::<char>::empty()]
    } else {
        let before = split_fields(text.drop_last(), separator);
        if text.last() == separator {
            before.push(Seq::<char>::empty())
        } else {
            before.drop_last().push(before.last().push(text.last()))
        }
    }
}

/// Where the pieces lie into which `separator` cuts the characters from
/// `from` up to `to`: the first and the end position of each.
fn field_bounds(chars: &Vec<char>, from: usize, to: usize, separator: char) -> (bounds: Vec<
    (usize, usize),
>)
    requires
        from <= to <= chars@.len(),
    ensures
        bounds@.len() == split_fields(chars@.subrange(from as int, to as int), separator).len(),
        forall|k: int|
            0 <= k < bounds@.len() ==> {
                &&& from <= (#[trigger] bounds@[k]).0 <= bounds@[k].1 <= to
                &&& chars@.subrange(bounds@[k].0 as int, bounds@[k].1 as int) == split_fields(
                    chars@.subrange(from as int, to as int),
                    separator,
                )[k]
            },
{
    let mut bounds: Vec<(usize, usize)> = Vec::new();
    let mut start: usize = from;
    let mut i: usize = from;
    proof {
        assert(chars@.subrange(from as int, from as int) =~= Seq::<char>::empty());
    }
    while i < to
        invariant
            from <= start <= i <= to <= chars@.len(),
            bounds@.len() + 1 == split_fields(chars@.subrange(from as int, i as int), separator).len(),
            forall|k: int|
                0 <= k < bounds@.len() ==> {
                    &&& from <= (#[trigger] bounds@[k]).0 <= bounds@[k].1 <= i
                    &&& chars@.subrange(bounds@[k].0 as int, bounds@[k].1 as int) == split_fields(
                        chars@.subrange(from as int, i as int),
                        separator,
                    )[k]
                },
            split_fields(chars@.subrange(from as int, i as int), separator).last() == chars@.subrange(
                start as int,
                i as int,
            ),
        decreases to - i,
    {
        let ghost seen = chars@.subrange(from as int, i as int);
        let ghost next = chars@.subrange(from as int, i + 1);
        let ghost before = split_fields(seen, separator);
        let ghost old_bounds = bounds@;
        proof {
            assert(next.drop_last() =~= seen);
            assert(next.last() == chars@[i as int]);
        }
        if chars[i] == separator {
            bounds.push((start, i));
            start = i + 1;
            proof {
                assert(split_fields(next, separator) == before.push(Seq::<char>::empty()));
                assert(chars@.subrange(i + 1, i + 1) =~= Seq::<char>::empty());
                assert forall|k: int| 0 <= k < bounds@.len() implies {
                    &&& from <= (#[trigger] bounds@[k]).0 <= bounds@[k].1 <= i + 1
                    &&& chars@.subrange(bounds@[k].0 as int, bounds@[k].1 as int) == split_fields(
                        next,
                        separator,
                    )[k]
                } by {
                    if k < old_bounds.len() {
                        assert(bounds@[k] == old_bounds[k]);
                    }
                }
            }
        } else {
            proof {
                assert(split_fields(next, separator) == before.drop_last().push(
                    before.last().push(chars@[i as int]),
                ));
                assert(chars@.subrange(start as int, i as int).push(chars@[i as int])
                    =~= chars@.subrange(start as int, i + 1));
            }
        }
        i += 1;
    }
    bounds.push((start, to));
    proof {
        let fields = split_fields(chars@.subrange(from as int, to as int), separator);
        assert forall|k: int| 0 <= k < bounds@.len() implies {
            &&& from <= (#[trigger] bounds@[k]).0 <= bounds@[k].1 <= to
            &&& chars@.subrange(bounds@[k].0 as int, bounds@[k].1 as int) == fields[k]
        } by {
            if k < bounds@.len() - 1 {
                assert(bounds@[k] == bounds@.drop_last()[k]);
            }
        }
    }
    bounds
}

/// The bit pattern of the double that `field` spells as a JSON number.
pub open spec fn field_value(field: Seq<char>) -> Option<u64> {
    match json_document(field) {
        Some(document) => document.as_double(),
        None => None,
    }
}

/// Reads a number: the bit pattern of the double that `field` spells as a JSON
/// number, or `None` where it spells none.
pub fn parse_number(field: &str) -> (value: Option<u64>)
    ensures
        value == field_value(field@),
{
    match parse_json(field) {
        Some(document) => document.as_double(),
        None => None,
    }
}

/// A message is delimited when it begins with `<` and ends with `>`.
pub open spec fn is_delimited(raw: Seq<char>) -> bool {
    &&& raw.len() >= 2
    &&& raw.first() == '<'
    &&& raw.last() == '>'
}

/// The fields of a delimited message: what lies between its delimiters, cut at
/// each `|`.
pub open spec fn triple_fields(raw: Seq<char>) -> Seq<Seq<char>> {
    split_fields(raw.subrange(1, raw.len() - 1), '|')
}

/// The reading of `measurement` with `value`, taken at `now` by a device at
/// `location`.
pub open spec fn triple_reading(
    measurement: Seq<char>,
    value: u64,
    location: Seq<char>,
    now: i64,
) -> MyDataPointView {
    MyDataPointView {
        measurement,
        tags: location_tags(location),
        value: Some(value),
        timestamp: Some(now),
    }
}

/// What a delimited triple yields when it is read at `now` from a device at
/// `location`: the temperature, the humidity and the air quality, in that
/// order, or the fault of the message.
pub open spec fn triple_outcome(raw: Seq<char>, location: Seq<char>, now: i64) -> Result<
    Seq<MyDataPointView>,
    ParseError,
> {
    let fields = triple_fields(raw);
    if !is_delimited(raw) {
        Err(ParseError::MissingDelimiters)
    } else if fields.len() != 3 {
        Err(ParseError::WrongFieldCount)
    } else if field_value(fields[0]) is None || field_value(fields[1]) is None || field_value(
        fields[2],
    ) is None {
        Err(ParseError::InvalidNumber)
    } else {
        Ok(
            seq![
                triple_reading("temperature"@, field_value(fields[0])->0, location, now),
                triple_reading("humidity"@, field_value(fields[1])->0, location, now),
                triple_reading("air_quality"@, field_value(fields[2])->0, location, now),
            ],
        )
    }
}

/// Reads a delimited triple at `now`, from a device at `location`.
pub fn parse_sensor_triple_at(input: &str, location: &str, now: i64) -> (outcome: Result<
    Vec<MyDataPoint>,
    ParseError,
>)
    ensures
        outcome_view(outcome) == triple_outcome(input@, location@, now),
{
    let chars = chars_of(input);
    let n = chars.len();
    if n < 2 || chars[0] != '<' || chars[n - 1] != '>' {
        return Err(ParseError::MissingDelimiters);
    }
    let bounds = field_bounds(&chars, 1, n - 1, '|');
    if bounds.len() != 3 {
        return Err(ParseError::WrongFieldCount);
    }
    let ghost fields = triple_fields(input@);
    let first = input.substring_char(bounds[0].0, bounds[0].1);
    let second = input.substring_char(bounds[1].0, bounds[1].1);
    let third = input.substring_char(bounds[2].0, bounds[2].1);
    proof {
        assert(first@ == fields[0]);
        assert(second@ == fields[1]);
        assert(third@ == fields[2]);
    }
    match (parse_number(first), parse_number(second), parse_number(third)) {
        (Some(temperature), Some(humidity), Some(air_quality)) => {
            let mut points: Vec<MyDataPoint> = Vec::new();
            points.push(
                MyDataPoint::new(
                    "temperature".to_owned(),
                    make_location_tags(location),
                    Some(temperature),
                    Some(now),
                ),
            );
            points.push(
                MyDataPoint::new(
                    "humidity".to_owned(),
                    make_location_tags(location),
                    Some(humidity),
                    Some(now),
                ),
            );
            points.push(
                MyDataPoint::new(
                    "air_quality".to_owned(),
                    make_location_tags(location),
                    Some(air_quality),
                    Some(now),
                ),
            );
            proof {
                assert(views(points@) =~= seq![
                    triple_reading("temperature"@, temperature, location@, now),
                    triple_reading("humidity"@, humidity, location@, now),
                    triple_reading("air_quality"@, air_quality, location@, now),
                ]);
            }
            Ok(points)
        },
        _ => Err(ParseError::InvalidNumber),
    }
}

/// Reads a delimited triple from a device at `location`.  The three readings
/// share the instant at which the message is read.
pub fn parse_sensor_triple(input: &str, location: &str) -> (outcome: Result<
    Vec<MyDataPoint>,
    ParseError,
>)
    ensures
        exists|now: i64| outcome_view(outcome) == triple_outcome(input@, location@, now),
{
    let now = current_millis();
    parse_sensor_triple_at(input, location, now)
}

/// The syntax that a device speaks.
#[derive(Debug, Clone, Copy, PartialEq, Eq, Structural)]
pub enum SensorSyntax {
    /// `<t|h|a>`: temperature, humidity and air quality.
    DelimitedTriple,
    /// A JSON array of objects with `type`, `value` and, if they like,
    /// `timestamp`.
    TaggedList,
}

/// `outcome` is what a message in `syntax` yields when it is read at `now`
/// from a device at `location`.
pub open spec fn is_parse_of(
    outcome: Result<Seq<MyDataPointView>, ParseError>,
    syntax: SensorSyntax,
    raw: Seq<char>,
    location: Seq<char>,
    now: i64,
) -> bool {
    match syntax {
        SensorSyntax::DelimitedTriple => outcome == triple_outcome(raw, location, now),
        SensorSyntax::TaggedList => is_parse_of_list(outcome, json_document(raw), location, now),
    }
}

/// Reads one message in `syntax` at `now`, from a device at `location`.
pub fn parse_at(syntax: SensorSyntax, raw: &str, location: &str, now: i64) -> (outcome: Result<
    Vec<MyDataPoint>,
    ParseError,
>)
    ensures
        is_parse_of(outcome_view(outcome), syntax, raw@, location@, now),
{
    match syntax {
        SensorSyntax::DelimitedTriple => parse_sensor_triple_at(raw, location, now),
        SensorSyntax::TaggedList => parse_sensor_data_at(raw, location, now),
    }
}

/// Reads one message in `syntax` from a device at `location`.  Where the
/// message gives a reading no timestamp, the reading gets the instant at which
/// the message is read.
pub fn parse(syntax: SensorSyntax, raw: &str, location: &str) -> (outcome: Result<
    Vec<MyDataPoint>,
    ParseError,
>)
    ensures
        exists|now: i64| is_parse_of(outcome_view(outcome), syntax, raw@, location@, now),
{
    let now = current_millis();
    parse_at(syntax, raw, location, now)
}

} // verus!
