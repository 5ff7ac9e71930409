//! What holds of every document between writing and reading.

use vstd::prelude::*;

use crate::decimal::lemma_decimal_text;
use crate::decode::{
    control_point_reader, decode_control_point, decode_curve, decode_document, decode_each,
    decode_entry, decode_event, decode_metadata, decode_parameter, decode_scalar, entry_reader,
    optional, parameter_reader, read_document,
};
use crate::encode::{
    encode_control_point, encode_control_points, encode_curve, encode_document, encode_entries,
    encode_entry, encode_event, encode_metadata, encode_parameter, encode_parameters,
    encode_scalar, event_members,
};
use crate::format::{Field, FormatError};
use crate::json::{compact_text, lemma_member_push, member, parsed_text, pretty_text, Json};
use crate::pattern::{
    AhapView, EventPatternView, EventView, HapticCurve, MetadataView, Parameter,
    ParameterCurveView,
};
use crate::scalar::Scalar;

verus! {

/// After a member is added at the end of an object, each member of the
/// format is found where it was found before, and the new member is found
/// under its own key if that key was free.
pub proof fn lemma_member_added(members: Seq<(Seq<char>, Json)>, field: Field, value: Json)
    ensures
        forall|sought: Field| #[trigger]
            member(members.push((field.key(), value)), sought.key()) == match member(
                members,
                sought.key(),
            ) {
                Some(found) => Some(found),
                None => if field == sought {
                    Some(value)
                } else {
                    None
                },
            },
{
    assert forall|sought: Field| #[trigger]
        member(members.push((field.key(), value)), sought.key()) == match member(
            members,
            sought.key(),
        ) {
            Some(found) => Some(found),
            None => if field == sought {
                Some(value)
            } else {
                None
            },
        } by {
        Field::lemma_key_injective(field, sought);
        lemma_member_push(members, field.key(), value, sought.key());
    }
}

/// Items that are each read as expected are read as expected together.
pub proof fn lemma_decode_each_ok<T>(
    items: Seq<Json>,
    one: spec_fn(Json) -> Result<T, FormatError>,
    expected: Seq<T>,
)
    requires
        items.len() == expected.len(),
        forall|i: int| 0 <= i < items.len() ==> one(#[trigger] items[i]) == Ok::<T, FormatError>(
            expected[i],
        ),
    ensures
        decode_each(items, one) == Ok::<Seq<T>, FormatError>(expected),
    decreases items.len(),
{
    if items.len() == 0 {
        assert(expected =~= Seq::<T>::empty());
    } else {
        lemma_decode_each_ok(items.drop_last(), one, expected.drop_last());
        assert(expected =~= expected.drop_last().push(expected.last()));
    }
}

/// A scalar is read back from the number that writes it.
pub proof fn lemma_scalar_round_trip(s: Scalar, field: Field)
    ensures
        decode_scalar(encode_scalar(s), field) == Ok::<Scalar, FormatError>(s),
{
    lemma_decimal_text(s@);
}

/// A parameter is read back from what writes it.
pub proof fn lemma_parameter_round_trip(p: Parameter)
    ensures
        decode_parameter(encode_parameter(p)) == Ok::<Parameter, FormatError>(p),
{
    let none = Seq::<(Seq<char>, Json)>::empty();
    let id = Json::Text(p.parameter_id.name());
    lemma_member_added(none, Field::ParameterID, id);
    lemma_member_added(
        none.push((Field::ParameterID.key(), id)),
        Field::ParameterValue,
        encode_scalar(p.parameter_value),
    );
    p.parameter_id.lemma_named_name();
    lemma_scalar_round_trip(p.parameter_value, Field::ParameterValue);
}

/// A control point is read back from what writes it.
pub proof fn lemma_control_point_round_trip(c: HapticCurve)
    ensures
        decode_control_point(encode_control_point(c)) == Ok::<HapticCurve, FormatError>(c),
{
    let none = Seq::<(Seq<char>, Json)>::empty();
    lemma_member_added(none, Field::Time, encode_scalar(c.time));
    lemma_member_added(
        none.push((Field::Time.key(), encode_scalar(c.time))),
        Field::ParameterValue,
        encode_scalar(c.parameter_value),
    );
    lemma_scalar_round_trip(c.time, Field::Time);
    lemma_scalar_round_trip(c.parameter_value, Field::ParameterValue);
}

/// What an event's members answer for each key of the format: the three
/// members that every event has, and the duration and the waveform path
/// exactly where the event has them. Nothing is written as `null`.
pub proof fn lemma_event_members(e: EventView)
    ensures
        member(event_members(e), Field::Time.key()) == Some(encode_scalar(e.time)),
        member(event_members(e), Field::EventType.key()) == Some(Json::Text(e.event_type)),
        member(event_members(e), Field::EventParameters.key()) == Some(
            Json::Array(encode_parameters(e.event_parameters)),
        ),
        member(event_members(e), Field::EventDuration.key()) == match e.event_duration {
            Some(d) => Some(encode_scalar(d)),
            None => None,
        },
        member(event_members(e), Field::EventWaveformPath.key()) == match e.event_waveform_path {
            Some(p) => Some(Json::Text(p)),
            None => None,
        },
        forall|i: int| 0 <= i < event_members(e).len() ==> !((#[trigger] event_members(e)[i]).1 is Null),
{
    let none = Seq::<(Seq<char>, Json)>::empty();
    let a = none.push((Field::Time.key(), encode_scalar(e.time)));
    let b = a.push((Field::EventType.key(), Json::Text(e.event_type)));
    let c = b.push(
        (Field::EventParameters.key(), Json::Array(encode_parameters(e.event_parameters))),
    );
    lemma_member_added(none, Field::Time, encode_scalar(e.time));
    lemma_member_added(a, Field::EventType, Json::Text(e.event_type));
    lemma_member_added(
        b,
        Field::EventParameters,
        Json::Array(encode_parameters(e.event_parameters)),
    );
    let d = match e.event_duration {
        Some(duration) => {
            lemma_member_added(c, Field::EventDuration, encode_scalar(duration));
            c.push((Field::EventDuration.key(), encode_scalar(duration)))
        },
        None => c,
    };
    match e.event_waveform_path {
        Some(path) => {
            lemma_member_added(d, Field::EventWaveformPath, Json::Text(path));
        },
        None => {},
    }
}

/// An event is read back from what writes it.
pub proof fn lemma_event_round_trip(e: EventView)
    ensures
        decode_event(encode_event(e)) == Ok::<EventView, FormatError>(e),
{
    lemma_event_members(e);
    lemma_scalar_round_trip(e.time, Field::Time);
    let items = encode_parameters(e.event_parameters);
    assert forall|i: int| 0 <= i < items.len() implies parameter_reader()(#[trigger] items[i])
        == Ok::<Parameter, FormatError>(e.event_parameters[i]) by {
        lemma_parameter_round_trip(e.event_parameters[i]);
    }
    lemma_decode_each_ok(items, parameter_reader(), e.event_parameters);
    match e.event_duration {
        Some(d) => {
            lemma_scalar_round_trip(d, Field::EventDuration);
        },
        None => {},
    }
}

/// A parameter curve is read back from what writes it.
pub proof fn lemma_curve_round_trip(c: ParameterCurveView)
    ensures
        decode_curve(encode_curve(c)) == Ok::<ParameterCurveView, FormatError>(c),
{
    let none = Seq::<(Seq<char>, Json)>::empty();
    let id = Json::Text(c.parameter_id.name());
    let points = Json::Array(encode_control_points(c.control_points));
    let a = none.push((Field::ParameterID.key(), id));
    let b = a.push((Field::Time.key(), encode_scalar(c.time)));
    lemma_member_added(none, Field::ParameterID, id);
    lemma_member_added(a, Field::Time, encode_scalar(c.time));
    lemma_member_added(b, Field::ParameterCurveControlPoints, points);
    c.parameter_id.lemma_named_name();
    lemma_scalar_round_trip(c.time, Field::Time);
    let items = encode_control_points(c.control_points);
    assert forall|i: int| 0 <= i < items.len() implies control_point_reader()(#[trigger] items[i])
        == Ok::<HapticCurve, FormatError>(c.control_points[i]) by {
        lemma_control_point_round_trip(c.control_points[i]);
    }
    lemma_decode_each_ok(items, control_point_reader(), c.control_points);
}

/// Every written entry is an object with exactly one member, whose key is
/// `Event` for an event and `ParameterCurve` for a parameter curve: one of
/// the two keys is there, never both and never neither.
pub proof fn lemma_entry_holds_one_variant(e: EventPatternView)
    ensures
        encode_entry(e) matches Json::Object(members) && {
            &&& members.len() == 1
            &&& members[0].0 == if e is Event {
                Field::Event.key()
            } else {
                Field::ParameterCurve.key()
            }
            &&& member(members, Field::Event.key()) is Some <==> e is Event
            &&& member(members, Field::ParameterCurve.key()) is Some <==> e is ParameterCurve
            &&& optional(members, Field::Event) is Some <==> e is Event
            &&& optional(members, Field::ParameterCurve) is Some <==> e is ParameterCurve
        },
{
    let none = Seq::<(Seq<char>, Json)>::empty();
    match e {
        EventPatternView::Event(event) => {
            lemma_member_added(none, Field::Event, encode_event(event));
        },
        EventPatternView::ParameterCurve(curve) => {
            lemma_member_added(none, Field::ParameterCurve, encode_curve(curve));
        },
    }
}

/// An event without a duration is written without the member
/// `EventDuration`, and one without a waveform path without the member
/// `EventWaveformPath`; an event that has one is written with it. No member
/// of a written event is `null`.
pub proof fn lemma_absent_members_are_omitted(e: EventView)
    ensures
        member(event_members(e), Field::EventDuration.key()) is None <==> e.event_duration is None,
        member(event_members(e), Field::EventWaveformPath.key()) is None
            <==> e.event_waveform_path is None,
        forall|i: int| 0 <= i < event_members(e).len() ==> !((#[trigger] event_members(e)[i]).1 is Null),
        e.event_duration is None && e.event_waveform_path is None ==> event_members(e).len() == 3,
{
    lemma_event_members(e);
}

/// An entry is read back from what writes it.
pub proof fn lemma_entry_round_trip(e: EventPatternView)
    ensures
        decode_entry(encode_entry(e)) == Ok::<EventPatternView, FormatError>(e),
{
    lemma_entry_holds_one_variant(e);
    let none = Seq::<(Seq<char>, Json)>::empty();
    match e {
        EventPatternView::Event(event) => {
            lemma_member_added(none, Field::Event, encode_event(event));
            lemma_event_round_trip(event);
        },
        EventPatternView::ParameterCurve(curve) => {
            lemma_member_added(none, Field::ParameterCurve, encode_curve(curve));
            lemma_curve_round_trip(curve);
        },
    }
}

/// Metadata is read back from what writes it.
pub proof fn lemma_metadata_round_trip(m: MetadataView)
    ensures
        decode_metadata(encode_metadata(m)) == Ok::<MetadataView, FormatError>(m),
{
    let none = Seq::<(Seq<char>, Json)>::empty();
    let a = none.push((Field::Project.key(), Json::Text(m.project)));
    let b = a.push((Field::Created.key(), Json::Text(m.created)));
    let c = b.push((Field::Description.key(), Json::Text(m.description)));
    lemma_member_added(none, Field::Project, Json::Text(m.project));
    lemma_member_added(a, Field::Created, Json::Text(m.created));
    lemma_member_added(b, Field::Description, Json::Text(m.description));
    lemma_member_added(c, Field::CreatedBy, Json::Text(m.created_by));
}

/// Reading the JSON value that writes a document gives the document back,
/// equal in every field and with its entries in their order.
pub proof fn lemma_document_round_trip(d: AhapView)
    ensures
        decode_document(encode_document(d)) == Ok::<AhapView, FormatError>(d),
{
    let none = Seq::<(Seq<char>, Json)>::empty();
    let entries = Json::Array(encode_entries(d.pattern));
    let a = none.push((Field::Version.key(), encode_scalar(d.version)));
    let b = a.push((Field::Metadata.key(), encode_metadata(d.metadata)));
    lemma_member_added(none, Field::Version, encode_scalar(d.version));
    lemma_member_added(a, Field::Metadata, encode_metadata(d.metadata));
    lemma_member_added(b, Field::Pattern, entries);
    lemma_scalar_round_trip(d.version, Field::Version);
    lemma_metadata_round_trip(d.metadata);
    let items = encode_entries(d.pattern);
    assert forall|i: int| 0 <= i < items.len() implies entry_reader()(#[trigger] items[i]) == Ok::<
        EventPatternView,
        FormatError,
    >(d.pattern[i]) by {
        lemma_entry_round_trip(d.pattern[i]);
    }
    lemma_decode_each_ok(items, entry_reader(), d.pattern);
}

/// Where the JSON reader gives back the value that the JSON writer was
/// handed, a document is read back from its compact text.
pub proof fn lemma_compact_text_round_trip(d: AhapView, text: Seq<char>)
    requires
        compact_text(encode_document(d)) == Some(text),
        parsed_text(text) == Some(encode_document(d)),
    ensures
        read_document(text) == Ok::<AhapView, FormatError>(d),
{
    lemma_document_round_trip(d);
}

/// Where the JSON reader gives back the value that the JSON writer was
/// handed, a document is read back from its indented text.
pub proof fn lemma_pretty_text_round_trip(d: AhapView, text: Seq<char>)
    requires
        pretty_text(encode_document(d)) == Some(text),
        parsed_text(text) == Some(encode_document(d)),
    ensures
        read_document(text) == Ok::<AhapView, FormatError>(d),
{
    lemma_document_round_trip(d);
}

} // verus!
