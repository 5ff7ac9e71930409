//! Writing a document as JSON.

use vstd::pervasive::unreached;
use vstd::prelude::*;

use crate::decimal::{decimal_text, lemma_decimal_text};
use crate::format::{Field, FormatError};
use crate::json::{
    array_value, compact_text, json_of, jsons_of, lemma_member_push, member, members_of,
    new_object, number_value, object_insert, object_value, pretty_text, text_value,
    write_compact, write_pretty, Json,
};
use crate::pattern::{
    entries_view, AhapView, Event, EventPattern, EventPatternView, EventView, HapticCurve,
    Metadata, MetadataView, Parameter, ParameterCurve, ParameterCurveView, AHAP,
};
use crate::scalar::Scalar;

verus! {

/// An object without members.
pub open spec fn no_members() -> Seq<(Seq<char>, Json)> {
    Seq::empty()
}

/// A scalar is written as a JSON number, in decimal.
pub open spec fn encode_scalar(s: Scalar) -> Json {
    Json::Number(decimal_text(s@))
}

/// A parameter is written as an object of its identifier and its value.
pub open spec fn encode_parameter(p: Parameter) -> Json {
    Json::Object(
        no_members()
            .push((Field::ParameterID.key(), Json::Text(p.parameter_id.name())))
            .push((Field::ParameterValue.key(), encode_scalar(p.parameter_value))),
    )
}

/// Parameters are written one by one, in their order.
pub open spec fn encode_parameters(ps: Seq<Parameter>) -> Seq<Json> {
    ps.map_values(|p: Parameter| encode_parameter(p))
}

/// A control point is written as an object of its time and its value.
pub open spec fn encode_control_point(c: HapticCurve) -> Json {
    Json::Object(
        no_members()
            .push((Field::Time.key(), encode_scalar(c.time)))
            .push((Field::ParameterValue.key(), encode_scalar(c.parameter_value))),
    )
}

/// Control points are written one by one, in their order.
pub open spec fn encode_control_points(cs: Seq<HapticCurve>) -> Seq<Json> {
    cs.map_values(|c: HapticCurve| encode_control_point(c))
}

/// The members of a written event: time, type and parameters always, then
/// the duration if the event has one, then the waveform path if it has one.
/// What an event does not have is left out, not written as `null`.
pub open spec fn event_members(e: EventView) -> Seq<(Seq<char>, Json)> {
    let always = no_members()
        .push((Field::Time.key(), encode_scalar(e.time)))
        .push((Field::EventType.key(), Json::Text(e.event_type)))
        .push((Field::EventParameters.key(), Json::Array(encode_parameters(e.event_parameters))));
    let timed = match e.event_duration {
        Some(d) => always.push((Field::EventDuration.key(), encode_scalar(d))),
        None => always,
    };
    match e.event_waveform_path {
        Some(p) => timed.push((Field::EventWaveformPath.key(), Json::Text(p))),
        None => timed,
    }
}

/// An event is written as the object of its members.
pub open spec fn encode_event(e: EventView) -> Json {
    Json::Object(event_members(e))
}

/// A parameter curve is written as an object of its identifier, its start
/// time and its control points.
pub open spec fn encode_curve(c: ParameterCurveView) -> Json {
    Json::Object(
        no_members()
            .push((Field::ParameterID.key(), Json::Text(c.parameter_id.name())))
            .push((Field::Time.key(), encode_scalar(c.time)))
            .push((Field::ParameterCurveControlPoints.key(), Json::Array(encode_control_points(c.control_points)))),
    )
}

/// An entry is written as an object with one member, named after what the
/// entry is: `Event` or `ParameterCurve`.
pub open spec fn encode_entry(e: EventPatternView) -> Json {
    match e {
        EventPatternView::Event(event) => Json::Object(
            no_members()
                .push((Field::Event.key(), encode_event(event))),
        ),
        EventPatternView::ParameterCurve(curve) => Json::Object(
            no_members()
                .push((Field::ParameterCurve.key(), encode_curve(curve))),
        ),
    }
}

/// Entries are written one by one, in their order.
pub open spec fn encode_entries(es: Seq<EventPatternView>) -> Seq<Json> {
    es.map_values(|e: EventPatternView| encode_entry(e))
}

/// Metadata is written as an object of four strings.
pub open spec fn encode_metadata(m: MetadataView) -> Json {
    Json::Object(
        no_members()
            .push((Field::Project.key(), Json::Text(m.project)))
            .push((Field::Created.key(), Json::Text(m.created)))
            .push((Field::Description.key(), Json::Text(m.description)))
            .push((Field::CreatedBy.key(), Json::Text(m.created_by))),
    )
}

/// A document is written as an object of its version, its metadata and its
/// pattern.
pub open spec fn encode_document(d: AhapView) -> Json {
    Json::Object(
        no_members()
            .push((Field::Version.key(), encode_scalar(d.version)))
            .push((Field::Metadata.key(), encode_metadata(d.metadata)))
            .push((Field::Pattern.key(), Json::Array(encode_entries(d.pattern)))),
    )
}

/// Adds the member `field` to an object that does not have it. Every other
/// member is found, or not found, as before.
fn insert_member(
    object: &mut serde_json::Map<String, serde_json::Value>,
    field: Field,
    value: serde_json::Value,
)
    requires
        member(members_of(*old(object)), field.key()) is None,
    ensures
        members_of(*final(object)) == members_of(*old(object)).push(
            (field.key(), json_of(value)),
        ),
        forall|other: Field|
            other != field ==> #[trigger] member(members_of(*final(object)), other.key())
                == member(members_of(*old(object)), other.key()),
{
    object_insert(object, field.as_str(), value);
    proof {
        assert forall|other: Field| other != field implies #[trigger] member(
            members_of(*object),
            other.key(),
        ) == member(members_of(*old(object)), other.key()) by {
            Field::lemma_key_injective(other, field);
            lemma_member_push(
                members_of(*old(object)),
                field.key(),
                json_of(value),
                other.key(),
            );
        }
    }
}

/// Writes a scalar as a JSON number.
fn scalar_json(s: Scalar) -> (value: serde_json::Value)
    ensures
        json_of(value) == encode_scalar(s),
{
    let text = s.to_text();
    proof {
        lemma_decimal_text(s@);
    }
    match number_value(text.as_str()) {
        Ok(value) => value,
        Err(_) => unreached(),
    }
}

/// Writes a parameter.
fn parameter_json(p: &Parameter) -> (value: serde_json::Value)
    ensures
        json_of(value) == encode_parameter(*p),
{
    let mut object = new_object();
    insert_member(&mut object, Field::ParameterID, text_value(p.parameter_id.as_str()));
    insert_member(&mut object, Field::ParameterValue, scalar_json(p.parameter_value));
    object_value(object)
}

/// Writes parameters as a JSON array.
fn parameters_json(ps: &Vec<Parameter>) -> (value: serde_json::Value)
    ensures
        json_of(value) == Json::Array(encode_parameters(ps@)),
{
    let mut items: Vec<serde_json::Value> = Vec::new();
    let mut i: usize = 0;
    while i < ps.len()
        invariant
            i <= ps.len(),
            items@.len() == i,
            forall|k: int| 0 <= k < i ==> json_of(#[trigger] items@[k]) == encode_parameter(ps@[k]),
        decreases ps.len() - i,
    {
        items.push(parameter_json(&ps[i]));
        i = i + 1;
    }
    assert(jsons_of(items@) =~= encode_parameters(ps@));
    array_value(items)
}

/// Writes a control point.
fn control_point_json(c: &HapticCurve) -> (value: serde_json::Value)
    ensures
        json_of(value) == encode_control_point(*c),
{
    let mut object = new_object();
    insert_member(&mut object, Field::Time, scalar_json(c.time));
    insert_member(&mut object, Field::ParameterValue, scalar_json(c.parameter_value));
    object_value(object)
}

/// Writes control points as a JSON array.
fn control_points_json(cs: &Vec<HapticCurve>) -> (value: serde_json::Value)
    ensures
        json_of(value) == Json::Array(encode_control_points(cs@)),
{
    let mut items: Vec<serde_json::Value> = Vec::new();
    let mut i: usize = 0;
    while i < cs.len()
        invariant
            i <= cs.len(),
            items@.len() == i,
            forall|k: int|
                0 <= k < i ==> json_of(#[trigger] items@[k]) == encode_control_point(cs@[k]),
        decreases cs.len() - i,
    {
        items.push(control_point_json(&cs[i]));
        i = i + 1;
    }
    assert(jsons_of(items@) =~= encode_control_points(cs@));
    array_value(items)
}

/// Writes an event.
fn event_json(e: &Event) -> (value: serde_json::Value)
    ensures
        json_of(value) == encode_event(e@),
{
    let mut object = new_object();
    insert_member(&mut object, Field::Time, scalar_json(e.time));
    insert_member(&mut object, Field::EventType, text_value(e.event_type.as_str()));
    insert_member(&mut object, Field::EventParameters, parameters_json(&e.event_parameters));
    match e.event_duration {
        Some(d) => {
            insert_member(&mut object, Field::EventDuration, scalar_json(d));
        },
        None => {},
    }
    match &e.event_waveform_path {
        Some(p) => {
            insert_member(&mut object, Field::EventWaveformPath, text_value(p.as_str()));
        },
        None => {},
    }
    object_value(object)
}

/// Writes a parameter curve.
fn curve_json(c: &ParameterCurve) -> (value: serde_json::Value)
    ensures
        json_of(value) == encode_curve(c@),
{
    let mut object = new_object();
    insert_member(&mut object, Field::ParameterID, text_value(c.parameter_id.as_str()));
    insert_member(&mut object, Field::Time, scalar_json(c.time));
    insert_member(
        &mut object,
        Field::ParameterCurveControlPoints,
        control_points_json(&c.parameter_curve_control_points),
    );
    object_value(object)
}

/// Writes an entry of the pattern.
fn entry_json(e: &EventPattern) -> (value: serde_json::Value)
    ensures
        json_of(value) == encode_entry(e@),
{
    let mut object = new_object();
    match e {
        EventPattern::Event(event) => {
            insert_member(&mut object, Field::Event, event_json(event));
        },
        EventPattern::ParameterCurve(curve) => {
            insert_member(&mut object, Field::ParameterCurve, curve_json(curve));
        },
    }
    object_value(object)
}

/// Writes the entries of the pattern as a JSON array.
fn entries_json(es: &Vec<EventPattern>) -> (value: serde_json::Value)
    ensures
        json_of(value) == Json::Array(encode_entries(entries_view(es@))),
{
    let mut items: Vec<serde_json::Value> = Vec::new();
    let mut i: usize = 0;
    while i < es.len()
        invariant
            i <= es.len(),
            items@.len() == i,
            forall|k: int| 0 <= k < i ==> json_of(#[trigger] items@[k]) == encode_entry(es@[k]@),
        decreases es.len() - i,
    {
        items.push(entry_json(&es[i]));
        i = i + 1;
    }
    assert(jsons_of(items@) =~= encode_entries(entries_view(es@)));
    array_value(items)
}

/// Writes the metadata of a document.
fn metadata_json(m: &Metadata) -> (value: serde_json::Value)
    ensures
        json_of(value) == encode_metadata(m@),
{
    let mut object = new_object();
    insert_member(&mut object, Field::Project, text_value(m.project.as_str()));
    insert_member(&mut object, Field::Created, text_value(m.created.as_str()));
    insert_member(&mut object, Field::Description, text_value(m.description.as_str()));
    insert_member(&mut object, Field::CreatedBy, text_value(m.created_by.as_str()));
    object_value(object)
}

impl AHAP {
    /// The document as a JSON value.
    pub fn to_json(&self) -> (value: serde_json::Value)
        ensures
            json_of(value) == encode_document(self@),
    {
        let mut object = new_object();
        insert_member(&mut object, Field::Version, scalar_json(self.version()));
        insert_member(&mut object, Field::Metadata, metadata_json(self.metadata()));
        insert_member(&mut object, Field::Pattern, entries_json(self.pattern()));
        object_value(object)
    }

    /// The document as JSON text without insignificant white space.
    pub fn export(&self) -> (text: Result<String, FormatError>)
        ensures
            match text {
                Ok(t) => compact_text(encode_document(self@)) == Some(t@),
                Err(e) => e == FormatError::Unwritable && compact_text(encode_document(self@))
                    is None,
            },
    {
        match write_compact(&self.to_json()) {
            Ok(text) => Ok(text),
            Err(_) => Err(FormatError::Unwritable),
        }
    }

    /// The document as indented JSON text.
    pub fn export_pretty(&self) -> (text: Result<String, FormatError>)
        ensures
            match text {
                Ok(t) => pretty_text(encode_document(self@)) == Some(t@),
                Err(e) => e == FormatError::Unwritable && pretty_text(encode_document(self@))
                    is None,
            },
    {
        match write_pretty(&self.to_json()) {
            Ok(text) => Ok(text),
            Err(_) => Err(FormatError::Unwritable),
        }
    }
}

} // verus!
