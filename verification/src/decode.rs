//! Reading a document from JSON.
//!
//! The members of an object are read in the order in which the format lists
//! them, and the first that is missing or of the wrong kind is the error.
//! Members that the format does not know are passed over. An optional
//! member that is `null` counts as absent.

use vstd::prelude::*;

use crate::decimal::decimal_micros;
use crate::format::{Field, FormatError};
use crate::ids::{CurveParamID, ParamID};
use crate::json::{
    as_array, as_number_text, as_object, as_text, is_null, json_of, jsons_of, member,
    members_of, object_get, parsed_text, read_text, Json,
};
use crate::pattern::{
    entries_view, text_view, AhapView, Event, EventPattern, EventPatternView, EventView, HapticCurve,
    Metadata, MetadataView, Parameter, ParameterCurve, ParameterCurveView, AHAP,
};
use crate::scalar::Scalar;

verus! {

/// The member `field`, which has to be there.
pub open spec fn required(members: Seq<(Seq<char>, Json)>, field: Field) -> Result<
    Json,
    FormatError,
> {
    match member(members, field.key()) {
        Some(json) => Ok(json),
        None => Err(FormatError::Missing(field)),
    }
}

/// The member `field`, if it is there and is not `null`.
pub open spec fn optional(members: Seq<(Seq<char>, Json)>, field: Field) -> Option<Json> {
    match member(members, field.key()) {
        Some(Json::Null) => None,
        found => found,
    }
}

/// The scalar that a JSON number writes.
pub open spec fn decode_scalar(json: Json, field: Field) -> Result<Scalar, FormatError> {
    match json {
        Json::Number(text) => match decimal_micros(text) {
            Some(micros) => Ok(Scalar { micros: micros as i64 }),
            None => Err(FormatError::Mismatch(field)),
        },
        _ => Err(FormatError::Mismatch(field)),
    }
}

/// The characters of a JSON string.
pub open spec fn decode_text(json: Json, field: Field) -> Result<Seq<char>, FormatError> {
    match json {
        Json::Text(text) => Ok(text),
        _ => Err(FormatError::Mismatch(field)),
    }
}

/// The scalar in the member `field`.
pub open spec fn required_scalar(members: Seq<(Seq<char>, Json)>, field: Field) -> Result<
    Scalar,
    FormatError,
> {
    match required(members, field) {
        Ok(json) => decode_scalar(json, field),
        Err(e) => Err(e),
    }
}

/// The string in the member `field`.
pub open spec fn required_text(members: Seq<(Seq<char>, Json)>, field: Field) -> Result<
    Seq<char>,
    FormatError,
> {
    match required(members, field) {
        Ok(json) => decode_text(json, field),
        Err(e) => Err(e),
    }
}

/// The items of the array in the member `field`.
pub open spec fn required_array(members: Seq<(Seq<char>, Json)>, field: Field) -> Result<
    Seq<Json>,
    FormatError,
> {
    match required(members, field) {
        Ok(Json::Array(items)) => Ok(items),
        Ok(_) => Err(FormatError::Mismatch(field)),
        Err(e) => Err(e),
    }
}

/// The scalar in the member `field`, if the member is there.
pub open spec fn optional_scalar(members: Seq<(Seq<char>, Json)>, field: Field) -> Result<
    Option<Scalar>,
    FormatError,
> {
    match optional(members, field) {
        Some(json) => match decode_scalar(json, field) {
            Ok(s) => Ok(Some(s)),
            Err(e) => Err(e),
        },
        None => Ok(None),
    }
}

/// The string in the member `field`, if the member is there.
pub open spec fn optional_text(members: Seq<(Seq<char>, Json)>, field: Field) -> Result<
    Option<Seq<char>>,
    FormatError,
> {
    match optional(members, field) {
        Some(json) => match decode_text(json, field) {
            Ok(t) => Ok(Some(t)),
            Err(e) => Err(e),
        },
        None => Ok(None),
    }
}

/// Reads `items` one by one with `one`, first to last. The first item that
/// cannot be read is the error.
pub open spec fn decode_each<T>(
    items: Seq<Json>,
    one: spec_fn(Json) -> Result<T, FormatError>,
) -> Result<Seq<T>, FormatError>
    decreases items.len(),
{
    if items.len() == 0 {
        Ok(Seq::empty())
    } else {
        match decode_each(items.drop_last(), one) {
            Ok(before) => match one(items.last()) {
                Ok(item) => Ok(before.push(item)),
                Err(e) => Err(e),
            },
            Err(e) => Err(e),
        }
    }
}

/// An error among the first `k` items is the error of the whole.
pub proof fn lemma_decode_each_prefix<T>(
    items: Seq<Json>,
    one: spec_fn(Json) -> Result<T, FormatError>,
    k: int,
)
    requires
        0 <= k <= items.len(),
        decode_each(items.take(k), one) is Err,
    ensures
        decode_each(items, one) == decode_each(items.take(k), one),
    decreases items.len(),
{
    if k == items.len() {
        assert(items.take(k) =~= items);
    } else {
        assert(items.drop_last().take(k) =~= items.take(k));
        lemma_decode_each_prefix(items.drop_last(), one, k);
    }
}

/// One more item read after the first `k`.
pub proof fn lemma_decode_each_step<T>(
    items: Seq<Json>,
    one: spec_fn(Json) -> Result<T, FormatError>,
    k: int,
)
    requires
        0 <= k < items.len(),
    ensures
        decode_each(items.take(k + 1), one) == match decode_each(items.take(k), one) {
            Ok(before) => match one(items[k]) {
                Ok(item) => Ok(before.push(item)),
                Err(e) => Err(e),
            },
            Err(e) => Err(e),
        },
{
    assert(items.take(k + 1).drop_last() =~= items.take(k));
    assert(items.take(k + 1).last() == items[k]);
}

/// A parameter of an event.
pub open spec fn decode_parameter(json: Json) -> Result<Parameter, FormatError> {
    match json {
        Json::Object(members) => match required_text(members, Field::ParameterID) {
            Ok(name) => match ParamID::named(name) {
                Some(parameter_id) => match required_scalar(members, Field::ParameterValue) {
                    Ok(parameter_value) => Ok(Parameter { parameter_id, parameter_value }),
                    Err(e) => Err(e),
                },
                None => Err(FormatError::UnknownParameter),
            },
            Err(e) => Err(e),
        },
        _ => Err(FormatError::Mismatch(Field::EventParameters)),
    }
}

/// A control point of a curve.
pub open spec fn decode_control_point(json: Json) -> Result<HapticCurve, FormatError> {
    match json {
        Json::Object(members) => match required_scalar(members, Field::Time) {
            Ok(time) => match required_scalar(members, Field::ParameterValue) {
                Ok(parameter_value) => Ok(HapticCurve { time, parameter_value }),
                Err(e) => Err(e),
            },
            Err(e) => Err(e),
        },
        _ => Err(FormatError::Mismatch(Field::ParameterCurveControlPoints)),
    }
}

/// How one parameter is read.
pub open spec fn parameter_reader() -> spec_fn(Json) -> Result<Parameter, FormatError> {
    |json: Json| decode_parameter(json)
}

/// How one control point is read.
pub open spec fn control_point_reader() -> spec_fn(Json) -> Result<HapticCurve, FormatError> {
    |json: Json| decode_control_point(json)
}

/// How one entry is read.
pub open spec fn entry_reader() -> spec_fn(Json) -> Result<EventPatternView, FormatError> {
    |json: Json| decode_entry(json)
}

/// An event.
pub open spec fn decode_event(json: Json) -> Result<EventView, FormatError> {
    match json {
        Json::Object(members) => match required_scalar(members, Field::Time) {
            Ok(time) => match required_text(members, Field::EventType) {
                Ok(event_type) => match required_array(members, Field::EventParameters) {
                    Ok(items) => match decode_each(items, parameter_reader()) {
                        Ok(event_parameters) => match optional_scalar(
                            members,
                            Field::EventDuration,
                        ) {
                            Ok(event_duration) => match optional_text(
                                members,
                                Field::EventWaveformPath,
                            ) {
                                Ok(event_waveform_path) => Ok(
                                    EventView {
                                        time,
                                        event_type,
                                        event_parameters,
                                        event_duration,
                                        event_waveform_path,
                                    },
                                ),
                                Err(e) => Err(e),
                            },
                            Err(e) => Err(e),
                        },
                        Err(e) => Err(e),
                    },
                    Err(e) => Err(e),
                },
                Err(e) => Err(e),
            },
            Err(e) => Err(e),
        },
        _ => Err(FormatError::Mismatch(Field::Event)),
    }
}

/// A parameter curve.
pub open spec fn decode_curve(json: Json) -> Result<ParameterCurveView, FormatError> {
    match json {
        Json::Object(members) => match required_text(members, Field::ParameterID) {
            Ok(name) => match CurveParamID::named(name) {
                Some(parameter_id) => match required_scalar(members, Field::Time) {
                    Ok(time) => match required_array(
                        members,
                        Field::ParameterCurveControlPoints,
                    ) {
                        Ok(items) => match decode_each(items, control_point_reader()) {
                            Ok(control_points) => Ok(
                                ParameterCurveView { parameter_id, time, control_points },
                            ),
                            Err(e) => Err(e),
                        },
                        Err(e) => Err(e),
                    },
                    Err(e) => Err(e),
                },
                None => Err(FormatError::UnknownParameter),
            },
            Err(e) => Err(e),
        },
        _ => Err(FormatError::Mismatch(Field::ParameterCurve)),
    }
}

/// An entry of the pattern: an object that holds an event or a parameter
/// curve, and not both.
pub open spec fn decode_entry(json: Json) -> Result<EventPatternView, FormatError> {
    match json {
        Json::Object(members) => match (
            optional(members, Field::Event),
            optional(members, Field::ParameterCurve),
        ) {
            (Some(event), None) => match decode_event(event) {
                Ok(e) => Ok(EventPatternView::Event(e)),
                Err(e) => Err(e),
            },
            (None, Some(curve)) => match decode_curve(curve) {
                Ok(c) => Ok(EventPatternView::ParameterCurve(c)),
                Err(e) => Err(e),
            },
            (None, None) => Err(FormatError::EmptyEntry),
            (Some(_), Some(_)) => Err(FormatError::AmbiguousEntry),
        },
        _ => Err(FormatError::Mismatch(Field::Pattern)),
    }
}

/// The metadata of a document.
pub open spec fn decode_metadata(json: Json) -> Result<MetadataView, FormatError> {
    match json {
        Json::Object(members) => match required_text(members, Field::Project) {
            Ok(project) => match required_text(members, Field::Created) {
                Ok(created) => match required_text(members, Field::Description) {
                    Ok(description) => match required_text(members, Field::CreatedBy) {
                        Ok(created_by) => Ok(
                            MetadataView { project, created, description, created_by },
                        ),
                        Err(e) => Err(e),
                    },
                    Err(e) => Err(e),
                },
                Err(e) => Err(e),
            },
            Err(e) => Err(e),
        },
        _ => Err(FormatError::Mismatch(Field::Metadata)),
    }
}

/// A document.
pub open spec fn decode_document(json: Json) -> Result<AhapView, FormatError> {
    match json {
        Json::Object(members) => match required_scalar(members, Field::Version) {
            Ok(version) => match required(members, Field::Metadata) {
                Ok(about) => match decode_metadata(about) {
                    Ok(metadata) => match required_array(members, Field::Pattern) {
                        Ok(items) => match decode_each(items, entry_reader()) {
                            Ok(pattern) => Ok(AhapView { version, metadata, pattern }),
                            Err(e) => Err(e),
                        },
                        Err(e) => Err(e),
                    },
                    Err(e) => Err(e),
                },
                Err(e) => Err(e),
            },
            Err(e) => Err(e),
        },
        _ => Err(FormatError::NotADocument),
    }
}

/// The document that a text writes: the text has to be JSON, and the JSON a
/// document.
pub open spec fn read_document(text: Seq<char>) -> Result<AhapView, FormatError> {
    match parsed_text(text) {
        Some(json) => decode_document(json),
        None => Err(FormatError::Syntax),
    }
}

/// Looks up the member `field`, which has to be there.
fn get_required<'a>(
    object: &'a serde_json::Map<String, serde_json::Value>,
    field: Field,
) -> (r: Result<&'a serde_json::Value, FormatError>)
    ensures
        match r {
            Ok(v) => required(members_of(*object), field) == Ok::<Json, FormatError>(json_of(*v)),
            Err(e) => required(members_of(*object), field) == Err::<Json, FormatError>(e),
        },
{
    match object_get(object, field.as_str()) {
        Some(v) => Ok(v),
        None => Err(FormatError::Missing(field)),
    }
}

/// Looks up the member `field`, which may be missing or `null`.
fn get_optional<'a>(
    object: &'a serde_json::Map<String, serde_json::Value>,
    field: Field,
) -> (r: Option<&'a serde_json::Value>)
    ensures
        match r {
            Some(v) => optional(members_of(*object), field) == Some(json_of(*v)),
            None => optional(members_of(*object), field) is None,
        },
{
    match object_get(object, field.as_str()) {
        Some(v) => if is_null(v) {
            None
        } else {
            Some(v)
        },
        None => None,
    }
}

/// Reads a scalar from a JSON number.
fn scalar_from(value: &serde_json::Value, field: Field) -> (r: Result<Scalar, FormatError>)
    ensures
        r == decode_scalar(json_of(*value), field),
{
    match as_number_text(value) {
        Some(text) => match Scalar::from_text(text) {
            Some(s) => Ok(s),
            None => Err(FormatError::Mismatch(field)),
        },
        None => Err(FormatError::Mismatch(field)),
    }
}

/// Reads the characters of a JSON string.
fn text_from(value: &serde_json::Value, field: Field) -> (r: Result<String, FormatError>)
    ensures
        match r {
            Ok(t) => decode_text(json_of(*value), field) == Ok::<Seq<char>, FormatError>(t@),
            Err(e) => decode_text(json_of(*value), field) == Err::<Seq<char>, FormatError>(e),
        },
{
    match as_text(value) {
        Some(text) => Ok(text.to_owned()),
        None => Err(FormatError::Mismatch(field)),
    }
}

/// Reads the scalar in the member `field`.
fn required_scalar_of(
    object: &serde_json::Map<String, serde_json::Value>,
    field: Field,
) -> (r: Result<Scalar, FormatError>)
    ensures
        r == required_scalar(members_of(*object), field),
{
    let value = get_required(object, field)?;
    scalar_from(value, field)
}

/// Reads the string in the member `field`.
fn required_text_of(
    object: &serde_json::Map<String, serde_json::Value>,
    field: Field,
) -> (r: Result<String, FormatError>)
    ensures
        match r {
            Ok(t) => required_text(members_of(*object), field) == Ok::<Seq<char>, FormatError>(t@),
            Err(e) => required_text(members_of(*object), field) == Err::<Seq<char>, FormatError>(
                e,
            ),
        },
{
    let value = get_required(object, field)?;
    text_from(value, field)
}

/// Finds the items of the array in the member `field`.
fn required_array_of<'a>(
    object: &'a serde_json::Map<String, serde_json::Value>,
    field: Field,
) -> (r: Result<&'a Vec<serde_json::Value>, FormatError>)
    ensures
        match r {
            Ok(items) => required_array(members_of(*object), field) == Ok::<
                Seq<Json>,
                FormatError,
            >(jsons_of(items@)),
            Err(e) => required_array(members_of(*object), field) == Err::<Seq<Json>, FormatError>(
                e,
            ),
        },
{
    let value = get_required(object, field)?;
    match as_array(value) {
        Some(items) => Ok(items),
        None => Err(FormatError::Mismatch(field)),
    }
}

/// Reads the scalar in the member `field`, if the member is there.
fn optional_scalar_of(
    object: &serde_json::Map<String, serde_json::Value>,
    field: Field,
) -> (r: Result<Option<Scalar>, FormatError>)
    ensures
        r == optional_scalar(members_of(*object), field),
{
    match get_optional(object, field) {
        Some(value) => match scalar_from(value, field) {
            Ok(s) => Ok(Some(s)),
            Err(e) => Err(e),
        },
        None => Ok(None),
    }
}

/// Reads the string in the member `field`, if the member is there.
fn optional_text_of(
    object: &serde_json::Map<String, serde_json::Value>,
    field: Field,
) -> (r: Result<Option<String>, FormatError>)
    ensures
        match r {
            Ok(t) => optional_text(members_of(*object), field) == Ok::<
                Option<Seq<char>>,
                FormatError,
            >(text_view(t)),
            Err(e) => optional_text(members_of(*object), field) == Err::<
                Option<Seq<char>>,
                FormatError,
            >(e),
        },
{
    match get_optional(object, field) {
        Some(value) => match text_from(value, field) {
            Ok(t) => Ok(Some(t)),
            Err(e) => Err(e),
        },
        None => Ok(None),
    }
}

/// Reads a parameter of an event.
fn parameter_from(value: &serde_json::Value) -> (r: Result<Parameter, FormatError>)
    ensures
        r == decode_parameter(json_of(*value)),
{
    match as_object(value) {
        Some(object) => {
            let name = required_text_of(object, Field::ParameterID)?;
            match ParamID::from_name(name.as_str()) {
                Some(parameter_id) => {
                    let parameter_value = required_scalar_of(object, Field::ParameterValue)?;
                    Ok(Parameter { parameter_id, parameter_value })
                },
                None => Err(FormatError::UnknownParameter),
            }
        },
        None => Err(FormatError::Mismatch(Field::EventParameters)),
    }
}

/// Reads a control point of a curve.
fn control_point_from(value: &serde_json::Value) -> (r: Result<HapticCurve, FormatError>)
    ensures
        r == decode_control_point(json_of(*value)),
{
    match as_object(value) {
        Some(object) => {
            let time = required_scalar_of(object, Field::Time)?;
            let parameter_value = required_scalar_of(object, Field::ParameterValue)?;
            Ok(HapticCurve { time, parameter_value })
        },
        None => Err(FormatError::Mismatch(Field::ParameterCurveControlPoints)),
    }
}

/// Reads the parameters of an event, first to last.
fn parameters_from(items: &Vec<serde_json::Value>) -> (r: Result<Vec<Parameter>, FormatError>)
    ensures
        match r {
            Ok(ps) => decode_each(jsons_of(items@), parameter_reader()) == Ok::<
                Seq<Parameter>,
                FormatError,
            >(ps@),
            Err(e) => decode_each(jsons_of(items@), parameter_reader()) == Err::<
                Seq<Parameter>,
                FormatError,
            >(e),
        },
{
    let ghost all = jsons_of(items@);
    let mut out: Vec<Parameter> = Vec::new();
    let mut i: usize = 0;
    assert(all.take(0) =~= Seq::<Json>::empty());
    while i < items.len()
        invariant
            i <= items.len(),
            all == jsons_of(items@),
            decode_each(all.take(i as int), parameter_reader()) == Ok::<
                Seq<Parameter>,
                FormatError,
            >(out@),
        decreases items.len() - i,
    {
        proof {
            lemma_decode_each_step(all, parameter_reader(), i as int);
        }
        match parameter_from(&items[i]) {
            Ok(p) => {
                out.push(p);
            },
            Err(e) => {
                proof {
                    lemma_decode_each_prefix(all, parameter_reader(), i + 1);
                }
                return Err(e);
            },
        }
        i = i + 1;
    }
    assert(all.take(i as int) =~= all);
    Ok(out)
}

/// Reads the control points of a curve, first to last.
fn control_points_from(items: &Vec<serde_json::Value>) -> (r: Result<
    Vec<HapticCurve>,
    FormatError,
>)
    ensures
        match r {
            Ok(cs) => decode_each(jsons_of(items@), control_point_reader()) == Ok::<
                Seq<HapticCurve>,
                FormatError,
            >(cs@),
            Err(e) => decode_each(jsons_of(items@), control_point_reader()) == Err::<
                Seq<HapticCurve>,
                FormatError,
            >(e),
        },
{
    let ghost all = jsons_of(items@);
    let mut out: Vec<HapticCurve> = Vec::new();
    let mut i: usize = 0;
    assert(all.take(0) =~= Seq::<Json>::empty());
    while i < items.len()
        invariant
            i <= items.len(),
            all == jsons_of(items@),
            decode_each(all.take(i as int), control_point_reader()) == Ok::<
                Seq<HapticCurve>,
                FormatError,
            >(out@),
        decreases items.len() - i,
    {
        proof {
            lemma_decode_each_step(all, control_point_reader(), i as int);
        }
        match control_point_from(&items[i]) {
            Ok(c) => {
                out.push(c);
            },
            Err(e) => {
                proof {
                    lemma_decode_each_prefix(all, control_point_reader(), i + 1);
                }
                return Err(e);
            },
        }
        i = i + 1;
    }
    assert(all.take(i as int) =~= all);
    Ok(out)
}

/// Reads an event.
fn event_from(value: &serde_json::Value) -> (r: Result<Event, FormatError>)
    ensures
        match r {
            Ok(event) => decode_event(json_of(*value)) == Ok::<EventView, FormatError>(event@),
            Err(e) => decode_event(json_of(*value)) == Err::<EventView, FormatError>(e),
        },
{
    match as_object(value) {
        Some(object) => {
            let time = required_scalar_of(object, Field::Time)?;
            let event_type = required_text_of(object, Field::EventType)?;
            let items = required_array_of(object, Field::EventParameters)?;
            let event_parameters = parameters_from(items)?;
            let event_duration = optional_scalar_of(object, Field::EventDuration)?;
            let event_waveform_path = optional_text_of(object, Field::EventWaveformPath)?;
            Ok(Event { time, event_type, event_parameters, event_duration, event_waveform_path })
        },
        None => Err(FormatError::Mismatch(Field::Event)),
    }
}

/// Reads a parameter curve.
fn curve_from(value: &serde_json::Value) -> (r: Result<ParameterCurve, FormatError>)
    ensures
        match r {
            Ok(curve) => decode_curve(json_of(*value)) == Ok::<ParameterCurveView, FormatError>(
                curve@,
            ),
            Err(e) => decode_curve(json_of(*value)) == Err::<ParameterCurveView, FormatError>(e),
        },
{
    match as_object(value) {
        Some(object) => {
            let name = required_text_of(object, Field::ParameterID)?;
            match CurveParamID::from_name(name.as_str()) {
                Some(parameter_id) => {
                    let time = required_scalar_of(object, Field::Time)?;
                    let items = required_array_of(object, Field::ParameterCurveControlPoints)?;
                    let parameter_curve_control_points = control_points_from(items)?;
                    Ok(ParameterCurve { parameter_id, time, parameter_curve_control_points })
                },
                None => Err(FormatError::UnknownParameter),
            }
        },
        None => Err(FormatError::Mismatch(Field::ParameterCurve)),
    }
}

/// Reads an entry of the pattern.
fn entry_from(value: &serde_json::Value) -> (r: Result<EventPattern, FormatError>)
    ensures
        match r {
            Ok(entry) => decode_entry(json_of(*value)) == Ok::<EventPatternView, FormatError>(
                entry@,
            ),
            Err(e) => decode_entry(json_of(*value)) == Err::<EventPatternView, FormatError>(e),
        },
{
    match as_object(value) {
        Some(object) => {
            let event = get_optional(object, Field::Event);
            let curve = get_optional(object, Field::ParameterCurve);
            match (event, curve) {
                (Some(e), None) => Ok(EventPattern::Event(event_from(e)?)),
                (None, Some(c)) => Ok(EventPattern::ParameterCurve(curve_from(c)?)),
                (None, None) => Err(FormatError::EmptyEntry),
                (Some(_), Some(_)) => Err(FormatError::AmbiguousEntry),
            }
        },
        None => Err(FormatError::Mismatch(Field::Pattern)),
    }
}

/// Reads the entries of the pattern, first to last.
fn entries_from(items: &Vec<serde_json::Value>) -> (r: Result<Vec<EventPattern>, FormatError>)
    ensures
        match r {
            Ok(es) => decode_each(jsons_of(items@), entry_reader()) == Ok::<
                Seq<EventPatternView>,
                FormatError,
            >(entries_view(es@)),
            Err(e) => decode_each(jsons_of(items@), entry_reader()) == Err::<
                Seq<EventPatternView>,
                FormatError,
            >(e),
        },
{
    let ghost all = jsons_of(items@);
    let mut out: Vec<EventPattern> = Vec::new();
    let mut i: usize = 0;
    assert(all.take(0) =~= Seq::<Json>::empty());
    assert(entries_view(out@) =~= Seq::<EventPatternView>::empty());
    while i < items.len()
        invariant
            i <= items.len(),
            all == jsons_of(items@),
            decode_each(all.take(i as int), entry_reader()) == Ok::<
                Seq<EventPatternView>,
                FormatError,
            >(entries_view(out@)),
        decreases items.len() - i,
    {
        proof {
            lemma_decode_each_step(all, entry_reader(), i as int);
        }
        match entry_from(&items[i]) {
            Ok(entry) => {
                let ghost before = out@;
                out.push(entry);
                assert(entries_view(out@) =~= entries_view(before).push(entry@));
            },
            Err(e) => {
                proof {
                    lemma_decode_each_prefix(all, entry_reader(), i + 1);
                }
                return Err(e);
            },
        }
        i = i + 1;
    }
    assert(all.take(i as int) =~= all);
    Ok(out)
}

/// Reads the metadata of a document.
fn metadata_from(value: &serde_json::Value) -> (r: Result<Metadata, FormatError>)
    ensures
        match r {
            Ok(m) => decode_metadata(json_of(*value)) == Ok::<MetadataView, FormatError>(m@),
            Err(e) => decode_metadata(json_of(*value)) == Err::<MetadataView, FormatError>(e),
        },
{
    match as_object(value) {
        Some(object) => {
            let project = required_text_of(object, Field::Project)?;
            let created = required_text_of(object, Field::Created)?;
            let description = required_text_of(object, Field::Description)?;
            let created_by = required_text_of(object, Field::CreatedBy)?;
            Ok(Metadata { project, created, description, created_by })
        },
        None => Err(FormatError::Mismatch(Field::Metadata)),
    }
}

impl AHAP {
    /// Reads a document from a JSON value.
    pub fn from_json(value: &serde_json::Value) -> (r: Result<AHAP, FormatError>)
        ensures
            match r {
                Ok(doc) => decode_document(json_of(*value)) == Ok::<AhapView, FormatError>(doc@),
                Err(e) => decode_document(json_of(*value)) == Err::<AhapView, FormatError>(e),
            },
    {
        match as_object(value) {
            Some(object) => {
                let version = required_scalar_of(object, Field::Version)?;
                let about = get_required(object, Field::Metadata)?;
                let metadata = metadata_from(about)?;
                let items = required_array_of(object, Field::Pattern)?;
                let pattern = entries_from(items)?;
                Ok(AHAP::from_parts(version, metadata, pattern))
            },
            None => Err(FormatError::NotADocument),
        }
    }

    /// Reads a document from JSON text.
    pub fn import(text: &str) -> (r: Result<AHAP, FormatError>)
        ensures
            match r {
                Ok(doc) => read_document(text@) == Ok::<AhapView, FormatError>(doc@),
                Err(e) => read_document(text@) == Err::<AhapView, FormatError>(e),
            },
    {
        match read_text(text) {
            Ok(value) => AHAP::from_json(&value),
            Err(_) => Err(FormatError::Syntax),
        }
    }
}

} // verus!
