use ahap::{
    CurveParamID, Event, EventPattern, Field, FormatError, HapticCurve, ParamID, Parameter,
    ParameterCurve, Scalar, AHAP,
};

fn s(micros: i64) -> Scalar {
    Scalar::from_micros(micros)
}

fn fresh() -> AHAP {
    AHAP::with_created("a \"test\"", "somebody", "2024-05-06T07:08:09+00:00".to_string())
}

fn sample() -> AHAP {
    let mut doc = fresh();
    doc.add_haptic_continuous_event(s(0), s(400_000), s(500_000), s(400_000));
    doc.add_parameter_curve(
        CurveParamID::HapticSharpnessControl,
        s(0),
        AHAP::create_curve(s(0), s(400_000), s(400_000), s(750_000), 10),
    );
    doc.add_haptic_transient_event(s(450_000), s(1_000_000), s(300_000));
    doc.add_audio_custom_event(s(500_000), "sounds/engine start.wav", s(750_000));
    doc.add_event(
        "HapticContinuous",
        s(-1_500_000),
        vec![Parameter { parameter_id: ParamID::HapticDecayTime, parameter_value: s(1) }],
        Some(s(i64::MAX)),
        Some("ü.wav".to_string()),
    );
    doc.add_event("Later", s(i64::MIN), Vec::new(), None, None);
    doc.add_parameter_curve(CurveParamID::AudioPanControl, s(123_456_789), Vec::new());
    doc
}

const HEAD: &str = "{\"Version\":1.0,\"Metadata\":{\"Project\":\"Basis\",\"Created\":\"2024-05-06T07:08:09+00:00\",\"Description\":\"a \\\"test\\\"\",\"Created By\":\"somebody\"},\"Pattern\":[";

fn document_text(entries: &str) -> String {
    format!("{}{}]}}", HEAD, entries)
}

#[test]
fn empty_document_as_compact_text() {
    assert_eq!(fresh().export().unwrap(), document_text(""));
}

#[test]
fn empty_document_as_indented_text() {
    let expected = "{\n  \"Version\": 1.0,\n  \"Metadata\": {\n    \"Project\": \"Basis\",\n    \"Created\": \"2024-05-06T07:08:09+00:00\",\n    \"Description\": \"a \\\"test\\\"\",\n    \"Created By\": \"somebody\"\n  },\n  \"Pattern\": []\n}";
    assert_eq!(fresh().export_pretty().unwrap(), expected);
}

#[test]
fn transient_as_compact_text() {
    let mut doc = fresh();
    doc.add_haptic_transient_event(s(450_000), s(1_000_000), s(300_000));
    let entry = "{\"Event\":{\"Time\":0.45,\"EventType\":\"HapticTransient\",\"EventParameters\":[{\"ParameterID\":\"HapticIntensity\",\"ParameterValue\":1.0},{\"ParameterID\":\"HapticSharpness\",\"ParameterValue\":0.3}]}}";
    assert_eq!(doc.export().unwrap(), document_text(entry));
}

#[test]
fn continuous_event_as_compact_text() {
    let mut doc = fresh();
    doc.add_haptic_continuous_event(s(0), s(15_000_000), s(750_000), s(0));
    let entry = "{\"Event\":{\"Time\":0.0,\"EventType\":\"HapticContinuous\",\"EventParameters\":[{\"ParameterID\":\"HapticIntensity\",\"ParameterValue\":0.75},{\"ParameterID\":\"HapticSharpness\",\"ParameterValue\":0.0}],\"EventDuration\":15.0}}";
    assert_eq!(doc.export().unwrap(), document_text(entry));
}

#[test]
fn audio_event_as_compact_text() {
    let mut doc = fresh();
    doc.add_audio_custom_event(s(2_500_000), "engine.wav", s(1_000_000));
    let entry = "{\"Event\":{\"Time\":2.5,\"EventType\":\"AudioCustom\",\"EventParameters\":[{\"ParameterID\":\"AudioVolume\",\"ParameterValue\":1.0}],\"EventWaveformPath\":\"engine.wav\"}}";
    assert_eq!(doc.export().unwrap(), document_text(entry));
}

#[test]
fn event_with_duration_and_path_as_compact_text() {
    let mut doc = fresh();
    doc.add_event("Both", s(-1), Vec::new(), Some(s(2)), Some("p".to_string()));
    let entry = "{\"Event\":{\"Time\":-0.000001,\"EventType\":\"Both\",\"EventParameters\":[],\"EventDuration\":0.000002,\"EventWaveformPath\":\"p\"}}";
    assert_eq!(doc.export().unwrap(), document_text(entry));
}

#[test]
fn curve_as_compact_text() {
    let mut doc = fresh();
    doc.add_parameter_curve(
        CurveParamID::HapticSharpnessControl,
        s(850_000),
        AHAP::create_curve(s(0), s(400_000), s(0), s(750_000), 2),
    );
    let entry = "{\"ParameterCurve\":{\"ParameterID\":\"HapticSharpnessControl\",\"Time\":0.85,\"ParameterCurveControlPoints\":[{\"Time\":0.2,\"ParameterValue\":0.375},{\"Time\":0.4,\"ParameterValue\":0.75}]}}";
    assert_eq!(doc.export().unwrap(), document_text(entry));
}

#[test]
fn two_entries_as_indented_text() {
    let mut doc = fresh();
    doc.add_parameter_curve(
        CurveParamID::AudioVolumeControl,
        s(0),
        vec![HapticCurve { time: s(100_000), parameter_value: s(1_000_000) }],
    );
    doc.add_event("HapticTransient", s(1_000_000), Vec::new(), None, None);
    let expected = "{\n  \"Version\": 1.0,\n  \"Metadata\": {\n    \"Project\": \"Basis\",\n    \"Created\": \"2024-05-06T07:08:09+00:00\",\n    \"Description\": \"a \\\"test\\\"\",\n    \"Created By\": \"somebody\"\n  },\n  \"Pattern\": [\n    {\n      \"ParameterCurve\": {\n        \"ParameterID\": \"AudioVolumeControl\",\n        \"Time\": 0.0,\n        \"ParameterCurveControlPoints\": [\n          {\n            \"Time\": 0.1,\n            \"ParameterValue\": 1.0\n          }\n        ]\n      }\n    },\n    {\n      \"Event\": {\n        \"Time\": 1.0,\n        \"EventType\": \"HapticTransient\",\n        \"EventParameters\": []\n      }\n    }\n  ]\n}";
    assert_eq!(doc.export_pretty().unwrap(), expected);
}

#[test]
fn compact_text_is_read_back() {
    let doc = sample();
    let text = doc.export().unwrap();
    assert_eq!(AHAP::import(&text), Ok(doc));
}

#[test]
fn indented_text_is_read_back() {
    let doc = sample();
    let text = doc.export_pretty().unwrap();
    assert_eq!(AHAP::import(&text), Ok(doc));
}

#[test]
fn both_texts_are_read_as_the_same_document() {
    let doc = sample();
    let compact = doc.export().unwrap();
    let pretty = doc.export_pretty().unwrap();
    assert_ne!(compact, pretty);
    assert_eq!(AHAP::import(&compact), AHAP::import(&pretty));
}

#[test]
fn json_value_is_read_back() {
    let doc = sample();
    assert_eq!(AHAP::from_json(&doc.to_json()), Ok(doc));
}

#[test]
fn document_read_back_takes_further_entries() {
    let mut doc = AHAP::import(&sample().export().unwrap()).unwrap();
    let before = doc.pattern().len();
    doc.add_haptic_transient_event(s(9_000_000), s(1), s(2));
    assert_eq!(doc.pattern().len(), before + 1);
    let mut expected = sample();
    expected.add_haptic_transient_event(s(9_000_000), s(1), s(2));
    assert_eq!(doc, expected);
}

#[test]
fn every_written_entry_has_exactly_one_of_the_two_keys() {
    let value = sample().to_json();
    let entries = value["Pattern"].as_array().unwrap();
    assert_eq!(entries.len(), 7);
    let mut events = 0;
    let mut curves = 0;
    for entry in entries {
        let object = entry.as_object().unwrap();
        assert_eq!(object.len(), 1);
        let has_event = object.contains_key("Event");
        let has_curve = object.contains_key("ParameterCurve");
        assert!(has_event != has_curve);
        if has_event {
            events += 1;
        } else {
            curves += 1;
        }
    }
    assert_eq!(events, 5);
    assert_eq!(curves, 2);
}

#[test]
fn absent_duration_and_path_are_left_out() {
    let mut doc = fresh();
    doc.add_haptic_transient_event(s(0), s(1), s(2));
    let compact = doc.export().unwrap();
    let pretty = doc.export_pretty().unwrap();
    for text in [compact, pretty] {
        assert!(!text.contains("EventDuration"));
        assert!(!text.contains("EventWaveformPath"));
        assert!(!text.contains("null"));
    }
    let value = doc.to_json();
    let event = value["Pattern"][0]["Event"].as_object().unwrap();
    let keys: Vec<&str> = event.keys().map(|k| k.as_str()).collect();
    assert_eq!(keys, vec!["Time", "EventType", "EventParameters"]);
}

#[test]
fn present_duration_and_path_are_written() {
    let mut doc = fresh();
    doc.add_haptic_continuous_event(s(0), s(1), s(2), s(3));
    doc.add_audio_custom_event(s(0), "a.wav", s(1));
    let value = doc.to_json();
    let first = value["Pattern"][0]["Event"].as_object().unwrap();
    assert!(first.contains_key("EventDuration"));
    assert!(!first.contains_key("EventWaveformPath"));
    let second = value["Pattern"][1]["Event"].as_object().unwrap();
    assert!(!second.contains_key("EventDuration"));
    assert!(second.contains_key("EventWaveformPath"));
}

#[test]
fn members_are_written_in_the_order_of_the_format() {
    let value = sample().to_json();
    let keys = |v: &serde_json::Value| -> Vec<String> {
        v.as_object().unwrap().keys().cloned().collect()
    };
    assert_eq!(keys(&value), vec!["Version", "Metadata", "Pattern"]);
    assert_eq!(keys(&value["Metadata"]), vec!["Project", "Created", "Description", "Created By"]);
    assert_eq!(
        keys(&value["Pattern"][4]["Event"]),
        vec!["Time", "EventType", "EventParameters", "EventDuration", "EventWaveformPath"]
    );
    assert_eq!(
        keys(&value["Pattern"][1]["ParameterCurve"]),
        vec!["ParameterID", "Time", "ParameterCurveControlPoints"]
    );
    assert_eq!(
        keys(&value["Pattern"][1]["ParameterCurve"]["ParameterCurveControlPoints"][0]),
        vec!["Time", "ParameterValue"]
    );
    assert_eq!(
        keys(&value["Pattern"][0]["Event"]["EventParameters"][0]),
        vec!["ParameterID", "ParameterValue"]
    );
}

#[test]
fn document_is_read_from_text_in_any_member_order() {
    let text = r#"
        { "Pattern": [
            { "Event": { "EventParameters": [ { "ParameterValue": 0.5, "ParameterID": "AudioPan" } ],
                         "EventType": "AudioCustom", "Time": 2,
                         "EventWaveformPath": "w.wav" } },
            { "ParameterCurve": { "ParameterCurveControlPoints": [ { "ParameterValue": 1, "Time": 0.25 } ],
                                  "Time": 0.125, "ParameterID": "AudioPitchControl" } } ],
          "Metadata": { "Created By": "c", "Description": "d", "Created": "t", "Project": "p" },
          "Version": 2.5 }"#;
    let doc = AHAP::import(text).unwrap();
    assert_eq!(doc.version(), s(2_500_000));
    assert_eq!(doc.metadata().project, "p");
    assert_eq!(doc.metadata().created, "t");
    assert_eq!(doc.metadata().description, "d");
    assert_eq!(doc.metadata().created_by, "c");
    assert_eq!(
        *doc.pattern(),
        vec![
            EventPattern::Event(Event {
                time: s(2_000_000),
                event_type: "AudioCustom".to_string(),
                event_parameters: vec![Parameter {
                    parameter_id: ParamID::AudioPan,
                    parameter_value: s(500_000)
                }],
                event_duration: None,
                event_waveform_path: Some("w.wav".to_string()),
            }),
            EventPattern::ParameterCurve(ParameterCurve {
                parameter_id: CurveParamID::AudioPitchControl,
                time: s(125_000),
                parameter_curve_control_points: vec![HapticCurve {
                    time: s(250_000),
                    parameter_value: s(1_000_000)
                }],
            }),
        ]
    );
}

fn with_entry(entry: &str) -> String {
    format!(
        r#"{{"Version":1.0,"Metadata":{{"Project":"p","Created":"t","Description":"d","Created By":"c"}},"Pattern":[{}]}}"#,
        entry
    )
}

fn first_entry(entry: &str) -> Result<EventPattern, FormatError> {
    AHAP::import(&with_entry(entry)).map(|doc| doc.pattern()[0].clone())
}

fn plain_event() -> EventPattern {
    EventPattern::Event(Event {
        time: s(1_000_000),
        event_type: "T".to_string(),
        event_parameters: Vec::new(),
        event_duration: None,
        event_waveform_path: None,
    })
}

#[test]
fn unknown_members_are_passed_over() {
    let entry = r#"{"Event":{"Time":1.0,"EventType":"T","EventParameters":[],"Extra":[1,2]},"Note":"n"}"#;
    assert_eq!(first_entry(entry), Ok(plain_event()));
}

#[test]
fn optional_member_that_is_null_counts_as_absent() {
    let entry = r#"{"Event":{"Time":1.0,"EventType":"T","EventParameters":[],"EventDuration":null,"EventWaveformPath":null},"ParameterCurve":null}"#;
    assert_eq!(first_entry(entry), Ok(plain_event()));
}

#[test]
fn number_with_many_digits_is_rounded_to_six() {
    let entry = r#"{"Event":{"Time":0.50000006,"EventType":"T","EventParameters":[],"EventDuration":0.30000001192092896}}"#;
    assert_eq!(
        first_entry(entry),
        Ok(EventPattern::Event(Event {
            time: s(500_000),
            event_type: "T".to_string(),
            event_parameters: Vec::new(),
            event_duration: Some(s(300_000)),
            event_waveform_path: None,
        }))
    );
}

#[test]
fn text_that_is_not_json_is_a_syntax_error() {
    for text in ["", "{", "{\"Version\":1.0,}", "Version: 1.0", "{\"Version\":01}", "[1,2", "nul"] {
        assert_eq!(AHAP::import(text), Err(FormatError::Syntax), "{:?}", text);
    }
}

#[test]
fn json_that_is_no_object_is_no_document() {
    for text in ["[]", "1.0", "\"Version\"", "null", "true"] {
        assert_eq!(AHAP::import(text), Err(FormatError::NotADocument), "{:?}", text);
    }
}

#[test]
fn missing_member_of_the_document_is_named() {
    assert_eq!(AHAP::import("{}"), Err(FormatError::Missing(Field::Version)));
    assert_eq!(AHAP::import(r#"{"Version":1.0}"#), Err(FormatError::Missing(Field::Metadata)));
    assert_eq!(
        AHAP::import(
            r#"{"Version":1.0,"Metadata":{"Project":"p","Created":"t","Description":"d","Created By":"c"}}"#
        ),
        Err(FormatError::Missing(Field::Pattern))
    );
}

#[test]
fn missing_member_of_the_metadata_is_named() {
    let import = |metadata: &str| {
        AHAP::import(&format!(r#"{{"Version":1.0,"Metadata":{},"Pattern":[]}}"#, metadata))
    };
    assert_eq!(import("{}"), Err(FormatError::Missing(Field::Project)));
    assert_eq!(import(r#"{"Project":"p"}"#), Err(FormatError::Missing(Field::Created)));
    assert_eq!(
        import(r#"{"Project":"p","Created":"t"}"#),
        Err(FormatError::Missing(Field::Description))
    );
    assert_eq!(
        import(r#"{"Project":"p","Created":"t","Description":"d"}"#),
        Err(FormatError::Missing(Field::CreatedBy))
    );
    assert_eq!(
        import(r#"{"Project":"p","Created":"t","Description":"d","CreatedBy":"c"}"#),
        Err(FormatError::Missing(Field::CreatedBy))
    );
    assert_eq!(import("[]"), Err(FormatError::Mismatch(Field::Metadata)));
    assert_eq!(
        import(r#"{"Project":"p","Created":5,"Description":"d","Created By":"c"}"#),
        Err(FormatError::Mismatch(Field::Created))
    );
}

#[test]
fn member_of_the_wrong_kind_is_named() {
    assert_eq!(
        AHAP::import(r#"{"Version":"1.0"}"#),
        Err(FormatError::Mismatch(Field::Version))
    );
    assert_eq!(AHAP::import(r#"{"Version":null}"#), Err(FormatError::Mismatch(Field::Version)));
    assert_eq!(AHAP::import(r#"{"Version":1e30}"#), Err(FormatError::Mismatch(Field::Version)));
    assert_eq!(AHAP::import(r#"{"Version":true}"#), Err(FormatError::Mismatch(Field::Version)));
    assert_eq!(
        AHAP::import(r#"{"Version":1.0,"Metadata":"m"}"#),
        Err(FormatError::Mismatch(Field::Metadata))
    );
    assert_eq!(
        AHAP::import(
            r#"{"Version":1.0,"Metadata":{"Project":"p","Created":"t","Description":"d","Created By":"c"},"Pattern":{}}"#
        ),
        Err(FormatError::Mismatch(Field::Pattern))
    );
    assert_eq!(first_entry("7"), Err(FormatError::Mismatch(Field::Pattern)));
}

#[test]
fn entry_with_neither_or_both_is_refused() {
    assert_eq!(first_entry("{}"), Err(FormatError::EmptyEntry));
    assert_eq!(first_entry(r#"{"Other":{}}"#), Err(FormatError::EmptyEntry));
    assert_eq!(
        first_entry(r#"{"Event":null,"ParameterCurve":null}"#),
        Err(FormatError::EmptyEntry)
    );
    assert_eq!(
        first_entry(
            r#"{"Event":{"Time":1.0,"EventType":"T","EventParameters":[]},"ParameterCurve":{"ParameterID":"AudioPanControl","Time":0.0,"ParameterCurveControlPoints":[]}}"#
        ),
        Err(FormatError::AmbiguousEntry)
    );
}

#[test]
fn broken_event_is_refused() {
    assert_eq!(first_entry(r#"{"Event":[]}"#), Err(FormatError::Mismatch(Field::Event)));
    assert_eq!(first_entry(r#"{"Event":{}}"#), Err(FormatError::Missing(Field::Time)));
    assert_eq!(
        first_entry(r#"{"Event":{"Time":"now"}}"#),
        Err(FormatError::Mismatch(Field::Time))
    );
    assert_eq!(
        first_entry(r#"{"Event":{"Time":1.0}}"#),
        Err(FormatError::Missing(Field::EventType))
    );
    assert_eq!(
        first_entry(r#"{"Event":{"Time":1.0,"EventType":3}}"#),
        Err(FormatError::Mismatch(Field::EventType))
    );
    assert_eq!(
        first_entry(r#"{"Event":{"Time":1.0,"EventType":"T"}}"#),
        Err(FormatError::Missing(Field::EventParameters))
    );
    assert_eq!(
        first_entry(r#"{"Event":{"Time":1.0,"EventType":"T","EventParameters":{}}}"#),
        Err(FormatError::Mismatch(Field::EventParameters))
    );
    assert_eq!(
        first_entry(r#"{"Event":{"Time":1.0,"EventType":"T","EventParameters":[1]}}"#),
        Err(FormatError::Mismatch(Field::EventParameters))
    );
    assert_eq!(
        first_entry(
            r#"{"Event":{"Time":1.0,"EventType":"T","EventParameters":[],"EventDuration":"long"}}"#
        ),
        Err(FormatError::Mismatch(Field::EventDuration))
    );
    assert_eq!(
        first_entry(
            r#"{"Event":{"Time":1.0,"EventType":"T","EventParameters":[],"EventWaveformPath":1.5}}"#
        ),
        Err(FormatError::Mismatch(Field::EventWaveformPath))
    );
    assert_eq!(
        first_entry(r#"{"Event":{"Time":99999999999999.0,"EventType":"T","EventParameters":[]}}"#),
        Err(FormatError::Mismatch(Field::Time))
    );
}

#[test]
fn broken_parameter_is_refused() {
    let event = |parameter: &str| {
        first_entry(&format!(
            r#"{{"Event":{{"Time":1.0,"EventType":"T","EventParameters":[{{"ParameterID":"AudioPan","ParameterValue":0.5}},{}]}}}}"#,
            parameter
        ))
    };
    assert_eq!(event("{}"), Err(FormatError::Missing(Field::ParameterID)));
    assert_eq!(event(r#"{"ParameterID":7}"#), Err(FormatError::Mismatch(Field::ParameterID)));
    assert_eq!(event(r#"{"ParameterID":"Loudness"}"#), Err(FormatError::UnknownParameter));
    assert_eq!(
        event(r#"{"ParameterID":"AudioPanControl","ParameterValue":1.0}"#),
        Err(FormatError::UnknownParameter)
    );
    assert_eq!(
        event(r#"{"ParameterID":"AudioPan"}"#),
        Err(FormatError::Missing(Field::ParameterValue))
    );
    assert_eq!(
        event(r#"{"ParameterID":"AudioPan","ParameterValue":"loud"}"#),
        Err(FormatError::Mismatch(Field::ParameterValue))
    );
    assert!(event(r#"{"ParameterID":"AudioPitch","ParameterValue":-1}"#).is_ok());
}

#[test]
fn broken_curve_is_refused() {
    assert_eq!(
        first_entry(r#"{"ParameterCurve":"c"}"#),
        Err(FormatError::Mismatch(Field::ParameterCurve))
    );
    assert_eq!(
        first_entry(r#"{"ParameterCurve":{}}"#),
        Err(FormatError::Missing(Field::ParameterID))
    );
    assert_eq!(
        first_entry(r#"{"ParameterCurve":{"ParameterID":"AudioPan"}}"#),
        Err(FormatError::UnknownParameter)
    );
    assert_eq!(
        first_entry(r#"{"ParameterCurve":{"ParameterID":"AudioPanControl"}}"#),
        Err(FormatError::Missing(Field::Time))
    );
    assert_eq!(
        first_entry(r#"{"ParameterCurve":{"ParameterID":"AudioPanControl","Time":0.0}}"#),
        Err(FormatError::Missing(Field::ParameterCurveControlPoints))
    );
    assert_eq!(
        first_entry(
            r#"{"ParameterCurve":{"ParameterID":"AudioPanControl","Time":0.0,"ParameterCurveControlPoints":7}}"#
        ),
        Err(FormatError::Mismatch(Field::ParameterCurveControlPoints))
    );
    assert_eq!(
        first_entry(
            r#"{"ParameterCurve":{"ParameterID":"AudioPanControl","Time":0.0,"ParameterCurveControlPoints":[[]]}}"#
        ),
        Err(FormatError::Mismatch(Field::ParameterCurveControlPoints))
    );
    assert_eq!(
        first_entry(
            r#"{"ParameterCurve":{"ParameterID":"AudioPanControl","Time":0.0,"ParameterCurveControlPoints":[{"Time":0.1,"ParameterValue":0.2},{"Time":0.3}]}}"#
        ),
        Err(FormatError::Missing(Field::ParameterValue))
    );
    assert_eq!(
        first_entry(
            r#"{"ParameterCurve":{"ParameterID":"AudioPanControl","Time":0.0,"ParameterCurveControlPoints":[{"ParameterValue":0.2}]}}"#
        ),
        Err(FormatError::Missing(Field::Time))
    );
}

#[test]
fn first_broken_entry_is_the_error() {
    let text = r#"{"Version":1.0,"Metadata":{"Project":"p","Created":"t","Description":"d","Created By":"c"},"Pattern":[{"Event":{"Time":1.0,"EventType":"T","EventParameters":[]}},{},{"Event":7}]}"#;
    assert_eq!(AHAP::import(text), Err(FormatError::EmptyEntry));
}

#[test]
fn json_value_built_by_hand_is_read() {
    let mut metadata = serde_json::Map::new();
    for (key, text) in [("Project", "p"), ("Created", "t"), ("Description", "d"), ("Created By", "c")]
    {
        metadata.insert(key.to_string(), serde_json::Value::String(text.to_string()));
    }
    let mut curve = serde_json::Map::new();
    curve.insert("ParameterID".to_string(), serde_json::Value::from("AudioBrightnessControl"));
    curve.insert("Time".to_string(), serde_json::Value::from(3));
    curve.insert("ParameterCurveControlPoints".to_string(), serde_json::Value::Array(Vec::new()));
    let mut entry = serde_json::Map::new();
    entry.insert("ParameterCurve".to_string(), serde_json::Value::Object(curve));
    let mut document = serde_json::Map::new();
    document.insert("Version".to_string(), serde_json::Value::from(1));
    document.insert("Metadata".to_string(), serde_json::Value::Object(metadata));
    document.insert(
        "Pattern".to_string(),
        serde_json::Value::Array(vec![serde_json::Value::Object(entry)]),
    );
    let doc = AHAP::from_json(&serde_json::Value::Object(document)).unwrap();
    assert_eq!(doc.version(), s(1_000_000));
    assert_eq!(doc.metadata().created_by, "c");
    assert_eq!(
        *doc.pattern(),
        vec![EventPattern::ParameterCurve(ParameterCurve {
            parameter_id: CurveParamID::AudioBrightnessControl,
            time: s(3_000_000),
            parameter_curve_control_points: Vec::new(),
        })]
    );
    assert_eq!(AHAP::from_json(&serde_json::Value::Null), Err(FormatError::NotADocument));
}

#[test]
fn number_with_an_exponent_is_read_from_a_document() {
    let entry = r#"{"Event":{"Time":1.5e-3,"EventType":"T","EventParameters":[],"EventDuration":2E2}}"#;
    assert_eq!(
        first_entry(entry),
        Ok(EventPattern::Event(Event {
            time: s(1_500),
            event_type: "T".to_string(),
            event_parameters: Vec::new(),
            event_duration: Some(s(200_000_000)),
            event_waveform_path: None,
        }))
    );
    assert_eq!(AHAP::import(r#"{"Version":1e0}"#), Err(FormatError::Missing(Field::Metadata)));
}
