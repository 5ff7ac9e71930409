use ahap::{
    CurveParamID, Event, EventPattern, HapticCurve, ParamID, Parameter, ParameterCurve, Scalar,
    AHAP,
};

fn s(micros: i64) -> Scalar {
    Scalar::from_micros(micros)
}

fn fresh() -> AHAP {
    AHAP::with_created("a test", "somebody", "2024-05-06T07:08:09+00:00".to_string())
}

#[test]
fn new_document_is_empty_version_one() {
    let doc = AHAP::new("bike sound", "Deniz");
    assert_eq!(doc.version(), s(1_000_000));
    assert_eq!(doc.metadata().project, "Basis");
    assert_eq!(doc.metadata().description, "bike sound");
    assert_eq!(doc.metadata().created_by, "Deniz");
    assert!(doc.pattern().is_empty());
}

#[test]
fn new_document_is_stamped_with_a_timestamp() {
    let doc = AHAP::new("d", "c");
    let stamp = chrono::DateTime::parse_from_rfc3339(&doc.metadata().created);
    assert!(stamp.is_ok());
}

#[test]
fn document_with_a_given_stamp() {
    let doc = fresh();
    assert_eq!(doc.version().micros(), 1_000_000);
    assert_eq!(doc.metadata().project, "Basis");
    assert_eq!(doc.metadata().created, "2024-05-06T07:08:09+00:00");
    assert_eq!(doc.metadata().description, "a test");
    assert_eq!(doc.metadata().created_by, "somebody");
    assert_eq!(doc.pattern().len(), 0);
}

#[test]
fn add_event_stores_what_it_is_given() {
    let mut doc = fresh();
    let parameters = vec![
        Parameter { parameter_id: ParamID::AudioPan, parameter_value: s(-500_000) },
        Parameter { parameter_id: ParamID::AudioPitch, parameter_value: s(123_456_789) },
    ];
    doc.add_event("SomethingNew", s(-1), parameters.clone(), Some(s(7)), Some("a.wav".to_string()));
    assert_eq!(
        doc.pattern()[0],
        EventPattern::Event(Event {
            time: s(-1),
            event_type: "SomethingNew".to_string(),
            event_parameters: parameters,
            event_duration: Some(s(7)),
            event_waveform_path: Some("a.wav".to_string()),
        })
    );
}

#[test]
fn haptic_transient_has_intensity_and_sharpness() {
    let mut doc = fresh();
    doc.add_haptic_transient_event(s(450_000), s(1_000_000), s(300_000));
    assert_eq!(
        doc.pattern()[0],
        EventPattern::Event(Event {
            time: s(450_000),
            event_type: "HapticTransient".to_string(),
            event_parameters: vec![
                Parameter { parameter_id: ParamID::HapticIntensity, parameter_value: s(1_000_000) },
                Parameter { parameter_id: ParamID::HapticSharpness, parameter_value: s(300_000) },
            ],
            event_duration: None,
            event_waveform_path: None,
        })
    );
}

#[test]
fn haptic_continuous_has_a_duration() {
    let mut doc = fresh();
    doc.add_haptic_continuous_event(s(0), s(400_000), s(500_000), s(400_000));
    assert_eq!(
        doc.pattern()[0],
        EventPattern::Event(Event {
            time: s(0),
            event_type: "HapticContinuous".to_string(),
            event_parameters: vec![
                Parameter { parameter_id: ParamID::HapticIntensity, parameter_value: s(500_000) },
                Parameter { parameter_id: ParamID::HapticSharpness, parameter_value: s(400_000) },
            ],
            event_duration: Some(s(400_000)),
            event_waveform_path: None,
        })
    );
}

#[test]
fn audio_custom_has_a_volume_and_a_path() {
    let mut doc = fresh();
    doc.add_audio_custom_event(s(2_000_000), "engine.wav", s(750_000));
    assert_eq!(
        doc.pattern()[0],
        EventPattern::Event(Event {
            time: s(2_000_000),
            event_type: "AudioCustom".to_string(),
            event_parameters: vec![Parameter {
                parameter_id: ParamID::AudioVolume,
                parameter_value: s(750_000),
            }],
            event_duration: None,
            event_waveform_path: Some("engine.wav".to_string()),
        })
    );
}

#[test]
fn parameter_curve_stores_what_it_is_given() {
    let mut doc = fresh();
    let points = vec![
        HapticCurve { time: s(100_000), parameter_value: s(200_000) },
        HapticCurve { time: s(50_000), parameter_value: s(1) },
    ];
    doc.add_parameter_curve(CurveParamID::AudioVolumeControl, s(3_000_000), points.clone());
    assert_eq!(
        doc.pattern()[0],
        EventPattern::ParameterCurve(ParameterCurve {
            parameter_id: CurveParamID::AudioVolumeControl,
            time: s(3_000_000),
            parameter_curve_control_points: points,
        })
    );
}

#[test]
fn parameter_curve_may_be_empty() {
    let mut doc = fresh();
    doc.add_parameter_curve(CurveParamID::HapticSharpnessControl, s(0), Vec::new());
    assert_eq!(
        doc.pattern()[0],
        EventPattern::ParameterCurve(ParameterCurve {
            parameter_id: CurveParamID::HapticSharpnessControl,
            time: s(0),
            parameter_curve_control_points: Vec::new(),
        })
    );
}

#[test]
fn entries_stay_in_the_order_of_the_calls() {
    let mut doc = fresh();
    let n = 40;
    for i in 0..n {
        let t = s(i as i64 * 50_000);
        match i % 4 {
            0 => doc.add_haptic_transient_event(t, s(1_000_000), s(300_000)),
            1 => doc.add_parameter_curve(CurveParamID::HapticIntensityControl, t, Vec::new()),
            2 => doc.add_haptic_continuous_event(t, s(1), s(2), s(3)),
            _ => doc.add_audio_custom_event(t, "x.wav", s(4)),
        }
        assert_eq!(doc.pattern().len(), i + 1);
    }
    assert_eq!(doc.pattern().len(), n);
    for i in 0..n {
        let t = s(i as i64 * 50_000);
        match &doc.pattern()[i] {
            EventPattern::Event(e) => {
                assert!(i % 4 != 1);
                assert_eq!(e.time, t);
                let expected = match i % 4 {
                    0 => "HapticTransient",
                    2 => "HapticContinuous",
                    _ => "AudioCustom",
                };
                assert_eq!(e.event_type, expected);
            }
            EventPattern::ParameterCurve(c) => {
                assert_eq!(i % 4, 1);
                assert_eq!(c.time, t);
            }
        }
    }
}

#[test]
fn appending_leaves_earlier_entries_and_metadata_alone() {
    let mut doc = fresh();
    doc.add_haptic_transient_event(s(1), s(2), s(3));
    let first = doc.pattern()[0].clone();
    let metadata = doc.metadata().clone();
    doc.add_audio_custom_event(s(4), "y.wav", s(5));
    doc.add_parameter_curve(CurveParamID::AudioPanControl, s(6), Vec::new());
    assert_eq!(doc.pattern()[0], first);
    assert_eq!(*doc.metadata(), metadata);
    assert_eq!(doc.version(), s(1_000_000));
}

#[test]
fn document_from_parts_keeps_them() {
    let metadata = fresh().metadata().clone();
    let entry = EventPattern::ParameterCurve(ParameterCurve {
        parameter_id: CurveParamID::AudioPitchControl,
        time: s(9),
        parameter_curve_control_points: Vec::new(),
    });
    let doc = AHAP::from_parts(s(2_500_000), metadata.clone(), vec![entry.clone()]);
    assert_eq!(doc.version(), s(2_500_000));
    assert_eq!(*doc.metadata(), metadata);
    assert_eq!(*doc.pattern(), vec![entry]);
}
