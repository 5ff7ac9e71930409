//! The document tree and its append-only construction interface.

use vstd::prelude::*;

use crate::ids::{CurveParamID, ParamID};
use crate::scalar::Scalar;

verus! {

/// One setting of a discrete event: which parameter, and its value.
#[derive(Clone, Copy, Debug, PartialEq, Eq, Structural)]
pub struct Parameter {
    pub parameter_id: ParamID,
    pub parameter_value: Scalar,
}

/// One control point of a parameter curve.
#[derive(Clone, Copy, Debug, PartialEq, Eq, Structural)]
pub struct HapticCurve {
    pub time: Scalar,
    pub parameter_value: Scalar,
}

/// A discrete haptic or audio event.
///
/// `event_type` is free text: the engine's `HapticTransient`,
/// `HapticContinuous` and `AudioCustom`, or any later addition.
#[derive(Clone, Debug, PartialEq, Eq)]
pub struct Event {
    pub time: Scalar,
    pub event_type: String,
    pub event_parameters: Vec<Parameter>,
    pub event_duration: Option<Scalar>,
    pub event_waveform_path: Option<String>,
}

/// The automation of one parameter along a list of control points.
#[derive(Clone, Debug, PartialEq, Eq)]
pub struct ParameterCurve {
    pub parameter_id: CurveParamID,
    pub time: Scalar,
    pub parameter_curve_control_points: Vec<HapticCurve>,
}

/// One entry of a pattern: an event or a parameter curve, never both and
/// never neither.
#[derive(Clone, Debug, PartialEq, Eq)]
pub enum EventPattern {
    Event(Event),
    ParameterCurve(ParameterCurve),
}

/// Who made a document, when, and what it is.
#[derive(Clone, Debug, PartialEq, Eq)]
pub struct Metadata {
    pub project: String,
    pub created: String,
    pub description: String,
    pub created_by: String,
}

/// A pattern document. Entries are only ever appended: nothing in this
/// interface removes, reorders or rewrites one.
#[derive(Clone, Debug, PartialEq, Eq)]
pub struct AHAP {
    version: Scalar,
    metadata: Metadata,
    pattern: Vec<EventPattern>,
}

/// What an [`Event`] holds.
pub struct EventView {
    pub time: Scalar,
    pub event_type: Seq<char>,
    pub event_parameters: Seq<Parameter>,
    pub event_duration: Option<Scalar>,
    pub event_waveform_path: Option<Seq<char>>,
}

/// What a [`ParameterCurve`] holds.
pub struct ParameterCurveView {
    pub parameter_id: CurveParamID,
    pub time: Scalar,
    pub control_points: Seq<HapticCurve>,
}

/// What an [`EventPattern`] holds.
pub enum EventPatternView {
    Event(EventView),
    ParameterCurve(ParameterCurveView),
}

/// What a [`Metadata`] holds.
pub struct MetadataView {
    pub project: Seq<char>,
    pub created: Seq<char>,
    pub description: Seq<char>,
    pub created_by: Seq<char>,
}

/// What an [`AHAP`] document holds.
pub struct AhapView {
    pub version: Scalar,
    pub metadata: MetadataView,
    pub pattern: Seq<EventPatternView>,
}

/// The characters of an optional string.
pub open spec fn text_view(text: Option<String>) -> Option<Seq<char>> {
    match text {
        Some(t) => Some(t@),
        None => None,
    }
}

/// The entries of a pattern, each by what it holds.
pub open spec fn entries_view(entries: Seq<EventPattern>) -> Seq<EventPatternView> {
    entries.map_values(|e: EventPattern| e@)
}

impl View for Event {
    type V = EventView;

    open spec fn view(&self) -> EventView {
        EventView {
            time: self.time,
            event_type: self.event_type@,
            event_parameters: self.event_parameters@,
            event_duration: self.event_duration,
            event_waveform_path: text_view(self.event_waveform_path),
        }
    }
}

impl View for ParameterCurve {
    type V = ParameterCurveView;

    open spec fn view(&self) -> ParameterCurveView {
        ParameterCurveView {
            parameter_id: self.parameter_id,
            time: self.time,
            control_points: self.parameter_curve_control_points@,
        }
    }
}

impl View for EventPattern {
    type V = EventPatternView;

    open spec fn view(&self) -> EventPatternView {
        match self {
            EventPattern::Event(e) => EventPatternView::Event(e@),
            EventPattern::ParameterCurve(c) => EventPatternView::ParameterCurve(c@),
        }
    }
}

impl View for Metadata {
    type V = MetadataView;

    open spec fn view(&self) -> MetadataView {
        MetadataView {
            project: self.project@,
            created: self.created@,
            description: self.description@,
            created_by: self.created_by@,
        }
    }
}

impl View for AHAP {
    type V = AhapView;

    closed spec fn view(&self) -> AhapView {
        AhapView {
            version: self.version,
            metadata: self.metadata@,
            pattern: entries_view(self.pattern@),
        }
    }
}

impl EventView {
    /// A transient: intensity and sharpness, no duration, no waveform.
    pub open spec fn haptic_transient(time: Scalar, intensity: Scalar, sharpness: Scalar) -> EventView {
        EventView {
            time,
            event_type: "HapticTransient"@,
            event_parameters: seq![
                Parameter { parameter_id: ParamID::HapticIntensity, parameter_value: intensity },
                Parameter { parameter_id: ParamID::HapticSharpness, parameter_value: sharpness },
            ],
            event_duration: None,
            event_waveform_path: None,
        }
    }

    /// A continuous event: intensity and sharpness held for `duration`.
    pub open spec fn haptic_continuous(
        time: Scalar,
        duration: Scalar,
        intensity: Scalar,
        sharpness: Scalar,
    ) -> EventView {
        EventView {
            time,
            event_type: "HapticContinuous"@,
            event_parameters: seq![
                Parameter { parameter_id: ParamID::HapticIntensity, parameter_value: intensity },
                Parameter { parameter_id: ParamID::HapticSharpness, parameter_value: sharpness },
            ],
            event_duration: Some(duration),
            event_waveform_path: None,
        }
    }

    /// The playback of a waveform file at a volume.
    pub open spec fn audio_custom(time: Scalar, waveform_path: Seq<char>, volume: Scalar) -> EventView {
        EventView {
            time,
            event_type: "AudioCustom"@,
            event_parameters: seq![
                Parameter { parameter_id: ParamID::AudioVolume, parameter_value: volume },
            ],
            event_duration: None,
            event_waveform_path: Some(waveform_path),
        }
    }
}

impl AhapView {
    /// A document without entries: version 1.0, project `Basis`.
    pub open spec fn fresh(description: Seq<char>, created_by: Seq<char>, created: Seq<char>) -> AhapView {
        AhapView {
            version: Scalar { micros: 1_000_000 },
            metadata: MetadataView { project: "Basis"@, created, description, created_by },
            pattern: Seq::empty(),
        }
    }

    /// The same document with `entry` after all the entries it had.
    pub open spec fn appended(self, entry: EventPatternView) -> AhapView {
        AhapView { pattern: self.pattern.push(entry), ..self }
    }

    /// The document after appending `entries` one by one, first to last.
    pub open spec fn appended_all(self, entries: Seq<EventPatternView>) -> AhapView
        decreases entries.len(),
    {
        if entries.len() == 0 {
            self
        } else {
            self.appended_all(entries.drop_last()).appended(entries.last())
        }
    }

    /// Appending never touches what is already there: after any run of
    /// appends the version and metadata are unchanged and the pattern is the
    /// old one followed by the appended entries in the order of the calls.
    /// On a document that began empty, entry `i` is therefore the one that
    /// the `i`-th call appended, and there are as many entries as calls.
    pub proof fn lemma_appends_in_order(self, entries: Seq<EventPatternView>)
        ensures
            self.appended_all(entries).version == self.version,
            self.appended_all(entries).metadata == self.metadata,
            self.appended_all(entries).pattern == self.pattern + entries,
            self.appended_all(entries).pattern.len() == self.pattern.len() + entries.len(),
            forall|i: int|
                0 <= i < entries.len() ==> self.appended_all(entries).pattern[self.pattern.len() + i]
                    == entries[i],
        decreases entries.len(),
    {
        if entries.len() == 0 {
            assert(self.pattern + entries =~= self.pattern);
        } else {
            self.lemma_appends_in_order(entries.drop_last());
            assert(self.pattern + entries =~= (self.pattern + entries.drop_last()).push(
                entries.last(),
            ));
        }
    }
}

/// `chrono::Utc::now` and `DateTime::to_rfc3339`: the current time of the
/// system clock, written as an RFC 3339 timestamp. The text depends on the
/// moment of the call, so nothing is claimed of it.
#[verifier::external_body]
fn current_timestamp() -> (stamp: String) {
    chrono::Utc::now().to_rfc3339()
}

impl AHAP {
    /// A new, empty document stamped with the current time.
    pub fn new(description: &str, created_by: &str) -> (doc: AHAP)
        ensures
            doc@ == AhapView::fresh(description@, created_by@, doc@.metadata.created),
    {
        AHAP::with_created(description, created_by, current_timestamp())
    }

    /// A new, empty document with a given creation stamp.
    pub fn with_created(description: &str, created_by: &str, created: String) -> (doc: AHAP)
        ensures
            doc@ == AhapView::fresh(description@, created_by@, created@),
    {
        let doc = AHAP {
            version: Scalar { micros: 1_000_000 },
            metadata: Metadata {
                project: "Basis".to_owned(),
                created,
                description: description.to_owned(),
                created_by: created_by.to_owned(),
            },
            pattern: Vec::new(),
        };
        assert(entries_view(doc.pattern@) =~= Seq::empty());
        doc
    }

    /// A document made of parts that were read or built elsewhere.
    pub fn from_parts(version: Scalar, metadata: Metadata, pattern: Vec<EventPattern>) -> (doc: AHAP)
        ensures
            doc@ == (AhapView { version, metadata: metadata@, pattern: entries_view(pattern@) }),
    {
        AHAP { version, metadata, pattern }
    }

    /// The format version.
    pub fn version(&self) -> (v: Scalar)
        ensures
            v == self@.version,
    {
        self.version
    }

    /// The metadata.
    pub fn metadata(&self) -> (m: &Metadata)
        ensures
            m@ == self@.metadata,
    {
        &self.metadata
    }

    /// The entries, in the order in which they were appended.
    pub fn pattern(&self) -> (p: &Vec<EventPattern>)
        ensures
            entries_view(p@) == self@.pattern,
    {
        &self.pattern
    }

    /// Appends `entry` after all the entries of the document.
    fn append(&mut self, entry: EventPattern)
        ensures
            final(self)@ == old(self)@.appended(entry@),
    {
        self.pattern.push(entry);
        assert(entries_view(self.pattern@) =~= entries_view(old(self).pattern@).push(entry@));
    }

    /// Appends an event exactly as given. Nothing is validated: times and
    /// parameter values are the caller's to choose.
    pub fn add_event(
        &mut self,
        etype: &str,
        time: Scalar,
        parameters: Vec<Parameter>,
        event_duration: Option<Scalar>,
        event_waveform_path: Option<String>,
    )
        ensures
            final(self)@ == old(self)@.appended(
                EventPatternView::Event(
                    EventView {
                        time,
                        event_type: etype@,
                        event_parameters: parameters@,
                        event_duration,
                        event_waveform_path: text_view(event_waveform_path),
                    },
                ),
            ),
    {
        self.append(
            EventPattern::Event(
                Event {
                    time,
                    event_type: etype.to_owned(),
                    event_parameters: parameters,
                    event_duration,
                    event_waveform_path,
                },
            ),
        );
    }

    /// Appends a `HapticTransient` event.
    pub fn add_haptic_transient_event(
        &mut self,
        time: Scalar,
        haptic_intensity: Scalar,
        haptic_sharpness: Scalar,
    )
        ensures
            final(self)@ == old(self)@.appended(
                EventPatternView::Event(
                    EventView::haptic_transient(time, haptic_intensity, haptic_sharpness),
                ),
            ),
    {
        let mut parameters: Vec<Parameter> = Vec::new();
        parameters.push(
            Parameter { parameter_id: ParamID::HapticIntensity, parameter_value: haptic_intensity },
        );
        parameters.push(
            Parameter { parameter_id: ParamID::HapticSharpness, parameter_value: haptic_sharpness },
        );
        assert(parameters@ =~= EventView::haptic_transient(
            time,
            haptic_intensity,
            haptic_sharpness,
        ).event_parameters);
        self.add_event("HapticTransient", time, parameters, None, None);
    }

    /// Appends a `HapticContinuous` event that lasts `event_duration`.
    pub fn add_haptic_continuous_event(
        &mut self,
        time: Scalar,
        event_duration: Scalar,
        haptic_intensity: Scalar,
        haptic_sharpness: Scalar,
    )
        ensures
            final(self)@ == old(self)@.appended(
                EventPatternView::Event(
                    EventView::haptic_continuous(
                        time,
                        event_duration,
                        haptic_intensity,
                        haptic_sharpness,
                    ),
                ),
            ),
    {
        let mut parameters: Vec<Parameter> = Vec::new();
        parameters.push(
            Parameter { parameter_id: ParamID::HapticIntensity, parameter_value: haptic_intensity },
        );
        parameters.push(
            Parameter { parameter_id: ParamID::HapticSharpness, parameter_value: haptic_sharpness },
        );
        assert(parameters@ =~= EventView::haptic_continuous(
            time,
            event_duration,
            haptic_intensity,
            haptic_sharpness,
        ).event_parameters);
        self.add_event("HapticContinuous", time, parameters, Some(event_duration), None);
    }

    /// Appends an `AudioCustom` event that plays the file at `wav_filepath`.
    pub fn add_audio_custom_event(&mut self, time: Scalar, wav_filepath: &str, volume: Scalar)
        ensures
            final(self)@ == old(self)@.appended(
                EventPatternView::Event(EventView::audio_custom(time, wav_filepath@, volume)),
            ),
    {
        let mut parameters: Vec<Parameter> = Vec::new();
        parameters.push(Parameter { parameter_id: ParamID::AudioVolume, parameter_value: volume });
        assert(parameters@ =~= EventView::audio_custom(
            time,
            wav_filepath@,
            volume,
        ).event_parameters);
        self.add_event("AudioCustom", time, parameters, None, Some(wav_filepath.to_owned()));
    }

    /// Appends a parameter curve exactly as given.
    pub fn add_parameter_curve(
        &mut self,
        parameter_id: CurveParamID,
        start_time: Scalar,
        control_points: Vec<HapticCurve>,
    )
        ensures
            final(self)@ == old(self)@.appended(
                EventPatternView::ParameterCurve(
                    ParameterCurveView {
                        parameter_id,
                        time: start_time,
                        control_points: control_points@,
                    },
                ),
            ),
    {
        self.append(
            EventPattern::ParameterCurve(
                ParameterCurve {
                    parameter_id,
                    time: start_time,
                    parameter_curve_control_points: control_points,
                },
            ),
        );
    }
}

} // verus!
