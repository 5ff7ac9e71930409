//! The members of a pattern file and the ways in which reading one can fail.

use vstd::prelude::*;

verus! {

/// A member of one of the objects that make up a pattern file.
#[derive(Clone, Copy, Debug, PartialEq, Eq, Structural)]
pub enum Field {
    Version,
    Metadata,
    Pattern,
    Project,
    Created,
    Description,
    CreatedBy,
    Event,
    ParameterCurve,
    Time,
    EventType,
    EventParameters,
    EventDuration,
    EventWaveformPath,
    ParameterID,
    ParameterValue,
    ParameterCurveControlPoints,
}

impl Field {
    /// The key of the member, exactly as a pattern file spells it. All keys
    /// are written without a space but `Created By`.
    pub open spec fn key(self) -> Seq<char> {
        match self {
            Field::Version => "Version"@,
            Field::Metadata => "Metadata"@,
            Field::Pattern => "Pattern"@,
            Field::Project => "Project"@,
            Field::Created => "Created"@,
            Field::Description => "Description"@,
            Field::CreatedBy => "Created By"@,
            Field::Event => "Event"@,
            Field::ParameterCurve => "ParameterCurve"@,
            Field::Time => "Time"@,
            Field::EventType => "EventType"@,
            Field::EventParameters => "EventParameters"@,
            Field::EventDuration => "EventDuration"@,
            Field::EventWaveformPath => "EventWaveformPath"@,
            Field::ParameterID => "ParameterID"@,
            Field::ParameterValue => "ParameterValue"@,
            Field::ParameterCurveControlPoints => "ParameterCurveControlPoints"@,
        }
    }

    /// The key of the member as a string slice.
    pub fn as_str(self) -> (key: &'static str)
        ensures
            key@ == self.key(),
    {
        match self {
            Field::Version => "Version",
            Field::Metadata => "Metadata",
            Field::Pattern => "Pattern",
            Field::Project => "Project",
            Field::Created => "Created",
            Field::Description => "Description",
            Field::CreatedBy => "Created By",
            Field::Event => "Event",
            Field::ParameterCurve => "ParameterCurve",
            Field::Time => "Time",
            Field::EventType => "EventType",
            Field::EventParameters => "EventParameters",
            Field::EventDuration => "EventDuration",
            Field::EventWaveformPath => "EventWaveformPath",
            Field::ParameterID => "ParameterID",
            Field::ParameterValue => "ParameterValue",
            Field::ParameterCurveControlPoints => "ParameterCurveControlPoints",
        }
    }

    /// No two members share a key.
    pub proof fn lemma_key_injective(a: Field, b: Field)
        ensures
            a.key() == b.key() ==> a == b,
    {
        reveal_strlit("Version");
        assert("Version"@.len() == 7 && "Version"@[0] == 'V' && "Version"@[1] == 'e');
        reveal_strlit("Metadata");
        assert("Metadata"@.len() == 8 && "Metadata"@[0] == 'M' && "Metadata"@[1] == 'e');
        reveal_strlit("Pattern");
        assert("Pattern"@.len() == 7 && "Pattern"@[0] == 'P' && "Pattern"@[1] == 'a');
        reveal_strlit("Project");
        assert("Project"@.len() == 7 && "Project"@[0] == 'P' && "Project"@[1] == 'r');
        reveal_strlit("Created");
        assert("Created"@.len() == 7 && "Created"@[0] == 'C' && "Created"@[1] == 'r');
        reveal_strlit("Description");
        assert("Description"@.len() == 11 && "Description"@[0] == 'D' && "Description"@[1] == 'e' && "Description"@[9] == 'o');
        reveal_strlit("Created By");
        assert("Created By"@.len() == 10 && "Created By"@[0] == 'C' && "Created By"@[1] == 'r' && "Created By"@[9] == 'y');
        reveal_strlit("Event");
        assert("Event"@.len() == 5 && "Event"@[0] == 'E' && "Event"@[1] == 'v');
        reveal_strlit("ParameterCurve");
        assert("ParameterCurve"@.len() == 14 && "ParameterCurve"@[0] == 'P' && "ParameterCurve"@[1] == 'a' && "ParameterCurve"@[9] == 'C');
        reveal_strlit("Time");
        assert("Time"@.len() == 4 && "Time"@[0] == 'T' && "Time"@[1] == 'i');
        reveal_strlit("EventType");
        assert("EventType"@.len() == 9 && "EventType"@[0] == 'E' && "EventType"@[1] == 'v');
        reveal_strlit("EventParameters");
        assert("EventParameters"@.len() == 15 && "EventParameters"@[0] == 'E' && "EventParameters"@[1] == 'v' && "EventParameters"@[9] == 'm');
        reveal_strlit("EventDuration");
        assert("EventDuration"@.len() == 13 && "EventDuration"@[0] == 'E' && "EventDuration"@[1] == 'v' && "EventDuration"@[9] == 't');
        reveal_strlit("EventWaveformPath");
        assert("EventWaveformPath"@.len() == 17 && "EventWaveformPath"@[0] == 'E' && "EventWaveformPath"@[1] == 'v' && "EventWaveformPath"@[9] == 'f');
        reveal_strlit("ParameterID");
        assert("ParameterID"@.len() == 11 && "ParameterID"@[0] == 'P' && "ParameterID"@[1] == 'a' && "ParameterID"@[9] == 'I');
        reveal_strlit("ParameterValue");
        assert("ParameterValue"@.len() == 14 && "ParameterValue"@[0] == 'P' && "ParameterValue"@[1] == 'a' && "ParameterValue"@[9] == 'V');
        reveal_strlit("ParameterCurveControlPoints");
        assert("ParameterCurveControlPoints"@.len() == 27 && "ParameterCurveControlPoints"@[0] == 'P' && "ParameterCurveControlPoints"@[1] == 'a' && "ParameterCurveControlPoints"@[9] == 'C');
    }
}

/// Why a text could not be read as a pattern document, or a document could
/// not be written.
#[derive(Clone, Copy, Debug, PartialEq, Eq, Structural)]
pub enum FormatError {
    /// The text is not JSON.
    Syntax,
    /// The JSON value is not an object, so it is no document.
    NotADocument,
    /// An object lacks a member that it must have.
    Missing(Field),
    /// A member, or an item of it, is of the wrong kind: a string where a
    /// number belongs, a number that cannot be read, and so on.
    Mismatch(Field),
    /// A `ParameterID` names no parameter of the kind that belongs there.
    UnknownParameter,
    /// An entry of the pattern holds neither an event nor a parameter curve.
    EmptyEntry,
    /// An entry of the pattern holds both an event and a parameter curve.
    AmbiguousEntry,
    /// The JSON writer gave up on the document.
    Unwritable,
}

} // verus!
