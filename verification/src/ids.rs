//! The closed sets of parameter identifiers.

use vstd::prelude::*;

verus! {

/// A parameter of a discrete event.
#[derive(Clone, Copy, Debug, PartialEq, Eq, Structural)]
pub enum ParamID {
    HapticIntensity,
    HapticSharpness,
    HapticAttackTime,
    HapticDecayTime,
    HapticReleaseTime,
    AudioBrightness,
    AudioPan,
    AudioPitch,
    AudioVolume,
    AudioAttackTime,
    AudioDecayTime,
    AudioReleaseTime,
}

impl ParamID {
    /// The name under which the identifier appears in a pattern file.
    pub open spec fn name(self) -> Seq<char> {
        match self {
            ParamID::HapticIntensity => "HapticIntensity"@,
            ParamID::HapticSharpness => "HapticSharpness"@,
            ParamID::HapticAttackTime => "HapticAttackTime"@,
            ParamID::HapticDecayTime => "HapticDecayTime"@,
            ParamID::HapticReleaseTime => "HapticReleaseTime"@,
            ParamID::AudioBrightness => "AudioBrightness"@,
            ParamID::AudioPan => "AudioPan"@,
            ParamID::AudioPitch => "AudioPitch"@,
            ParamID::AudioVolume => "AudioVolume"@,
            ParamID::AudioAttackTime => "AudioAttackTime"@,
            ParamID::AudioDecayTime => "AudioDecayTime"@,
            ParamID::AudioReleaseTime => "AudioReleaseTime"@,
        }
    }

    /// The identifier that a pattern file writes as `text`, if there is one.
    pub open spec fn named(text: Seq<char>) -> Option<ParamID> {
        if text == "HapticIntensity"@ {
            Some(ParamID::HapticIntensity)
        } else if text == "HapticSharpness"@ {
            Some(ParamID::HapticSharpness)
        } else if text == "HapticAttackTime"@ {
            Some(ParamID::HapticAttackTime)
        } else if text == "HapticDecayTime"@ {
            Some(ParamID::HapticDecayTime)
        } else if text == "HapticReleaseTime"@ {
            Some(ParamID::HapticReleaseTime)
        } else if text == "AudioBrightness"@ {
            Some(ParamID::AudioBrightness)
        } else if text == "AudioPan"@ {
            Some(ParamID::AudioPan)
        } else if text == "AudioPitch"@ {
            Some(ParamID::AudioPitch)
        } else if text == "AudioVolume"@ {
            Some(ParamID::AudioVolume)
        } else if text == "AudioAttackTime"@ {
            Some(ParamID::AudioAttackTime)
        } else if text == "AudioDecayTime"@ {
            Some(ParamID::AudioDecayTime)
        } else if text == "AudioReleaseTime"@ {
            Some(ParamID::AudioReleaseTime)
        } else {
            None
        }
    }

    /// The name of `self` as a string slice.
    pub fn as_str(self) -> (s: &'static str)
        ensures
            s@ == self.name(),
    {
        match self {
            ParamID::HapticIntensity => "HapticIntensity",
            ParamID::HapticSharpness => "HapticSharpness",
            ParamID::HapticAttackTime => "HapticAttackTime",
            ParamID::HapticDecayTime => "HapticDecayTime",
            ParamID::HapticReleaseTime => "HapticReleaseTime",
            ParamID::AudioBrightness => "AudioBrightness",
            ParamID::AudioPan => "AudioPan",
            ParamID::AudioPitch => "AudioPitch",
            ParamID::AudioVolume => "AudioVolume",
            ParamID::AudioAttackTime => "AudioAttackTime",
            ParamID::AudioDecayTime => "AudioDecayTime",
            ParamID::AudioReleaseTime => "AudioReleaseTime",
        }
    }

    /// Reads an identifier back from its name. Any other text, a curve identifier
    /// included, gives `None`.
    pub fn from_name(text: &str) -> (id: Option<ParamID>)
        ensures
            id == ParamID::named(text@),
    {
        if text.eq("HapticIntensity") {
            Some(ParamID::HapticIntensity)
        } else if text.eq("HapticSharpness") {
            Some(ParamID::HapticSharpness)
        } else if text.eq("HapticAttackTime") {
            Some(ParamID::HapticAttackTime)
        } else if text.eq("HapticDecayTime") {
            Some(ParamID::HapticDecayTime)
        } else if text.eq("HapticReleaseTime") {
            Some(ParamID::HapticReleaseTime)
        } else if text.eq("AudioBrightness") {
            Some(ParamID::AudioBrightness)
        } else if text.eq("AudioPan") {
            Some(ParamID::AudioPan)
        } else if text.eq("AudioPitch") {
            Some(ParamID::AudioPitch)
        } else if text.eq("AudioVolume") {
            Some(ParamID::AudioVolume)
        } else if text.eq("AudioAttackTime") {
            Some(ParamID::AudioAttackTime)
        } else if text.eq("AudioDecayTime") {
            Some(ParamID::AudioDecayTime)
        } else if text.eq("AudioReleaseTime") {
            Some(ParamID::AudioReleaseTime)
        } else {
            None
        }
    }

    /// Every identifier is read back from its own name.
    pub proof fn lemma_named_name(self)
        ensures
            ParamID::named(self.name()) == Some(self),
    {
        reveal_strlit("HapticIntensity");
        assert("HapticIntensity"@.len() == 15 && "HapticIntensity"@[0] == 'H' && "HapticIntensity"@[5] == 'c' && "HapticIntensity"@[6] == 'I');
        reveal_strlit("HapticSharpness");
        assert("HapticSharpness"@.len() == 15 && "HapticSharpness"@[0] == 'H' && "HapticSharpness"@[5] == 'c' && "HapticSharpness"@[6] == 'S');
        reveal_strlit("HapticAttackTime");
        assert("HapticAttackTime"@.len() == 16 && "HapticAttackTime"@[0] == 'H' && "HapticAttackTime"@[5] == 'c' && "HapticAttackTime"@[6] == 'A');
        reveal_strlit("HapticDecayTime");
        assert("HapticDecayTime"@.len() == 15 && "HapticDecayTime"@[0] == 'H' && "HapticDecayTime"@[5] == 'c' && "HapticDecayTime"@[6] == 'D');
        reveal_strlit("HapticReleaseTime");
        assert("HapticReleaseTime"@.len() == 17 && "HapticReleaseTime"@[0] == 'H' && "HapticReleaseTime"@[5] == 'c' && "HapticReleaseTime"@[6] == 'R');
        reveal_strlit("AudioBrightness");
        assert("AudioBrightness"@.len() == 15 && "AudioBrightness"@[0] == 'A' && "AudioBrightness"@[5] == 'B' && "AudioBrightness"@[6] == 'r');
        reveal_strlit("AudioPan");
        assert("AudioPan"@.len() == 8 && "AudioPan"@[0] == 'A' && "AudioPan"@[5] == 'P' && "AudioPan"@[6] == 'a');
        reveal_strlit("AudioPitch");
        assert("AudioPitch"@.len() == 10 && "AudioPitch"@[0] == 'A' && "AudioPitch"@[5] == 'P' && "AudioPitch"@[6] == 'i');
        reveal_strlit("AudioVolume");
        assert("AudioVolume"@.len() == 11 && "AudioVolume"@[0] == 'A' && "AudioVolume"@[5] == 'V' && "AudioVolume"@[6] == 'o');
        reveal_strlit("AudioAttackTime");
        assert("AudioAttackTime"@.len() == 15 && "AudioAttackTime"@[0] == 'A' && "AudioAttackTime"@[5] == 'A' && "AudioAttackTime"@[6] == 't');
        reveal_strlit("AudioDecayTime");
        assert("AudioDecayTime"@.len() == 14 && "AudioDecayTime"@[0] == 'A' && "AudioDecayTime"@[5] == 'D' && "AudioDecayTime"@[6] == 'e');
        reveal_strlit("AudioReleaseTime");
        assert("AudioReleaseTime"@.len() == 16 && "AudioReleaseTime"@[0] == 'A' && "AudioReleaseTime"@[5] == 'R' && "AudioReleaseTime"@[6] == 'e');
    }

    /// A text names at most one identifier, and only by that identifier's name.
    pub proof fn lemma_named_some(text: Seq<char>)
        ensures
            ParamID::named(text) matches Some(id) ==> id.name() == text,
    {
    }
}

/// A parameter that a curve automates over time.
#[derive(Clone, Copy, Debug, PartialEq, Eq, Structural)]
pub enum CurveParamID {
    HapticIntensityControl,
    HapticSharpnessControl,
    HapticAttackTimeControl,
    HapticDecayTimeControl,
    HapticReleaseTimeControl,
    AudioBrightnessControl,
    AudioPanControl,
    AudioPitchControl,
    AudioVolumeControl,
    AudioAttackTimeControl,
    AudioDecayTimeControl,
    AudioReleaseTimeControl,
}

impl CurveParamID {
    /// The name under which the identifier appears in a pattern file.
    pub open spec fn name(self) -> Seq<char> {
        match self {
            CurveParamID::HapticIntensityControl => "HapticIntensityControl"@,
            CurveParamID::HapticSharpnessControl => "HapticSharpnessControl"@,
            CurveParamID::HapticAttackTimeControl => "HapticAttackTimeControl"@,
            CurveParamID::HapticDecayTimeControl => "HapticDecayTimeControl"@,
            CurveParamID::HapticReleaseTimeControl => "HapticReleaseTimeControl"@,
            CurveParamID::AudioBrightnessControl => "AudioBrightnessControl"@,
            CurveParamID::AudioPanControl => "AudioPanControl"@,
            CurveParamID::AudioPitchControl => "AudioPitchControl"@,
            CurveParamID::AudioVolumeControl => "AudioVolumeControl"@,
            CurveParamID::AudioAttackTimeControl => "AudioAttackTimeControl"@,
            CurveParamID::AudioDecayTimeControl => "AudioDecayTimeControl"@,
            CurveParamID::AudioReleaseTimeControl => "AudioReleaseTimeControl"@,
        }
    }

    /// The identifier that a pattern file writes as `text`, if there is one.
    pub open spec fn named(text: Seq<char>) -> Option<CurveParamID> {
        if text == "HapticIntensityControl"@ {
            Some(CurveParamID::HapticIntensityControl)
        } else if text == "HapticSharpnessControl"@ {
            Some(CurveParamID::HapticSharpnessControl)
        } else if text == "HapticAttackTimeControl"@ {
            Some(CurveParamID::HapticAttackTimeControl)
        } else if text == "HapticDecayTimeControl"@ {
            Some(CurveParamID::HapticDecayTimeControl)
        } else if text == "HapticReleaseTimeControl"@ {
            Some(CurveParamID::HapticReleaseTimeControl)
        } else if text == "AudioBrightnessControl"@ {
            Some(CurveParamID::AudioBrightnessControl)
        } else if text == "AudioPanControl"@ {
            Some(CurveParamID::AudioPanControl)
        } else if text == "AudioPitchControl"@ {
            Some(CurveParamID::AudioPitchControl)
        } else if text == "AudioVolumeControl"@ {
            Some(CurveParamID::AudioVolumeControl)
        } else if text == "AudioAttackTimeControl"@ {
            Some(CurveParamID::AudioAttackTimeControl)
        } else if text == "AudioDecayTimeControl"@ {
            Some(CurveParamID::AudioDecayTimeControl)
        } else if text == "AudioReleaseTimeControl"@ {
            Some(CurveParamID::AudioReleaseTimeControl)
        } else {
            None
        }
    }

    /// The name of `self` as a string slice.
    pub fn as_str(self) -> (s: &'static str)
        ensures
            s@ == self.name(),
    {
        match self {
            CurveParamID::HapticIntensityControl => "HapticIntensityControl",
            CurveParamID::HapticSharpnessControl => "HapticSharpnessControl",
            CurveParamID::HapticAttackTimeControl => "HapticAttackTimeControl",
            CurveParamID::HapticDecayTimeControl => "HapticDecayTimeControl",
            CurveParamID::HapticReleaseTimeControl => "HapticReleaseTimeControl",
            CurveParamID::AudioBrightnessControl => "AudioBrightnessControl",
            CurveParamID::AudioPanControl => "AudioPanControl",
            CurveParamID::AudioPitchControl => "AudioPitchControl",
            CurveParamID::AudioVolumeControl => "AudioVolumeControl",
            CurveParamID::AudioAttackTimeControl => "AudioAttackTimeControl",
            CurveParamID::AudioDecayTimeControl => "AudioDecayTimeControl",
            CurveParamID::AudioReleaseTimeControl => "AudioReleaseTimeControl",
        }
    }

    /// Reads an identifier back from its name. Any other text, a name of an event parameter
    /// included, gives `None`.
    pub fn from_name(text: &str) -> (id: Option<CurveParamID>)
        ensures
            id == CurveParamID::named(text@),
    {
        if text.eq("HapticIntensityControl") {
            Some(CurveParamID::HapticIntensityControl)
        } else if text.eq("HapticSharpnessControl") {
            Some(CurveParamID::HapticSharpnessControl)
        } else if text.eq("HapticAttackTimeControl") {
            Some(CurveParamID::HapticAttackTimeControl)
        } else if text.eq("HapticDecayTimeControl") {
            Some(CurveParamID::HapticDecayTimeControl)
        } else if text.eq("HapticReleaseTimeControl") {
            Some(CurveParamID::HapticReleaseTimeControl)
        } else if text.eq("AudioBrightnessControl") {
            Some(CurveParamID::AudioBrightnessControl)
        } else if text.eq("AudioPanControl") {
            Some(CurveParamID::AudioPanControl)
        } else if text.eq("AudioPitchControl") {
            Some(CurveParamID::AudioPitchControl)
        } else if text.eq("AudioVolumeControl") {
            Some(CurveParamID::AudioVolumeControl)
        } else if text.eq("AudioAttackTimeControl") {
            Some(CurveParamID::AudioAttackTimeControl)
        } else if text.eq("AudioDecayTimeControl") {
            Some(CurveParamID::AudioDecayTimeControl)
        } else if text.eq("AudioReleaseTimeControl") {
            Some(CurveParamID::AudioReleaseTimeControl)
        } else {
            None
        }
    }

    /// Every identifier is read back from its own name.
    pub proof fn lemma_named_name(self)
        ensures
            CurveParamID::named(self.name()) == Some(self),
    {
        reveal_strlit("HapticIntensityControl");
        assert("HapticIntensityControl"@.len() == 22 && "HapticIntensityControl"@[0] == 'H' && "HapticIntensityControl"@[5] == 'c' && "HapticIntensityControl"@[6] == 'I');
        reveal_strlit("HapticSharpnessControl");
        assert("HapticSharpnessControl"@.len() == 22 && "HapticSharpnessControl"@[0] == 'H' && "HapticSharpnessControl"@[5] == 'c' && "HapticSharpnessControl"@[6] == 'S');
        reveal_strlit("HapticAttackTimeControl");
        assert("HapticAttackTimeControl"@.len() == 23 && "HapticAttackTimeControl"@[0] == 'H' && "HapticAttackTimeControl"@[5] == 'c' && "HapticAttackTimeControl"@[6] == 'A');
        reveal_strlit("HapticDecayTimeControl");
        assert("HapticDecayTimeControl"@.len() == 22 && "HapticDecayTimeControl"@[0] == 'H' && "HapticDecayTimeControl"@[5] == 'c' && "HapticDecayTimeControl"@[6] == 'D');
        reveal_strlit("HapticReleaseTimeControl");
        assert("HapticReleaseTimeControl"@.len() == 24 && "HapticReleaseTimeControl"@[0] == 'H' && "HapticReleaseTimeControl"@[5] == 'c' && "HapticReleaseTimeControl"@[6] == 'R');
        reveal_strlit("AudioBrightnessControl");
        assert("AudioBrightnessControl"@.len() == 22 && "AudioBrightnessControl"@[0] == 'A' && "AudioBrightnessControl"@[5] == 'B' && "AudioBrightnessControl"@[6] == 'r');
        reveal_strlit("AudioPanControl");
        assert("AudioPanControl"@.len() == 15 && "AudioPanControl"@[0] == 'A' && "AudioPanControl"@[5] == 'P' && "AudioPanControl"@[6] == 'a');
        reveal_strlit("AudioPitchControl");
        assert("AudioPitchControl"@.len() == 17 && "AudioPitchControl"@[0] == 'A' && "AudioPitchControl"@[5] == 'P' && "AudioPitchControl"@[6] == 'i');
        reveal_strlit("AudioVolumeControl");
        assert("AudioVolumeControl"@.len() == 18 && "AudioVolumeControl"@[0] == 'A' && "AudioVolumeControl"@[5] == 'V' && "AudioVolumeControl"@[6] == 'o');
        reveal_strlit("AudioAttackTimeControl");
        assert("AudioAttackTimeControl"@.len() == 22 && "AudioAttackTimeControl"@[0] == 'A' && "AudioAttackTimeControl"@[5] == 'A' && "AudioAttackTimeControl"@[6] == 't');
        reveal_strlit("AudioDecayTimeControl");
        assert("AudioDecayTimeControl"@.len() == 21 && "AudioDecayTimeControl"@[0] == 'A' && "AudioDecayTimeControl"@[5] == 'D' && "AudioDecayTimeControl"@[6] == 'e');
        reveal_strlit("AudioReleaseTimeControl");
        assert("AudioReleaseTimeControl"@.len() == 23 && "AudioReleaseTimeControl"@[0] == 'A' && "AudioReleaseTimeControl"@[5] == 'R' && "AudioReleaseTimeControl"@[6] == 'e');
    }

    /// A text names at most one identifier, and only by that identifier's name.
    pub proof fn lemma_named_some(text: Seq<char>)
        ensures
            CurveParamID::named(text) matches Some(id) ==> id.name() == text,
    {
    }
}

} // verus!
