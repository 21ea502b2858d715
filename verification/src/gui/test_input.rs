//! The test input of standalone mode: an audio file or a generated signal in place of
//! a live input.
use vstd::prelude::*;

use crate::audio_file::{DecodedAudio, PlaybackState};
use crate::gui::dsp_settings::shown_name;
use crate::session::Tasks;

verus! {

/// What the panel shows of the loaded audio file.
#[derive(Debug)]
pub struct AudioSummary {
    pub has_audio: bool,
    pub total_frames: u64,
    pub sample_rate: u32,
    pub file_name: Option<String>,
}

/// What the panel shows of the loaded audio file. `name` is the name of the file,
/// where that is text.
pub fn audio_summary<P>(audio: Option<&DecodedAudio<P>>, name: Option<String>) -> (r: AudioSummary)
    ensures
        match audio {
            Some(a) => {
                &&& r.has_audio
                &&& r.total_frames == a.total_frames
                &&& r.sample_rate == a.sample_rate
                &&& r.file_name matches Some(shown) && shown@ == shown_name(
                    Some(name),
                    "Unknown"@,
                    ""@,
                )
                &&& r.file_name matches Some(shown) && (match name {
                    Some(text) => shown@ == text@,
                    None => shown@ == "Unknown"@,
                })
            },
            None => r == (AudioSummary {
                has_audio: false,
                total_frames: 0,
                sample_rate: 48000,
                file_name: None,
            }),
        },
{
    match audio {
        Some(a) => {
            let shown: String = match name {
                Some(text) => text,
                None => "Unknown".to_owned(),
            };
            AudioSummary {
                has_audio: true,
                total_frames: a.total_frames,
                sample_rate: a.sample_rate,
                file_name: Some(shown),
            }
        },
        None => AudioSummary {
            has_audio: false,
            total_frames: 0,
            sample_rate: 48000,
            file_name: None,
        },
    }
}

/// What the generator button does: it unloads a loaded generator; it loads one only
/// for an effect.
pub fn generator_task<P>(loaded: bool, is_effect: bool) -> (r: Option<Tasks<P>>)
    ensures
        r == (if loaded {
            Some(Tasks::<P>::UnloadTestSignals)
        } else if is_effect {
            Some(Tasks::<P>::LoadTestSignals)
        } else {
            None
        }),
{
    if loaded {
        Some(Tasks::UnloadTestSignals)
    } else if is_effect {
        Some(Tasks::LoadTestSignals)
    } else {
        None
    }
}

/// What the play button says.
pub fn play_label(state: &PlaybackState) -> (r: &'static str)
    ensures
        r@ == (if state.playing {
            "Pause"@
        } else {
            "Play"@
        }),
{
    if state.playing {
        "Pause"
    } else {
        "Play"
    }
}

} // verus!
