//! Audio file loading and playback for standalone mode.
//!
//! The caller opens and reads the file; what is kept of it, how the tracks are
//! chosen, how samples are sorted into channels and how a loaded file is played
//! is decided here.
use std::sync::Arc;
use vstd::prelude::*;

use crate::bits::{Bits, ZERO};
use crate::text::{joined, to_two_digits, two_digits};

verus! {

/// Decoded and resampled audio data, ready for playback. `P` is the caller's type
/// of file paths.
pub struct DecodedAudio<P> {
    /// Per-channel sample data, resampled to the target sample rate.
    pub channels: Vec<Vec<Bits>>,
    /// Sample rate (matches the plugin's after resampling).
    pub sample_rate: u32,
    /// Total number of frames.
    pub total_frames: u64,
    /// Original file path (for display).
    pub file_path: P,
    /// Original file sample rate (for display).
    pub original_sample_rate: u32,
    /// Number of channels.
    pub num_channels: usize,
}

/// Playback state.
#[derive(Clone, Copy, Debug, PartialEq, Eq, Structural)]
pub struct PlaybackState {
    /// Current playback position in frames.
    pub position: u64,
    /// Is playback active.
    pub playing: bool,
    /// Loop mode enabled.
    pub looping: bool,
}

impl PlaybackState {
    /// Playback at the start of the file. It is active from the start, so that
    /// instruments are shown at once and can be paused to freeze the display.
    pub fn new() -> (r: Self)
        ensures
            r == (PlaybackState { position: 0, playing: true, looping: false }),
    {
        PlaybackState { position: 0, playing: true, looping: false }
    }

    /// Goes back to the start and stops; the loop mode stays.
    pub fn reset(&mut self)
        ensures
            *final(self) == (PlaybackState { position: 0, playing: false, ..*old(self) }),
    {
        self.position = 0;
        self.playing = false;
    }

    /// Pauses active playback and resumes paused playback.
    pub fn toggle(&mut self)
        ensures
            *final(self) == (PlaybackState { playing: !old(self).playing, ..*old(self) }),
    {
        self.playing = !self.playing;
    }

    /// Plays a file that was just loaded from its start, over and over.
    pub fn start_loaded(&mut self)
        ensures
            *final(self) == (PlaybackState { position: 0, playing: true, looping: true }),
    {
        self.position = 0;
        self.looping = true;
        self.playing = true;
    }
}

impl Default for PlaybackState {
    fn default() -> (r: Self)
        ensures
            r == (PlaybackState { position: 0, playing: false, looping: false }),
    {
        PlaybackState { position: 0, playing: false, looping: false }
    }
}

/// `Arc::clone` of the standard library: another handle to the same value.
#[verifier::external_body]
fn share<T>(handle: &Arc<T>) -> (r: Arc<T>)
    ensures
        r == *handle,
{
    handle.clone()
}

/// Complete audio file player state.
pub struct AudioFilePlayer<P> {
    /// Decoded audio data (`None` if no file is loaded).
    audio_data: Option<Arc<DecodedAudio<P>>>,
    /// The same data, kept apart for the audio thread.
    cached_audio: Option<Arc<DecodedAudio<P>>>,
    /// Playback state.
    state: PlaybackState,
}

impl<P> AudioFilePlayer<P> {
    #[verifier::type_invariant]
    spec fn in_step(self) -> bool {
        self.audio_data == self.cached_audio
    }

    /// The loaded audio.
    pub closed spec fn audio(self) -> Option<Arc<DecodedAudio<P>>> {
        self.audio_data
    }

    /// The playback state.
    pub closed spec fn playback(self) -> PlaybackState {
        self.state
    }

    /// A player without a file.
    pub fn new(state: PlaybackState) -> (r: Self)
        ensures
            r.audio() is None,
            r.playback() == state,
    {
        AudioFilePlayer { audio_data: None, cached_audio: None, state }
    }

    /// Sets new audio data, for display and for playback.
    pub fn set_audio(&mut self, audio: DecodedAudio<P>)
        ensures
            final(self).audio() == Some(Arc::new(audio)),
            final(self).playback() == old(self).playback(),
    {
        let state = self.state;
        let handle = Arc::new(audio);
        let other = share(&handle);
        *self = AudioFilePlayer { audio_data: Some(handle), cached_audio: Some(other), state };
    }

    /// The playback state.
    pub fn state(&self) -> (r: PlaybackState)
        ensures
            r == self.playback(),
    {
        self.state
    }

    /// Changes the playback state.
    pub fn set_state(&mut self, state: PlaybackState)
        ensures
            final(self).playback() == state,
            final(self).audio() == old(self).audio(),
    {
        proof {
            use_type_invariant(&*self);
        }
        self.state = state;
    }

    /// Audio data for display.
    pub fn get_audio_info(&self) -> (r: Option<Arc<DecodedAudio<P>>>)
        ensures
            r == self.audio(),
    {
        match &self.audio_data {
            Some(handle) => Some(share(handle)),
            None => None,
        }
    }

    /// Audio data for playback, without waiting for another thread: `cached_free`
    /// and `main_free` say whether the copy for the audio thread and the one for
    /// display can be read now. The former goes first; where neither can be read,
    /// there is nothing to play.
    pub fn get_audio_for_playback(&self, cached_free: bool, main_free: bool) -> (r: Option<
        Arc<DecodedAudio<P>>,
    >)
        ensures
            r == (if cached_free || main_free {
                self.audio()
            } else {
                None
            }),
    {
        proof {
            use_type_invariant(self);
        }
        if cached_free {
            return match &self.cached_audio {
                Some(handle) => Some(share(handle)),
                None => None,
            };
        }
        if main_free {
            return match &self.audio_data {
                Some(handle) => Some(share(handle)),
                None => None,
            };
        }
        None
    }
}

/// What is known of a track of a file.
#[derive(Clone, Copy, Debug, PartialEq, Eq, Structural)]
pub struct TrackInfo {
    pub id: u32,
    /// Whether the track names a codec.
    pub has_codec: bool,
    pub sample_rate: Option<u32>,
    pub channels: Option<usize>,
}

/// The track that is decoded.
#[derive(Clone, Copy, Debug, PartialEq, Eq, Structural)]
pub struct ChosenTrack {
    pub id: u32,
    pub sample_rate: u32,
    pub num_channels: usize,
}

/// Why a file could not be loaded. The text is what the reader, the decoder or the
/// resampler said.
#[derive(Debug)]
pub enum LoadError {
    Open(String),
    Probe(String),
    NoAudioTrack,
    UnknownSampleRate,
    NoDecoder(String),
    Decode(String),
    Read(String),
    NoAudioData,
    NoResampler(String),
    Resample(String),
}

/// The message for an error.
pub open spec fn message_of(e: LoadError) -> Seq<char> {
    match e {
        LoadError::Open(detail) => "Failed to open file: "@ + detail@,
        LoadError::Probe(detail) => "Failed to probe format: "@ + detail@,
        LoadError::NoAudioTrack => "No audio track found"@,
        LoadError::UnknownSampleRate => "Unknown sample rate"@,
        LoadError::NoDecoder(detail) => "Failed to create decoder: "@ + detail@,
        LoadError::Decode(detail) => "Decode error: "@ + detail@,
        LoadError::Read(detail) => "Format read error: "@ + detail@,
        LoadError::NoAudioData => "No audio data decoded"@,
        LoadError::NoResampler(detail) => "Failed to create resampler: "@ + detail@,
        LoadError::Resample(detail) => "Resample error: "@ + detail@,
    }
}

impl LoadError {
    /// The message for this error.
    pub fn message(&self) -> (r: String)
        ensures
            r@ == message_of(*self),
    {
        match self {
            LoadError::Open(detail) => joined("Failed to open file: ", detail.as_str()),
            LoadError::Probe(detail) => joined("Failed to probe format: ", detail.as_str()),
            LoadError::NoAudioTrack => "No audio track found".to_owned(),
            LoadError::UnknownSampleRate => "Unknown sample rate".to_owned(),
            LoadError::NoDecoder(detail) => joined("Failed to create decoder: ", detail.as_str()),
            LoadError::Decode(detail) => joined("Decode error: ", detail.as_str()),
            LoadError::Read(detail) => joined("Format read error: ", detail.as_str()),
            LoadError::NoAudioData => "No audio data decoded".to_owned(),
            LoadError::NoResampler(detail) => joined(
                "Failed to create resampler: ",
                detail.as_str(),
            ),
            LoadError::Resample(detail) => joined("Resample error: ", detail.as_str()),
        }
    }
}

/// The first track from `from` on that names a codec; the number of tracks where
/// there is none.
pub open spec fn first_audio_track(tracks: Seq<TrackInfo>, from: int) -> int
    decreases tracks.len() - from,
{
    if from >= tracks.len() {
        tracks.len() as int
    } else if tracks[from].has_codec {
        from
    } else {
        first_audio_track(tracks, from + 1)
    }
}

/// Chooses the first track that names a codec. A track that does not say how many
/// channels it has is taken to be stereo.
pub fn choose_track(tracks: &Vec<TrackInfo>) -> (r: Result<ChosenTrack, LoadError>)
    ensures
        ({
            let i = first_audio_track(tracks@, 0);
            if i >= tracks@.len() {
                r == Err::<ChosenTrack, LoadError>(LoadError::NoAudioTrack)
            } else {
                match tracks@[i].sample_rate {
                    None => r == Err::<ChosenTrack, LoadError>(LoadError::UnknownSampleRate),
                    Some(sample_rate) => r == Ok::<ChosenTrack, LoadError>(
                        ChosenTrack {
                            id: tracks@[i].id,
                            sample_rate,
                            num_channels: match tracks@[i].channels {
                                Some(n) => n,
                                None => 2,
                            },
                        },
                    ),
                }
            }
        }),
{
    let mut i: usize = 0;
    while i < tracks.len()
        invariant
            i <= tracks@.len(),
            first_audio_track(tracks@, 0) == first_audio_track(tracks@, i as int),
        decreases tracks@.len() - i,
    {
        if tracks[i].has_codec {
            let track = tracks[i];
            return match track.sample_rate {
                None => Err(LoadError::UnknownSampleRate),
                Some(sample_rate) => Ok(
                    ChosenTrack {
                        id: track.id,
                        sample_rate,
                        num_channels: match track.channels {
                            Some(n) => n,
                            None => 2,
                        },
                    },
                ),
            };
        }
        i = i + 1;
    }
    Err(LoadError::NoAudioTrack)
}

/// The samples of one channel among samples that are interleaved over `count`
/// channels: those whose place leaves the remainder `ch`.
pub open spec fn channel_samples(samples: Seq<Bits>, count: nat, ch: nat) -> Seq<Bits>
    decreases samples.len(),
{
    if samples.len() == 0 {
        Seq::empty()
    } else {
        let before = channel_samples(samples.drop_last(), count, ch);
        if (samples.len() - 1) as nat % count == ch {
            before.push(samples.last())
        } else {
            before
        }
    }
}

/// What the reader or the decoder reports.
#[derive(Debug)]
pub enum DecodeEvent {
    /// A packet of the given track was read.
    Packet { track_id: u32 },
    /// A packet was decoded to samples that are interleaved over this many channels.
    Decoded { samples: Vec<Bits>, channels: usize },
    /// A packet could not be decoded, but the next may be.
    BadPacket,
    /// The decoder failed for good.
    DecodeFailed(String),
    /// The file has ended.
    EndOfFile,
    /// The file could not be read.
    ReadFailed(String),
}

/// What to do next.
#[derive(Debug)]
pub enum DecodeAction {
    /// Read the next packet.
    NextPacket,
    /// Decode the packet that was just read.
    Decode,
    /// All is read.
    Finish,
    /// Give up.
    Fail(LoadError),
}

/// The decoding of one track, packet by packet.
pub struct AudioDecoding {
    pub track: ChosenTrack,
    pub channels: Vec<Vec<Bits>>,
}

/// Whether `new` is `old` with the interleaved samples sorted into it, channel by
/// channel; samples of channels that the track did not announce are dropped.
pub open spec fn sorted_in(
    old_channels: Seq<Vec<Bits>>,
    new_channels: Seq<Vec<Bits>>,
    samples: Seq<Bits>,
    count: nat,
) -> bool {
    &&& new_channels.len() == old_channels.len()
    &&& forall|c: int|
        0 <= c < old_channels.len() ==> (#[trigger] new_channels[c])@ == old_channels[c]@
            + channel_samples(samples, count, c as nat)
}

impl AudioDecoding {
    /// Starts to decode a track, with no samples in any of its channels.
    pub fn new(track: ChosenTrack) -> (r: Self)
        ensures
            r.track == track,
            r.channels@.len() == track.num_channels,
            forall|c: int|
                0 <= c < r.channels@.len() ==> (#[trigger] r.channels@[c])@ == Seq::<Bits>::empty(),
    {
        let mut channels: Vec<Vec<Bits>> = Vec::new();
        let mut c: usize = 0;
        while c < track.num_channels
            invariant
                c <= track.num_channels,
                channels@.len() == c,
                forall|k: int| 0 <= k < c ==> (#[trigger] channels@[k])@ == Seq::<Bits>::empty(),
            decreases track.num_channels - c,
        {
            channels.push(Vec::new());
            c = c + 1;
        }
        AudioDecoding { track, channels }
    }

    /// Sorts interleaved samples into the channels.
    fn sort_in(&mut self, samples: &Vec<Bits>, count: usize)
        requires
            samples@.len() > 0 ==> count > 0,
        ensures
            final(self).track == old(self).track,
            sorted_in(old(self).channels@, final(self).channels@, samples@, count as nat),
    {
        let ghost before = self.channels@;
        let mut i: usize = 0;
        proof {
            assert(samples@.take(0) =~= Seq::<Bits>::empty());
            assert forall|c: int| 0 <= c < before.len() implies (#[trigger] self.channels@[c])@
                == before[c]@ + channel_samples(samples@.take(0), count as nat, c as nat) by {
                assert(before[c]@ + Seq::<Bits>::empty() =~= before[c]@);
            }
        }
        while i < samples.len()
            invariant
                i <= samples@.len(),
                samples@.len() > 0 ==> count > 0,
                before == old(self).channels@,
                self.track == old(self).track,
                sorted_in(before, self.channels@, samples@.take(i as int), count as nat),
            decreases samples@.len() - i,
        {
            let ghost entry = self.channels@;
            let ch: usize = i % count;
            if ch < self.channels.len() {
                self.channels[ch].push(samples[i]);
            }
            proof {
                let next = samples@.take(i + 1);
                assert(next.drop_last() =~= samples@.take(i as int));
                assert(next.last() == samples@[i as int]);
                assert forall|c: int| 0 <= c < before.len() implies (#[trigger] self.channels@[c])@
                    == before[c]@ + channel_samples(next, count as nat, c as nat) by {
                    assert(entry[c]@ == before[c]@ + channel_samples(
                        samples@.take(i as int),
                        count as nat,
                        c as nat,
                    ));
                    assert(self.channels@[c]@ =~= before[c]@ + channel_samples(
                        next,
                        count as nat,
                        c as nat,
                    ));
                }
            }
            i = i + 1;
        }
        assert(samples@.take(i as int) =~= samples@);
    }

    /// Takes a report and says what to do next. Packets of other tracks and
    /// packets that cannot be decoded are passed over.
    pub fn step(&mut self, event: DecodeEvent) -> (r: DecodeAction)
        requires
            event matches DecodeEvent::Decoded { samples, channels } ==> samples@.len() > 0
                ==> channels > 0,
        ensures
            final(self).track == old(self).track,
            match event {
                DecodeEvent::Packet { track_id } => *final(self) == *old(self) && r == (
                if track_id == old(self).track.id {
                    DecodeAction::Decode
                } else {
                    DecodeAction::NextPacket
                }),
                DecodeEvent::Decoded { samples, channels } => sorted_in(
                    old(self).channels@,
                    final(self).channels@,
                    samples@,
                    channels as nat,
                ) && r == DecodeAction::NextPacket,
                DecodeEvent::BadPacket => *final(self) == *old(self) && r
                    == DecodeAction::NextPacket,
                DecodeEvent::DecodeFailed(detail) => *final(self) == *old(self) && r
                    == DecodeAction::Fail(LoadError::Decode(detail)),
                DecodeEvent::EndOfFile => *final(self) == *old(self) && r == DecodeAction::Finish,
                DecodeEvent::ReadFailed(detail) => *final(self) == *old(self) && r
                    == DecodeAction::Fail(LoadError::Read(detail)),
            },
    {
        match event {
            DecodeEvent::Packet { track_id } => {
                if track_id == self.track.id {
                    DecodeAction::Decode
                } else {
                    DecodeAction::NextPacket
                }
            },
            DecodeEvent::Decoded { samples, channels } => {
                self.sort_in(&samples, channels);
                DecodeAction::NextPacket
            },
            DecodeEvent::BadPacket => DecodeAction::NextPacket,
            DecodeEvent::DecodeFailed(detail) => DecodeAction::Fail(LoadError::Decode(detail)),
            DecodeEvent::EndOfFile => DecodeAction::Finish,
            DecodeEvent::ReadFailed(detail) => DecodeAction::Fail(LoadError::Read(detail)),
        }
    }

    /// Whether the decoded samples still have to be resampled; an error where
    /// there are none.
    pub fn needs_resampling(&self, target_sample_rate: u32) -> (r: Result<bool, LoadError>)
        ensures
            r == (if self.channels@.len() == 0 || self.channels@[0]@.len() == 0 {
                Err(LoadError::NoAudioData)
            } else {
                Ok(self.track.sample_rate != target_sample_rate)
            }),
    {
        if self.channels.len() == 0 || self.channels[0].len() == 0 {
            return Err(LoadError::NoAudioData);
        }
        Ok(self.track.sample_rate != target_sample_rate)
    }
}

/// Puts loaded audio together: as many frames as the first channel has.
pub fn assemble<P>(
    track: ChosenTrack,
    channels: Vec<Vec<Bits>>,
    target_sample_rate: u32,
    file_path: P,
) -> (r: DecodedAudio<P>)
    ensures
        r == (DecodedAudio {
            channels,
            sample_rate: target_sample_rate,
            total_frames: (if channels@.len() > 0 {
                channels@[0]@.len()
            } else {
                0
            }) as u64,
            file_path,
            original_sample_rate: track.sample_rate,
            num_channels: track.num_channels,
        }),
{
    let total_frames: u64 = if channels.len() > 0 {
        channels[0].len() as u64
    } else {
        0
    };
    DecodedAudio {
        channels,
        sample_rate: target_sample_rate,
        total_frames,
        file_path,
        original_sample_rate: track.sample_rate,
        num_channels: track.num_channels,
    }
}

/// The frame of the file that is played `k` frames after the present position;
/// `None` behind the end of a file that is not looped. Of a looped file that is said to
/// have no frames, the first one is played each time.
pub open spec fn frame_at(state: PlaybackState, total: nat, k: nat) -> Option<nat> {
    if state.looping && total == 0 {
        Some(0)
    } else if state.looping {
        Some(((if state.position < total {
            state.position as nat
        } else {
            0
        }) + k) % total)
    } else if state.position + k < total {
        Some(state.position as nat + k)
    } else {
        None
    }
}

/// The channel of the file that is played on output `ch`: the same one, or the
/// last where the file has fewer.
pub open spec fn source_channel(channels: nat, ch: int) -> int {
    if ch < channels {
        ch
    } else {
        channels - 1
    }
}

/// The number of frames that a buffer holds: those of its first channel.
pub open spec fn buffer_frames(buffer: Seq<Vec<Bits>>) -> nat {
    if buffer.len() > 0 {
        buffer[0]@.len()
    } else {
        0
    }
}

/// Whether the channel of a file that is played on output `ch` has the frame that is
/// played `k` frames after the present position, if there is one.
pub open spec fn frame_is_there<P>(
    audio: DecodedAudio<P>,
    state: PlaybackState,
    ch: int,
    k: int,
) -> bool {
    match frame_at(state, audio.total_frames as nat, k as nat) {
        Some(frame) => frame < audio.channels@[source_channel(audio.channels@.len(), ch)]@.len(),
        None => true,
    }
}

/// Whether a file can fill a buffer: every frame that is played is there, and every
/// channel of the buffer has room for as many frames as the first.
pub open spec fn can_fill<P>(
    audio: DecodedAudio<P>,
    state: PlaybackState,
    buffer: Seq<Vec<Bits>>,
) -> bool {
    &&& forall|c: int|
        0 <= c < buffer.len() ==> (#[trigger] buffer[c])@.len() >= buffer_frames(buffer)
    &&& forall|c: int, k: int|
        0 <= c < buffer.len() && 0 <= k < buffer_frames(buffer) ==> #[trigger] frame_is_there(
            audio,
            state,
            c,
            k,
        )
}

/// Whether there is something to play into a buffer.
pub open spec fn plays<P>(
    audio: DecodedAudio<P>,
    state: PlaybackState,
    buffer: Seq<Vec<Bits>>,
) -> bool {
    state.playing && buffer_frames(buffer) > 0 && audio.channels@.len() > 0
}

/// A sample of the buffer after it was filled.
pub open spec fn filled_sample<P>(
    audio: DecodedAudio<P>,
    state: PlaybackState,
    ch: int,
    k: int,
) -> Bits {
    match frame_at(state, audio.total_frames as nat, k as nat) {
        Some(frame) => audio.channels@[source_channel(audio.channels@.len(), ch)]@[frame as int],
        None => ZERO,
    }
}

/// Playback after `n > 0` frames were played: the position is behind the last frame
/// that was played, and a file that is not looped stops where the frames ran out.
pub open spec fn state_after(state: PlaybackState, total: nat, n: nat) -> PlaybackState {
    if state.looping {
        PlaybackState {
            position: (frame_at(state, total, (n - 1) as nat)->0 + 1) as u64,
            ..state
        }
    } else if state.position + n <= total {
        PlaybackState { position: (state.position + n) as u64, ..state }
    } else {
        PlaybackState {
            position: if state.position < total {
                total as u64
            } else {
                state.position
            },
            playing: false,
            ..state
        }
    }
}

/// The frame after a frame of a looped file.
proof fn lemma_next_frame(a: nat, total: nat)
    requires
        total > 0,
    ensures
        (a + 1) % total == (if a % total + 1 == total {
            0
        } else {
            a % total + 1
        }),
{
    let q = (a / total) as int;
    let t = total as int;
    assert(a == q * t + a % total) by {
        vstd::arithmetic::div_mod::lemma_fundamental_div_mod(a as int, t);
        assert(t * q == q * t) by (nonlinear_arith);
    }
    if a % total + 1 == total {
        assert(a + 1 == (q + 1) * t) by {
            assert((q + 1) * t == q * t + t) by (nonlinear_arith);
        }
        vstd::arithmetic::div_mod::lemma_fundamental_div_mod_converse((a + 1) as int, t, q + 1, 0);
    } else {
        vstd::arithmetic::div_mod::lemma_fundamental_div_mod_converse(
            (a + 1) as int,
            t,
            q,
            (a % total + 1) as int,
        );
    }
}

/// Whether the first `n` frames of a buffer are filled and the rest is as it was.
spec fn filled_up_to<P>(
    audio: DecodedAudio<P>,
    state: PlaybackState,
    before: Seq<Vec<Bits>>,
    now: Seq<Vec<Bits>>,
    n: int,
) -> bool {
    &&& now.len() == before.len()
    &&& forall|c: int|
        #![trigger now[c]]
        0 <= c < before.len() ==> {
            &&& now[c]@.len() == before[c]@.len()
            &&& forall|k: int|
                0 <= k < before[c]@.len() ==> #[trigger] now[c]@[k] == (if k < n {
                    filled_sample(audio, state, c, k)
                } else {
                    before[c]@[k]
                })
        }
}

/// Writes one frame of the file to every channel of a buffer.
fn copy_frame<P>(audio: &DecodedAudio<P>, frame: usize, buffer: &mut Vec<Vec<Bits>>, at: usize)
    requires
        audio.channels@.len() > 0,
        forall|c: int|
            0 <= c < old(buffer)@.len() ==> frame < audio.channels@[#[trigger] source_channel(
                audio.channels@.len(),
                c,
            )]@.len(),
        forall|c: int| 0 <= c < old(buffer)@.len() ==> at < (#[trigger] old(buffer)@[c])@.len(),
    ensures
        final(buffer)@.len() == old(buffer)@.len(),
        forall|c: int|
            0 <= c < old(buffer)@.len() ==> (#[trigger] final(buffer)@[c])@ == old(
                buffer,
            )@[c]@.update(
                at as int,
                audio.channels@[source_channel(audio.channels@.len(), c)]@[frame as int],
            ),
{
    let ghost before = buffer@;
    let mut ch: usize = 0;
    while ch < buffer.len()
        invariant
            ch <= buffer@.len(),
            before == old(buffer)@,
            buffer@.len() == before.len(),
            audio.channels@.len() > 0,
            forall|c: int|
                0 <= c < before.len() ==> frame < audio.channels@[#[trigger] source_channel(
                    audio.channels@.len(),
                    c,
                )]@.len(),
            forall|c: int| 0 <= c < before.len() ==> at < (#[trigger] before[c])@.len(),
            forall|c: int| ch <= c < before.len() ==> buffer@[c] == #[trigger] before[c],
            forall|c: int|
                0 <= c < ch ==> (#[trigger] buffer@[c])@ == before[c]@.update(
                    at as int,
                    audio.channels@[source_channel(audio.channels@.len(), c)]@[frame as int],
                ),
        decreases buffer@.len() - ch,
    {
        assert(buffer@[ch as int] == before[ch as int]);
        let source: usize = if ch < audio.channels.len() {
            ch
        } else {
            audio.channels.len() - 1
        };
        assert(source == source_channel(audio.channels@.len(), ch as int));
        let sample: Bits = audio.channels[source][frame];
        buffer[ch].set(at, sample);
        ch = ch + 1;
    }
}

/// Silences the frames `from..to` of every channel of a buffer.
fn silence(buffer: &mut Vec<Vec<Bits>>, from: usize, to: usize)
    requires
        from <= to,
        forall|c: int| 0 <= c < old(buffer)@.len() ==> to <= (#[trigger] old(buffer)@[c])@.len(),
    ensures
        final(buffer)@.len() == old(buffer)@.len(),
        forall|c: int|
            #![trigger final(buffer)@[c]]
            0 <= c < old(buffer)@.len() ==> {
                &&& final(buffer)@[c]@.len() == old(buffer)@[c]@.len()
                &&& forall|k: int|
                    0 <= k < old(buffer)@[c]@.len() ==> #[trigger] final(buffer)@[c]@[k] == (if from
                        <= k < to {
                        ZERO
                    } else {
                        old(buffer)@[c]@[k]
                    })
            },
{
    let ghost before = buffer@;
    let mut ch: usize = 0;
    while ch < buffer.len()
        invariant
            ch <= buffer@.len(),
            before == old(buffer)@,
            buffer@.len() == before.len(),
            from <= to,
            forall|c: int| 0 <= c < before.len() ==> to <= (#[trigger] before[c])@.len(),
            forall|c: int| ch <= c < before.len() ==> buffer@[c] == #[trigger] before[c],
            forall|c: int|
                #![trigger buffer@[c]]
                0 <= c < ch ==> {
                    &&& buffer@[c]@.len() == before[c]@.len()
                    &&& forall|k: int|
                        0 <= k < before[c]@.len() ==> #[trigger] buffer@[c]@[k] == (if from <= k
                            < to {
                            ZERO
                        } else {
                            before[c]@[k]
                        })
                },
        decreases buffer@.len() - ch,
    {
        assert(buffer@[ch as int] == before[ch as int]);
        let mut k: usize = from;
        while k < to
            invariant
                from <= k <= to,
                ch < buffer@.len(),
                buffer@.len() == before.len(),
                to <= before[ch as int]@.len(),
                buffer@[ch as int]@.len() == before[ch as int]@.len(),
                forall|j: int|
                    0 <= j < before[ch as int]@.len() ==> #[trigger] buffer@[ch as int]@[j] == (
                    if from <= j < k {
                        ZERO
                    } else {
                        before[ch as int]@[j]
                    }),
                forall|c: int| ch < c < before.len() ==> buffer@[c] == #[trigger] before[c],
                forall|c: int|
                    #![trigger buffer@[c]]
                    0 <= c < ch ==> {
                        &&& buffer@[c]@.len() == before[c]@.len()
                        &&& forall|j: int|
                            0 <= j < before[c]@.len() ==> #[trigger] buffer@[c]@[j] == (if from
                                <= j < to {
                                ZERO
                            } else {
                                before[c]@[j]
                            })
                    },
            decreases to - k,
        {
            buffer[ch].set(k, ZERO);
            k = k + 1;
        }
        ch = ch + 1;
    }
}

/// The number of frames that every channel of a file has that is played on one of the
/// first `outputs` outputs, of which there is at least one.
fn shortest_channel<P>(audio: &DecodedAudio<P>, outputs: usize) -> (r: usize)
    requires
        audio.channels@.len() > 0,
        outputs > 0,
    ensures
        forall|c: int|
            0 <= c < outputs ==> r <= audio.channels@[#[trigger] source_channel(
                audio.channels@.len(),
                c,
            )]@.len(),
        exists|c: int|
            0 <= c < outputs && r == audio.channels@[#[trigger] source_channel(
                audio.channels@.len(),
                c,
            )]@.len(),
{
    let mut r: usize = audio.channels[0].len();
    assert(source_channel(audio.channels@.len(), 0) == 0);
    let mut ch: usize = 1;
    while ch < outputs
        invariant
            1 <= ch <= outputs,
            audio.channels@.len() > 0,
            forall|c: int|
                0 <= c < ch ==> r <= audio.channels@[#[trigger] source_channel(
                    audio.channels@.len(),
                    c,
                )]@.len(),
            exists|c: int|
                0 <= c < ch && r == audio.channels@[#[trigger] source_channel(
                    audio.channels@.len(),
                    c,
                )]@.len(),
        decreases outputs - ch,
    {
        let source: usize = if ch < audio.channels.len() {
            ch
        } else {
            audio.channels.len() - 1
        };
        assert(source == source_channel(audio.channels@.len(), ch as int));
        let len: usize = audio.channels[source].len();
        if len < r {
            r = len;
        }
        ch = ch + 1;
    }
    r
}

/// Whether a buffer can be filled from decoded audio data, or there is nothing to play
/// into it.
pub fn is_playable<P>(
    audio: &DecodedAudio<P>,
    state: &PlaybackState,
    buffer: &Vec<Vec<Bits>>,
) -> (r: bool)
    ensures
        r == (plays(*audio, *state, buffer@) ==> can_fill(*audio, *state, buffer@)),
{
    if !state.playing || buffer.len() == 0 || buffer[0].len() == 0 || audio.channels.len() == 0 {
        return true;
    }
    let frames: usize = buffer[0].len();
    let mut ch: usize = 0;
    while ch < buffer.len()
        invariant
            ch <= buffer@.len(),
            frames == buffer_frames(buffer@),
            plays(*audio, *state, buffer@),
            forall|c: int| 0 <= c < ch ==> (#[trigger] buffer@[c])@.len() >= frames,
        decreases buffer@.len() - ch,
    {
        if buffer[ch].len() < frames {
            assert(buffer@[ch as int]@.len() < frames);
            return false;
        }
        ch = ch + 1;
    }
    let shortest: usize = shortest_channel(audio, buffer.len());
    let total: u64 = audio.total_frames;
    let ghost total_frames = total as nat;
    let looping: bool = state.looping;
    let mut pos: u64 = state.position;
    let mut k: usize = 0;
    while k < frames
        invariant
            k <= frames,
            frames == buffer_frames(buffer@),
            buffer@.len() > 0,
            plays(*audio, *state, buffer@),
            looping == state.looping,
            total == audio.total_frames,
            total_frames == total as nat,
            forall|c: int| 0 <= c < buffer@.len() ==> (#[trigger] buffer@[c])@.len() >= frames,
            forall|c: int|
                0 <= c < buffer@.len() ==> shortest <= audio.channels@[#[trigger] source_channel(
                    audio.channels@.len(),
                    c,
                )]@.len(),
            exists|c: int|
                0 <= c < buffer@.len() && shortest == audio.channels@[#[trigger] source_channel(
                    audio.channels@.len(),
                    c,
                )]@.len(),
            k == 0 ==> pos == state.position,
            k > 0 && looping ==> pos == frame_at(*state, total_frames, (k - 1) as nat)->0 + 1,
            k > 0 && !looping ==> pos == state.position + k && pos <= total,
            forall|c: int, j: int|
                0 <= c < buffer@.len() && 0 <= j < k ==> #[trigger] frame_is_there(
                    *audio,
                    *state,
                    c,
                    j,
                ),
        decreases frames - k,
    {
        if pos >= total {
            if looping {
                pos = 0;
            } else {
                return true;
            }
        }
        proof {
            if looping && total_frames > 0 {
                let first = if state.position < total_frames {
                    state.position as nat
                } else {
                    0
                };
                if k > 0 {
                    lemma_next_frame((first + k - 1) as nat, total_frames);
                } else {
                    vstd::arithmetic::div_mod::lemma_small_mod(first, total_frames);
                }
            }
            assert(frame_at(*state, total_frames, k as nat) == Some(pos as nat));
        }
        if pos >= shortest as u64 {
            proof {
                let c = choose|c: int|
                    0 <= c < buffer@.len() && shortest == audio.channels@[#[trigger] source_channel(
                        audio.channels@.len(),
                        c,
                    )]@.len();
                assert(!frame_is_there(*audio, *state, c, k as int));
            }
            return false;
        }
        assert forall|c: int| 0 <= c < buffer@.len() implies #[trigger] frame_is_there(
            *audio,
            *state,
            c,
            k as int,
        ) by {
            assert(shortest <= audio.channels@[source_channel(
                audio.channels@.len(),
                c,
            )]@.len());
        }
        pos = pos + 1;
        k = k + 1;
    }
    true
}

/// Fills a buffer from decoded audio data, the same channel on every output that
/// the file has none for. Returns whether playback goes on: it does not where it
/// is paused, where there is no audio and where the file ends in this buffer; then
/// the rest of the buffer is silent.
pub fn fill_buffer_from_audio<P>(
    audio: &DecodedAudio<P>,
    state: &mut PlaybackState,
    buffer: &mut Vec<Vec<Bits>>,
) -> (r: bool)
    requires
        plays(*audio, *old(state), old(buffer)@) ==> can_fill(*audio, *old(state), old(buffer)@),
    ensures
        !plays(*audio, *old(state), old(buffer)@) ==> {
            &&& *final(state) == *old(state)
            &&& final(buffer)@ == old(buffer)@
            &&& r == (old(state).playing && buffer_frames(old(buffer)@) == 0)
        },
        plays(*audio, *old(state), old(buffer)@) ==> {
            &&& *final(state) == state_after(
                *old(state),
                audio.total_frames as nat,
                buffer_frames(old(buffer)@),
            )
            &&& r == final(state).playing
            &&& final(buffer)@.len() == old(buffer)@.len()
            &&& forall|c: int|
                #![trigger final(buffer)@[c]]
                0 <= c < old(buffer)@.len() ==> {
                    &&& final(buffer)@[c]@.len() == old(buffer)@[c]@.len()
                    &&& forall|k: int|
                        0 <= k < old(buffer)@[c]@.len() ==> #[trigger] final(buffer)@[c]@[k] == (if k
                            < buffer_frames(old(buffer)@) {
                            filled_sample(*audio, *old(state), c, k)
                        } else {
                            old(buffer)@[c]@[k]
                        })
                }
        },
        old(state).playing && !old(state).looping && audio.channels@.len() > 0 ==> forall|
            c: int,
            k: int,
        |
            0 <= c < old(buffer)@.len() && 0 <= k < old(buffer)@[0]@.len()
                ==> #[trigger] final(buffer)@[c]@[k] == (if old(state).position + k < audio.total_frames {
                audio.channels@[if c < audio.channels@.len() {
                    c
                } else {
                    audio.channels@.len() - 1
                }]@[old(state).position + k]
            } else {
                0
            }),
{
    if !state.playing {
        return false;
    }
    let num_samples: usize = if buffer.len() > 0 {
        buffer[0].len()
    } else {
        0
    };
    if num_samples == 0 {
        return true;
    }
    if audio.channels.len() == 0 {
        return false;
    }
    let ghost start = *state;
    let ghost total_frames = audio.total_frames as nat;
    let ghost before = buffer@;
    let mut pos: u64 = state.position;
    let total: u64 = audio.total_frames;
    let looping: bool = state.looping;
    let mut k: usize = 0;
    while k < num_samples
        invariant
            k <= num_samples,
            num_samples > 0,
            start == *old(state),
            start == *state,
            start.playing,
            looping == start.looping,
            total == audio.total_frames,
            total_frames == total as nat,
            before == old(buffer)@,
            num_samples == buffer_frames(before),
            plays(*audio, start, before),
            can_fill(*audio, start, before),
            k == 0 ==> pos == start.position,
            k > 0 && looping ==> pos == frame_at(start, total_frames, (k - 1) as nat)->0 + 1,
            k > 0 && !looping ==> pos == start.position + k && pos <= total,
            filled_up_to(*audio, start, before, buffer@, k as int),
        decreases num_samples - k,
    {
        if pos >= total {
            if looping {
                pos = 0;
            } else {
                state.playing = false;
                let ghost entry = buffer@;
                silence(buffer, k, num_samples);
                state.position = pos;
                assert(filled_up_to(*audio, start, before, buffer@, num_samples as int));
                return false;
            }
        }
        proof {
            if looping && total_frames > 0 {
                let first = if start.position < total_frames {
                    start.position as nat
                } else {
                    0
                };
                if k > 0 {
                    lemma_next_frame((first + k - 1) as nat, total_frames);
                } else {
                    vstd::arithmetic::div_mod::lemma_small_mod(first, total_frames);
                }
            }
            assert(frame_at(start, total_frames, k as nat) == Some(pos as nat));
            assert(frame_is_there(*audio, start, 0, k as int));
            assert(pos < audio.channels@[source_channel(audio.channels@.len(), 0)].len());
            assert forall|c: int| 0 <= c < buffer@.len() implies pos
                < audio.channels@[#[trigger] source_channel(audio.channels@.len(), c)]@.len() by {
                assert(frame_is_there(*audio, start, c, k as int));
            }
            assert forall|c: int| 0 <= c < buffer@.len() implies k < (#[trigger] buffer@[c])@.len() by {
                assert(before[c]@.len() >= num_samples);
            }
        }
        let ghost entry = buffer@;
        copy_frame(audio, pos as usize, buffer, k);
        proof {
            assert forall|c: int|
                #![trigger buffer@[c]]
                0 <= c < before.len() implies buffer@[c]@.len() == before[c]@.len() && forall|j: int|
                0 <= j < before[c]@.len() ==> #[trigger] buffer@[c]@[j] == (if j < k + 1 {
                    filled_sample(*audio, start, c, j)
                } else {
                    before[c]@[j]
                }) by {
                assert(entry[c]@.len() == before[c]@.len());
                assert forall|j: int| 0 <= j < before[c]@.len() implies #[trigger] buffer@[c]@[j]
                    == (if j < k + 1 {
                    filled_sample(*audio, start, c, j)
                } else {
                    before[c]@[j]
                }) by {
                    assert(entry[c]@[j] == (if j < k {
                        filled_sample(*audio, start, c, j)
                    } else {
                        before[c]@[j]
                    }));
                }
            }
        }
        pos = pos + 1;
        k = k + 1;
    }
    state.position = pos;
    true
}

/// A duration as minutes and seconds, `MM:SS`.
pub fn format_duration(minutes: u32, seconds: u32) -> (r: String)
    ensures
        r@ == two_digits(minutes as nat) + seq![':'] + two_digits(seconds as nat),
{
    let mut start = to_two_digits(minutes as u64);
    start.push(':');
    assert(start@ =~= two_digits(minutes as nat) + seq![':']);
    let end = to_two_digits(seconds as u64);
    joined(start.as_str(), end.as_str())
}

/// There is something to play where playback is active, the buffer has room and the file
/// has a channel; and the buffer can be filled where every channel of it is as long as
/// the first and every frame that is played is in the channel it is taken from.
pub proof fn law_what_can_be_played<P>(
    audio: DecodedAudio<P>,
    state: PlaybackState,
    buffer: Seq<Vec<Bits>>,
)
    ensures
        plays(audio, state, buffer) <==> state.playing && buffer.len() > 0 && buffer[0]@.len() > 0
            && audio.channels@.len() > 0,
        buffer.len() > 0 ==> buffer_frames(buffer) == buffer[0]@.len(),
        plays(audio, state, buffer) && (forall|c: int|
            0 <= c < buffer.len() ==> (#[trigger] buffer[c])@.len() >= buffer[0]@.len()) && (forall|c: int|
            0 <= c < audio.channels@.len() ==> (#[trigger] audio.channels@[c])@.len()
                >= audio.total_frames && audio.channels@[c]@.len() > 0) ==> can_fill(
            audio,
            state,
            buffer,
        ),
{
    if plays(audio, state, buffer) && (forall|c: int|
        0 <= c < audio.channels@.len() ==> (#[trigger] audio.channels@[c])@.len()
            >= audio.total_frames && audio.channels@[c]@.len() > 0) {
        assert forall|c: int, k: int|
            0 <= c < buffer.len() && 0 <= k < buffer_frames(buffer) implies #[trigger] frame_is_there(
            audio,
            state,
            c,
            k,
        ) by {
            let source = source_channel(audio.channels@.len(), c);
            assert(audio.channels@[source]@.len() >= audio.total_frames);
            if !(state.looping && audio.total_frames == 0) {
                law_frames_are_in_the_file(state, audio.total_frames as nat, k as nat);
            }
        }
    }
}

/// Exactly what has to be there to fill a buffer: as much room in every channel as in the
/// first, and every frame that is played in the channel it is taken from.
pub proof fn law_only_played_frames_are_needed<P>(
    audio: DecodedAudio<P>,
    state: PlaybackState,
    buffer: Seq<Vec<Bits>>,
    ch: int,
    k: int,
)
    requires
        0 <= ch,
        0 <= k,
        audio.channels@.len() > 0,
    ensures
        can_fill(audio, state, buffer) <==> (forall|c: int|
            0 <= c < buffer.len() ==> (#[trigger] buffer[c])@.len() >= buffer[0]@.len()) && (forall|
            c: int,
            i: int,
        |
            0 <= c < buffer.len() && 0 <= i < buffer[0]@.len() ==> #[trigger] frame_is_there(
                audio,
                state,
                c,
                i,
            )),
        ({
            let total = audio.total_frames as int;
            let position = state.position as int;
            let have = audio.channels@[if ch < audio.channels@.len() {
                ch
            } else {
                audio.channels@.len() - 1
            }]@.len();
            &&& !state.looping ==> (frame_is_there(audio, state, ch, k) <==> (position + k < total
                ==> position + k < have))
            &&& state.looping && total > 0 && position < total ==> (frame_is_there(
                audio,
                state,
                ch,
                k,
            ) <==> (position + k) % total < have)
            &&& state.looping && total > 0 && position >= total ==> (frame_is_there(
                audio,
                state,
                ch,
                k,
            ) <==> k % total < have)
            &&& state.looping && total == 0 ==> (frame_is_there(audio, state, ch, k) <==> have > 0)
        }),
{
}

/// Successive samples are successive frames of the file: without looping, the sample at
/// place `k` of an output is the one `k` frames behind the position, taken from the
/// channel of the same number or from the last, and behind the end there is silence; with
/// looping, the frames are counted on from the position, or from the start where that is
/// behind the end, and begin again at the end.
pub proof fn law_successive_samples_are_successive_frames<P>(
    audio: DecodedAudio<P>,
    state: PlaybackState,
    ch: int,
    k: int,
)
    requires
        0 <= ch,
        0 <= k,
        audio.channels@.len() > 0,
    ensures
        ({
            let total = audio.total_frames as int;
            let position = state.position as int;
            let source = audio.channels@[if ch < audio.channels@.len() {
                ch
            } else {
                audio.channels@.len() - 1
            }]@;
            let sample = filled_sample(audio, state, ch, k);
            &&& !state.looping && position + k < total ==> sample == source[position + k]
            &&& !state.looping && position + k >= total ==> sample == 0
            &&& state.looping && total > 0 && position < total ==> sample == source[(position + k)
                % total]
            &&& state.looping && total > 0 && position >= total ==> sample == source[k % total]
            &&& state.looping && total == 0 ==> sample == source[0]
        }),
{
}

/// Playback of `n` frames moves the position on by as many, stopping at the end where
/// frames ran out; only then it stops. A looped file goes on, from behind the frame that
/// was played last. Looping is never switched.
pub proof fn law_position_moves_on(state: PlaybackState, total: nat, n: nat)
    requires
        n > 0,
        total <= u64::MAX,
    ensures
        ({
            let after = state_after(state, total, n);
            let start = if state.position < total {
                state.position as int
            } else {
                0
            };
            &&& after.looping == state.looping
            &&& !state.looping && state.position + n <= total ==> after.position == state.position
                + n && after.playing == state.playing
            &&& !state.looping && state.position + n > total ==> !after.playing && after.position
                == (if state.position < total {
                total as int
            } else {
                state.position as int
            })
            &&& state.looping ==> after.playing == state.playing
            &&& state.looping && total > 0 ==> after.position == (start + n - 1) % total as int + 1
            &&& state.looping && total == 0 ==> after.position == 1
        }),
{
    if state.looping && total > 0 {
        let start = if state.position < total {
            state.position as int
        } else {
            0
        };
        vstd::arithmetic::div_mod::lemma_mod_bound(start + n - 1, total as int);
    }
}

/// The track that is chosen is the first that names a codec: none comes before it, and
/// there is none exactly if no track names one.
pub proof fn law_first_track_with_a_codec_is_chosen(tracks: Seq<TrackInfo>, from: int, k: int)
    requires
        0 <= from <= tracks.len(),
    ensures
        ({
            let i = first_audio_track(tracks, from);
            &&& from <= i <= tracks.len()
            &&& i < tracks.len() ==> tracks[i].has_codec
            &&& from <= k < i ==> !tracks[k].has_codec
        }),
    decreases tracks.len() - from,
{
    if from < tracks.len() && !tracks[from].has_codec {
        law_first_track_with_a_codec_is_chosen(tracks, from + 1, k);
    }
}

/// Samples are sorted by their place: the `f`-th new sample of channel `c` is the `c`-th
/// sample of the `f`-th frame, and there are as many as the samples hold; what a channel
/// held before stays in front of them.
pub proof fn law_samples_are_sorted_by_place(
    before: Seq<Vec<Bits>>,
    after: Seq<Vec<Bits>>,
    samples: Seq<Bits>,
    count: nat,
    c: int,
    f: int,
)
    requires
        sorted_in(before, after, samples, count),
        0 <= c < before.len(),
        0 <= f,
        count > 0,
    ensures
        after.len() == before.len(),
        after[c]@.len() >= before[c]@.len(),
        after[c]@.take(before[c]@.len() as int) == before[c]@,
        c < count ==> (f < after[c]@.len() - before[c]@.len() <==> f * count + c < samples.len()),
        c < count && f * count + c < samples.len() ==> after[c]@[before[c]@.len() + f] == samples[f
            * count + c],
        c >= count ==> after[c]@ == before[c]@,
{
    assert(after[c]@ == before[c]@ + channel_samples(samples, count, c as nat));
    assert(after[c]@.take(before[c]@.len() as int) =~= before[c]@);
    lemma_channel_samples(samples, count, c as nat, f as nat);
    if c >= count {
        assert(after[c]@ =~= before[c]@);
    }
}

/// The samples of one channel, by their places.
proof fn lemma_channel_samples(samples: Seq<Bits>, count: nat, ch: nat, f: nat)
    requires
        count > 0,
    ensures
        ch < count ==> (f < channel_samples(samples, count, ch).len() <==> f * count + ch
            < samples.len()),
        ch < count && f * count + ch < samples.len() ==> channel_samples(samples, count, ch)[f as int]
            == samples[(f * count + ch) as int],
        ch >= count ==> channel_samples(samples, count, ch).len() == 0,
    decreases samples.len(),
{
    if samples.len() == 0 {
        assert(0 <= f * count) by (nonlinear_arith);
    } else {
        let rest = samples.drop_last();
        let place = (samples.len() - 1) as nat;
        let before = channel_samples(rest, count, ch);
        lemma_channel_samples(rest, count, ch, f);
        vstd::arithmetic::div_mod::lemma_mod_bound(place as int, count as int);
        if ch < count {
            let q = place / count;
            vstd::arithmetic::div_mod::lemma_fundamental_div_mod(place as int, count as int);
            assert(count * q == q * count) by (nonlinear_arith);
            if place % count == ch {
                lemma_channel_samples(rest, count, ch, q);
                assert(before.len() <= q);
                if q > 0 {
                    lemma_channel_samples(rest, count, ch, (q - 1) as nat);
                    assert((q - 1) * count + count == q * count) by (nonlinear_arith);
                }
                assert(before.len() == q);
                if f < q {
                    assert(f * count + count <= q * count) by (nonlinear_arith)
                        requires
                            f < q,
                    ;
                } else if f > q {
                    assert(f * count >= q * count + count) by (nonlinear_arith)
                        requires
                            f > q,
                    ;
                }
            } else {
                if f * count + ch == place {
                    vstd::arithmetic::div_mod::lemma_fundamental_div_mod_converse(
                        place as int,
                        count as int,
                        f as int,
                        ch as int,
                    );
                }
            }
        }
    }
}

/// Playback goes on where it was: what is played after a buffer of `n` frames is
/// what would have been played after `n` more frames without a break, so that no
/// frame is skipped or repeated between buffers.
pub proof fn law_buffers_join_without_gap(state: PlaybackState, total: nat, n: nat, k: nat)
    requires
        n > 0,
        total <= u64::MAX,
        state_after(state, total, n).playing,
    ensures
        frame_at(state_after(state, total, n), total, k) == frame_at(state, total, n + k),
{
    if state.looping && total > 0 {
        let first = if state.position < total {
            state.position as nat
        } else {
            0
        };
        let last = (first + n - 1) as nat;
        vstd::arithmetic::div_mod::lemma_mod_bound(last as int, total as int);
        lemma_next_frame(last, total);
        vstd::arithmetic::div_mod::lemma_add_mod_noop_right(
            k as int,
            (first + n) as int,
            total as int,
        );
    }
}

/// A file that has ended stays where it ended, at its end or where the position
/// was set behind it, and everything after that is silent.
pub proof fn law_ended_files_are_silent(state: PlaybackState, total: nat, n: nat, k: nat)
    requires
        n > 0,
        total <= u64::MAX,
        !state.looping,
        !state_after(state, total, n).playing,
        state.playing,
    ensures
        state_after(state, total, n).position >= total,
        frame_at(state_after(state, total, n), total, k) is None,
{
}

/// Playback never reads behind the end of a file, unless one that is said to have no
/// frames is looped.
pub proof fn law_frames_are_in_the_file(state: PlaybackState, total: nat, k: nat)
    requires
        state.looping ==> total > 0,
    ensures
        frame_at(state, total, k) matches Some(frame) ==> frame < total,
{
    if state.looping {
        let first = if state.position < total {
            state.position as nat
        } else {
            0
        };
        vstd::arithmetic::div_mod::lemma_mod_bound((first + k) as int, total as int);
    }
}

/// Sorting interleaved samples keeps every frame together: of `frames` whole
/// frames every channel gets one sample per frame, in order.
pub proof fn law_sorting_keeps_frames(samples: Seq<Bits>, count: nat, ch: nat, frames: nat)
    requires
        ch < count,
        samples.len() == frames * count,
    ensures
        channel_samples(samples, count, ch).len() == frames,
        forall|f: int|
            0 <= f < frames ==> #[trigger] channel_samples(samples, count, ch)[f] == samples[f
                * count + ch],
    decreases frames,
{
    if frames > 0 {
        let whole = ((frames - 1) * count) as nat;
        assert(frames * count == (frames - 1) * count + count) by (nonlinear_arith)
            requires
                frames > 0,
        ;
        assert(0 <= (frames - 1) * count) by (nonlinear_arith)
            requires
                frames > 0,
        ;
        law_sorting_keeps_frames(samples.take(whole as int), count, ch, (frames - 1) as nat);
        lemma_last_frame(samples, count, ch, (frames - 1) as nat, count);
        assert(samples.take((whole + count) as int) =~= samples);
        assert forall|f: int| 0 <= f < frames implies #[trigger] channel_samples(
            samples,
            count,
            ch,
        )[f] == samples[f * count + ch] by {
            if f < frames - 1 {
                assert(f * count + ch < (frames - 1) * count) by (nonlinear_arith)
                    requires
                        0 <= f < frames - 1,
                        ch < count,
                ;
                assert(0 <= f * count) by (nonlinear_arith)
                    requires
                        0 <= f,
                ;
                assert(channel_samples(samples.take(whole as int), count, ch)[f] == samples.take(
                    whole as int,
                )[f * count + ch]);
            }
        }
    } else {
        assert(samples.len() == 0) by (nonlinear_arith)
            requires
                samples.len() == frames * count,
                frames == 0,
        ;
    }
}

/// The channel's samples after `n` samples of the frame behind `frames` whole ones.
proof fn lemma_last_frame(samples: Seq<Bits>, count: nat, ch: nat, frames: nat, n: nat)
    requires
        ch < count,
        n <= count,
        frames * count + n <= samples.len(),
    ensures
        channel_samples(samples.take((frames * count + n) as int), count, ch) == (if ch < n {
            channel_samples(samples.take((frames * count) as int), count, ch).push(
                samples[(frames * count + ch) as int],
            )
        } else {
            channel_samples(samples.take((frames * count) as int), count, ch)
        }),
    decreases n,
{
    if n > 0 {
        lemma_last_frame(samples, count, ch, frames, (n - 1) as nat);
        let now = samples.take((frames * count + n) as int);
        assert(0 <= frames * count) by (nonlinear_arith);
        assert(now.drop_last() =~= samples.take((frames * count + (n - 1)) as int));
        vstd::arithmetic::div_mod::lemma_fundamental_div_mod_converse(
            frames * count + n - 1,
            count as int,
            frames as int,
            n - 1,
        );
        assert(now.last() == samples[frames * count + n - 1]);
    } else {
        assert(frames * count + n == frames * count);
    }
}

/// A message says what failed, and then in full what the reader, the decoder or the
/// resampler said.
pub proof fn law_load_messages_end_with_the_detail(detail: String)
    ensures
        message_of(LoadError::Open(detail)) == "Failed to open file: "@ + detail@,
        message_of(LoadError::Probe(detail)) == "Failed to probe format: "@ + detail@,
        message_of(LoadError::NoAudioTrack) == "No audio track found"@,
        message_of(LoadError::UnknownSampleRate) == "Unknown sample rate"@,
        message_of(LoadError::NoDecoder(detail)) == "Failed to create decoder: "@ + detail@,
        message_of(LoadError::Decode(detail)) == "Decode error: "@ + detail@,
        message_of(LoadError::Read(detail)) == "Format read error: "@ + detail@,
        message_of(LoadError::NoAudioData) == "No audio data decoded"@,
        message_of(LoadError::NoResampler(detail)) == "Failed to create resampler: "@ + detail@,
        message_of(LoadError::Resample(detail)) == "Resample error: "@ + detail@,
{
}

} // verus!
