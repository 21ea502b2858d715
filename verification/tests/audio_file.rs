use nih_faust_jit::audio_file::{
    assemble, choose_track, fill_buffer_from_audio, format_duration, is_playable, AudioDecoding,
    AudioFilePlayer, ChosenTrack, DecodeAction, DecodeEvent, DecodedAudio, LoadError,
    PlaybackState, TrackInfo,
};

fn bits(values: &[f32]) -> Vec<u32> {
    values.iter().map(|v| v.to_bits()).collect()
}

fn audio(channels: &[&[f32]]) -> DecodedAudio<&'static str> {
    let track = ChosenTrack { id: 1, sample_rate: 44100, num_channels: channels.len() };
    assemble(track, channels.iter().map(|c| bits(c)).collect(), 48000, "song.wav")
}

fn silent(channels: usize, frames: usize) -> Vec<Vec<u32>> {
    vec![bits(&vec![9.0; frames]); channels]
}

fn at(position: u64, looping: bool) -> PlaybackState {
    PlaybackState { position, playing: true, looping }
}

#[test]
fn playback_starts_active_at_the_beginning() {
    let state = PlaybackState::new();
    assert_eq!(state, PlaybackState { position: 0, playing: true, looping: false });
    assert_eq!(
        PlaybackState::default(),
        PlaybackState { position: 0, playing: false, looping: false }
    );
}

#[test]
fn reset_keeps_the_loop_mode() {
    let mut state = at(17, true);
    state.reset();
    assert_eq!(state, PlaybackState { position: 0, playing: false, looping: true });
    state.toggle();
    assert!(state.playing);
    state.toggle();
    assert!(!state.playing);
    state.looping = false;
    state.position = 5;
    state.start_loaded();
    assert_eq!(state, at(0, true));
}

#[test]
fn player_gives_what_was_set() {
    let mut player: AudioFilePlayer<&'static str> = AudioFilePlayer::new(PlaybackState::new());
    assert!(player.get_audio_info().is_none());
    assert!(player.get_audio_for_playback(true, true).is_none());
    player.set_audio(audio(&[&[1.0, 2.0]]));
    assert_eq!(player.get_audio_info().unwrap().total_frames, 2);
    assert_eq!(player.get_audio_for_playback(true, false).unwrap().file_path, "song.wav");
    assert_eq!(player.get_audio_for_playback(false, true).unwrap().total_frames, 2);
    assert!(player.get_audio_for_playback(false, false).is_none());
    player.set_audio(audio(&[&[1.0, 2.0, 3.0]]));
    assert_eq!(player.get_audio_for_playback(true, true).unwrap().total_frames, 3);
    player.set_state(at(3, true));
    assert_eq!(player.state(), at(3, true));
    assert_eq!(player.get_audio_info().unwrap().total_frames, 3);
}

#[test]
fn shared_audio_outlives_a_new_file() {
    let mut player: AudioFilePlayer<&'static str> = AudioFilePlayer::new(PlaybackState::new());
    player.set_audio(audio(&[&[1.0]]));
    let kept = player.get_audio_info().unwrap();
    player.set_audio(audio(&[&[1.0, 2.0]]));
    assert_eq!(kept.total_frames, 1);
    assert_eq!(kept.channels[0], bits(&[1.0]));
}

#[test]
fn first_track_with_a_codec_is_chosen() {
    let silent = TrackInfo { id: 7, has_codec: false, sample_rate: Some(8000), channels: Some(1) };
    let music = TrackInfo { id: 9, has_codec: true, sample_rate: Some(44100), channels: Some(6) };
    let chosen = choose_track(&vec![silent, music]).unwrap();
    assert_eq!(chosen, ChosenTrack { id: 9, sample_rate: 44100, num_channels: 6 });
    let unsaid = TrackInfo { channels: None, ..music };
    assert_eq!(choose_track(&vec![unsaid, music]).unwrap().num_channels, 2);
    let no_track = choose_track(&vec![silent]);
    assert!(matches!(no_track, Err(LoadError::NoAudioTrack)));
    assert!(matches!(choose_track(&vec![]), Err(LoadError::NoAudioTrack)));
    let rateless = TrackInfo { sample_rate: None, ..music };
    assert!(matches!(choose_track(&vec![rateless, music]), Err(LoadError::UnknownSampleRate)));
}

#[test]
fn interleaved_samples_are_sorted_by_channel() {
    let track = ChosenTrack { id: 3, sample_rate: 44100, num_channels: 2 };
    let mut decoding = AudioDecoding::new(track);
    assert!(matches!(decoding.step(DecodeEvent::Packet { track_id: 4 }), DecodeAction::NextPacket));
    assert!(matches!(decoding.step(DecodeEvent::Packet { track_id: 3 }), DecodeAction::Decode));
    let decoded =
        DecodeEvent::Decoded { samples: bits(&[1.0, -1.0, 2.0, -2.0, 3.0, -3.0]), channels: 2 };
    assert!(matches!(decoding.step(decoded), DecodeAction::NextPacket));
    assert_eq!(decoding.channels, vec![bits(&[1.0, 2.0, 3.0]), bits(&[-1.0, -2.0, -3.0])]);
    assert!(matches!(decoding.step(DecodeEvent::BadPacket), DecodeAction::NextPacket));
    // A third channel that the track did not announce is dropped.
    let wide = DecodeEvent::Decoded { samples: bits(&[4.0, -4.0, 9.0]), channels: 3 };
    assert!(matches!(decoding.step(wide), DecodeAction::NextPacket));
    assert_eq!(decoding.channels[0], bits(&[1.0, 2.0, 3.0, 4.0]));
    assert_eq!(decoding.channels[1], bits(&[-1.0, -2.0, -3.0, -4.0]));
    assert!(matches!(decoding.step(DecodeEvent::EndOfFile), DecodeAction::Finish));
    assert_eq!(decoding.needs_resampling(44100).unwrap(), false);
    assert_eq!(decoding.needs_resampling(48000).unwrap(), true);
}

#[test]
fn failures_end_decoding() {
    let track = ChosenTrack { id: 3, sample_rate: 44100, num_channels: 1 };
    let mut decoding = AudioDecoding::new(track);
    match decoding.step(DecodeEvent::DecodeFailed("bad".to_string())) {
        DecodeAction::Fail(e) => assert_eq!(e.message(), "Decode error: bad"),
        _ => panic!("expected a failure"),
    }
    match decoding.step(DecodeEvent::ReadFailed("gone".to_string())) {
        DecodeAction::Fail(e) => assert_eq!(e.message(), "Format read error: gone"),
        _ => panic!("expected a failure"),
    }
    let none = decoding.needs_resampling(44100);
    assert!(matches!(none, Err(LoadError::NoAudioData)));
}

#[test]
fn load_errors_have_their_messages() {
    let detail = || "why".to_string();
    assert_eq!(LoadError::Open(detail()).message(), "Failed to open file: why");
    assert_eq!(LoadError::Probe(detail()).message(), "Failed to probe format: why");
    assert_eq!(LoadError::NoAudioTrack.message(), "No audio track found");
    assert_eq!(LoadError::UnknownSampleRate.message(), "Unknown sample rate");
    assert_eq!(LoadError::NoDecoder(detail()).message(), "Failed to create decoder: why");
    assert_eq!(LoadError::NoAudioData.message(), "No audio data decoded");
    assert_eq!(LoadError::NoResampler(detail()).message(), "Failed to create resampler: why");
    assert_eq!(LoadError::Resample(detail()).message(), "Resample error: why");
}

#[test]
fn assembled_audio_counts_frames_of_the_first_channel() {
    let a = audio(&[&[1.0, 2.0, 3.0], &[1.0, 2.0, 3.0]]);
    assert_eq!(a.total_frames, 3);
    assert_eq!(a.sample_rate, 48000);
    assert_eq!(a.original_sample_rate, 44100);
    assert_eq!(a.num_channels, 2);
    assert_eq!(audio(&[]).total_frames, 0);
}

#[test]
fn buffer_is_filled_from_the_position() {
    let a = audio(&[&[1.0, 2.0, 3.0, 4.0], &[-1.0, -2.0, -3.0, -4.0]]);
    let mut state = at(1, false);
    let mut buffer = silent(2, 2);
    assert!(fill_buffer_from_audio(&a, &mut state, &mut buffer));
    assert_eq!(buffer, vec![bits(&[2.0, 3.0]), bits(&[-2.0, -3.0])]);
    assert_eq!(state, at(3, false));
}

#[test]
fn mono_file_is_played_on_both_sides() {
    let a = audio(&[&[1.0, 2.0]]);
    let mut state = at(0, false);
    let mut buffer = silent(2, 2);
    assert!(fill_buffer_from_audio(&a, &mut state, &mut buffer));
    assert_eq!(buffer, vec![bits(&[1.0, 2.0]), bits(&[1.0, 2.0])]);
}

#[test]
fn end_of_file_stops_and_silences_the_rest() {
    let a = audio(&[&[1.0, 2.0, 3.0]]);
    let mut state = at(2, false);
    let mut buffer = silent(1, 3);
    assert!(!fill_buffer_from_audio(&a, &mut state, &mut buffer));
    assert_eq!(buffer, vec![bits(&[3.0, 0.0, 0.0])]);
    assert_eq!(state, PlaybackState { position: 3, playing: false, looping: false });
    // Once stopped, the buffer is left alone.
    let mut next = silent(1, 2);
    assert!(!fill_buffer_from_audio(&a, &mut state, &mut next));
    assert_eq!(next, silent(1, 2));
}

#[test]
fn file_that_ends_with_the_buffer_goes_on() {
    let a = audio(&[&[1.0, 2.0]]);
    let mut state = at(0, false);
    let mut buffer = silent(1, 2);
    assert!(fill_buffer_from_audio(&a, &mut state, &mut buffer));
    assert_eq!(state, at(2, false));
    assert!(!fill_buffer_from_audio(&a, &mut state, &mut buffer));
    assert_eq!(buffer, vec![bits(&[0.0, 0.0])]);
}

#[test]
fn looped_file_starts_over() {
    let a = audio(&[&[1.0, 2.0, 3.0]]);
    let mut state = at(1, true);
    let mut buffer = silent(1, 7);
    assert!(fill_buffer_from_audio(&a, &mut state, &mut buffer));
    assert_eq!(buffer, vec![bits(&[2.0, 3.0, 1.0, 2.0, 3.0, 1.0, 2.0])]);
    assert_eq!(state, at(2, true));
}

#[test]
fn buffers_join_without_a_gap() {
    let a = audio(&[&[1.0, 2.0, 3.0, 4.0, 5.0]]);
    let mut whole_state = at(3, true);
    let mut whole = silent(1, 8);
    fill_buffer_from_audio(&a, &mut whole_state, &mut whole);
    let mut state = at(3, true);
    let mut first = silent(1, 2);
    let mut second = silent(1, 6);
    fill_buffer_from_audio(&a, &mut state, &mut first);
    fill_buffer_from_audio(&a, &mut state, &mut second);
    let mut joined = first[0].clone();
    joined.extend(&second[0]);
    assert_eq!(joined, whole[0]);
    assert_eq!(state, whole_state);
}

#[test]
fn short_channels_are_played_as_far_as_they_go() {
    let a = audio(&[&[1.0, 2.0, 3.0, 4.0], &[-1.0, -2.0]]);
    let mut state = at(0, false);
    let mut buffer = silent(2, 2);
    assert!(is_playable(&a, &state, &buffer));
    assert!(fill_buffer_from_audio(&a, &mut state, &mut buffer));
    assert_eq!(buffer, vec![bits(&[1.0, 2.0]), bits(&[-1.0, -2.0])]);
    assert!(!is_playable(&a, &state, &silent(2, 1)));
    assert!(is_playable(&a, &state, &silent(1, 9)));
    assert!(!is_playable(&a, &at(0, true), &silent(3, 3)));
    assert!(!is_playable(&a, &at(0, false), &vec![vec![0; 2], vec![0]]));
    state.playing = false;
    assert!(is_playable(&a, &state, &silent(2, 9)));
    assert!(is_playable(&a, &at(4, false), &silent(2, 9)));
}

#[test]
fn looped_file_of_no_frames_plays_its_first() {
    let mut a = audio(&[&[1.0, 2.0]]);
    a.total_frames = 0;
    let mut state = at(5, true);
    let mut buffer = silent(2, 3);
    assert!(is_playable(&a, &state, &buffer));
    assert!(fill_buffer_from_audio(&a, &mut state, &mut buffer));
    assert_eq!(buffer, vec![bits(&[1.0, 1.0, 1.0]); 2]);
    assert_eq!(state, at(1, true));
    assert!(!is_playable(&audio(&[&[]]), &state, &silent(1, 1)));
}

#[test]
fn nothing_is_played_without_frames_or_channels() {
    let a = audio(&[&[1.0]]);
    let mut state = at(0, false);
    assert!(fill_buffer_from_audio(&a, &mut state, &mut vec![]));
    assert!(fill_buffer_from_audio(&a, &mut state, &mut silent(1, 0)));
    let none = audio(&[]);
    assert!(!fill_buffer_from_audio(&none, &mut state, &mut silent(1, 2)));
    state.playing = false;
    assert!(!fill_buffer_from_audio(&a, &mut state, &mut silent(1, 2)));
    assert_eq!(state.position, 0);
}

#[test]
fn durations_have_two_digits() {
    assert_eq!(format_duration(0, 0), "00:00");
    assert_eq!(format_duration(3, 7), "03:07");
    assert_eq!(format_duration(12, 59), "12:59");
    assert_eq!(format_duration(125, 9), "125:09");
}
