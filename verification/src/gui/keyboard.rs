//! Playing notes on the computer's keyboard.
//!
//! Twelve keys stand for the semitones of one octave, from C to B.
use std::collections::HashSet;
use vstd::prelude::*;

verus! {

broadcast use vstd::std_specs::hash::group_hash_axioms;

/// What happened to a key since the last frame.
#[derive(Clone, Copy, Debug, PartialEq, Eq, Structural)]
pub struct KeyEvent {
    pub pressed: bool,
    pub released: bool,
}

/// A message to the instrument.
#[derive(Clone, Copy, Debug, PartialEq, Eq, Structural)]
pub struct MidiMessage {
    pub status: u8,
    pub note: u8,
    pub velocity: u8,
}

/// The message that starts a note.
pub open spec fn note_on(note: u8) -> MidiMessage {
    MidiMessage { status: 0x90, note, velocity: 100 }
}

/// The message that ends a note.
pub open spec fn note_off(note: u8) -> MidiMessage {
    MidiMessage { status: 0x80, note, velocity: 0 }
}

/// The notes that sound, and the messages that were sent.
pub struct Played {
    pub sounding: Set<u8>,
    pub messages: Seq<MidiMessage>,
}

/// After a key that stands for `note` was pressed: a note that does not sound yet
/// starts.
pub open spec fn after_press(p: Played, note: u8, pressed: bool) -> Played {
    if pressed && !p.sounding.contains(note) {
        Played { sounding: p.sounding.insert(note), messages: p.messages.push(note_on(note)) }
    } else {
        p
    }
}

/// After a key that stands for `note` was released: a note that sounds ends.
pub open spec fn after_release(p: Played, note: u8, released: bool) -> Played {
    if released && p.sounding.contains(note) {
        Played { sounding: p.sounding.remove(note), messages: p.messages.push(note_off(note)) }
    } else {
        p
    }
}

/// The note of a key, `semitone` above the C of the octave. Middle C, note 60, is the C
/// of octave 4.
pub open spec fn note_of(octave: int, semitone: int) -> int {
    (octave + 1) * 12 + semitone
}

/// After the first `n` keys were looked at. A key whose note is beyond the range of
/// notes does nothing.
pub open spec fn played(
    sounding: Set<u8>,
    octave: int,
    events: Seq<KeyEvent>,
    n: nat,
) -> Played
    decreases n,
{
    if n == 0 {
        Played { sounding, messages: Seq::empty() }
    } else {
        let before = played(sounding, octave, events, (n - 1) as nat);
        let note = note_of(octave, n - 1);
        let event = events[n - 1];
        if note <= 127 {
            after_release(
                after_press(before, note as u8, event.pressed),
                note as u8,
                event.released,
            )
        } else {
            before
        }
    }
}

/// The keyboard.
pub struct KeyboardState {
    /// The octave that is played, from 0 to 8; middle C is in octave 4.
    pub octave: i32,
    /// The notes that were started and not ended.
    pub pressed_notes: HashSet<u8>,
}

impl KeyboardState {
    /// A keyboard in the fourth octave, with no note sounding.
    pub fn new() -> (r: Self)
        ensures
            r.octave == 4,
            r.pressed_notes@ == Set::<u8>::empty(),
    {
        KeyboardState { octave: 4, pressed_notes: HashSet::new() }
    }

    /// Looks at the keys of one octave, C first, and gives the messages to send. A
    /// note is started only where it does not sound, and ended only where it does.
    pub fn play(&mut self, events: &Vec<KeyEvent>) -> (r: Vec<MidiMessage>)
        requires
            0 <= old(self).octave <= 20,
            events@.len() <= 12,
        ensures
            ({
                let all = played(
                    old(self).pressed_notes@,
                    old(self).octave as int,
                    events@,
                    events@.len(),
                );
                final(self).pressed_notes@ == all.sounding && r@ == all.messages
            }),
            final(self).octave == old(self).octave,
    {
        let mut messages: Vec<MidiMessage> = Vec::new();
        let base: u16 = (self.octave as u16 + 1) * 12;
        let mut i: usize = 0;
        while i < events.len()
            invariant
                i <= events@.len() <= 12,
                0 <= self.octave <= 20,
                self.octave == old(self).octave,
                base == (self.octave + 1) * 12,
                ({
                    let all = played(
                        old(self).pressed_notes@,
                        old(self).octave as int,
                        events@,
                        i as nat,
                    );
                    self.pressed_notes@ == all.sounding && messages@ == all.messages
                }),
            decreases events@.len() - i,
        {
            let key: u16 = base + i as u16;
            let event = events[i];
            if key <= 127 {
                let note: u8 = key as u8;
                if event.pressed && !self.pressed_notes.contains(&note) {
                    messages.push(MidiMessage { status: 0x90, note, velocity: 100 });
                    self.pressed_notes.insert(note);
                }
                if event.released && self.pressed_notes.contains(&note) {
                    messages.push(MidiMessage { status: 0x80, note, velocity: 0 });
                    self.pressed_notes.remove(&note);
                }
            }
            i = i + 1;
        }
        messages
    }
}

/// The notes that sound after messages were sent; nothing where a message starts a
/// note that sounds already, or ends one that does not.
pub open spec fn heard(sounding: Set<u8>, messages: Seq<MidiMessage>) -> Option<Set<u8>>
    decreases messages.len(),
{
    if messages.len() == 0 {
        Some(sounding)
    } else {
        let m = messages.last();
        match heard(sounding, messages.drop_last()) {
            None => None,
            Some(before) => if m == note_on(m.note) && !before.contains(m.note) {
                Some(before.insert(m.note))
            } else if m == note_off(m.note) && before.contains(m.note) {
                Some(before.remove(m.note))
            } else {
                None
            },
        }
    }
}

/// Starts and ends match: every message starts a note that did not sound or ends one
/// that did, and the keyboard remembers exactly the notes that sound.
pub proof fn law_starts_and_ends_match(
    sounding: Set<u8>,
    octave: int,
    events: Seq<KeyEvent>,
    n: nat,
)
    ensures
        heard(sounding, played(sounding, octave, events, n).messages) == Some(
            played(sounding, octave, events, n).sounding,
        ),
    decreases n,
{
    if n > 0 {
        law_starts_and_ends_match(sounding, octave, events, (n - 1) as nat);
        let before = played(sounding, octave, events, (n - 1) as nat);
        let note = note_of(octave, n - 1);
        if note <= 127 {
            let event = events[n - 1];
            let mid = after_press(before, note as u8, event.pressed);
            if event.pressed && !before.sounding.contains(note as u8) {
                assert(mid.messages.drop_last() =~= before.messages);
                assert(mid.messages.last() == note_on(note as u8));
            }
            assert(heard(sounding, mid.messages) == Some(mid.sounding));
            let end = after_release(mid, note as u8, event.released);
            if event.released && mid.sounding.contains(note as u8) {
                assert(end.messages.drop_last() =~= mid.messages);
                assert(end.messages.last() == note_off(note as u8));
            }
            assert(heard(sounding, end.messages) == Some(end.sounding));
        }
    }
}

/// What the keys do: the key `k` semitones above C stands for the note `(octave + 1) * 12
/// + k`, up to note 127. Pressed, it starts the note where that does not sound; released,
/// it ends the note where that sounds, also where it was just started. The messages are
/// `0x90` with velocity 100 and `0x80` with velocity 0. A note of no key goes on as it was.
pub proof fn law_keys_play_their_notes(
    sounding: Set<u8>,
    octave: int,
    events: Seq<KeyEvent>,
    n: nat,
    note: u8,
    k: int,
)
    requires
        0 <= octave,
        n <= events.len(),
    ensures
        ({
            let after = played(sounding, octave, events, n);
            let first = (octave + 1) * 12;
            &&& first <= note < first + n && note <= 127 ==> (after.sounding.contains(note) <==> (
            sounding.contains(note) || events[note - first].pressed) && !events[note
                - first].released)
            &&& !(first <= note < first + n && note <= 127) ==> (after.sounding.contains(note)
                <==> sounding.contains(note))
        }),
        0 <= k < n ==> ({
            let before = played(sounding, octave, events, k as nat);
            let after = played(sounding, octave, events, (k + 1) as nat);
            let own = (octave + 1) * 12 + k;
            let on = events[k].pressed && !sounding.contains(own as u8);
            let off = events[k].released && (sounding.contains(own as u8) || events[k].pressed);
            after.messages == before.messages + (if own <= 127 && on {
                seq![MidiMessage { status: 0x90, note: own as u8, velocity: 100 }]
            } else {
                Seq::empty()
            }) + (if own <= 127 && off {
                seq![MidiMessage { status: 0x80, note: own as u8, velocity: 0 }]
            } else {
                Seq::empty()
            })
        }),
        played(sounding, octave, events, 0).messages == Seq::<MidiMessage>::empty(),
    decreases n,
{
    if n > 0 {
        law_keys_play_their_notes(sounding, octave, events, (n - 1) as nat, note, k);
    }
    if 0 <= k < n {
        let own = (octave + 1) * 12 + k;
        let before = played(sounding, octave, events, k as nat);
        let after = played(sounding, octave, events, (k + 1) as nat);
        if own <= 127 {
            lemma_key_not_yet_played(sounding, octave, events, k as nat, own as u8);
        }
        assert(after.messages =~= before.messages + (if own <= 127 && events[k].pressed
            && !sounding.contains(own as u8) {
            seq![MidiMessage { status: 0x90, note: own as u8, velocity: 100 }]
        } else {
            Seq::empty()
        }) + (if own <= 127 && events[k].released && (sounding.contains(own as u8)
            || events[k].pressed) {
            seq![MidiMessage { status: 0x80, note: own as u8, velocity: 0 }]
        } else {
            Seq::empty()
        }));
    }
}

/// Keys below a key leave its note alone.
proof fn lemma_key_not_yet_played(
    sounding: Set<u8>,
    octave: int,
    events: Seq<KeyEvent>,
    n: nat,
    note: u8,
)
    requires
        0 <= octave,
        note >= (octave + 1) * 12 + n,
    ensures
        played(sounding, octave, events, n).sounding.contains(note) <==> sounding.contains(note),
    decreases n,
{
    if n > 0 {
        lemma_key_not_yet_played(sounding, octave, events, (n - 1) as nat, note);
    }
}

} // verus!
