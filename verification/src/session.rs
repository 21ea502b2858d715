//! The state of the plugin: which DSP script is selected and loaded, the values of
//! its parameters, and the presets that are being loaded into it.
//!
//! Compiling a script takes place elsewhere and may take a while. Meanwhile the GUI
//! goes on drawing the old widgets; their values must not overwrite those of a
//! preset that waits for the reload.
use vstd::prelude::*;

use crate::bits::{clamped, le, lt, Bits};
use crate::presets::Preset;
use crate::store::ParamStore;
use crate::text::{decimal, to_decimal};
use crate::widgets::persistence::{
    all_restored, is_saved, law_every_parameter_is_saved, law_nothing_else_is_saved,
    law_saved_values_come_back, law_saving_keeps_other_values, law_stored_values_are_brought_back,
    leaves, path_to, ranges_hold, restore_widget_values, restored, save_widget_values, saved,
    LeafKind,
};
use crate::widgets::tree::{
    all_same_but_values, comes_after, nopre_of, widget_at, zone_of, Widget,
};
use vstd::string::StringExecFns;

verus! {

/// The paths that the user selected. `P` is the caller's type of paths.
#[derive(Debug)]
pub struct SelectedPaths<P> {
    pub dsp_script: Option<P>,
    pub dsp_lib_path: P,
}

/// What is done in the background.
#[derive(Debug)]
pub enum Tasks<P> {
    ReloadDsp,
    LoadAudioFile(P),
    LoadTestSignals,
    UnloadTestSignals,
}

/// How a script is loaded.
#[derive(Clone, Copy, Debug, PartialEq, Eq, Structural)]
pub enum LoadMode {
    AutoDetect,
    Effect,
    Instrument { nvoices: i32 },
}

/// How a script is loaded, without the number of voices.
#[derive(Clone, Copy, Debug, PartialEq, Eq, Structural)]
pub enum DspType {
    AutoDetect,
    Effect,
    Instrument,
}

/// The type that goes with a load mode.
pub open spec fn type_of(mode: LoadMode) -> DspType {
    match mode {
        LoadMode::AutoDetect => DspType::AutoDetect,
        LoadMode::Effect => DspType::Effect,
        LoadMode::Instrument { .. } => DspType::Instrument,
    }
}

/// The number of voices after a type was selected: the codes for the types without
/// voices, one voice for an instrument that was none before, and else what it was.
pub open spec fn voices_for(selected: DspType, last: DspType, nvoices: i32) -> i32 {
    match selected {
        DspType::AutoDetect => (-1) as i32,
        DspType::Effect => 0,
        DspType::Instrument => if selected != last {
            1
        } else {
            nvoices
        },
    }
}

impl DspType {
    /// The type that goes with a load mode.
    pub fn from_load_mode(mode: LoadMode) -> (r: Self)
        ensures
            r == type_of(mode),
    {
        match mode {
            LoadMode::AutoDetect => DspType::AutoDetect,
            LoadMode::Effect => DspType::Effect,
            LoadMode::Instrument { .. } => DspType::Instrument,
        }
    }

    /// All types, in the order in which they are offered.
    pub fn all() -> (r: Vec<Self>)
        ensures
            r@ == seq![DspType::AutoDetect, DspType::Effect, DspType::Instrument],
    {
        let r = vec![DspType::AutoDetect, DspType::Effect, DspType::Instrument];
        assert(r@ =~= seq![DspType::AutoDetect, DspType::Effect, DspType::Instrument]);
        r
    }

    /// The number of voices after this type was selected in place of `last`.
    pub fn nvoices(&self, last: DspType, nvoices: i32) -> (r: i32)
        ensures
            r == voices_for(*self, last, nvoices),
    {
        match self {
            DspType::AutoDetect => -1,
            DspType::Effect => 0,
            DspType::Instrument => if *self != last {
                1
            } else {
                nvoices
            },
        }
    }
}

/// A compiled script.
#[derive(Debug)]
pub struct LoadedDsp {
    pub num_inputs: u32,
    pub num_outputs: u32,
    pub widgets: Vec<Widget>,
}

/// What is loaded.
#[derive(Debug)]
pub enum DspState {
    NoDspScript,
    Loaded(LoadedDsp),
    Failed(String),
}

/// The state of the plugin.
pub struct Session<P> {
    pub selected_paths: SelectedPaths<P>,
    /// The number of voices, as the user set it.
    pub dsp_nvoices: i32,
    /// The values of the parameters by their paths.
    pub faust_param_values: ParamStore,
    /// Whether a preset waits for the script to be reloaded.
    pub preset_loading: bool,
    pub dsp_state: DspState,
}

/// The message for a script with too many channels.
pub open spec fn too_many_channels(num_inputs: u32, num_outputs: u32) -> Seq<char> {
    "DSP has "@ + decimal(num_inputs as nat) + " input and "@ + decimal(num_outputs as nat)
        + " output channels. Max is 2 for each"@
}

/// Whether a script has no more channels than the plugin.
pub open spec fn fits(num_inputs: u32, num_outputs: u32) -> bool {
    num_inputs <= 2 && num_outputs <= 2
}

/// What is loaded after a script was compiled, with the given values of parameters:
/// nothing without a script, the compiler's message where it failed, a message where
/// the script has too many channels, and else the script with the values brought
/// back into its widgets.
pub open spec fn loads(
    compiled: Option<Result<LoadedDsp, String>>,
    values: Map<Seq<char>, Bits>,
    state: DspState,
) -> bool {
    match compiled {
        None => state is NoDspScript,
        Some(Err(message)) => state == DspState::Failed(message),
        Some(Ok(dsp)) => if fits(dsp.num_inputs, dsp.num_outputs) {
            &&& state matches DspState::Loaded(loaded)
            &&& loaded.num_inputs == dsp.num_inputs
            &&& loaded.num_outputs == dsp.num_outputs
            &&& all_same_but_values(dsp.widgets@, loaded.widgets@)
            &&& leaves(loaded.widgets@, Seq::empty()) == all_restored(
                leaves(dsp.widgets@, Seq::empty()),
                values,
            )
        } else {
            state matches DspState::Failed(message) && message@ == too_many_channels(
                dsp.num_inputs,
                dsp.num_outputs,
            )
        },
    }
}

/// Reloading turned `before` into `after`: the script is loaded with the stored
/// values, which stay, and no preset waits any more, whatever came out.
pub open spec fn reloaded<P>(
    before: Session<P>,
    after: Session<P>,
    compiled: Option<Result<LoadedDsp, String>>,
) -> bool {
    &&& loads(compiled, before.faust_param_values@, after.dsp_state)
    &&& !after.preset_loading
    &&& after.faust_param_values == before.faust_param_values
    &&& after.selected_paths == before.selected_paths
    &&& after.dsp_nvoices == before.dsp_nvoices
}

/// Merging a preset turned `before` into `after`: its values take the place of the
/// stored ones, the other ones stay, and the preset waits for the reload.
pub open spec fn merged<P>(
    before: Session<P>,
    after: Session<P>,
    values: Map<Seq<char>, Bits>,
) -> bool {
    &&& after.faust_param_values@ == before.faust_param_values@.union_prefer_right(values)
    &&& after.preset_loading
    &&& after.dsp_state == before.dsp_state
    &&& after.selected_paths == before.selected_paths
    &&& after.dsp_nvoices == before.dsp_nvoices
}

/// Drawing a frame turned `before` into `after`: the values of the widgets are
/// stored, unless a preset waits for the reload.
pub open spec fn drawn<P>(before: Session<P>, after: Session<P>) -> bool {
    &&& after.faust_param_values@ == (match before.dsp_state {
        DspState::Loaded(dsp) if !before.preset_loading => saved(
            leaves(dsp.widgets@, Seq::empty()),
            before.faust_param_values@,
            false,
        ),
        _ => before.faust_param_values@,
    })
    &&& after.preset_loading == before.preset_loading
    &&& after.dsp_state == before.dsp_state
    &&& after.selected_paths == before.selected_paths
    &&& after.dsp_nvoices == before.dsp_nvoices
}

/// The values that go into a preset: those of the widgets but for the ones that
/// presets leave out, and the stored ones where no script is loaded.
pub open spec fn preset_contents(
    state: DspState,
    values: Map<Seq<char>, Bits>,
) -> Map<Seq<char>, Bits> {
    match state {
        DspState::Loaded(dsp) => saved(leaves(dsp.widgets@, Seq::empty()), Map::empty(), true),
        _ => values,
    }
}

/// The message for a script with too many channels.
fn channels_message(num_inputs: u32, num_outputs: u32) -> (r: String)
    ensures
        r@ == too_many_channels(num_inputs, num_outputs),
{
    let mut r: String = "DSP has ".to_owned();
    r.append(to_decimal(num_inputs as u64).as_str());
    r.append(" input and ");
    r.append(to_decimal(num_outputs as u64).as_str());
    r.append(" output channels. Max is 2 for each");
    r
}

impl<P> Session<P> {
    /// A new session: the type of the script is detected from the script, and
    /// nothing is loaded.
    pub fn new(dsp_script: Option<P>, dsp_lib_path: P) -> (r: Self)
        ensures
            r.selected_paths == (SelectedPaths { dsp_script, dsp_lib_path }),
            r.dsp_nvoices == -1,
            r.faust_param_values@ == Map::<Seq<char>, Bits>::empty(),
            !r.preset_loading,
            r.dsp_state == DspState::NoDspScript,
    {
        Session {
            selected_paths: SelectedPaths { dsp_script, dsp_lib_path },
            dsp_nvoices: -1,
            faust_param_values: ParamStore::new(),
            preset_loading: false,
            dsp_state: DspState::NoDspScript,
        }
    }

    /// Prepares for processing. A script from the command line takes the place of
    /// the selected one, an audio file from there is to be loaded, and the script
    /// is to be loaded in any case.
    pub fn initialize(&mut self, script: Option<P>, audio_file: Option<P>) -> (r: Vec<Tasks<P>>)
        ensures
            final(self).selected_paths.dsp_script == (match script {
                Some(path) => Some(path),
                None => old(self).selected_paths.dsp_script,
            }),
            final(self).selected_paths.dsp_lib_path == old(self).selected_paths.dsp_lib_path,
            final(self).dsp_nvoices == old(self).dsp_nvoices,
            final(self).faust_param_values == old(self).faust_param_values,
            final(self).preset_loading == old(self).preset_loading,
            final(self).dsp_state == old(self).dsp_state,
            r@ == (match audio_file {
                Some(path) => seq![Tasks::LoadAudioFile(path), Tasks::ReloadDsp],
                None => seq![Tasks::ReloadDsp],
            }),
    {
        match script {
            Some(path) => {
                self.selected_paths.dsp_script = Some(path);
            },
            None => {},
        }
        let mut tasks: Vec<Tasks<P>> = Vec::new();
        match audio_file {
            Some(path) => {
                tasks.push(Tasks::LoadAudioFile(path));
            },
            None => {},
        }
        tasks.push(Tasks::ReloadDsp);
        tasks
    }

    /// Takes over what the compiler gave for the selected script: nothing where no
    /// script is selected, else the compiled script or a message. The stored values
    /// are brought back into the widgets, and no preset waits any more, so that a
    /// failure does not block storing for good.
    pub fn reload_dsp(&mut self, compiled: Option<Result<LoadedDsp, String>>)
        requires
            compiled matches Some(Ok(dsp)) ==> fits(dsp.num_inputs, dsp.num_outputs) ==> ranges_hold(
                leaves(dsp.widgets@, Seq::empty()),
                old(self).faust_param_values@,
            ),
        ensures
            reloaded(*old(self), *final(self), compiled),
    {
        self.dsp_state =
        match compiled {
            None => DspState::NoDspScript,
            Some(Err(message)) => DspState::Failed(message),
            Some(Ok(dsp)) => {
                if dsp.num_inputs <= 2 && dsp.num_outputs <= 2 {
                    let mut loaded = dsp;
                    proof {
                        reveal_strlit("");
                        assert(""@ =~= Seq::<char>::empty());
                    }
                    if !self.faust_param_values.is_empty() {
                        restore_widget_values(&mut loaded.widgets, &self.faust_param_values, "");
                    } else {
                        proof {
                            let found = leaves(dsp.widgets@, Seq::empty());
                            assert(self.faust_param_values@ =~= Map::empty());
                            assert(all_restored(found, self.faust_param_values@) =~= found);
                            lemma_same_as_itself(dsp.widgets@);
                        }
                    }
                    DspState::Loaded(loaded)
                } else {
                    DspState::Failed(channels_message(dsp.num_inputs, dsp.num_outputs))
                }
            },
        };
        self.preset_loading = false;
    }

    /// Merges a preset into the stored values. The script is to be reloaded then,
    /// and drawn widgets are not stored until it is.
    pub fn merge_preset(&mut self, preset: &Preset) -> (r: Tasks<P>)
        ensures
            merged(*old(self), *final(self), preset.values@),
            r == Tasks::<P>::ReloadDsp,
    {
        self.preset_loading = true;
        self.faust_param_values.extend(&preset.values);
        Tasks::ReloadDsp
    }

    /// Stores the values of the widgets after they were drawn, unless a preset waits
    /// for the reload.
    pub fn store_drawn(&mut self)
        ensures
            drawn(*old(self), *final(self)),
    {
        if !self.preset_loading {
            match &self.dsp_state {
                DspState::Loaded(dsp) => {
                    proof {
                        reveal_strlit("");
                        assert(""@ =~= Seq::<char>::empty());
                    }
                    save_widget_values(&dsp.widgets, &mut self.faust_param_values, "", false);
                },
                _ => {},
            }
        }
    }

    /// The values that go into a preset.
    pub fn preset_values(&self) -> (r: ParamStore)
        ensures
            r@ == preset_contents(self.dsp_state, self.faust_param_values@),
    {
        match &self.dsp_state {
            DspState::Loaded(dsp) => {
                let mut values = ParamStore::new();
                proof {
                    reveal_strlit("");
                    assert(""@ =~= Seq::<char>::empty());
                }
                save_widget_values(&dsp.widgets, &mut values, "", true);
                values
            },
            _ => self.faust_param_values.copy(),
        }
    }

    /// Whether the loaded script is an effect: it has inputs.
    pub fn is_effect(&self) -> (r: bool)
        ensures
            r == (self.dsp_state matches DspState::Loaded(dsp) && dsp.num_inputs > 0),
    {
        match &self.dsp_state {
            DspState::Loaded(dsp) => dsp.num_inputs > 0,
            _ => false,
        }
    }

    /// Whether the on-screen keyboard is shown: the loaded script has no inputs.
    pub fn shows_keyboard(&self) -> (r: bool)
        ensures
            r == (self.dsp_state matches DspState::Loaded(dsp) && dsp.num_inputs == 0),
    {
        match &self.dsp_state {
            DspState::Loaded(dsp) => dsp.num_inputs == 0,
            _ => false,
        }
    }

    /// Finishes a processed buffer: the one channel of a mono script goes to the
    /// right as well.
    pub fn finish_buffer(&self, buffer: &mut Vec<Vec<Bits>>)
        requires
            is_mono(self.dsp_state) && old(buffer)@.len() >= 2 ==> old(buffer)@[1]@.len() >= old(
                buffer,
            )@[0]@.len(),
        ensures
            final(buffer)@.len() == old(buffer)@.len(),
            forall|ch: int|
                0 <= ch < old(buffer)@.len() ==> (#[trigger] final(buffer)@[ch])@ == (if ch == 1
                    && is_mono(self.dsp_state) {
                    old(buffer)@[0]@ + old(buffer)@[1]@.skip(old(buffer)@[0]@.len() as int)
                } else {
                    old(buffer)@[ch]@
                }),
            finished(self.dsp_state, old(buffer)@, final(buffer)@),
            (self.dsp_state matches DspState::Loaded(dsp) && dsp.num_inputs <= 1 && dsp.num_outputs
                <= 1) && old(buffer)@.len() >= 2 ==> final(buffer)@[1]@.take(
                old(buffer)@[0]@.len() as int,
            ) == old(buffer)@[0]@,
    {
        let mono: bool = match &self.dsp_state {
            DspState::Loaded(dsp) => dsp.num_inputs <= 1 && dsp.num_outputs <= 1,
            _ => false,
        };
        if mono && buffer.len() >= 2 {
            let ghost before = buffer@;
            let n: usize = buffer[0].len();
            let mut i: usize = 0;
            while i < n
                invariant
                    i <= n,
                    n == before[0]@.len(),
                    n <= before[1]@.len(),
                    buffer@.len() == before.len(),
                    before.len() >= 2,
                    buffer@[1]@.len() == before[1]@.len(),
                    forall|k: int| 0 <= k < i ==> buffer@[1]@[k] == before[0]@[k],
                    forall|k: int| i <= k < before[1]@.len() ==> buffer@[1]@[k] == before[1]@[k],
                    forall|ch: int|
                        0 <= ch < before.len() && ch != 1 ==> buffer@[ch]@ == before[ch]@,
                decreases n - i,
            {
                let sample: Bits = buffer[0][i];
                buffer[1].set(i, sample);
                i = i + 1;
            }
            assert(buffer@[1]@ =~= before[0]@ + before[1]@.skip(n as int));
            assert(buffer@[1]@.take(n as int) =~= before[0]@);
        }
    }
}

/// Finishing a processed buffer turned `before` into `after`.
pub open spec fn finished(
    state: DspState,
    before: Seq<Vec<Bits>>,
    after: Seq<Vec<Bits>>,
) -> bool {
    &&& after.len() == before.len()
    &&& forall|ch: int|
        0 <= ch < before.len() ==> (#[trigger] after[ch])@ == (if ch == 1 && is_mono(state) {
            before[0]@ + before[1]@.skip(before[0]@.len() as int)
        } else {
            before[ch]@
        })
}

/// A mono script sounds on both sides: where a script with at most one input and at most
/// one output is loaded and both channels are as long, both are afterwards what the left
/// one was; with any other script, and with none, every channel is as it was; and so is
/// every channel behind the second in any case.
pub proof fn law_mono_scripts_sound_on_both_sides(
    state: DspState,
    before: Seq<Vec<Bits>>,
    after: Seq<Vec<Bits>>,
    ch: int,
)
    requires
        finished(state, before, after),
    ensures
        after.len() == before.len(),
        (state matches DspState::Loaded(dsp) && dsp.num_inputs <= 1 && dsp.num_outputs <= 1)
            && before.len() >= 2 && before[0]@.len() == before[1]@.len() ==> after[0]@ == before[0]@
            && after[1]@ == before[0]@,
        0 <= ch < before.len() && (ch != 1 || !(state is Loaded) || (
        state matches DspState::Loaded(dsp) && (dsp.num_inputs > 1 || dsp.num_outputs > 1)))
            ==> after[ch]@ == before[ch]@,
{
    if before.len() >= 2 {
        assert(after[0]@ == before[0]@);
        assert(after[1]@ == after[1]@);
        if before[0]@.len() == before[1]@.len() {
            assert(before[0]@ + before[1]@.skip(before[0]@.len() as int) =~= before[0]@);
        }
    }
    if 0 <= ch < before.len() {
        assert(after[ch]@ == after[ch]@);
    }
}

/// Whether a mono script is loaded.
pub open spec fn is_mono(state: DspState) -> bool {
    state matches DspState::Loaded(dsp) && dsp.num_inputs <= 1 && dsp.num_outputs <= 1
}

/// The position of the host's clock, where it is known.
#[derive(Clone, Copy, Debug, PartialEq, Eq, Structural)]
pub struct ClockData {
    /// The tempo, by the bit pattern of its double-precision number.
    pub tempo: u64,
    pub next_buffer_size: usize,
    pub next_buffer_sample_position: i64,
}

/// The position of the host's clock: known where both the tempo and the position in
/// samples are.
pub fn clock_data(tempo: Option<u64>, position: Option<i64>, samples: usize) -> (r: Option<
    ClockData,
>)
    ensures
        r == (match (tempo, position) {
            (Some(t), Some(p)) => Some(
                ClockData {
                    tempo: t,
                    next_buffer_size: samples,
                    next_buffer_sample_position: p,
                },
            ),
            _ => None,
        }),
{
    match (tempo, position) {
        (Some(t), Some(p)) => Some(
            ClockData { tempo: t, next_buffer_size: samples, next_buffer_sample_position: p },
        ),
        _ => None,
    }
}

/// A list of widgets agrees with itself.
proof fn lemma_same_as_itself(ws: Seq<Widget>)
    ensures
        all_same_but_values(ws, ws),
    decreases ws,
{
    assert forall|i: int|
        0 <= i < ws.len() implies crate::widgets::tree::same_but_values(#[trigger] ws[i], ws[i]) by {
        match ws[i] {
            Widget::Group { inner, .. } => {
                assert(decreases_to!(ws => ws[i]));
                assert(decreases_to!(ws[i] => inner));
                lemma_same_as_itself(inner@);
            },
            _ => {},
        }
    }
}

/// Whether a series of states comes from drawing frames, one after the other.
pub open spec fn frames<P>(states: Seq<Session<P>>) -> bool {
    forall|i: int|
        0 <= i && i + 1 < states.len() ==> drawn(#[trigger] states[i], states[i + 1])
}

/// As long as a preset waits for the reload, drawing frames stores nothing.
pub proof fn law_waiting_presets_are_not_overwritten<P>(states: Seq<Session<P>>, n: nat)
    requires
        frames(states),
        n < states.len(),
        states[0].preset_loading,
    ensures
        states[n as int].preset_loading,
        states[n as int].faust_param_values@ == states[0].faust_param_values@,
    decreases n,
{
    if n > 0 {
        law_waiting_presets_are_not_overwritten(states, (n - 1) as nat);
        assert(drawn(states[n - 1], states[n - 1 + 1]));
    }
}

/// The values of a preset survive the reload of the script: whatever was drawn in
/// between, a parameter that the preset has a value for has that value afterwards, a
/// number after it was moved into the parameter's range.
pub proof fn law_preset_values_survive_reload<P>(
    before: Session<P>,
    states: Seq<Session<P>>,
    after: Session<P>,
    preset: Map<Seq<char>, Bits>,
    dsp: LoadedDsp,
    i: int,
)
    requires
        states.len() > 0,
        merged(before, states[0], preset),
        frames(states),
        reloaded(states.last(), after, Some(Ok::<LoadedDsp, String>(dsp))),
        fits(dsp.num_inputs, dsp.num_outputs),
        0 <= i < leaves(dsp.widgets@, Seq::empty()).len(),
        preset.dom().contains(leaves(dsp.widgets@, Seq::empty())[i].path),
    ensures
        after.dsp_state matches DspState::Loaded(loaded) && {
            let leaf = leaves(dsp.widgets@, Seq::empty())[i];
            leaves(loaded.widgets@, Seq::empty())[i].zone == (match leaf.kind {
                LeafKind::Switch => preset[leaf.path],
                LeafKind::Number { min, max } => clamped(preset[leaf.path], min, max),
                LeafKind::Display => leaf.zone,
            })
        },
{
    law_waiting_presets_are_not_overwritten(states, (states.len() - 1) as nat);
    let leaf = leaves(dsp.widgets@, Seq::empty())[i];
    let values = states.last().faust_param_values@;
    assert(values == before.faust_param_values@.union_prefer_right(preset));
    assert(values.dom().contains(leaf.path));
    assert(values[leaf.path] == preset[leaf.path]);
}

/// Merging a preset keeps the parameters that presets leave out: a value that is
/// stored for such a parameter is not changed by a preset that was made of the same
/// widgets, unless another parameter of the same path goes into presets.
pub proof fn law_presets_keep_left_out_parameters<P>(
    before: Session<P>,
    after: Session<P>,
    dsp: LoadedDsp,
    path: Seq<char>,
)
    requires
        merged(
            before,
            after,
            preset_contents(DspState::Loaded(dsp), before.faust_param_values@),
        ),
        forall|j: int|
            0 <= j < leaves(dsp.widgets@, Seq::empty()).len() && (#[trigger] leaves(
                dsp.widgets@,
                Seq::empty(),
            )[j]).path == path ==> leaves(dsp.widgets@, Seq::empty())[j].nopre,
        before.faust_param_values@.dom().contains(path),
    ensures
        after.faust_param_values@.dom().contains(path),
        after.faust_param_values@[path] == before.faust_param_values@[path],
{
    let found = leaves(dsp.widgets@, Seq::empty());
    law_saving_keeps_other_values(found, Map::empty(), true, path);
}

/// The type that goes with a load mode is the one of the same name, and the number of
/// voices for a type is -1 for detection, 0 for an effect, and for an instrument what it
/// was, or 1 where it was none.
pub proof fn law_types_and_voices(mode: LoadMode, selected: DspType, last: DspType, nvoices: i32)
    ensures
        type_of(mode) == DspType::AutoDetect <==> mode is AutoDetect,
        type_of(mode) == DspType::Effect <==> mode is Effect,
        type_of(mode) == DspType::Instrument <==> mode is Instrument,
        selected == DspType::AutoDetect ==> voices_for(selected, last, nvoices) == -1,
        selected == DspType::Effect ==> voices_for(selected, last, nvoices) == 0,
        selected == DspType::Instrument && last == DspType::Instrument ==> voices_for(
            selected,
            last,
            nvoices,
        ) == nvoices,
        selected == DspType::Instrument && last != DspType::Instrument ==> voices_for(
            selected,
            last,
            nvoices,
        ) == 1,
{
}

/// What comes out of a reload: without a script nothing is loaded; a message of the
/// compiler is kept; a script with more than two inputs or outputs fails; any other
/// script is loaded, with its channels and widgets, in which every switch and number
/// with a stored value has that value (a number the nearer end of its range where the
/// value lies outside), and everything else is as the script has it. The stored values
/// stay, and no preset waits.
pub proof fn law_reload_brings_stored_values_back<P>(
    before: Session<P>,
    after: Session<P>,
    compiled: Option<Result<LoadedDsp, String>>,
    at: Seq<int>,
)
    requires
        reloaded(before, after, compiled),
    ensures
        !after.preset_loading,
        after.faust_param_values@ == before.faust_param_values@,
        after.selected_paths == before.selected_paths,
        after.dsp_nvoices == before.dsp_nvoices,
        compiled is None ==> after.dsp_state is NoDspScript,
        compiled matches Some(Err(message)) ==> after.dsp_state == DspState::Failed(message),
        compiled matches Some(Ok(dsp)) ==> (dsp.num_inputs > 2 || dsp.num_outputs > 2) ==> (
        after.dsp_state matches DspState::Failed(message) && message@ == "DSP has "@ + decimal(
            dsp.num_inputs as nat,
        ) + " input and "@ + decimal(dsp.num_outputs as nat)
            + " output channels. Max is 2 for each"@),
        compiled matches Some(Ok(dsp)) ==> dsp.num_inputs <= 2 && dsp.num_outputs <= 2 ==> (
        after.dsp_state matches DspState::Loaded(loaded) && {
            &&& loaded.num_inputs == dsp.num_inputs
            &&& loaded.num_outputs == dsp.num_outputs
            &&& all_same_but_values(dsp.widgets@, loaded.widgets@)
            &&& (widget_at(dsp.widgets@, at) matches Some(w) && !(w is Group)) ==> {
                let path = path_to(dsp.widgets@, at, Seq::empty());
                let value = before.faust_param_values@[path];
                let held = before.faust_param_values@.dom().contains(path);
                widget_at(loaded.widgets@, at) matches Some(new) && (match widget_at(
                    dsp.widgets@,
                    at,
                )->0 {
                    Widget::BoolParam { .. } if held => zone_of(new) == Some(value),
                    Widget::NumParam { min, max, .. } if held => zone_of(new) == Some(
                        if lt(value, min) {
                            min
                        } else if lt(max, value) {
                            max
                        } else {
                            value
                        },
                    ),
                    _ => zone_of(new) == zone_of(widget_at(dsp.widgets@, at)->0),
                })
            }
        }),
{
    if let Some(Ok(dsp)) = compiled {
        if let DspState::Loaded(loaded) = after.dsp_state {
            if widget_at(dsp.widgets@, at) matches Some(w) && !(w is Group) {
                law_stored_values_are_brought_back(
                    dsp.widgets@,
                    loaded.widgets@,
                    before.faust_param_values@,
                    Seq::empty(),
                    at,
                );
            }
        }
    }
}

/// A merged preset takes the place of stored values: at every path that the preset has,
/// its value is stored, and at every other path what was stored before; it waits for the
/// reload, and nothing else changes.
pub proof fn law_preset_values_take_over<P>(
    before: Session<P>,
    after: Session<P>,
    values: Map<Seq<char>, Bits>,
    path: Seq<char>,
)
    requires
        merged(before, after, values),
    ensures
        after.preset_loading,
        after.dsp_state == before.dsp_state,
        after.selected_paths == before.selected_paths,
        after.dsp_nvoices == before.dsp_nvoices,
        after.faust_param_values@.dom().contains(path) <==> values.dom().contains(path)
            || before.faust_param_values@.dom().contains(path),
        values.dom().contains(path) ==> after.faust_param_values@[path] == values[path],
        !values.dom().contains(path) && before.faust_param_values@.dom().contains(path)
            ==> after.faust_param_values@[path] == before.faust_param_values@[path],
{
}

/// Drawing stores what is drawn: with a script loaded and no preset waiting, every number
/// and every switch with a name is stored at its path, unless one behind it has the same
/// path; what stands at a path that none of them has stays. With no script loaded, or
/// while a preset waits, nothing is stored. Nothing else changes in any case.
pub proof fn law_drawn_parameters_are_stored<P>(
    before: Session<P>,
    after: Session<P>,
    at: Seq<int>,
    key: Seq<char>,
)
    requires
        drawn(before, after),
    ensures
        after.preset_loading == before.preset_loading,
        after.dsp_state == before.dsp_state,
        after.selected_paths == before.selected_paths,
        after.dsp_nvoices == before.dsp_nvoices,
        before.preset_loading || !(before.dsp_state is Loaded) ==> after.faust_param_values@
            == before.faust_param_values@,
        !before.preset_loading ==> (before.dsp_state matches DspState::Loaded(dsp) ==> {
            let ws = dsp.widgets@;
            let path = path_to(ws, at, Seq::empty());
            (widget_at(ws, at) matches Some(w) && (w is NumParam || w is BoolParam)) && path.len()
                > 0 && (forall|other: Seq<int>|
                (#[trigger] widget_at(ws, other) matches Some(w) && (w is NumParam
                    || w is BoolParam)) && comes_after(other, at) ==> path_to(
                    ws,
                    other,
                    Seq::empty(),
                ) != path) ==> after.faust_param_values@.dom().contains(path) && Some(
                after.faust_param_values@[path],
            ) == zone_of(widget_at(ws, at)->0)
        }),
        !before.preset_loading ==> (before.dsp_state matches DspState::Loaded(dsp) ==> (forall|
            other: Seq<int>,
        |
            (#[trigger] widget_at(dsp.widgets@, other) matches Some(w) && (w is NumParam
                || w is BoolParam)) ==> path_to(dsp.widgets@, other, Seq::empty()) != key) ==> {
            &&& after.faust_param_values@.dom().contains(key)
                <==> before.faust_param_values@.dom().contains(key)
            &&& after.faust_param_values@[key] == before.faust_param_values@[key]
        }),
{
    if !before.preset_loading {
        if let DspState::Loaded(dsp) = before.dsp_state {
            let ws = dsp.widgets@;
            let path = path_to(ws, at, Seq::empty());
            let stored = before.faust_param_values@;
            if (widget_at(ws, at) matches Some(w) && (w is NumParam || w is BoolParam)) && path.len()
                > 0 && (forall|other: Seq<int>|
                (#[trigger] widget_at(ws, other) matches Some(w) && (w is NumParam
                    || w is BoolParam)) && comes_after(other, at) ==> path_to(
                    ws,
                    other,
                    Seq::empty(),
                ) != path) {
                law_every_parameter_is_saved(ws, Seq::empty(), stored, false, at);
            }
            if forall|other: Seq<int>|
                (#[trigger] widget_at(ws, other) matches Some(w) && (w is NumParam
                    || w is BoolParam)) ==> path_to(ws, other, Seq::empty()) != key {
                law_nothing_else_is_saved(ws, Seq::empty(), stored, false, key);
            }
        }
    }
}

/// A preset holds what is set: with a script loaded, the value of every number and every
/// switch with a name that is not marked to be left out, whatever the value, unless one
/// behind it has the same path; nothing at a path that none of them has; and without a
/// script loaded, the stored values.
pub proof fn law_presets_hold_every_parameter(
    state: DspState,
    values: Map<Seq<char>, Bits>,
    at: Seq<int>,
    key: Seq<char>,
)
    ensures
        !(state is Loaded) ==> preset_contents(state, values) == values,
        state matches DspState::Loaded(dsp) ==> {
            let ws = dsp.widgets@;
            let path = path_to(ws, at, Seq::empty());
            (widget_at(ws, at) matches Some(w) && (w is NumParam || w is BoolParam) && !nopre_of(w))
                && path.len() > 0 && (forall|other: Seq<int>|
                (#[trigger] widget_at(ws, other) matches Some(w) && (w is NumParam
                    || w is BoolParam) && !nopre_of(w)) && comes_after(other, at) ==> path_to(
                    ws,
                    other,
                    Seq::empty(),
                ) != path) ==> preset_contents(state, values).dom().contains(path) && Some(
                preset_contents(state, values)[path],
            ) == zone_of(widget_at(ws, at)->0)
        },
        state matches DspState::Loaded(dsp) ==> (forall|other: Seq<int>|
            (#[trigger] widget_at(dsp.widgets@, other) matches Some(w) && (w is NumParam
                || w is BoolParam) && !nopre_of(w)) ==> path_to(
                dsp.widgets@,
                other,
                Seq::empty(),
            ) != key) ==> !preset_contents(state, values).dom().contains(key),
{
    if let DspState::Loaded(dsp) = state {
        let ws = dsp.widgets@;
        let path = path_to(ws, at, Seq::empty());
        if (widget_at(ws, at) matches Some(w) && (w is NumParam || w is BoolParam) && !nopre_of(w))
            && path.len() > 0 && (forall|other: Seq<int>|
            (#[trigger] widget_at(ws, other) matches Some(w) && (w is NumParam || w is BoolParam)
                && !nopre_of(w)) && comes_after(other, at) ==> path_to(ws, other, Seq::empty())
                != path) {
            law_every_parameter_is_saved(ws, Seq::empty(), Map::empty(), true, at);
        }
        if forall|other: Seq<int>|
            (#[trigger] widget_at(ws, other) matches Some(w) && (w is NumParam || w is BoolParam)
                && !nopre_of(w)) ==> path_to(ws, other, Seq::empty()) != key {
            law_nothing_else_is_saved(ws, Seq::empty(), Map::empty(), true, key);
        }
    }
}

/// A preset gives back what it was made of: whatever was stored before, and whatever the
/// parameters were set to since, a number or a switch that went into a preset has the
/// value it had then after the preset was merged and the script reloaded, where the
/// reloaded script has it at the same place, under the same path, with the same range,
/// and the value lies in that range.
pub proof fn law_presets_give_back_what_they_hold<P>(
    saving: LoadedDsp,
    values: Map<Seq<char>, Bits>,
    before: Session<P>,
    waiting: Session<P>,
    after: Session<P>,
    loading: LoadedDsp,
    at: Seq<int>,
)
    requires
        merged(before, waiting, preset_contents(DspState::Loaded(saving), values)),
        reloaded(waiting, after, Some(Ok::<LoadedDsp, String>(loading))),
        loading.num_inputs <= 2,
        loading.num_outputs <= 2,
        path_to(saving.widgets@, at, Seq::empty()).len() > 0,
        path_to(loading.widgets@, at, Seq::empty()) == path_to(saving.widgets@, at, Seq::empty()),
        match (widget_at(saving.widgets@, at), widget_at(loading.widgets@, at)) {
            (
                Some(Widget::NumParam { zone, metadata, .. }),
                Some(Widget::NumParam { min, max, .. }),
            ) => !metadata.nopre && le(min, zone) && le(zone, max),
            (
                Some(Widget::BoolParam { nopre, .. }),
                Some(Widget::BoolParam { .. }),
            ) => !nopre,
            _ => false,
        },
        forall|other: Seq<int>|
            (#[trigger] widget_at(saving.widgets@, other) matches Some(w) && (w is NumParam
                || w is BoolParam) && !nopre_of(w)) && comes_after(other, at) ==> path_to(
                saving.widgets@,
                other,
                Seq::empty(),
            ) != path_to(saving.widgets@, at, Seq::empty()),
    ensures
        after.dsp_state matches DspState::Loaded(loaded) && (widget_at(
            loaded.widgets@,
            at,
        ) matches Some(w) && zone_of(w) == zone_of(widget_at(saving.widgets@, at)->0)),
{
    let preset = preset_contents(DspState::Loaded(saving), values);
    let path = path_to(saving.widgets@, at, Seq::empty());
    law_presets_hold_every_parameter(DspState::Loaded(saving), values, at, path);
    law_preset_values_take_over(before, waiting, preset, path);
    law_reload_brings_stored_values_back(
        waiting,
        after,
        Some(Ok::<LoadedDsp, String>(loading)),
        at,
    );
}

/// A preset that is saved and loaded again into the same script gives every
/// parameter in it the value it had when it was saved, unless a later parameter has
/// the same path: a number that lay in its range is unchanged.
pub proof fn law_presets_come_back(
    saving: LoadedDsp,
    values: Map<Seq<char>, Bits>,
    loading: LoadedDsp,
    i: int,
)
    requires
        ({
            let found = leaves(saving.widgets@, Seq::empty());
            let fresh = leaves(loading.widgets@, Seq::empty());
            &&& 0 <= i < found.len()
            &&& fresh.len() == found.len()
            &&& fresh[i].path == found[i].path
            &&& fresh[i].kind == found[i].kind
            &&& is_saved(found[i], true)
            &&& forall|j: int|
                i < j < found.len() && is_saved(#[trigger] found[j], true) ==> found[j].path
                    != found[i].path
        }),
    ensures
        ({
            let found = leaves(saving.widgets@, Seq::empty());
            let fresh = leaves(loading.widgets@, Seq::empty());
            let preset = preset_contents(DspState::Loaded(saving), values);
            restored(fresh[i], values.union_prefer_right(preset)).zone == (match found[i].kind {
                LeafKind::Number { min, max } => clamped(found[i].zone, min, max),
                _ => found[i].zone,
            })
        }),
{
    let found = leaves(saving.widgets@, Seq::empty());
    law_saved_values_come_back(found, Map::empty(), true, i);
}

} // verus!
