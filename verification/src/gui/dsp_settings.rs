//! Selecting a DSP script and how it is run.
use vstd::prelude::*;

use crate::oversampling::{multiplier, selected, OversamplingFactor};
use crate::session::{SelectedPaths, Tasks};

verus! {

/// What file dialogs gave since they were last looked at. `P` is the caller's type of
/// paths.
#[derive(Debug)]
pub struct PendingDialogs<P> {
    pub script_path: Option<P>,
    pub lib_path: Option<P>,
    pub audio_file: Option<P>,
}

/// What is to be done for what the dialogs gave.
pub open spec fn dialog_tasks<P>(pending: PendingDialogs<P>) -> Seq<Tasks<P>> {
    (match pending.script_path {
        Some(_) => seq![Tasks::ReloadDsp],
        None => Seq::empty(),
    }) + (match pending.audio_file {
        Some(path) => seq![Tasks::LoadAudioFile(path)],
        None => Seq::empty(),
    })
}

impl<P> PendingDialogs<P> {
    /// No dialog gave anything.
    pub fn new() -> (r: Self)
        ensures
            r.script_path is None,
            r.lib_path is None,
            r.audio_file is None,
    {
        PendingDialogs { script_path: None, lib_path: None, audio_file: None }
    }
}

/// Takes what the dialogs gave: a script is selected and to be loaded, a library path
/// is selected, an audio file is to be loaded.
pub fn check_pending_dialogs<P>(
    pending: &mut PendingDialogs<P>,
    selected_paths: &mut SelectedPaths<P>,
) -> (r: Vec<Tasks<P>>)
    ensures
        *final(pending) == (PendingDialogs::<P> {
            script_path: None,
            lib_path: None,
            audio_file: None,
        }),
        final(selected_paths).dsp_script == (match old(pending).script_path {
            Some(path) => Some(path),
            None => old(selected_paths).dsp_script,
        }),
        final(selected_paths).dsp_lib_path == (match old(pending).lib_path {
            Some(path) => path,
            None => old(selected_paths).dsp_lib_path,
        }),
        r@ == dialog_tasks(*old(pending)),
        match (old(pending).script_path, old(pending).audio_file) {
            (Some(_), Some(file)) => r@ == seq![Tasks::ReloadDsp, Tasks::LoadAudioFile(file)],
            (Some(_), None) => r@ == seq![Tasks::<P>::ReloadDsp],
            (None, Some(file)) => r@ == seq![Tasks::LoadAudioFile(file)],
            (None, None) => r@ == Seq::<Tasks<P>>::empty(),
        },
{
    let mut tasks: Vec<Tasks<P>> = Vec::new();
    match pending.script_path.take() {
        Some(path) => {
            selected_paths.dsp_script = Some(path);
            tasks.push(Tasks::ReloadDsp);
        },
        None => {},
    }
    match pending.lib_path.take() {
        Some(path) => {
            selected_paths.dsp_lib_path = path;
        },
        None => {},
    }
    match pending.audio_file.take() {
        Some(path) => {
            tasks.push(Tasks::LoadAudioFile(path));
        },
        None => {},
    }
    proof {
        assert(tasks@ =~= dialog_tasks(*old(pending)));
        match (old(pending).script_path, old(pending).audio_file) {
            (Some(_), Some(file)) => {
                assert(tasks@ =~= seq![Tasks::ReloadDsp, Tasks::LoadAudioFile(file)]);
            },
            (Some(_), None) => {
                assert(tasks@ =~= seq![Tasks::<P>::ReloadDsp]);
            },
            (None, Some(file)) => {
                assert(tasks@ =~= seq![Tasks::LoadAudioFile(file)]);
            },
            (None, None) => {
                assert(tasks@ =~= Seq::<Tasks<P>>::empty());
            },
        }
    }
    tasks
}

/// Whether the script is to be reloaded on a key press: the R key with the command or
/// the control key, where a script is selected.
pub fn reload_shortcut<P>(
    r_pressed: bool,
    command: bool,
    ctrl: bool,
    selected_paths: &SelectedPaths<P>,
) -> (r: bool)
    ensures
        r == (r_pressed && (command || ctrl) && selected_paths.dsp_script is Some),
{
    r_pressed && (command || ctrl) && selected_paths.dsp_script.is_some()
}

/// Where the dialog for scripts starts: at the selected script, else at the library
/// path.
pub fn dialog_start<P>(selected_paths: &SelectedPaths<P>) -> (r: &P)
    ensures
        *r == (match selected_paths.dsp_script {
            Some(path) => path,
            None => selected_paths.dsp_lib_path,
        }),
{
    match &selected_paths.dsp_script {
        Some(path) => path,
        None => &selected_paths.dsp_lib_path,
    }
}

/// How a selected file is shown: by its name, where that is text, and else by
/// `unknown`; `none` where no file is selected.
pub open spec fn shown_name(
    file: Option<Option<String>>,
    unknown: Seq<char>,
    none: Seq<char>,
) -> Seq<char> {
    match file {
        Some(Some(name)) => name@,
        Some(None) => unknown,
        None => none,
    }
}

/// How the selected script is shown. `file` is its file name, where that is text.
pub fn script_label(file: &Option<Option<String>>) -> (r: String)
    ensures
        r@ == shown_name(*file, "?"@, "(none)"@),
        match *file {
            Some(Some(name)) => r@ == name@,
            Some(None) => r@ == "?"@,
            None => r@ == "(none)"@,
        },
{
    match file {
        Some(Some(name)) => name.clone(),
        Some(None) => "?".to_owned(),
        None => "(none)".to_owned(),
    }
}

/// The oversampling factor that the script runs with, and the one that was selected.
#[derive(Clone, Copy, Debug, PartialEq, Eq, Structural)]
pub struct Oversampling {
    /// What the script is loaded with.
    pub actual: u8,
    /// What the user selected; it takes effect with the next reload.
    pub pending: u8,
}

impl Oversampling {
    /// No oversampling.
    pub fn new() -> (r: Self)
        ensures
            r == (Oversampling { actual: 1, pending: 1 }),
    {
        Oversampling { actual: 1, pending: 1 }
    }

    /// The selected factor.
    pub fn selection(&self) -> (r: OversamplingFactor)
        ensures
            r == selected(self.pending),
    {
        OversamplingFactor::from_factor(self.pending)
    }

    /// Whether a reload is under way.
    pub fn is_waiting(&self) -> (r: bool)
        ensures
            r == (self.pending != self.actual),
    {
        self.pending != self.actual
    }

    /// Selects a factor. Says whether the script is to be reloaded: where the factor
    /// is another one.
    pub fn select(&mut self, factor: OversamplingFactor) -> (r: bool)
        ensures
            r == (factor != selected(old(self).pending)),
            final(self).pending == 1 || final(self).pending == 2 || final(self).pending == 4 || !r,
            r && factor == OversamplingFactor::X1 ==> final(self).pending == 1,
            r && factor == OversamplingFactor::X2 ==> final(self).pending == 2,
            r && factor == OversamplingFactor::X4 ==> final(self).pending == 4,
            final(self).actual == old(self).actual,
            final(self).pending == (if r {
                multiplier(factor) as u8
            } else {
                old(self).pending
            }),
    {
        if factor != OversamplingFactor::from_factor(self.pending) {
            self.pending =
            match factor {
                OversamplingFactor::X1 => 1,
                OversamplingFactor::X2 => 2,
                OversamplingFactor::X4 => 4,
            };
            true
        } else {
            false
        }
    }

    /// The script was reloaded: it runs with the selected factor.
    pub fn reloaded(&mut self)
        ensures
            *final(self) == (Oversampling { actual: old(self).pending, ..*old(self) }),
    {
        self.actual = self.pending;
    }
}

/// The sample rate that a script is loaded with: the host's, times the oversampling
/// factor.
pub fn dsp_sample_rate(host_rate: u32, factor: OversamplingFactor) -> (r: u64)
    ensures
        r == host_rate * multiplier(factor),
        factor == OversamplingFactor::X1 ==> r == host_rate,
        factor == OversamplingFactor::X2 ==> r == host_rate * 2,
        factor == OversamplingFactor::X4 ==> r == host_rate * 4,
{
    match factor {
        OversamplingFactor::X1 => host_rate as u64,
        OversamplingFactor::X2 => host_rate as u64 * 2,
        OversamplingFactor::X4 => host_rate as u64 * 4,
    }
}

/// Selecting a factor makes it the selected one, so that selecting it again asks for
/// no further reload.
pub proof fn law_selection_takes_effect(
    before: Oversampling,
    factor: OversamplingFactor,
    pending: u8,
)
    requires
        pending == (if factor != selected(before.pending) {
            multiplier(factor) as u8
        } else {
            before.pending
        }),
    ensures
        selected(pending) == factor,
{
}

} // verus!
