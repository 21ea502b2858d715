//! Choosing, saving and deleting presets.
//!
//! The panel keeps the list of presets of the script it was listed for. Reading,
//! writing and deleting preset files is up to the caller, who reports how it went.
use vstd::prelude::*;
use vstd::string::StrSliceExecFns;

use crate::presets::{texts, Preset};
use crate::session::{merged, Session, Tasks};
use crate::text::same_text;

verus! {

/// The state of the panel.
#[derive(Debug)]
pub struct PresetPanel {
    /// Preset name being entered for saving.
    pub save_preset_name: String,
    /// Currently selected preset name.
    pub selected_preset: Option<String>,
    /// List of presets for the current script.
    pub cached_presets: Vec<String>,
    /// The script for which presets are listed.
    pub cached_dsp_name: Option<String>,
    /// Whether the question before deleting is showing.
    pub confirm_delete_preset: bool,
}

/// The text of a value that may be missing.
pub open spec fn text_of(value: Option<String>) -> Option<Seq<char>> {
    match value {
        Some(text) => Some(text@),
        None => None,
    }
}

/// Whether a value is there and is the given text.
fn is_text(value: &Option<String>, text: &str) -> (r: bool)
    ensures
        r == (text_of(*value) == Some(text@)),
{
    match value {
        Some(v) => same_text(v.as_str(), text),
        None => false,
    }
}

/// A chosen preset was to be loaded. Where it was, it is merged into the session, and
/// the script is to be reloaded.
pub fn load_chosen<P>(session: &mut Session<P>, preset: Option<&Preset>) -> (r: Option<Tasks<P>>)
    ensures
        match preset {
            Some(loaded) => merged(*old(session), *final(session), loaded.values@) && r == Some(
                Tasks::<P>::ReloadDsp,
            ),
            None => *final(session) == *old(session) && r is None,
        },
{
    match preset {
        Some(loaded) => Some(session.merge_preset(loaded)),
        None => None,
    }
}

/// Whether a text is in a list.
fn contains_text(list: &Vec<String>, text: &str) -> (r: bool)
    ensures
        r == texts(list@).contains(text@),
{
    let mut i: usize = 0;
    while i < list.len()
        invariant
            i <= list@.len(),
            forall|k: int| 0 <= k < i ==> texts(list@)[k] != text@,
        decreases list@.len() - i,
    {
        assert(texts(list@)[i as int] == list@[i as int]@);
        if same_text(list[i].as_str(), text) {
            return true;
        }
        i = i + 1;
    }
    false
}

impl PresetPanel {
    /// An empty panel.
    pub fn new() -> (r: Self)
        ensures
            r.save_preset_name@.len() == 0,
            r.selected_preset is None,
            r.cached_presets@.len() == 0,
            r.cached_dsp_name is None,
            !r.confirm_delete_preset,
    {
        PresetPanel {
            save_preset_name: String::new(),
            selected_preset: None,
            cached_presets: Vec::new(),
            cached_dsp_name: None,
            confirm_delete_preset: false,
        }
    }

    /// Whether the presets have to be listed: they are not for this script.
    pub fn needs_listing(&self, dsp_name: &str) -> (r: bool)
        ensures
            r == (text_of(self.cached_dsp_name) != Some(dsp_name@)),
    {
        !is_text(&self.cached_dsp_name, dsp_name)
    }

    /// Takes over the presets of a script. None of them is selected. Says whether
    /// the preset called "Default" is to be loaded: where it exists.
    pub fn set_listing(&mut self, dsp_name: &str, presets: Vec<String>) -> (r: bool)
        ensures
            final(self).cached_presets == presets,
            text_of(final(self).cached_dsp_name) == Some(dsp_name@),
            final(self).selected_preset is None,
            final(self).save_preset_name == old(self).save_preset_name,
            final(self).confirm_delete_preset == old(self).confirm_delete_preset,
            r == texts(presets@).contains("Default"@),
    {
        self.cached_presets = presets;
        self.cached_dsp_name = Some(dsp_name.to_owned());
        self.selected_preset = None;
        contains_text(&self.cached_presets, "Default")
    }

    /// The preset called "Default" was to be loaded. Where it was, it is selected and
    /// merged into the session, and the script is to be reloaded.
    pub fn auto_load<P>(&mut self, session: &mut Session<P>, preset: Option<&Preset>) -> (r: Option<
        Tasks<P>,
    >)
        ensures
            match preset {
                Some(loaded) => {
                    &&& text_of(final(self).selected_preset) == Some("Default"@)
                    &&& merged(*old(session), *final(session), loaded.values@)
                    &&& r == Some(Tasks::<P>::ReloadDsp)
                },
                None => {
                    &&& *final(self) == *old(self)
                    &&& *final(session) == *old(session)
                    &&& r is None
                },
            },
            *final(self) == (PresetPanel {
                selected_preset: final(self).selected_preset,
                ..*old(self)
            }),
    {
        match preset {
            Some(loaded) => {
                self.selected_preset = Some("Default".to_owned());
                Some(session.merge_preset(loaded))
            },
            None => None,
        }
    }

    /// A preset of the list was chosen. It is selected, and says which preset is to
    /// be loaded: none where it was selected before.
    pub fn choose_preset(&mut self, index: usize) -> (r: Option<String>)
        requires
            index < old(self).cached_presets@.len(),
        ensures
            ({
                let name = old(self).cached_presets@[index as int]@;
                &&& text_of(final(self).selected_preset) == Some(name)
                &&& text_of(r) == (if text_of(old(self).selected_preset) == Some(name) {
                    None
                } else {
                    Some(name)
                })
            }),
            *final(self) == (PresetPanel {
                selected_preset: final(self).selected_preset,
                ..*old(self)
            }),
    {
        if is_text(&self.selected_preset, self.cached_presets[index].as_str()) {
            None
        } else {
            let name = self.cached_presets[index].clone();
            self.selected_preset = Some(self.cached_presets[index].clone());
            Some(name)
        }
    }

    /// The delete button was pressed, which it can be where a preset is selected:
    /// the question is shown.
    pub fn ask_delete(&mut self)
        ensures
            *final(self) == (PresetPanel {
                confirm_delete_preset: old(self).confirm_delete_preset || old(
                    self,
                ).selected_preset is Some,
                ..*old(self)
            }),
    {
        if self.selected_preset.is_some() {
            self.confirm_delete_preset = true;
        }
    }

    /// The question was answered by no: it is not shown any more.
    pub fn cancel_delete(&mut self)
        ensures
            *final(self) == (PresetPanel { confirm_delete_preset: false, ..*old(self) }),
    {
        self.confirm_delete_preset = false;
    }

    /// The question was answered by yes: it is not shown any more. Says which preset
    /// is to be deleted: the selected one.
    pub fn confirm_delete(&mut self) -> (r: Option<String>)
        ensures
            text_of(r) == text_of(old(self).selected_preset),
            *final(self) == (PresetPanel { confirm_delete_preset: false, ..*old(self) }),
    {
        self.confirm_delete_preset = false;
        match &self.selected_preset {
            Some(name) => Some(name.clone()),
            None => None,
        }
    }

    /// The selected preset was deleted; `presets` are those that are left.
    pub fn deleted(&mut self, presets: Vec<String>)
        ensures
            *final(self) == (PresetPanel {
                cached_presets: presets,
                selected_preset: None,
                ..*old(self)
            }),
    {
        self.cached_presets = presets;
        self.selected_preset = None;
    }

    /// Whether a preset can be saved: its name is not empty.
    pub fn can_save(&self) -> (r: bool)
        ensures
            r == (self.save_preset_name@.len() > 0),
    {
        self.save_preset_name.as_str().unicode_len() > 0
    }

    /// The preset was saved under the entered name; `presets` are those that are
    /// there now. It is selected, and the name is no longer entered.
    pub fn saved(&mut self, presets: Vec<String>)
        ensures
            final(self).cached_presets == presets,
            text_of(final(self).selected_preset) == Some(old(self).save_preset_name@),
            final(self).save_preset_name@.len() == 0,
            final(self).cached_dsp_name == old(self).cached_dsp_name,
            final(self).confirm_delete_preset == old(self).confirm_delete_preset,
    {
        self.cached_presets = presets;
        self.selected_preset = Some(self.save_preset_name.clone());
        self.save_preset_name = String::new();
    }

    /// How the selected preset is shown.
    pub fn selected_label(&self) -> (r: String)
        ensures
            r@ == (match self.selected_preset {
                Some(name) => name@,
                None => "-"@,
            }),
    {
        match &self.selected_preset {
            Some(name) => name.clone(),
            None => "-".to_owned(),
        }
    }
}

/// The text of a value is there exactly if the value is, and is its text.
pub proof fn law_text_is_that_of_the_value(value: Option<String>)
    ensures
        text_of(value) is Some <==> value is Some,
        value matches Some(text) ==> text_of(value) == Some(text@),
{
}

} // verus!
