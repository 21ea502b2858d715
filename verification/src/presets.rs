//! Presets: named sets of parameter values, one file each, in a directory per DSP
//! script.
//!
//! The caller reads and writes the files; which file holds which preset, which files
//! are presets, and what goes wrong is decided here.
use vstd::prelude::*;

use crate::store::ParamStore;
use crate::text::joined;

verus! {

/// Preset data containing parameter values.
pub struct Preset {
    pub name: String,
    pub values: ParamStore,
}

/// Manages preset storage and retrieval. `D` is the caller's type of directories.
pub struct PresetManager<D> {
    pub presets_dir: Option<D>,
}

/// The directory of one DSP script's presets: the one called like the script, in the
/// directory of all presets.
pub struct PresetDir<'a, D> {
    pub base: &'a D,
    pub dsp_name: String,
}

/// The file of one preset.
pub struct PresetFile<'a, D> {
    pub dir: PresetDir<'a, D>,
    pub file_name: String,
}

/// Why a preset could not be saved, loaded or deleted. The text is what the file
/// system or the parser said.
#[derive(Debug)]
pub enum PresetError {
    NoDirectory,
    CreateDirectory(String),
    Serialize(String),
    Write(String),
    Read(String),
    Parse(String),
    Delete(String),
}

/// The message for an error.
pub open spec fn preset_message(e: PresetError) -> Seq<char> {
    match e {
        PresetError::NoDirectory => "Presets directory not available"@,
        PresetError::CreateDirectory(detail) => "Failed to create directory: "@ + detail@,
        PresetError::Serialize(detail) => "Failed to serialize preset: "@ + detail@,
        PresetError::Write(detail) => "Failed to write preset: "@ + detail@,
        PresetError::Read(detail) => "Failed to read preset: "@ + detail@,
        PresetError::Parse(detail) => "Failed to parse preset: "@ + detail@,
        PresetError::Delete(detail) => "Failed to delete preset: "@ + detail@,
    }
}

impl PresetError {
    /// The message for this error.
    pub fn message(&self) -> (r: String)
        ensures
            r@ == preset_message(*self),
    {
        match self {
            PresetError::NoDirectory => "Presets directory not available".to_owned(),
            PresetError::CreateDirectory(detail) => joined(
                "Failed to create directory: ",
                detail.as_str(),
            ),
            PresetError::Serialize(detail) => joined(
                "Failed to serialize preset: ",
                detail.as_str(),
            ),
            PresetError::Write(detail) => joined("Failed to write preset: ", detail.as_str()),
            PresetError::Read(detail) => joined("Failed to read preset: ", detail.as_str()),
            PresetError::Parse(detail) => joined("Failed to parse preset: ", detail.as_str()),
            PresetError::Delete(detail) => joined("Failed to delete preset: ", detail.as_str()),
        }
    }
}

/// Whether a character cannot stand in a file name everywhere.
pub open spec fn forbidden(c: char) -> bool {
    c == '/' || c == '\\' || c == ':' || c == '*' || c == '?' || c == '"' || c == '<' || c == '>'
        || c == '|'
}

/// A character as it stands in a file name.
pub open spec fn sanitized_char(c: char) -> char {
    if forbidden(c) {
        '_'
    } else {
        c
    }
}

/// A name as it stands in a file name.
pub open spec fn sanitized(name: Seq<char>) -> Seq<char> {
    Seq::new(name.len(), |i: int| sanitized_char(name[i]))
}

/// The characters that end the name of a preset's file.
pub open spec fn suffix() -> Seq<char> {
    seq!['.', 'j', 's', 'o', 'n']
}

/// The name of the file that holds a preset.
pub open spec fn file_of(preset_name: Seq<char>) -> Seq<char> {
    sanitized(preset_name) + suffix()
}

/// The name of the preset that a file holds: what stands before the suffix, where
/// there is anything.
pub open spec fn preset_of(file_name: Seq<char>) -> Option<Seq<char>> {
    if file_name.len() > suffix().len() && file_name.skip(file_name.len() - suffix().len())
        == suffix() {
        Some(file_name.take(file_name.len() - suffix().len()))
    } else {
        None
    }
}

/// The presets that a list of files holds, in its order.
pub open spec fn listed(files: Seq<Seq<char>>) -> Seq<Seq<char>>
    decreases files.len(),
{
    if files.len() == 0 {
        Seq::empty()
    } else {
        let before = listed(files.drop_last());
        match preset_of(files.last()) {
            Some(name) => before.push(name),
            None => before,
        }
    }
}

/// The texts of a list.
pub open spec fn texts(list: Seq<String>) -> Seq<Seq<char>> {
    Seq::new(list.len(), |i: int| list[i]@)
}

/// Replaces the characters that cannot stand in a file name everywhere.
pub fn sanitize_filename(name: &str) -> (r: String)
    ensures
        r@ == sanitized(name@),
{
    let mut r = String::new();
    assert(r@ =~= sanitized(name@.take(0)));
    for c in it: name.chars()
        invariant
            it.seq() == name@,
            r@ == sanitized(name@.take(it.index() as int)),
    {
        let kept: char = match c {
            '/' | '\\' | ':' | '*' | '?' | '"' | '<' | '>' | '|' => '_',
            _ => c,
        };
        r.push(kept);
        assert(r@ =~= sanitized(name@.take(it.index() + 1)));
    }
    assert(name@.take(name@.len() as int) =~= name@);
    r
}

/// The name of the file that holds a preset.
pub fn preset_file_name(preset_name: &str) -> (r: String)
    ensures
        r@ == file_of(preset_name@),
{
    let mut r = sanitize_filename(preset_name);
    r.push('.');
    r.push('j');
    r.push('s');
    r.push('o');
    r.push('n');
    assert(r@ =~= file_of(preset_name@));
    r
}

/// The characters of a text.
fn chars_of(text: &str) -> (r: Vec<char>)
    ensures
        r@ == text@,
{
    let mut r: Vec<char> = Vec::new();
    for c in it: text.chars()
        invariant
            it.seq() == text@,
            r@ == text@.take(it.index() as int),
    {
        r.push(c);
        assert(r@ =~= text@.take(it.index() + 1));
    }
    assert(r@ =~= text@);
    r
}

/// The name of the preset that a file holds, if it holds one.
pub fn preset_name_of(file_name: &str) -> (r: Option<String>)
    ensures
        match r {
            Some(name) => preset_of(file_name@) == Some(name@),
            None => preset_of(file_name@) is None,
        },
{
    let chars = chars_of(file_name);
    let n: usize = chars.len();
    if n <= 5 {
        return None;
    }
    let ends: bool = chars[n - 5] == '.' && chars[n - 4] == 'j' && chars[n - 3] == 's' && chars[n
        - 2] == 'o' && chars[n - 1] == 'n';
    let ghost tail = file_name@.skip(n - 5);
    if !ends {
        proof {
            if tail == suffix() {
                assert(tail[0] == '.' && tail[1] == 'j' && tail[2] == 's' && tail[3] == 'o'
                    && tail[4] == 'n');
            }
        }
        return None;
    }
    assert(tail =~= suffix());
    let mut name = String::new();
    let mut i: usize = 0;
    assert(name@ =~= file_name@.take(0));
    while i < n - 5
        invariant
            n == chars@.len(),
            5 < n,
            i <= n - 5,
            chars@ == file_name@,
            name@ == file_name@.take(i as int),
        decreases n - i,
    {
        name.push(chars[i]);
        assert(name@ =~= file_name@.take(i + 1));
        i = i + 1;
    }
    Some(name)
}

/// The presets that a list of files holds, in its order.
pub fn list_preset_files(files: &Vec<String>) -> (r: Vec<String>)
    ensures
        texts(r@) == listed(texts(files@)),
{
    let mut r: Vec<String> = Vec::new();
    let mut i: usize = 0;
    assert(texts(r@) =~= listed(texts(files@).take(0)));
    while i < files.len()
        invariant
            i <= files@.len(),
            texts(r@) == listed(texts(files@).take(i as int)),
        decreases files@.len() - i,
    {
        let ghost before = r@;
        proof {
            assert(texts(files@).take(i + 1).drop_last() =~= texts(files@).take(i as int));
        }
        match preset_name_of(files[i].as_str()) {
            Some(name) => {
                r.push(name);
                assert(texts(r@) =~= texts(before).push(name@));
            },
            None => {},
        }
        i = i + 1;
    }
    assert(texts(files@).take(i as int) =~= texts(files@));
    r
}

impl<D> PresetManager<D> {
    /// A manager for the presets in a directory, if there is one.
    pub fn new(presets_dir: Option<D>) -> (r: Self)
        ensures
            r.presets_dir == presets_dir,
    {
        PresetManager { presets_dir }
    }

    /// The directory of a DSP script's presets.
    pub fn dsp_presets_dir(&self, dsp_name: &str) -> (r: Option<PresetDir<'_, D>>)
        ensures
            r is Some <==> self.presets_dir is Some,
            r matches Some(dir) ==> Some(*dir.base) == self.presets_dir && dir.dsp_name@
                == dsp_name@,
    {
        match &self.presets_dir {
            Some(base) => Some(PresetDir { base, dsp_name: dsp_name.to_owned() }),
            None => None,
        }
    }

    /// The names of all presets of a DSP script. `files` are the names of the files
    /// in its directory, where that could be read.
    pub fn list_presets(&self, files: Option<Vec<String>>) -> (r: Vec<String>)
        ensures
            texts(r@) == (match (self.presets_dir, files) {
                (Some(_), Some(found)) => listed(texts(found@)),
                _ => Seq::empty(),
            }),
    {
        match (&self.presets_dir, files) {
            (Some(_), Some(found)) => list_preset_files(&found),
            _ => {
                let none: Vec<String> = Vec::new();
                assert(texts(none@) =~= Seq::empty());
                none
            },
        }
    }

    /// Where a preset is, and an error where there is no place for presets.
    fn locate(&self, dsp_name: &str, preset_name: &str) -> (r: Result<
        PresetFile<'_, D>,
        PresetError,
    >)
        ensures
            located(*self, dsp_name@, preset_name@, r),
    {
        match self.dsp_presets_dir(dsp_name) {
            Some(dir) => Ok(PresetFile { dir, file_name: preset_file_name(preset_name) }),
            None => Err(PresetError::NoDirectory),
        }
    }

    /// The file that is to be written to save a preset, and what goes into it. Its
    /// directory is to be created first.
    pub fn save_preset(&self, dsp_name: &str, preset_name: &str, values: ParamStore) -> (r: Result<
        (PresetFile<'_, D>, Preset),
        PresetError,
    >)
        ensures
            match r {
                Ok((file, preset)) => {
                    &&& located(
                        *self,
                        dsp_name@,
                        preset_name@,
                        Ok::<PresetFile<'_, D>, PresetError>(file),
                    )
                    &&& preset.name@ == preset_name@
                    &&& preset.values == values
                },
                Err(e) => self.presets_dir is None && e == PresetError::NoDirectory,
            },
    {
        match self.locate(dsp_name, preset_name) {
            Ok(file) => Ok((file, Preset { name: preset_name.to_owned(), values })),
            Err(e) => Err(e),
        }
    }

    /// The file that is to be read to load a preset.
    pub fn load_preset(&self, dsp_name: &str, preset_name: &str) -> (r: Result<
        PresetFile<'_, D>,
        PresetError,
    >)
        ensures
            located(*self, dsp_name@, preset_name@, r),
    {
        self.locate(dsp_name, preset_name)
    }

    /// The file that is to be removed to delete a preset.
    pub fn delete_preset(&self, dsp_name: &str, preset_name: &str) -> (r: Result<
        PresetFile<'_, D>,
        PresetError,
    >)
        ensures
            located(*self, dsp_name@, preset_name@, r),
    {
        self.locate(dsp_name, preset_name)
    }
}

/// Where a preset is: in the script's directory, in the file called like the preset;
/// nowhere where there is no directory for presets.
pub open spec fn located<D>(
    manager: PresetManager<D>,
    dsp_name: Seq<char>,
    preset_name: Seq<char>,
    r: Result<PresetFile<'_, D>, PresetError>,
) -> bool {
    match r {
        Ok(file) => {
            &&& manager.presets_dir == Some(*file.dir.base)
            &&& file.dir.dsp_name@ == dsp_name
            &&& file.file_name@ == file_of(preset_name)
        },
        Err(e) => manager.presets_dir is None && e == PresetError::NoDirectory,
    }
}

/// The place of a preset in the directory of all presets: the directory of its script
/// and the name of its file.
pub open spec fn place(dsp_name: Seq<char>, preset_name: Seq<char>) -> (Seq<char>, Seq<char>) {
    (dsp_name, file_of(preset_name))
}

/// Two presets are in the same file exactly if they belong to the same script and
/// their names are sanitized alike.
pub proof fn law_places_are_shared_by_names_alike<D>(
    manager: PresetManager<D>,
    a: PresetFile<'_, D>,
    b: PresetFile<'_, D>,
    dsp_a: Seq<char>,
    dsp_b: Seq<char>,
    name_a: Seq<char>,
    name_b: Seq<char>,
)
    requires
        located(manager, dsp_a, name_a, Ok::<PresetFile<'_, D>, PresetError>(a)),
        located(manager, dsp_b, name_b, Ok::<PresetFile<'_, D>, PresetError>(b)),
    ensures
        (a.dir.dsp_name@, a.file_name@) == place(dsp_a, name_a),
        *a.dir.base == *b.dir.base,
        (a.dir.dsp_name@, a.file_name@) == (b.dir.dsp_name@, b.file_name@) <==> dsp_a == dsp_b
            && sanitized(name_a) == sanitized(name_b),
{
    lemma_files_tell_names(name_a, name_b);
}

/// The file of a preset tells its sanitized name.
proof fn lemma_files_tell_names(a: Seq<char>, b: Seq<char>)
    ensures
        file_of(a) == file_of(b) <==> sanitized(a) == sanitized(b),
{
    if file_of(a) == file_of(b) {
        assert(sanitized(a) =~= file_of(a).take(sanitized(a).len() as int));
        assert(sanitized(b) =~= file_of(b).take(sanitized(b).len() as int));
    }
}

/// What was saved is what is loaded: with a preset written to its place among the
/// stored files, that place holds it for every name that is sanitized alike, and all
/// other presets are where they were.
pub proof fn law_saved_presets_are_loaded(
    stored: Map<(Seq<char>, Seq<char>), Preset>,
    dsp_name: Seq<char>,
    name: Seq<char>,
    preset: Preset,
    dsp: Seq<char>,
    other: Seq<char>,
)
    ensures
        ({
            let after = stored.insert(place(dsp_name, name), preset);
            let at = place(dsp, other);
            if dsp == dsp_name && sanitized(other) == sanitized(name) {
                after.dom().contains(at) && after[at] == preset
            } else {
                &&& after.dom().contains(at) == stored.dom().contains(at)
                &&& stored.dom().contains(at) ==> after[at] == stored[at]
            }
        }),
{
    lemma_files_tell_names(other, name);
}

/// What was deleted is gone: with the file at a preset's place removed, there is
/// nothing for any name that is sanitized alike, neither to load nor to delete, and
/// all other presets are where they were.
pub proof fn law_deleted_presets_are_gone(
    stored: Map<(Seq<char>, Seq<char>), Preset>,
    dsp_name: Seq<char>,
    name: Seq<char>,
    dsp: Seq<char>,
    other: Seq<char>,
)
    ensures
        ({
            let after = stored.remove(place(dsp_name, name));
            let at = place(dsp, other);
            if dsp == dsp_name && sanitized(other) == sanitized(name) {
                !after.dom().contains(at)
            } else {
                &&& after.dom().contains(at) == stored.dom().contains(at)
                &&& stored.dom().contains(at) ==> after[at] == stored[at]
            }
        }),
{
    lemma_files_tell_names(other, name);
}

/// A sanitized name is as long as the name, holds no forbidden character, and is not
/// changed by sanitizing it again; a name without forbidden characters is not
/// changed at all.
pub proof fn law_sanitized_names_are_safe(name: Seq<char>)
    ensures
        sanitized(name).len() == name.len(),
        forall|i: int| 0 <= i < name.len() ==> !forbidden(#[trigger] sanitized(name)[i]),
        sanitized(sanitized(name)) == sanitized(name),
        (forall|i: int| 0 <= i < name.len() ==> !forbidden(#[trigger] name[i])) ==> sanitized(name)
            == name,
{
    assert(sanitized(sanitized(name)) =~= sanitized(name));
    if forall|i: int| 0 <= i < name.len() ==> !forbidden(#[trigger] name[i]) {
        assert(sanitized(name) =~= name);
    }
}

/// A saved preset is listed, under its sanitized name. (A preset without a name is
/// not: its file has nothing before the suffix.)
pub proof fn law_saved_presets_are_listed(files: Seq<Seq<char>>, name: Seq<char>)
    requires
        name.len() > 0,
        files.contains(file_of(name)),
    ensures
        listed(files).contains(sanitized(name)),
{
    lemma_files_are_listed(files, sanitized(name));
}

/// A listed preset without forbidden characters in its name is loaded from the very
/// file that it was listed for.
pub proof fn law_listed_presets_are_found(file: Seq<char>, name: Seq<char>)
    requires
        preset_of(file) == Some(name),
        forall|i: int| 0 <= i < name.len() ==> !forbidden(#[trigger] name[i]),
    ensures
        file_of(name) == file,
{
    law_sanitized_names_are_safe(name);
    assert(file =~= name + suffix());
}

/// A file with something before the suffix is listed under that.
proof fn lemma_files_are_listed(files: Seq<Seq<char>>, name: Seq<char>)
    requires
        name.len() > 0,
        files.contains(name + suffix()),
    ensures
        listed(files).contains(name),
    decreases files.len(),
{
    let file = name + suffix();
    assert(file.skip(file.len() - suffix().len()) =~= suffix());
    assert(file.take(file.len() - suffix().len()) =~= name);
    if files.last() == file {
        assert(listed(files).last() == name);
    } else {
        let i = choose|i: int| 0 <= i < files.len() && files[i] == file;
        assert(files.drop_last()[i] == file);
        lemma_files_are_listed(files.drop_last(), name);
        let before = listed(files.drop_last());
        let k = choose|k: int| 0 <= k < before.len() && before[k] == name;
        assert(listed(files)[k] == name);
    }
}

/// A deleted preset is no longer listed, and all others are: with its file gone from
/// the directory, and no other, its sanitized name is gone from the list, and no
/// other.
pub proof fn law_deleted_presets_are_not_listed(
    files: Seq<Seq<char>>,
    after: Seq<Seq<char>>,
    name: Seq<char>,
    other: Seq<char>,
)
    requires
        forall|file: Seq<char>| #[trigger]
            after.contains(file) <==> files.contains(file) && file != file_of(name),
    ensures
        !listed(after).contains(sanitized(name)),
        other != sanitized(name) ==> (listed(after).contains(other) <==> listed(files).contains(
            other,
        )),
{
    if listed(after).contains(sanitized(name)) {
        law_listed_presets_have_files(after, sanitized(name));
    }
    if other != sanitized(name) {
        if other + suffix() == file_of(name) {
            assert(other =~= file_of(name).take(other.len() as int));
            assert(sanitized(name) =~= file_of(name).take(sanitized(name).len() as int));
        }
        if listed(after).contains(other) {
            law_listed_presets_have_files(after, other);
            lemma_files_are_listed(files, other);
        }
        if listed(files).contains(other) {
            law_listed_presets_have_files(files, other);
            lemma_files_are_listed(after, other);
        }
    }
}

/// Only files with the suffix are listed, each under its own name: nothing is listed
/// that no file stands for.
pub proof fn law_listed_presets_have_files(files: Seq<Seq<char>>, name: Seq<char>)
    requires
        listed(files).contains(name),
    ensures
        files.contains(name + suffix()),
        name.len() > 0,
    decreases files.len(),
{
    if files.len() > 0 {
        let before = listed(files.drop_last());
        let k = choose|k: int| 0 <= k < listed(files).len() && listed(files)[k] == name;
        if k < before.len() {
            assert(before[k] == name);
            law_listed_presets_have_files(files.drop_last(), name);
            let i = choose|i: int|
                0 <= i < files.drop_last().len() && files.drop_last()[i] == name + suffix();
            assert(files[i] == name + suffix());
        } else {
            assert(preset_of(files.last()) == Some(name));
            assert(files.last() =~= name + suffix());
            assert(files[files.len() - 1] == name + suffix());
        }
    }
}

/// The texts of a list are the texts of its entries, in order.
pub proof fn law_texts_are_those_of_the_entries(list: Seq<String>, i: int)
    ensures
        texts(list).len() == list.len(),
        0 <= i < list.len() ==> texts(list)[i] == list[i]@,
{
}

/// A preset's file is called like the preset, with an underscore for each of the nine
/// characters `/ \ : * ? " < > |` and `.json` behind it; and the preset of a file is what
/// stands before `.json`, where that is something.
pub proof fn law_files_are_called_like_presets(
    name: Seq<char>,
    file: Seq<char>,
    i: int,
    other: Seq<char>,
)
    ensures
        file_of(name) == sanitized(name) + seq!['.', 'j', 's', 'o', 'n'],
        sanitized(name).len() == name.len(),
        0 <= i < name.len() ==> sanitized(name)[i] == (if name[i] == '/' || name[i] == '\\'
            || name[i] == ':' || name[i] == '*' || name[i] == '?' || name[i] == '"' || name[i] == '<'
            || name[i] == '>' || name[i] == '|' {
            '_'
        } else {
            name[i]
        }),
        preset_of(file) == Some(other) <==> other.len() > 0 && file == other + seq![
            '.',
            'j',
            's',
            'o',
            'n',
        ],
{
    let end = seq!['.', 'j', 's', 'o', 'n'];
    if preset_of(file) == Some(other) {
        assert(file =~= other + end);
    }
    if other.len() > 0 && file == other + end {
        assert(file.skip(file.len() - 5) =~= end);
        assert(file.take(file.len() - 5) =~= other);
    }
}

/// A list of files is read one by one: a further file adds the preset it holds, if it
/// holds one, at the end.
pub proof fn law_files_are_listed_in_order(files: Seq<Seq<char>>, file: Seq<char>)
    ensures
        listed(Seq::empty()) == Seq::<Seq<char>>::empty(),
        listed(files.push(file)) == (match preset_of(file) {
            Some(name) => listed(files).push(name),
            None => listed(files),
        }),
{
    assert(files.push(file).drop_last() =~= files);
}

/// A preset is in the directory of its script, below the directory of all presets, and
/// there is a place for it exactly if that directory is known.
pub proof fn law_presets_have_a_place<D>(
    manager: PresetManager<D>,
    dsp_name: Seq<char>,
    preset_name: Seq<char>,
    r: Result<PresetFile<'_, D>, PresetError>,
)
    requires
        located(manager, dsp_name, preset_name, r),
    ensures
        r is Ok <==> manager.presets_dir is Some,
        r matches Ok(file) ==> manager.presets_dir == Some(*file.dir.base) && file.dir.dsp_name@
            == dsp_name && file.file_name@ == sanitized(preset_name) + seq![
            '.',
            'j',
            's',
            'o',
            'n',
        ],
        r matches Err(e) ==> e == PresetError::NoDirectory,
{
}

/// A message says what failed, and then in full what the file system or the parser said.
pub proof fn law_preset_messages_end_with_the_detail(detail: String)
    ensures
        preset_message(PresetError::NoDirectory) == "Presets directory not available"@,
        preset_message(PresetError::CreateDirectory(detail)) == "Failed to create directory: "@
            + detail@,
        preset_message(PresetError::Serialize(detail)) == "Failed to serialize preset: "@ + detail@,
        preset_message(PresetError::Write(detail)) == "Failed to write preset: "@ + detail@,
        preset_message(PresetError::Read(detail)) == "Failed to read preset: "@ + detail@,
        preset_message(PresetError::Parse(detail)) == "Failed to parse preset: "@ + detail@,
        preset_message(PresetError::Delete(detail)) == "Failed to delete preset: "@ + detail@,
{
}

} // verus!
