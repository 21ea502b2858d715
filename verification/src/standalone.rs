//! The command line of standalone mode.
//!
//! Two positional arguments name the DSP script and the audio file; everything else
//! is handed on to the host, completed by the saved device selections.
use vstd::prelude::*;
use vstd::string::StrSliceExecFns;

use crate::config::StandaloneConfig;
use crate::presets::texts;
use crate::text::{decimal, same_text, to_decimal};

verus! {

/// A command line, taken apart.
#[derive(Debug)]
pub struct CommandLine {
    /// What the host gets: the program's name, and options with their values.
    pub host_args: Vec<String>,
    /// What stands alone.
    pub positional: Vec<String>,
    /// Whether debug logging was asked for.
    pub debug: bool,
}

/// A command line, taken apart, as texts.
pub struct Parts {
    pub host_args: Seq<Seq<char>>,
    pub positional: Seq<Seq<char>>,
    pub debug: bool,
}

impl View for CommandLine {
    type V = Parts;

    open spec fn view(&self) -> Parts {
        Parts {
            host_args: texts(self.host_args@),
            positional: texts(self.positional@),
            debug: self.debug,
        }
    }
}

/// Whether an option is followed by its value.
pub open spec fn takes_value(arg: Seq<char>) -> bool {
    ||| arg == "--output-device"@
    ||| arg == "-o"@
    ||| arg == "--input-device"@
    ||| arg == "-i"@
    ||| arg == "--midi-input"@
    ||| arg == "-m"@
    ||| arg == "--buffer-size"@
    ||| arg == "-b"@
    ||| arg == "--sample-rate"@
    ||| arg == "-s"@
    ||| arg == "--input-gain"@
    ||| arg == "-g"@
    ||| arg == "--output-gain"@
}

/// Whether an argument is an option.
pub open spec fn is_option(arg: Seq<char>) -> bool {
    arg.len() > 0 && arg[0] == '-'
}

/// Two parts of a command line, one after the other.
pub open spec fn followed_by(a: Parts, b: Parts) -> Parts {
    Parts {
        host_args: a.host_args + b.host_args,
        positional: a.positional + b.positional,
        debug: a.debug || b.debug,
    }
}

/// No arguments.
pub open spec fn no_parts() -> Parts {
    Parts { host_args: Seq::empty(), positional: Seq::empty(), debug: false }
}

/// How many arguments the one at place `i` takes up: two where it is an option with
/// its value.
pub open spec fn taken(args: Seq<Seq<char>>, i: nat) -> nat {
    if args[i as int] != "standalone"@ && args[i as int] != "--debug"@ && is_option(args[i as int])
        && takes_value(args[i as int]) && i + 1 < args.len() {
        2
    } else {
        1
    }
}

/// What becomes of the argument at place `i`, with its value where it has one.
pub open spec fn part(args: Seq<Seq<char>>, i: nat) -> Parts {
    let arg = args[i as int];
    if arg == "standalone"@ {
        Parts { host_args: seq![arg], ..no_parts() }
    } else if arg == "--debug"@ {
        Parts { debug: true, ..no_parts() }
    } else if is_option(arg) {
        Parts { host_args: args.subrange(i as int, (i + taken(args, i)) as int), ..no_parts() }
    } else {
        Parts { positional: seq![arg], ..no_parts() }
    }
}

/// What becomes of the arguments from place `i` on.
pub open spec fn parts(args: Seq<Seq<char>>, i: nat) -> Parts
    decreases args.len() - i,
{
    if i >= args.len() {
        no_parts()
    } else {
        followed_by(part(args, i), parts(args, i + taken(args, i)))
    }
}

/// What becomes of a whole command line: its first argument is the program's name.
pub open spec fn all_parts(args: Seq<Seq<char>>) -> Parts {
    if args.len() == 0 {
        no_parts()
    } else {
        followed_by(Parts { host_args: seq![args[0]], ..no_parts() }, parts(args, 1))
    }
}

/// Whether an option is followed by its value.
fn has_value(arg: &str) -> (r: bool)
    ensures
        r == takes_value(arg@),
{
    same_text(arg, "--output-device") || same_text(arg, "-o") || same_text(arg, "--input-device")
        || same_text(arg, "-i") || same_text(arg, "--midi-input") || same_text(arg, "-m")
        || same_text(arg, "--buffer-size") || same_text(arg, "-b") || same_text(
        arg,
        "--sample-rate",
    ) || same_text(arg, "-s") || same_text(arg, "--input-gain") || same_text(arg, "-g")
        || same_text(arg, "--output-gain")
}

/// Adds a text to a list.
fn push_text(list: &mut Vec<String>, text: &str)
    ensures
        texts(final(list)@) == texts(old(list)@).push(text@),
{
    let ghost before = list@;
    list.push(text.to_owned());
    assert(texts(list@) =~= texts(before).push(text@));
}

/// Takes a command line apart.
pub fn split_arguments(args: &Vec<String>) -> (r: CommandLine)
    ensures
        r@ == all_parts(texts(args@)),
{
    let ghost all = texts(args@);
    let mut host_args: Vec<String> = Vec::new();
    let mut positional: Vec<String> = Vec::new();
    let mut debug: bool = false;
    assert(texts(host_args@) =~= Seq::empty());
    assert(texts(positional@) =~= Seq::empty());
    if args.len() == 0 {
        return CommandLine { host_args, positional, debug };
    }
    push_text(&mut host_args, args[0].as_str());
    assert(texts(host_args@) =~= seq![all[0]]);
    let mut i: usize = 1;
    proof {
        lemma_followed_by_nothing_before(parts(all, 1));
    }
    while i < args.len()
        invariant
            1 <= i <= args@.len(),
            all == texts(args@),
            all.len() == args@.len(),
            followed_by(
                Parts { host_args: texts(host_args@), positional: texts(positional@), debug },
                parts(all, i as nat),
            ) == all_parts(all),
        decreases args@.len() - i,
    {
        let arg = args[i].as_str();
        let ghost so_far = Parts {
            host_args: texts(host_args@),
            positional: texts(positional@),
            debug,
        };
        let ghost place = i as nat;
        assert(all[i as int] == arg@);
        if same_text(arg, "standalone") {
            push_text(&mut host_args, arg);
            i = i + 1;
        } else if same_text(arg, "--debug") {
            debug = true;
            i = i + 1;
        } else if arg.unicode_len() > 0 && arg.get_char(0) == '-' {
            push_text(&mut host_args, arg);
            if has_value(arg) && i + 1 < args.len() {
                let value = args[i + 1].as_str();
                assert(all[i + 1] == value@);
                push_text(&mut host_args, value);
                i = i + 2;
            } else {
                i = i + 1;
            }
        } else {
            push_text(&mut positional, arg);
            i = i + 1;
        }
        proof {
            let now = Parts {
                host_args: texts(host_args@),
                positional: texts(positional@),
                debug,
            };
            assert(i == place + taken(all, place));
            let one = followed_by(so_far, part(all, place));
            assert(now.host_args =~= one.host_args);
            assert(now.positional =~= one.positional);
            assert(now == one);
            lemma_followed_by_associates(so_far, part(all, place), parts(all, i as nat));
        }
    }
    proof {
        let now = Parts { host_args: texts(host_args@), positional: texts(positional@), debug };
        assert(followed_by(now, no_parts()).host_args =~= now.host_args);
        assert(followed_by(now, no_parts()).positional =~= now.positional);
    }
    CommandLine { host_args, positional, debug }
}

/// Putting parts one after the other does not depend on the grouping.
proof fn lemma_followed_by_associates(a: Parts, b: Parts, c: Parts)
    ensures
        followed_by(followed_by(a, b), c) == followed_by(a, followed_by(b, c)),
{
    let left = followed_by(followed_by(a, b), c);
    let right = followed_by(a, followed_by(b, c));
    assert(left.host_args =~= right.host_args);
    assert(left.positional =~= right.positional);
}

/// Nothing before a part leaves it as it is.
proof fn lemma_followed_by_nothing_before(a: Parts)
    ensures
        followed_by(no_parts(), a) == a,
{
    assert(followed_by(no_parts(), a).host_args =~= a.host_args);
    assert(followed_by(no_parts(), a).positional =~= a.positional);
}

impl CommandLine {
    /// The DSP script that was named.
    pub fn dsp_script(&self) -> (r: Option<&String>)
        ensures
            r == (if self.positional@.len() > 0 {
                Some(&self.positional@[0])
            } else {
                None
            }),
    {
        if self.positional.len() > 0 {
            Some(&self.positional[0])
        } else {
            None
        }
    }

    /// The audio file that was named.
    pub fn audio_file(&self) -> (r: Option<&String>)
        ensures
            r == (if self.positional@.len() > 1 {
                Some(&self.positional@[1])
            } else {
                None
            }),
    {
        if self.positional.len() > 1 {
            Some(&self.positional[1])
        } else {
            None
        }
    }
}

/// Whether one of two texts is among the arguments.
pub open spec fn given(args: Seq<Seq<char>>, long: Seq<char>, short: Seq<char>) -> bool {
    args.contains(long) || args.contains(short)
}

/// Whether one of two texts is among the arguments.
fn has_option(args: &Vec<String>, long: &str, short: &str) -> (r: bool)
    ensures
        r == given(texts(args@), long@, short@),
{
    let mut i: usize = 0;
    while i < args.len()
        invariant
            i <= args@.len(),
            forall|k: int| 0 <= k < i ==> texts(args@)[k] != long@ && texts(args@)[k] != short@,
        decreases args@.len() - i,
    {
        if same_text(args[i].as_str(), long) || same_text(args[i].as_str(), short) {
            assert(texts(args@)[i as int] == args@[i as int]@);
            return true;
        }
        assert(texts(args@)[i as int] == args@[i as int]@);
        i = i + 1;
    }
    false
}

/// The text of a value that may be missing.
pub open spec fn text_of(value: Option<String>) -> Option<Seq<char>> {
    match value {
        Some(text) => Some(text@),
        None => None,
    }
}

/// Arguments with an option and its value added, unless the option is there already
/// or has no value.
pub open spec fn with_option(
    args: Seq<Seq<char>>,
    present: bool,
    option: Seq<char>,
    value: Option<Seq<char>>,
) -> Seq<Seq<char>> {
    match value {
        Some(text) if !present => args.push(option).push(text),
        _ => args,
    }
}

/// The first of two values that is there.
pub open spec fn first_of(a: Option<String>, b: Option<String>) -> Option<Seq<char>> {
    match a {
        Some(text) => Some(text@),
        None => text_of(b),
    }
}

/// The sample rate as text.
pub open spec fn rate_text(rate: Option<u32>) -> Option<Seq<char>> {
    match rate {
        Some(hz) => Some(decimal(hz as nat)),
        None => None,
    }
}

/// Arguments completed by the saved selections. What the command line says goes
/// first; the output device defaults to the system's. Without a MIDI input selected
/// there is none.
pub open spec fn completed(
    args: Seq<Seq<char>>,
    config: StandaloneConfig,
    default_output: Option<String>,
) -> Seq<Seq<char>> {
    let one = with_option(
        args,
        given(args, "--output-device"@, "-o"@),
        "--output-device"@,
        first_of(config.output_device, default_output),
    );
    let two = with_option(
        one,
        given(args, "--input-device"@, "-i"@),
        "--input-device"@,
        text_of(config.input_device),
    );
    let three = with_option(
        two,
        given(args, "--midi-input"@, "-m"@),
        "--midi-input"@,
        text_of(config.midi_input),
    );
    with_option(
        three,
        given(three, "--sample-rate"@, "-s"@),
        "--sample-rate"@,
        rate_text(config.sample_rate),
    )
}

/// Whether the system's default output device has to be looked up.
pub fn needs_default_output(args: &Vec<String>, config: &StandaloneConfig) -> (r: bool)
    ensures
        r == (!given(texts(args@), "--output-device"@, "-o"@) && config.output_device is None),
        r == (!texts(args@).contains("--output-device"@) && !texts(args@).contains("-o"@)
            && config.output_device is None),
{
    !has_option(args, "--output-device", "-o") && config.output_device.is_none()
}

/// Adds an option and its value, unless the option is there already or has no value.
fn add_option(args: &mut Vec<String>, present: bool, option: &str, value: Option<&String>)
    ensures
        texts(final(args)@) == with_option(
            texts(old(args)@),
            present,
            option@,
            match value {
                Some(text) => Some(text@),
                None => None,
            },
        ),
{
    if !present {
        match value {
            Some(text) => {
                push_text(args, option);
                push_text(args, text.as_str());
            },
            None => {},
        }
    }
}

/// The first of two values that is there.
fn either<'a>(a: &'a Option<String>, b: &'a Option<String>) -> (r: Option<&'a String>)
    ensures
        first_of(*a, *b) == (match r {
            Some(text) => Some(text@),
            None => None,
        }),
{
    match a {
        Some(text) => Some(text),
        None => match b {
            Some(text) => Some(text),
            None => None,
        },
    }
}

/// Completes the arguments by the saved selections. `default_output` is the system's
/// default output device, which is used where none was selected.
pub fn complete_arguments(
    args: Vec<String>,
    config: &StandaloneConfig,
    default_output: Option<String>,
) -> (r: Vec<String>)
    ensures
        texts(r@) == completed(texts(args@), *config, default_output),
{
    let has_output: bool = has_option(&args, "--output-device", "-o");
    let has_input: bool = has_option(&args, "--input-device", "-i");
    let has_midi: bool = has_option(&args, "--midi-input", "-m");
    let mut all = args;
    add_option(
        &mut all,
        has_output,
        "--output-device",
        either(&config.output_device, &default_output),
    );
    add_option(&mut all, has_input, "--input-device", config.input_device.as_ref());
    add_option(&mut all, has_midi, "--midi-input", config.midi_input.as_ref());
    let has_rate: bool = has_option(&all, "--sample-rate", "-s");
    match config.sample_rate {
        Some(hz) => {
            let text: String = to_decimal(hz as u64);
            add_option(&mut all, has_rate, "--sample-rate", Some(&text));
        },
        None => {},
    }
    all
}

/// Every argument is accounted for: it is handed to the host, stands alone, or asked
/// for debug logging.
pub proof fn law_no_argument_is_lost(args: Seq<Seq<char>>, i: nat, k: int)
    requires
        i <= k < args.len(),
    ensures
        parts(args, i).host_args.contains(args[k]) || parts(args, i).positional.contains(args[k])
            || (args[k] == "--debug"@ && parts(args, i).debug),
    decreases args.len() - i,
{
    let here = part(args, i);
    let next = i + taken(args, i);
    let rest = parts(args, next);
    let all = parts(args, i);
    if k < next {
        if is_option(args[i as int]) && args[i as int] != "standalone"@ && args[i as int]
            != "--debug"@ {
            assert(here.host_args[k - i] == args[k]);
            assert(all.host_args[k - i] == args[k]);
        } else if args[i as int] == "standalone"@ {
            assert(here.host_args[0] == args[k]);
            assert(all.host_args[0] == args[k]);
        } else if args[i as int] != "--debug"@ {
            assert(here.positional[0] == args[k]);
            assert(all.positional[0] == args[k]);
        }
    } else {
        law_no_argument_is_lost(args, next, k);
        if rest.host_args.contains(args[k]) {
            let j = choose|j: int| 0 <= j < rest.host_args.len() && rest.host_args[j] == args[k];
            assert(all.host_args[here.host_args.len() + j] == args[k]);
        } else if rest.positional.contains(args[k]) {
            let j = choose|j: int| 0 <= j < rest.positional.len() && rest.positional[j] == args[k];
            assert(all.positional[here.positional.len() + j] == args[k]);
        }
    }
}

/// What the command line says is kept: the completed arguments begin with it.
pub proof fn law_completion_keeps_arguments(
    args: Seq<Seq<char>>,
    config: StandaloneConfig,
    default_output: Option<String>,
)
    ensures
        args.is_prefix_of(completed(args, config, default_output)),
{
}

/// An argument stays among the arguments when an option is added, and the option is
/// there afterwards where it has a value.
proof fn lemma_with_option(
    args: Seq<Seq<char>>,
    present: bool,
    option: Seq<char>,
    value: Option<Seq<char>>,
)
    ensures
        forall|text: Seq<char>|
            args.contains(text) ==> #[trigger] with_option(args, present, option, value).contains(
                text,
            ),
        !present && value is Some ==> with_option(args, present, option, value).contains(option),
{
    let after = with_option(args, present, option, value);
    assert forall|text: Seq<char>| args.contains(text) implies #[trigger] after.contains(text) by {
        let i = choose|i: int| 0 <= i < args.len() && args[i] == text;
        assert(after[i] == text);
    }
    if !present && value is Some {
        assert(after[args.len() as int] == option);
    }
}

/// Completing completed arguments adds nothing.
pub proof fn law_completing_twice_is_completing_once(
    args: Seq<Seq<char>>,
    config: StandaloneConfig,
    default_output: Option<String>,
)
    ensures
        ({
            let once = completed(args, config, default_output);
            completed(once, config, default_output) == once
        }),
{
    let output = first_of(config.output_device, default_output);
    let midi = text_of(config.midi_input);
    let has_output = given(args, "--output-device"@, "-o"@);
    let has_input = given(args, "--input-device"@, "-i"@);
    let has_midi = given(args, "--midi-input"@, "-m"@);
    let one = with_option(args, has_output, "--output-device"@, output);
    let two = with_option(one, has_input, "--input-device"@, text_of(config.input_device));
    let three = with_option(two, has_midi, "--midi-input"@, midi);
    lemma_with_option(args, has_output, "--output-device"@, output);
    lemma_with_option(one, has_input, "--input-device"@, text_of(config.input_device));
    lemma_with_option(two, has_midi, "--midi-input"@, midi);
    lemma_with_option(
        three,
        given(three, "--sample-rate"@, "-s"@),
        "--sample-rate"@,
        rate_text(config.sample_rate),
    );
}

/// Every argument goes to its place: `standalone` to the host; `--debug` nowhere, but it
/// asks for debug logging; what starts with `-` to the host, together with the argument
/// behind it where it is one of the options that take a value and there is one behind it;
/// everything else stands alone. The program's name goes to the host.
pub proof fn law_arguments_go_to_their_places(args: Seq<Seq<char>>, i: nat)
    ensures
        args.len() == 0 ==> all_parts(args).host_args.len() == 0 && all_parts(
            args,
        ).positional.len() == 0 && !all_parts(args).debug,
        args.len() > 0 ==> {
            &&& all_parts(args).host_args == seq![args[0]] + parts(args, 1).host_args
            &&& all_parts(args).positional == parts(args, 1).positional
            &&& all_parts(args).debug == parts(args, 1).debug
        },
        i >= args.len() ==> parts(args, i).host_args.len() == 0 && parts(
            args,
            i,
        ).positional.len() == 0 && !parts(args, i).debug,
        i < args.len() ==> {
            let arg = args[i as int];
            let all = parts(args, i);
            let rest = parts(args, i + 1);
            let valued = arg == "--output-device"@ || arg == "-o"@ || arg == "--input-device"@ || arg
                == "-i"@ || arg == "--midi-input"@ || arg == "-m"@ || arg == "--buffer-size"@ || arg
                == "-b"@ || arg == "--sample-rate"@ || arg == "-s"@ || arg == "--input-gain"@ || arg
                == "-g"@ || arg == "--output-gain"@;
            let dashed = arg.len() > 0 && arg[0] == '-';
            if arg == "standalone"@ {
                &&& all.host_args == seq![arg] + rest.host_args
                &&& all.positional == rest.positional
                &&& all.debug == rest.debug
            } else if arg == "--debug"@ {
                &&& all.host_args == rest.host_args
                &&& all.positional == rest.positional
                &&& all.debug
            } else if dashed && valued && i + 1 < args.len() {
                &&& all.host_args == seq![arg, args[(i + 1) as int]] + parts(args, i + 2).host_args
                &&& all.positional == parts(args, i + 2).positional
                &&& all.debug == parts(args, i + 2).debug
            } else if dashed {
                &&& all.host_args == seq![arg] + rest.host_args
                &&& all.positional == rest.positional
                &&& all.debug == rest.debug
            } else {
                &&& all.host_args == rest.host_args
                &&& all.positional == seq![arg] + rest.positional
                &&& all.debug == rest.debug
            }
        },
{
    if args.len() > 0 {
        assert(all_parts(args).positional =~= parts(args, 1).positional);
    }
    if i < args.len() {
        let arg = args[i as int];
        let n = taken(args, i);
        let here = part(args, i);
        let rest = parts(args, i + n);
        assert(parts(args, i) == followed_by(here, rest));
        assert(Seq::<Seq<char>>::empty() + rest.host_args =~= rest.host_args);
        assert(Seq::<Seq<char>>::empty() + rest.positional =~= rest.positional);
        if n == 2 {
            assert(args.subrange(i as int, (i + 2) as int) =~= seq![arg, args[(i + 1) as int]]);
        } else {
            assert(args.subrange(i as int, (i + 1) as int) =~= seq![arg]);
        }
    }
}

/// The arguments are completed in this order, each where neither its long nor its short
/// form is given and there is something to add: the output device that was selected, or
/// else the system's; the input device; the MIDI input; the sample rate in decimal.
pub proof fn law_selections_are_added_in_order(
    args: Seq<Seq<char>>,
    config: StandaloneConfig,
    default_output: Option<String>,
)
    ensures
        ({
            let none = Seq::<Seq<char>>::empty();
            let output = if args.contains("--output-device"@) || args.contains("-o"@) {
                none
            } else {
                match (config.output_device, default_output) {
                    (Some(name), _) => seq!["--output-device"@, name@],
                    (None, Some(name)) => seq!["--output-device"@, name@],
                    _ => none,
                }
            };
            let input = if args.contains("--input-device"@) || args.contains("-i"@) {
                none
            } else {
                match config.input_device {
                    Some(name) => seq!["--input-device"@, name@],
                    None => none,
                }
            };
            let midi = if args.contains("--midi-input"@) || args.contains("-m"@) {
                none
            } else {
                match config.midi_input {
                    Some(name) => seq!["--midi-input"@, name@],
                    None => none,
                }
            };
            let devices = args + output + input + midi;
            let rate = if devices.contains("--sample-rate"@) || devices.contains("-s"@) {
                none
            } else {
                match config.sample_rate {
                    Some(hz) => seq!["--sample-rate"@, decimal(hz as nat)],
                    None => none,
                }
            };
            completed(args, config, default_output) == devices + rate
        }),
{
    let none = Seq::<Seq<char>>::empty();
    let output = if args.contains("--output-device"@) || args.contains("-o"@) {
        none
    } else {
        match (config.output_device, default_output) {
            (Some(name), _) => seq!["--output-device"@, name@],
            (None, Some(name)) => seq!["--output-device"@, name@],
            _ => none,
        }
    };
    let input = if args.contains("--input-device"@) || args.contains("-i"@) {
        none
    } else {
        match config.input_device {
            Some(name) => seq!["--input-device"@, name@],
            None => none,
        }
    };
    let midi = if args.contains("--midi-input"@) || args.contains("-m"@) {
        none
    } else {
        match config.midi_input {
            Some(name) => seq!["--midi-input"@, name@],
            None => none,
        }
    };
    let one = with_option(
        args,
        given(args, "--output-device"@, "-o"@),
        "--output-device"@,
        first_of(config.output_device, default_output),
    );
    let two = with_option(
        one,
        given(args, "--input-device"@, "-i"@),
        "--input-device"@,
        text_of(config.input_device),
    );
    let three = with_option(
        two,
        given(args, "--midi-input"@, "-m"@),
        "--midi-input"@,
        text_of(config.midi_input),
    );
    assert(one =~= args + output);
    assert(two =~= args + output + input);
    assert(three =~= args + output + input + midi);
    let rate = if three.contains("--sample-rate"@) || three.contains("-s"@) {
        none
    } else {
        match config.sample_rate {
            Some(hz) => seq!["--sample-rate"@, decimal(hz as nat)],
            None => none,
        }
    };
    assert(completed(args, config, default_output) =~= three + rate);
}

} // verus!
