//! The command line.
use vstd::prelude::*;

use crate::app::MAX_LENGTH;
use crate::audio;
use crate::audio::{parse_channels, ChannelMap};
use crate::plot::Plot;
use crate::text;
use crate::text::{chars_of, parse_decimal, same};

verus! {

/// What the command line settles.
#[derive(Debug)]
pub struct Config {
    pub fullscreen: bool,
    pub fps: u64,
    pub length: usize,
    pub device: Option<String>,
    pub channels: ChannelMap,
    pub stats: bool,
    /// The display to open on, 0-based.
    pub display: Option<usize>,
    pub list_displays: bool,
    pub list_devices: bool,
    pub plot: Plot,
}

/// A [`Config`] in the contracts.
pub struct Settings {
    pub fullscreen: bool,
    pub fps: u64,
    pub length: usize,
    pub device: Option<Seq<char>>,
    pub channels: Option<Seq<usize>>,
    pub stats: bool,
    pub display: Option<usize>,
    pub list_displays: bool,
    pub list_devices: bool,
    pub plot: Plot,
}

impl View for Config {
    type V = Settings;

    open spec fn view(&self) -> Settings {
        Settings {
            fullscreen: self.fullscreen,
            fps: self.fps,
            length: self.length,
            device: match self.device {
                Some(name) => Some(name@),
                None => None,
            },
            channels: match self.channels {
                Some(map) => Some(map@),
                None => None,
            },
            stats: self.stats,
            display: self.display,
            list_displays: self.list_displays,
            list_devices: self.list_devices,
            plot: self.plot,
        }
    }
}

impl Config {
    /// What holds of every configuration that the program runs with: the matrix
    /// has a side that a texture can have, frames come, and where channels were
    /// asked for there is one, counted from one, per input.
    pub open spec fn wf(self) -> bool {
        &&& 1 <= self.length <= MAX_LENGTH
        &&& self.fps >= 1
        &&& !self.list_devices
        &&& self.channels matches Some(map) ==> {
            &&& map@.len() == self.plot.channels()
            &&& forall|k: int| 0 <= k < map@.len() ==> #[trigger] map@[k] >= 1
        }
    }
}

/// Something to tell before going on.
#[derive(Debug)]
pub enum Notice {
    /// This argument means nothing and is ignored.
    UnknownArgument(String),
    /// The side length was confined to what is possible.
    LengthClamped { from: usize, to: usize },
}

/// A [`Notice`] in the contracts.
pub enum Remark {
    UnknownArgument(Seq<char>),
    LengthClamped { from: usize, to: usize },
}

impl View for Notice {
    type V = Remark;

    open spec fn view(&self) -> Remark {
        match self {
            Notice::UnknownArgument(argument) => Remark::UnknownArgument(argument@),
            Notice::LengthClamped { from, to } => Remark::LengthClamped { from: *from, to: *to },
        }
    }
}

/// How the command line ends.
#[derive(Debug)]
pub enum Outcome {
    /// The program runs.
    Run(Config),
    /// The inputs are listed, for a plot of this many of them.
    ListDevices(usize),
    /// The help is shown.
    Help,
    /// `--display` was given no 1-based number.
    BadDisplay,
    /// `--channels` was given this, which is no list of 1-based numbers.
    BadChannels(String),
    /// `--inputs` was given this, which is neither 2 nor 3.
    BadInputs(String),
    /// `--channels` was given another number of channels than there are inputs.
    ChannelCount { wanted: usize, got: usize },
}

/// An [`Outcome`] in the contracts.
pub enum Verdict {
    Run(Settings),
    ListDevices(nat),
    Help,
    BadDisplay,
    BadChannels(Seq<char>),
    BadInputs(Seq<char>),
    ChannelCount { wanted: nat, got: nat },
}

impl View for Outcome {
    type V = Verdict;

    open spec fn view(&self) -> Verdict {
        match self {
            Outcome::Run(cfg) => Verdict::Run(cfg@),
            Outcome::ListDevices(inputs) => Verdict::ListDevices(*inputs as nat),
            Outcome::Help => Verdict::Help,
            Outcome::BadDisplay => Verdict::BadDisplay,
            Outcome::BadChannels(raw) => Verdict::BadChannels(raw@),
            Outcome::BadInputs(raw) => Verdict::BadInputs(raw@),
            Outcome::ChannelCount { wanted, got } => Verdict::ChannelCount {
                wanted: *wanted as nat,
                got: *got as nat,
            },
        }
    }
}

/// What comes of a command line.
#[derive(Debug)]
pub struct Startup {
    /// What to tell, in order, before anything else.
    pub notices: Vec<Notice>,
    pub outcome: Outcome,
}

/// The configuration without any argument.
pub open spec fn defaults() -> Settings {
    Settings {
        fullscreen: false,
        fps: 60,
        length: 1000,
        device: None,
        channels: None,
        stats: false,
        display: None,
        list_displays: false,
        list_devices: false,
        plot: Plot::Three,
    }
}

/// Whether the argument after this one belongs to it.
pub open spec fn takes_value(flag: Seq<char>) -> bool {
    ||| flag == "--fps"@
    ||| flag == "--length"@
    ||| flag == "--device"@
    ||| flag == "--display"@
    ||| flag == "--channels"@
    ||| flag == "--inputs"@
}

/// What one argument does.
pub enum Effect {
    /// It changes the settings, or leaves them.
    Change(Settings),
    /// It means nothing.
    Unknown,
    /// It ends the reading.
    Stop(Verdict),
}

/// The number that a value spells, if there is a value and it spells one.
pub open spec fn number(value: Option<Seq<char>>, max: int) -> Option<int> {
    match value {
        Some(v) => text::decimal_within(v, max),
        None => None,
    }
}

/// What the argument `flag` does, with the value after it where it takes one.
pub open spec fn effect(cfg: Settings, flag: Seq<char>, value: Option<Seq<char>>) -> Effect {
    if flag == "-f"@ || flag == "--fullscreen"@ {
        Effect::Change(Settings { fullscreen: true, ..cfg })
    } else if flag == "--fps"@ {
        match number(value, u64::MAX as int) {
            Some(n) => Effect::Change(Settings { fps: n as u64, ..cfg }),
            None => Effect::Change(cfg),
        }
    } else if flag == "--length"@ {
        match number(value, usize::MAX as int) {
            Some(n) => Effect::Change(Settings { length: n as usize, ..cfg }),
            None => Effect::Change(cfg),
        }
    } else if flag == "--device"@ {
        Effect::Change(Settings { device: value, ..cfg })
    } else if flag == "--stats"@ {
        Effect::Change(Settings { stats: true, ..cfg })
    } else if flag == "--display"@ {
        match number(value, usize::MAX as int) {
            Some(n) => if n >= 1 {
                Effect::Change(Settings { display: Some((n - 1) as usize), ..cfg })
            } else {
                Effect::Stop(Verdict::BadDisplay)
            },
            None => Effect::Stop(Verdict::BadDisplay),
        }
    } else if flag == "--list-displays"@ {
        Effect::Change(Settings { list_displays: true, ..cfg })
    } else if flag == "--channels"@ {
        let raw = match value {
            Some(v) => v,
            None => Seq::empty(),
        };
        match audio::channel_list(raw) {
            Some(map) => Effect::Change(Settings { channels: Some(map), ..cfg }),
            None => Effect::Stop(Verdict::BadChannels(raw)),
        }
    } else if flag == "--list-devices"@ {
        Effect::Change(Settings { list_devices: true, ..cfg })
    } else if flag == "--inputs"@ {
        match value {
            Some(v) => if v == "2"@ {
                Effect::Change(Settings { plot: Plot::Two, ..cfg })
            } else if v == "3"@ {
                Effect::Change(Settings { plot: Plot::Three, ..cfg })
            } else {
                Effect::Stop(Verdict::BadInputs(v))
            },
            None => Effect::Stop(Verdict::BadInputs(Seq::empty())),
        }
    } else if flag == "-h"@ || flag == "--help"@ {
        Effect::Stop(Verdict::Help)
    } else {
        Effect::Unknown
    }
}

/// The value that belongs to the argument at `at`, if it takes one and there is
/// one.
pub open spec fn value_at(args: Seq<Seq<char>>, at: int) -> Option<Seq<char>> {
    if takes_value(args[at]) && at + 1 < args.len() {
        Some(args[at + 1])
    } else {
        None
    }
}

/// Reads the arguments from `at` on, one after the other, until one ends it.
pub open spec fn scan(args: Seq<Seq<char>>, at: int, cfg: Settings, remarks: Seq<Remark>) -> (
    Seq<Remark>,
    Result<Settings, Verdict>,
)
    decreases args.len() - at,
{
    if at >= args.len() {
        (remarks, Ok(cfg))
    } else {
        let value = value_at(args, at);
        let next = if value is Some {
            at + 2
        } else {
            at + 1
        };
        match effect(cfg, args[at], value) {
            Effect::Change(set) => scan(args, next, set, remarks),
            Effect::Unknown => scan(
                args,
                next,
                cfg,
                remarks.push(Remark::UnknownArgument(args[at])),
            ),
            Effect::Stop(verdict) => (remarks, Err(verdict)),
        }
    }
}

/// The side length confined to what is possible.
pub open spec fn clamped(length: usize) -> usize {
    if length < 1 {
        1
    } else if length > MAX_LENGTH {
        MAX_LENGTH
    } else {
        length
    }
}

/// What is left to decide once all arguments are in. The number of channels is
/// among it: `--inputs` may come after `--channels`.
pub open spec fn settle(cfg: Settings, remarks: Seq<Remark>) -> (Seq<Remark>, Verdict) {
    let settled = Settings {
        length: clamped(cfg.length),
        fps: if cfg.fps < 1 {
            1
        } else {
            cfg.fps
        },
        ..cfg
    };
    let told = if settled.length != cfg.length {
        remarks.push(Remark::LengthClamped { from: cfg.length, to: settled.length })
    } else {
        remarks
    };
    let wanted = cfg.plot.channels();
    if cfg.channels matches Some(map) && map.len() != wanted {
        (told, Verdict::ChannelCount { wanted, got: cfg.channels->0.len() })
    } else if cfg.list_devices {
        (told, Verdict::ListDevices(wanted))
    } else {
        (told, Verdict::Run(settled))
    }
}

/// What comes of a command line.
pub open spec fn startup(args: Seq<Seq<char>>) -> (Seq<Remark>, Verdict) {
    let (remarks, read) = scan(args, 0, defaults(), Seq::empty());
    match read {
        Ok(cfg) => settle(cfg, remarks),
        Err(verdict) => (remarks, verdict),
    }
}

/// The arguments as texts.
pub open spec fn texts(args: Seq<String>) -> Seq<Seq<char>> {
    args.map_values(|arg: String| arg@)
}

/// The notices as remarks.
pub open spec fn remarks(notices: Seq<Notice>) -> Seq<Remark> {
    notices.map_values(|notice: Notice| notice@)
}

/// What one argument did to the configuration.
enum Step {
    Changed,
    Unknown,
    Stop(Outcome),
}

/// Whether the argument after this one belongs to it.
fn wants_value(flag: &str) -> (r: bool)
    ensures
        r == takes_value(flag@),
{
    same(flag, "--fps") || same(flag, "--length") || same(flag, "--device") || same(
        flag,
        "--display",
    ) || same(flag, "--channels") || same(flag, "--inputs")
}

/// Reads the number that a value spells.
fn read_number(value: Option<&String>, max: u64) -> (r: Option<u64>)
    ensures
        r matches Some(n) ==> number(
            match value {
                Some(v) => Some(v@),
                None => None,
            },
            max as int,
        ) == Some(n as int),
        r is None ==> number(
            match value {
                Some(v) => Some(v@),
                None => None,
            },
            max as int,
        ) is None,
{
    match value {
        Some(v) => {
            let chars: Vec<char> = chars_of(v.as_str());
            parse_decimal(chars.as_slice(), max)
        },
        None => None,
    }
}

impl Config {
    /// The configuration without any argument.
    pub fn new() -> (r: Self)
        ensures
            r@ == defaults(),
            r.wf(),
    {
        Config {
            fullscreen: false,
            fps: 60,
            length: 1000,
            device: None,
            channels: None,
            stats: false,
            display: None,
            list_displays: false,
            list_devices: false,
            plot: Plot::Three,
        }
    }

    /// The channels that were asked for are counted from one.
    spec fn channels_positive(self) -> bool {
        self.channels matches Some(map) ==> forall|k: int|
            0 <= k < map@.len() ==> #[trigger] map@[k] >= 1
    }

    /// Applies one argument, with the value after it where it takes one.
    fn apply(&mut self, flag: &str, value: Option<&String>) -> (r: Step)
        requires
            old(self).channels_positive(),
        ensures
            final(self).channels_positive(),
            match effect(
                old(self)@,
                flag@,
                match value {
                    Some(v) => Some(v@),
                    None => None,
                },
            ) {
                Effect::Change(set) => r is Changed && final(self)@ == set,
                Effect::Unknown => r is Unknown && *final(self) == *old(self),
                Effect::Stop(verdict) => r matches Step::Stop(outcome) && outcome@ == verdict
                    && !(outcome is Run),
            },
    {
        if same(flag, "-f") || same(flag, "--fullscreen") {
            self.fullscreen = true;
        } else if same(flag, "--fps") {
            if let Some(n) = read_number(value, u64::MAX) {
                self.fps = n;
            }
        } else if same(flag, "--length") {
            if let Some(n) = read_number(value, usize::MAX as u64) {
                self.length = n as usize;
            }
        } else if same(flag, "--device") {
            self.device = match value {
                Some(v) => Some(v.clone()),
                None => None,
            };
        } else if same(flag, "--stats") {
            self.stats = true;
        } else if same(flag, "--display") {
            match read_number(value, usize::MAX as u64) {
                Some(n) => {
                    if n < 1 {
                        return Step::Stop(Outcome::BadDisplay);
                    }
                    self.display = Some((n - 1) as usize);
                },
                None => {
                    return Step::Stop(Outcome::BadDisplay);
                },
            }
        } else if same(flag, "--list-displays") {
            self.list_displays = true;
        } else if same(flag, "--channels") {
            let raw: String = match value {
                Some(v) => v.clone(),
                None => String::new(),
            };
            match parse_channels(raw.as_str()) {
                Some(map) => {
                    self.channels = Some(map);
                },
                None => {
                    return Step::Stop(Outcome::BadChannels(raw));
                },
            }
        } else if same(flag, "--list-devices") {
            self.list_devices = true;
        } else if same(flag, "--inputs") {
            match value {
                Some(v) => {
                    if same(v.as_str(), "2") {
                        self.plot = Plot::Two;
                    } else if same(v.as_str(), "3") {
                        self.plot = Plot::Three;
                    } else {
                        return Step::Stop(Outcome::BadInputs(v.clone()));
                    }
                },
                None => {
                    return Step::Stop(Outcome::BadInputs(String::new()));
                },
            }
        } else if same(flag, "-h") || same(flag, "--help") {
            return Step::Stop(Outcome::Help);
        } else {
            return Step::Unknown;
        }
        Step::Changed
    }

    /// Reads the command line, without the name of the program.
    pub fn from_args(args: &Vec<String>) -> (r: Startup)
        ensures
            (remarks(r.notices@), r.outcome@) == startup(texts(args@)),
            r.outcome matches Outcome::Run(cfg) ==> cfg.wf(),
    {
        let ghost argv = texts(args@);
        let mut cfg: Config = Config::new();
        let mut notices: Vec<Notice> = Vec::new();
        let mut at: usize = 0;
        assert(remarks(notices@) =~= Seq::<Remark>::empty());
        while at < args.len()
            invariant
                argv == texts(args@),
                0 <= at <= args@.len(),
                cfg.channels_positive(),
                scan(argv, 0, defaults(), Seq::empty()) == scan(
                    argv,
                    at as int,
                    cfg@,
                    remarks(notices@),
                ),
            decreases args@.len() - at,
        {
            let flag: &String = &args[at];
            let value: Option<&String> = if wants_value(flag.as_str()) && at < args.len() - 1 {
                Some(&args[at + 1])
            } else {
                None
            };
            let ghost before = remarks(notices@);
            match cfg.apply(flag.as_str(), value) {
                Step::Changed => {},
                Step::Unknown => {
                    notices.push(Notice::UnknownArgument(flag.clone()));
                    assert(remarks(notices@) =~= before.push(Remark::UnknownArgument(flag@)));
                },
                Step::Stop(outcome) => {
                    return Startup { notices, outcome };
                },
            }
            at = if value.is_some() {
                at + 2
            } else {
                at + 1
            };
        }
        let ghost read = cfg@;
        let ghost before = remarks(notices@);
        let length: usize = if cfg.length < 1 {
            1
        } else if cfg.length > MAX_LENGTH {
            MAX_LENGTH
        } else {
            cfg.length
        };
        if length != cfg.length {
            notices.push(Notice::LengthClamped { from: cfg.length, to: length });
            assert(remarks(notices@) =~= before.push(
                Remark::LengthClamped { from: cfg.length, to: length },
            ));
            cfg.length = length;
        }
        if cfg.fps < 1 {
            cfg.fps = 1;
        }
        // `--channels` is read before `--inputs` may have been seen, so the count
        // can only be checked once every argument is in.
        let wanted: usize = cfg.plot.inputs();
        if let Some(map) = &cfg.channels {
            if map.len() != wanted {
                let got: usize = map.len();
                return Startup { notices, outcome: Outcome::ChannelCount { wanted, got } };
            }
        }
        if cfg.list_devices {
            return Startup { notices, outcome: Outcome::ListDevices(wanted) };
        }
        Startup { notices, outcome: Outcome::Run(cfg) }
    }
}

/// What is read depends on the arguments that are left, not on those before.
proof fn lemma_scan_looks_ahead(
    a: Seq<Seq<char>>,
    i: int,
    b: Seq<Seq<char>>,
    j: int,
    cfg: Settings,
    told: Seq<Remark>,
)
    requires
        0 <= i <= a.len(),
        0 <= j <= b.len(),
        a.skip(i) == b.skip(j),
    ensures
        scan(a, i, cfg, told) == scan(b, j, cfg, told),
    decreases a.len() - i,
{
    assert(a.len() - i == a.skip(i).len() && b.len() - j == b.skip(j).len());
    if i < a.len() {
        assert(a[i] == a.skip(i)[0] && b[j] == b.skip(j)[0]);
        if i + 1 < a.len() {
            assert(a[i + 1] == a.skip(i)[1] && b[j + 1] == b.skip(j)[1]);
        }
        assert(value_at(a, i) == value_at(b, j));
        let step: int = if value_at(a, i) is Some {
            2
        } else {
            1
        };
        assert(a.skip(i + step) =~= a.skip(i).skip(step));
        assert(b.skip(j + step) =~= b.skip(j).skip(step));
        match effect(cfg, a[i], value_at(a, i)) {
            Effect::Change(changed) => {
                lemma_scan_looks_ahead(a, i + step, b, j + step, changed, told);
            },
            Effect::Unknown => {
                lemma_scan_looks_ahead(
                    a,
                    i + step,
                    b,
                    j + step,
                    cfg,
                    told.push(Remark::UnknownArgument(a[i])),
                );
            },
            Effect::Stop(_) => {},
        }
    }
}

/// The flags are told apart by their text.
proof fn lemma_flags_are_distinct()
    ensures
        takes_value("--inputs"@),
        takes_value("--channels"@),
        forall|cfg: Settings, v: Seq<char>|
            #![trigger effect(cfg, "--inputs"@, Some(v))]
            effect(cfg, "--inputs"@, Some(v)) == if v == "2"@ {
                Effect::Change(Settings { plot: Plot::Two, ..cfg })
            } else if v == "3"@ {
                Effect::Change(Settings { plot: Plot::Three, ..cfg })
            } else {
                Effect::Stop(Verdict::BadInputs(v))
            },
        forall|cfg: Settings, v: Seq<char>|
            #![trigger effect(cfg, "--channels"@, Some(v))]
            effect(cfg, "--channels"@, Some(v)) == match audio::channel_list(v) {
                Some(map) => Effect::Change(Settings { channels: Some(map), ..cfg }),
                None => Effect::Stop(Verdict::BadChannels(v)),
            },
{
    reveal_strlit("-f");
    reveal_strlit("--fullscreen");
    reveal_strlit("--fps");
    reveal_strlit("--length");
    reveal_strlit("--device");
    reveal_strlit("--stats");
    reveal_strlit("--display");
    reveal_strlit("--list-displays");
    reveal_strlit("--channels");
    reveal_strlit("--list-devices");
    reveal_strlit("--inputs");
    assert("--inputs"@[2] == 'i' && "--length"@[2] == 'l' && "--device"@[2] == 'd');
    assert("--channels"@.len() == 10 && "--inputs"@.len() == 8);
}

/// It does not matter whether `--inputs` or `--channels` comes first: whether
/// the number of channels fits is decided when all arguments are in.
pub proof fn law_inputs_and_channels_commute(
    inputs: Seq<char>,
    channels: Seq<char>,
    rest: Seq<Seq<char>>,
    cfg: Settings,
    told: Seq<Remark>,
)
    requires
        inputs == "2"@ || inputs == "3"@,
        audio::channel_list(channels) is Some,
    ensures
        scan(seq!["--inputs"@, inputs, "--channels"@, channels] + rest, 0, cfg, told) == scan(
            seq!["--channels"@, channels, "--inputs"@, inputs] + rest,
            0,
            cfg,
            told,
        ),
{
    lemma_flags_are_distinct();
    reveal_with_fuel(scan, 3);
    let a = seq!["--inputs"@, inputs, "--channels"@, channels] + rest;
    let b = seq!["--channels"@, channels, "--inputs"@, inputs] + rest;
    let plot = if inputs == "2"@ {
        Plot::Two
    } else {
        Plot::Three
    };
    let map = audio::channel_list(channels);
    let both = Settings { plot, channels: map, ..cfg };
    assert(value_at(a, 0) == Some(inputs) && value_at(a, 2) == Some(channels));
    assert(value_at(b, 0) == Some(channels) && value_at(b, 2) == Some(inputs));
    assert(scan(a, 0, cfg, told) == scan(a, 2, Settings { plot, ..cfg }, told));
    assert(scan(a, 2, Settings { plot, ..cfg }, told) == scan(a, 4, both, told));
    assert(scan(b, 0, cfg, told) == scan(b, 2, Settings { channels: map, ..cfg }, told));
    assert(scan(b, 2, Settings { channels: map, ..cfg }, told) == scan(b, 4, both, told));
    assert(a.skip(4) =~= rest && b.skip(4) =~= rest);
    lemma_scan_looks_ahead(a, 4, b, 4, both, told);
}

/// Without arguments the program runs with the defaults, and says nothing.
pub proof fn law_no_arguments_give_the_defaults()
    ensures
        startup(Seq::empty()) == (Seq::<Remark>::empty(), Verdict::Run(defaults())),
{
}

/// The flags are told apart by their text.
proof fn lemma_all_flags_are_distinct()
    ensures
        "-f"@ != "-h"@,
        "--length"@ != "--device"@,
        "--length"@ != "--inputs"@,
        "--device"@ != "--inputs"@,
        "-f"@.len() == 2,
        "-h"@.len() == 2,
        "--fps"@.len() == 5,
        "--help"@.len() == 6,
        "--stats"@.len() == 7,
        "--length"@.len() == 8,
        "--device"@.len() == 8,
        "--inputs"@.len() == 8,
        "--display"@.len() == 9,
        "--channels"@.len() == 10,
        "--fullscreen"@.len() == 12,
        "--list-devices"@.len() == 14,
        "--list-displays"@.len() == 15,
        "2"@ != "3"@,
{
    reveal_strlit("-f");
    reveal_strlit("-h");
    reveal_strlit("--fps");
    reveal_strlit("--help");
    reveal_strlit("--stats");
    reveal_strlit("--length");
    reveal_strlit("--device");
    reveal_strlit("--inputs");
    reveal_strlit("--display");
    reveal_strlit("--channels");
    reveal_strlit("--fullscreen");
    reveal_strlit("--list-devices");
    reveal_strlit("--list-displays");
    reveal_strlit("2");
    reveal_strlit("3");
    assert("-f"@[1] == 'f' && "-h"@[1] == 'h');
    assert("--length"@[2] == 'l' && "--device"@[2] == 'd' && "--inputs"@[2] == 'i');
    assert("2"@[0] == '2' && "3"@[0] == '3');
}

/// What the flags without a value do: each turns its own setting on and leaves all
/// others, and a call for help ends the reading.
pub proof fn law_switches_turn_their_own_setting_on(cfg: Settings, value: Option<Seq<char>>)
    ensures
        effect(cfg, "-f"@, value) == Effect::Change(Settings { fullscreen: true, ..cfg }),
        effect(cfg, "--fullscreen"@, value) == effect(cfg, "-f"@, value),
        effect(cfg, "--stats"@, value) == Effect::Change(Settings { stats: true, ..cfg }),
        effect(cfg, "--list-displays"@, value) == Effect::Change(
            Settings { list_displays: true, ..cfg },
        ),
        effect(cfg, "--list-devices"@, value) == Effect::Change(
            Settings { list_devices: true, ..cfg },
        ),
        effect(cfg, "-h"@, value) == Effect::Stop(Verdict::Help),
        effect(cfg, "--help"@, value) == effect(cfg, "-h"@, value),
{
    lemma_all_flags_are_distinct();
}

/// A setting that the command line can change.
pub enum Setting {
    Fullscreen,
    Fps,
    Length,
    Device,
    Channels,
    Stats,
    Display,
    ListDisplays,
    ListDevices,
    Inputs,
}

/// The setting that a flag is for.
pub open spec fn setting_of(flag: Seq<char>) -> Option<Setting> {
    if flag == "-f"@ || flag == "--fullscreen"@ {
        Some(Setting::Fullscreen)
    } else if flag == "--fps"@ {
        Some(Setting::Fps)
    } else if flag == "--length"@ {
        Some(Setting::Length)
    } else if flag == "--device"@ {
        Some(Setting::Device)
    } else if flag == "--channels"@ {
        Some(Setting::Channels)
    } else if flag == "--stats"@ {
        Some(Setting::Stats)
    } else if flag == "--display"@ {
        Some(Setting::Display)
    } else if flag == "--list-displays"@ {
        Some(Setting::ListDisplays)
    } else if flag == "--list-devices"@ {
        Some(Setting::ListDevices)
    } else if flag == "--inputs"@ {
        Some(Setting::Inputs)
    } else {
        None
    }
}

/// A flag leaves every setting but its own as it was; a text that is no flag is
/// unknown, and a flag is not.
pub proof fn law_flags_leave_other_settings(
    cfg: Settings,
    flag: Seq<char>,
    value: Option<Seq<char>>,
)
    ensures
        effect(cfg, flag, value) matches Effect::Change(set) ==> {
            &&& setting_of(flag) is Some
            &&& setting_of(flag) != Some(Setting::Fullscreen) ==> set.fullscreen == cfg.fullscreen
            &&& setting_of(flag) != Some(Setting::Fps) ==> set.fps == cfg.fps
            &&& setting_of(flag) != Some(Setting::Length) ==> set.length == cfg.length
            &&& setting_of(flag) != Some(Setting::Device) ==> set.device == cfg.device
            &&& setting_of(flag) != Some(Setting::Channels) ==> set.channels == cfg.channels
            &&& setting_of(flag) != Some(Setting::Stats) ==> set.stats == cfg.stats
            &&& setting_of(flag) != Some(Setting::Display) ==> set.display == cfg.display
            &&& setting_of(flag) != Some(Setting::ListDisplays) ==> set.list_displays
                == cfg.list_displays
            &&& setting_of(flag) != Some(Setting::ListDevices) ==> set.list_devices
                == cfg.list_devices
            &&& setting_of(flag) != Some(Setting::Inputs) ==> set.plot == cfg.plot
        },
        effect(cfg, flag, value) is Unknown <==> setting_of(flag) is None && flag != "-h"@ && flag
            != "--help"@,
{
    lemma_all_flags_are_distinct();
}

/// What a flag does to its own setting depends on that setting at most: two
/// configurations that agree on it agree on it afterwards, and a flag is refused with
/// the one just where it is with the other.
#[verifier::rlimit(60)]
#[verifier::spinoff_prover]
pub proof fn law_flags_depend_on_their_own_setting_at_most(
    a: Settings,
    b: Settings,
    flag: Seq<char>,
    value: Option<Seq<char>>,
)
    ensures
        effect(a, flag, value) is Change <==> effect(b, flag, value) is Change,
        effect(a, flag, value) matches Effect::Stop(verdict) ==> effect(b, flag, value)
            == Effect::Stop(verdict),
        effect(a, flag, value) is Change ==> {
            let (x, y) = (effect(a, flag, value)->Change_0, effect(b, flag, value)->Change_0);
            &&& a.fullscreen == b.fullscreen ==> x.fullscreen == y.fullscreen
            &&& a.fps == b.fps ==> x.fps == y.fps
            &&& a.length == b.length ==> x.length == y.length
            &&& a.device == b.device ==> x.device == y.device
            &&& a.channels == b.channels ==> x.channels == y.channels
            &&& a.stats == b.stats ==> x.stats == y.stats
            &&& a.display == b.display ==> x.display == y.display
            &&& a.list_displays == b.list_displays ==> x.list_displays == y.list_displays
            &&& a.list_devices == b.list_devices ==> x.list_devices == y.list_devices
            &&& a.plot == b.plot ==> x.plot == y.plot
        },
{
}

/// The numbers that are given are the numbers that are set: `n` frames a second, a
/// side of `n` cells, and display `n`, counted from one. A text that spells no number,
/// or one too large, leaves the rate and the side, and is refused for a display, as
/// zero is.
pub proof fn law_numbers_are_set_as_given(cfg: Settings, v: Seq<char>)
    ensures
        effect(cfg, "--fps"@, None) == Effect::Change(cfg),
        effect(cfg, "--length"@, None) == Effect::Change(cfg),
        effect(cfg, "--display"@, None) == Effect::Stop(Verdict::BadDisplay),
        match text::decimal(v) {
            Some(n) => {
                &&& 0 <= n <= u64::MAX ==> effect(cfg, "--fps"@, Some(v)) == Effect::Change(
                    Settings { fps: n as u64, ..cfg },
                )
                &&& n > u64::MAX ==> effect(cfg, "--fps"@, Some(v)) == Effect::Change(cfg)
                &&& 0 <= n <= usize::MAX ==> effect(cfg, "--length"@, Some(v)) == Effect::Change(
                    Settings { length: n as usize, ..cfg },
                )
                &&& n > usize::MAX ==> effect(cfg, "--length"@, Some(v)) == Effect::Change(cfg)
                &&& 1 <= n <= usize::MAX ==> effect(cfg, "--display"@, Some(v)) == Effect::Change(
                    Settings { display: Some((n - 1) as usize), ..cfg },
                )
                &&& n < 1 || n > usize::MAX ==> effect(cfg, "--display"@, Some(v))
                    == Effect::Stop(Verdict::BadDisplay)
            },
            None => {
                &&& effect(cfg, "--fps"@, Some(v)) == Effect::Change(cfg)
                &&& effect(cfg, "--length"@, Some(v)) == Effect::Change(cfg)
                &&& effect(cfg, "--display"@, Some(v)) == Effect::Stop(Verdict::BadDisplay)
            },
        },
{
    lemma_all_flags_are_distinct();
}

/// The device that is named is the one that is set, and the channels that are listed
/// are those that are set; a list that is none is refused as it was given, and so is
/// every number of inputs but two and three.
pub proof fn law_names_and_lists_are_set_as_given(
    cfg: Settings,
    v: Seq<char>,
    value: Option<Seq<char>>,
)
    ensures
        effect(cfg, "--device"@, value) == Effect::Change(Settings { device: value, ..cfg }),
        audio::channel_list(v) is Some ==> effect(cfg, "--channels"@, Some(v)) == Effect::Change(
            Settings { channels: audio::channel_list(v), ..cfg },
        ),
        audio::channel_list(v) is None ==> effect(cfg, "--channels"@, Some(v)) == Effect::Stop(
            Verdict::BadChannels(v),
        ),
        effect(cfg, "--channels"@, None) == effect(cfg, "--channels"@, Some(Seq::empty())),
        effect(cfg, "--inputs"@, Some("2"@)) == Effect::Change(
            Settings { plot: Plot::Two, ..cfg },
        ),
        effect(cfg, "--inputs"@, Some("3"@)) == Effect::Change(
            Settings { plot: Plot::Three, ..cfg },
        ),
        v != "2"@ && v != "3"@ ==> effect(cfg, "--inputs"@, Some(v)) == Effect::Stop(
            Verdict::BadInputs(v),
        ),
        effect(cfg, "--inputs"@, None) == Effect::Stop(Verdict::BadInputs(Seq::empty())),
{
    lemma_all_flags_are_distinct();
}

/// The flags that take a value, and no others, use up the argument after them.
pub proof fn law_values_belong_to_their_flags(flag: Seq<char>)
    ensures
        takes_value(flag) <==> (setting_of(flag) matches Some(setting) && match setting {
            Setting::Fps | Setting::Length | Setting::Device => true,
            Setting::Channels | Setting::Display | Setting::Inputs => true,
            _ => false,
        }),
{
    lemma_all_flags_are_distinct();
}

/// The arguments are read in turn. A flag that takes a value is read together with
/// the argument after it, any other alone, and what is left is read from the settings
/// that this leaves. An unknown one is told. Where a flag ends the reading, what is
/// left does not matter.
pub proof fn law_arguments_are_read_in_turn(
    flag: Seq<char>,
    value: Seq<char>,
    rest: Seq<Seq<char>>,
    cfg: Settings,
    told: Seq<Remark>,
)
    ensures
        scan(Seq::empty(), 0, cfg, told) == (told, Ok::<Settings, Verdict>(cfg)),
        takes_value(flag) ==> scan(seq![flag, value] + rest, 0, cfg, told) == match effect(
            cfg,
            flag,
            Some(value),
        ) {
            Effect::Change(set) => scan(rest, 0, set, told),
            Effect::Unknown => scan(rest, 0, cfg, told.push(Remark::UnknownArgument(flag))),
            Effect::Stop(verdict) => (told, Err(verdict)),
        },
        !takes_value(flag) ==> scan(seq![flag] + rest, 0, cfg, told) == match effect(
            cfg,
            flag,
            None,
        ) {
            Effect::Change(set) => scan(rest, 0, set, told),
            Effect::Unknown => scan(rest, 0, cfg, told.push(Remark::UnknownArgument(flag))),
            Effect::Stop(verdict) => (told, Err(verdict)),
        },
        takes_value(flag) ==> scan(seq![flag], 0, cfg, told) == match effect(cfg, flag, None) {
            Effect::Change(set) => (told, Ok(set)),
            Effect::Unknown => (told.push(Remark::UnknownArgument(flag)), Ok(cfg)),
            Effect::Stop(verdict) => (told, Err(verdict)),
        },
{
    let (one, two) = (seq![flag] + rest, seq![flag, value] + rest);
    reveal_with_fuel(scan, 2);
    assert(one.skip(1) =~= rest && two.skip(2) =~= rest && rest.skip(0) =~= rest);
    if takes_value(flag) {
        assert(value_at(two, 0) == Some(value));
        assert(value_at(seq![flag], 0) is None);
        match effect(cfg, flag, Some(value)) {
            Effect::Change(set) => lemma_scan_looks_ahead(two, 2, rest, 0, set, told),
            Effect::Unknown => lemma_scan_looks_ahead(
                two,
                2,
                rest,
                0,
                cfg,
                told.push(Remark::UnknownArgument(flag)),
            ),
            Effect::Stop(_) => {},
        }
    } else {
        assert(value_at(one, 0) is None);
        match effect(cfg, flag, None) {
            Effect::Change(set) => lemma_scan_looks_ahead(one, 1, rest, 0, set, told),
            Effect::Unknown => lemma_scan_looks_ahead(
                one,
                1,
                rest,
                0,
                cfg,
                told.push(Remark::UnknownArgument(flag)),
            ),
            Effect::Stop(_) => {},
        }
    }
}

/// The settings agree on all but one of them.
spec fn agree_but_for(a: Settings, b: Settings, setting: Option<Setting>) -> bool {
    &&& setting != Some(Setting::Fullscreen) ==> a.fullscreen == b.fullscreen
    &&& setting != Some(Setting::Fps) ==> a.fps == b.fps
    &&& setting != Some(Setting::Length) ==> a.length == b.length
    &&& setting != Some(Setting::Device) ==> a.device == b.device
    &&& setting != Some(Setting::Channels) ==> a.channels == b.channels
    &&& setting != Some(Setting::Stats) ==> a.stats == b.stats
    &&& setting != Some(Setting::Display) ==> a.display == b.display
    &&& setting != Some(Setting::ListDisplays) ==> a.list_displays == b.list_displays
    &&& setting != Some(Setting::ListDevices) ==> a.list_devices == b.list_devices
    &&& setting != Some(Setting::Inputs) ==> a.plot == b.plot
}

/// A change from settings that agree with others but for another setting leads to
/// settings that agree but for that one.
proof fn lemma_changes_keep_agreement(
    a: Settings,
    b: Settings,
    flag: Seq<char>,
    value: Option<Seq<char>>,
    other: Option<Setting>,
)
    requires
        effect(a, flag, value) is Change,
        agree_but_for(a, b, other),
    ensures
        effect(b, flag, value) is Change,
        agree_but_for(effect(a, flag, value)->Change_0, effect(b, flag, value)->Change_0, other),
{
    law_flags_depend_on_their_own_setting_at_most(a, b, flag, value);
}

/// A change agrees with the settings before it but for the setting of the flag.
proof fn lemma_changes_agree(cfg: Settings, flag: Seq<char>, value: Option<Seq<char>>)
    requires
        effect(cfg, flag, value) is Change,
    ensures
        agree_but_for(cfg, effect(cfg, flag, value)->Change_0, setting_of(flag)),
{
    law_flags_leave_other_settings(cfg, flag, value);
}

/// Settings that agree with the same settings but for one, and with others but for
/// another, agree with each other.
proof fn lemma_agreement_is_equality(
    a: Settings,
    b: Settings,
    x: Settings,
    y: Settings,
    one: Option<Setting>,
    another: Option<Setting>,
)
    requires
        one != another,
        agree_but_for(b, x, one),
        agree_but_for(b, y, one),
        agree_but_for(a, x, another),
        agree_but_for(a, y, another),
    ensures
        x == y,
{
}

/// Flags for different settings may take effect in either order.
proof fn lemma_effects_commute(
    cfg: Settings,
    a: Seq<char>,
    value_a: Option<Seq<char>>,
    b: Seq<char>,
    value_b: Option<Seq<char>>,
)
    requires
        setting_of(a) != setting_of(b),
        effect(cfg, a, value_a) is Change,
        effect(cfg, b, value_b) is Change,
    ensures
        effect(effect(cfg, a, value_a)->Change_0, b, value_b) is Change,
        effect(effect(cfg, b, value_b)->Change_0, a, value_a) is Change,
        effect(effect(cfg, a, value_a)->Change_0, b, value_b)->Change_0 == effect(
            effect(cfg, b, value_b)->Change_0,
            a,
            value_a,
        )->Change_0,
{
    let after_a = effect(cfg, a, value_a)->Change_0;
    let after_b = effect(cfg, b, value_b)->Change_0;
    let (one, another) = (setting_of(a), setting_of(b));
    lemma_changes_agree(cfg, a, value_a);
    lemma_changes_agree(cfg, b, value_b);
    lemma_changes_keep_agreement(cfg, after_a, b, value_b, one);
    lemma_changes_keep_agreement(cfg, after_b, a, value_a, another);
    lemma_changes_agree(after_a, b, value_b);
    lemma_changes_agree(after_b, a, value_a);
    lemma_agreement_is_equality(
        after_a,
        after_b,
        effect(after_a, b, value_b)->Change_0,
        effect(after_b, a, value_a)->Change_0,
        one,
        another,
    );
}

/// A flag as it is written: with its value, where it takes one.
pub open spec fn written(flag: Seq<char>, value: Seq<char>) -> Seq<Seq<char>> {
    if takes_value(flag) {
        seq![flag, value]
    } else {
        seq![flag]
    }
}

/// Flags for different settings may come in either order, whatever comes after
/// them.
pub proof fn law_flags_commute(
    a: Seq<char>,
    va: Seq<char>,
    b: Seq<char>,
    vb: Seq<char>,
    rest: Seq<Seq<char>>,
    cfg: Settings,
    told: Seq<Remark>,
)
    requires
        setting_of(a) is Some,
        setting_of(b) is Some,
        setting_of(a) != setting_of(b),
        effect(cfg, a, if takes_value(a) { Some(va) } else { None }) is Change,
        effect(cfg, b, if takes_value(b) { Some(vb) } else { None }) is Change,
    ensures
        scan(written(a, va) + (written(b, vb) + rest), 0, cfg, told) == scan(
            written(b, vb) + (written(a, va) + rest),
            0,
            cfg,
            told,
        ),
{
    let value_a = if takes_value(a) {
        Some(va)
    } else {
        None
    };
    let value_b = if takes_value(b) {
        Some(vb)
    } else {
        None
    };
    let after_a = effect(cfg, a, value_a)->Change_0;
    let after_b = effect(cfg, b, value_b)->Change_0;
    law_arguments_are_read_in_turn(a, va, written(b, vb) + rest, cfg, told);
    law_arguments_are_read_in_turn(b, vb, rest, after_a, told);
    law_arguments_are_read_in_turn(b, vb, written(a, va) + rest, cfg, told);
    law_arguments_are_read_in_turn(a, va, rest, after_b, told);
    lemma_effects_commute(cfg, a, value_a, b, value_b);
}

/// Once all arguments are in, the side is confined to 1 to 4096, which is told where
/// it changes it, and the rate is at least one. A number of channels that is not the
/// number of inputs is refused; otherwise the devices are listed where that was asked
/// for, or the program runs with all other settings as they were read.
pub proof fn law_settings_are_settled(cfg: Settings, told: Seq<Remark>)
    ensures
        ({
            let (remarks, verdict) = settle(cfg, told);
            let wanted: nat = match cfg.plot {
                Plot::Two => 2,
                Plot::Three => 3,
            };
            let length: usize = if cfg.length == 0 {
                1
            } else if cfg.length > 4096 {
                4096
            } else {
                cfg.length
            };
            &&& length == cfg.length ==> remarks == told
            &&& length != cfg.length ==> remarks == told.push(
                Remark::LengthClamped { from: cfg.length, to: length },
            )
            &&& match cfg.channels {
                Some(map) => map.len() != wanted ==> verdict == (Verdict::ChannelCount {
                    wanted,
                    got: map.len(),
                }),
                None => true,
            }
            &&& (cfg.channels is None || cfg.channels->0.len() == wanted) ==> {
                &&& cfg.list_devices ==> verdict == Verdict::ListDevices(wanted)
                &&& !cfg.list_devices ==> verdict == Verdict::Run(
                    Settings {
                        length,
                        fps: if cfg.fps == 0 {
                            1
                        } else {
                            cfg.fps
                        },
                        ..cfg
                    },
                )
            }
        }),
{
}

/// A command line starts from 60 frames a second, a side of 1000 cells and three
/// inputs, with nothing else asked for; it is read, and then settled unless the
/// reading ended early.
pub proof fn law_command_lines_start_from_the_defaults(args: Seq<Seq<char>>)
    ensures
        startup(args) == match scan(
            args,
            0,
            Settings {
                fullscreen: false,
                fps: 60,
                length: 1000,
                device: None,
                channels: None,
                stats: false,
                display: None,
                list_displays: false,
                list_devices: false,
                plot: Plot::Three,
            },
            Seq::empty(),
        ) {
            (told, Ok(cfg)) => settle(cfg, told),
            (told, Err(verdict)) => (told, verdict),
        },
{
}

/// A configuration is seen as what it holds, setting by setting.
pub proof fn law_configurations_are_what_they_hold(cfg: Config)
    ensures
        cfg@.fullscreen == cfg.fullscreen,
        cfg@.fps == cfg.fps,
        cfg@.length == cfg.length,
        cfg.device matches Some(name) ==> cfg@.device == Some(name@),
        cfg.device is None ==> cfg@.device is None,
        cfg.channels matches Some(map) ==> cfg@.channels == Some(map@),
        cfg.channels is None ==> cfg@.channels is None,
        cfg@.stats == cfg.stats,
        cfg@.display == cfg.display,
        cfg@.list_displays == cfg.list_displays,
        cfg@.list_devices == cfg.list_devices,
        cfg@.plot == cfg.plot,
{
}

/// Outcomes and notices are seen as what they hold, and arguments as their texts, one
/// for one.
pub proof fn law_outcomes_are_what_they_hold(
    cfg: Config,
    text: String,
    n: usize,
    m: usize,
    args: Seq<String>,
    notices: Seq<Notice>,
    i: int,
)
    ensures
        Outcome::Run(cfg)@ == Verdict::Run(cfg@),
        Outcome::ListDevices(n)@ == Verdict::ListDevices(n as nat),
        Outcome::Help@ == Verdict::Help,
        Outcome::BadDisplay@ == Verdict::BadDisplay,
        Outcome::BadChannels(text)@ == Verdict::BadChannels(text@),
        Outcome::BadInputs(text)@ == Verdict::BadInputs(text@),
        (Outcome::ChannelCount { wanted: n, got: m })@ == (Verdict::ChannelCount {
            wanted: n as nat,
            got: m as nat,
        }),
        Notice::UnknownArgument(text)@ == Remark::UnknownArgument(text@),
        (Notice::LengthClamped { from: n, to: m })@ == (Remark::LengthClamped { from: n, to: m }),
        texts(args).len() == args.len(),
        0 <= i < args.len() ==> texts(args)[i] == args[i]@,
        remarks(notices).len() == notices.len(),
        0 <= i < notices.len() ==> remarks(notices)[i] == notices[i]@,
{
}

} // verus!
