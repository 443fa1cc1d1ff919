//! The command lines of the two programs.

use vstd::prelude::*;
use crate::ipc;
use crate::number;
use crate::quantity;
use crate::sweep;
use crate::text;

verus! {

/// Why a command line does not lead to a run.
#[derive(Debug, PartialEq)]
pub enum Stop {
    /// Print the usage and exit with 0.
    Help,
    /// Print the version and exit with 0.
    Version,
    /// A flag lacks its value: print so and exit with 2.
    Missing(String),
    /// Print the message and a pointer to the usage, and exit with 2.
    Fail(String),
}

/// A [`Stop`] with its text as character sequences.
pub enum StopView {
    Help,
    Version,
    Missing(Seq<char>),
    Fail(Seq<char>),
}

impl View for Stop {
    type V = StopView;

    open spec fn view(&self) -> StopView {
        match self {
            Stop::Help => StopView::Help,
            Stop::Version => StopView::Version,
            Stop::Missing(s) => StopView::Missing(s@),
            Stop::Fail(s) => StopView::Fail(s@),
        }
    }
}

// ---- fanctld --------------------------------------------------------------

/// The arguments of `fanctld`.
#[derive(Debug, PartialEq)]
pub struct Args {
    pub sock: Option<String>,
    pub config_path: Option<String>,
    pub probe: bool,
    pub summary: bool,
    pub sets: Vec<String>,
    pub sweep: Option<String>,
    pub sweep_step: Option<u8>,
    /// In nanoseconds.
    pub sweep_settle: Option<i64>,
}

/// An [`Args`] with its text as character sequences.
pub struct ArgsView {
    pub sock: Option<Seq<char>>,
    pub config_path: Option<Seq<char>>,
    pub probe: bool,
    pub summary: bool,
    pub sets: Seq<Seq<char>>,
    pub sweep: Option<Seq<char>>,
    pub sweep_step: Option<u8>,
    pub sweep_settle: Option<i64>,
}

impl View for Args {
    type V = ArgsView;

    open spec fn view(&self) -> ArgsView {
        ArgsView {
            sock: self.sock.deep_view(),
            config_path: self.config_path.deep_view(),
            probe: self.probe,
            summary: self.summary,
            sets: self.sets.deep_view(),
            sweep: self.sweep.deep_view(),
            sweep_step: self.sweep_step,
            sweep_settle: self.sweep_settle,
        }
    }
}

/// A flag of `fanctld`.
#[derive(Debug, Clone, Copy, PartialEq, Eq, Structural)]
pub enum Flag {
    Config,
    Sock,
    Probe,
    Summary,
    SetMode,
    Sweep,
    Step,
    Settle,
    Help,
    Version,
    Unknown,
}

/// The flag that an argument is.
pub open spec fn flag_of(s: Seq<char>) -> Flag {
    if s == "-c"@ || s == "--config"@ {
        Flag::Config
    } else if s == "--sock"@ {
        Flag::Sock
    } else if s == "--probe"@ {
        Flag::Probe
    } else if s == "--summary"@ {
        Flag::Summary
    } else if s == "--set"@ {
        Flag::SetMode
    } else if s == "--sweep"@ {
        Flag::Sweep
    } else if s == "--step"@ {
        Flag::Step
    } else if s == "--settle"@ {
        Flag::Settle
    } else if s == "-h"@ || s == "--help"@ {
        Flag::Help
    } else if s == "-V"@ || s == "--version"@ {
        Flag::Version
    } else {
        Flag::Unknown
    }
}

fn find_flag(s: &str) -> (r: Flag)
    ensures
        r == flag_of(s@),
{
    if text::str_eq(s, "-c") || text::str_eq(s, "--config") {
        Flag::Config
    } else if text::str_eq(s, "--sock") {
        Flag::Sock
    } else if text::str_eq(s, "--probe") {
        Flag::Probe
    } else if text::str_eq(s, "--summary") {
        Flag::Summary
    } else if text::str_eq(s, "--set") {
        Flag::SetMode
    } else if text::str_eq(s, "--sweep") {
        Flag::Sweep
    } else if text::str_eq(s, "--step") {
        Flag::Step
    } else if text::str_eq(s, "--settle") {
        Flag::Settle
    } else if text::str_eq(s, "-h") || text::str_eq(s, "--help") {
        Flag::Help
    } else if text::str_eq(s, "-V") || text::str_eq(s, "--version") {
        Flag::Version
    } else {
        Flag::Unknown
    }
}

/// How a flag that takes a value is called where the value is missing;
/// `None` for a flag that takes none.
pub open spec fn value_name(f: Flag) -> Option<Seq<char>> {
    match f {
        Flag::Config => Some("-c"@),
        Flag::Sock => Some("--sock"@),
        Flag::SetMode => Some("--set"@),
        Flag::Sweep => Some("--sweep"@),
        Flag::Step => Some("--step"@),
        Flag::Settle => Some("--settle"@),
        _ => None,
    }
}

fn missing_value(f: Flag) -> (r: Option<Stop>)
    ensures
        r is Some <==> value_name(f) is Some,
        r matches Some(s) ==> s@ == StopView::Missing(value_name(f)->0),
{
    match f {
        Flag::Config => Some(Stop::Missing(text::owned("-c"))),
        Flag::Sock => Some(Stop::Missing(text::owned("--sock"))),
        Flag::SetMode => Some(Stop::Missing(text::owned("--set"))),
        Flag::Sweep => Some(Stop::Missing(text::owned("--sweep"))),
        Flag::Step => Some(Stop::Missing(text::owned("--step"))),
        Flag::Settle => Some(Stop::Missing(text::owned("--settle"))),
        _ => None,
    }
}

/// The arguments with a flag and its value taken in. A flag that takes no
/// value is given its own text.
pub open spec fn with_flag(a: ArgsView, f: Flag, v: Seq<char>) -> Result<ArgsView, StopView> {
    match f {
        Flag::Config => Ok(ArgsView { config_path: Some(v), ..a }),
        Flag::Sock => Ok(ArgsView { sock: Some(v), ..a }),
        Flag::Probe => Ok(ArgsView { probe: true, ..a }),
        Flag::Summary => Ok(ArgsView { summary: true, ..a }),
        Flag::SetMode => Ok(ArgsView { sets: a.sets.push(v), ..a }),
        Flag::Sweep => Ok(ArgsView { sweep: Some(v), ..a }),
        Flag::Step => match number::parsed_nat(text::trimmed(v), 255) {
            Some(n) => if 1 <= n <= 50 {
                Ok(ArgsView { sweep_step: Some(n as u8), ..a })
            } else {
                Err(bad_step(v))
            },
            None => Err(bad_step(v)),
        },
        Flag::Settle => match quantity::parsed_number(text::trimmed(v)) {
            Some(n) => match n.within(200_000_000, 60_000_000_000) {
                Some(t) => Ok(ArgsView { sweep_settle: Some(t as i64), ..a }),
                None => Err(bad_settle(v)),
            },
            None => Err(bad_settle(v)),
        },
        Flag::Help => Err(StopView::Help),
        Flag::Version => Err(StopView::Version),
        Flag::Unknown => Err(StopView::Fail("unknown flag "@ + text::debug_text(v))),
    }
}

/// What is said of a bad `--step`.
pub open spec fn bad_step(v: Seq<char>) -> StopView {
    StopView::Fail(
        "bad --step value "@ + text::debug_text(v) + ": expected a percent in 1..=50"@,
    )
}

/// What is said of a bad `--settle`.
pub open spec fn bad_settle(v: Seq<char>) -> StopView {
    StopView::Fail(
        "bad --settle value "@ + text::debug_text(v) + ": expected seconds in 0.2..=60"@,
    )
}

/// The arguments from `i` on taken in, up to the first that stops the run.
pub open spec fn args_from(args: Seq<Seq<char>>, i: nat, a: ArgsView) -> Result<ArgsView, StopView>
    decreases args.len() - i,
{
    if i >= args.len() {
        Ok(a)
    } else {
        let f = flag_of(args[i as int]);
        match value_name(f) {
            Some(name) => if i + 1 >= args.len() {
                Err(StopView::Missing(name))
            } else {
                match with_flag(a, f, args[i as int + 1]) {
                    Ok(b) => args_from(args, i + 2, b),
                    Err(s) => Err(s),
                }
            },
            None => match with_flag(a, f, args[i as int]) {
                Ok(b) => args_from(args, i + 1, b),
                Err(s) => Err(s),
            },
        }
    }
}

/// No arguments.
pub open spec fn no_args() -> ArgsView {
    ArgsView {
        sock: None,
        config_path: None,
        probe: false,
        summary: false,
        sets: Seq::empty(),
        sweep: None,
        sweep_step: None,
        sweep_settle: None,
    }
}

/// The command line of `fanctld`. `--step` and `--settle` only go with
/// `--sweep`.
pub open spec fn args_in(args: Seq<Seq<char>>) -> Result<ArgsView, StopView> {
    match args_from(args, 0, no_args()) {
        Ok(a) => if (a.sweep_step is Some || a.sweep_settle is Some) && a.sweep is None {
            Err(StopView::Fail("--step and --settle require --sweep"@))
        } else {
            Ok(a)
        },
        Err(s) => Err(s),
    }
}

/// A result with its text as character sequences.
pub open spec fn args_result(r: Result<Args, Stop>) -> Result<ArgsView, StopView> {
    match r {
        Ok(a) => Ok(a@),
        Err(s) => Err(s@),
    }
}

impl Args {
    fn take(self, f: Flag, v: &String) -> (r: Result<Args, Stop>)
        ensures
            args_result(r) == with_flag(self@, f, v@),
    {
        let mut a = self;
        match f {
            Flag::Config => {
                a.config_path = Some(v.clone());
            },
            Flag::Sock => {
                a.sock = Some(v.clone());
            },
            Flag::Probe => {
                a.probe = true;
            },
            Flag::Summary => {
                a.summary = true;
            },
            Flag::SetMode => {
                let ghost before = a.sets.deep_view();
                a.sets.push(v.clone());
                assert(a.sets.deep_view() =~= before.push(v@));
            },
            Flag::Sweep => {
                a.sweep = Some(v.clone());
            },
            Flag::Step => {
                let t = text::trim(v.as_str());
                match number::parse_u64(t.as_str(), 255) {
                    Some(n) => {
                        if 1 <= n && n <= 50 {
                            a.sweep_step = Some(n as u8);
                            return Ok(a);
                        }
                    },
                    None => {},
                }
                let quoted = text::debug_quoted(v.as_str());
                return Err(
                    Stop::Fail(
                        text::cat3(
                            "bad --step value ",
                            quoted.as_str(),
                            ": expected a percent in 1..=50",
                        ),
                    ),
                );
            },
            Flag::Settle => {
                let t = text::trim(v.as_str());
                match quantity::parse_number(t.as_str()) {
                    Some(n) => match n.in_range(200_000_000, 60_000_000_000) {
                        Some(s) => {
                            a.sweep_settle = Some(s);
                            return Ok(a);
                        },
                        None => {},
                    },
                    None => {},
                }
                let quoted = text::debug_quoted(v.as_str());
                return Err(
                    Stop::Fail(
                        text::cat3(
                            "bad --settle value ",
                            quoted.as_str(),
                            ": expected seconds in 0.2..=60",
                        ),
                    ),
                );
            },
            Flag::Help => {
                return Err(Stop::Help);
            },
            Flag::Version => {
                return Err(Stop::Version);
            },
            Flag::Unknown => {
                let quoted = text::debug_quoted(v.as_str());
                return Err(Stop::Fail(text::cat("unknown flag ", quoted.as_str())));
            },
        }
        Ok(a)
    }
}

/// Parse the command line of `fanctld` (without the program's name).
pub fn parse_args(args: &Vec<String>) -> (r: Result<Args, Stop>)
    ensures
        args_result(r) == args_in(args.deep_view()),
{
    let ghost s = args.deep_view();
    let mut a = Args {
        sock: None,
        config_path: None,
        probe: false,
        summary: false,
        sets: Vec::new(),
        sweep: None,
        sweep_step: None,
        sweep_settle: None,
    };
    assert(a.sets.deep_view() =~= Seq::<Seq<char>>::empty());
    let mut i: usize = 0;
    while i < args.len()
        invariant
            i <= args@.len(),
            s == args.deep_view(),
            args_from(s, 0, no_args()) == args_from(s, i as nat, a@),
        decreases args@.len() - i,
    {
        assert(s[i as int] == args@[i as int]@);
        let f = find_flag(args[i].as_str());
        let taken = match missing_value(f) {
            Some(stop) => {
                if args.len() - i <= 1 {
                    return Err(stop);
                }
                i += 1;
                assert(s[i as int] == args@[i as int]@);
                a.take(f, &args[i])
            },
            None => a.take(f, &args[i]),
        };
        match taken {
            Ok(b) => {
                a = b;
            },
            Err(stop) => {
                return Err(stop);
            },
        }
        i += 1;
    }
    if (a.sweep_step.is_some() || a.sweep_settle.is_some()) && a.sweep.is_none() {
        return Err(Stop::Fail(text::owned("--step and --settle require --sweep")));
    }
    Ok(a)
}

/// Whether every argument from `i` on that stands where a flag is expected is
/// one that `fanctld` knows, with its value where it takes one.
pub open spec fn flags_known(args: Seq<Seq<char>>, i: nat) -> bool
    decreases args.len() - i,
{
    if i >= args.len() {
        true
    } else {
        let f = flag_of(args[i as int]);
        if f == Flag::Unknown {
            false
        } else if value_name(f) is Some {
            i + 1 < args.len() && flags_known(args, i + 2)
        } else {
            flags_known(args, i + 1)
        }
    }
}

proof fn lemma_flags_known(args: Seq<Seq<char>>, i: nat, a: ArgsView)
    requires
        args_from(args, i, a) is Ok,
    ensures
        flags_known(args, i),
    decreases args.len() - i,
{
    if i < args.len() {
        let f = flag_of(args[i as int]);
        if value_name(f) is Some {
            let b = with_flag(a, f, args[i as int + 1])->Ok_0;
            lemma_flags_known(args, i + 2, b);
        } else {
            let b = with_flag(a, f, args[i as int])->Ok_0;
            lemma_flags_known(args, i + 1, b);
        }
    }
}

/// Unrecognized flags are an error and nothing is started: a command line
/// that leads to a run holds only flags that `fanctld` knows.
pub proof fn law_only_known_flags_run(args: Seq<Seq<char>>)
    requires
        args_in(args) is Ok,
    ensures
        flags_known(args, 0),
{
    lemma_flags_known(args, 0, no_args());
}

/// A sweep that is run has an increment of 1..=50 % and a settling time of
/// 0.2..=60 s, whatever was on the command line.
pub proof fn law_sweep_settings_in_range(args: Seq<Seq<char>>)
    requires
        args_in(args) is Ok,
        purpose_of(args_in(args)->Ok_0) is Ok,
    ensures
        purpose_of(args_in(args)->Ok_0)->Ok_0 matches PurposeView::Sweep { step, settle, .. }
            ==> 1 <= step <= 50 && 200_000_000 <= settle <= 60_000_000_000,
{
    lemma_settings_in_range(args, 0, no_args());
}

/// The sweep settings that were taken in are in range.
pub open spec fn settings_in_range(a: ArgsView) -> bool {
    &&& a.sweep_step matches Some(n) ==> 1 <= n <= 50
    &&& a.sweep_settle matches Some(t) ==> 200_000_000 <= t <= 60_000_000_000
}

proof fn lemma_settings_in_range(args: Seq<Seq<char>>, i: nat, a: ArgsView)
    requires
        args_from(args, i, a) is Ok,
        settings_in_range(a),
    ensures
        settings_in_range(args_from(args, i, a)->Ok_0),
    decreases args.len() - i,
{
    if i < args.len() {
        let f = flag_of(args[i as int]);
        if value_name(f) is Some {
            let b = with_flag(a, f, args[i as int + 1])->Ok_0;
            lemma_settings_in_range(args, i + 2, b);
        } else {
            let b = with_flag(a, f, args[i as int])->Ok_0;
            lemma_settings_in_range(args, i + 1, b);
        }
    }
}

/// What a run of `fanctld` is for.
#[derive(Debug, PartialEq)]
pub enum Purpose {
    /// List the discovered hardware.
    Probe,
    /// Print a text dump.
    Summary,
    /// Apply modes to the chips.
    SetModes,
    /// Calibrate a fan.
    Sweep { fan: String, step: u8, settle: i64 },
    /// Serve clients.
    Serve,
}

/// A [`Purpose`] with its text as character sequences.
pub enum PurposeView {
    Probe,
    Summary,
    SetModes,
    Sweep { fan: Seq<char>, step: u8, settle: i64 },
    Serve,
}

impl View for Purpose {
    type V = PurposeView;

    open spec fn view(&self) -> PurposeView {
        match self {
            Purpose::Probe => PurposeView::Probe,
            Purpose::Summary => PurposeView::Summary,
            Purpose::SetModes => PurposeView::SetModes,
            Purpose::Sweep { fan, step, settle } => PurposeView::Sweep {
                fan: fan@,
                step: *step,
                settle: *settle,
            },
            Purpose::Serve => PurposeView::Serve,
        }
    }
}

/// How many one-shot modes the arguments ask for.
pub open spec fn one_shots(a: ArgsView) -> int {
    (if a.probe {
        1int
    } else {
        0
    }) + (if a.summary {
        1int
    } else {
        0
    }) + (if a.sets.len() > 0 {
        1int
    } else {
        0
    }) + (if a.sweep is Some {
        1int
    } else {
        0
    })
}

/// What the arguments ask for. The one-shot modes exclude each other, and
/// without one the daemon serves.
pub open spec fn purpose_of(a: ArgsView) -> Result<PurposeView, Seq<char>> {
    if one_shots(a) > 1 {
        Err(
            "--probe, --summary, --set and --sweep are one-shot modes and cannot be combined"@,
        )
    } else if a.probe {
        Ok(PurposeView::Probe)
    } else if a.summary {
        Ok(PurposeView::Summary)
    } else if a.sets.len() > 0 {
        Ok(PurposeView::SetModes)
    } else {
        match a.sweep {
            Some(fan) => Ok(
                PurposeView::Sweep {
                    fan,
                    step: match a.sweep_step {
                        Some(n) => n,
                        None => sweep::DEFAULT_STEP,
                    },
                    settle: match a.sweep_settle {
                        Some(t) => t,
                        None => sweep::DEFAULT_SETTLE_SECS,
                    },
                },
            ),
            None => Ok(PurposeView::Serve),
        }
    }
}

impl Args {
    /// What the run is for.
    pub fn purpose(&self) -> (r: Result<Purpose, String>)
        ensures
            match r {
                Ok(p) => purpose_of(self@) == Ok::<PurposeView, Seq<char>>(p@),
                Err(e) => purpose_of(self@) == Err::<PurposeView, Seq<char>>(e@),
            },
    {
        let mut count: u32 = 0;
        if self.probe {
            count += 1;
        }
        if self.summary {
            count += 1;
        }
        if self.sets.len() > 0 {
            count += 1;
        }
        if self.sweep.is_some() {
            count += 1;
        }
        if count > 1 {
            return Err(
                text::owned(
                    "--probe, --summary, --set and --sweep are one-shot modes and cannot be combined",
                ),
            );
        }
        if self.probe {
            return Ok(Purpose::Probe);
        }
        if self.summary {
            return Ok(Purpose::Summary);
        }
        if self.sets.len() > 0 {
            return Ok(Purpose::SetModes);
        }
        match &self.sweep {
            Some(fan) => {
                let step: u8 = match self.sweep_step {
                    Some(n) => n,
                    None => sweep::DEFAULT_STEP,
                };
                let settle: i64 = match self.sweep_settle {
                    Some(t) => t,
                    None => sweep::DEFAULT_SETTLE_SECS,
                };
                Ok(Purpose::Sweep { fan: fan.clone(), step, settle })
            },
            None => Ok(Purpose::Serve),
        }
    }
}

/// The socket to use: the one asked for, or `FANCTLD_SOCK`, or the default.
pub fn resolve_socket(arg: &Option<String>, env: Option<&str>, xdg_runtime_dir: Option<&str>) -> (r:
    String)
    ensures
        r@ == (match (arg.deep_view(), env.deep_view()) {
            (Some(p), _) => p,
            (None, Some(p)) => p,
            (None, None) => ipc::socket_path(xdg_runtime_dir.deep_view()),
        }),
{
    match arg {
        Some(p) => p.clone(),
        None => match env {
            Some(p) => text::owned(p),
            None => ipc::default_socket_path(xdg_runtime_dir),
        },
    }
}

// ---- fanctlui -------------------------------------------------------------

/// The arguments of `fanctlui`.
#[derive(Debug, PartialEq)]
pub struct UiArgs {
    pub sock: Option<String>,
    pub sets: Vec<String>,
}

/// A [`UiArgs`] with its text as character sequences.
pub struct UiArgsView {
    pub sock: Option<Seq<char>>,
    pub sets: Seq<Seq<char>>,
}

impl View for UiArgs {
    type V = UiArgsView;

    open spec fn view(&self) -> UiArgsView {
        UiArgsView { sock: self.sock.deep_view(), sets: self.sets.deep_view() }
    }
}

/// The arguments of `fanctlui` from `i` on taken in, up to the first that
/// stops the run.
pub open spec fn ui_args_from(args: Seq<Seq<char>>, i: nat, a: UiArgsView) -> Result<
    UiArgsView,
    StopView,
>
    decreases args.len() - i,
{
    if i >= args.len() {
        Ok(a)
    } else {
        let s = args[i as int];
        if s == "-s"@ || s == "--sock"@ {
            if i + 1 < args.len() {
                ui_args_from(args, i + 2, UiArgsView { sock: Some(args[i as int + 1]), ..a })
            } else {
                Err(StopView::Missing("-s"@))
            }
        } else if s == "--set"@ {
            if i + 1 < args.len() {
                ui_args_from(args, i + 2, UiArgsView { sets: a.sets.push(args[i as int + 1]), ..a })
            } else {
                Err(StopView::Missing("--set"@))
            }
        } else if s == "-h"@ || s == "--help"@ {
            Err(StopView::Help)
        } else if s == "-V"@ || s == "--version"@ {
            Err(StopView::Version)
        } else {
            Err(StopView::Fail("unknown flag "@ + text::debug_text(s)))
        }
    }
}

/// The command line of `fanctlui`.
pub open spec fn ui_args_in(args: Seq<Seq<char>>) -> Result<UiArgsView, StopView> {
    ui_args_from(args, 0, UiArgsView { sock: None, sets: Seq::empty() })
}

/// Parse the command line of `fanctlui` (without the program's name).
pub fn parse_ui_args(args: &Vec<String>) -> (r: Result<UiArgs, Stop>)
    ensures
        match r {
            Ok(a) => ui_args_in(args.deep_view()) == Ok::<UiArgsView, StopView>(a@),
            Err(s) => ui_args_in(args.deep_view()) == Err::<UiArgsView, StopView>(s@),
        },
{
    let ghost s = args.deep_view();
    let mut a = UiArgs { sock: None, sets: Vec::new() };
    assert(a.sets.deep_view() =~= Seq::<Seq<char>>::empty());
    let mut i: usize = 0;
    while i < args.len()
        invariant
            i <= args@.len(),
            s == args.deep_view(),
            ui_args_in(s) == ui_args_from(s, i as nat, a@),
        decreases args@.len() - i,
    {
        let flag = args[i].as_str();
        assert(s[i as int] == flag@);
        if text::str_eq(flag, "-s") || text::str_eq(flag, "--sock") {
            if args.len() - i <= 1 {
                return Err(Stop::Missing(text::owned("-s")));
            }
            i += 1;
            assert(s[i as int] == args@[i as int]@);
            a.sock = Some(args[i].clone());
        } else if text::str_eq(flag, "--set") {
            if args.len() - i <= 1 {
                return Err(Stop::Missing(text::owned("--set")));
            }
            i += 1;
            assert(s[i as int] == args@[i as int]@);
            let ghost before = a.sets.deep_view();
            a.sets.push(args[i].clone());
            assert(a.sets.deep_view() =~= before.push(args@[i as int]@));
        } else if text::str_eq(flag, "-h") || text::str_eq(flag, "--help") {
            return Err(Stop::Help);
        } else if text::str_eq(flag, "-V") || text::str_eq(flag, "--version") {
            return Err(Stop::Version);
        } else {
            let quoted = text::debug_quoted(flag);
            return Err(Stop::Fail(text::cat("unknown flag ", quoted.as_str())));
        }
        i += 1;
    }
    Ok(a)
}

// ---- what the flags mean --------------------------------------------------

/// Each flag is known by its own names, and by no others.
pub proof fn law_flag_names(s: Seq<char>)
    ensures
        flag_of(s) == Flag::Config <==> s == "-c"@ || s == "--config"@,
        flag_of(s) == Flag::Sock <==> s == "--sock"@,
        flag_of(s) == Flag::Probe <==> s == "--probe"@,
        flag_of(s) == Flag::Summary <==> s == "--summary"@,
        flag_of(s) == Flag::SetMode <==> s == "--set"@,
        flag_of(s) == Flag::Sweep <==> s == "--sweep"@,
        flag_of(s) == Flag::Step <==> s == "--step"@,
        flag_of(s) == Flag::Settle <==> s == "--settle"@,
        flag_of(s) == Flag::Help <==> s == "-h"@ || s == "--help"@,
        flag_of(s) == Flag::Version <==> s == "-V"@ || s == "--version"@,
{
    lemma_flag_texts();
}

proof fn lemma_flag_texts()
    ensures
        "-c"@.len() == 2 && "-h"@.len() == 2 && "-V"@.len() == 2,
        "-c"@[1] == 'c' && "-h"@[1] == 'h' && "-V"@[1] == 'V',
        "--set"@.len() == 5,
        "--sock"@.len() == 6 && "--help"@.len() == 6 && "--step"@.len() == 6,
        "--sock"@[3] == 'o' && "--help"@[3] == 'e' && "--step"@[3] == 't',
        "--probe"@.len() == 7 && "--sweep"@.len() == 7,
        "--probe"@[2] == 'p' && "--sweep"@[2] == 's',
        "--config"@.len() == 8 && "--settle"@.len() == 8,
        "--config"@[2] == 'c' && "--settle"@[2] == 's',
        "--summary"@.len() == 9 && "--version"@.len() == 9,
        "--summary"@[2] == 's' && "--version"@[2] == 'v',
{
    reveal_strlit("-c");
    reveal_strlit("-h");
    reveal_strlit("-V");
    reveal_strlit("--set");
    reveal_strlit("--sock");
    reveal_strlit("--help");
    reveal_strlit("--step");
    reveal_strlit("--probe");
    reveal_strlit("--sweep");
    reveal_strlit("--config");
    reveal_strlit("--settle");
    reveal_strlit("--summary");
    reveal_strlit("--version");
}

/// A flag sets what it is named for and nothing else: the path of the config
/// or the socket, `--probe` or `--summary`, one more `--set`, or the fan to
/// sweep. Help and version stop the run.
pub proof fn law_flags_set_their_values(a: ArgsView, v: Seq<char>)
    ensures
        with_flag(a, Flag::Config, v) == Ok::<ArgsView, StopView>(
            ArgsView { config_path: Some(v), ..a },
        ),
        with_flag(a, Flag::Sock, v) == Ok::<ArgsView, StopView>(ArgsView { sock: Some(v), ..a }),
        with_flag(a, Flag::Probe, v) == Ok::<ArgsView, StopView>(ArgsView { probe: true, ..a }),
        with_flag(a, Flag::Summary, v) == Ok::<ArgsView, StopView>(
            ArgsView { summary: true, ..a },
        ),
        with_flag(a, Flag::SetMode, v) == Ok::<ArgsView, StopView>(
            ArgsView { sets: a.sets.push(v), ..a },
        ),
        with_flag(a, Flag::Sweep, v) == Ok::<ArgsView, StopView>(ArgsView { sweep: Some(v), ..a }),
        with_flag(a, Flag::Help, v) == Err::<ArgsView, StopView>(StopView::Help),
        with_flag(a, Flag::Version, v) == Err::<ArgsView, StopView>(StopView::Version),
        with_flag(a, Flag::Unknown, v) matches Err(StopView::Fail(_)),
{
}

/// The increment of a sweep is a whole number from 1 to 50, and its settling
/// time a number of seconds from 0.2 to 60; any other is an error.
pub proof fn law_sweep_settings_are_taken(a: ArgsView, n: nat, t: i64)
    requires
        t > i64::MIN,
    ensures
        1 <= n <= 50 ==> with_flag(a, Flag::Step, number::decimal(n)) == Ok::<ArgsView, StopView>(
            ArgsView { sweep_step: Some(n as u8), ..a },
        ),
        n == 0 || n > 50 ==> with_flag(a, Flag::Step, number::decimal(n)) is Err,
        200_000_000 <= t <= 60_000_000_000 ==> with_flag(
            a,
            Flag::Settle,
            quantity::shown(t as int),
        ) == Ok::<ArgsView, StopView>(ArgsView { sweep_settle: Some(t), ..a }),
        t < 200_000_000 || t > 60_000_000_000 ==> with_flag(
            a,
            Flag::Settle,
            quantity::shown(t as int),
        ) is Err,
{
    number::lemma_decimal_is_trimmed(n);
    number::lemma_decimal(n);
    assert(text::digit(number::decimal(n)[0]));
    if n <= 255 {
        number::law_decimal_round_trip(n, 255);
    }
    quantity::law_quantity_round_trip(t);
}

/// The command line is read from its start, flag by flag: a flag that takes a
/// value takes the argument behind it, the flags before are kept, and where
/// the value is not there the run stops.
pub proof fn law_command_line_is_read(args: Seq<Seq<char>>, i: nat, a: ArgsView)
    requires
        i < args.len(),
    ensures
        ({
            let s = args[i as int];
            let valued = s == "-c"@ || s == "--config"@ || s == "--sock"@ || s == "--set"@ || s
                == "--sweep"@ || s == "--step"@ || s == "--settle"@;
            &&& valued && i + 1 == args.len() ==> (args_from(args, i, a) matches Err(
                StopView::Missing(_),
            ))
            &&& valued && i + 1 < args.len() ==> args_from(args, i, a) == match with_flag(
                a,
                flag_of(s),
                args[i as int + 1],
            ) {
                Ok(b) => args_from(args, i + 2, b),
                Err(e) => Err(e),
            }
            &&& s == "--probe"@ ==> args_from(args, i, a) == args_from(
                args,
                i + 1,
                ArgsView { probe: true, ..a },
            )
            &&& s == "--summary"@ ==> args_from(args, i, a) == args_from(
                args,
                i + 1,
                ArgsView { summary: true, ..a },
            )
            &&& s == "-h"@ || s == "--help"@ ==> args_from(args, i, a) == Err::<ArgsView, StopView>(
                StopView::Help,
            )
            &&& s == "-V"@ || s == "--version"@ ==> args_from(args, i, a) == Err::<
                ArgsView,
                StopView,
            >(StopView::Version)
        }),
        args_from(args, args.len(), a) == Ok::<ArgsView, StopView>(a),
{
    law_flag_names(args[i as int]);
}

/// Without arguments nothing is asked for; `--step` and `--settle` go with
/// `--sweep` only.
pub proof fn law_sweep_settings_need_a_sweep(args: Seq<Seq<char>>)
    ensures
        args_in(Seq::empty()) matches Ok(a) && a.sock is None && a.config_path is None && !a.probe
            && !a.summary && a.sets.len() == 0 && a.sweep is None && a.sweep_step is None
            && a.sweep_settle is None,
        args_in(args) matches Ok(a) ==> (a.sweep_step is Some || a.sweep_settle is Some
            ==> a.sweep is Some) && args_from(args, 0, no_args()) == Ok::<ArgsView, StopView>(a),
        args_from(args, 0, no_args()) matches Ok(a) ==> (a.sweep is Some || (a.sweep_step is None
            && a.sweep_settle is None) ==> args_in(args) == Ok::<ArgsView, StopView>(a)),
        args_from(args, 0, no_args()) matches Err(e) ==> args_in(args) == Err::<ArgsView, StopView>(
            e,
        ),
{
}

/// What a run is for: the one-shot mode that was asked for, or else to serve.
/// Two of them together are an error. A sweep takes the settings given, or
/// 10 % and 3 s.
pub proof fn law_purpose(a: ArgsView)
    ensures
        ({
            let p = purpose_of(a);
            let set = a.sets.len() > 0;
            let sweep = a.sweep is Some;
            let two = (a.probe && a.summary) || (a.probe && set) || (a.probe && sweep) || (a.summary
                && set) || (a.summary && sweep) || (set && sweep);
            &&& two <==> p is Err
            &&& !two && a.probe ==> p == Ok::<PurposeView, Seq<char>>(PurposeView::Probe)
            &&& !two && a.summary ==> p == Ok::<PurposeView, Seq<char>>(PurposeView::Summary)
            &&& !two && set ==> p == Ok::<PurposeView, Seq<char>>(PurposeView::SetModes)
            &&& !a.probe && !a.summary && !set && !sweep ==> p == Ok::<PurposeView, Seq<char>>(
                PurposeView::Serve,
            )
            &&& !two && sweep ==> (p matches Ok(PurposeView::Sweep { fan, step, settle }) && {
                &&& Some(fan) == a.sweep
                &&& a.sweep_step is None ==> step == 10
                &&& a.sweep_step matches Some(n) ==> step == n
                &&& a.sweep_settle is None ==> settle == 3_000_000_000
                &&& a.sweep_settle matches Some(t) ==> settle == t
            })
        }),
{
}

/// The client's command line: a socket, modes to set, help, and version.
pub proof fn law_client_flags(args: Seq<Seq<char>>, i: nat, a: UiArgsView)
    requires
        i < args.len(),
    ensures
        ({
            let s = args[i as int];
            let r = ui_args_from(args, i, a);
            let sock = s == "-s"@ || s == "--sock"@;
            &&& (sock || s == "--set"@) && i + 1 == args.len() ==> (r matches Err(
                StopView::Missing(_),
            ))
            &&& sock && i + 1 < args.len() ==> r == ui_args_from(
                args,
                i + 2,
                UiArgsView { sock: Some(args[i as int + 1]), ..a },
            )
            &&& s == "--set"@ && i + 1 < args.len() ==> r == ui_args_from(
                args,
                i + 2,
                UiArgsView { sets: a.sets.push(args[i as int + 1]), ..a },
            )
            &&& s == "-h"@ || s == "--help"@ ==> r == Err::<UiArgsView, StopView>(StopView::Help)
            &&& s == "-V"@ || s == "--version"@ ==> r == Err::<UiArgsView, StopView>(
                StopView::Version,
            )
            &&& !sock && s != "--set"@ && s != "-h"@ && s != "--help"@ && s != "-V"@ && s
                != "--version"@ ==> (r matches Err(StopView::Fail(_)))
        }),
        ui_args_from(args, args.len(), a) == Ok::<UiArgsView, StopView>(a),
        ui_args_in(args) == ui_args_from(
            args,
            0,
            UiArgsView { sock: None, sets: Seq::empty() },
        ),
{
    lemma_flag_texts();
    reveal_strlit("-s");
    assert("-s"@.len() == 2 && "-s"@[1] == 's');
}

/// A flag at the end of the command line that lacks its value is named.
pub proof fn law_missing_value_is_named(args: Seq<Seq<char>>, a: ArgsView, u: UiArgsView)
    requires
        args.len() > 0,
    ensures
        ({
            let i = (args.len() - 1) as nat;
            let s = args[i as int];
            let r = args_from(args, i, a);
            let q = ui_args_from(args, i, u);
            &&& s == "-c"@ || s == "--config"@ ==> r == Err::<ArgsView, StopView>(
                StopView::Missing("-c"@),
            )
            &&& s == "--sock"@ || s == "--set"@ || s == "--sweep"@ || s == "--step"@ || s
                == "--settle"@ ==> r == Err::<ArgsView, StopView>(StopView::Missing(s))
            &&& s == "-s"@ || s == "--sock"@ ==> q == Err::<UiArgsView, StopView>(
                StopView::Missing("-s"@),
            )
            &&& s == "--set"@ ==> q == Err::<UiArgsView, StopView>(StopView::Missing(s))
        }),
{
    let i = (args.len() - 1) as nat;
    law_flag_names(args[i as int]);
    law_client_flags(args, i, u);
    lemma_flag_texts();
    reveal_strlit("-s");
    assert("-s"@.len() == 2 && "-s"@[1] == 's');
}

} // verus!
