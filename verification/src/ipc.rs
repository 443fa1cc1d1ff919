//! The protocol shared by the `fanctld` daemon and the `fanctlui` client:
//! newline-delimited messages over a Unix domain socket.
//!
//! Every exchange is a short-lived, stateless round trip: the client
//! connects, writes one line (a [`Request`]), reads one line back (a
//! [`Response`]), and disconnects.

use vstd::prelude::*;
use crate::config;
use crate::config::types::InitialMode;
use crate::curve;
use crate::curve::CurvePoint;
use crate::number;
use crate::sweep::{SweepReport, SweepReportView};
use crate::text;

verus! {

/// How long a client waits for a response from the daemon, in nanoseconds.
pub const RESPONSE_TIMEOUT: u64 = 10_000_000_000;

/// The mode a fan is (or is requested to be) driven in.
#[derive(Debug, Clone, Copy, PartialEq, Eq, Structural)]
pub enum Mode {
    /// Follow the fan's configured strategy (curve or kernel auto).
    Auto,
    /// The PWM is switched off.
    Off,
    /// The PWM runs at full speed.
    Full,
    /// A fixed manual duty, in percent (0..=100).
    Manual { percent: u8 },
}

impl Mode {
    /// The label shown for a mode.
    pub open spec fn spec_label(self) -> Seq<char> {
        match self {
            Mode::Auto => "auto"@,
            Mode::Off => "off"@,
            Mode::Full => "full"@,
            Mode::Manual { percent } => number::decimal(percent as nat) + "%"@,
        }
    }

    /// The mode's display label (`auto`, `off`, `full`, `50%`).
    pub fn label(self) -> (r: String)
        ensures
            r@ == self.spec_label(),
    {
        match self {
            Mode::Auto => text::owned("auto"),
            Mode::Off => text::owned("off"),
            Mode::Full => text::owned("full"),
            Mode::Manual { percent } => {
                let n = number::u64_text(percent as u64);
                text::cat(n.as_str(), "%")
            },
        }
    }
}

/// The mode a configured initial mode stands for.
pub open spec fn mode_of(m: InitialMode) -> Mode {
    match m {
        InitialMode::Auto => Mode::Auto,
        InitialMode::Off => Mode::Off,
        InitialMode::Full => Mode::Full,
    }
}

impl From<InitialMode> for Mode {
    fn from(m: InitialMode) -> (r: Mode) {
        match m {
            InitialMode::Auto => Mode::Auto,
            InitialMode::Off => Mode::Off,
            InitialMode::Full => Mode::Full,
        }
    }
}

impl vstd::std_specs::convert::FromSpecImpl<InitialMode> for Mode {
    open spec fn obeys_from_spec() -> bool {
        true
    }

    open spec fn from_spec(m: InitialMode) -> Mode {
        mode_of(m)
    }
}

/// A request the client sends to the daemon.
#[derive(Debug, PartialEq)]
pub enum Request {
    /// Ask for the daemon's current state (fans, temperatures, last error).
    GetState,
    /// Change the mode of the fan identified by `fan` (its `pwmN` id).
    SetMode { fan: String, mode: Mode },
    /// Persist the fan's duty curve and initial mode to the daemon's config
    /// file and apply them to the running engine.
    SaveFanConfig { fan: String, curve: Vec<CurvePoint>, default_mode: InitialMode },
    /// Calibrate the fan identified by `fan`: sweep its duty in `step` percent
    /// increments, waiting `settle` nanoseconds after each change.
    Sweep { fan: String, step: Option<u8>, settle: Option<i64> },
    /// Re-read the config file (modes reset to the config's defaults).
    ReloadConfig,
}

/// A [`Request`] with its text as character sequences.
pub enum RequestView {
    GetState,
    SetMode { fan: Seq<char>, mode: Mode },
    SaveFanConfig { fan: Seq<char>, curve: Seq<CurvePoint>, default_mode: InitialMode },
    Sweep { fan: Seq<char>, step: Option<u8>, settle: Option<i64> },
    ReloadConfig,
}

impl View for Request {
    type V = RequestView;

    open spec fn view(&self) -> RequestView {
        match self {
            Request::GetState => RequestView::GetState,
            Request::SetMode { fan, mode } => RequestView::SetMode { fan: fan@, mode: *mode },
            Request::SaveFanConfig { fan, curve, default_mode } => RequestView::SaveFanConfig {
                fan: fan@,
                curve: curve@,
                default_mode: *default_mode,
            },
            Request::Sweep { fan, step, settle } => RequestView::Sweep {
                fan: fan@,
                step: *step,
                settle: *settle,
            },
            Request::ReloadConfig => RequestView::ReloadConfig,
        }
    }
}

impl DeepView for Request {
    type V = RequestView;

    open spec fn deep_view(&self) -> RequestView {
        self.view()
    }
}

impl Clone for Request {
    fn clone(&self) -> (r: Request)
        ensures
            r@ == self@,
    {
        match self {
            Request::GetState => Request::GetState,
            Request::SetMode { fan, mode } => Request::SetMode { fan: fan.clone(), mode: *mode },
            Request::SaveFanConfig { fan, curve, default_mode } => Request::SaveFanConfig {
                fan: fan.clone(),
                curve: curve::copy_points(curve),
                default_mode: *default_mode,
            },
            Request::Sweep { fan, step, settle } => Request::Sweep {
                fan: fan.clone(),
                step: *step,
                settle: *settle,
            },
            Request::ReloadConfig => Request::ReloadConfig,
        }
    }
}

/// One temperature reading for display (hwmon, NVIDIA GPU, or lm-sensors).
#[derive(Debug, PartialEq)]
pub struct Temp {
    /// Stable id: `chipDir:sensor` (hwmon), `nvidia:gpu<N>`, or
    /// `lm:chip:sensor`.
    pub refname: String,
    /// A human label (the sensor's `_label`, the GPU name, ...).
    pub label: String,
    /// `"hwmon"`, `"nvidia"`, or `"lm"`.
    pub source: String,
    /// The current reading, if readable.
    pub celsius: Option<i64>,
}

/// A [`Temp`] with its text as character sequences.
pub struct TempView {
    pub refname: Seq<char>,
    pub label: Seq<char>,
    pub source: Seq<char>,
    pub celsius: Option<i64>,
}

impl View for Temp {
    type V = TempView;

    open spec fn view(&self) -> TempView {
        TempView {
            refname: self.refname@,
            label: self.label@,
            source: self.source@,
            celsius: self.celsius,
        }
    }
}

impl DeepView for Temp {
    type V = TempView;

    open spec fn deep_view(&self) -> TempView {
        self.view()
    }
}

impl Clone for Temp {
    fn clone(&self) -> (r: Temp)
        ensures
            r@ == self@,
    {
        Temp {
            refname: self.refname.clone(),
            label: self.label.clone(),
            source: self.source.clone(),
            celsius: self.celsius,
        }
    }
}

/// The state of one fan, as the daemon reports it.
#[derive(Debug, PartialEq)]
pub struct FanState {
    /// The fan's id (its `pwmN` channel).
    pub id: String,
    /// The fan's display label.
    pub label: String,
    /// The mode the fan is currently driven in.
    pub mode: Mode,
    /// The last duty (read back from the chip, or the computed curve duty).
    pub duty: Option<i64>,
    /// The last tachometer reading, if the chip exposes one.
    pub rpm: Option<u32>,
    /// The last error applying the mode, if any.
    pub err: Option<String>,
    /// The fan's duty curve, in config order (for the editor dialog).
    pub curve: Vec<CurvePoint>,
    /// The initial mode configured for the fan (for the editor dialog).
    pub default_mode: InitialMode,
}

/// A [`FanState`] with its text as character sequences.
pub struct FanStateView {
    pub id: Seq<char>,
    pub label: Seq<char>,
    pub mode: Mode,
    pub duty: Option<i64>,
    pub rpm: Option<u32>,
    pub err: Option<Seq<char>>,
    pub curve: Seq<CurvePoint>,
    pub default_mode: InitialMode,
}

impl View for FanState {
    type V = FanStateView;

    open spec fn view(&self) -> FanStateView {
        FanStateView {
            id: self.id@,
            label: self.label@,
            mode: self.mode,
            duty: self.duty,
            rpm: self.rpm,
            err: self.err.deep_view(),
            curve: self.curve@,
            default_mode: self.default_mode,
        }
    }
}

impl DeepView for FanState {
    type V = FanStateView;

    open spec fn deep_view(&self) -> FanStateView {
        self.view()
    }
}

impl Clone for FanState {
    fn clone(&self) -> (r: FanState)
        ensures
            r@ == self@,
    {
        FanState {
            id: self.id.clone(),
            label: self.label.clone(),
            mode: self.mode,
            duty: self.duty,
            rpm: self.rpm,
            err: self.err.clone(),
            curve: curve::copy_points(&self.curve),
            default_mode: self.default_mode,
        }
    }
}

/// The daemon's full state snapshot, served in response to
/// [`Request::GetState`].
#[derive(Debug, PartialEq)]
pub struct State {
    /// How often the daemon re-evaluates its fans, in nanoseconds. Clients
    /// should poll at (about) this rate.
    pub refresh_secs: i64,
    /// The daemon's last error, or empty if all is well.
    pub status: String,
    /// The fans, in config order.
    pub fans: Vec<FanState>,
    /// The temperature readings to display.
    pub temps: Vec<Temp>,
    /// The fan currently being calibrated (a sweep in progress), if any.
    pub sweeping: Option<String>,
    /// The last finished calibration sweep, if any.
    pub sweep: Option<SweepReport>,
}

/// A [`State`] with its text as character sequences.
pub struct StateView {
    pub refresh_secs: i64,
    pub status: Seq<char>,
    pub fans: Seq<FanStateView>,
    pub temps: Seq<TempView>,
    pub sweeping: Option<Seq<char>>,
    pub sweep: Option<SweepReportView>,
}

impl View for State {
    type V = StateView;

    open spec fn view(&self) -> StateView {
        StateView {
            refresh_secs: self.refresh_secs,
            status: self.status@,
            fans: self.fans.deep_view(),
            temps: self.temps.deep_view(),
            sweeping: self.sweeping.deep_view(),
            sweep: self.sweep.deep_view(),
        }
    }
}

impl DeepView for State {
    type V = StateView;

    open spec fn deep_view(&self) -> StateView {
        self.view()
    }
}

impl Clone for State {
    fn clone(&self) -> (r: State)
        ensures
            r@ == self@,
    {
        let r = State {
            refresh_secs: self.refresh_secs,
            status: self.status.clone(),
            fans: self.fans.clone(),
            temps: self.temps.clone(),
            sweeping: self.sweeping.clone(),
            sweep: self.sweep.clone(),
        };
        assert(r.fans.deep_view() =~= self.fans.deep_view());
        assert(r.temps.deep_view() =~= self.temps.deep_view());
        r
    }
}

/// A response the daemon sends back to a client.
#[derive(Debug, PartialEq)]
pub enum Response {
    /// The current state, in response to [`Request::GetState`].
    State { state: State },
    /// The command succeeded.
    Done,
    /// The command failed; `message` explains why.
    Error { message: String },
}

/// A [`Response`] with its text as character sequences.
pub enum ResponseView {
    State { state: StateView },
    Done,
    Error { message: Seq<char> },
}

impl View for Response {
    type V = ResponseView;

    open spec fn view(&self) -> ResponseView {
        match self {
            Response::State { state } => ResponseView::State { state: state@ },
            Response::Done => ResponseView::Done,
            Response::Error { message } => ResponseView::Error { message: message@ },
        }
    }
}

impl DeepView for Response {
    type V = ResponseView;

    open spec fn deep_view(&self) -> ResponseView {
        self.view()
    }
}

/// The socket path, given the value of `XDG_RUNTIME_DIR`.
pub open spec fn socket_path(xdg_runtime_dir: Option<Seq<char>>) -> Seq<char> {
    match xdg_runtime_dir {
        Some(dir) => if dir.len() > 0 {
            config::in_dir(dir, "fanctld.sock"@)
        } else {
            "/run/fanctld.sock"@
        },
        None => "/run/fanctld.sock"@,
    }
}

/// The default socket path the daemon listens on (and clients connect to):
/// `$XDG_RUNTIME_DIR/fanctld.sock`, or `/run/fanctld.sock` when
/// `XDG_RUNTIME_DIR` is not set (as it isn't for a root system service). The
/// caller passes the variable, if it is set.
pub fn default_socket_path(xdg_runtime_dir: Option<&str>) -> (r: String)
    ensures
        r@ == socket_path(xdg_runtime_dir.deep_view()),
{
    match xdg_runtime_dir {
        Some(dir) => {
            if text::chars_of(dir).len() > 0 {
                config::join_path(dir, "fanctld.sock")
            } else {
                text::owned("/run/fanctld.sock")
            }
        },
        None => text::owned("/run/fanctld.sock"),
    }
}

/// A client of the daemon, known by the socket it connects to.
#[derive(Debug, PartialEq)]
pub struct Client {
    pub socket_path: String,
}

impl Clone for Client {
    fn clone(&self) -> (r: Client)
        ensures
            r.socket_path@ == self.socket_path@,
    {
        Client { socket_path: self.socket_path.clone() }
    }
}

impl Client {
    pub fn new(socket_path: String) -> (r: Client)
        ensures
            r.socket_path == socket_path,
    {
        Client { socket_path }
    }
}

// ---- lines ----------------------------------------------------------------

/// A message as it goes over the socket: one line.
pub open spec fn line_of(message: Seq<char>) -> Seq<char> {
    message + "\n"@
}

/// The first line of what a socket delivered, its newline included; `None`
/// when nothing was delivered.
pub open spec fn first_line(stream: Seq<char>) -> Option<Seq<char>> {
    if stream.len() == 0 {
        None
    } else {
        let n = text::first_of(stream, '\n') as int;
        if n < stream.len() {
            Some(stream.take(n + 1))
        } else {
            Some(stream)
        }
    }
}

/// Put a message into a line.
pub fn write_line(message: &str) -> (r: String)
    ensures
        r@ == line_of(message@),
{
    text::cat(message, "\n")
}

/// Take the first line from what was read. `None` on end of file.
pub fn read_line(stream: &str) -> (r: Option<String>)
    ensures
        r.deep_view() == first_line(stream@),
{
    let v = text::chars_of(stream);
    if v.len() == 0 {
        return None;
    }
    assert(v@.skip(0) =~= v@);
    let n = text::find_from(&v, 0, '\n');
    if n < v.len() {
        let s = text::string_of(&v, 0, n + 1);
        assert(s@ =~= stream@.take(n + 1));
        Some(s)
    } else {
        let s = text::string_of(&v, 0, n);
        assert(s@ =~= stream@);
        Some(s)
    }
}

/// The line read of what was written is the message with its newline,
/// whatever follows it, as long as the message itself holds no newline.
pub proof fn law_line_round_trip(message: Seq<char>, rest: Seq<char>)
    requires
        !message.contains('\n'),
    ensures
        first_line(line_of(message) + rest) == Some(line_of(message)),
{
    reveal_strlit("\n");
    let s = line_of(message) + rest;
    assert forall|i: int| 0 <= i < message.len() implies s[i] != '\n' by {
        assert(s[i] == message[i]);
        assert(message.contains(message[i]));
    }
    text::lemma_first_of_is(s, '\n', message.len());
    assert(s.take(message.len() as int + 1) =~= line_of(message));
}

/// A fan starts in the mode its config names.
pub proof fn law_initial_modes(m: InitialMode)
    ensures
        mode_of(m) == Mode::Auto <==> m == InitialMode::Auto,
        mode_of(m) == Mode::Off <==> m == InitialMode::Off,
        mode_of(m) == Mode::Full <==> m == InitialMode::Full,
{
}

/// Modes are told apart by their labels: the three words, and a percentage.
pub proof fn law_mode_labels(m: Mode)
    ensures
        m.spec_label() == match m {
            Mode::Auto => seq!['a', 'u', 't', 'o'],
            Mode::Off => seq!['o', 'f', 'f'],
            Mode::Full => seq!['f', 'u', 'l', 'l'],
            Mode::Manual { percent } => number::decimal(percent as nat).push('%'),
        },
{
    reveal_strlit("auto");
    reveal_strlit("off");
    reveal_strlit("full");
    reveal_strlit("%");
    assert(m.spec_label() =~= match m {
        Mode::Auto => seq!['a', 'u', 't', 'o'],
        Mode::Off => seq!['o', 'f', 'f'],
        Mode::Full => seq!['f', 'u', 'l', 'l'],
        Mode::Manual { percent } => number::decimal(percent as nat).push('%'),
    });
}

/// The daemon listens in the runtime directory where there is one, and in
/// `/run` otherwise.
pub proof fn law_socket_path(dir: Seq<char>)
    ensures
        dir.len() > 0 && dir[dir.len() - 1] != '/' ==> socket_path(Some(dir)) == dir
            + "/fanctld.sock"@,
        socket_path(None) == "/run/fanctld.sock"@,
        socket_path(Some(Seq::empty())) == "/run/fanctld.sock"@,
{
    reveal_strlit("/");
    reveal_strlit("fanctld.sock");
    reveal_strlit("/fanctld.sock");
    if dir.len() > 0 && dir[dir.len() - 1] != '/' {
        assert(socket_path(Some(dir)) =~= dir + "/fanctld.sock"@);
    }
}

} // verus!
