//! What the daemon does with a client's request, how a sweep goes through its
//! steps, and when the next control cycle is due.

use vstd::prelude::*;
use crate::config::types;
use crate::config::types::{ConfigView, InitialMode, PwmView};
use crate::curve;
use crate::curve::CurvePoint;
use crate::daemon::calibration;
use crate::daemon::engine;
use crate::daemon::engine::{
    ConfigUndo, ConfigUndoView, Engine, EngineView, FanPlan, FanPlanView, FanView,
};
use crate::daemon::laws;
use crate::hwmon;
use crate::hwmon::{Sysfs, SysfsView};
use crate::ipc::{Mode, Request, RequestView, Response, ResponseView};
use crate::number;
use crate::order;
use crate::quantity;
use crate::sweep;
use crate::sweep::{SweepReport, SweepReportView};
use crate::temps::{NvidiaGpu, NvidiaGpuView};
use crate::text;

verus! {

// ---- requests -------------------------------------------------------------

/// What the server does next with a request.
#[derive(Debug)]
pub enum Action {
    /// Send the response.
    Reply(Response),
    /// Carry out a fan's writes, report them through
    /// [`Engine::mode_applied`], and send the [`answer`].
    Drive { fan: String, plan: Option<FanPlan> },
    /// Save the config, report it through [`Engine::fan_config_saved`], and
    /// send the [`answer`].
    Save(ConfigUndo),
    /// Start a sweep in the background, and send that all is well.
    StartSweep { fan: String, step: u8, settle: i64 },
    /// Read the config, hand it to [`Engine::reload`], carry out the writes,
    /// and send the [`answer`].
    Reload,
}

/// An [`Action`] with its text as character sequences.
pub enum ActionView {
    Reply(ResponseView),
    Drive { fan: Seq<char>, plan: Option<FanPlanView> },
    Save(ConfigUndoView),
    StartSweep { fan: Seq<char>, step: u8, settle: i64 },
    Reload,
}

impl View for Action {
    type V = ActionView;

    open spec fn view(&self) -> ActionView {
        match self {
            Action::Reply(r) => ActionView::Reply(r@),
            Action::Drive { fan, plan } => ActionView::Drive {
                fan: fan@,
                plan: plan.deep_view(),
            },
            Action::Save(u) => ActionView::Save(u@),
            Action::StartSweep { fan, step, settle } => ActionView::StartSweep {
                fan: fan@,
                step: *step,
                settle: *settle,
            },
            Action::Reload => ActionView::Reload,
        }
    }
}

/// A response that says what went wrong.
pub open spec fn refusal(message: Seq<char>) -> ActionView {
    ActionView::Reply(ResponseView::Error { message })
}

/// The engine after a request, and what to do next.
pub open spec fn handled(
    e: EngineView,
    req: RequestView,
    fs: SysfsView,
    nvidia: Seq<NvidiaGpuView>,
) -> (EngineView, ActionView) {
    match req {
        RequestView::GetState => (
            e,
            ActionView::Reply(ResponseView::State { state: engine::state_of(e) }),
        ),
        RequestView::SetMode { fan, mode } => {
            let i = engine::fan_place(e.fans, fan) as int;
            let chips = hwmon::chips_of(fs);
            match engine::mode_refused(e, fan) {
                Some(why) => (e, refusal(why)),
                None => {
                    let f = engine::in_mode(e.fans[i], mode);
                    (
                        engine::with_fan(e, i, engine::started(f, chips, fs, nvidia)),
                        ActionView::Drive { fan, plan: engine::plan_for(f, chips, fs, nvidia) },
                    )
                },
            }
        },
        RequestView::SaveFanConfig { fan, curve, default_mode } => match engine::config_refused(
            e,
            fan,
            curve,
        ) {
            Some(why) => (e, refusal(why)),
            None => (
                engine::with_config(
                    e,
                    fan,
                    curve,
                    default_mode,
                    Some(order::sorted_by(curve, curve::by_temp())),
                ),
                ActionView::Save(engine::undo_for(e, fan)),
            ),
        },
        RequestView::Sweep { fan, step, settle } => match calibration::sweep_refused(e, fan) {
            Some(why) => (e, refusal(why)),
            None => {
                let i = engine::fan_place(e.fans, fan) as int;
                (
                    calibration::sweep_begun(e, i, fs),
                    match calibration::unobservable(e.fans[i], hwmon::chips_of(fs), fs) {
                        Some(why) => refusal(why),
                        None => ActionView::StartSweep {
                            fan,
                            step: match step {
                                Some(n) => n,
                                None => sweep::DEFAULT_STEP,
                            },
                            settle: match settle {
                                Some(t) => t,
                                None => sweep::DEFAULT_SETTLE_SECS,
                            },
                        },
                    },
                )
            },
        },
        RequestView::ReloadConfig => (e, ActionView::Reload),
    }
}

/// The response to a line that is no request.
pub fn bad_request(why: &str) -> (r: Response)
    ensures
        r@ == (ResponseView::Error { message: "bad request: "@ + why@ }),
{
    Response::Error { message: text::cat("bad request: ", why) }
}

/// The response to a command that was carried out, or was not.
pub fn answer(outcome: Result<(), String>) -> (r: Response)
    ensures
        r@ == (match engine::said(outcome) {
            Some(message) => ResponseView::Error { message },
            None => ResponseView::Done,
        }),
{
    match outcome {
        Ok(_) => Response::Done,
        Err(message) => Response::Error { message },
    }
}

/// Take a single request of a client.
pub fn handle_connection(
    engine: &mut Engine,
    req: Request,
    fs: &Sysfs,
    nvidia: &Vec<NvidiaGpu>,
) -> (r: Action)
    ensures
        (final(engine)@, r@) == handled(old(engine)@, req@, fs@, nvidia.deep_view()),
{
    match req {
        Request::GetState => Action::Reply(Response::State { state: engine.snapshot() }),
        Request::SetMode { fan, mode } => match engine.set_mode(fan.as_str(), mode, fs, nvidia) {
            Ok(plan) => Action::Drive { fan, plan },
            Err(message) => Action::Reply(Response::Error { message }),
        },
        Request::SaveFanConfig { fan, curve, default_mode } => match engine.save_fan_config(
            fan.as_str(),
            curve,
            default_mode,
        ) {
            Ok(undo) => Action::Save(undo),
            Err(message) => Action::Reply(Response::Error { message }),
        },
        Request::Sweep { fan, step, settle } => {
            let step: u8 = match step {
                Some(n) => n,
                None => sweep::DEFAULT_STEP,
            };
            let settle: i64 = match settle {
                Some(t) => t,
                None => sweep::DEFAULT_SETTLE_SECS,
            };
            match engine.sweep_begin(fan.as_str(), fs) {
                Ok(_) => Action::StartSweep { fan, step, settle },
                Err(message) => Action::Reply(Response::Error { message }),
            }
        },
        Request::ReloadConfig => Action::Reload,
    }
}

// ---- a sweep, step by step ------------------------------------------------

/// A sweep on its way through the duties.
#[derive(Debug, PartialEq)]
pub struct SweepRun {
    pub fan: String,
    /// The duty increment, in percent.
    pub step: u8,
    /// The duty of the current step, in percent.
    pub duty: u8,
}

/// What a sweep writes next.
#[derive(Debug)]
pub enum SweepMove {
    /// The sweep is over: the engine no longer has it.
    Gone,
    /// Carry the writes out and report them through
    /// [`Engine::sweep_written`]; then let the fan settle.
    Write(FanPlan),
    /// Abort the sweep with the reason.
    Abort(String),
}

/// A [`SweepMove`] with its text as character sequences.
pub enum SweepMoveView {
    Gone,
    Write(FanPlanView),
    Abort(Seq<char>),
}

impl View for SweepMove {
    type V = SweepMoveView;

    open spec fn view(&self) -> SweepMoveView {
        match self {
            SweepMove::Gone => SweepMoveView::Gone,
            SweepMove::Write(p) => SweepMoveView::Write(p@),
            SweepMove::Abort(why) => SweepMoveView::Abort(why@),
        }
    }
}

/// How a sweep goes on after a step.
#[derive(Debug, Clone, Copy, PartialEq, Eq, Structural)]
pub enum SweepNext {
    /// The engine no longer has the sweep.
    Gone,
    /// Another step follows.
    Continue,
    /// The last step was taken: finish the sweep.
    Finish,
}

/// The duty after `duty`.
pub open spec fn next_duty(duty: u8, step: u8) -> u8 {
    if duty + step > 100 {
        100
    } else {
        (duty + step) as u8
    }
}

/// Whether a sweep has taken its last step: it has reached 100 %, or the fan
/// no longer accelerates.
pub open spec fn last_step(e: EngineView, duty: u8) -> bool {
    duty == 100 || (e.sweep matches Some(s) && sweep::stall(s.steps))
}

impl SweepRun {
    /// A sweep at its start.
    pub fn new(fan: String, step: u8) -> (r: SweepRun)
        ensures
            r.fan == fan,
            r.step == step,
            r.duty == 0,
    {
        SweepRun { fan, step, duty: 0 }
    }

    /// Begin a step: the next write. The step ends the sweep where the
    /// engine no longer has it (a config reload may have dropped the fan).
    pub fn begin_step(&self, engine: &mut Engine, fs: &Sysfs) -> (r: SweepMove)
        ensures
            ({
                let e = old(engine)@;
                if !engine::swept(e, self.fan@) {
                    final(engine)@ == e && r@ == SweepMoveView::Gone
                } else {
                    let (e2, w) = calibration::write_begun(e, self.duty, fs@);
                    &&& final(engine)@ == e2
                    &&& r@ == match w {
                        Ok(p) => SweepMoveView::Write(p),
                        Err(why) => SweepMoveView::Abort(why),
                    }
                }
            }),
    {
        if !engine.is_swept(self.fan.as_str()) {
            return SweepMove::Gone;
        }
        match engine.sweep_write(self.duty, fs) {
            Ok(p) => SweepMove::Write(p),
            Err(why) => SweepMove::Abort(why),
        }
    }

    /// End a step, once the fan has settled: read its speed, record it, and
    /// go on to the next duty unless this was the last step. The second
    /// result is the speed.
    pub fn end_step(&mut self, engine: &mut Engine, fs: &Sysfs) -> (r: (SweepNext, u32))
        ensures
            final(self).fan == old(self).fan,
            final(self).step == old(self).step,
            ({
                let e = old(engine)@;
                if !engine::swept(e, old(self).fan@) {
                    &&& final(engine)@ == e
                    &&& r == (SweepNext::Gone, 0u32)
                    &&& final(self).duty == old(self).duty
                } else {
                    let (e2, rpm) = calibration::seen(e, fs@);
                    let e3 = calibration::recorded(e2, old(self).duty, rpm);
                    &&& final(engine)@ == e3
                    &&& if last_step(e3, old(self).duty) {
                        r == (SweepNext::Finish, rpm) && final(self).duty == old(self).duty
                    } else {
                        r == (SweepNext::Continue, rpm) && final(self).duty == next_duty(
                            old(self).duty,
                            old(self).step,
                        )
                    }
                }
            }),
    {
        if !engine.is_swept(self.fan.as_str()) {
            return (SweepNext::Gone, 0);
        }
        let rpm = engine.sweep_read(fs);
        engine.sweep_record(self.duty, rpm);
        let stalled = match &engine.sweep {
            Some(s) => sweep::stalled(s.steps.as_slice()),
            None => false,
        };
        if self.duty == 100 || stalled {
            return (SweepNext::Finish, rpm);
        }
        let sum: u16 = (self.duty as u16) + (self.step as u16);
        self.duty = if sum > 100 {
            100
        } else {
            sum as u8
        };
        (SweepNext::Continue, rpm)
    }
}

/// The duty of a sweep's step `k`, counted from 0.
pub open spec fn duty_of_step(k: nat, step: u8) -> u8
    decreases k,
{
    if k == 0 {
        0
    } else {
        next_duty(duty_of_step((k - 1) as nat, step), step)
    }
}

/// A sweep steps through the multiples of its increment and ends at 100 %:
/// step `k` is at `k` increments or at 100 %, whichever is less. With an
/// increment above 0 the duties rise until 100 % is reached, after at most
/// 100 steps.
pub proof fn law_sweep_progress(k: nat, step: u8)
    ensures
        duty_of_step(k, step) as int == if k * step > 100 {
            100
        } else {
            k * step
        },
        step > 0 && duty_of_step(k, step) < 100 ==> duty_of_step(k, step) < duty_of_step(
            k + 1,
            step,
        ),
        step > 0 && k >= 100 ==> duty_of_step(k, step) == 100,
    decreases k,
{
    if k > 0 {
        law_sweep_progress((k - 1) as nat, step);
        let before = (k - 1) as nat;
        assert(k * step == before * step + step) by (nonlinear_arith)
            requires
                k == before + 1,
        ;
        assert(before * step >= 0) by (nonlinear_arith);
    } else {
        assert(k * step == 0) by (nonlinear_arith)
            requires
                k == 0,
        ;
    }
    assert((k + 1) * step == k * step + step) by (nonlinear_arith);
    if step > 0 && k >= 100 {
        assert(k * step >= 100) by (nonlinear_arith)
            requires
                k >= 100,
                step >= 1,
        ;
    }
}

// ---- the one-shot sweep ---------------------------------------------------

/// Whether a daemon answers on the socket: a sweep on the command line is
/// then refused, as the daemon's ticks would stomp it.
pub fn daemon_is_running(reply: &Result<Response, String>) -> (r: bool)
    ensures
        r == (reply matches Ok(Response::State { .. })),
{
    match reply {
        Ok(Response::State { .. }) => true,
        _ => false,
    }
}

/// A line of the table that a sweep on the command line prints.
pub fn step_line(duty: u8, rpm: u32) -> (r: String)
    ensures
        r@ == "  "@ + text::flush_right(number::decimal(duty as nat), 3) + " %   "@
            + text::flush_right(number::decimal(rpm as nat), 6),
{
    let d = number::u64_text(duty as u64);
    let d = text::pad_left(d.as_str(), 3);
    let v = number::u64_text(rpm as u64);
    let v = text::pad_left(v.as_str(), 6);
    let head = text::cat3("  ", d.as_str(), " %   ");
    text::cat(head.as_str(), v.as_str())
}

/// What a sweep on the command line announces.
pub fn sweep_heading(fan: &str, step: u8, settle: i64) -> (r: String)
    ensures
        r@ == "Sweeping "@ + fan@ + ": "@ + number::decimal(step as nat) + " % per step, "@
            + quantity::shown(settle as int) + " s settling after each change."@,
{
    let a = text::cat3("Sweeping ", fan, ": ");
    let n = number::u64_text(step as u64);
    let b = text::cat3(a.as_str(), n.as_str(), " % per step, ");
    let t = quantity::quantity_text(settle);
    text::cat3(b.as_str(), t.as_str(), " s settling after each change.")
}

/// Whether a sweep found a usable range: the fan spins, and not at a single
/// duty only.
pub open spec fn found_range(r: Option<SweepReportView>) -> bool {
    r matches Some(r) && r.min_duty is Some && r.max_duty is Some && r.min_duty != r.max_duty
}

/// The exit code of a sweep on the command line: 0 when a usable range was
/// found, 1 otherwise.
pub fn sweep_exit_code(failed: bool, report: &Option<SweepReport>) -> (r: i32)
    ensures
        r == if !failed && found_range(report.deep_view()) {
            0i32
        } else {
            1i32
        },
{
    if failed {
        return 1;
    }
    match report {
        Some(r) => if r.min_duty.is_some() && r.max_duty.is_some() && r.min_duty != r.max_duty {
            0
        } else {
            1
        },
        None => 1,
    }
}

// ---- the control cycle ----------------------------------------------------

/// The shortest time between control cycles, in nanoseconds.
pub const SHORTEST_INTERVAL: i64 = 200_000_000;

/// The time between control cycles, in nanoseconds: as configured, but not
/// under 0.2 s.
pub fn tick_interval(refresh_secs: i64) -> (r: u64)
    ensures
        r == if refresh_secs < SHORTEST_INTERVAL {
            SHORTEST_INTERVAL as int
        } else {
            refresh_secs as int
        },
{
    if refresh_secs < SHORTEST_INTERVAL {
        SHORTEST_INTERVAL as u64
    } else {
        refresh_secs as u64
    }
}

// ---- what a request does --------------------------------------------------

/// A client that asks for the state gets the snapshot and changes nothing.
pub proof fn law_state_is_served(e: EngineView, fs: SysfsView, nvidia: Seq<NvidiaGpuView>)
    ensures
        handled(e, RequestView::GetState, fs, nvidia) == (
            e,
            ActionView::Reply(ResponseView::State { state: engine::state_of(e) }),
        ),
        handled(e, RequestView::ReloadConfig, fs, nvidia) == (e, ActionView::Reload),
{
}

/// A change of mode of a fan that no sweep owns is taken: the first fan of
/// that id is in that mode, its writes are those the mode asks for, and the
/// other fans, the config and the readings are as they were. For a fan that is
/// not there, or that a sweep owns, it is refused, and nothing changes.
pub proof fn law_mode_is_set(
    e: EngineView,
    id: Seq<char>,
    mode: Mode,
    fs: SysfsView,
    nvidia: Seq<NvidiaGpuView>,
    i: int,
    k: int,
)
    requires
        0 <= i < e.fans.len(),
        0 <= k < e.fans.len(),
        e.fans[i].id == id,
        forall|j: int| 0 <= j < i ==> (#[trigger] e.fans[j]).id != id,
    ensures
        ({
            let (n, act) = handled(e, RequestView::SetMode { fan: id, mode }, fs, nvidia);
            let owned = e.sweep is Some && e.sweep->0.fan == id;
            let f = FanView { mode, err: None, ..e.fans[i] };
            &&& owned ==> n == e && (act matches ActionView::Reply(ResponseView::Error {
                message,
            }) && message == e.fans[i].label
                + ": "@ + "a calibration sweep is in progress; wait for it to finish"@)
            &&& !owned ==> {
                &&& act == (ActionView::Drive {
                    fan: id,
                    plan: engine::plan_for(f, hwmon::chips_of(fs), fs, nvidia),
                })
                &&& n.fans.len() == e.fans.len()
                &&& n.fans[i].mode == mode
                &&& k != i ==> n.fans[k] == e.fans[k]
                &&& n.fans[i].curve == e.fans[i].curve && n.fans[i].sensors == e.fans[i].sensors
                &&& n.fans[i].duty_min == e.fans[i].duty_min && n.fans[i].duty_max
                    == e.fans[i].duty_max
                &&& n == (EngineView { fans: n.fans, ..e })
            }
        }),
{
    engine::lemma_fan_place(e.fans, id);
    let p = engine::fan_place(e.fans, id) as int;
    if p < i {
        assert(e.fans[p].id != id);
    }
    if i < p {
        assert(e.fans[i].id != id);
    }
}

/// A request for a fan that is not there is refused by name and changes
/// nothing.
pub proof fn law_unknown_fan_is_refused(
    e: EngineView,
    id: Seq<char>,
    mode: Mode,
    step: Option<u8>,
    settle: Option<i64>,
    fs: SysfsView,
    nvidia: Seq<NvidiaGpuView>,
)
    requires
        forall|j: int| 0 <= j < e.fans.len() ==> (#[trigger] e.fans[j]).id != id,
    ensures
        handled(e, RequestView::SetMode { fan: id, mode }, fs, nvidia) == (
            e,
            ActionView::Reply(ResponseView::Error { message: "no fan "@ + id }),
        ),
        ({
            let (n, act) = handled(e, RequestView::Sweep { fan: id, step, settle }, fs, nvidia);
            n == e && act matches ActionView::Reply(ResponseView::Error { .. })
        }),
{
    engine::lemma_fan_place(e.fans, id);
    let p = engine::fan_place(e.fans, id) as int;
    if p < e.fans.len() {
        assert(e.fans[p].id == id);
    }
}

/// A curve is saved just when it has a point, all of them lie within
/// 0..=150 degrees and 0..=100 percent, the temperatures strictly increase, and
/// the config has the fan. Then that fan of the config has that curve and that
/// initial mode, the running fan follows the curve at once, its mode stays, and
/// nothing else changes. Otherwise nothing changes at all.
pub proof fn law_curve_is_saved(
    e: EngineView,
    id: Seq<char>,
    points: Seq<CurvePoint>,
    default_mode: InitialMode,
    fs: SysfsView,
    nvidia: Seq<NvidiaGpuView>,
    at: int,
    i: int,
)
    requires
        0 <= at < e.config.pwm.len(),
        e.config.pwm[at].id == id,
        forall|j: int| 0 <= j < at ==> (#[trigger] e.config.pwm[j]).id != id,
        0 <= i < e.fans.len(),
        e.fans[i].id == id,
        forall|j: int| 0 <= j < i ==> (#[trigger] e.fans[j]).id != id,
    ensures
        ({
            let (n, act) = handled(
                e,
                RequestView::SaveFanConfig { fan: id, curve: points, default_mode },
                fs,
                nvidia,
            );
            let good = points.len() > 0 && (forall|j: int|
                0 <= j < points.len() ==> 0 <= (#[trigger] points[j]).temp <= 150_000_000_000 && 0
                    <= points[j].duty <= 100_000_000_000) && (forall|j: int, k: int|
                0 <= j < k < points.len() ==> (#[trigger] points[j]).temp < (
                #[trigger] points[k]).temp);
            &&& good ==> {
                &&& act is Save
                &&& n.config == (ConfigView {
                    pwm: e.config.pwm.update(
                        at,
                        PwmView { curve: points, default: default_mode, ..e.config.pwm[at] },
                    ),
                    ..e.config
                })
                &&& n.fans == e.fans.update(i, FanView { curve: points, ..e.fans[i] })
                &&& n == (EngineView { config: n.config, fans: n.fans, ..e })
            }
            &&& !good ==> n == e && act matches ActionView::Reply(ResponseView::Error { .. })
        }),
{
    types::lemma_place_of(e.config.pwm, id);
    engine::lemma_fan_place(e.fans, id);
    let a = types::place_of(e.config.pwm, id) as int;
    let p = engine::fan_place(e.fans, id) as int;
    if a < at {
        assert(e.config.pwm[a].id != id);
    }
    if at < a {
        assert(e.config.pwm[at].id != id);
    }
    if p < i {
        assert(e.fans[p].id != id);
    }
    if i < p {
        assert(e.fans[i].id != id);
    }
    laws::law_curve_is_checked(points);
    if engine::good_curve(points) {
        laws::law_checked_curve_runs_as_given(points);
        assert forall|j: int, k: int| 0 <= j < k < points.len() implies (#[trigger] points[j]).temp
            < (#[trigger] points[k]).temp by {}
    }
}

/// The first thing wrong with a curve is what is said of it: no point at all,
/// or, at the first point that will not do, a temperature beyond 0..=150
/// degrees, a duty beyond 0..=100 percent, or no rise in temperature.
pub proof fn law_bad_point_is_named(points: Seq<CurvePoint>, i: int)
    requires
        0 <= i < points.len(),
        forall|j: int|
            0 <= j < i ==> 0 <= (#[trigger] points[j]).temp <= 150_000_000_000 && 0
                <= points[j].duty <= 100_000_000_000 && (j > 0 ==> points[j - 1].temp
                < points[j].temp),
    ensures
        engine::bad_curve(Seq::empty()) == Some("the curve needs at least one point"@),
        !(0 <= points[i].temp <= 150_000_000_000) ==> engine::bad_curve(points) == Some(
            "bad curve point: "@ + quantity::shown(points[i].temp as int)
                + " °C is out of range (0..=150)"@,
        ),
        0 <= points[i].temp <= 150_000_000_000 && !(0 <= points[i].duty <= 100_000_000_000)
            ==> engine::bad_curve(points) == Some(
            "bad curve point: "@ + quantity::shown(points[i].duty as int)
                + " % duty is out of range (0..=100)"@,
        ),
        0 <= points[i].temp <= 150_000_000_000 && 0 <= points[i].duty <= 100_000_000_000 && i > 0
            && points[i].temp <= points[i - 1].temp ==> engine::bad_curve(points) == Some(
            "the curve points must be strictly increasing in temperature ("@ + quantity::shown(
                points[i].temp as int,
            ) + " °C)"@,
        ),
{
    lemma_bad_point_from(points, 0, i);
}

proof fn lemma_bad_point_from(points: Seq<CurvePoint>, from: nat, i: int)
    requires
        from <= i < points.len(),
        forall|j: int|
            0 <= j < i ==> 0 <= (#[trigger] points[j]).temp <= 150_000_000_000 && 0
                <= points[j].duty <= 100_000_000_000 && (j > 0 ==> points[j - 1].temp
                < points[j].temp),
    ensures
        engine::bad_point(points, from) == engine::bad_point(points, i as nat),
    decreases i - from,
{
    if from < i {
        assert(0 <= points[from as int].temp <= 150_000_000_000);
        lemma_bad_point_from(points, from + 1, i);
    }
}

/// A sweep that was asked for starts with the increment and settling time of
/// the request, or 10 % and 3 s, once its fan is there and shows a speed.
pub proof fn law_sweep_is_started(
    e: EngineView,
    id: Seq<char>,
    step: Option<u8>,
    settle: Option<i64>,
    fs: SysfsView,
    nvidia: Seq<NvidiaGpuView>,
    i: int,
)
    requires
        e.sweep is None,
        exists|j: int| 0 <= j < e.config.pwm.len() && (#[trigger] e.config.pwm[j]).id == id,
        0 <= i < e.fans.len(),
        e.fans[i].id == id,
        forall|j: int| 0 <= j < i ==> (#[trigger] e.fans[j]).id != id,
    ensures
        ({
            let (n, act) = handled(e, RequestView::Sweep { fan: id, step, settle }, fs, nvidia);
            let chip = hwmon::resolved(hwmon::chips_of(fs), e.fans[i].hwmon);
            let ready = chip is Some && e.fans[i].index is Some && hwmon::tach_of(
                fs,
                chip->0.dir,
                e.fans[i].index->0,
            ) is Some;
            &&& n == calibration::sweep_begun(e, i, fs)
            &&& ready ==> (act matches ActionView::StartSweep { fan, step: s, settle: t } && {
                &&& fan == id
                &&& step is None ==> s == 10
                &&& step matches Some(x) ==> s == x
                &&& settle is None ==> t == 3_000_000_000
                &&& settle matches Some(x) ==> t == x
            })
            &&& !ready ==> (act matches ActionView::Reply(ResponseView::Error { message })
                && n.fans[i].err == Some(message) && n.sweep is None)
        }),
{
    laws::law_sweep_may_start(e, id);
    engine::lemma_fan_place(e.fans, id);
    let p = engine::fan_place(e.fans, id) as int;
    if p < i {
        assert(e.fans[p].id != id);
    }
    if i < p {
        assert(e.fans[i].id != id);
    }
}

/// A sweep goes on, one increment at a time and to 100 % at most, until it has
/// reached 100 % or the fan has stalled.
pub proof fn law_sweep_goes_on(e: EngineView, duty: u8, step: u8)
    requires
        duty <= 100,
    ensures
        duty + step <= 100 ==> next_duty(duty, step) == duty + step,
        duty + step > 100 ==> next_duty(duty, step) == 100,
        last_step(e, duty) <==> duty == 100 || (e.sweep is Some && e.sweep->0.steps.len() >= 2 && ({
            let s = e.sweep->0.steps;
            let a = s[s.len() - 2].rpm;
            let b = s[s.len() - 1].rpm;
            b > 0 && (b <= a + 15 || 50 * (b - a) <= a)
        })),
{
    if e.sweep is Some {
        sweep::law_stall_threshold(e.sweep->0.steps);
    }
}

/// A sweep on the command line succeeds with a range of two different ends.
pub proof fn law_usable_range(r: SweepReportView)
    ensures
        found_range(Some(r)) <==> r.min_duty is Some && r.max_duty is Some && r.min_duty->0
            != r.max_duty->0,
        !found_range(None),
{
}

/// Control cycles are at least 0.2 s apart.
pub proof fn law_shortest_interval()
    ensures
        SHORTEST_INTERVAL == 200_000_000,
{
}

} // verus!
