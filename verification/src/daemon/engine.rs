//! The control engine: the config, every fan's runtime state, and the
//! calibration sweep in flight.
//!
//! An operation that drives a fan comes in two parts. The first decides and
//! hands out a [`FanPlan`]; the caller carries the writes out, in order, and
//! stops at the first that fails. The second takes the outcome (the error's
//! text, if there was one) and a new picture of the tree, and reads back what
//! the fan does now.

use vstd::prelude::*;
use crate::config::types;
use crate::config::types::{
    Aggregation, Config, ConfigView, ControlKind, InitialMode, Pwm, PwmView, TempRef, TempRefView,
};
use crate::curve;
use crate::curve::{Curve, CurvePoint};
use crate::daemon::readings;
use crate::hwmon;
use crate::hwmon::{FileWrite, FileWriteView, Hwmon, HwmonView, Sysfs, SysfsView};
use crate::ipc;
use crate::ipc::{FanState, FanStateView, Mode, State, StateView, Temp, TempView};
use crate::json;
use crate::order;
use crate::quantity;
use crate::quantity::{FULL, UNIT};
use crate::sweep;
use crate::sweep::{SweepReport, SweepReportView, SweepStep};
use crate::temps;
use crate::temps::{NvidiaGpu, NvidiaGpuView};
use crate::text;

verus! {

/// One fan (a PWM channel) and its runtime state.
#[derive(Debug)]
pub struct EngineFan {
    /// The fan's id (`pwm1`).
    pub id: String,
    pub label: String,
    /// The hwmon chip that owns this PWM (name or `hwmonN`).
    pub hwmon: String,
    pub pwm_max: u32,
    /// How the fan is driven when in `Mode::Auto`.
    pub control: ControlKind,
    /// The duty curve, used when the control kind is `curve`.
    pub curve: Curve,
    /// The sensors whose readings drive this fan's curve.
    pub sensors: Vec<TempRef>,
    pub aggregation: Aggregation,
    /// The mode the fan is currently driven in.
    pub mode: Mode,
    /// The chip last resolved for this fan (updated each tick).
    pub chip: Option<Hwmon>,
    /// The numeric PWM index (`pwm1` -> `1`).
    pub index: Option<u32>,
    /// The last duty (read back from the chip, or computed).
    pub duty: Option<i64>,
    /// The last tachometer reading, if the chip exposes one.
    pub rpm: Option<u32>,
    /// The last error applying the mode, if any.
    pub err: Option<String>,
    /// The fan's measured effective duty range, if any: the curve's output
    /// is clamped to it.
    pub duty_min: Option<i64>,
    pub duty_max: Option<i64>,
}

/// An [`EngineFan`] with its text as character sequences.
pub struct FanView {
    pub id: Seq<char>,
    pub label: Seq<char>,
    pub hwmon: Seq<char>,
    pub pwm_max: u32,
    pub control: ControlKind,
    pub curve: Seq<CurvePoint>,
    pub sensors: Seq<TempRefView>,
    pub aggregation: Aggregation,
    pub mode: Mode,
    pub chip: Option<HwmonView>,
    pub index: Option<u32>,
    pub duty: Option<i64>,
    pub rpm: Option<u32>,
    pub err: Option<Seq<char>>,
    pub duty_min: Option<i64>,
    pub duty_max: Option<i64>,
}

impl View for EngineFan {
    type V = FanView;

    open spec fn view(&self) -> FanView {
        FanView {
            id: self.id@,
            label: self.label@,
            hwmon: self.hwmon@,
            pwm_max: self.pwm_max,
            control: self.control,
            curve: self.curve@,
            sensors: self.sensors.deep_view(),
            aggregation: self.aggregation,
            mode: self.mode,
            chip: self.chip.deep_view(),
            index: self.index,
            duty: self.duty,
            rpm: self.rpm,
            err: self.err.deep_view(),
            duty_min: self.duty_min,
            duty_max: self.duty_max,
        }
    }
}

impl DeepView for EngineFan {
    type V = FanView;

    open spec fn deep_view(&self) -> FanView {
        self.view()
    }
}

/// The state of a calibration sweep in flight.
#[derive(Debug, PartialEq)]
pub struct SweepState {
    /// The fan being swept (its `pwmN` id).
    pub fan: String,
    /// The fan's mode before the sweep; restored when the sweep finishes.
    pub prev: Mode,
    /// The (duty, rpm) steps observed so far.
    pub steps: Vec<SweepStep>,
}

/// A [`SweepState`] with its text as character sequences.
pub struct SweepStateView {
    pub fan: Seq<char>,
    pub prev: Mode,
    pub steps: Seq<SweepStep>,
}

impl View for SweepState {
    type V = SweepStateView;

    open spec fn view(&self) -> SweepStateView {
        SweepStateView { fan: self.fan@, prev: self.prev, steps: self.steps@ }
    }
}

impl DeepView for SweepState {
    type V = SweepStateView;

    open spec fn deep_view(&self) -> SweepStateView {
        self.view()
    }
}

/// What to write to a fan's chip.
#[derive(Debug, PartialEq)]
pub struct FanPlan {
    pub chip: Hwmon,
    pub writes: Vec<FileWrite>,
}

/// A [`FanPlan`] with its text as character sequences.
pub struct FanPlanView {
    pub chip: HwmonView,
    pub writes: Seq<FileWriteView>,
}

impl View for FanPlan {
    type V = FanPlanView;

    open spec fn view(&self) -> FanPlanView {
        FanPlanView { chip: self.chip@, writes: self.writes.deep_view() }
    }
}

impl DeepView for FanPlan {
    type V = FanPlanView;

    open spec fn deep_view(&self) -> FanPlanView {
        self.view()
    }
}

// ---- one fan --------------------------------------------------------------

/// A duty kept inside a fan's measured range. Where the ends are given the
/// wrong way round, the upper one wins.
pub open spec fn limited(pct: int, min: Option<i64>, max: Option<i64>) -> int {
    let raised = match min {
        Some(m) => if pct < m {
            m as int
        } else {
            pct
        },
        None => pct,
    };
    match max {
        Some(x) => if raised > x {
            x as int
        } else {
            raised
        },
        None => raised,
    }
}

/// What a fan's mode asks for: the duty that is then known, and the writes
/// that bring it about. `None` when the fan follows its curve and no sensor
/// gives a reading. An explicit duty is not limited to the measured range.
pub open spec fn drive(
    f: FanView,
    n: u32,
    chips: Seq<HwmonView>,
    fs: SysfsView,
    nvidia: Seq<NvidiaGpuView>,
) -> Option<(Option<int>, Seq<FileWriteView>)> {
    match f.mode {
        Mode::Auto => match f.control {
            ControlKind::Curve => match readings::aggregated(
                readings::sensor_readings(f.sensors, chips, fs, nvidia),
                f.aggregation,
            ) {
                Some(t) => {
                    let pct = limited(curve::duty_at(f.curve, t), f.duty_min, f.duty_max);
                    Some((Some(pct), hwmon::manual_writes(n, pct, f.pwm_max)))
                },
                None => None,
            },
            ControlKind::KernelAuto => Some((None, hwmon::auto_writes(n))),
        },
        Mode::Off => Some((None, hwmon::manual_writes(n, 0, f.pwm_max))),
        Mode::Full => Some((None, hwmon::manual_writes(n, FULL as int, f.pwm_max))),
        Mode::Manual { percent } => Some(
            (Some(percent * UNIT), hwmon::manual_writes(n, percent * UNIT, f.pwm_max)),
        ),
    }
}

/// What is said of a fan whose chip is not there.
pub open spec fn chipless(f: FanView) -> Seq<char> {
    "no resolvable chip for "@ + f.label
}

/// What is said of a fan whose sensors give no reading.
pub open spec fn blind(f: FanView) -> Seq<char> {
    f.label + ": no reading from its sensors"@
}

/// What is said of a fan for which something failed.
pub open spec fn labelled(f: FanView, why: Seq<char>) -> Seq<char> {
    f.label + ": "@ + why
}

/// A fan with its chip looked up.
pub open spec fn located(f: FanView, chips: Seq<HwmonView>) -> FanView {
    FanView { chip: hwmon::resolved(chips, f.hwmon), ..f }
}

/// A fan once its mode has been decided on. An earlier error is over; where
/// the fan cannot be put into its mode, the reason takes its place.
pub open spec fn started(
    f: FanView,
    chips: Seq<HwmonView>,
    fs: SysfsView,
    nvidia: Seq<NvidiaGpuView>,
) -> FanView {
    let g = located(f, chips);
    match (g.chip, g.index) {
        (Some(_), Some(n)) => match drive(f, n, chips, fs, nvidia) {
            Some((Some(d), _)) => FanView { duty: Some(d as i64), err: None, ..g },
            Some((None, _)) => FanView { err: None, ..g },
            None => FanView { err: Some(blind(f)), ..g },
        },
        _ => FanView { err: Some(chipless(f)), ..g },
    }
}

/// The writes that put a fan into its mode, if it can be put there.
pub open spec fn plan_for(
    f: FanView,
    chips: Seq<HwmonView>,
    fs: SysfsView,
    nvidia: Seq<NvidiaGpuView>,
) -> Option<FanPlanView> {
    match (hwmon::resolved(chips, f.hwmon), f.index) {
        (Some(c), Some(n)) => match drive(f, n, chips, fs, nvidia) {
            Some((_, writes)) => Some(FanPlanView { chip: c, writes }),
            None => None,
        },
        _ => None,
    }
}

/// A fan after its writes, given what went wrong with them.
pub open spec fn settled(f: FanView, failure: Option<Seq<char>>) -> FanView {
    match failure {
        Some(e) => FanView { err: Some(labelled(f, e)), ..f },
        None => f,
    }
}

/// A tachometer reading as the daemon reports it.
pub open spec fn rpm_of(v: Option<int>) -> Option<u32> {
    match v {
        Some(x) => Some(x as i64 as u32),
        None => None,
    }
}

/// A fan with its duty and speed read from its chip. A fan without a chip
/// keeps what it had.
pub open spec fn read_back(f: FanView, fs: SysfsView) -> FanView {
    match (f.chip, f.index) {
        (Some(c), Some(n)) => FanView {
            duty: temps::as_quantity(hwmon::duty_of(fs, c.dir, n, f.pwm_max)),
            rpm: rpm_of(hwmon::tach_of(fs, c.dir, n)),
            ..f
        },
        _ => f,
    }
}

/// A fan as the config describes it.
pub open spec fn fan_of(p: PwmView) -> FanView {
    let range = sweep::normalized(p.duty_min, p.duty_max);
    FanView {
        id: p.id,
        label: p.display_name(),
        hwmon: p.hwmon,
        pwm_max: p.pwm_max,
        control: p.control,
        curve: order::sorted_by(p.curve, curve::by_temp()),
        sensors: p.driving_sensors(),
        aggregation: p.aggregation,
        mode: ipc::mode_of(p.default),
        chip: None,
        index: match types::channel_of(p.id) {
            Some(n) => Some(n as u32),
            None => None,
        },
        duty: None,
        rpm: None,
        err: None,
        duty_min: temps::as_quantity(range.0),
        duty_max: temps::as_quantity(range.1),
    }
}

/// Build an [`EngineFan`] from a config entry.
pub fn pwm_to_engine_fan(p: &Pwm) -> (r: EngineFan)
    ensures
        r@ == fan_of(p@),
{
    let (duty_min, duty_max) = sweep::normalize(p.duty_min, p.duty_max);
    EngineFan {
        id: p.id.clone(),
        label: text::owned(p.display_name()),
        hwmon: p.hwmon.clone(),
        pwm_max: p.pwm_max,
        control: p.control,
        curve: Curve::new(curve::copy_points(&p.curve)),
        sensors: p.driving_sensors(),
        aggregation: p.aggregation,
        mode: Mode::from(p.default),
        chip: None,
        index: p.index(),
        duty: None,
        rpm: None,
        err: None,
        duty_min,
        duty_max,
    }
}

impl EngineFan {
    /// Decide what the fan's mode asks for. The first result is the duty
    /// that is then known.
    fn drive(
        &self,
        n: u32,
        chip: &Hwmon,
        chips: &Vec<Hwmon>,
        fs: &Sysfs,
        nvidia: &Vec<NvidiaGpu>,
    ) -> (r: Option<(Option<i64>, Vec<FileWrite>)>)
        ensures
            r is Some <==> drive(self@, n, chips.deep_view(), fs@, nvidia.deep_view()) is Some,
            r matches Some((d, w)) ==> drive(
                self@,
                n,
                chips.deep_view(),
                fs@,
                nvidia.deep_view(),
            ) == Some((temps::as_int(d), w.deep_view())),
    {
        match self.mode {
            Mode::Auto => match self.control {
                ControlKind::Curve => match readings::driving_value(
                    &self.sensors,
                    self.aggregation,
                    chips,
                    fs,
                    nvidia,
                ) {
                    Some(t) => {
                        let mut pct: i64 = self.curve.evaluate(t);
                        match self.duty_min {
                            Some(m) => {
                                if pct < m {
                                    pct = m;
                                }
                            },
                            None => {},
                        }
                        match self.duty_max {
                            Some(x) => {
                                if pct > x {
                                    pct = x;
                                }
                            },
                            None => {},
                        }
                        Some((Some(pct), chip.set_pwm_manual(n, pct, self.pwm_max)))
                    },
                    None => None,
                },
                ControlKind::KernelAuto => Some((None, chip.set_pwm_auto(n))),
            },
            Mode::Off => Some((None, chip.set_pwm_off(n, self.pwm_max))),
            Mode::Full => Some((None, chip.set_pwm_full(n, self.pwm_max))),
            Mode::Manual { percent } => {
                let pct: i64 = (percent as i64) * UNIT;
                Some((Some(pct), chip.set_pwm_manual(n, pct, self.pwm_max)))
            },
        }
    }

    /// Look the fan's chip up.
    pub(crate) fn locate(&mut self, chips: &Vec<Hwmon>)
        ensures
            final(self)@ == located(old(self)@, chips.deep_view()),
    {
        self.chip = match hwmon::resolve(chips, self.hwmon.as_str()) {
            Some(c) => Some(c.clone()),
            None => None,
        };
    }

    /// Decide on the fan's mode: the writes that bring it about, if it can
    /// be brought about.
    pub(crate) fn apply_fan(&mut self, chips: &Vec<Hwmon>, fs: &Sysfs, nvidia: &Vec<NvidiaGpu>) -> (r: Option<
        FanPlan,
    >)
        ensures
            final(self)@ == started(old(self)@, chips.deep_view(), fs@, nvidia.deep_view()),
            r.deep_view() == plan_for(old(self)@, chips.deep_view(), fs@, nvidia.deep_view()),
    {
        self.locate(chips);
        let chip = match &self.chip {
            Some(c) => c.clone(),
            None => {
                self.err = Some(text::cat("no resolvable chip for ", self.label.as_str()));
                return None;
            },
        };
        let n = match self.index {
            Some(n) => n,
            None => {
                self.err = Some(text::cat("no resolvable chip for ", self.label.as_str()));
                return None;
            },
        };
        match self.drive(n, &chip, chips, fs, nvidia) {
            Some((d, writes)) => {
                self.err = None;
                if d.is_some() {
                    self.duty = d;
                }
                Some(FanPlan { chip, writes })
            },
            None => {
                self.err = Some(text::cat(self.label.as_str(), ": no reading from its sensors"));
                None
            },
        }
    }

    /// Take note of what went wrong with the fan's writes.
    pub(crate) fn settle(&mut self, failure: &Option<String>)
        ensures
            final(self)@ == settled(old(self)@, failure.deep_view()),
    {
        match failure {
            Some(e) => {
                self.err = Some(text::cat3(self.label.as_str(), ": ", e.as_str()));
            },
            None => {},
        }
    }

    /// Read the fan's duty and speed from its chip.
    pub(crate) fn read_back(&mut self, fs: &Sysfs)
        ensures
            final(self)@ == read_back(old(self)@, fs@),
    {
        match &self.chip {
            Some(c) => match self.index {
                Some(n) => {
                    let duty = c.pwm_percent(fs, n, self.pwm_max);
                    let rpm = match c.tach(fs, n) {
                        Some(v) => Some(
                            #[verifier::truncate]
                            (v as u32),
                        ),
                        None => None,
                    };
                    self.duty = duty;
                    self.rpm = rpm;
                },
                None => {},
            },
            None => {},
        }
    }
}

// ---- all fans -------------------------------------------------------------

/// The control engine: it holds the config and every fan's runtime state.
#[derive(Debug)]
pub struct Engine {
    /// The hwmon tree (`/sys/class/hwmon`).
    pub base: String,
    /// The config file this engine was built from (used when reloading).
    pub config_path: String,
    pub config: Config,
    pub fans: Vec<EngineFan>,
    /// The temperature readings to show (hwmon, lm-sensors, NVIDIA).
    pub temps: Vec<Temp>,
    /// The last error across all fans, or empty when all is well.
    pub status: String,
    /// The fan being calibrated (swept) right now, if any. While this is
    /// set, a tick leaves the fan's duty alone, so that the sweep owns the
    /// channel.
    pub sweep: Option<SweepState>,
    /// The last finished calibration sweep.
    pub last_sweep: Option<SweepReport>,
}

/// An [`Engine`] with its text as character sequences.
pub struct EngineView {
    pub base: Seq<char>,
    pub config_path: Seq<char>,
    pub config: ConfigView,
    pub fans: Seq<FanView>,
    pub temps: Seq<TempView>,
    pub status: Seq<char>,
    pub sweep: Option<SweepStateView>,
    pub last_sweep: Option<SweepReportView>,
}

impl View for Engine {
    type V = EngineView;

    open spec fn view(&self) -> EngineView {
        EngineView {
            base: self.base@,
            config_path: self.config_path@,
            config: self.config@,
            fans: self.fans.deep_view(),
            temps: self.temps.deep_view(),
            status: self.status@,
            sweep: self.sweep.deep_view(),
            last_sweep: self.last_sweep.deep_view(),
        }
    }
}

/// The place of the first fan `id`, or the number of fans.
pub open spec fn fan_place(fans: Seq<FanView>, id: Seq<char>) -> nat
    decreases fans.len(),
{
    if fans.len() == 0 || fans[0].id == id {
        0
    } else {
        1 + fan_place(fans.skip(1), id)
    }
}

pub proof fn lemma_fan_place(fans: Seq<FanView>, id: Seq<char>)
    ensures
        fan_place(fans, id) <= fans.len(),
        fan_place(fans, id) < fans.len() ==> fans[fan_place(fans, id) as int].id == id,
        forall|i: int| 0 <= i < fan_place(fans, id) ==> (#[trigger] fans[i]).id != id,
    decreases fans.len(),
{
    if fans.len() > 0 && fans[0].id != id {
        let t = fans.skip(1);
        lemma_fan_place(t, id);
        assert forall|i: int| 0 <= i < fan_place(fans, id) implies (#[trigger] fans[i]).id
            != id by {
            if i > 0 {
                assert(t[i - 1] == fans[i]);
            }
        }
    }
}

pub(crate) fn find_fan(fans: &Vec<EngineFan>, id: &str) -> (r: usize)
    ensures
        r == fan_place(fans.deep_view(), id@),
        r <= fans@.len(),
{
    let mut i: usize = 0;
    while i < fans.len() && !text::str_eq(fans[i].id.as_str(), id)
        invariant
            i <= fans@.len(),
            forall|j: int| 0 <= j < i ==> (#[trigger] fans.deep_view()[j]).id != id@,
        decreases fans@.len() - i,
    {
        assert(fans.deep_view()[i as int].id == fans@[i as int].id@);
        i += 1;
    }
    proof {
        let s = fans.deep_view();
        lemma_fan_place(s, id@);
        let f = fan_place(s, id@) as int;
        if f < i {
            assert(s[f].id != id@);
        } else if i < f {
            assert(s[i as int].id != id@);
        }
    }
    i
}

/// Whether a sweep owns the fan `id`.
pub open spec fn swept(e: EngineView, id: Seq<char>) -> bool {
    e.sweep matches Some(s) && s.fan == id
}

/// The engine with one fan changed.
pub open spec fn with_fan(e: EngineView, at: int, f: FanView) -> EngineView {
    EngineView { fans: e.fans.update(at, f), ..e }
}

/// The engine as a freshly loaded config makes it. lm-sensors are listed
/// where the config asks for them; GPUs always.
pub open spec fn engine_of(
    config: ConfigView,
    config_path: Seq<char>,
    fs: SysfsView,
    lm: Option<Seq<char>>,
    nvidia: Seq<NvidiaGpuView>,
) -> EngineView {
    let listed = readings::hwmon_temps(hwmon::chips_of(fs), fs, config.temp_sensors);
    let with_lm = match lm {
        Some(doc) => if config.show_lm_sensors {
            listed + readings::lm_temps(json::parsed(doc))
        } else {
            listed
        },
        None => listed,
    };
    EngineView {
        base: fs.base,
        config_path,
        config,
        fans: config.pwm.map_values(|p: PwmView| fan_of(p)),
        temps: with_lm + readings::gpu_temps(nvidia),
        status: ""@,
        sweep: None,
        last_sweep: None,
    }
}

/// Whether any reading or fan of the engine needs a GPU.
pub open spec fn needs_gpu(e: EngineView) -> bool {
    ||| exists|i: int| 0 <= i < e.temps.len() && (#[trigger] e.temps[i]).source == "nvidia"@
    ||| exists|i: int, j: int|
        0 <= i < e.fans.len() && 0 <= j < e.fans[i].sensors.len() && (
        #[trigger] e.fans[i].sensors[j]).hwmon == "nvidia"@
}

/// The lm-sensors output, where the config asks for it.
pub open spec fn wanted_lm(e: EngineView, lm: Option<Seq<char>>) -> Option<Seq<char>> {
    if e.config.show_lm_sensors {
        lm
    } else {
        None
    }
}

/// A fan once a tick has decided on it: the fan that a sweep owns only has
/// its chip looked up.
pub open spec fn ticked_fan(
    e: EngineView,
    f: FanView,
    fs: SysfsView,
    nvidia: Seq<NvidiaGpuView>,
) -> FanView {
    let chips = hwmon::chips_of(fs);
    if swept(e, f.id) {
        located(f, chips)
    } else {
        started(f, chips, fs, nvidia)
    }
}

/// What a tick writes for a fan.
pub open spec fn tick_plan(
    e: EngineView,
    f: FanView,
    fs: SysfsView,
    nvidia: Seq<NvidiaGpuView>,
) -> Option<FanPlanView> {
    if swept(e, f.id) {
        None
    } else {
        plan_for(f, hwmon::chips_of(fs), fs, nvidia)
    }
}

/// The engine once a tick has read the sensors and decided on every fan.
pub open spec fn ticked(
    e: EngineView,
    fs: SysfsView,
    nvidia: Seq<NvidiaGpuView>,
    lm: Option<Seq<char>>,
) -> EngineView {
    EngineView {
        fans: e.fans.map_values(|f: FanView| ticked_fan(e, f, fs, nvidia)),
        temps: e.temps.map_values(
            |t: TempView|
                readings::refreshed(t, hwmon::chips_of(fs), fs, nvidia, wanted_lm(e, lm)),
        ),
        ..e
    }
}

/// What went wrong with the writes of the fan at `i`.
pub open spec fn outcome(outcomes: Seq<Option<Seq<char>>>, i: int) -> Option<Seq<char>> {
    if i < outcomes.len() {
        outcomes[i]
    } else {
        None
    }
}

/// A fan once its writes are done, before its chip is read back.
pub open spec fn tick_settled(
    e: EngineView,
    i: int,
    outcomes: Seq<Option<Seq<char>>>,
) -> FanView {
    if swept(e, e.fans[i].id) {
        e.fans[i]
    } else {
        settled(e.fans[i], outcome(outcomes, i))
    }
}

/// The last error among the first `n` fans, the one a sweep owns left out;
/// empty when there is none.
pub open spec fn last_error(
    e: EngineView,
    outcomes: Seq<Option<Seq<char>>>,
    n: nat,
) -> Seq<char>
    decreases n,
{
    if n == 0 {
        ""@
    } else {
        let f = tick_settled(e, n - 1, outcomes);
        if !swept(e, f.id) && f.err is Some {
            f.err->0
        } else {
            last_error(e, outcomes, (n - 1) as nat)
        }
    }
}

/// The engine once the writes of a tick are done.
pub open spec fn tick_ended(
    e: EngineView,
    outcomes: Seq<Option<Seq<char>>>,
    fs: SysfsView,
) -> EngineView {
    EngineView {
        fans: Seq::new(e.fans.len(), |i: int| read_back(tick_settled(e, i, outcomes), fs)),
        status: last_error(e, outcomes, e.fans.len()),
        ..e
    }
}

impl Engine {
    /// Build an engine from a freshly loaded config. `lm` is the output of
    /// `sensors -j`, where there is one.
    pub fn new(
        config: Config,
        config_path: String,
        fs: &Sysfs,
        lm: Option<&str>,
        nvidia: &Vec<NvidiaGpu>,
    ) -> (r: Engine)
        ensures
            r@ == engine_of(config@, config_path@, fs@, lm.deep_view(), nvidia.deep_view()),
    {
        let chips = hwmon::discover(fs);
        let ghost pwm = config.pwm.deep_view();
        let mut fans: Vec<EngineFan> = Vec::new();
        let mut i: usize = 0;
        while i < config.pwm.len()
            invariant
                i <= config.pwm@.len(),
                pwm == config.pwm.deep_view(),
                fans@.len() == i,
                forall|j: int| 0 <= j < i ==> (#[trigger] fans@[j])@ == fan_of(pwm[j]),
            decreases config.pwm@.len() - i,
        {
            assert(pwm[i as int] == config.pwm@[i as int]@);
            fans.push(pwm_to_engine_fan(&config.pwm[i]));
            i += 1;
        }
        assert(fans.deep_view() =~= pwm.map_values(|p: PwmView| fan_of(p)));
        let mut list: Vec<Temp> = Vec::new();
        assert(list.deep_view() =~= Seq::<TempView>::empty());
        readings::add_hwmon(&mut list, &chips, fs, &config.temp_sensors);
        assert(Seq::<TempView>::empty() + readings::hwmon_temps(
            chips.deep_view(),
            fs@,
            config@.temp_sensors,
        ) =~= readings::hwmon_temps(chips.deep_view(), fs@, config@.temp_sensors));
        if config.show_lm_sensors {
            match lm {
                Some(doc) => {
                    readings::add_lm_sensors(&mut list, doc);
                },
                None => {},
            }
        }
        readings::add_nvidia(&mut list, nvidia);
        Engine {
            base: fs.base.clone(),
            config_path,
            config,
            fans,
            temps: list,
            status: text::owned(""),
            sweep: None,
            last_sweep: None,
        }
    }

    /// Whether the GPUs have to be read for a tick.
    pub fn uses_nvidia(&self) -> (r: bool)
        ensures
            r == needs_gpu(self@),
    {
        let ghost e = self@;
        let mut i: usize = 0;
        while i < self.temps.len()
            invariant
                i <= self.temps@.len(),
                e == self@,
                forall|j: int| 0 <= j < i ==> (#[trigger] e.temps[j]).source != "nvidia"@,
            decreases self.temps@.len() - i,
        {
            assert(e.temps[i as int] == self.temps@[i as int]@);
            if text::str_eq(self.temps[i].source.as_str(), "nvidia") {
                return true;
            }
            i += 1;
        }
        let mut i: usize = 0;
        while i < self.fans.len()
            invariant
                i <= self.fans@.len(),
                e == self@,
                forall|k: int, j: int|
                    0 <= k < i && 0 <= j < e.fans[k].sensors.len() ==> (
                    #[trigger] e.fans[k].sensors[j]).hwmon != "nvidia"@,
            decreases self.fans@.len() - i,
        {
            assert(e.fans[i as int] == self.fans@[i as int]@);
            let mut j: usize = 0;
            while j < self.fans[i].sensors.len()
                invariant
                    i < self.fans@.len(),
                    e == self@,
                    e.fans[i as int] == self.fans@[i as int]@,
                    j <= self.fans@[i as int].sensors@.len(),
                    forall|k: int|
                        0 <= k < j ==> (#[trigger] e.fans[i as int].sensors[k]).hwmon != "nvidia"@,
                decreases self.fans@[i as int].sensors@.len() - j,
            {
                assert(e.fans[i as int].sensors[j as int]
                    == self.fans@[i as int].sensors@[j as int]@);
                if text::str_eq(self.fans[i].sensors[j].hwmon.as_str(), "nvidia") {
                    return true;
                }
                j += 1;
            }
            i += 1;
        }
        false
    }

    /// Whether a calibration sweep owns the fan `id`.
    pub fn is_swept(&self, id: &str) -> (r: bool)
        ensures
            r == swept(self@, id@),
    {
        match &self.sweep {
            Some(s) => text::str_eq(s.fan.as_str(), id),
            None => false,
        }
    }

    /// The first part of a control cycle: read all sensors and decide on
    /// each fan's mode. The result holds one entry per fan.
    pub fn tick(&mut self, fs: &Sysfs, nvidia: &Vec<NvidiaGpu>, lm: Option<&str>) -> (r: Vec<
        Option<FanPlan>,
    >)
        ensures
            final(self)@ == ticked(old(self)@, fs@, nvidia.deep_view(), lm.deep_view()),
            r.deep_view() == old(self)@.fans.map_values(
                |f: FanView| tick_plan(old(self)@, f, fs@, nvidia.deep_view()),
            ),
    {
        let ghost e = self@;
        let ghost gpus = nvidia.deep_view();
        let chips = hwmon::discover(fs);
        let wanted = if self.config.show_lm_sensors {
            lm
        } else {
            None
        };
        readings::update_temps(&mut self.temps, &chips, fs, nvidia, wanted);
        let mut plans: Vec<Option<FanPlan>> = Vec::new();
        let mut i: usize = 0;
        while i < self.fans.len()
            invariant
                i <= self.fans@.len(),
                self.fans@.len() == e.fans.len(),
                self.base@ == e.base,
                self.config_path@ == e.config_path,
                self.config@ == e.config,
                self.status@ == e.status,
                self.sweep.deep_view() == e.sweep,
                self.last_sweep.deep_view() == e.last_sweep,
                self.temps.deep_view() == ticked(e, fs@, gpus, lm.deep_view()).temps,
                gpus == nvidia.deep_view(),
                chips.deep_view() == hwmon::chips_of(fs@),
                plans@.len() == i,
                forall|j: int|
                    0 <= j < i ==> (#[trigger] self.fans@[j])@ == ticked_fan(
                        e,
                        e.fans[j],
                        fs@,
                        gpus,
                    ),
                forall|j: int| i <= j < e.fans.len() ==> (#[trigger] self.fans@[j])@ == e.fans[j],
                forall|j: int|
                    0 <= j < i ==> (#[trigger] plans@[j]).deep_view() == tick_plan(
                        e,
                        e.fans[j],
                        fs@,
                        gpus,
                    ),
            decreases self.fans@.len() - i,
        {
            let owned = match &self.sweep {
                Some(s) => text::str_eq(s.fan.as_str(), self.fans[i].id.as_str()),
                None => false,
            };
            if owned {
                self.fans[i].locate(&chips);
                plans.push(None);
            } else {
                let plan = self.fans[i].apply_fan(&chips, fs, nvidia);
                plans.push(plan);
            }
            i += 1;
        }
        assert(self.fans.deep_view() =~= ticked(e, fs@, gpus, lm.deep_view()).fans);
        assert(plans.deep_view() =~= e.fans.map_values(
            |f: FanView| tick_plan(e, f, fs@, gpus),
        ));
        plans
    }

    /// The second part of a control cycle: what went wrong with each fan's
    /// writes, and the tree after them.
    pub fn tick_done(&mut self, outcomes: &Vec<Option<String>>, fs: &Sysfs)
        ensures
            final(self)@ == tick_ended(old(self)@, outcomes.deep_view(), fs@),
    {
        let ghost e = self@;
        let ghost outs = outcomes.deep_view();
        let mut status = text::owned("");
        let mut i: usize = 0;
        while i < self.fans.len()
            invariant
                i <= self.fans@.len(),
                self.fans@.len() == e.fans.len(),
                self.base@ == e.base,
                self.config_path@ == e.config_path,
                self.config@ == e.config,
                self.temps.deep_view() == e.temps,
                self.sweep.deep_view() == e.sweep,
                self.last_sweep.deep_view() == e.last_sweep,
                outs == outcomes.deep_view(),
                status@ == last_error(e, outs, i as nat),
                forall|j: int|
                    0 <= j < i ==> (#[trigger] self.fans@[j])@ == read_back(
                        tick_settled(e, j, outs),
                        fs@,
                    ),
                forall|j: int| i <= j < e.fans.len() ==> (#[trigger] self.fans@[j])@ == e.fans[j],
            decreases self.fans@.len() - i,
        {
            let owned = match &self.sweep {
                Some(s) => text::str_eq(s.fan.as_str(), self.fans[i].id.as_str()),
                None => false,
            };
            if !owned {
                if i < outcomes.len() {
                    assert(outs[i as int] == outcomes@[i as int].deep_view());
                    self.fans[i].settle(&outcomes[i]);
                }
                match &self.fans[i].err {
                    Some(why) => {
                        status = why.clone();
                    },
                    None => {},
                }
            }
            self.fans[i].read_back(fs);
            i += 1;
        }
        self.status = status;
        assert(self.fans.deep_view() =~= tick_ended(e, outs, fs@).fans);
    }
}

// ---- modes ----------------------------------------------------------------

/// Why a change of the mode of the fan `id` is refused, if it is: there is no
/// such fan, or a sweep owns it (both would write the chip).
pub open spec fn mode_refused(e: EngineView, id: Seq<char>) -> Option<Seq<char>> {
    let i = fan_place(e.fans, id) as int;
    if i >= e.fans.len() {
        Some("no fan "@ + id)
    } else if swept(e, id) {
        Some(
            labelled(
                e.fans[i],
                "a calibration sweep is in progress; wait for it to finish"@,
            ),
        )
    } else {
        None
    }
}

/// A fan put into a mode, its last error forgotten.
pub open spec fn in_mode(f: FanView, mode: Mode) -> FanView {
    FanView { mode, err: None, ..f }
}

/// The outcome of an operation on a fan: its error, or success.
pub open spec fn said(r: Result<(), String>) -> Option<Seq<char>> {
    match r {
        Ok(_) => None,
        Err(e) => Some(e@),
    }
}

impl Engine {
    /// Change the mode of the fan identified by `id` and decide on it right
    /// away, so the next state reflects it.
    pub fn set_mode(&mut self, id: &str, mode: Mode, fs: &Sysfs, nvidia: &Vec<NvidiaGpu>) -> (r:
        Result<Option<FanPlan>, String>)
        ensures
            ({
                let e = old(self)@;
                let i = fan_place(e.fans, id@) as int;
                let chips = hwmon::chips_of(fs@);
                match mode_refused(e, id@) {
                    Some(why) => {
                        &&& final(self)@ == e
                        &&& r matches Err(m) && m@ == why
                    },
                    None => {
                        let f = in_mode(e.fans[i], mode);
                        &&& final(self)@ == with_fan(
                            e,
                            i,
                            started(f, chips, fs@, nvidia.deep_view()),
                        )
                        &&& r matches Ok(p) && p.deep_view() == plan_for(
                            f,
                            chips,
                            fs@,
                            nvidia.deep_view(),
                        )
                    },
                }
            }),
    {
        let ghost e = self@;
        let i = find_fan(&self.fans, id);
        if i == self.fans.len() {
            return Err(text::cat("no fan ", id));
        }
        assert(e.fans[i as int] == self.fans@[i as int]@);
        if self.is_swept(id) {
            return Err(
                text::cat3(
                    self.fans[i].label.as_str(),
                    ": ",
                    "a calibration sweep is in progress; wait for it to finish",
                ),
            );
        }
        let chips = hwmon::discover(fs);
        self.fans[i].mode = mode;
        self.fans[i].err = None;
        assert(self.fans@[i as int]@ == in_mode(e.fans[i as int], mode));
        let plan = self.fans[i].apply_fan(&chips, fs, nvidia);
        assert(self.fans.deep_view() =~= e.fans.update(i as int, self.fans@[i as int]@));
        Ok(plan)
    }

    /// The fan `id` after the writes of its mode. A failed write is recorded
    /// on the fan and reported.
    pub fn mode_applied(&mut self, id: &str, failure: &Option<String>, fs: &Sysfs) -> (r: Result<
        (),
        String,
    >)
        ensures
            ({
                let e = old(self)@;
                let i = fan_place(e.fans, id@) as int;
                if i < e.fans.len() {
                    let f = read_back(settled(e.fans[i], failure.deep_view()), fs@);
                    &&& final(self)@ == with_fan(e, i, f)
                    &&& said(r) == f.err
                } else {
                    &&& final(self)@ == e
                    &&& said(r) == Some("no fan "@ + id@)
                }
            }),
    {
        let ghost e = self@;
        let i = find_fan(&self.fans, id);
        if i == self.fans.len() {
            return Err(text::cat("no fan ", id));
        }
        assert(e.fans[i as int] == self.fans@[i as int]@);
        self.fans[i].settle(failure);
        self.fans[i].read_back(fs);
        assert(self.fans.deep_view() =~= e.fans.update(i as int, self.fans@[i as int]@));
        match &self.fans[i].err {
            Some(why) => Err(why.clone()),
            None => Ok(()),
        }
    }
}

// ---- the config -----------------------------------------------------------

/// What is wrong with a curve from its point `i` on, if anything.
pub open spec fn bad_point(points: Seq<CurvePoint>, i: nat) -> Option<Seq<char>>
    decreases points.len() - i,
{
    if i >= points.len() {
        None
    } else {
        let p = points[i as int];
        if !(0 <= p.temp <= 150 * UNIT) {
            Some(
                "bad curve point: "@ + quantity::shown(p.temp as int)
                    + " °C is out of range (0..=150)"@,
            )
        } else if !(0 <= p.duty <= FULL) {
            Some(
                "bad curve point: "@ + quantity::shown(p.duty as int)
                    + " % duty is out of range (0..=100)"@,
            )
        } else if i > 0 && p.temp <= points[i - 1].temp {
            Some(
                "the curve points must be strictly increasing in temperature ("@
                    + quantity::shown(p.temp as int) + " °C)"@,
            )
        } else {
            bad_point(points, i + 1)
        }
    }
}

/// What is wrong with a curve, if anything: the first thing found.
pub open spec fn bad_curve(points: Seq<CurvePoint>) -> Option<Seq<char>> {
    if points.len() == 0 {
        Some("the curve needs at least one point"@)
    } else {
        bad_point(points, 0)
    }
}

/// A curve the daemon accepts: not empty, every point in range, and the
/// temperatures strictly increasing.
pub open spec fn good_curve(points: Seq<CurvePoint>) -> bool {
    &&& points.len() > 0
    &&& forall|i: int|
        0 <= i < points.len() ==> 0 <= (#[trigger] points[i]).temp <= 150 * UNIT && 0
            <= points[i].duty <= FULL
    &&& forall|i: int, j: int| 0 <= i < j < points.len() ==> points[i].temp < points[j].temp
}

/// Check a curve before it is saved.
pub fn check_curve(points: &Vec<CurvePoint>) -> (r: Result<(), String>)
    ensures
        said(r) == bad_curve(points@),
{
    if points.len() == 0 {
        return Err(text::owned("the curve needs at least one point"));
    }
    let mut i: usize = 0;
    while i < points.len()
        invariant
            i <= points@.len(),
            bad_point(points@, 0) == bad_point(points@, i as nat),
        decreases points@.len() - i,
    {
        let p = points[i];
        if !(0 <= p.temp && p.temp <= 150 * UNIT) {
            let t = quantity::quantity_text(p.temp);
            return Err(
                text::cat3("bad curve point: ", t.as_str(), " °C is out of range (0..=150)"),
            );
        }
        if !(0 <= p.duty && p.duty <= FULL) {
            let d = quantity::quantity_text(p.duty);
            return Err(
                text::cat3("bad curve point: ", d.as_str(), " % duty is out of range (0..=100)"),
            );
        }
        if i > 0 && p.temp <= points[i - 1].temp {
            let t = quantity::quantity_text(p.temp);
            return Err(
                text::cat3(
                    "the curve points must be strictly increasing in temperature (",
                    t.as_str(),
                    " °C)",
                ),
            );
        }
        i += 1;
    }
    Ok(())
}

/// What a saved fan config replaced, to undo it.
#[derive(Debug)]
pub struct ConfigUndo {
    pub id: String,
    pub curve: Vec<CurvePoint>,
    pub default: InitialMode,
    /// The curve the fan ran by, if there is such a fan.
    pub runtime: Option<Curve>,
}

/// A [`ConfigUndo`] with its text as character sequences.
pub struct ConfigUndoView {
    pub id: Seq<char>,
    pub curve: Seq<CurvePoint>,
    pub default: InitialMode,
    pub runtime: Option<Seq<CurvePoint>>,
}

impl View for ConfigUndo {
    type V = ConfigUndoView;

    open spec fn view(&self) -> ConfigUndoView {
        ConfigUndoView {
            id: self.id@,
            curve: self.curve@,
            default: self.default,
            runtime: self.runtime.deep_view(),
        }
    }
}

/// Why a fan config is not saved, if it is not.
pub open spec fn config_refused(e: EngineView, id: Seq<char>, points: Seq<CurvePoint>) -> Option<
    Seq<char>,
> {
    match bad_curve(points) {
        Some(why) => Some(why),
        None => if types::place_of(e.config.pwm, id) < e.config.pwm.len() {
            None
        } else {
            Some("no fan "@ + id + " in the config"@)
        },
    }
}

/// The engine with a fan's curve and initial mode in its config, and a curve
/// to run by, replaced. A fan with no such curve keeps its own.
pub open spec fn with_config(
    e: EngineView,
    id: Seq<char>,
    points: Seq<CurvePoint>,
    default: InitialMode,
    runtime: Option<Seq<CurvePoint>>,
) -> EngineView {
    let at = types::place_of(e.config.pwm, id) as int;
    let i = fan_place(e.fans, id) as int;
    EngineView {
        config: if at < e.config.pwm.len() {
            ConfigView {
                pwm: e.config.pwm.update(
                    at,
                    PwmView { curve: points, default, ..e.config.pwm[at] },
                ),
                ..e.config
            }
        } else {
            e.config
        },
        fans: match runtime {
            Some(c) => if i < e.fans.len() {
                e.fans.update(i, FanView { curve: c, ..e.fans[i] })
            } else {
                e.fans
            },
            None => e.fans,
        },
        ..e
    }
}

/// What a new config for the fan `id` replaces.
pub open spec fn undo_for(e: EngineView, id: Seq<char>) -> ConfigUndoView {
    let at = types::place_of(e.config.pwm, id) as int;
    let i = fan_place(e.fans, id) as int;
    ConfigUndoView {
        id,
        curve: e.config.pwm[at].curve,
        default: e.config.pwm[at].default,
        runtime: if i < e.fans.len() {
            Some(e.fans[i].curve)
        } else {
            None
        },
    }
}

impl Engine {
    fn put_config(
        &mut self,
        id: &str,
        points: Vec<CurvePoint>,
        default: InitialMode,
        runtime: Option<Curve>,
    )
        ensures
            final(self)@ == with_config(
                old(self)@,
                id@,
                points@,
                default,
                runtime.deep_view(),
            ),
    {
        let ghost e = self@;
        let at = types::find_pwm(&self.config.pwm, id);
        let i = find_fan(&self.fans, id);
        let ghost after = with_config(e, id@, points@, default, runtime.deep_view());
        if at < self.config.pwm.len() {
            assert(e.config.pwm[at as int] == self.config.pwm@[at as int]@);
            self.config.pwm[at].curve = points;
            self.config.pwm[at].default = default;
        }
        assert(self.config.pwm.deep_view() =~= after.config.pwm);
        match runtime {
            Some(c) => {
                if i < self.fans.len() {
                    assert(e.fans[i as int] == self.fans@[i as int]@);
                    self.fans[i].curve = c;
                }
            },
            None => {},
        }
        assert(self.fans.deep_view() =~= after.fans);
    }

    /// Take over a new duty curve and initial mode for the fan identified by
    /// `id`, into the config and the running engine, so the next tick
    /// already follows the new curve. The caller then writes the config file
    /// and reports through [`Engine::fan_config_saved`].
    pub fn save_fan_config(&mut self, id: &str, points: Vec<CurvePoint>, default_mode: InitialMode)
        -> (r: Result<ConfigUndo, String>)
        ensures
            ({
                let e = old(self)@;
                match config_refused(e, id@, points@) {
                    Some(why) => final(self)@ == e && (r matches Err(m) && m@ == why),
                    None => {
                        &&& final(self)@ == with_config(
                            e,
                            id@,
                            points@,
                            default_mode,
                            Some(order::sorted_by(points@, curve::by_temp())),
                        )
                        &&& r matches Ok(u) && u@ == undo_for(e, id@)
                    },
                }
            }),
    {
        let ghost e = self@;
        match check_curve(&points) {
            Ok(_) => {},
            Err(why) => {
                return Err(why);
            },
        }
        let at = types::find_pwm(&self.config.pwm, id);
        if at == self.config.pwm.len() {
            return Err(text::cat3("no fan ", id, " in the config"));
        }
        assert(e.config.pwm[at as int] == self.config.pwm@[at as int]@);
        let i = find_fan(&self.fans, id);
        let runtime = if i < self.fans.len() {
            assert(e.fans[i as int] == self.fans@[i as int]@);
            Some(self.fans[i].curve.clone())
        } else {
            None
        };
        let undo = ConfigUndo {
            id: text::owned(id),
            curve: curve::copy_points(&self.config.pwm[at].curve),
            default: self.config.pwm[at].default,
            runtime,
        };
        let new_curve = Curve::new(curve::copy_points(&points));
        self.put_config(id, points, default_mode, Some(new_curve));
        Ok(undo)
    }

    /// The outcome of writing the config file. Where the write failed, the
    /// file still holds the old config, and the engine goes back to it.
    pub fn fan_config_saved(&mut self, undo: ConfigUndo, failure: Option<String>) -> (r: Result<
        (),
        String,
    >)
        ensures
            said(r) == failure.deep_view(),
            final(self)@ == (match failure {
                Some(_) => with_config(
                    old(self)@,
                    undo@.id,
                    undo@.curve,
                    undo@.default,
                    undo@.runtime,
                ),
                None => old(self)@,
            }),
    {
        match failure {
            Some(why) => {
                self.put_config(undo.id.as_str(), undo.curve, undo.default, undo.runtime);
                Err(why)
            },
            None => Ok(()),
        }
    }

    /// Rebuild the engine from a config read anew, and decide on every fan
    /// (the first part of a tick). A sweep in flight and the last sweep's
    /// report are carried over. A config that could not be read changes
    /// nothing.
    pub fn reload(
        &mut self,
        config: Result<Config, String>,
        fs: &Sysfs,
        lm: Option<&str>,
        nvidia: &Vec<NvidiaGpu>,
    ) -> (r: Result<Vec<Option<FanPlan>>, String>)
        ensures
            ({
                let e = old(self)@;
                match config {
                    Err(why) => final(self)@ == e && (r matches Err(m) && m@ == why@),
                    Ok(c) => {
                        let n = reloaded(e, c@, fs@, lm.deep_view(), nvidia.deep_view());
                        &&& final(self)@ == ticked(n, fs@, nvidia.deep_view(), lm.deep_view())
                        &&& r matches Ok(p) && p.deep_view() == n.fans.map_values(
                            |f: FanView| tick_plan(n, f, fs@, nvidia.deep_view()),
                        )
                    },
                }
            }),
    {
        let cfg = match config {
            Ok(c) => c,
            Err(why) => {
                return Err(why);
            },
        };
        let sweep = self.sweep.take();
        let last_sweep = self.last_sweep.take();
        let mut fresh = Engine::new(cfg, self.config_path.clone(), fs, lm, nvidia);
        fresh.sweep = sweep;
        fresh.last_sweep = last_sweep;
        *self = fresh;
        Ok(self.tick(fs, nvidia, lm))
    }
}

/// The engine as a config read anew makes it, the sweep carried over.
pub open spec fn reloaded(
    e: EngineView,
    config: ConfigView,
    fs: SysfsView,
    lm: Option<Seq<char>>,
    nvidia: Seq<NvidiaGpuView>,
) -> EngineView {
    EngineView {
        sweep: e.sweep,
        last_sweep: e.last_sweep,
        ..engine_of(config, e.config_path, fs, lm, nvidia)
    }
}

// ---- what clients see -----------------------------------------------------

/// A fan as clients see it: the curve and initial mode are those of the
/// config, which the editor dialog edits.
pub open spec fn fan_state(e: EngineView, f: FanView) -> FanStateView {
    let at = types::place_of(e.config.pwm, f.id) as int;
    FanStateView {
        id: f.id,
        label: f.label,
        mode: f.mode,
        duty: f.duty,
        rpm: f.rpm,
        err: f.err,
        curve: if at < e.config.pwm.len() {
            e.config.pwm[at].curve
        } else {
            Seq::empty()
        },
        default_mode: if at < e.config.pwm.len() {
            e.config.pwm[at].default
        } else {
            InitialMode::Auto
        },
    }
}

/// The engine as clients see it.
pub open spec fn state_of(e: EngineView) -> StateView {
    StateView {
        refresh_secs: e.config.refresh_secs,
        status: e.status,
        fans: e.fans.map_values(|f: FanView| fan_state(e, f)),
        temps: e.temps,
        sweeping: match e.sweep {
            Some(s) => Some(s.fan),
            None => None,
        },
        sweep: e.last_sweep,
    }
}

impl Engine {
    /// The state snapshot served to clients.
    pub fn snapshot(&self) -> (r: State)
        ensures
            r@ == state_of(self@),
    {
        let ghost e = self@;
        let mut fans: Vec<FanState> = Vec::new();
        let mut i: usize = 0;
        while i < self.fans.len()
            invariant
                i <= self.fans@.len(),
                e == self@,
                fans@.len() == i,
                forall|j: int| 0 <= j < i ==> (#[trigger] fans@[j])@ == fan_state(e, e.fans[j]),
            decreases self.fans@.len() - i,
        {
            let f = &self.fans[i];
            assert(e.fans[i as int] == f@);
            let at = types::find_pwm(&self.config.pwm, f.id.as_str());
            let (points, default_mode) = if at < self.config.pwm.len() {
                assert(e.config.pwm[at as int] == self.config.pwm@[at as int]@);
                (
                    curve::copy_points(&self.config.pwm[at].curve),
                    self.config.pwm[at].default,
                )
            } else {
                (Vec::new(), InitialMode::Auto)
            };
            fans.push(
                FanState {
                    id: f.id.clone(),
                    label: f.label.clone(),
                    mode: f.mode,
                    duty: f.duty,
                    rpm: f.rpm,
                    err: f.err.clone(),
                    curve: points,
                    default_mode,
                },
            );
            i += 1;
        }
        assert(fans.deep_view() =~= state_of(e).fans);
        let temps = self.temps.clone();
        assert(temps.deep_view() =~= self.temps.deep_view());
        State {
            refresh_secs: self.config.refresh_secs,
            status: self.status.clone(),
            fans,
            temps,
            sweeping: match &self.sweep {
                Some(s) => Some(s.fan.clone()),
                None => None,
            },
            sweep: self.last_sweep.clone(),
        }
    }
}

} // verus!
