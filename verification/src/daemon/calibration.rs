//! The calibration sweep as the engine runs it: a fan is stepped through
//! duties while its tachometer is read, the range in which it responds is
//! derived and kept, and the fan's mode is restored.

use vstd::prelude::*;
use crate::config::types;
use crate::config::types::{ConfigView, PwmView};
use crate::daemon::engine;
use crate::daemon::engine::{
    Engine, EngineView, FanPlan, FanPlanView, FanView, SweepState, SweepStateView,
};
use crate::hwmon;
use crate::hwmon::{HwmonView, Sysfs, SysfsView};
use crate::ipc::Mode;
use crate::number;
use crate::quantity::UNIT;
use crate::sweep;
use crate::sweep::{SweepReport, SweepReportView, SweepStep};
use crate::temps;
use crate::temps::{NvidiaGpu, NvidiaGpuView};
use crate::text;

verus! {

/// What is said of a fan whose speed cannot be read.
pub open spec fn tachless(f: FanView, n: u32) -> Seq<char> {
    f.label + ": no readable tachometer (fan"@ + number::decimal(n as nat)
        + "_input) — a sweep needs one to observe the fan"@
}

/// Why a sweep of a fan cannot start, given its chip and channel: it needs
/// both, and a tachometer.
pub open spec fn unobservable(f: FanView, chips: Seq<HwmonView>, fs: SysfsView) -> Option<
    Seq<char>,
> {
    match (hwmon::resolved(chips, f.hwmon), f.index) {
        (Some(c), Some(n)) => if hwmon::tach_of(fs, c.dir, n) is None {
            Some(tachless(f, n))
        } else {
            None
        },
        _ => Some(engine::chipless(f)),
    }
}

/// Why a sweep of `id` is refused before its chip is looked at, if it is.
pub open spec fn sweep_refused(e: EngineView, id: Seq<char>) -> Option<Seq<char>> {
    match e.sweep {
        Some(s) => Some("a calibration sweep of "@ + s.fan + " is already running"@),
        None => if types::place_of(e.config.pwm, id) >= e.config.pwm.len() {
            Some("no fan "@ + id + " in the config"@)
        } else if engine::fan_place(e.fans, id) >= e.fans.len() {
            Some("no fan "@ + id)
        } else {
            None
        },
    }
}

/// The engine once a sweep of the fan at `i` was asked for: the sweep is on,
/// or the fan says why it is not.
pub open spec fn sweep_begun(e: EngineView, i: int, fs: SysfsView) -> EngineView {
    let chips = hwmon::chips_of(fs);
    let f = e.fans[i];
    let why = unobservable(f, chips, fs);
    let now = engine::with_fan(e, i, FanView { err: why, ..engine::located(f, chips) });
    match why {
        Some(_) => now,
        None => EngineView {
            sweep: Some(SweepStateView { fan: f.id, prev: f.mode, steps: Seq::empty() }),
            ..now
        },
    }
}

/// The chip a sweep writes to: the one last resolved for the fan, or else the
/// one that can be resolved now.
pub open spec fn sweep_chip(f: FanView, fs: SysfsView) -> Option<HwmonView> {
    match f.chip {
        Some(c) => Some(c),
        None => hwmon::resolved(hwmon::chips_of(fs), f.hwmon),
    }
}

/// The speed a sweep observes: 0 where the fan's tachometer is unreadable.
pub open spec fn observed_rpm(v: Option<int>) -> Option<u32> {
    match v {
        Some(x) => Some(
            if x < 0 {
                0
            } else {
                x as i64 as u32
            },
        ),
        None => None,
    }
}

/// A fan with its duty and speed read by a sweep.
pub open spec fn observed(f: FanView, fs: SysfsView) -> FanView {
    match (f.chip, f.index) {
        (Some(c), Some(n)) => FanView {
            duty: temps::as_quantity(hwmon::duty_of(fs, c.dir, n, f.pwm_max)),
            rpm: observed_rpm(hwmon::tach_of(fs, c.dir, n)),
            ..f
        },
        _ => f,
    }
}

/// The outcome of planning a fan's writes.
pub open spec fn planned(r: Result<FanPlan, String>) -> Result<FanPlanView, Seq<char>> {
    match r {
        Ok(p) => Ok(p@),
        Err(e) => Err(e@),
    }
}

/// The engine once the next duty of a sweep was asked for, and what to write
/// to the sweeping fan's chip or why there is nothing to write to.
pub open spec fn write_begun(e: EngineView, duty: u8, fs: SysfsView) -> (
    EngineView,
    Result<FanPlanView, Seq<char>>,
) {
    match e.sweep {
        None => (e, Err("no sweep in progress"@)),
        Some(s) => {
            let i = engine::fan_place(e.fans, s.fan) as int;
            if i >= e.fans.len() {
                (e, Err("no fan "@ + s.fan))
            } else {
                let f = e.fans[i];
                match (sweep_chip(f, fs), f.index) {
                    (Some(c), Some(n)) => (
                        engine::with_fan(e, i, FanView { chip: Some(c), ..f }),
                        Ok(
                            FanPlanView {
                                chip: c,
                                writes: hwmon::manual_writes(n, duty * UNIT, f.pwm_max),
                            },
                        ),
                    ),
                    _ => (e, Err(engine::chipless(f))),
                }
            }
        },
    }
}

/// The engine once the sweeping fan was observed, and its speed.
pub open spec fn seen(e: EngineView, fs: SysfsView) -> (EngineView, u32) {
    match e.sweep {
        None => (e, 0),
        Some(s) => {
            let i = engine::fan_place(e.fans, s.fan) as int;
            if i >= e.fans.len() {
                (e, 0)
            } else {
                let f = observed(e.fans[i], fs);
                (
                    engine::with_fan(e, i, f),
                    if f.chip is Some && f.index is Some && f.rpm is Some {
                        f.rpm->0
                    } else {
                        0
                    },
                )
            }
        },
    }
}

/// The engine with one more step of the sweep in progress.
pub open spec fn recorded(e: EngineView, duty: u8, rpm: u32) -> EngineView {
    EngineView {
        sweep: match e.sweep {
            Some(s) => Some(SweepStateView { steps: s.steps.push(SweepStep { duty, rpm }), ..s }),
            None => None,
        },
        ..e
    }
}

impl Engine {
    /// Start a calibration sweep of the fan `id`: validate everything (the
    /// fan exists, its chip is resolvable, a tachometer is readable) and
    /// remember the fan's current mode so it can be restored.
    pub fn sweep_begin(&mut self, id: &str, fs: &Sysfs) -> (r: Result<(), String>)
        ensures
            ({
                let e = old(self)@;
                let i = engine::fan_place(e.fans, id@) as int;
                match sweep_refused(e, id@) {
                    Some(why) => final(self)@ == e && engine::said(r) == Some(why),
                    None => {
                        &&& final(self)@ == sweep_begun(e, i, fs@)
                        &&& engine::said(r) == unobservable(e.fans[i], hwmon::chips_of(fs@), fs@)
                    },
                }
            }),
    {
        let ghost e = self@;
        match &self.sweep {
            Some(s) => {
                return Err(
                    text::cat3("a calibration sweep of ", s.fan.as_str(), " is already running"),
                );
            },
            None => {},
        }
        if types::find_pwm(&self.config.pwm, id) == self.config.pwm.len() {
            return Err(text::cat3("no fan ", id, " in the config"));
        }
        let i = engine::find_fan(&self.fans, id);
        if i == self.fans.len() {
            return Err(text::cat("no fan ", id));
        }
        assert(e.fans[i as int] == self.fans@[i as int]@);
        proof {
            engine::lemma_fan_place(e.fans, id@);
        }
        let chips = hwmon::discover(fs);
        self.fans[i].locate(&chips);
        let why = match &self.fans[i].chip {
            Some(c) => match self.fans[i].index {
                Some(n) => if c.tach(fs, n).is_none() {
                    let d = number::u64_text(n as u64);
                    let head = text::cat3(
                        self.fans[i].label.as_str(),
                        ": no readable tachometer (fan",
                        d.as_str(),
                    );
                    Some(
                        text::cat(
                            head.as_str(),
                            "_input) — a sweep needs one to observe the fan",
                        ),
                    )
                } else {
                    None
                },
                None => Some(text::cat("no resolvable chip for ", self.fans[i].label.as_str())),
            },
            None => Some(text::cat("no resolvable chip for ", self.fans[i].label.as_str())),
        };
        self.fans[i].err = why.clone();
        assert(self.fans.deep_view() =~= e.fans.update(i as int, self.fans@[i as int]@));
        match why {
            Some(m) => Err(m),
            None => {
                let steps: Vec<SweepStep> = Vec::new();
                self.sweep = Some(
                    SweepState { fan: text::owned(id), prev: self.fans[i].mode, steps },
                );
                Ok(())
            },
        }
    }

    /// The next duty of the sweep: what to write to the sweeping fan's chip.
    pub fn sweep_write(&mut self, duty: u8, fs: &Sysfs) -> (r: Result<FanPlan, String>)
        ensures
            final(self)@ == write_begun(old(self)@, duty, fs@).0,
            planned(r) == write_begun(old(self)@, duty, fs@).1,
    {
        let ghost e = self@;
        let i = match &self.sweep {
            Some(s) => {
                let i = engine::find_fan(&self.fans, s.fan.as_str());
                if i == self.fans.len() {
                    return Err(text::cat("no fan ", s.fan.as_str()));
                }
                i
            },
            None => {
                return Err(text::owned("no sweep in progress"));
            },
        };
        assert(e.fans[i as int] == self.fans@[i as int]@);
        let n = match self.fans[i].index {
            Some(n) => n,
            None => {
                return Err(text::cat("no resolvable chip for ", self.fans[i].label.as_str()));
            },
        };
        let chip = match &self.fans[i].chip {
            Some(c) => c.clone(),
            None => {
                let chips = hwmon::discover(fs);
                match hwmon::resolve(&chips, self.fans[i].hwmon.as_str()) {
                    Some(c) => c.clone(),
                    None => {
                        return Err(
                            text::cat("no resolvable chip for ", self.fans[i].label.as_str()),
                        );
                    },
                }
            },
        };
        let writes = chip.set_pwm_manual(n, (duty as i64) * UNIT, self.fans[i].pwm_max);
        self.fans[i].chip = Some(chip.clone());
        assert(self.fans.deep_view() =~= e.fans.update(i as int, self.fans@[i as int]@));
        Ok(FanPlan { chip, writes })
    }

    /// The sweeping fan after the write of a duty: its displayed duty is
    /// refreshed, or the failure is reported and nothing changes.
    pub fn sweep_written(&mut self, failure: &Option<String>, fs: &Sysfs) -> (r: Result<(), String>)
        ensures
            ({
                let e = old(self)@;
                let e2 = final(self)@;
                match e.sweep {
                    None => e2 == e && engine::said(r) == Some("no sweep in progress"@),
                    Some(s) => {
                        let i = engine::fan_place(e.fans, s.fan) as int;
                        if i >= e.fans.len() {
                            e2 == e && engine::said(r) == Some("no fan "@ + s.fan)
                        } else {
                            let f = e.fans[i];
                            match failure.deep_view() {
                                Some(why) => e2 == e && engine::said(r) == Some(engine::labelled(f, why)),
                                None => {
                                    &&& e2 == engine::with_fan(
                                        e,
                                        i,
                                        FanView {
                                            err: None,
                                            duty: engine::read_back(f, fs@).duty,
                                            ..f
                                        },
                                    )
                                    &&& engine::said(r) is None
                                },
                            }
                        }
                    },
                }
            }),
    {
        let ghost e = self@;
        let i = match &self.sweep {
            Some(s) => {
                let i = engine::find_fan(&self.fans, s.fan.as_str());
                if i == self.fans.len() {
                    return Err(text::cat("no fan ", s.fan.as_str()));
                }
                i
            },
            None => {
                return Err(text::owned("no sweep in progress"));
            },
        };
        assert(e.fans[i as int] == self.fans@[i as int]@);
        match failure {
            Some(why) => Err(text::cat3(self.fans[i].label.as_str(), ": ", why.as_str())),
            None => {
                let rpm = self.fans[i].rpm;
                self.fans[i].read_back(fs);
                self.fans[i].rpm = rpm;
                self.fans[i].err = None;
                assert(self.fans.deep_view() =~= e.fans.update(i as int, self.fans@[i as int]@));
                Ok(())
            },
        }
    }

    /// Read the sweeping fan's tachometer (0 rpm when unreadable) and refresh
    /// the fan's displayed speed and duty.
    pub fn sweep_read(&mut self, fs: &Sysfs) -> (r: u32)
        ensures
            (final(self)@, r) == seen(old(self)@, fs@),
    {
        let ghost e = self@;
        let i = match &self.sweep {
            Some(s) => {
                let i = engine::find_fan(&self.fans, s.fan.as_str());
                if i == self.fans.len() {
                    return 0;
                }
                i
            },
            None => {
                return 0;
            },
        };
        assert(e.fans[i as int] == self.fans@[i as int]@);
        let seen = match &self.fans[i].chip {
            Some(c) => match self.fans[i].index {
                Some(n) => {
                    let duty = c.pwm_percent(fs, n, self.fans[i].pwm_max);
                    let rpm = match c.tach(fs, n) {
                        Some(v) => if v < 0 {
                            Some(0u32)
                        } else {
                            Some(
                                #[verifier::truncate]
                                (v as u32),
                            )
                        },
                        None => None,
                    };
                    Some((duty, rpm))
                },
                None => None,
            },
            None => None,
        };
        match seen {
            Some((duty, rpm)) => {
                self.fans[i].duty = duty;
                self.fans[i].rpm = rpm;
                assert(self.fans.deep_view() =~= e.fans.update(i as int, self.fans@[i as int]@));
                match rpm {
                    Some(v) => v,
                    None => 0,
                }
            },
            None => {
                assert(e.fans.update(i as int, e.fans[i as int]) =~= e.fans);
                0
            },
        }
    }

    /// Record one observed (duty, rpm) step of the sweep in progress.
    pub fn sweep_record(&mut self, duty: u8, rpm: u32)
        ensures
            final(self)@ == recorded(old(self)@, duty, rpm),
    {
        match self.sweep.take() {
            Some(s) => {
                let mut s = s;
                s.steps.push(SweepStep { duty, rpm });
                self.sweep = Some(s);
            },
            None => {},
        }
    }
}

// ---- the end of a sweep ---------------------------------------------------

/// A measured range that went into the config, and what it replaced there.
#[derive(Debug, Clone, Copy, PartialEq, Eq, Structural)]
pub struct RangeUndo {
    pub min: u8,
    pub max: u8,
    pub old_min: Option<i64>,
    pub old_max: Option<i64>,
}

/// A sweep that came to its end.
#[derive(Debug, PartialEq)]
pub struct SweepEnd {
    /// The fan that was swept, its mode before, and what was observed.
    pub state: SweepState,
    pub min: Option<u8>,
    pub max: Option<u8>,
    pub saturated: bool,
    /// Set when a range went into the config, which is then to be saved.
    pub range: Option<RangeUndo>,
}

/// A [`SweepEnd`] with its text as character sequences.
pub struct SweepEndView {
    pub state: SweepStateView,
    pub min: Option<u8>,
    pub max: Option<u8>,
    pub saturated: bool,
    pub range: Option<RangeUndo>,
}

impl View for SweepEnd {
    type V = SweepEndView;

    open spec fn view(&self) -> SweepEndView {
        SweepEndView {
            state: self.state@,
            min: self.min,
            max: self.max,
            saturated: self.saturated,
            range: self.range,
        }
    }
}

impl DeepView for SweepEnd {
    type V = SweepEndView;

    open spec fn deep_view(&self) -> SweepEndView {
        self.view()
    }
}

/// What a sweep shows, and whether it gives a range to keep: one that is
/// worth saving, of a fan that the config names.
pub open spec fn end_of(e: EngineView, s: SweepStateView) -> SweepEndView {
    let (min, max, saturated) = sweep::derived(s.steps);
    let at = types::place_of(e.config.pwm, s.fan) as int;
    SweepEndView {
        state: s,
        min,
        max,
        saturated,
        range: if sweep::useful(min, max) && at < e.config.pwm.len() {
            Some(
                RangeUndo {
                    min: min->0,
                    max: max->0,
                    old_min: e.config.pwm[at].duty_min,
                    old_max: e.config.pwm[at].duty_max,
                },
            )
        } else {
            None
        },
    }
}

/// The engine with the duty range of the fan `id` replaced, in the config
/// and in the running fan.
pub open spec fn with_range(
    e: EngineView,
    id: Seq<char>,
    min: Option<i64>,
    max: Option<i64>,
) -> EngineView {
    let at = types::place_of(e.config.pwm, id) as int;
    let i = engine::fan_place(e.fans, id) as int;
    EngineView {
        config: if at < e.config.pwm.len() {
            ConfigView {
                pwm: e.config.pwm.update(
                    at,
                    PwmView { duty_min: min, duty_max: max, ..e.config.pwm[at] },
                ),
                ..e.config
            }
        } else {
            e.config
        },
        fans: if i < e.fans.len() {
            e.fans.update(i, FanView { duty_min: min, duty_max: max, ..e.fans[i] })
        } else {
            e.fans
        },
        ..e
    }
}

/// The engine once a sweep is over and its range, if there is one to keep,
/// is in the config.
pub open spec fn range_kept(e: EngineView, end: SweepEndView) -> EngineView {
    let over = EngineView { sweep: None, ..e };
    match end.range {
        Some(r) => with_range(
            over,
            end.state.fan,
            Some((r.min * UNIT) as i64),
            Some((r.max * UNIT) as i64),
        ),
        None => over,
    }
}

/// The engine once the config was saved, or could not be saved: then the
/// config's old range is back, there and in the running fan, and the status
/// says so.
pub open spec fn range_saved(
    e: EngineView,
    end: SweepEndView,
    failure: Option<Seq<char>>,
) -> EngineView {
    match (end.range, failure) {
        (Some(r), Some(why)) => EngineView {
            status: end.state.fan + ": range measured, but saving the config failed: "@ + why,
            ..with_range(e, end.state.fan, r.old_min, r.old_max)
        },
        _ => e,
    }
}

/// The note a finished sweep leaves.
pub open spec fn end_note(end: SweepEndView, failure: Option<Seq<char>>) -> Seq<char> {
    match (end.range, failure) {
        (Some(r), Some(why)) => end.state.fan + ": the fan spins between "@ + number::decimal(
            r.min as nat,
        ) + " % and "@ + number::decimal(r.max as nat)
            + " % duty, but saving the range to the config failed: "@ + why,
        _ => sweep::description(
            end.state.fan,
            end.min,
            end.max,
            end.saturated,
            end.state.steps,
            end.range is Some,
        ),
    }
}

/// The report of a finished sweep.
pub open spec fn report_of(end: SweepEndView, failure: Option<Seq<char>>) -> SweepReportView {
    SweepReportView {
        fan: end.state.fan,
        min_duty: end.min,
        max_duty: end.max,
        saturated: end.saturated,
        note: end_note(end, failure),
    }
}

/// The engine once the fan `id`, if there is one, was put back into the mode
/// `prev` and decided on.
pub open spec fn mode_restored(
    e: EngineView,
    id: Seq<char>,
    prev: Mode,
    fs: SysfsView,
    nvidia: Seq<NvidiaGpuView>,
) -> EngineView {
    let i = engine::fan_place(e.fans, id) as int;
    if i < e.fans.len() {
        engine::with_fan(
            e,
            i,
            engine::started(
                FanView { mode: prev, ..e.fans[i] },
                hwmon::chips_of(fs),
                fs,
                nvidia,
            ),
        )
    } else {
        e
    }
}

/// The writes that put the fan `id` back into the mode `prev`.
pub open spec fn restore_plan(
    e: EngineView,
    id: Seq<char>,
    prev: Mode,
    fs: SysfsView,
    nvidia: Seq<NvidiaGpuView>,
) -> Option<FanPlanView> {
    let i = engine::fan_place(e.fans, id) as int;
    if i < e.fans.len() {
        engine::plan_for(
            FanView { mode: prev, ..e.fans[i] },
            hwmon::chips_of(fs),
            fs,
            nvidia,
        )
    } else {
        None
    }
}

/// Where a sweep that was called off leaves off: the fan to put back into
/// its mode, and how.
#[derive(Debug, PartialEq)]
pub struct SweepStop {
    pub fan: String,
    pub plan: Option<FanPlan>,
}

/// A [`SweepStop`] with its text as character sequences.
pub struct SweepStopView {
    pub fan: Seq<char>,
    pub plan: Option<FanPlanView>,
}

impl View for SweepStop {
    type V = SweepStopView;

    open spec fn view(&self) -> SweepStopView {
        SweepStopView { fan: self.fan@, plan: self.plan.deep_view() }
    }
}

impl DeepView for SweepStop {
    type V = SweepStopView;

    open spec fn deep_view(&self) -> SweepStopView {
        self.view()
    }
}

impl Engine {
    fn put_range(&mut self, id: &str, min: Option<i64>, max: Option<i64>)
        ensures
            final(self)@ == with_range(old(self)@, id@, min, max),
    {
        let ghost e = self@;
        let ghost after = with_range(e, id@, min, max);
        let at = types::find_pwm(&self.config.pwm, id);
        let i = engine::find_fan(&self.fans, id);
        if at < self.config.pwm.len() {
            assert(e.config.pwm[at as int] == self.config.pwm@[at as int]@);
            self.config.pwm[at].duty_min = min;
            self.config.pwm[at].duty_max = max;
        }
        assert(self.config.pwm.deep_view() =~= after.config.pwm);
        if i < self.fans.len() {
            assert(e.fans[i as int] == self.fans@[i as int]@);
            self.fans[i].duty_min = min;
            self.fans[i].duty_max = max;
        }
        assert(self.fans.deep_view() =~= after.fans);
    }

    /// Put the fan `id` back into the mode `prev` right away.
    fn restore(&mut self, id: &str, prev: Mode, fs: &Sysfs, nvidia: &Vec<NvidiaGpu>) -> (r: Option<
        FanPlan,
    >)
        ensures
            final(self)@ == mode_restored(old(self)@, id@, prev, fs@, nvidia.deep_view()),
            r.deep_view() == restore_plan(old(self)@, id@, prev, fs@, nvidia.deep_view()),
    {
        let ghost e = self@;
        let i = engine::find_fan(&self.fans, id);
        if i == self.fans.len() {
            return None;
        }
        assert(e.fans[i as int] == self.fans@[i as int]@);
        let chips = hwmon::discover(fs);
        self.fans[i].mode = prev;
        assert(self.fans@[i as int]@ == (FanView { mode: prev, ..e.fans[i as int] }));
        let plan = self.fans[i].apply_fan(&chips, fs, nvidia);
        assert(self.fans.deep_view() =~= e.fans.update(i as int, self.fans@[i as int]@));
        plan
    }

    /// Finish the sweep in progress: derive the fan's effective duty range
    /// and, when it is useful, take it into the config and the running fan.
    /// The caller then saves the config (where `range` is set) and reports
    /// through [`Engine::sweep_saved`].
    pub fn sweep_finish(&mut self) -> (r: Option<SweepEnd>)
        ensures
            match old(self)@.sweep {
                Some(s) => {
                    let end = end_of(old(self)@, s);
                    &&& r.deep_view() == Some(end)
                    &&& final(self)@ == range_kept(old(self)@, end)
                },
                None => r is None && final(self)@ == old(self)@,
            },
    {
        let ghost e = self@;
        let state = match self.sweep.take() {
            Some(s) => s,
            None => {
                return None;
            },
        };
        let (min, max, saturated) = sweep::derive(state.steps.as_slice());
        let mut range: Option<RangeUndo> = None;
        if sweep::worth_saving(min, max) {
            let at = types::find_pwm(&self.config.pwm, state.fan.as_str());
            if at < self.config.pwm.len() {
                assert(e.config.pwm[at as int] == self.config.pwm@[at as int]@);
                match (min, max) {
                    (Some(lo), Some(hi)) => {
                        range = Some(
                            RangeUndo {
                                min: lo,
                                max: hi,
                                old_min: self.config.pwm[at].duty_min,
                                old_max: self.config.pwm[at].duty_max,
                            },
                        );
                        self.put_range(
                            state.fan.as_str(),
                            Some((lo as i64) * UNIT),
                            Some((hi as i64) * UNIT),
                        );
                    },
                    _ => {},
                }
            }
        }
        Some(SweepEnd { state, min, max, saturated, range })
    }

    /// The outcome of saving the config at the end of a sweep: where saving
    /// failed, the old range is put back. The fan goes back into the mode it
    /// had before the sweep, and the sweep's report is kept for the state
    /// snapshots. The caller carries the writes out and calls
    /// [`Engine::sweep_restored`].
    pub fn sweep_saved(
        &mut self,
        end: &SweepEnd,
        failure: &Option<String>,
        fs: &Sysfs,
        nvidia: &Vec<NvidiaGpu>,
    ) -> (r: Option<FanPlan>)
        ensures
            ({
                let e = range_saved(old(self)@, end@, failure.deep_view());
                let s = end@.state;
                &&& final(self)@ == (EngineView {
                    last_sweep: Some(report_of(end@, failure.deep_view())),
                    ..mode_restored(e, s.fan, s.prev, fs@, nvidia.deep_view())
                })
                &&& r.deep_view() == restore_plan(e, s.fan, s.prev, fs@, nvidia.deep_view())
            }),
    {
        let fan = end.state.fan.as_str();
        let mut note = sweep::describe(
            fan,
            end.min,
            end.max,
            end.saturated,
            end.state.steps.as_slice(),
            end.range.is_some(),
        );
        match &end.range {
            Some(r) => match failure {
                Some(why) => {
                    self.put_range(fan, r.old_min, r.old_max);
                    self.status = text::cat3(
                        fan,
                        ": range measured, but saving the config failed: ",
                        why.as_str(),
                    );
                    let lo = number::u64_text(r.min as u64);
                    let hi = number::u64_text(r.max as u64);
                    let a = text::cat3(fan, ": the fan spins between ", lo.as_str());
                    let b = text::cat3(a.as_str(), " % and ", hi.as_str());
                    note = text::cat3(
                        b.as_str(),
                        " % duty, but saving the range to the config failed: ",
                        why.as_str(),
                    );
                },
                None => {},
            },
            None => {},
        }
        let plan = self.restore(fan, end.state.prev, fs, nvidia);
        self.last_sweep = Some(
            SweepReport {
                fan: text::owned(fan),
                min_duty: end.min,
                max_duty: end.max,
                saturated: end.saturated,
                note,
            },
        );
        plan
    }

    /// The fan `id` after the writes that restored its mode, with the error
    /// it is left with: none after a finished sweep, the reason after one
    /// that was called off.
    pub fn sweep_restored(&mut self, id: &str, err: Option<String>, fs: &Sysfs)
        ensures
            ({
                let e = old(self)@;
                let i = engine::fan_place(e.fans, id@) as int;
                final(self)@ == if i < e.fans.len() {
                    engine::with_fan(
                        e,
                        i,
                        FanView {
                            err: err.deep_view(),
                            ..engine::read_back(e.fans[i], fs@)
                        },
                    )
                } else {
                    e
                }
            }),
    {
        let ghost e = self@;
        let i = engine::find_fan(&self.fans, id);
        if i == self.fans.len() {
            return;
        }
        assert(e.fans[i as int] == self.fans@[i as int]@);
        self.fans[i].read_back(fs);
        self.fans[i].err = err;
        assert(self.fans.deep_view() =~= e.fans.update(i as int, self.fans@[i as int]@));
    }

    /// Abort the sweep in progress with an error (a failed write, a config
    /// reload that dropped the fan, ...): restore the fan's mode and record
    /// the reason in the status line.
    pub fn sweep_abort(&mut self, why: &str, fs: &Sysfs, nvidia: &Vec<NvidiaGpu>) -> (r: Option<
        SweepStop,
    >)
        ensures
            match old(self)@.sweep {
                Some(s) => {
                    let e = EngineView { sweep: None, ..old(self)@ };
                    &&& final(self)@ == (EngineView {
                        status: "sweep of "@ + s.fan + ": "@ + why@,
                        ..mode_restored(e, s.fan, s.prev, fs@, nvidia.deep_view())
                    })
                    &&& r.deep_view() == Some(
                        SweepStopView {
                            fan: s.fan,
                            plan: restore_plan(e, s.fan, s.prev, fs@, nvidia.deep_view()),
                        },
                    )
                },
                None => r is None && final(self)@ == old(self)@,
            },
    {
        let state = match self.sweep.take() {
            Some(s) => s,
            None => {
                return None;
            },
        };
        let plan = self.restore(state.fan.as_str(), state.prev, fs, nvidia);
        let head = text::cat3("sweep of ", state.fan.as_str(), ": ");
        self.status = text::cat(head.as_str(), why);
        Some(SweepStop { fan: state.fan, plan })
    }
}

} // verus!
