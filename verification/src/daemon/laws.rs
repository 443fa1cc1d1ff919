//! What holds of the daemon across its operations.

use vstd::prelude::*;
use crate::config::types;
use crate::config::types::{Aggregation, ConfigView, ControlKind, InitialMode, PwmView};
use crate::curve;
use crate::curve::CurvePoint;
use crate::daemon::calibration;
use crate::daemon::engine;
use crate::daemon::engine::{EngineView, FanView};
use crate::daemon::readings;
use crate::hwmon;
use crate::hwmon::{HwmonView, SysfsView};
use crate::ipc::Mode;
use crate::json;
use crate::number;
use crate::order;
use crate::quantity::{FULL, UNIT};
use crate::sweep;
use crate::temps;
use crate::temps::NvidiaGpuView;

verus! {

// ---- curves ---------------------------------------------------------------

/// The points from `i` on are in range, and each is hotter than the one
/// before it.
pub open spec fn good_from(points: Seq<CurvePoint>, i: int) -> bool {
    forall|j: int|
        i <= j < points.len() ==> {
            &&& 0 <= (#[trigger] points[j]).temp <= 150 * UNIT
            &&& 0 <= points[j].duty <= FULL
            &&& j > 0 ==> points[j - 1].temp < points[j].temp
        }
}

proof fn lemma_bad_point(points: Seq<CurvePoint>, i: nat)
    ensures
        engine::bad_point(points, i) is None <==> good_from(points, i as int),
    decreases points.len() - i,
{
    if i < points.len() {
        lemma_bad_point(points, i + 1);
        let p = points[i as int];
        if good_from(points, i as int) {
            assert(good_from(points, i as int + 1));
        }
        if good_from(points, i as int + 1) && 0 <= p.temp <= 150 * UNIT && 0 <= p.duty <= FULL && (i > 0
            ==> points[i - 1].temp < p.temp) {
            assert(good_from(points, i as int));
        }
    }
}

proof fn lemma_rising(points: Seq<CurvePoint>, i: int, j: int)
    requires
        good_from(points, 0),
        0 <= i < j < points.len(),
    ensures
        points[i].temp < points[j].temp,
    decreases j - i,
{
    assert(points[j - 1].temp < points[j].temp);
    if i < j - 1 {
        lemma_rising(points, i, j - 1);
    }
}

/// A curve is taken exactly when it is not empty, its points lie within
/// 0..=150 degrees and 0..=100 percent, and its temperatures strictly
/// increase.
pub proof fn law_curve_is_checked(points: Seq<CurvePoint>)
    ensures
        engine::bad_curve(points) is None <==> engine::good_curve(points),
{
    lemma_bad_point(points, 0);
    if points.len() > 0 {
        if engine::bad_curve(points) is None {
            assert forall|i: int, j: int| 0 <= i < j < points.len() implies points[i].temp
                < points[j].temp by {
                lemma_rising(points, i, j);
            }
        }
        if engine::good_curve(points) {
            assert(good_from(points, 0));
        }
    }
}

/// A curve the daemon takes is in the order it runs by already.
pub proof fn law_checked_curve_runs_as_given(points: Seq<CurvePoint>)
    requires
        engine::good_curve(points),
    ensures
        order::sorted_by(points, curve::by_temp()) == points,
{
    assert(curve::sorted(points));
    curve::law_sorted_points_stay(points);
}

// ---- saving a config ------------------------------------------------------

/// Where the config file could not be written, the engine is as it was
/// before the request: the config, every fan, and all else.
pub proof fn law_failed_save_changes_nothing(
    e: EngineView,
    id: Seq<char>,
    points: Seq<CurvePoint>,
    default: InitialMode,
)
    requires
        engine::config_refused(e, id, points) is None,
    ensures
        ({
            let saved = engine::with_config(
                e,
                id,
                points,
                default,
                Some(order::sorted_by(points, curve::by_temp())),
            );
            let undo = engine::undo_for(e, id);
            engine::with_config(saved, undo.id, undo.curve, undo.default, undo.runtime) == e
        }),
{
    let runtime = Some(order::sorted_by(points, curve::by_temp()));
    let saved = engine::with_config(e, id, points, default, runtime);
    let undo = engine::undo_for(e, id);
    let back = engine::with_config(saved, undo.id, undo.curve, undo.default, undo.runtime);
    lemma_place_kept(e.config.pwm, saved.config.pwm, id);
    lemma_fans_kept(e.fans, saved.fans, id);
    assert(back.config.pwm =~= e.config.pwm);
    assert(back.fans =~= e.fans);
}

/// A saved curve and initial mode are in the next snapshot.
pub proof fn law_saved_config_is_shown(
    e: EngineView,
    id: Seq<char>,
    points: Seq<CurvePoint>,
    default: InitialMode,
    i: int,
)
    requires
        engine::config_refused(e, id, points) is None,
        0 <= i < e.fans.len(),
        e.fans[i].id == id,
    ensures
        ({
            let saved = engine::with_config(
                e,
                id,
                points,
                default,
                Some(order::sorted_by(points, curve::by_temp())),
            );
            let shown = engine::state_of(saved).fans[i];
            shown.id == id && shown.curve == points && shown.default_mode == default
        }),
{
    let saved = engine::with_config(
        e,
        id,
        points,
        default,
        Some(order::sorted_by(points, curve::by_temp())),
    );
    lemma_place_kept(e.config.pwm, saved.config.pwm, id);
    engine::lemma_fan_place(e.fans, id);
    assert(saved.fans[i].id == id);
}

proof fn lemma_place_kept(before: Seq<PwmView>, after: Seq<PwmView>, id: Seq<char>)
    requires
        before.len() == after.len(),
        forall|i: int| 0 <= i < before.len() ==> (#[trigger] after[i]).id == before[i].id,
    ensures
        types::place_of(after, id) == types::place_of(before, id),
{
    types::lemma_place_of(before, id);
    types::lemma_place_of(after, id);
    let a = types::place_of(before, id) as int;
    let b = types::place_of(after, id) as int;
    if a < b {
        assert(after[a].id != id);
    } else if b < a {
        assert(after[b].id == before[b].id);
        assert(before[b].id != id);
    }
}

proof fn lemma_fans_kept(before: Seq<FanView>, after: Seq<FanView>, id: Seq<char>)
    requires
        before.len() == after.len(),
        forall|i: int| 0 <= i < before.len() ==> (#[trigger] after[i]).id == before[i].id,
    ensures
        engine::fan_place(after, id) == engine::fan_place(before, id),
{
    engine::lemma_fan_place(before, id);
    engine::lemma_fan_place(after, id);
    let a = engine::fan_place(before, id) as int;
    let b = engine::fan_place(after, id) as int;
    if a < b {
        assert(after[a].id != id);
    } else if b < a {
        assert(after[b].id == before[b].id);
        assert(before[b].id != id);
    }
}

// ---- fans and config ------------------------------------------------------

/// The running fans are those of the config, in its order.
pub open spec fn fans_match(e: EngineView) -> bool {
    &&& e.fans.len() == e.config.pwm.len()
    &&& forall|i: int| 0 <= i < e.fans.len() ==> (#[trigger] e.fans[i]).id == e.config.pwm[i].id
}

/// Every engine has the fans of its config, in its order, and no operation
/// adds, drops, renames or moves one: not a tick, a change of mode, a saved
/// config, a measured range, or the restoring of a mode.
pub proof fn law_fans_follow_config(
    e: EngineView,
    config: ConfigView,
    path: Seq<char>,
    fs: SysfsView,
    lm: Option<Seq<char>>,
    nvidia: Seq<NvidiaGpuView>,
    outcomes: Seq<Option<Seq<char>>>,
    id: Seq<char>,
    mode: Mode,
    points: Seq<CurvePoint>,
    default: InitialMode,
    runtime: Option<Seq<CurvePoint>>,
    min: Option<i64>,
    max: Option<i64>,
    i: int,
)
    requires
        fans_match(e),
        0 <= i < e.fans.len(),
    ensures
        fans_match(engine::engine_of(config, path, fs, lm, nvidia)),
        fans_match(engine::reloaded(e, config, fs, lm, nvidia)),
        fans_match(engine::ticked(e, fs, nvidia, lm)),
        fans_match(engine::tick_ended(e, outcomes, fs)),
        fans_match(
            engine::with_fan(
                e,
                i,
                engine::started(
                    engine::in_mode(e.fans[i], mode),
                    hwmon::chips_of(fs),
                    fs,
                    nvidia,
                ),
            ),
        ),
        fans_match(engine::with_config(e, id, points, default, runtime)),
        fans_match(calibration::with_range(e, id, min, max)),
        fans_match(calibration::sweep_begun(e, i, fs)),
        fans_match(calibration::mode_restored(e, id, mode, fs, nvidia)),
{
    let a = engine::engine_of(config, path, fs, lm, nvidia);
    assert forall|k: int| 0 <= k < a.fans.len() implies (#[trigger] a.fans[k]).id
        == a.config.pwm[k].id by {
        assert(a.fans[k] == engine::fan_of(config.pwm[k]));
    }
    let t = engine::ticked(e, fs, nvidia, lm);
    assert forall|k: int| 0 <= k < t.fans.len() implies (#[trigger] t.fans[k]).id
        == t.config.pwm[k].id by {
        assert(t.fans[k] == engine::ticked_fan(e, e.fans[k], fs, nvidia));
    }
}

// ---- ticks ----------------------------------------------------------------

/// While a sweep owns a fan, a tick plans no writes for it, changes nothing
/// of it but the chip looked up, and then its duty and speed as read back.
pub proof fn law_tick_leaves_the_swept_fan(
    e: EngineView,
    fs: SysfsView,
    nvidia: Seq<NvidiaGpuView>,
    lm: Option<Seq<char>>,
    outcomes: Seq<Option<Seq<char>>>,
    after: SysfsView,
    i: int,
)
    requires
        0 <= i < e.fans.len(),
        engine::swept(e, e.fans[i].id),
    ensures
        engine::tick_plan(e, e.fans[i], fs, nvidia) is None,
        ({
            let f = e.fans[i];
            let g = engine::tick_ended(engine::ticked(e, fs, nvidia, lm), outcomes, after).fans[i];
            g == (FanView { chip: g.chip, duty: g.duty, rpm: g.rpm, ..f })
        }),
{
    let t = engine::ticked(e, fs, nvidia, lm);
    assert(t.fans[i] == engine::ticked_fan(e, e.fans[i], fs, nvidia));
}

/// The status after a tick is empty exactly when all is well: every fan but
/// one that a sweep owns could be put into its mode, and none of its writes
/// failed. Such a fan is left without an error, whatever it had before.
pub proof fn law_status_is_empty_when_all_is_well(
    e: EngineView,
    fs: SysfsView,
    nvidia: Seq<NvidiaGpuView>,
    lm: Option<Seq<char>>,
    outcomes: Seq<Option<Seq<char>>>,
    after: SysfsView,
)
    ensures
        ({
            let e2 = engine::tick_ended(engine::ticked(e, fs, nvidia, lm), outcomes, after);
            &&& e2.status == ""@ <==> forall|i: int|
                0 <= i < e.fans.len() && !engine::swept(e, e.fans[i].id) ==> #[trigger] went_well(
                    e,
                    i,
                    fs,
                    nvidia,
                    outcomes,
                )
            &&& forall|i: int|
                0 <= i < e.fans.len() && !engine::swept(e, e.fans[i].id) ==> (
                (#[trigger] e2.fans[i]).err is None <==> went_well(e, i, fs, nvidia, outcomes))
        }),
{
    reveal_strlit("");
    reveal_strlit(": ");
    reveal_strlit("no resolvable chip for ");
    reveal_strlit(": no reading from its sensors");
    let t = engine::ticked(e, fs, nvidia, lm);
    let e2 = engine::tick_ended(t, outcomes, after);
    assert forall|i: int| 0 <= i < e.fans.len() && !engine::swept(e, e.fans[i].id) implies ({
        let f = #[trigger] engine::tick_settled(t, i, outcomes);
        &&& f.err is None <==> went_well(e, i, fs, nvidia, outcomes)
        &&& f.err is Some ==> f.err->0.len() > 0
        &&& f.id == e.fans[i].id
    }) by {
        assert(t.fans[i] == engine::ticked_fan(e, e.fans[i], fs, nvidia));
    }
    assert forall|i: int| 0 <= i < e.fans.len() implies (#[trigger] engine::tick_settled(
        t,
        i,
        outcomes,
    )).id == e.fans[i].id by {
        assert(t.fans[i] == engine::ticked_fan(e, e.fans[i], fs, nvidia));
    }
    lemma_last_error(t, outcomes, e.fans.len());
    assert(e2.status == ""@ <==> e2.status.len() == 0) by {
        assert(e2.status.len() == 0 ==> e2.status =~= ""@);
    }
    assert forall|i: int| 0 <= i < e.fans.len() && !engine::swept(e, e.fans[i].id) implies (
    (#[trigger] e2.fans[i]).err is None <==> went_well(e, i, fs, nvidia, outcomes)) by {
        assert(e2.fans[i] == engine::read_back(engine::tick_settled(t, i, outcomes), after));
    }
    if e2.status.len() == 0 {
        assert forall|i: int|
            0 <= i < e.fans.len() && !engine::swept(e, e.fans[i].id) implies #[trigger] went_well(
            e,
            i,
            fs,
            nvidia,
            outcomes,
        ) by {
            assert(engine::tick_settled(t, i, outcomes).err is None);
        }
    }
}

/// In a tick, the fan at `i` could be put into its mode (its chip is there,
/// and so are the readings its curve needs), and its writes succeeded.
pub open spec fn went_well(
    e: EngineView,
    i: int,
    fs: SysfsView,
    nvidia: Seq<NvidiaGpuView>,
    outcomes: Seq<Option<Seq<char>>>,
) -> bool {
    engine::tick_plan(e, e.fans[i], fs, nvidia) is Some && engine::outcome(outcomes, i) is None
}

proof fn lemma_last_error(e: EngineView, outcomes: Seq<Option<Seq<char>>>, n: nat)
    requires
        forall|i: int|
            0 <= i < n && !engine::swept(e, (#[trigger] engine::tick_settled(e, i, outcomes)).id)
                && engine::tick_settled(e, i, outcomes).err is Some ==> engine::tick_settled(
                e,
                i,
                outcomes,
            ).err->0.len() > 0,
    ensures
        engine::last_error(e, outcomes, n).len() == 0 <==> forall|i: int|
            0 <= i < n && !engine::swept(e, (#[trigger] engine::tick_settled(e, i, outcomes)).id)
                ==> engine::tick_settled(e, i, outcomes).err is None,
    decreases n,
{
    reveal_strlit("");
    if n > 0 {
        lemma_last_error(e, outcomes, (n - 1) as nat);
    }
}

/// A tick keeps every fan's mode, curve and range, the config, and the sweep
/// in flight.
pub proof fn law_tick_keeps_settings(
    e: EngineView,
    fs: SysfsView,
    nvidia: Seq<NvidiaGpuView>,
    lm: Option<Seq<char>>,
    outcomes: Seq<Option<Seq<char>>>,
    after: SysfsView,
    i: int,
)
    requires
        0 <= i < e.fans.len(),
    ensures
        ({
            let f = e.fans[i];
            let e2 = engine::tick_ended(engine::ticked(e, fs, nvidia, lm), outcomes, after);
            let g = e2.fans[i];
            &&& g == (FanView { chip: g.chip, duty: g.duty, rpm: g.rpm, err: g.err, ..f })
            &&& e2.fans.len() == e.fans.len()
            &&& e2.config == e.config
            &&& e2.sweep == e.sweep
            &&& e2.last_sweep == e.last_sweep
        }),
{
    let t = engine::ticked(e, fs, nvidia, lm);
    assert(t.fans[i] == engine::ticked_fan(e, e.fans[i], fs, nvidia));
}

/// A fan that follows its curve stays inside its measured range, and between
/// 0 % and 100 %; a duty that was asked for, off (0 %) and full (100 %) are
/// driven as asked, whatever the range.
pub proof fn law_only_the_curve_is_limited(
    f: FanView,
    n: u32,
    chips: Seq<HwmonView>,
    fs: SysfsView,
    nvidia: Seq<NvidiaGpuView>,
)
    requires
        f.duty_min matches Some(m) ==> 0 <= m <= FULL,
        f.duty_max matches Some(x) ==> 0 <= x <= FULL,
        f.duty_min is Some && f.duty_max is Some ==> f.duty_min->0 <= f.duty_max->0,
    ensures
        f.mode is Auto && f.control == ControlKind::Curve ==> match engine::drive(
            f,
            n,
            chips,
            fs,
            nvidia,
        ) {
            Some((Some(d), w)) => {
                &&& 0 <= d <= FULL
                &&& f.duty_min matches Some(m) ==> m <= d
                &&& f.duty_max matches Some(x) ==> d <= x
                &&& w == hwmon::manual_writes(n, d, f.pwm_max)
            },
            Some((None, _)) => false,
            None => readings::sensor_readings(f.sensors, chips, fs, nvidia).len() == 0,
        },
        f.mode matches Mode::Manual { percent } ==> engine::drive(f, n, chips, fs, nvidia) == Some(
            (Some(percent * UNIT), hwmon::manual_writes(n, percent * UNIT, f.pwm_max)),
        ),
        f.mode is Off ==> engine::drive(f, n, chips, fs, nvidia) == Some(
            (None::<int>, hwmon::manual_writes(n, 0, f.pwm_max)),
        ),
        f.mode is Full ==> engine::drive(f, n, chips, fs, nvidia) == Some(
            (None::<int>, hwmon::manual_writes(n, FULL as int, f.pwm_max)),
        ),
{
    let vals = readings::sensor_readings(f.sensors, chips, fs, nvidia);
    match readings::aggregated(vals, f.aggregation) {
        Some(t) => {
            curve::law_duty_in_range(f.curve, t);
        },
        None => {},
    }
}

/// A fan as the config describes it has a curve in order of temperature and
/// a range within 0..=100 %, the right way round.
pub proof fn law_configured_fan_is_valid(p: PwmView)
    ensures
        ({
            let f = engine::fan_of(p);
            &&& curve::sorted(f.curve)
            &&& f.duty_min matches Some(m) ==> 0 <= m <= FULL
            &&& f.duty_max matches Some(x) ==> 0 <= x <= FULL
            &&& f.duty_min is Some && f.duty_max is Some ==> f.duty_min->0 <= f.duty_max->0
        }),
{
    curve::law_new_curve_is_sorted(p.curve);
    sweep::law_normalized_range(p.duty_min, p.duty_max);
}

/// A hotter machine is never cooled less: with a rising curve, the duty that
/// a fan is driven at does not fall when its driving temperature rises.
pub proof fn law_hotter_is_never_slower(f: FanView, cool: int, hot: int)
    requires
        curve::sorted(f.curve),
        curve::rising(f.curve),
        cool <= hot,
    ensures
        engine::limited(curve::duty_at(f.curve, cool), f.duty_min, f.duty_max) <= engine::limited(
            curve::duty_at(f.curve, hot),
            f.duty_min,
            f.duty_max,
        ),
{
    curve::law_rising_curve_is_monotonic(f.curve, cool, hot);
}

/// Any hot sensor is enough: where the hottest reading decides and the curve
/// rises, a fan is driven at no less than each of its readings alone would
/// ask for.
pub proof fn law_any_hot_sensor_is_enough(f: FanView, vals: Seq<int>, i: int)
    requires
        curve::sorted(f.curve),
        curve::rising(f.curve),
        f.aggregation == Aggregation::Max,
        0 <= i < vals.len(),
    ensures
        readings::aggregated(vals, f.aggregation) matches Some(t) && engine::limited(
            curve::duty_at(f.curve, vals[i]),
            f.duty_min,
            f.duty_max,
        ) <= engine::limited(curve::duty_at(f.curve, t), f.duty_min, f.duty_max),
{
    readings::law_aggregate_between(vals, f.aggregation);
    law_hotter_is_never_slower(f, vals[i], readings::largest(vals));
}

// ---- modes ----------------------------------------------------------------

/// A mode that was accepted is in the next snapshot, whether or not its
/// writes succeed; the other fans' modes are as before.
pub proof fn law_set_mode_is_shown(
    e: EngineView,
    id: Seq<char>,
    mode: Mode,
    fs: SysfsView,
    nvidia: Seq<NvidiaGpuView>,
    failure: Option<Seq<char>>,
    after: SysfsView,
    k: int,
)
    requires
        engine::mode_refused(e, id) is None,
        0 <= k < e.fans.len(),
    ensures
        ({
            let i = engine::fan_place(e.fans, id) as int;
            let f = engine::started(
                engine::in_mode(e.fans[i], mode),
                hwmon::chips_of(fs),
                fs,
                nvidia,
            );
            let e2 = engine::with_fan(e, i, f);
            let e3 = engine::with_fan(
                e2,
                i,
                engine::read_back(engine::settled(f, failure), after),
            );
            &&& engine::fan_place(e2.fans, id) == i
            &&& engine::state_of(e2).fans[k].mode == if k == i {
                mode
            } else {
                e.fans[k].mode
            }
            &&& engine::state_of(e3).fans[k].mode == engine::state_of(e2).fans[k].mode
        }),
{
    let i = engine::fan_place(e.fans, id) as int;
    let f = engine::started(engine::in_mode(e.fans[i], mode), hwmon::chips_of(fs), fs, nvidia);
    let e2 = engine::with_fan(e, i, f);
    lemma_fans_kept(e.fans, e2.fans, id);
}

/// While a sweep owns a fan, a change of its mode is refused.
pub proof fn law_no_mode_change_during_a_sweep(e: EngineView, id: Seq<char>)
    requires
        engine::swept(e, id),
    ensures
        engine::mode_refused(e, id) is Some,
{
}

// ---- sweeps ---------------------------------------------------------------

/// There is never a second sweep: while one runs, another is refused.
pub proof fn law_one_sweep_at_a_time(e: EngineView, id: Seq<char>)
    requires
        e.sweep is Some,
    ensures
        calibration::sweep_refused(e, id) is Some,
{
}

/// Observing and recording leave the mode to restore and every earlier step
/// of a sweep as they are.
pub proof fn law_sweep_keeps_its_past(
    e: EngineView,
    fs: SysfsView,
    duty: u8,
    rpm: u32,
)
    requires
        e.sweep is Some,
    ensures
        calibration::write_begun(e, duty, fs).0.sweep == e.sweep,
        calibration::seen(e, fs).0.sweep == e.sweep,
        ({
            let s = calibration::recorded(e, duty, rpm).sweep;
            &&& s is Some
            &&& s->0.fan == e.sweep->0.fan
            &&& s->0.prev == e.sweep->0.prev
            &&& s->0.steps.drop_last() == e.sweep->0.steps
        }),
{
    let s = calibration::recorded(e, duty, rpm).sweep->0;
    assert(s.steps.drop_last() =~= e.sweep->0.steps);
}

/// However a sweep ends, the fan is back in the mode it had when the sweep
/// began, no sweep is left, and the other fans' modes are as they were.
pub proof fn law_sweep_restores_the_mode(
    e: EngineView,
    fs: SysfsView,
    nvidia: Seq<NvidiaGpuView>,
    failure: Option<Seq<char>>,
    k: int,
)
    requires
        e.sweep is Some,
        0 <= k < e.fans.len(),
    ensures
        ({
            let s = e.sweep->0;
            let end = calibration::end_of(e, s);
            let finished = calibration::mode_restored(
                calibration::range_saved(calibration::range_kept(e, end), end, failure),
                s.fan,
                s.prev,
                fs,
                nvidia,
            );
            let aborted = calibration::mode_restored(
                EngineView { sweep: None, ..e },
                s.fan,
                s.prev,
                fs,
                nvidia,
            );
            let i = engine::fan_place(e.fans, s.fan) as int;
            &&& finished.sweep is None && aborted.sweep is None
            &&& finished.fans[k].mode == if k == i {
                s.prev
            } else {
                e.fans[k].mode
            }
            &&& aborted.fans[k].mode == finished.fans[k].mode
        }),
{
    let s = e.sweep->0;
    let end = calibration::end_of(e, s);
    let kept = calibration::range_kept(e, end);
    let saved = calibration::range_saved(kept, end, failure);
    lemma_fans_kept(e.fans, kept.fans, s.fan);
    lemma_fans_kept(e.fans, saved.fans, s.fan);
}

/// A range that could not be saved is not kept: the config is as it was before
/// the sweep ended, and so is every running fan, but that the fan under sweep
/// runs by the range of the config as it stands there.
pub proof fn law_unsaved_range_is_dropped(e: EngineView, why: Seq<char>)
    requires
        e.sweep is Some,
    ensures
        ({
            let end = calibration::end_of(e, e.sweep->0);
            let back = calibration::range_saved(calibration::range_kept(e, end), end, Some(why));
            let i = engine::fan_place(e.fans, end.state.fan) as int;
            &&& back == (EngineView { sweep: None, status: back.status, fans: back.fans, ..e })
            &&& back.fans == if end.range is Some && i < e.fans.len() {
                let r = end.range->0;
                e.fans.update(
                    i,
                    FanView { duty_min: r.old_min, duty_max: r.old_max, ..e.fans[i] },
                )
            } else {
                e.fans
            }
        }),
{
    let end = calibration::end_of(e, e.sweep->0);
    let kept = calibration::range_kept(e, end);
    let back = calibration::range_saved(kept, end, Some(why));
    lemma_place_kept(e.config.pwm, kept.config.pwm, end.state.fan);
    lemma_fans_kept(e.fans, kept.fans, end.state.fan);
    assert(back.config.pwm =~= e.config.pwm);
    let i = engine::fan_place(e.fans, end.state.fan) as int;
    if end.range is Some && i < e.fans.len() {
        let r = end.range->0;
        let f = FanView { duty_min: r.old_min, duty_max: r.old_max, ..e.fans[i] };
        assert(back.fans =~= e.fans.update(i, f));
    }
}

/// A range that was saved is a proper part of 0..=100 %, and is what the
/// curve of the fan is held to from then on.
pub proof fn law_saved_range_limits_the_fan(e: EngineView)
    requires
        e.sweep is Some,
        calibration::end_of(e, e.sweep->0).range is Some,
        engine::fan_place(e.fans, e.sweep->0.fan) < e.fans.len(),
    ensures
        ({
            let end = calibration::end_of(e, e.sweep->0);
            let r = end.range->0;
            let kept = calibration::range_kept(e, end);
            let f = kept.fans[engine::fan_place(e.fans, e.sweep->0.fan) as int];
            &&& r.min < r.max
            &&& !(r.min == 0 && r.max == 100)
            &&& end.min == Some(r.min) && end.max == Some(r.max)
            &&& f.duty_min == Some((r.min * UNIT) as i64)
            &&& f.duty_max == Some((r.max * UNIT) as i64)
        }),
{
}

/// A reload carries a sweep in flight and the last report over.
pub proof fn law_reload_keeps_the_sweep(
    e: EngineView,
    config: ConfigView,
    fs: SysfsView,
    lm: Option<Seq<char>>,
    nvidia: Seq<NvidiaGpuView>,
)
    ensures
        ({
            let n = engine::ticked(
                engine::reloaded(e, config, fs, lm, nvidia),
                fs,
                nvidia,
                lm,
            );
            n.sweep == e.sweep && n.last_sweep == e.last_sweep && n.config == config
        }),
{
}

// ---- what a calibration is for --------------------------------------------

/// Every proper part of 0..=100 % that a sweep finds is kept: where the trace
/// shows the range from `m` to `x` percent, `m` is below `x`, and the range is
/// not the whole span, both ends go into the config and the running fan, and
/// nothing else of them changes. A range that is no such part changes neither.
pub proof fn law_proper_range_is_kept(e: EngineView, m: u8, x: u8, at: int, i: int)
    requires
        e.sweep is Some,
        sweep::derived(e.sweep->0.steps).0 == Some(m),
        sweep::derived(e.sweep->0.steps).1 == Some(x),
        0 <= at < e.config.pwm.len(),
        e.config.pwm[at].id == e.sweep->0.fan,
        forall|j: int| 0 <= j < at ==> (#[trigger] e.config.pwm[j]).id != e.sweep->0.fan,
        0 <= i < e.fans.len(),
        e.fans[i].id == e.sweep->0.fan,
        forall|j: int| 0 <= j < i ==> (#[trigger] e.fans[j]).id != e.sweep->0.fan,
    ensures
        ({
            let end = calibration::end_of(e, e.sweep->0);
            let kept = calibration::range_kept(e, end);
            let lo = Some((m * 1_000_000_000) as i64);
            let hi = Some((x * 1_000_000_000) as i64);
            &&& end.min == Some(m) && end.max == Some(x)
            &&& kept.sweep is None
            &&& m < x && !(m == 0 && x == 100) ==> {
                &&& end.range is Some
                &&& kept.config.pwm == e.config.pwm.update(
                    at,
                    PwmView { duty_min: lo, duty_max: hi, ..e.config.pwm[at] },
                )
                &&& kept.fans == e.fans.update(
                    i,
                    FanView { duty_min: lo, duty_max: hi, ..e.fans[i] },
                )
            }
            &&& m >= x || (m == 0 && x == 100) ==> {
                &&& end.range is None
                &&& kept.config == e.config
                &&& kept.fans == e.fans
            }
        }),
{
    types::lemma_place_of(e.config.pwm, e.sweep->0.fan);
    engine::lemma_fan_place(e.fans, e.sweep->0.fan);
    let a = types::place_of(e.config.pwm, e.sweep->0.fan) as int;
    let f = engine::fan_place(e.fans, e.sweep->0.fan) as int;
    if a < at {
        assert(e.config.pwm[a].id != e.sweep->0.fan);
    }
    if at < a {
        assert(e.config.pwm[at].id != e.sweep->0.fan);
    }
    if f < i {
        assert(e.fans[f].id != e.sweep->0.fan);
    }
    if i < f {
        assert(e.fans[i].id != e.sweep->0.fan);
    }
}

/// A sweep whose trace shows no range, or whose fan the config does not name,
/// leaves the config and the fans as they are.
pub proof fn law_no_range_changes_nothing(e: EngineView)
    requires
        e.sweep is Some,
        sweep::derived(e.sweep->0.steps).0 is None || sweep::derived(e.sweep->0.steps).1 is None
            || forall|j: int|
            0 <= j < e.config.pwm.len() ==> (#[trigger] e.config.pwm[j]).id != e.sweep->0.fan,
    ensures
        calibration::range_kept(e, calibration::end_of(e, e.sweep->0)) == (EngineView {
            sweep: None,
            ..e
        }),
{
    types::lemma_place_of(e.config.pwm, e.sweep->0.fan);
    let a = types::place_of(e.config.pwm, e.sweep->0.fan) as int;
    if a < e.config.pwm.len() {
        assert(e.config.pwm[a].id == e.sweep->0.fan);
    }
}

/// The report of a sweep carries what its trace shows: the fan, the range, and
/// whether the fan stopped gaining speed. Its note is the summary of the
/// sweep, which says that the range was saved just where it was; where the
/// range could not be saved, the note ends with the reason.
pub proof fn law_report_carries_the_result(e: EngineView, why: Seq<char>)
    requires
        e.sweep is Some,
    ensures
        ({
            let s = e.sweep->0;
            let end = calibration::end_of(e, s);
            let well = calibration::report_of(end, None);
            let ill = calibration::report_of(end, Some(why));
            let (min, max, saturated) = sweep::derived(s.steps);
            &&& well.fan == s.fan && ill.fan == s.fan
            &&& well.min_duty == min && ill.min_duty == min
            &&& well.max_duty == max && ill.max_duty == max
            &&& well.saturated == saturated && ill.saturated == saturated
            &&& end.state == s
            &&& well.note == sweep::description(
                s.fan,
                min,
                max,
                saturated,
                s.steps,
                end.range is Some,
            )
            &&& end.range is None ==> ill.note == well.note
            &&& end.range is Some ==> {
                &&& ill.note.len() >= why.len()
                &&& ill.note.skip(ill.note.len() - why.len()) == why
                &&& calibration::range_saved(e, end, Some(why)).status.len() >= why.len()
            }
        }),
{
    let end = calibration::end_of(e, e.sweep->0);
    let ill = calibration::report_of(end, Some(why));
    if end.range is Some {
        assert(ill.note.skip(ill.note.len() - why.len()) =~= why);
    }
}

/// A sweep remembers the mode its fan had, starts with no steps, and leaves
/// every other fan alone; it is refused, with nothing but the fan's chip and
/// error changed, where the chip is not there or shows no speed.
pub proof fn law_sweep_begins(e: EngineView, i: int, fs: SysfsView, k: int)
    requires
        0 <= i < e.fans.len(),
        0 <= k < e.fans.len(),
        e.sweep is None,
    ensures
        ({
            let f = e.fans[i];
            let chip = hwmon::resolved(hwmon::chips_of(fs), f.hwmon);
            let n = calibration::sweep_begun(e, i, fs);
            let ready = chip is Some && f.index is Some && hwmon::tach_of(
                fs,
                chip->0.dir,
                f.index->0,
            ) is Some;
            &&& n.config == e.config && n.temps == e.temps && n.last_sweep == e.last_sweep
            &&& n.fans.len() == e.fans.len()
            &&& k != i ==> n.fans[k] == e.fans[k]
            &&& n.fans[i] == (FanView { chip, err: n.fans[i].err, ..f })
            &&& n.fans[i].err is None <==> ready
            &&& ready ==> (n.sweep matches Some(s) && s.fan == f.id && s.prev == f.mode
                && s.steps.len() == 0)
            &&& !ready ==> n.sweep is None
            &&& calibration::unobservable(f, hwmon::chips_of(fs), fs) is None <==> ready
            &&& calibration::unobservable(f, hwmon::chips_of(fs), fs) == n.fans[i].err
        }),
{
}

/// A sweep may start just where none runs and both the config and the running
/// fans have the fan.
pub proof fn law_sweep_may_start(e: EngineView, id: Seq<char>)
    ensures
        calibration::sweep_refused(e, id) is None <==> e.sweep is None && (exists|j: int|
            0 <= j < e.config.pwm.len() && (#[trigger] e.config.pwm[j]).id == id) && (exists|j: int|
            0 <= j < e.fans.len() && (#[trigger] e.fans[j]).id == id),
{
    types::lemma_place_of(e.config.pwm, id);
    engine::lemma_fan_place(e.fans, id);
    let a = types::place_of(e.config.pwm, id) as int;
    let f = engine::fan_place(e.fans, id) as int;
    if a < e.config.pwm.len() {
        assert(e.config.pwm[a].id == id);
    }
    if f < e.fans.len() {
        assert(e.fans[f].id == id);
    }
}

/// Each step of a sweep drives the fan at just the duty of the step, on the
/// fan's own chip and channel, whatever the fan's mode, curve and range; and
/// then records the speed that the tachometer of that channel shows, with that
/// duty, behind the earlier steps. An unreadable speed counts as 0.
pub proof fn law_sweep_steps(e: EngineView, duty: u8, fs: SysfsView, i: int)
    requires
        e.sweep is Some,
        0 <= i < e.fans.len(),
        e.fans[i].id == e.sweep->0.fan,
        forall|j: int| 0 <= j < i ==> (#[trigger] e.fans[j]).id != e.sweep->0.fan,
        e.fans[i].chip is Some,
        e.fans[i].index is Some,
    ensures
        ({
            let f = e.fans[i];
            let (written, plan) = calibration::write_begun(e, duty, fs);
            let (read, rpm) = calibration::seen(e, fs);
            let tach = hwmon::tach_of(fs, f.chip->0.dir, f.index->0);
            let s = calibration::recorded(e, duty, rpm).sweep->0;
            &&& plan is Ok
            &&& plan->Ok_0.chip == f.chip->0
            &&& plan->Ok_0.writes == hwmon::manual_writes(
                f.index->0,
                duty * 1_000_000_000,
                f.pwm_max,
            )
            &&& written.fans == e.fans && written.sweep == e.sweep
            &&& tach is None ==> rpm == 0
            &&& tach matches Some(v) ==> (0 <= v <= u32::MAX ==> rpm == v) && (v < 0 ==> rpm == 0)
            &&& read.fans.len() == e.fans.len()
            &&& read.fans[i].duty is Some <==> hwmon::duty_of(
                fs,
                f.chip->0.dir,
                f.index->0,
                f.pwm_max,
            ) is Some
            &&& tach is Some ==> read.fans[i].rpm == Some(rpm)
            &&& forall|k: int|
                0 <= k < e.fans.len() && k != i ==> #[trigger] read.fans[k] == e.fans[k]
            &&& s.steps.len() == e.sweep->0.steps.len() + 1
            &&& s.steps.last().duty == duty && s.steps.last().rpm == rpm
            &&& s.prev == e.sweep->0.prev && s.fan == e.sweep->0.fan
        }),
{
    engine::lemma_fan_place(e.fans, e.sweep->0.fan);
    let f = engine::fan_place(e.fans, e.sweep->0.fan) as int;
    if f < i {
        assert(e.fans[f].id != e.sweep->0.fan);
    }
    if i < f {
        assert(e.fans[i].id != e.sweep->0.fan);
    }
    assert(calibration::write_begun(e, duty, fs).0.fans =~= e.fans);
}

/// However a sweep ends, the writes that follow are those of the mode the fan
/// had before it, decided on anew.
pub proof fn law_restoring_drives_the_old_mode(
    e: EngineView,
    id: Seq<char>,
    prev: Mode,
    fs: SysfsView,
    nvidia: Seq<NvidiaGpuView>,
    i: int,
    k: int,
)
    requires
        0 <= i < e.fans.len(),
        0 <= k < e.fans.len(),
        e.fans[i].id == id,
        forall|j: int| 0 <= j < i ==> (#[trigger] e.fans[j]).id != id,
    ensures
        ({
            let f = FanView { mode: prev, ..e.fans[i] };
            let n = calibration::mode_restored(e, id, prev, fs, nvidia);
            &&& n.fans.len() == e.fans.len()
            &&& k != i ==> n.fans[k] == e.fans[k]
            &&& n.fans[i].mode == prev
            &&& n.fans[i].curve == e.fans[i].curve
            &&& n.fans[i].duty_min == e.fans[i].duty_min
            &&& n.fans[i].duty_max == e.fans[i].duty_max
            &&& calibration::restore_plan(e, id, prev, fs, nvidia) == engine::plan_for(
                f,
                hwmon::chips_of(fs),
                fs,
                nvidia,
            )
        }),
{
    engine::lemma_fan_place(e.fans, id);
    let f = engine::fan_place(e.fans, id) as int;
    if f < i {
        assert(e.fans[f].id != id);
    }
    if i < f {
        assert(e.fans[i].id != id);
    }
}

// ---- what a mode does -----------------------------------------------------

/// A duty is held to the fan's measured range: one inside it stays, one below
/// the lower end is raised to it, and one above the upper end lowered to it.
/// An end that was not measured holds nothing back.
pub proof fn law_duty_is_held_to_the_range(pct: int, min: i64, max: i64)
    ensures
        engine::limited(pct, None, None) == pct,
        min <= max && min <= pct <= max ==> engine::limited(pct, Some(min), Some(max)) == pct,
        min <= max && pct < min ==> engine::limited(pct, Some(min), Some(max)) == min,
        pct > max ==> engine::limited(pct, Some(min), Some(max)) == max,
        min > max ==> engine::limited(pct, Some(min), Some(max)) == max,
        pct >= min ==> engine::limited(pct, Some(min), None) == pct,
        pct < min ==> engine::limited(pct, Some(min), None) == min,
        pct <= max ==> engine::limited(pct, None, Some(max)) == pct,
        pct > max ==> engine::limited(pct, None, Some(max)) == max,
{
}

/// What each mode writes. Auto hands the channel to the chip where the fan is
/// to be driven by it, and otherwise follows the curve at the combined reading
/// of the fan's sensors, within the measured range. Off writes 0 %, Full
/// 100 %, and Manual the duty asked for, none of them held to the range.
pub proof fn law_modes_drive(
    f: FanView,
    n: u32,
    chips: Seq<HwmonView>,
    fs: SysfsView,
    nvidia: Seq<NvidiaGpuView>,
    percent: u8,
)
    ensures
        engine::drive(FanView { mode: Mode::Off, ..f }, n, chips, fs, nvidia) == Some(
            (None::<int>, hwmon::manual_writes(n, 0, f.pwm_max)),
        ),
        engine::drive(FanView { mode: Mode::Full, ..f }, n, chips, fs, nvidia) == Some(
            (None::<int>, hwmon::manual_writes(n, 100_000_000_000, f.pwm_max)),
        ),
        engine::drive(FanView { mode: Mode::Manual { percent }, ..f }, n, chips, fs, nvidia) == Some(
            (
                Some(percent * 1_000_000_000),
                hwmon::manual_writes(n, percent * 1_000_000_000, f.pwm_max),
            ),
        ),
        engine::drive(
            FanView { mode: Mode::Auto, control: ControlKind::KernelAuto, ..f },
            n,
            chips,
            fs,
            nvidia,
        ) == Some((None::<int>, hwmon::auto_writes(n))),
        ({
            let vals = readings::sensor_readings(f.sensors, chips, fs, nvidia);
            let got = engine::drive(
                FanView { mode: Mode::Auto, control: ControlKind::Curve, ..f },
                n,
                chips,
                fs,
                nvidia,
            );
            &&& got is Some <==> vals.len() > 0
            &&& readings::aggregated(vals, f.aggregation) matches Some(t) ==> ({
                let d = engine::limited(curve::duty_at(f.curve, t), f.duty_min, f.duty_max);
                got == Some((Some(d), hwmon::manual_writes(n, d, f.pwm_max)))
            })
        }),
{
}

/// A fan's writes go to the chip it names, on its channel. There are none
/// where the chip or the channel is not there, or where the fan follows its
/// curve and no sensor gives a reading; the fan then has an error, and
/// otherwise none. Deciding on a fan changes nothing else of it but the chip
/// looked up and the duty that is then known.
pub proof fn law_fan_is_decided_on(
    f: FanView,
    chips: Seq<HwmonView>,
    fs: SysfsView,
    nvidia: Seq<NvidiaGpuView>,
)
    ensures
        ({
            let chip = hwmon::resolved(chips, f.hwmon);
            let plan = engine::plan_for(f, chips, fs, nvidia);
            let g = engine::started(f, chips, fs, nvidia);
            let blind = f.mode == Mode::Auto && f.control == ControlKind::Curve
                && readings::sensor_readings(f.sensors, chips, fs, nvidia).len() == 0;
            &&& plan is Some <==> chip is Some && f.index is Some && !blind
            &&& plan matches Some(p) ==> p.chip == chip->0 && (engine::drive(
                f,
                f.index->0,
                chips,
                fs,
                nvidia,
            ) matches Some((_, writes)) && p.writes == writes)
            &&& g == (FanView { chip, duty: g.duty, err: g.err, ..f })
            &&& g.err is None <==> plan is Some
            &&& plan is None ==> g.duty == f.duty
            &&& plan is Some ==> match engine::drive(f, f.index->0, chips, fs, nvidia) {
                Some((Some(d), _)) => g.duty == Some(d as i64),
                _ => g.duty == f.duty,
            }
        }),
{
}

/// What is said of a fan that cannot be driven names it.
pub proof fn law_errors_name_the_fan(f: FanView, why: Seq<char>)
    ensures
        engine::chipless(f) == "no resolvable chip for "@ + f.label,
        engine::blind(f).take(f.label.len() as int) == f.label,
        engine::settled(f, Some(why)) == (FanView { err: Some(f.label + ": "@ + why), ..f }),
        engine::settled(f, None) == f,
{
    assert(engine::blind(f).take(f.label.len() as int) =~= f.label);
}

/// A fan's duty and speed are those its chip shows: the duty of its register
/// on its own scale, and the reading of its tachometer. Nothing else of the
/// fan changes, and without a chip or channel nothing at all.
pub proof fn law_fan_is_read_back(f: FanView, fs: SysfsView)
    ensures
        ({
            let g = engine::read_back(f, fs);
            &&& g == (FanView { duty: g.duty, rpm: g.rpm, ..f })
            &&& f.chip is None || f.index is None ==> g == f
            &&& f.chip is Some && f.index is Some ==> ({
                let d = hwmon::duty_of(fs, f.chip->0.dir, f.index->0, f.pwm_max);
                let t = hwmon::tach_of(fs, f.chip->0.dir, f.index->0);
                &&& g.duty is Some <==> d is Some
                &&& d matches Some(v) ==> (i64::MIN <= v <= i64::MAX ==> g.duty == Some(v as i64))
                &&& g.rpm is Some <==> t is Some
                &&& t matches Some(v) ==> (0 <= v <= u32::MAX ==> g.rpm == Some(v as u32))
            })
        }),
{
}

/// A fan runs as the config describes it: under its name, or else its id, on
/// its chip and channel, by its curve in order of temperature, its sensors
/// (the list, then the single one), its way of combining them, its kind of
/// control, and, at first, its initial mode.
pub proof fn law_fan_runs_as_configured(p: PwmView)
    ensures
        ({
            let f = engine::fan_of(p);
            &&& f.id == p.id
            &&& p.name is None ==> f.label == p.id
            &&& p.name matches Some(n) ==> f.label == n
            &&& f.hwmon == p.hwmon && f.pwm_max == p.pwm_max
            &&& f.control == p.control && f.aggregation == p.aggregation
            &&& p.temp_sensor is None ==> f.sensors == p.temp_sensors
            &&& p.temp_sensor matches Some(s) ==> f.sensors == p.temp_sensors.push(s)
            &&& p.default == InitialMode::Auto ==> f.mode == Mode::Auto
            &&& p.default == InitialMode::Off ==> f.mode == Mode::Off
            &&& p.default == InitialMode::Full ==> f.mode == Mode::Full
            &&& f.curve.to_multiset() == p.curve.to_multiset()
            &&& forall|i: int, j: int|
                0 <= i < j < f.curve.len() ==> (#[trigger] f.curve[i]).temp <= (
                #[trigger] f.curve[j]).temp
            &&& f.chip is None && f.duty is None && f.rpm is None && f.err is None
            &&& p.duty_min is None ==> f.duty_min is None
            &&& p.duty_max is None ==> f.duty_max is None
            &&& p.duty_min matches Some(a) ==> (p.duty_max matches Some(b) ==> (0 <= a <= b
                <= 100_000_000_000 ==> f.duty_min == Some(a) && f.duty_max == Some(b)))
        }),
{
    curve::law_new_curve_is_sorted(p.curve);
}

/// The channel of a fan is the number in its id: `pwm` and the number.
pub proof fn law_channel_of_an_id(p: PwmView, n: u32)
    ensures
        p.id == "pwm"@ + number::decimal(n as nat) ==> engine::fan_of(p).index == Some(n)
            && types::channel_of(p.id) == Some(n as nat),
{
    let id = "pwm"@ + number::decimal(n as nat);
    number::law_decimal_round_trip(n as nat, u32::MAX as nat);
    assert(id.take("pwm"@.len() as int) =~= "pwm"@);
    assert(id.skip("pwm"@.len() as int) =~= number::decimal(n as nat));
}

// ---- ticks and what clients see -------------------------------------------

/// A tick decides on every fan but the one a sweep owns, and on each alone:
/// what it writes for a fan, and what becomes of it, are the same whatever the
/// other fans are. Afterwards every fan shows what its chip shows.
pub proof fn law_tick_drives_every_fan(
    e: EngineView,
    fs: SysfsView,
    nvidia: Seq<NvidiaGpuView>,
    lm: Option<Seq<char>>,
    outcomes: Seq<Option<Seq<char>>>,
    after: SysfsView,
    i: int,
)
    requires
        0 <= i < e.fans.len(),
    ensures
        ({
            let f = e.fans[i];
            let chips = hwmon::chips_of(fs);
            let owned = e.sweep is Some && e.sweep->0.fan == f.id;
            let t = engine::ticked(e, fs, nvidia, lm);
            let g = engine::tick_ended(t, outcomes, after).fans[i];
            &&& owned ==> engine::tick_plan(e, f, fs, nvidia) is None
            &&& !owned ==> engine::tick_plan(e, f, fs, nvidia) == engine::plan_for(
                f,
                chips,
                fs,
                nvidia,
            )
            &&& g.chip == hwmon::resolved(chips, f.hwmon)
            &&& g.chip is Some && f.index is Some ==> ({
                let d = hwmon::duty_of(after, g.chip->0.dir, f.index->0, f.pwm_max);
                let v = hwmon::tach_of(after, g.chip->0.dir, f.index->0);
                &&& g.duty is Some <==> d is Some
                &&& d matches Some(x) ==> (i64::MIN <= x <= i64::MAX ==> g.duty == Some(x as i64))
                &&& g.rpm is Some <==> v is Some
                &&& v matches Some(x) ==> (0 <= x <= u32::MAX ==> g.rpm == Some(x as u32))
            })
            &&& !owned && i < outcomes.len() && outcomes[i] is Some ==> g.err == Some(
                f.label + ": "@ + outcomes[i]->0,
            )
            &&& t.temps.len() == e.temps.len()
        }),
{
    let t = engine::ticked(e, fs, nvidia, lm);
    assert(t.fans[i] == engine::ticked_fan(e, e.fans[i], fs, nvidia));
}

/// The status after a tick is the error of the last fan that has one, the fan
/// that a sweep owns left out.
pub proof fn law_status_is_the_last_error(
    e: EngineView,
    outcomes: Seq<Option<Seq<char>>>,
    after: SysfsView,
    i: int,
)
    requires
        0 <= i < e.fans.len(),
        e.sweep is None || e.sweep->0.fan != e.fans[i].id,
        ({
            let n = engine::tick_ended(e, outcomes, after);
            &&& n.fans[i].err is Some
            &&& forall|j: int|
                i < j < e.fans.len() && (e.sweep is None || e.sweep->0.fan != e.fans[j].id) ==> (
                #[trigger] n.fans[j]).err is None
        }),
    ensures
        ({
            let n = engine::tick_ended(e, outcomes, after);
            n.status == n.fans[i].err->0
        }),
{
    let n = engine::tick_ended(e, outcomes, after);
    assert forall|j: int| 0 <= j < e.fans.len() implies (#[trigger] n.fans[j]).err
        == engine::tick_settled(e, j, outcomes).err && engine::tick_settled(e, j, outcomes).id
        == e.fans[j].id by {
        assert(n.fans[j] == engine::read_back(engine::tick_settled(e, j, outcomes), after));
    }
    lemma_status(e, outcomes, after, i, e.fans.len());
}

proof fn lemma_status(
    e: EngineView,
    outcomes: Seq<Option<Seq<char>>>,
    after: SysfsView,
    i: int,
    n: nat,
)
    requires
        0 <= i < n <= e.fans.len(),
        !engine::swept(e, e.fans[i].id),
        engine::tick_settled(e, i, outcomes).err is Some,
        ({
            let m = engine::tick_ended(e, outcomes, after);
            &&& forall|j: int|
                0 <= j < e.fans.len() ==> (#[trigger] m.fans[j]).err == engine::tick_settled(
                    e,
                    j,
                    outcomes,
                ).err && engine::tick_settled(e, j, outcomes).id == e.fans[j].id
            &&& forall|j: int|
                i < j < e.fans.len() && !engine::swept(e, e.fans[j].id) ==> (
                #[trigger] m.fans[j]).err is None
        }),
    ensures
        engine::last_error(e, outcomes, n) == engine::tick_settled(e, i, outcomes).err->0,
    decreases n,
{
    let m = engine::tick_ended(e, outcomes, after);
    let k = n - 1;
    assert(m.fans[k].err == engine::tick_settled(e, k, outcomes).err);
    if k > i {
        lemma_status(e, outcomes, after, i, k as nat);
    }
}

/// A snapshot shows the engine as it is: every fan, in order, with its label,
/// mode, duty, speed and error as the engine holds them, and the curve and
/// initial mode of the config; all readings; the status; the sweep in flight
/// and the last report; and the refresh time of the config.
pub proof fn law_snapshot_shows_the_engine(e: EngineView, k: int, at: int)
    requires
        0 <= k < e.fans.len(),
    ensures
        ({
            let s = engine::state_of(e);
            let f = e.fans[k];
            let shown = s.fans[k];
            &&& s.fans.len() == e.fans.len()
            &&& shown.id == f.id && shown.label == f.label && shown.mode == f.mode
            &&& shown.duty == f.duty && shown.rpm == f.rpm && shown.err == f.err
            &&& 0 <= at < e.config.pwm.len() && e.config.pwm[at].id == f.id && (forall|j: int|
                0 <= j < at ==> (#[trigger] e.config.pwm[j]).id != f.id) ==> shown.curve
                == e.config.pwm[at].curve && shown.default_mode == e.config.pwm[at].default
            &&& s.temps == e.temps && s.status == e.status && s.sweep == e.last_sweep
            &&& s.refresh_secs == e.config.refresh_secs
            &&& s.sweeping is Some <==> e.sweep is Some
            &&& e.sweep matches Some(w) ==> s.sweeping == Some(w.fan)
        }),
{
    types::lemma_place_of(e.config.pwm, e.fans[k].id);
    let a = types::place_of(e.config.pwm, e.fans[k].id) as int;
    if 0 <= at < a {
        assert(e.config.pwm[at].id != e.fans[k].id);
    }
    if a < at && at < e.config.pwm.len() {
        assert(e.config.pwm[a].id == e.fans[k].id);
    }
}

/// After a tick, a client sees each fan's duty and speed as its channel's
/// files show them, and its mode and label as before.
pub proof fn law_tick_is_seen(
    e: EngineView,
    fs: SysfsView,
    nvidia: Seq<NvidiaGpuView>,
    lm: Option<Seq<char>>,
    outcomes: Seq<Option<Seq<char>>>,
    after: SysfsView,
    i: int,
)
    requires
        0 <= i < e.fans.len(),
        hwmon::resolved(hwmon::chips_of(fs), e.fans[i].hwmon) is Some,
        e.fans[i].index is Some,
    ensures
        ({
            let f = e.fans[i];
            let dir = hwmon::resolved(hwmon::chips_of(fs), f.hwmon)->0.dir;
            let s = engine::state_of(
                engine::tick_ended(engine::ticked(e, fs, nvidia, lm), outcomes, after),
            ).fans[i];
            let d = hwmon::duty_of(after, dir, f.index->0, f.pwm_max);
            let v = hwmon::tach_of(after, dir, f.index->0);
            &&& s.id == f.id && s.label == f.label && s.mode == f.mode
            &&& s.duty is Some <==> d is Some
            &&& d matches Some(x) ==> (i64::MIN <= x <= i64::MAX ==> s.duty == Some(x as i64))
            &&& s.rpm is Some <==> v is Some
            &&& v matches Some(x) ==> (0 <= x <= u32::MAX ==> s.rpm == Some(x as u32))
        }),
{
    law_tick_drives_every_fan(e, fs, nvidia, lm, outcomes, after, i);
    law_tick_keeps_settings(e, fs, nvidia, lm, outcomes, after, i);
    let t = engine::ticked(e, fs, nvidia, lm);
    assert(t.fans[i] == engine::ticked_fan(e, e.fans[i], fs, nvidia));
}

// ---- a fresh engine -------------------------------------------------------

/// A fresh engine runs the fans of its config, in order and as the config
/// describes them, and lists the configured sensors, then those of lm-sensors
/// where the config asks for them, then every GPU. No sweep runs.
pub proof fn law_fresh_engine(
    config: ConfigView,
    path: Seq<char>,
    fs: SysfsView,
    doc: Seq<char>,
    nvidia: Seq<NvidiaGpuView>,
    k: int,
)
    ensures
        ({
            let with_lm = engine::engine_of(config, path, fs, Some(doc), nvidia);
            let e = engine::engine_of(config, path, fs, None, nvidia);
            let listed = readings::hwmon_temps(hwmon::chips_of(fs), fs, config.temp_sensors);
            &&& e.config == config && e.config_path == path && e.base == fs.base
            &&& e.fans.len() == config.pwm.len() && with_lm.fans == e.fans
            &&& 0 <= k < config.pwm.len() ==> e.fans[k] == engine::fan_of(config.pwm[k])
            &&& e.temps == listed + readings::gpu_temps(nvidia)
            &&& config.show_lm_sensors ==> with_lm.temps == listed + readings::lm_temps(
                json::parsed(doc),
            ) + readings::gpu_temps(nvidia)
            &&& !config.show_lm_sensors ==> with_lm.temps == e.temps
            &&& e.status.len() == 0 && e.sweep is None && e.last_sweep is None
        }),
{
    reveal_strlit("");
}

/// A reload takes the new config over: every fan runs anew as the new config
/// describes it, at its initial mode, and the readings are listed anew. The
/// config file stays the same, and so do the sweep in flight and the last
/// report.
pub proof fn law_reload_takes_the_new_config(
    e: EngineView,
    config: ConfigView,
    fs: SysfsView,
    lm: Option<Seq<char>>,
    nvidia: Seq<NvidiaGpuView>,
    k: int,
)
    ensures
        ({
            let n = engine::reloaded(e, config, fs, lm, nvidia);
            &&& n.config == config && n.config_path == e.config_path && n.base == fs.base
            &&& n.fans.len() == config.pwm.len()
            &&& 0 <= k < config.pwm.len() ==> n.fans[k] == engine::fan_of(config.pwm[k])
            &&& n.temps == engine::engine_of(config, e.config_path, fs, lm, nvidia).temps
            &&& n.status.len() == 0
            &&& n.sweep == e.sweep && n.last_sweep == e.last_sweep
        }),
{
    reveal_strlit("");
}

/// The GPUs have to be read just where a listed reading or a fan's sensor is
/// on one: without any, a tick does the same whatever GPUs there are.
pub proof fn law_gpus_are_read_where_needed(
    e: EngineView,
    fs: SysfsView,
    some: Seq<NvidiaGpuView>,
    other: Seq<NvidiaGpuView>,
    lm: Option<Seq<char>>,
    i: int,
    j: int,
)
    ensures
        !engine::needs_gpu(e) ==> engine::ticked(e, fs, some, lm) == engine::ticked(
            e,
            fs,
            other,
            lm,
        ),
        0 <= i < e.temps.len() && e.temps[i].source == "nvidia"@ ==> engine::needs_gpu(e),
        0 <= i < e.fans.len() && 0 <= j < e.fans[i].sensors.len() && e.fans[i].sensors[j].hwmon
            == "nvidia"@ ==> engine::needs_gpu(e),
        e.temps.len() == 0 && e.fans.len() == 0 ==> !engine::needs_gpu(e),
{
    if !engine::needs_gpu(e) {
        let a = engine::ticked(e, fs, some, lm);
        let b = engine::ticked(e, fs, other, lm);
        let chips = hwmon::chips_of(fs);
        assert forall|k: int| 0 <= k < e.fans.len() implies a.fans[k] == b.fans[k] by {
            let f = e.fans[k];
            assert forall|m: int| 0 <= m < f.sensors.len() implies (#[trigger] f.sensors[m]).hwmon
                != "nvidia"@ by {
                assert(e.fans[k].sensors[m].hwmon != "nvidia"@);
            }
            readings::lemma_gpus_do_not_matter(f.sensors, chips, fs, some, other);
            assert(a.fans[k] == engine::ticked_fan(e, f, fs, some));
            assert(b.fans[k] == engine::ticked_fan(e, f, fs, other));
        }
        assert(a.fans =~= b.fans);
        assert forall|k: int| 0 <= k < e.temps.len() implies a.temps[k] == b.temps[k] by {
            assert(e.temps[k].source != "nvidia"@);
        }
        assert(a.temps =~= b.temps);
    }
    if 0 <= i < e.temps.len() && e.temps[i].source == "nvidia"@ {
        assert(e.temps[i].source == "nvidia"@);
    }
    if 0 <= i < e.fans.len() && 0 <= j < e.fans[i].sensors.len() && e.fans[i].sensors[j].hwmon
        == "nvidia"@ {
        assert(e.fans[i].sensors[j].hwmon == "nvidia"@);
    }
}

/// Each tick brings every listed reading up to date, in its place; lm-sensors
/// are read only where the config asks for them.
pub proof fn law_tick_refreshes_the_readings(
    e: EngineView,
    fs: SysfsView,
    nvidia: Seq<NvidiaGpuView>,
    lm: Option<Seq<char>>,
    outcomes: Seq<Option<Seq<char>>>,
    after: SysfsView,
    i: int,
)
    requires
        0 <= i < e.temps.len(),
    ensures
        ({
            let n = engine::tick_ended(engine::ticked(e, fs, nvidia, lm), outcomes, after);
            &&& n.temps.len() == e.temps.len()
            &&& n.temps[i] == readings::refreshed(
                e.temps[i],
                hwmon::chips_of(fs),
                fs,
                nvidia,
                if e.config.show_lm_sensors {
                    lm
                } else {
                    None
                },
            )
        }),
{
}

/// A fan that follows its curve is driven by its own sensors: where one
/// reading decides (the hottest with max, the coolest with min), the duty that
/// is written is the curve's at that reading, within the measured range.
pub proof fn law_curve_follows_the_sensors(
    f: FanView,
    n: u32,
    chips: Seq<HwmonView>,
    fs: SysfsView,
    nvidia: Seq<NvidiaGpuView>,
    i: int,
    v: int,
)
    requires
        f.mode == Mode::Auto,
        f.control == ControlKind::Curve,
        0 <= i < f.sensors.len(),
        temps::sensor_celsius(chips, fs, nvidia, f.sensors[i].hwmon, f.sensors[i].sensor) == Some(v),
        f.aggregation == Aggregation::Max || f.aggregation == Aggregation::Min,
        forall|k: int|
            0 <= k < f.sensors.len() ==> (temps::sensor_celsius(
                chips,
                fs,
                nvidia,
                (#[trigger] f.sensors[k]).hwmon,
                f.sensors[k].sensor,
            ) matches Some(w) ==> (f.aggregation == Aggregation::Max ==> w <= v) && (f.aggregation
                == Aggregation::Min ==> v <= w)),
    ensures
        engine::drive(f, n, chips, fs, nvidia) matches Some((Some(d), w)) && {
            let c = curve::duty_at(f.curve, v);
            &&& w == hwmon::manual_writes(n, d, f.pwm_max)
            &&& f.duty_min is None && f.duty_max is None ==> d == c
            &&& f.duty_min matches Some(m) ==> (f.duty_max matches Some(x) ==> (m <= x ==> d == if c
                < m {
                m as int
            } else if c > x {
                x as int
            } else {
                c
            }))
        },
{
    let vals = readings::sensor_readings(f.sensors, chips, fs, nvidia);
    readings::law_no_sensor_is_left_out(f.sensors, chips, fs, nvidia, i);
    let t = readings::aggregated(vals, f.aggregation)->0;
    let k = choose|k: int| 0 <= k < vals.len() && vals[k] == v;
    readings::law_readings_are_combined(vals, k);
    assert(vals.contains(t));
    let s = choose|s: int|
        0 <= s < f.sensors.len() && temps::sensor_celsius(
            chips,
            fs,
            nvidia,
            (#[trigger] f.sensors[s]).hwmon,
            f.sensors[s].sensor,
        ) == Some(t);
    assert(f.sensors[s].hwmon == f.sensors[s].hwmon);
    assert(t == v);
}

/// A sweep writes to the chip last looked up for its fan, or else to the one
/// that can be found now, which it then keeps. Where there is none, or the fan
/// is gone, it writes nothing, reads a speed of 0, and changes nothing.
pub proof fn law_sweep_finds_its_chip(e: EngineView, duty: u8, fs: SysfsView, i: int)
    requires
        e.sweep is Some,
        0 <= i < e.fans.len(),
        e.fans[i].id == e.sweep->0.fan,
        forall|j: int| 0 <= j < i ==> (#[trigger] e.fans[j]).id != e.sweep->0.fan,
        e.fans[i].chip is None,
    ensures
        ({
            let f = e.fans[i];
            let found = hwmon::resolved(hwmon::chips_of(fs), f.hwmon);
            let (n, plan) = calibration::write_begun(e, duty, fs);
            &&& found is Some && f.index is Some ==> {
                &&& n.fans == e.fans.update(i, FanView { chip: found, ..f })
                &&& plan matches Ok(p) && p.chip == found->0 && p.writes == hwmon::manual_writes(
                    f.index->0,
                    duty * 1_000_000_000,
                    f.pwm_max,
                )
            }
            &&& found is None || f.index is None ==> n == e && plan is Err
            &&& calibration::seen(e, fs).1 == 0
            &&& calibration::seen(e, fs).0.fans == e.fans
        }),
{
    engine::lemma_fan_place(e.fans, e.sweep->0.fan);
    let f = engine::fan_place(e.fans, e.sweep->0.fan) as int;
    if f < i {
        assert(e.fans[f].id != e.sweep->0.fan);
    }
    if i < f {
        assert(e.fans[i].id != e.sweep->0.fan);
    }
    assert(calibration::seen(e, fs).0.fans =~= e.fans);
}

/// Without a sweep, or with its fan gone, there is nothing to write or read.
pub proof fn law_no_sweep_no_writes(
    e: EngineView,
    duty: u8,
    fs: SysfsView,
    prev: Mode,
    id: Seq<char>,
    nvidia: Seq<NvidiaGpuView>,
)
    requires
        forall|j: int|
            0 <= j < e.fans.len() ==> (#[trigger] e.fans[j]).id != id && (e.sweep is Some
                ==> e.fans[j].id != e.sweep->0.fan),
    ensures
        calibration::write_begun(e, duty, fs).0 == e,
        calibration::write_begun(e, duty, fs).1 is Err,
        calibration::seen(e, fs) == (e, 0u32),
        calibration::mode_restored(e, id, prev, fs, nvidia) == e,
        calibration::restore_plan(e, id, prev, fs, nvidia) is None,
{
    engine::lemma_fan_place(e.fans, id);
    let a = engine::fan_place(e.fans, id) as int;
    if a < e.fans.len() {
        assert(e.fans[a].id == id);
    }
    if e.sweep is Some {
        engine::lemma_fan_place(e.fans, e.sweep->0.fan);
        let b = engine::fan_place(e.fans, e.sweep->0.fan) as int;
        if b < e.fans.len() {
            assert(e.fans[b].id == e.sweep->0.fan);
        }
    }
}

/// A duty that a client asks for arrives: where the fan is driven at `percent`
/// and its two writes are done on a chip whose range files agree, the channel
/// is manual and reads back that duty, to within half a register step and a
/// billionth of a percent.
pub proof fn law_manual_duty_arrives(
    f: FanView,
    n: u32,
    percent: u8,
    chips: Seq<HwmonView>,
    fs: SysfsView,
    nvidia: Seq<NvidiaGpuView>,
    dir: Seq<char>,
)
    requires
        f.mode == (Mode::Manual { percent }),
        percent <= 100,
        f.pwm_max > 0,
        hwmon::range_agrees(fs, dir, n, f.pwm_max),
        hwmon::writable(fs, dir, hwmon::channel_file("pwm"@, n, "_enable"@)),
        hwmon::writable(fs, dir, hwmon::channel_file("pwm"@, n, ""@)),
    ensures
        engine::drive(f, n, chips, fs, nvidia) matches Some((Some(d), w)) && w.len() == 2 && {
            let first = hwmon::written(fs, dir, w[0].file, w[0].value);
            let after = hwmon::written(first, dir, w[1].file, w[1].value);
            &&& d == percent * 1_000_000_000
            &&& hwmon::u32_reading(after, dir, "pwm"@ + number::decimal(n as nat) + "_enable"@)
                == Some(1u32)
            &&& hwmon::duty_of(after, dir, n, f.pwm_max) matches Some(p) && {
                let off = 2 * f.pwm_max * (p - percent * 1_000_000_000);
                -(100_000_000_000 + 2 * f.pwm_max) <= off <= 100_000_000_000 + 2 * f.pwm_max
            }
        },
{
    hwmon::law_manual_reads_back(fs, dir, n, percent * UNIT, f.pwm_max);
}

} // verus!
