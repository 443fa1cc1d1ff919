//! The fan calibration ("sweep"): step a fan's duty up from 0 % towards
//! 100 %, observe its tachometer, and derive the range of duty in which the
//! fan actually responds.
//!
//! A sweep measures two limits for a channel:
//!
//! * **start** — the first duty at which the tachometer reports any RPM;
//! * **saturation** — the first duty at which the RPM stops rising.

use vstd::prelude::*;
use crate::number;
use crate::quantity;
use crate::quantity::FULL;
use crate::text;

verus! {

/// The default duty increment between sweep steps, in percent.
pub const DEFAULT_STEP: u8 = 10;

/// The default settling time after each duty change, in nanoseconds: how
/// long the fan is given to reach its new steady speed before the tachometer
/// is read.
pub const DEFAULT_SETTLE_SECS: i64 = 3_000_000_000;

/// A single observed step of a sweep.
#[derive(Debug, Clone, Copy, PartialEq, Eq, Structural)]
pub struct SweepStep {
    /// The duty that was applied, in percent (0..=100).
    pub duty: u8,
    /// The tachometer reading after settling, in RPM.
    pub rpm: u32,
}

/// The result of a finished sweep, as the daemon reports it.
#[derive(Debug, PartialEq, Eq)]
pub struct SweepReport {
    /// The fan that was swept (its `pwmN` id).
    pub fan: String,
    /// The first duty at which the fan was observed spinning, if any.
    pub min_duty: Option<u8>,
    /// The duty at which the fan reached its top speed, if it was reached.
    pub max_duty: Option<u8>,
    /// True when the RPM stopped rising before the sweep reached 100 %.
    pub saturated: bool,
    /// A human-readable summary of the outcome.
    pub note: String,
}

/// A [`SweepReport`] with its text as character sequences.
pub struct SweepReportView {
    pub fan: Seq<char>,
    pub min_duty: Option<u8>,
    pub max_duty: Option<u8>,
    pub saturated: bool,
    pub note: Seq<char>,
}

impl View for SweepReport {
    type V = SweepReportView;

    open spec fn view(&self) -> SweepReportView {
        SweepReportView {
            fan: self.fan@,
            min_duty: self.min_duty,
            max_duty: self.max_duty,
            saturated: self.saturated,
            note: self.note@,
        }
    }
}

impl DeepView for SweepReport {
    type V = SweepReportView;

    open spec fn deep_view(&self) -> SweepReportView {
        self.view()
    }
}

impl Clone for SweepReport {
    fn clone(&self) -> (r: SweepReport)
        ensures
            r@ == self@,
    {
        SweepReport {
            fan: self.fan.clone(),
            min_duty: self.min_duty,
            max_duty: self.max_duty,
            saturated: self.saturated,
            note: self.note.clone(),
        }
    }
}

impl SweepReport {
    /// Whether two reports say the same.
    pub fn same(&self, other: &SweepReport) -> (r: bool)
        ensures
            r == (self@ == other@),
    {
        self.fan == other.fan && self.min_duty == other.min_duty && self.max_duty == other.max_duty
            && self.saturated == other.saturated && self.note == other.note
    }
}

// ---- what a trace shows ---------------------------------------------------

/// The RPM gain that is put down to noise: 2 % of the previous reading, but
/// at least 15 RPM.
pub open spec fn noise(prev_rpm: u32) -> int {
    if prev_rpm / 50 > 15 {
        prev_rpm as int / 50
    } else {
        15
    }
}

/// The fan is faster after step `i` than before it, by more than noise.
pub open spec fn gained(steps: Seq<SweepStep>, i: int) -> bool {
    steps[i + 1].rpm - steps[i].rpm > noise(steps[i].rpm)
}

/// The fan spins after step `i`, and its speed has stopped rising: it gained
/// no more than noise, or lost speed.
pub open spec fn flat(steps: Seq<SweepStep>, i: int) -> bool {
    steps[i + 1].rpm > 0 && !gained(steps, i)
}

/// The last two steps show that the fan has stopped accelerating.
pub open spec fn stall(steps: Seq<SweepStep>) -> bool {
    steps.len() >= 2 && flat(steps, steps.len() - 2)
}

/// The first step with the fan spinning; the number of steps if it never is.
pub open spec fn first_spin(steps: Seq<SweepStep>) -> nat
    decreases steps.len(),
{
    if steps.len() == 0 || steps[0].rpm > 0 {
        0
    } else {
        1 + first_spin(steps.skip(1))
    }
}

/// The last step with the fan spinning, or `-1`.
pub open spec fn last_spin(steps: Seq<SweepStep>) -> int
    decreases steps.len(),
{
    if steps.len() == 0 || steps.last().rpm > 0 {
        steps.len() - 1
    } else {
        last_spin(steps.drop_last())
    }
}

/// The first step from `from` on after which the speed rises no further; the
/// number of steps if it always does.
pub open spec fn first_flat(steps: Seq<SweepStep>, from: nat) -> nat
    decreases steps.len() - from,
{
    if from + 1 >= steps.len() {
        steps.len()
    } else if flat(steps, from as int) {
        from
    } else {
        first_flat(steps, from + 1)
    }
}

/// The duty range a trace shows: from the first duty with the fan spinning, to
/// the last duty at which the speed was still rising or else the last duty
/// with the fan spinning; and whether the speed did stop rising.
pub open spec fn derived(steps: Seq<SweepStep>) -> (Option<u8>, Option<u8>, bool) {
    let first = first_spin(steps) as int;
    let top = first_flat(steps, 0) as int;
    if first >= steps.len() {
        (None, None, false)
    } else if top < steps.len() {
        (Some(steps[first].duty), Some(steps[top].duty), true)
    } else {
        (Some(steps[first].duty), Some(steps[last_spin(steps)].duty), false)
    }
}

/// A proper subrange: more than one duty, and less than the whole span.
pub open spec fn useful(min: Option<u8>, max: Option<u8>) -> bool {
    min is Some && max is Some && min->0 < max->0 && !(min->0 == 0 && max->0 == 100)
}

proof fn lemma_first_spin(steps: Seq<SweepStep>, n: nat)
    requires
        n <= steps.len(),
        n < steps.len() ==> steps[n as int].rpm > 0,
        forall|i: int| 0 <= i < n ==> #[trigger] steps[i].rpm == 0,
    ensures
        first_spin(steps) == n,
    decreases steps.len(),
{
    if n > 0 {
        let t = steps.skip(1);
        assert(steps[0].rpm == 0);
        assert forall|i: int| 0 <= i < n - 1 implies #[trigger] t[i].rpm == 0 by {
            assert(steps[i + 1].rpm == 0);
        }
        lemma_first_spin(t, (n - 1) as nat);
    }
}

proof fn lemma_last_spin(steps: Seq<SweepStep>, n: int)
    requires
        -1 <= n < steps.len(),
        n >= 0 ==> steps[n].rpm > 0,
        forall|i: int| n < i < steps.len() ==> #[trigger] steps[i].rpm == 0,
    ensures
        last_spin(steps) == n,
    decreases steps.len(),
{
    if n < steps.len() - 1 {
        let t = steps.drop_last();
        assert(steps[steps.len() - 1].rpm == 0);
        assert forall|i: int| n < i < t.len() implies #[trigger] t[i].rpm == 0 by {
            assert(steps[i].rpm == 0);
        }
        lemma_last_spin(t, n);
    }
}

/// The noise floor below which an RPM gain is ignored.
fn noise_floor(prev_rpm: u32) -> (r: i64)
    ensures
        r == noise(prev_rpm),
{
    let share = prev_rpm / 50;
    if share > 15 {
        share as i64
    } else {
        15
    }
}

fn is_flat(a: &SweepStep, b: &SweepStep) -> (r: bool)
    ensures
        r == flat(seq![*a, *b], 0),
{
    let gain: i64 = (b.rpm as i64) - (a.rpm as i64);
    b.rpm > 0 && gain <= noise_floor(a.rpm)
}

/// Whether the last step shows the fan has stopped accelerating.
///
/// A loss of speed counts as a stall too. A step only counts as a "stall"
/// while the fan is actually spinning: a tach that reads 0 at every step is
/// not a stall.
pub fn stalled(steps: &[SweepStep]) -> (r: bool)
    ensures
        r == stall(steps@),
{
    let n = steps.len();
    if n < 2 {
        return false;
    }
    is_flat(&steps[n - 2], &steps[n - 1])
}

/// Derive the effective duty range from a finished sweep trace.
pub fn derive(steps: &[SweepStep]) -> (r: (Option<u8>, Option<u8>, bool))
    ensures
        r == derived(steps@),
{
    let n = steps.len();
    let mut first: usize = 0;
    while first < n && steps[first].rpm == 0
        invariant
            first <= n == steps@.len(),
            forall|i: int| 0 <= i < first ==> #[trigger] steps@[i].rpm == 0,
        decreases n - first,
    {
        first += 1;
    }
    proof {
        lemma_first_spin(steps@, first as nat);
    }
    if first == n {
        return (None, None, false);
    }
    let min = steps[first].duty;
    let mut i: usize = 0;
    while i < n - 1
        invariant
            0 < n == steps@.len(),
            i <= n - 1,
            first_flat(steps@, 0) == first_flat(steps@, i as nat),
            first == first_spin(steps@) < n,
            min == steps@[first as int].duty,
        decreases n - i,
    {
        if is_flat(&steps[i], &steps[i + 1]) {
            return (Some(min), Some(steps[i].duty), true);
        }
        i += 1;
    }
    let mut last: usize = n - 1;
    while steps[last].rpm == 0
        invariant
            n == steps@.len(),
            first <= last < n,
            steps@[first as int].rpm > 0,
            forall|j: int| last < j < n ==> #[trigger] steps@[j].rpm == 0,
        decreases last,
    {
        last -= 1;
    }
    proof {
        lemma_last_spin(steps@, last as int);
    }
    (Some(min), Some(steps[last].duty), false)
}

/// Whether a measured range is worth persisting in the config: a proper
/// subrange.
pub fn worth_saving(min: Option<u8>, max: Option<u8>) -> (r: bool)
    ensures
        r == useful(min, max),
{
    match (min, max) {
        (Some(m), Some(x)) => m < x && !(m == 0 && x == 100),
        _ => false,
    }
}

// ---- telling about it -----------------------------------------------------

/// The text of the range itself.
pub open spec fn range_text(
    fan: Seq<char>,
    m: u8,
    x: u8,
    saturated: bool,
    steps: Seq<SweepStep>,
    saved: bool,
) -> Seq<char> {
    let range = fan + ": the fan spins between "@ + number::decimal(m as nat) + " % and "@
        + number::decimal(x as nat) + " % duty"@;
    let top = if saturated {
        range + " (it saturates at "@ + number::decimal(x as nat)
            + " % — more duty won't make it faster)"@
    } else {
        range
    };
    let stopped = if steps.len() > 0 && steps.last().rpm == 0 {
        top + "; it stopped spinning again at "@ + number::decimal(steps.last().duty as nat)
            + " % — check the wiring"@
    } else {
        top
    };
    if saved {
        stopped + ". Saved duty_min="@ + number::decimal(m as nat) + " / duty_max="@
            + number::decimal(x as nat) + " in the config — its curve is clamped to that range"@
    } else {
        stopped + " (nothing to save: the fan responds across the whole 0–100 % span)"@
    }
}

/// The summary of a finished sweep.
pub open spec fn description(
    fan: Seq<char>,
    min: Option<u8>,
    max: Option<u8>,
    saturated: bool,
    steps: Seq<SweepStep>,
    saved: bool,
) -> Seq<char> {
    match (min, max) {
        (None, _) => if steps.len() == 0 {
            fan
                + ": the sweep could not take a single reading (a write failed — check the error above) — nothing was saved."@
        } else {
            fan
                + ": no fan response — the tachometer stayed at 0 rpm through the whole 0–100 % sweep; this channel is probably not connected to a measurable fan (or the chip exposes no tachometer for it). Nothing was saved."@
        },
        (Some(m), Some(x)) => if m == 0 && x == 0 {
            fan + ": the tachometer reads "@ + number::decimal(
                if steps.len() > 0 {
                    steps[0].rpm as nat
                } else {
                    0
                },
            )
                + " rpm at 0 % duty and never moves with the duty — the reading is probably not from this fan (a shared or stuck tach). Nothing was saved."@
        } else if m == x {
            fan + ": the tachometer only moves around "@ + number::decimal(m as nat)
                + " % duty — the measured range is a single point, too narrow to be useful. Nothing was saved."@
        } else {
            range_text(fan, m, x, saturated, steps, saved)
        },
        (Some(_), None) => fan + ": no usable range could be derived from the sweep."@,
    }
}

fn describe_range(fan: &str, m: u8, x: u8, saturated: bool, steps: &[SweepStep], saved: bool) -> (r:
    String)
    ensures
        r@ == range_text(fan@, m, x, saturated, steps@, saved),
{
    let min = number::u64_text(m as u64);
    let max = number::u64_text(x as u64);
    let mut s = text::owned(fan);
    s.append(": the fan spins between ");
    s.append(min.as_str());
    s.append(" % and ");
    s.append(max.as_str());
    s.append(" % duty");
    if saturated {
        s.append(" (it saturates at ");
        s.append(max.as_str());
        s.append(" % — more duty won't make it faster)");
    }
    let n = steps.len();
    if n > 0 && steps[n - 1].rpm == 0 {
        let at = number::u64_text(steps[n - 1].duty as u64);
        s.append("; it stopped spinning again at ");
        s.append(at.as_str());
        s.append(" % — check the wiring");
    }
    if saved {
        s.append(". Saved duty_min=");
        s.append(min.as_str());
        s.append(" / duty_max=");
        s.append(max.as_str());
        s.append(" in the config — its curve is clamped to that range");
    } else {
        s.append(" (nothing to save: the fan responds across the whole 0–100 % span)");
    }
    s
}

/// A human-readable summary of a finished sweep (TUI status line, one-shot
/// CLI output).
pub fn describe(
    fan: &str,
    min: Option<u8>,
    max: Option<u8>,
    saturated: bool,
    steps: &[SweepStep],
    saved: bool,
) -> (r: String)
    ensures
        r@ == description(fan@, min, max, saturated, steps@, saved),
{
    match (min, max) {
        (None, _) => {
            if steps.len() == 0 {
                text::cat(
                    fan,
                    ": the sweep could not take a single reading (a write failed — check the error above) — nothing was saved.",
                )
            } else {
                text::cat(
                    fan,
                    ": no fan response — the tachometer stayed at 0 rpm through the whole 0–100 % sweep; this channel is probably not connected to a measurable fan (or the chip exposes no tachometer for it). Nothing was saved.",
                )
            }
        },
        (Some(m), Some(x)) => {
            if m == 0 && x == 0 {
                let rpm = number::u64_text(
                    if steps.len() > 0 {
                        steps[0].rpm as u64
                    } else {
                        0
                    },
                );
                let mut s = text::cat3(fan, ": the tachometer reads ", rpm.as_str());
                s.append(
                    " rpm at 0 % duty and never moves with the duty — the reading is probably not from this fan (a shared or stuck tach). Nothing was saved.",
                );
                s
            } else if m == x {
                let at = number::u64_text(m as u64);
                let mut s = text::cat3(fan, ": the tachometer only moves around ", at.as_str());
                s.append(
                    " % duty — the measured range is a single point, too narrow to be useful. Nothing was saved.",
                );
                s
            } else {
                describe_range(fan, m, x, saturated, steps, saved)
            }
        },
        (Some(_), None) => text::cat(fan, ": no usable range could be derived from the sweep."),
    }
}

// ---- the range in the config ----------------------------------------------

/// A duty range moved into 0..=100 % and put in order.
pub open spec fn normalized(min: Option<i64>, max: Option<i64>) -> (Option<int>, Option<int>) {
    let lo = match min {
        Some(v) => Some(quantity::clamped(v as int, 0, FULL as int)),
        None => None,
    };
    let hi = match max {
        Some(v) => Some(quantity::clamped(v as int, 0, FULL as int)),
        None => None,
    };
    if lo is Some && hi is Some && lo->0 > hi->0 {
        (hi, lo)
    } else {
        (lo, hi)
    }
}

/// An optional quantity as an optional integer.
pub open spec fn as_int(v: Option<i64>) -> Option<int> {
    match v {
        Some(x) => Some(x as int),
        None => None,
    }
}

/// Clamp a (possibly hand-edited) duty range into 0..=100 % and order it
/// (`min <= max`).
pub fn normalize(min: Option<i64>, max: Option<i64>) -> (r: (Option<i64>, Option<i64>))
    ensures
        (as_int(r.0), as_int(r.1)) == normalized(min, max),
{
    let lo = match min {
        Some(v) => Some(quantity::clamp(v, 0, FULL)),
        None => None,
    };
    let hi = match max {
        Some(v) => Some(quantity::clamp(v, 0, FULL)),
        None => None,
    };
    match (lo, hi) {
        (Some(l), Some(h)) => {
            if l > h {
                (Some(h), Some(l))
            } else {
                (Some(l), Some(h))
            }
        },
        _ => (lo, hi),
    }
}

// ---- laws -----------------------------------------------------------------

proof fn lemma_first_flat(steps: Seq<SweepStep>, from: nat)
    requires
        from <= steps.len(),
    ensures
        ({
            let i = first_flat(steps, from);
            &&& from <= i <= steps.len()
            &&& i < steps.len() ==> i + 1 < steps.len() && flat(steps, i as int)
            &&& forall|j: int| from <= j < i && j + 1 < steps.len() ==> !#[trigger] flat(steps, j)
        }),
    decreases steps.len() - from,
{
    if from + 1 < steps.len() && !flat(steps, from as int) {
        lemma_first_flat(steps, from + 1);
    }
}

/// A fan that never spins yields no range; one that spins yields both ends of
/// a range, each of them a duty that was applied.
pub proof fn law_derived_range(steps: Seq<SweepStep>)
    ensures
        ({
            let (min, max, saturated) = derived(steps);
            let spins = exists|i: int| 0 <= i < steps.len() && #[trigger] steps[i].rpm > 0;
            &&& min is Some <==> spins
            &&& max is Some <==> spins
            &&& saturated ==> spins
            &&& spins ==> exists|i: int, j: int|
                0 <= i < steps.len() && 0 <= j < steps.len() && #[trigger] steps[i].duty == min->0
                    && steps[i].rpm > 0 && #[trigger] steps[j].duty == max->0
            // Below the start the fan stood still.
            &&& spins ==> exists|i: int|
                0 <= i < steps.len() && #[trigger] steps[i].duty == min->0 && (forall|k: int|
                    0 <= k < i ==> #[trigger] steps[k].rpm == 0)
        }),
{
    lemma_spin_bounds(steps);
    lemma_first_flat(steps, 0);
    let f = first_spin(steps) as int;
    if f < steps.len() {
        assert(steps[f].rpm > 0);
        let t = first_flat(steps, 0) as int;
        let j = if t < steps.len() {
            t
        } else {
            last_spin(steps)
        };
        assert(steps[f].duty == derived(steps).0->0);
        assert(steps[j].duty == derived(steps).1->0);
    }
}

proof fn lemma_spin_bounds(steps: Seq<SweepStep>)
    ensures
        first_spin(steps) <= steps.len(),
        first_spin(steps) < steps.len() ==> steps[first_spin(steps) as int].rpm > 0,
        forall|i: int| 0 <= i < first_spin(steps) ==> #[trigger] steps[i].rpm == 0,
        -1 <= last_spin(steps) < steps.len(),
        last_spin(steps) >= 0 ==> steps[last_spin(steps)].rpm > 0,
        forall|i: int| last_spin(steps) < i < steps.len() ==> #[trigger] steps[i].rpm == 0,
    decreases steps.len(),
{
    if steps.len() > 0 {
        let t = steps.skip(1);
        lemma_spin_bounds(t);
        assert forall|i: int| 0 <= i < first_spin(steps) implies #[trigger] steps[i].rpm == 0 by {
            if i > 0 {
                assert(t[i - 1] == steps[i]);
            }
        }
        let d = steps.drop_last();
        lemma_spin_bounds(d);
        assert forall|i: int| last_spin(steps) < i < steps.len() implies #[trigger] steps[i].rpm
            == 0 by {
            if i < steps.len() - 1 {
                assert(d[i] == steps[i]);
            }
        }
    }
}

/// A trace is saturated just when some beginning of it ends in a stall, and
/// then the top of the range is the duty before the first stall.
pub proof fn law_saturated_means_stalled(steps: Seq<SweepStep>)
    ensures
        derived(steps).2 <==> exists|n: int| 0 <= n <= steps.len() && #[trigger] stall(
            steps.take(n),
        ),
        forall|n: int|
            #![trigger stall(steps.take(n))]
            0 <= n <= steps.len() && stall(steps.take(n)) && (forall|k: int|
                0 <= k < n ==> !#[trigger] stall(steps.take(k))) ==> derived(steps).1 == Some(
                steps[n - 2].duty,
            ),
{
    lemma_first_flat(steps, 0);
    lemma_spin_bounds(steps);
    let t = first_flat(steps, 0) as int;
    assert forall|n: int| 2 <= n <= steps.len() implies #[trigger] stall(steps.take(n)) == flat(
        steps,
        n - 2,
    ) by {
        let p = steps.take(n);
        assert(p[n - 1] == steps[n - 1]);
        assert(p[n - 2] == steps[n - 2]);
    }
    if t < steps.len() {
        assert(stall(steps.take(t + 2)));
    }
    assert forall|n: int|
        #![trigger stall(steps.take(n))]
        0 <= n <= steps.len() && stall(steps.take(n)) && (forall|k: int|
            0 <= k < n ==> !#[trigger] stall(steps.take(k))) implies derived(steps).1 == Some(
        steps[n - 2].duty,
    ) by {
        assert(flat(steps, n - 2));
        assert(t < steps.len());
        assert(stall(steps.take(t + 2)));
        assert(t == n - 2);
    }
}

/// The top of the range is where the speed stops rising: up to it every step
/// with the fan spinning gained speed, and the next one did not. A trace that
/// is not saturated gained speed at every such step.
pub proof fn law_top_ends_the_rise(steps: Seq<SweepStep>)
    ensures
        derived(steps).2 ==> exists|t: int|
            0 <= t < steps.len() - 1 && derived(steps).1 == Some((#[trigger] steps[t]).duty)
                && steps[t + 1].rpm > 0 && !gained(steps, t) && (forall|i: int|
                0 <= i < t && steps[i + 1].rpm > 0 ==> #[trigger] gained(steps, i)),
        !derived(steps).2 && derived(steps).0 is Some ==> forall|i: int|
            0 <= i < steps.len() - 1 && steps[i + 1].rpm > 0 ==> #[trigger] gained(steps, i),
{
    lemma_first_flat(steps, 0);
    lemma_spin_bounds(steps);
    let t = first_flat(steps, 0) as int;
    assert forall|i: int| 0 <= i < t && i < steps.len() - 1 && steps[i + 1].rpm > 0 implies #[trigger] gained(
        steps,
        i,
    ) by {
        assert(!flat(steps, i));
    }
    if derived(steps).2 {
        assert(derived(steps).1 == Some(steps[t].duty));
    }
}

/// A spinning fan that is no faster than a step before has stalled, however
/// much speed it lost.
pub proof fn law_lost_speed_is_a_stall(steps: Seq<SweepStep>)
    requires
        steps.len() >= 2,
        0 < steps.last().rpm <= steps[steps.len() - 2].rpm,
    ensures
        stall(steps),
{
}

/// A normalised range lies within 0..=100 %, is in order, and stays as it is
/// when normalised again.
pub proof fn law_normalized_range(min: Option<i64>, max: Option<i64>)
    ensures
        ({
            let (lo, hi) = normalized(min, max);
            &&& lo is Some ==> 0 <= lo->0 <= FULL
            &&& hi is Some ==> 0 <= hi->0 <= FULL
            &&& lo is Some && hi is Some ==> lo->0 <= hi->0
            &&& forall|l: Option<i64>, h: Option<i64>|
                as_int(l) == lo && as_int(h) == hi ==> #[trigger] normalized(l, h) == (lo, hi)
        }),
{
}

/// A fan has stalled just when, at two steps or more, the last one finds it
/// spinning with a gain of at most 15 rpm or of at most a fiftieth of the
/// speed before.
pub proof fn law_stall_threshold(steps: Seq<SweepStep>)
    ensures
        stall(steps) <==> steps.len() >= 2 && ({
            let a = steps[steps.len() - 2].rpm;
            let b = steps[steps.len() - 1].rpm;
            b > 0 && (b <= a + 15 || 50 * (b - a) <= a)
        }),
{
}

/// The range of a trace starts at the first duty with the fan spinning.
pub proof fn law_range_starts_at_the_first_spin(steps: Seq<SweepStep>, f: int)
    requires
        0 <= f < steps.len(),
        steps[f].rpm > 0,
        forall|i: int| 0 <= i < f ==> (#[trigger] steps[i]).rpm == 0,
    ensures
        derived(steps).0 == Some(steps[f].duty),
{
    lemma_first_spin(steps, f as nat);
}

/// The range ends, and the trace is saturated, at the duty after which the
/// fan first gains no more than 15 rpm or a fiftieth of its speed while it
/// spins.
pub proof fn law_range_ends_at_the_first_stall(steps: Seq<SweepStep>, t: int)
    requires
        0 <= t < steps.len() - 1,
        steps[t + 1].rpm > 0,
        steps[t + 1].rpm <= steps[t].rpm + 15 || 50 * (steps[t + 1].rpm - steps[t].rpm)
            <= steps[t].rpm,
        forall|i: int|
            0 <= i < t && steps[i + 1].rpm > 0 ==> steps[i + 1].rpm > (#[trigger] steps[i]).rpm + 15
                && 50 * (steps[i + 1].rpm - steps[i].rpm) > steps[i].rpm,
    ensures
        derived(steps).1 == Some(steps[t].duty),
        derived(steps).2,
{
    lemma_first_flat(steps, 0);
    lemma_spin_bounds(steps);
    let k = first_flat(steps, 0) as int;
    assert(flat(steps, t));
    assert forall|i: int| 0 <= i < t implies !flat(steps, i) by {
        assert(steps[i].rpm >= 0);
    }
    assert(k == t);
    assert(first_spin(steps) <= t + 1);
}

/// Where the fan gains speed at every step on which it spins, the range ends
/// at the last duty with the fan spinning, and the trace is not saturated.
pub proof fn law_rising_range_ends_at_the_last_spin(steps: Seq<SweepStep>, l: int)
    requires
        0 <= l < steps.len(),
        steps[l].rpm > 0,
        forall|i: int| l < i < steps.len() ==> (#[trigger] steps[i]).rpm == 0,
        forall|i: int|
            0 <= i < steps.len() - 1 && steps[i + 1].rpm > 0 ==> steps[i + 1].rpm > (
            #[trigger] steps[i]).rpm + 15 && 50 * (steps[i + 1].rpm - steps[i].rpm) > steps[i].rpm,
    ensures
        derived(steps).1 == Some(steps[l].duty),
        !derived(steps).2,
{
    lemma_first_flat(steps, 0);
    lemma_spin_bounds(steps);
    lemma_last_spin(steps, l);
    let k = first_flat(steps, 0) as int;
    if k < steps.len() {
        assert(flat(steps, k));
        assert(steps[k].rpm >= 0);
    }
}

/// A trace on which the fan never spins shows no range.
pub proof fn law_no_spin_no_range(steps: Seq<SweepStep>)
    requires
        forall|i: int| 0 <= i < steps.len() ==> (#[trigger] steps[i]).rpm == 0,
    ensures
        derived(steps) == (None::<u8>, None::<u8>, false),
{
    lemma_first_spin(steps, steps.len());
}

/// Just the proper parts of 0..=100 % are worth saving: both ends are known,
/// the upper one is above the lower one, and the range is not the whole span.
pub proof fn law_proper_ranges_are_worth_saving(m: u8, x: u8, a: Option<u8>)
    ensures
        m < x && (m > 0 || x < 100 || x > 100) ==> useful(Some(m), Some(x)),
        m >= x ==> !useful(Some(m), Some(x)),
        !useful(Some(0), Some(100)),
        !useful(None, a) && !useful(a, None),
{
}

/// A range within 0..=100 % and in order is left as it is, one given the
/// wrong way round is turned, and an end beyond 0 % or 100 % is moved there.
pub proof fn law_ranges_are_put_right(min: i64, max: i64)
    ensures
        0 <= min <= max <= 100_000_000_000 ==> normalized(Some(min), Some(max)) == (
            Some(min as int),
            Some(max as int),
        ),
        normalized(Some(max), Some(min)) == normalized(Some(min), Some(max)),
        min <= max && min < 0 ==> normalized(Some(min), Some(max)).0 == Some(0int),
        min <= max && max > 100_000_000_000 ==> normalized(Some(min), Some(max)).1 == Some(
            100_000_000_000int,
        ),
        min <= max && 0 <= min <= 100_000_000_000 ==> normalized(Some(min), Some(max)).0 == Some(
            min as int,
        ),
        min <= max && 0 <= max <= 100_000_000_000 ==> normalized(Some(min), Some(max)).1 == Some(
            max as int,
        ),
        0 <= min <= 100_000_000_000 ==> normalized(Some(min), None) == (Some(min as int), None::<int>)
            && normalized(None, Some(min)) == (None::<int>, Some(min as int)),
        min < 0 ==> normalized(Some(min), None) == (Some(0int), None::<int>) && normalized(
            None,
            Some(min),
        ) == (None::<int>, Some(0int)),
        min > 100_000_000_000 ==> normalized(Some(min), None) == (
            Some(100_000_000_000int),
            None::<int>,
        ) && normalized(None, Some(min)) == (None::<int>, Some(100_000_000_000int)),
        normalized(None, None) == (None::<int>, None::<int>),
{
}

/// The summary of a sweep starts with the fan. Of a range of more than one
/// duty it names both ends; where the range was saved, it ends by saying so
/// with both ends, and otherwise by saying that there was nothing to save.
pub proof fn law_summary_names_the_range(
    fan: Seq<char>,
    m: u8,
    x: u8,
    min: Option<u8>,
    max: Option<u8>,
    saturated: bool,
    steps: Seq<SweepStep>,
    saved: bool,
)
    ensures
        description(fan, min, max, saturated, steps, saved).take(fan.len() as int) == fan,
        m != x ==> ({
            let d = description(fan, Some(m), Some(x), saturated, steps, saved);
            let head = fan + ": the fan spins between "@ + number::decimal(m as nat) + " % and "@
                + number::decimal(x as nat) + " % duty"@;
            let tail = if saved {
                ". Saved duty_min="@ + number::decimal(m as nat) + " / duty_max="@
                    + number::decimal(x as nat) + " in the config — its curve is clamped to that range"@
            } else {
                " (nothing to save: the fan responds across the whole 0–100 % span)"@
            };
            &&& d.len() >= head.len() + tail.len()
            &&& d.take(head.len() as int) == head
            &&& d.skip(d.len() - tail.len()) == tail
        }),
{
    let e = description(fan, min, max, saturated, steps, saved);
    lemma_starts_with_fan(fan, min, max, saturated, steps, saved);
    if m != x {
        let a = number::decimal(m as nat);
        let b = number::decimal(x as nat);
        let head = fan + ": the fan spins between "@ + a + " % and "@ + b + " % duty"@;
        let top = if saturated {
            head + " (it saturates at "@ + b + " % — more duty won't make it faster)"@
        } else {
            head
        };
        let last = number::decimal(steps.last().duty as nat);
        let stopped = if steps.len() > 0 && steps.last().rpm == 0 {
            top + "; it stopped spinning again at "@ + last + " % — check the wiring"@
        } else {
            top
        };
        assert(head.take(head.len() as int) =~= head);
        lemma_longer(head, head, " (it saturates at "@);
        lemma_longer(head, head + " (it saturates at "@, b);
        lemma_longer(
            head,
            head + " (it saturates at "@ + b,
            " % — more duty won't make it faster)"@,
        );
        lemma_longer(head, top, "; it stopped spinning again at "@);
        lemma_longer(head, top + "; it stopped spinning again at "@, last);
        lemma_longer(
            head,
            top + "; it stopped spinning again at "@ + last,
            " % — check the wiring"@,
        );
        let tail = if saved {
            ". Saved duty_min="@ + a + " / duty_max="@ + b
                + " in the config — its curve is clamped to that range"@
        } else {
            " (nothing to save: the fan responds across the whole 0–100 % span)"@
        };
        lemma_tail(
            stopped,
            ". Saved duty_min="@,
            a,
            " / duty_max="@,
            b,
            " in the config — its curve is clamped to that range"@,
        );
        lemma_longer(head, stopped, tail);
        lemma_end(stopped, tail);
    }
}

proof fn lemma_longer(p: Seq<char>, a: Seq<char>, b: Seq<char>)
    requires
        p.len() <= a.len(),
        a.take(p.len() as int) == p,
    ensures
        p.len() <= (a + b).len(),
        (a + b).take(p.len() as int) == p,
{
    assert((a + b).take(p.len() as int) =~= a.take(p.len() as int));
}

proof fn lemma_end(a: Seq<char>, b: Seq<char>)
    ensures
        (a + b).skip((a + b).len() - b.len()) == b,
{
    assert((a + b).skip(a.len() as int) =~= b);
}

proof fn lemma_tail(
    s: Seq<char>,
    a: Seq<char>,
    b: Seq<char>,
    c: Seq<char>,
    d: Seq<char>,
    e: Seq<char>,
)
    ensures
        s + a + b + c + d + e == s + (a + b + c + d + e),
{
    assert(s + a + b + c + d + e =~= s + (a + b + c + d + e));
}

proof fn lemma_starts_with_fan(
    fan: Seq<char>,
    min: Option<u8>,
    max: Option<u8>,
    saturated: bool,
    steps: Seq<SweepStep>,
    saved: bool,
)
    ensures
        description(fan, min, max, saturated, steps, saved).take(fan.len() as int) == fan,
{
    assert(description(fan, min, max, saturated, steps, saved).take(fan.len() as int) =~= fan);
}

/// Where there is no range to speak of, the summary says why, and that nothing
/// was saved: no reading could be taken, the fan never spun, its speed does not
/// follow the duty, or the range is a single duty.
pub proof fn law_summary_without_a_range(
    fan: Seq<char>,
    max: Option<u8>,
    m: u8,
    saturated: bool,
    steps: Seq<SweepStep>,
    saved: bool,
)
    ensures
        steps.len() == 0 ==> description(fan, None, max, saturated, steps, saved) == fan
            + ": the sweep could not take a single reading (a write failed — check the error above) — nothing was saved."@,
        steps.len() > 0 ==> description(fan, None, max, saturated, steps, saved) == fan
            + ": no fan response — the tachometer stayed at 0 rpm through the whole 0–100 % sweep; this channel is probably not connected to a measurable fan (or the chip exposes no tachometer for it). Nothing was saved."@,
        steps.len() > 0 ==> description(fan, Some(0), Some(0), saturated, steps, saved) == fan
            + ": the tachometer reads "@ + number::decimal(steps[0].rpm as nat)
            + " rpm at 0 % duty and never moves with the duty — the reading is probably not from this fan (a shared or stuck tach). Nothing was saved."@,
        m > 0 ==> description(fan, Some(m), Some(m), saturated, steps, saved) == fan
            + ": the tachometer only moves around "@ + number::decimal(m as nat)
            + " % duty — the measured range is a single point, too narrow to be useful. Nothing was saved."@,
{
}

} // verus!
