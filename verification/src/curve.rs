//! The control curve of a fan: a piecewise-linear map from a temperature to a
//! duty.

use vstd::prelude::*;
use crate::order;
use crate::quantity;
use crate::quantity::{FULL, UNIT};
use crate::text;

verus! {

/// A single point on the control curve.
#[derive(Debug, Clone, Copy, PartialEq, Eq, Structural)]
pub struct CurvePoint {
    /// The temperature, in billionths of a degree Celsius.
    pub temp: i64,
    /// The fan duty, in billionths of a percent.
    pub duty: i64,
}

impl CurvePoint {
    pub fn new(temp: i64, duty: i64) -> (r: CurvePoint)
        ensures
            r == (CurvePoint { temp, duty }),
    {
        CurvePoint { temp, duty }
    }

    /// The point written as a `[temp, duty]` pair: the first two elements of
    /// the sequence, if it has them.
    pub fn from_pair(first: Option<i64>, second: Option<i64>) -> (r: Result<CurvePoint, String>)
        ensures
            r is Ok <==> first is Some && second is Some,
            r matches Ok(p) ==> p == (CurvePoint { temp: first->0, duty: second->0 }),
            r matches Err(e) ==> e@ == "expected a [temp, duty] pair"@,
    {
        match (first, second) {
            (Some(temp), Some(duty)) => Ok(CurvePoint { temp, duty }),
            _ => Err(text::owned("expected a [temp, duty] pair")),
        }
    }
}

/// A field of a curve point in its mapping form.
#[derive(Debug, Clone, Copy, PartialEq, Eq, Structural)]
pub enum PointField {
    Temp,
    Duty,
}

/// The field a mapping key stands for, if it is one of the two.
pub open spec fn field_of(key: Seq<char>) -> Option<PointField> {
    if key == "temp"@ {
        Some(PointField::Temp)
    } else if key == "duty"@ {
        Some(PointField::Duty)
    } else {
        None
    }
}

impl PointField {
    /// The field named by `key`; any other key is to be skipped with its
    /// value.
    pub fn of(key: &str) -> (r: Option<PointField>)
        ensures
            r == field_of(key@),
    {
        if text::str_eq(key, "temp") {
            Some(PointField::Temp)
        } else if text::str_eq(key, "duty") {
            Some(PointField::Duty)
        } else {
            None
        }
    }
}

/// A curve point while its mapping form is being read.
#[derive(Debug, Clone, Copy, PartialEq, Eq, Structural)]
pub struct PointDraft {
    pub temp: Option<i64>,
    pub duty: Option<i64>,
}

impl PointDraft {
    pub fn new() -> (r: PointDraft)
        ensures
            r == (PointDraft { temp: None, duty: None }),
    {
        PointDraft { temp: None, duty: None }
    }

    /// Take the value of a field; a later value replaces an earlier one.
    pub fn set(&mut self, field: PointField, value: i64)
        ensures
            *final(self) == (match field {
                PointField::Temp => PointDraft { temp: Some(value), ..*old(self) },
                PointField::Duty => PointDraft { duty: Some(value), ..*old(self) },
            }),
    {
        match field {
            PointField::Temp => {
                self.temp = Some(value);
            },
            PointField::Duty => {
                self.duty = Some(value);
            },
        }
    }

    /// The finished point, or the first field that is missing.
    pub fn finish(self) -> (r: Result<CurvePoint, PointField>)
        ensures
            r == (match (self.temp, self.duty) {
                (None, _) => Err(PointField::Temp),
                (Some(_), None) => Err(PointField::Duty),
                (Some(temp), Some(duty)) => Ok(CurvePoint { temp, duty }),
            }),
    {
        match (self.temp, self.duty) {
            (None, _) => Err(PointField::Temp),
            (Some(_), None) => Err(PointField::Duty),
            (Some(temp), Some(duty)) => Ok(CurvePoint { temp, duty }),
        }
    }
}

/// The control curve for a single fan.
#[derive(Debug)]
pub struct Curve {
    /// Points sorted by `temp` ascending.
    pub points: Vec<CurvePoint>,
}

impl View for Curve {
    type V = Seq<CurvePoint>;

    open spec fn view(&self) -> Seq<CurvePoint> {
        self.points@
    }
}

impl DeepView for Curve {
    type V = Seq<CurvePoint>;

    open spec fn deep_view(&self) -> Seq<CurvePoint> {
        self.points@
    }
}

impl Clone for Curve {
    fn clone(&self) -> (r: Curve)
        ensures
            r@ == self@,
    {
        Curve { points: copy_points(&self.points) }
    }
}

impl Default for Curve {
    fn default() -> (r: Curve)
        ensures
            r@ == Seq::<CurvePoint>::empty(),
    {
        Curve { points: Vec::new() }
    }
}

/// The order of the points of a curve: by temperature.
pub open spec fn by_temp() -> spec_fn(CurvePoint, CurvePoint) -> bool {
    |a: CurvePoint, b: CurvePoint| a.temp <= b.temp
}

/// The first segment from `from` on whose ends enclose `temp`; the number of
/// points when there is none.
pub open spec fn segment(p: Seq<CurvePoint>, temp: int, from: nat) -> nat
    decreases p.len() - from,
{
    if from + 1 >= p.len() {
        p.len()
    } else if p[from as int].temp <= temp <= p[from as int + 1].temp {
        from
    } else {
        segment(p, temp, from + 1)
    }
}

/// The duty at `temp` on the line from `a` to `b`, to the nearest billionth.
pub open spec fn on_line(a: CurvePoint, b: CurvePoint, temp: int) -> int {
    a.duty + quantity::rounded((temp - a.temp) * (b.duty - a.duty), b.temp - a.temp)
}

/// The duty a curve gives at a temperature.
pub open spec fn duty_at(p: Seq<CurvePoint>, temp: int) -> int {
    if p.len() == 0 {
        50 * UNIT
    } else if temp <= p.first().temp {
        quantity::clamped(p.first().duty as int, 0, FULL as int)
    } else if temp >= p.last().temp {
        quantity::clamped(p.last().duty as int, 0, FULL as int)
    } else {
        let i = segment(p, temp, 0) as int;
        if i >= p.len() {
            quantity::clamped(p.last().duty as int, 0, FULL as int)
        } else if p[i].temp == p[i + 1].temp {
            quantity::clamped(p[i + 1].duty as int, 0, FULL as int)
        } else {
            quantity::clamped(on_line(p[i], p[i + 1], temp), 0, FULL as int)
        }
    }
}

pub fn copy_points(points: &Vec<CurvePoint>) -> (r: Vec<CurvePoint>)
    ensures
        r@ == points@,
{
    let mut r: Vec<CurvePoint> = Vec::new();
    for i in 0..points.len()
        invariant
            r@ == points@.take(i as int),
    {
        r.push(points[i]);
        assert(points@.take(i + 1) =~= points@.take(i as int).push(points@[i as int]));
    }
    assert(points@.take(points@.len() as int) =~= points@);
    r
}

/// The line from `a` to `b` at `temp`, clamped to a duty.
fn line_duty(a: CurvePoint, b: CurvePoint, temp: i64) -> (r: i64)
    requires
        a.temp <= temp <= b.temp,
        a.temp < b.temp,
    ensures
        r == quantity::clamped(on_line(a, b, temp as int), 0, FULL as int),
{
    let run: u128 = ((temp as i128) - (a.temp as i128)) as u128;
    let span: u128 = ((b.temp as i128) - (a.temp as i128)) as u128;
    let rising = b.duty >= a.duty;
    let rise: u128 = if rising {
        ((b.duty as i128) - (a.duty as i128)) as u128
    } else {
        ((a.duty as i128) - (b.duty as i128)) as u128
    };
    proof {
        assert(run * rise <= 0xffff_ffff_ffff_ffff * 0xffff_ffff_ffff_ffff) by (nonlinear_arith)
            requires
                run <= 0xffff_ffff_ffff_ffff,
                rise <= 0xffff_ffff_ffff_ffff,
        ;
    }
    let x: u128 = run * rise;
    let q: u128 = x / span;
    let m: u128 = x % span;
    proof {
        assert(q <= rise) by (nonlinear_arith)
            requires
                q == (run * rise) / (span as int),
                run <= span,
                span > 0,
        ;
        quantity::lemma_rounded_parts(x as int, span as int);
        assert(!rising ==> (temp - a.temp) * (b.duty - a.duty) == -(x as int)) by (nonlinear_arith)
            requires
                x == run * rise,
                run == temp - a.temp,
                !rising ==> rise == a.duty - b.duty,
        ;
    }
    let duty: i128 = if rising {
        let up: i128 = if m >= span - m {
            1
        } else {
            0
        };
        (a.duty as i128) + (q as i128) + up
    } else {
        let up: i128 = if m > span - m {
            1
        } else {
            0
        };
        (a.duty as i128) - (q as i128) - up
    };
    assert(duty == on_line(a, b, temp as int));
    if duty < 0 {
        0
    } else if duty > FULL as i128 {
        FULL
    } else {
        duty as i64
    }
}

impl Curve {
    /// The curve through `points`, put in order of temperature.
    pub fn new(points: Vec<CurvePoint>) -> (r: Curve)
        ensures
            r@ == order::sorted_by(points@, by_temp()),
    {
        let mut out: Vec<CurvePoint> = Vec::new();
        let mut i: usize = 0;
        assert(points@.take(0) =~= Seq::<CurvePoint>::empty());
        while i < points.len()
            invariant
                i <= points@.len(),
                out@ == order::sorted_by(points@.take(i as int), by_temp()),
            decreases points@.len() - i,
        {
            let p = points[i];
            let mut at: usize = out.len();
            while at > 0 && out[at - 1].temp > p.temp
                invariant
                    at <= out@.len(),
                    forall|j: int| at <= j < out@.len() ==> #[trigger] out@[j].temp > p.temp,
                decreases at,
            {
                at -= 1;
            }
            proof {
                order::lemma_placed_at(out@, by_temp(), p, at as int);
                assert(points@.take(i + 1).drop_last() =~= points@.take(i as int));
            }
            out.insert(at, p);
            i += 1;
        }
        assert(points@.take(i as int) =~= points@);
        Curve { points: out }
    }

    pub fn is_empty(&self) -> (r: bool)
        ensures
            r == (self@.len() == 0),
    {
        self.points.len() == 0
    }

    /// Evaluate the curve at `temp`, returning a duty. An empty curve gives
    /// 50 %.
    pub fn evaluate(&self, temp: i64) -> (r: i64)
        ensures
            r == duty_at(self@, temp as int),
    {
        let n = self.points.len();
        if n == 0 {
            return 50 * UNIT;
        }
        let first = self.points[0];
        if temp <= first.temp {
            return quantity::clamp(first.duty, 0, FULL);
        }
        let last = self.points[n - 1];
        if temp >= last.temp {
            return quantity::clamp(last.duty, 0, FULL);
        }
        let mut i: usize = 0;
        while i < n - 1
            invariant
                0 < n == self.points@.len(),
                i <= n - 1,
                segment(self@, temp as int, 0) == segment(self@, temp as int, i as nat),
                temp > self@.first().temp,
                temp < self@.last().temp,
            decreases n - i,
        {
            let a = self.points[i];
            let b = self.points[i + 1];
            if temp >= a.temp && temp <= b.temp {
                if a.temp == b.temp {
                    return quantity::clamp(b.duty, 0, FULL);
                }
                return line_duty(a, b, temp);
            }
            i += 1;
        }
        quantity::clamp(last.duty, 0, FULL)
    }
}

// ---- laws -----------------------------------------------------------------

pub open spec fn sorted(p: Seq<CurvePoint>) -> bool {
    forall|i: int, j: int| 0 <= i < j < p.len() ==> #[trigger] p[i].temp <= #[trigger] p[j].temp
}

/// Duties that never fall as the temperature rises.
pub open spec fn rising(p: Seq<CurvePoint>) -> bool {
    forall|i: int, j: int| 0 <= i < j < p.len() ==> #[trigger] p[i].duty <= #[trigger] p[j].duty
}

/// A new curve holds the given points in order of temperature, and points of
/// the same temperature in the order they were given.
pub proof fn law_new_curve_is_sorted(points: Seq<CurvePoint>)
    ensures
        sorted(order::sorted_by(points, by_temp())),
        order::sorted_by(points, by_temp()).to_multiset() == points.to_multiset(),
        forall|q: CurvePoint| #[trigger]
            order::sorted_by(points, by_temp()).filter(order::same_rank(by_temp(), q))
                == points.filter(order::same_rank(by_temp(), q)),
{
    let r = order::sorted_by(points, by_temp());
    order::law_sorted_by(points, by_temp());
    assert forall|i: int, j: int| 0 <= i < j < r.len() implies #[trigger] r[i].temp
        <= #[trigger] r[j].temp by {
        assert(by_temp()(r[i], r[j]));
    }
}

/// Points that are in order already are left where they are.
pub proof fn law_sorted_points_stay(points: Seq<CurvePoint>)
    requires
        sorted(points),
    ensures
        order::sorted_by(points, by_temp()) == points,
    decreases points.len(),
{
    if points.len() > 0 {
        let t = points.drop_last();
        assert(sorted(t)) by {
            assert forall|i: int, j: int| 0 <= i < j < t.len() implies #[trigger] t[i].temp
                <= #[trigger] t[j].temp by {
                assert(points[i].temp <= points[j].temp);
            }
        }
        law_sorted_points_stay(t);
        if t.len() > 0 {
            assert(points[t.len() - 1].temp <= points[points.len() - 1].temp);
        }
        assert(t.push(points.last()) =~= points);
    }
}

/// Between the ends of a sorted curve there is a segment, and it has a length.
proof fn lemma_segment(p: Seq<CurvePoint>, temp: int, from: nat)
    requires
        sorted(p),
        from < p.len(),
        p[from as int].temp < temp < p.last().temp,
    ensures
        ({
            let i = segment(p, temp, from) as int;
            &&& from <= i < p.len() - 1
            &&& p[i].temp < temp <= p[i + 1].temp
        }),
    decreases p.len() - from,
{
    let n = from as int;
    assert(n + 1 < p.len());
    if !(temp <= p[n + 1].temp) {
        lemma_segment(p, temp, from + 1);
    }
}

/// A duty on a line lies between the duties at its ends.
proof fn lemma_on_line(a: CurvePoint, b: CurvePoint, temp: int)
    requires
        a.temp < b.temp,
        a.temp <= temp <= b.temp,
        a.duty <= b.duty,
    ensures
        a.duty <= on_line(a, b, temp) <= b.duty,
{
    let run = temp - a.temp;
    let span = b.temp - a.temp;
    let rise = b.duty - a.duty;
    assert(0 <= run * rise <= rise * span) by (nonlinear_arith)
        requires
            0 <= run <= span,
            0 <= rise,
    ;
    quantity::lemma_rounded_monotonic(0, run * rise, span);
    quantity::lemma_rounded_monotonic(run * rise, rise * span, span);
    quantity::lemma_rounded_exact(0, span);
    quantity::lemma_rounded_exact(rise, span);
    assert(0 * span == 0) by (nonlinear_arith);
}

/// Whatever the points and the temperature, a curve asks for a duty of 0 to
/// 100 %.
pub proof fn law_duty_in_range(p: Seq<CurvePoint>, temp: int)
    ensures
        0 <= duty_at(p, temp) <= FULL,
{
}

/// At a point of the curve with a temperature of its own, the duty is the
/// point's.
pub proof fn law_curve_passes_through_its_points(p: Seq<CurvePoint>, k: int)
    requires
        sorted(p),
        0 <= k < p.len(),
        forall|i: int| 0 <= i < p.len() && i != k ==> #[trigger] p[i].temp != p[k].temp,
    ensures
        duty_at(p, p[k].temp as int) == quantity::clamped(p[k].duty as int, 0, FULL as int),
{
    let temp = p[k].temp as int;
    assert(k > 0 ==> p[0].temp < p[k].temp);
    assert(k < p.len() - 1 ==> p[k].temp < p[p.len() - 1].temp);
    if 0 < k < p.len() - 1 {
        lemma_segment(p, temp, 0);
        let i = segment(p, temp, 0) as int;
        if i + 1 < k {
            assert(p[i + 1].temp <= p[k].temp);
            assert(p[i + 1].temp != p[k].temp);
        } else if i + 1 > k {
            assert(i < k || p[k].temp <= p[i].temp);
        }
        assert(i + 1 == k);
        let span = p[k].temp - p[i].temp;
        let rise = p[k].duty - p[i].duty;
        assert(span * rise == rise * span) by (nonlinear_arith);
        quantity::lemma_rounded_exact(rise, span);
    }
}

/// If the points' duties never fall as the temperature rises, neither does
/// the duty the curve asks for.
pub proof fn law_rising_curve_is_monotonic(p: Seq<CurvePoint>, cool: int, hot: int)
    requires
        sorted(p),
        rising(p),
        cool <= hot,
    ensures
        duty_at(p, cool) <= duty_at(p, hot),
{
    if p.len() > 0 {
        let n = p.len() - 1;
        assert(forall|i: int| 0 <= i < n ==> #[trigger] p[i].duty <= p[n].duty);
        assert(forall|i: int| 0 < i <= n ==> p[0].duty <= #[trigger] p[i].duty);
        let inner = |t: int| p.first().temp < t < p.last().temp;
        if inner(cool) {
            lemma_segment(p, cool, 0);
            let i = segment(p, cool, 0) as int;
            assert(p[i].duty <= p[i + 1].duty);
            lemma_on_line(p[i], p[i + 1], cool);
            if inner(hot) {
                lemma_segment(p, hot, 0);
                let j = segment(p, hot, 0) as int;
                assert(p[j].duty <= p[j + 1].duty);
                lemma_on_line(p[j], p[j + 1], hot);
                if i == j {
                    let span = p[i + 1].temp - p[i].temp;
                    let rise = p[i + 1].duty - p[i].duty;
                    assert((cool - p[i].temp) * rise <= (hot - p[i].temp) * rise) by (
                        nonlinear_arith)
                        requires
                            cool <= hot,
                            rise >= 0,
                    ;
                    quantity::lemma_rounded_monotonic(
                        (cool - p[i].temp) * rise,
                        (hot - p[i].temp) * rise,
                        span,
                    );
                } else if i < j {
                    if i + 1 < j {
                        assert(p[i + 1].duty <= p[j].duty);
                    }
                } else {
                    if j + 1 < i {
                        assert(p[j + 1].temp <= p[i].temp);
                    }
                    assert(false);
                }
            }
        } else if inner(hot) {
            lemma_segment(p, hot, 0);
            let j = segment(p, hot, 0) as int;
            assert(p[j].duty <= p[j + 1].duty);
            lemma_on_line(p[j], p[j + 1], hot);
        }
    }
}

/// The segment that is taken is the first one that encloses the temperature.
proof fn lemma_first_segment(p: Seq<CurvePoint>, temp: int, from: nat, i: int)
    requires
        from <= i < p.len() - 1,
        p[i].temp <= temp <= p[i + 1].temp,
        forall|j: int| from <= j < i ==> !((#[trigger] p[j]).temp <= temp <= p[j + 1].temp),
    ensures
        segment(p, temp, from) == i,
    decreases i - from,
{
    if from < i {
        let f = from as int;
        assert(!(p[f].temp <= temp <= p[f + 1].temp));
        lemma_first_segment(p, temp, from + 1, i);
    }
}

/// The straight line between two points, rounded to the nearest billionth (a
/// tie upwards) and held to 0..=100 %.
proof fn lemma_line(a: CurvePoint, b: CurvePoint, temp: int)
    requires
        a.temp < b.temp,
        a.temp <= temp <= b.temp,
    ensures
        ({
            let d = quantity::clamped(on_line(a, b, temp), 0, FULL as int);
            let span = b.temp - a.temp;
            let x = a.duty * span + (temp - a.temp) * (b.duty - a.duty);
            &&& 0 <= x <= 100_000_000_000 * span ==> 2 * (d * span) <= 2 * x + span < 2 * (d * span)
                + 2 * span
            &&& x < 0 ==> d == 0
            &&& x > 100_000_000_000 * span ==> d == 100_000_000_000
        }),
{
    let span = b.temp - a.temp;
    let y = (temp - a.temp) * (b.duty - a.duty);
    let q = quantity::rounded(y, span);
    quantity::lemma_rounded(y, span);
    let v = a.duty + q;
    let x = a.duty * span + y;
    assert(2 * (v * span) <= 2 * x + span < 2 * (v * span) + 2 * span) by (nonlinear_arith)
        requires
            2 * span * q <= 2 * y + span < 2 * span * (q + 1),
            v == a.duty + q,
            x == a.duty * span + y,
    ;
    if x < 0 {
        assert(v <= 0) by (nonlinear_arith)
            requires
                2 * (v * span) <= 2 * x + span,
                x < 0,
                span > 0,
        ;
    } else if x > 100_000_000_000 * span {
        assert(v >= 100_000_000_000) by (nonlinear_arith)
            requires
                2 * x + span < 2 * (v * span) + 2 * span,
                x > 100_000_000_000 * span,
                span > 0,
        ;
    } else {
        assert(0 <= v <= 100_000_000_000) by (nonlinear_arith)
            requires
                2 * (v * span) <= 2 * x + span < 2 * (v * span) + 2 * span,
                0 <= x <= 100_000_000_000 * span,
                span > 0,
        ;
    }
}

/// Between its ends a curve is made of straight lines. With the first pair of
/// neighbouring points whose temperatures enclose the temperature, the duty is
/// the one at that temperature on the line through them, to the nearest
/// billionth of a percent, and held to 0..=100 %. Where the two points share
/// their temperature, it is the duty of the second.
pub proof fn law_duty_is_interpolated(p: Seq<CurvePoint>, temp: int, i: int)
    requires
        0 <= i < p.len() - 1,
        p[0].temp < temp < p[p.len() - 1].temp,
        p[i].temp <= temp <= p[i + 1].temp,
        forall|j: int| 0 <= j < i ==> !((#[trigger] p[j]).temp <= temp <= p[j + 1].temp),
    ensures
        ({
            let d = duty_at(p, temp);
            let span = p[i + 1].temp - p[i].temp;
            let x = p[i].duty * span + (temp - p[i].temp) * (p[i + 1].duty - p[i].duty);
            if span > 0 {
                &&& 0 <= x <= 100_000_000_000 * span ==> 2 * (d * span) <= 2 * x + span < 2 * (d
                    * span) + 2 * span
                &&& x < 0 ==> d == 0
                &&& x > 100_000_000_000 * span ==> d == 100_000_000_000
            } else {
                &&& 0 <= p[i + 1].duty <= 100_000_000_000 ==> d == p[i + 1].duty
                &&& p[i + 1].duty < 0 ==> d == 0
                &&& p[i + 1].duty > 100_000_000_000 ==> d == 100_000_000_000
            }
        }),
{
    lemma_first_segment(p, temp, 0, i);
    if p[i].temp < p[i + 1].temp {
        lemma_line(p[i], p[i + 1], temp);
    }
}

/// Between two neighbouring points of a sorted curve the duty lies on the
/// straight line through them, to within half a billionth of a percent.
pub proof fn law_duty_lies_on_the_line(p: Seq<CurvePoint>, i: int, temp: int)
    requires
        forall|a: int, b: int|
            0 <= a < b < p.len() ==> (#[trigger] p[a]).temp <= (#[trigger] p[b]).temp,
        0 <= i < p.len() - 1,
        p[i].temp < p[i + 1].temp,
        p[i].temp <= temp <= p[i + 1].temp,
        forall|j: int| 0 <= j < p.len() && (#[trigger] p[j]).temp == temp ==> j == i || j == i + 1,
        0 <= p[i].duty <= 100_000_000_000,
        0 <= p[i + 1].duty <= 100_000_000_000,
    ensures
        ({
            let span = p[i + 1].temp - p[i].temp;
            let off = (duty_at(p, temp) - p[i].duty) * span - (temp - p[i].temp) * (p[i + 1].duty
                - p[i].duty);
            -span <= 2 * off <= span
        }),
{
    let n = p.len() - 1;
    let span = p[i + 1].temp - p[i].temp;
    let rise = p[i + 1].duty - p[i].duty;
    let d = duty_at(p, temp);
    if temp == p[i].temp {
        assert(i > 0 ==> p[i - 1].temp <= p[i].temp && p[i - 1].temp != temp);
        assert forall|j: int| 0 <= j < p.len() && j != i implies (#[trigger] p[j]).temp
            != p[i].temp by {
            if j == i + 1 {
            } else {
                assert(p[j].temp != temp);
            }
        }
        law_curve_passes_through_its_points(p, i);
        assert(d == p[i].duty);
        assert((d - p[i].duty) * span == 0 && (temp - p[i].temp) * rise == 0) by (nonlinear_arith)
            requires
                d == p[i].duty,
                temp == p[i].temp,
        ;
    } else if temp == p[i + 1].temp {
        assert forall|j: int| 0 <= j < p.len() && j != i + 1 implies (#[trigger] p[j]).temp != p[i
            + 1].temp by {
            if j != i {
                assert(p[j].temp != temp);
            }
        }
        law_curve_passes_through_its_points(p, i + 1);
        assert(d == p[i + 1].duty);
        assert((d - p[i].duty) * span == (temp - p[i].temp) * rise) by (nonlinear_arith)
            requires
                d - p[i].duty == rise,
                temp - p[i].temp == span,
        ;
    } else {
        assert(p[0].temp <= p[i].temp) by {
            if i > 0 {
                assert(p[0].temp <= p[i].temp);
            }
        }
        assert(p[i + 1].temp <= p[n].temp) by {
            if i + 1 < n {
                assert(p[i + 1].temp <= p[n].temp);
            }
        }
        assert forall|j: int| 0 <= j < i implies !((#[trigger] p[j]).temp <= temp <= p[j
            + 1].temp) by {
            if j + 1 < i {
                assert(p[j + 1].temp <= p[i].temp);
            }
        }
        law_duty_is_interpolated(p, temp, i);
        let run = temp - p[i].temp;
        let x = p[i].duty * span + run * rise;
        assert(0 <= x <= 100_000_000_000 * span) by (nonlinear_arith)
            requires
                x == p[i].duty * span + run * rise,
                0 <= run <= span,
                rise == p[i + 1].duty - p[i].duty,
                0 <= p[i].duty <= 100_000_000_000,
                0 <= p[i + 1].duty <= 100_000_000_000,
        {
            let a = p[i].duty as int;
            let b = p[i + 1].duty as int;
            assert(x == a * (span - run) + b * run);
            assert(a * (span - run) >= 0 && b * run >= 0);
            assert(a * (span - run) <= 100_000_000_000 * (span - run));
            assert(b * run <= 100_000_000_000 * run);
        }
        assert((d - p[i].duty) * span == d * span - p[i].duty * span) by (nonlinear_arith);
    }
}

/// Outside its points a curve is level: below the first point the duty is the
/// first one's, above the last point the last one's, held to 0..=100 %. With
/// no points it is 50 %.
pub proof fn law_curve_is_level_outside(p: Seq<CurvePoint>, temp: int)
    ensures
        p.len() == 0 ==> duty_at(p, temp) == 50_000_000_000,
        p.len() > 0 && (temp <= p[0].temp || temp >= p[p.len() - 1].temp) ==> ({
            let d = if temp <= p[0].temp {
                p[0].duty
            } else {
                p[p.len() - 1].duty
            };
            &&& 0 <= d <= 100_000_000_000 ==> duty_at(p, temp) == d
            &&& d < 0 ==> duty_at(p, temp) == 0
            &&& d > 100_000_000_000 ==> duty_at(p, temp) == 100_000_000_000
        }),
{
}

/// A new curve holds just the given points, by rising temperature; of points
/// that share a temperature the order stays.
pub proof fn law_new_curve_orders_by_temperature(points: Seq<CurvePoint>, i: int, j: int, temp: i64)
    requires
        0 <= i < j < points.len(),
    ensures
        ({
            let r = order::sorted_by(points, by_temp());
            &&& r.len() == points.len()
            &&& r.to_multiset() == points.to_multiset()
            &&& r[i].temp <= r[j].temp
            &&& r.filter(|c: CurvePoint| c.temp == temp) == points.filter(
                |c: CurvePoint| c.temp == temp,
            )
        }),
{
    let r = order::sorted_by(points, by_temp());
    let q = CurvePoint { temp, duty: 0 };
    order::law_sorted_by(points, by_temp());
    assert(by_temp()(r[i], r[j]));
    assert(order::same_rank(by_temp(), q) =~= (|c: CurvePoint| c.temp == temp));
    assert(r.filter(order::same_rank(by_temp(), q)) == points.filter(
        order::same_rank(by_temp(), q),
    ));
    r.to_multiset_ensures();
    points.to_multiset_ensures();
}

/// A key of a point's mapping form names the temperature or the duty, and no
/// other key names either.
pub proof fn law_point_keys(key: Seq<char>)
    ensures
        field_of(key) == Some(PointField::Temp) <==> key == "temp"@,
        field_of(key) == Some(PointField::Duty) <==> key == "duty"@,
        field_of(key) is None <==> key != "temp"@ && key != "duty"@,
{
    reveal_strlit("temp");
    reveal_strlit("duty");
    assert("temp"@[0] == 't' && "duty"@[0] == 'd');
}

} // verus!
