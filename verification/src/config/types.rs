//! The configuration model.
//!
//! The config describes, per fan (PWM channel): which temperature it follows,
//! the control strategy, the duty curve, and an initial mode. It also lists
//! the temperature sensors the TUI should display.

use vstd::prelude::*;
use crate::curve;
use crate::curve::CurvePoint;
use crate::number;
use crate::text;

verus! {

/// How to combine the readings of several sensors into a single driving value
/// for a fan's curve.
#[derive(Debug, Clone, Copy, PartialEq, Eq, Structural)]
pub enum Aggregation {
    /// Use the hottest reading.
    Max,
    /// Use the average of the readings.
    Avg,
    /// Use the coolest reading.
    Min,
}

impl Default for Aggregation {
    fn default() -> (r: Aggregation)
        ensures
            r == Aggregation::Max,
    {
        Aggregation::Max
    }
}

/// The control strategy a fan is driven by.
#[derive(Debug, Clone, Copy, PartialEq, Eq, Structural)]
pub enum ControlKind {
    /// The duty is computed from the curve and written every tick.
    Curve,
    /// The chip's own auto-algorithm drives the PWM.
    KernelAuto,
}

impl Default for ControlKind {
    fn default() -> (r: ControlKind)
        ensures
            r == ControlKind::Curve,
    {
        ControlKind::Curve
    }
}

/// The initial mode a fan starts in.
#[derive(Debug, Clone, Copy, PartialEq, Eq, Structural)]
pub enum InitialMode {
    /// Follow the configured strategy.
    Auto,
    /// The PWM is switched off.
    Off,
    /// The PWM runs at full speed.
    Full,
}

impl Default for InitialMode {
    fn default() -> (r: InitialMode)
        ensures
            r == InitialMode::Auto,
    {
        InitialMode::Auto
    }
}

/// A reference to a temperature sensor on a given chip.
#[derive(Debug, PartialEq)]
pub struct TempRef {
    /// The hwmon chip name (e.g. `it8792`) or `hwmonN`.
    pub hwmon: String,
    /// The sensor name (e.g. `temp3`).
    pub sensor: String,
}

/// A [`TempRef`] with its text as character sequences.
pub struct TempRefView {
    pub hwmon: Seq<char>,
    pub sensor: Seq<char>,
}

impl View for TempRef {
    type V = TempRefView;

    open spec fn view(&self) -> TempRefView {
        TempRefView { hwmon: self.hwmon@, sensor: self.sensor@ }
    }
}

impl DeepView for TempRef {
    type V = TempRefView;

    open spec fn deep_view(&self) -> TempRefView {
        self.view()
    }
}

impl Clone for TempRef {
    fn clone(&self) -> (r: TempRef)
        ensures
            r@ == self@,
    {
        TempRef { hwmon: self.hwmon.clone(), sensor: self.sensor.clone() }
    }
}

impl TempRefView {
    /// `chip:sensor`.
    pub open spec fn full_name(self) -> Seq<char> {
        self.hwmon + ":"@ + self.sensor
    }
}

impl TempRef {
    pub fn full_name(&self) -> (r: String)
        ensures
            r@ == self@.full_name(),
    {
        text::cat3(self.hwmon.as_str(), ":", self.sensor.as_str())
    }
}

/// A single fan (a PWM channel on a chip).
#[derive(Debug, PartialEq)]
pub struct Pwm {
    /// The PWM channel, e.g. `pwm1`.
    pub id: String,
    /// The hwmon chip that owns this PWM (e.g. `it8792`) or `hwmonN`.
    pub hwmon: String,
    /// A human-friendly label shown in the TUI. Defaults to the PWM id.
    pub name: Option<String>,
    /// The maximum value the PWM accepts (default 255).
    pub pwm_max: u32,
    /// The temperature sensors that drive this fan's curve.
    pub temp_sensors: Vec<TempRef>,
    /// Legacy single-sensor form, accepted for older config files.
    pub temp_sensor: Option<TempRef>,
    /// How the `temp_sensors` readings are combined (default: `max`).
    pub aggregation: Aggregation,
    /// How the fan is driven.
    pub control: ControlKind,
    /// The duty curve.
    pub curve: Vec<CurvePoint>,
    /// The initial mode.
    pub default: InitialMode,
    /// The measured duty range in which the fan responds, if any.
    pub duty_min: Option<i64>,
    pub duty_max: Option<i64>,
}

/// A [`Pwm`] with its text as character sequences.
pub struct PwmView {
    pub id: Seq<char>,
    pub hwmon: Seq<char>,
    pub name: Option<Seq<char>>,
    pub pwm_max: u32,
    pub temp_sensors: Seq<TempRefView>,
    pub temp_sensor: Option<TempRefView>,
    pub aggregation: Aggregation,
    pub control: ControlKind,
    pub curve: Seq<CurvePoint>,
    pub default: InitialMode,
    pub duty_min: Option<i64>,
    pub duty_max: Option<i64>,
}

impl View for Pwm {
    type V = PwmView;

    open spec fn view(&self) -> PwmView {
        PwmView {
            id: self.id@,
            hwmon: self.hwmon@,
            name: self.name.deep_view(),
            pwm_max: self.pwm_max,
            temp_sensors: self.temp_sensors.deep_view(),
            temp_sensor: self.temp_sensor.deep_view(),
            aggregation: self.aggregation,
            control: self.control,
            curve: self.curve@,
            default: self.default,
            duty_min: self.duty_min,
            duty_max: self.duty_max,
        }
    }
}

impl DeepView for Pwm {
    type V = PwmView;

    open spec fn deep_view(&self) -> PwmView {
        self.view()
    }
}

impl Clone for Pwm {
    fn clone(&self) -> (r: Pwm)
        ensures
            r@ == self@,
    {
        let r = Pwm {
            id: self.id.clone(),
            hwmon: self.hwmon.clone(),
            name: self.name.clone(),
            pwm_max: self.pwm_max,
            temp_sensors: self.temp_sensors.clone(),
            temp_sensor: self.temp_sensor.clone(),
            aggregation: self.aggregation,
            control: self.control,
            curve: curve::copy_points(&self.curve),
            default: self.default,
            duty_min: self.duty_min,
            duty_max: self.duty_max,
        };
        assert(r.temp_sensors.deep_view() =~= self.temp_sensors.deep_view());
        r
    }
}

/// The number of the channel `id` (`pwm1` is channel 1).
pub open spec fn channel_of(id: Seq<char>) -> Option<nat> {
    match text::after_prefix(id, "pwm"@) {
        Some(rest) => number::parsed_nat(rest, u32::MAX as nat),
        None => None,
    }
}

/// An optional `u32` as an optional number.
pub open spec fn as_nat(v: Option<u32>) -> Option<nat> {
    match v {
        Some(x) => Some(x as nat),
        None => None,
    }
}

impl PwmView {
    /// The label shown for the fan.
    pub open spec fn display_name(self) -> Seq<char> {
        match self.name {
            Some(n) => n,
            None => self.id,
        }
    }

    /// The sensors that drive the fan's curve: the list, then the single one.
    pub open spec fn driving_sensors(self) -> Seq<TempRefView> {
        match self.temp_sensor {
            Some(s) => self.temp_sensors.push(s),
            None => self.temp_sensors,
        }
    }
}

/// The channel maximum when the config does not name one.
pub fn default_pwm_max() -> (r: u32)
    ensures
        r == 255,
{
    255
}

/// The refresh interval when the config does not name one: 2 s.
pub fn default_refresh() -> (r: i64)
    ensures
        r == 2_000_000_000,
{
    2_000_000_000
}

impl Pwm {
    /// The numeric PWM index (`pwm1` -> `1`).
    pub fn index(&self) -> (r: Option<u32>)
        ensures
            as_nat(r) == channel_of(self@.id),
    {
        match text::strip_prefix(self.id.as_str(), "pwm") {
            Some(rest) => number::parse_u32(rest.as_str()),
            None => None,
        }
    }

    pub fn display_name(&self) -> (r: &str)
        ensures
            r@ == self@.display_name(),
    {
        match &self.name {
            Some(n) => n.as_str(),
            None => self.id.as_str(),
        }
    }

    /// The sensors that drive this fan's curve, merging the (legacy)
    /// single-sensor field with the multi-sensor list.
    pub fn driving_sensors(&self) -> (r: Vec<TempRef>)
        ensures
            r.deep_view() == self@.driving_sensors(),
    {
        let mut v = self.temp_sensors.clone();
        assert(v.deep_view() =~= self.temp_sensors.deep_view());
        let ghost before = v.deep_view();
        match &self.temp_sensor {
            Some(s) => {
                v.push(s.clone());
                assert(v.deep_view() =~= before.push(s@));
            },
            None => {},
        }
        v
    }
}

/// A group of temperature sensors on one chip, for display.
#[derive(Debug, PartialEq)]
pub struct TempSensor {
    /// The hwmon chip name (or `hwmonN`).
    pub hwmon: String,
    /// The sensor names to display (e.g. `["temp1", "temp3"]`).
    pub sensors: Vec<String>,
}

/// A [`TempSensor`] with its text as character sequences.
pub struct TempSensorView {
    pub hwmon: Seq<char>,
    pub sensors: Seq<Seq<char>>,
}

impl View for TempSensor {
    type V = TempSensorView;

    open spec fn view(&self) -> TempSensorView {
        TempSensorView { hwmon: self.hwmon@, sensors: self.sensors.deep_view() }
    }
}

impl DeepView for TempSensor {
    type V = TempSensorView;

    open spec fn deep_view(&self) -> TempSensorView {
        self.view()
    }
}

impl Clone for TempSensor {
    fn clone(&self) -> (r: TempSensor)
        ensures
            r@ == self@,
    {
        let r = TempSensor { hwmon: self.hwmon.clone(), sensors: self.sensors.clone() };
        assert(r.sensors.deep_view() =~= self.sensors.deep_view());
        r
    }
}

impl Default for TempSensor {
    fn default() -> (r: TempSensor)
        ensures
            r@.hwmon == Seq::<char>::empty(),
            r@.sensors == Seq::<Seq<char>>::empty(),
    {
        let r = TempSensor { hwmon: String::new(), sensors: Vec::new() };
        assert(r.sensors.deep_view() =~= Seq::<Seq<char>>::empty());
        r
    }
}

/// The full configuration.
#[derive(Debug, PartialEq)]
pub struct Config {
    /// How often to refresh temperatures and re-evaluate curves, in
    /// nanoseconds.
    pub refresh_secs: i64,
    /// The fans (PWM channels) to control.
    pub pwm: Vec<Pwm>,
    /// The temperature sensors to display.
    pub temp_sensors: Vec<TempSensor>,
    /// Whether to also show the sensors of lm-sensors.
    pub show_lm_sensors: bool,
}

/// A [`Config`] with its text as character sequences.
pub struct ConfigView {
    pub refresh_secs: i64,
    pub pwm: Seq<PwmView>,
    pub temp_sensors: Seq<TempSensorView>,
    pub show_lm_sensors: bool,
}

impl View for Config {
    type V = ConfigView;

    open spec fn view(&self) -> ConfigView {
        ConfigView {
            refresh_secs: self.refresh_secs,
            pwm: self.pwm.deep_view(),
            temp_sensors: self.temp_sensors.deep_view(),
            show_lm_sensors: self.show_lm_sensors,
        }
    }
}

impl DeepView for Config {
    type V = ConfigView;

    open spec fn deep_view(&self) -> ConfigView {
        self.view()
    }
}

impl Clone for Config {
    fn clone(&self) -> (r: Config)
        ensures
            r@ == self@,
    {
        let r = Config {
            refresh_secs: self.refresh_secs,
            pwm: self.pwm.clone(),
            temp_sensors: self.temp_sensors.clone(),
            show_lm_sensors: self.show_lm_sensors,
        };
        assert(r.pwm.deep_view() =~= self.pwm.deep_view());
        assert(r.temp_sensors.deep_view() =~= self.temp_sensors.deep_view());
        r
    }
}

/// The place of the fan `id` in a config: the first with that id, or the
/// number of fans.
pub open spec fn place_of(pwm: Seq<PwmView>, id: Seq<char>) -> nat
    decreases pwm.len(),
{
    if pwm.len() == 0 || pwm[0].id == id {
        0
    } else {
        1 + place_of(pwm.skip(1), id)
    }
}

pub proof fn lemma_place_of(pwm: Seq<PwmView>, id: Seq<char>)
    ensures
        place_of(pwm, id) <= pwm.len(),
        place_of(pwm, id) < pwm.len() ==> pwm[place_of(pwm, id) as int].id == id,
        forall|i: int| 0 <= i < place_of(pwm, id) ==> (#[trigger] pwm[i]).id != id,
    decreases pwm.len(),
{
    if pwm.len() > 0 && pwm[0].id != id {
        let t = pwm.skip(1);
        lemma_place_of(t, id);
        assert forall|i: int| 0 <= i < place_of(pwm, id) implies (#[trigger] pwm[i]).id != id by {
            if i > 0 {
                assert(t[i - 1] == pwm[i]);
            }
        }
    }
}

/// The place of the fan `id` in the config, or the number of fans.
pub fn find_pwm(pwm: &Vec<Pwm>, id: &str) -> (r: usize)
    ensures
        r == place_of(pwm.deep_view(), id@),
        r <= pwm@.len(),
{
    let mut i: usize = 0;
    while i < pwm.len() && !text::str_eq(pwm[i].id.as_str(), id)
        invariant
            i <= pwm@.len(),
            forall|j: int| 0 <= j < i ==> (#[trigger] pwm.deep_view()[j]).id != id@,
        decreases pwm@.len() - i,
    {
        assert(pwm.deep_view()[i as int].id == pwm@[i as int].id@);
        i += 1;
    }
    proof {
        let s = pwm.deep_view();
        lemma_place_of(s, id@);
        let f = place_of(s, id@) as int;
        if f < i {
            assert(s[f].id != id@);
        } else if i < f {
            assert(s[i as int].id != id@);
        }
    }
    i
}

} // verus!
