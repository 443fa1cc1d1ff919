//! Build a default [`Config`] from a picture of the live hwmon tree, so a
//! first run produces a sensible starting point for the user to tune.

use vstd::prelude::*;
use crate::config::types;
use crate::config::types::{
    Aggregation, Config, ConfigView, ControlKind, InitialMode, Pwm, PwmView, TempRef, TempRefView,
    TempSensor, TempSensorView,
};
use crate::curve::CurvePoint;
use crate::hwmon;
use crate::hwmon::{Hwmon, HwmonView, Sysfs, SysfsView};
use crate::number;
use crate::quantity::FULL;
use crate::text;

verus! {

/// A reasonable per-fan curve to seed a generated config from.
pub open spec fn seed_curve() -> Seq<CurvePoint> {
    seq![
        CurvePoint { temp: 30_000_000_000, duty: 0 },
        CurvePoint { temp: 45_000_000_000, duty: 40_000_000_000 },
        CurvePoint { temp: 60_000_000_000, duty: 75_000_000_000 },
        CurvePoint { temp: 75_000_000_000, duty: FULL },
    ]
}

fn default_curve() -> (r: Vec<CurvePoint>)
    ensures
        r@ == seed_curve(),
{
    let mut out: Vec<CurvePoint> = Vec::new();
    out.push(CurvePoint::new(30_000_000_000, 0));
    out.push(CurvePoint::new(45_000_000_000, 40_000_000_000));
    out.push(CurvePoint::new(60_000_000_000, 75_000_000_000));
    out.push(CurvePoint::new(75_000_000_000, FULL));
    assert(out@ =~= seed_curve());
    out
}

/// How a config refers to a chip: by its name, or by its directory when
/// several chips share the name.
pub open spec fn chip_ref(chips: Seq<HwmonView>, c: HwmonView) -> Seq<char> {
    if hwmon::name_count(chips, c.name) == 1 {
        c.name
    } else {
        c.dir
    }
}

/// The temperature sensors among `numbers` that report a reading.
pub open spec fn live_sensors(fs: SysfsView, dir: Seq<char>, numbers: Seq<u32>) -> Seq<Seq<char>>
    decreases numbers.len(),
{
    if numbers.len() == 0 {
        Seq::empty()
    } else {
        let rest = live_sensors(fs, dir, numbers.drop_last());
        let name = "temp"@ + number::decimal(numbers.last() as nat);
        if hwmon::int_reading(fs, dir, name + "_input"@) is Some {
            rest.push(name)
        } else {
            rest
        }
    }
}

/// The sensor that the fans of a chip follow: its first one, or `temp1`.
pub open spec fn followed(temps: Seq<u32>) -> Seq<char> {
    if temps.len() > 0 {
        "temp"@ + number::decimal(temps[0] as nat)
    } else {
        "temp1"@
    }
}

/// The entry for channel `n` of a chip.
pub open spec fn seed_fan(reference: Seq<char>, sensor: Seq<char>, n: u32) -> PwmView {
    PwmView {
        id: "pwm"@ + number::decimal(n as nat),
        hwmon: reference,
        name: None,
        pwm_max: 255,
        temp_sensors: seq![TempRefView { hwmon: reference, sensor }],
        temp_sensor: None,
        aggregation: Aggregation::Max,
        control: ControlKind::Curve,
        curve: seed_curve(),
        default: InitialMode::Auto,
        duty_min: None,
        duty_max: None,
    }
}

/// The entries for the channels of a chip.
pub open spec fn seed_fans(reference: Seq<char>, sensor: Seq<char>, numbers: Seq<u32>) -> Seq<
    PwmView,
> {
    numbers.map_values(|n: u32| seed_fan(reference, sensor, n))
}

/// The display entry of a chip, if any of its sensors reports a reading.
pub open spec fn seed_temps(reference: Seq<char>, sensors: Seq<Seq<char>>) -> Seq<TempSensorView> {
    if sensors.len() > 0 {
        seq![TempSensorView { hwmon: reference, sensors }]
    } else {
        Seq::empty()
    }
}

/// What the first `n` chips bring into a generated config: fans and display
/// entries, chip by chip.
pub open spec fn seeds(fs: SysfsView, chips: Seq<HwmonView>, n: nat) -> (
    Seq<PwmView>,
    Seq<TempSensorView>,
)
    decreases n,
{
    if n == 0 {
        (Seq::empty(), Seq::empty())
    } else {
        let (fans, temps) = seeds(fs, chips, (n - 1) as nat);
        let c = chips[n - 1];
        let files = hwmon::files_in(fs, c.dir);
        let numbers = hwmon::numbers_among(files, "temp"@);
        let reference = chip_ref(chips, c);
        (
            fans + seed_fans(
                reference,
                followed(numbers),
                hwmon::numbers_among(files, "pwm"@),
            ),
            temps + seed_temps(reference, live_sensors(fs, c.dir, numbers)),
        )
    }
}

/// The config generated for a tree.
pub open spec fn generated(fs: SysfsView) -> ConfigView {
    let chips = hwmon::chips_of(fs);
    let (pwm, temp_sensors) = seeds(fs, chips, chips.len());
    ConfigView { refresh_secs: 2_000_000_000, pwm, temp_sensors, show_lm_sensors: false }
}

fn reference_for(chips: &Vec<Hwmon>, c: &Hwmon) -> (r: String)
    ensures
        r@ == chip_ref(chips.deep_view(), c@),
{
    if hwmon::count_named(chips, c.name.as_str()) == 1 {
        c.name.clone()
    } else {
        c.dir.clone()
    }
}

fn find_live_sensors(chip: &Hwmon, fs: &Sysfs, numbers: &Vec<u32>) -> (r: Vec<String>)
    ensures
        r.deep_view() == live_sensors(fs@, chip@.dir, numbers@),
{
    let mut out: Vec<String> = Vec::new();
    let mut i: usize = 0;
    assert(numbers@.take(0) =~= Seq::<u32>::empty());
    assert(out.deep_view() =~= Seq::<Seq<char>>::empty());
    while i < numbers.len()
        invariant
            i <= numbers@.len(),
            out.deep_view() == live_sensors(fs@, chip@.dir, numbers@.take(i as int)),
        decreases numbers@.len() - i,
    {
        let ghost before = out.deep_view();
        assert(numbers@.take(i + 1).drop_last() =~= numbers@.take(i as int));
        let d = number::u64_text(numbers[i] as u64);
        let name = text::cat("temp", d.as_str());
        let input = text::cat(name.as_str(), "_input");
        if chip.read_i64(fs, input.as_str()).is_some() {
            let ghost n = name@;
            out.push(name);
            assert(out.deep_view() =~= before.push(n));
        }
        i += 1;
    }
    assert(numbers@.take(i as int) =~= numbers@);
    out
}

fn make_fan(reference: &str, sensor: &str, n: u32) -> (r: Pwm)
    ensures
        r@ == seed_fan(reference@, sensor@, n),
{
    let d = number::u64_text(n as u64);
    let mut sensors: Vec<TempRef> = Vec::new();
    sensors.push(TempRef { hwmon: text::owned(reference), sensor: text::owned(sensor) });
    assert(sensors.deep_view() =~= seq![
        TempRefView { hwmon: reference@, sensor: sensor@ },
    ]);
    Pwm {
        id: text::cat("pwm", d.as_str()),
        hwmon: text::owned(reference),
        name: None,
        pwm_max: types::default_pwm_max(),
        temp_sensors: sensors,
        temp_sensor: None,
        aggregation: Aggregation::Max,
        control: ControlKind::Curve,
        curve: default_curve(),
        default: InitialMode::Auto,
        duty_min: None,
        duty_max: None,
    }
}

/// Produce a default config for a tree: every temperature sensor that
/// reports a reading is shown, and every PWM channel becomes a fan that
/// follows the first temperature on its chip.
pub fn generate(fs: &Sysfs) -> (r: Config)
    ensures
        r@ == generated(fs@),
{
    let chips = hwmon::discover(fs);
    let ghost cs = chips.deep_view();
    let mut pwm: Vec<Pwm> = Vec::new();
    let mut temp_sensors: Vec<TempSensor> = Vec::new();
    assert(pwm.deep_view() =~= Seq::<PwmView>::empty());
    assert(temp_sensors.deep_view() =~= Seq::<TempSensorView>::empty());
    let mut i: usize = 0;
    while i < chips.len()
        invariant
            i <= chips@.len(),
            cs == chips.deep_view(),
            (pwm.deep_view(), temp_sensors.deep_view()) == seeds(fs@, cs, i as nat),
        decreases chips@.len() - i,
    {
        let chip = &chips[i];
        assert(cs[i as int] == chip@);
        let ghost fans0 = pwm.deep_view();
        let ghost temps0 = temp_sensors.deep_view();
        let reference = reference_for(&chips, chip);
        let numbers = chip.temp_numbers(fs);
        let sensors = find_live_sensors(chip, fs, &numbers);
        let ghost live = sensors.deep_view();
        if sensors.len() > 0 {
            let t = TempSensor { hwmon: reference.clone(), sensors };
            temp_sensors.push(t);
            assert(temp_sensors.deep_view() =~= temps0 + seed_temps(reference@, live));
        } else {
            assert(temp_sensors.deep_view() =~= temps0 + seed_temps(reference@, live));
        }
        let sensor = if numbers.len() > 0 {
            let d = number::u64_text(numbers[0] as u64);
            text::cat("temp", d.as_str())
        } else {
            text::owned("temp1")
        };
        let channels = chip.pwm_numbers(fs);
        let mut k: usize = 0;
        assert(fans0 + seed_fans(reference@, sensor@, channels@.take(0)) =~= fans0);
        while k < channels.len()
            invariant
                k <= channels@.len(),
                pwm.deep_view() == fans0 + seed_fans(
                    reference@,
                    sensor@,
                    channels@.take(k as int),
                ),
            decreases channels@.len() - k,
        {
            let ghost before = pwm.deep_view();
            let f = make_fan(reference.as_str(), sensor.as_str(), channels[k]);
            pwm.push(f);
            proof {
                assert(pwm.deep_view() =~= before.push(f@));
                assert(seed_fans(reference@, sensor@, channels@.take(k + 1)) =~= seed_fans(
                    reference@,
                    sensor@,
                    channels@.take(k as int),
                ).push(f@));
                assert(pwm.deep_view() =~= fans0 + seed_fans(
                    reference@,
                    sensor@,
                    channels@.take(k + 1),
                ));
            }
            k += 1;
        }
        assert(channels@.take(k as int) =~= channels@);
        i += 1;
    }
    Config { refresh_secs: types::default_refresh(), pwm, temp_sensors, show_lm_sensors: false }
}

/// The reference a generated config uses for a chip leads back to that chip:
/// its name where no other chip has it, or else its directory, as long as no
/// chip before it has the same directory and no chip alone is named like it.
pub proof fn law_references_resolve(chips: Seq<HwmonView>, i: int)
    requires
        0 <= i < chips.len(),
        hwmon::name_count(chips, chips[i].name) != 1 ==> {
            &&& hwmon::name_count(chips, chips[i].dir) != 1
            &&& forall|j: int| 0 <= j < i ==> (#[trigger] chips[j]).dir != chips[i].dir
        },
    ensures
        hwmon::resolved(chips, chip_ref(chips, chips[i])) == Some(chips[i]),
{
    if hwmon::name_count(chips, chips[i].name) == 1 {
        hwmon::law_name_resolves(chips, i);
    } else {
        hwmon::law_directory_resolves(chips, i);
    }
}

/// The sensors of a chip that are shown are those that report a reading, under
/// their own names and in order.
pub proof fn law_live_sensors(fs: SysfsView, dir: Seq<char>, numbers: Seq<u32>, n: u32)
    ensures
        live_sensors(fs, dir, Seq::empty()) == Seq::<Seq<char>>::empty(),
        ({
            let name = "temp"@ + number::decimal(n as nat);
            &&& hwmon::int_reading(fs, dir, name + "_input"@) is Some ==> live_sensors(
                fs,
                dir,
                numbers.push(n),
            ) == live_sensors(fs, dir, numbers).push(name)
            &&& hwmon::int_reading(fs, dir, name + "_input"@) is None ==> live_sensors(
                fs,
                dir,
                numbers.push(n),
            ) == live_sensors(fs, dir, numbers)
        }),
{
    assert(numbers.push(n).drop_last() =~= numbers);
}

/// Every channel of every chip becomes a fan, chip by chip: on its own chip,
/// with a maximum of 255, driven by the hottest reading of the chip's first
/// sensor (`temp1` where it has none) over a curve of four points, from 30
/// degrees at 0 % through 45 at 40 % and 60 at 75 % to 75 at 100 %, in Auto at
/// first and with no measured range. Every chip with a live sensor has its
/// sensors shown.
pub proof fn law_every_channel_becomes_a_fan(fs: SysfsView, chips: Seq<HwmonView>, n: nat, k: int)
    ensures
        seeds(fs, chips, 0) == (Seq::<PwmView>::empty(), Seq::<TempSensorView>::empty()),
        ({
            let (fans, shown) = seeds(fs, chips, n);
            let (more, more_shown) = seeds(fs, chips, n + 1);
            let c = chips[n as int];
            let files = hwmon::files_in(fs, c.dir);
            let channels = hwmon::numbers_among(files, "pwm"@);
            let sensors = hwmon::numbers_among(files, "temp"@);
            let live = live_sensors(fs, c.dir, sensors);
            &&& more.len() == fans.len() + channels.len()
            &&& more.take(fans.len() as int) == fans
            &&& 0 <= k < channels.len() ==> ({
                let p = more[fans.len() + k];
                &&& p.id == "pwm"@ + number::decimal(channels[k] as nat)
                &&& p.hwmon == chip_ref(chips, c)
                &&& p.name is None && p.pwm_max == 255 && p.temp_sensor is None
                &&& p.temp_sensors.len() == 1
                &&& p.temp_sensors[0].hwmon == p.hwmon
                &&& sensors.len() > 0 ==> p.temp_sensors[0].sensor == "temp"@ + number::decimal(
                    sensors[0] as nat,
                )
                &&& sensors.len() == 0 ==> p.temp_sensors[0].sensor == "temp1"@
                &&& p.aggregation == Aggregation::Max && p.control == ControlKind::Curve
                &&& p.default == InitialMode::Auto
                &&& p.duty_min is None && p.duty_max is None
                &&& p.curve.len() == 4
                &&& p.curve[0].temp == 30_000_000_000 && p.curve[0].duty == 0
                &&& p.curve[1].temp == 45_000_000_000 && p.curve[1].duty == 40_000_000_000
                &&& p.curve[2].temp == 60_000_000_000 && p.curve[2].duty == 75_000_000_000
                &&& p.curve[3].temp == 75_000_000_000 && p.curve[3].duty == 100_000_000_000
            })
            &&& live.len() == 0 ==> more_shown == shown
            &&& live.len() > 0 ==> more_shown == shown.push(
                TempSensorView { hwmon: chip_ref(chips, c), sensors: live },
            )
        }),
{
    let (fans, shown) = seeds(fs, chips, n);
    let (more, more_shown) = seeds(fs, chips, n + 1);
    let c = chips[n as int];
    let sensors = hwmon::numbers_among(hwmon::files_in(fs, c.dir), "temp"@);
    let live = live_sensors(fs, c.dir, sensors);
    assert(more.take(fans.len() as int) =~= fans);
    if live.len() == 0 {
        assert(more_shown =~= shown);
    } else {
        assert(more_shown =~= shown.push(
            TempSensorView { hwmon: chip_ref(chips, c), sensors: live },
        ));
    }
}

/// A generated config covers all chips of the tree, refreshes every 2 s, and
/// does not show lm-sensors.
pub proof fn law_generated_config(fs: SysfsView)
    ensures
        ({
            let chips = hwmon::chips_of(fs);
            let g = generated(fs);
            &&& (g.pwm, g.temp_sensors) == seeds(fs, chips, chips.len())
            &&& g.refresh_secs == 2_000_000_000
            &&& !g.show_lm_sensors
        }),
{
}

} // verus!
