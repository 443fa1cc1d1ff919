//! One-shot, non-interactive views of the hardware: the `--probe` listing and
//! the `--summary` dump, as lines of text.

use vstd::prelude::*;
use crate::config::types;
use crate::config::types::{
    Aggregation, Config, ConfigView, Pwm, PwmView, TempRefView, TempSensor, TempSensorView,
};
use crate::hwmon;
use crate::hwmon::{Hwmon, HwmonView, Sysfs, SysfsView};
use crate::number;
use crate::quantity;
use crate::temps;
use crate::temps::{NvidiaGpu, NvidiaGpuView};
use crate::text;

verus! {

/// The current state of one `pwmN` channel, as `hwmon` sees it.
#[derive(Debug, PartialEq)]
pub struct PwmChannel {
    /// The chip the channel belongs to (its `hwmonN` directory).
    pub chip_dir: String,
    /// The chip's `name` file (e.g. `it8792`).
    pub chip_name: String,
    /// The channel number (from `pwm3`).
    pub number: u32,
    /// The channel's id string (`pwm3`).
    pub id: String,
    /// The raw duty register value, if readable.
    pub raw: Option<u32>,
    /// The duty as a percentage of the chip's range, if computable.
    pub percent: Option<i64>,
    /// The `pwmN_enable` mode bits, if readable.
    pub enable: Option<u32>,
}

/// A [`PwmChannel`] with its text as character sequences.
pub struct PwmChannelView {
    pub chip_dir: Seq<char>,
    pub chip_name: Seq<char>,
    pub number: u32,
    pub id: Seq<char>,
    pub raw: Option<u32>,
    pub percent: Option<i64>,
    pub enable: Option<u32>,
}

impl View for PwmChannel {
    type V = PwmChannelView;

    open spec fn view(&self) -> PwmChannelView {
        PwmChannelView {
            chip_dir: self.chip_dir@,
            chip_name: self.chip_name@,
            number: self.number,
            id: self.id@,
            raw: self.raw,
            percent: self.percent,
            enable: self.enable,
        }
    }
}

impl DeepView for PwmChannel {
    type V = PwmChannelView;

    open spec fn deep_view(&self) -> PwmChannelView {
        self.view()
    }
}

// ---- channels -------------------------------------------------------------

/// The state of channel `n` of a chip. The range of a channel without a
/// `pwmN_max` file is taken to be 0..=255.
pub open spec fn channel(fs: SysfsView, c: HwmonView, n: u32) -> PwmChannelView {
    PwmChannelView {
        chip_dir: c.dir,
        chip_name: c.name,
        number: n,
        id: "pwm"@ + number::decimal(n as nat),
        raw: hwmon::u32_reading(fs, c.dir, hwmon::channel_file("pwm"@, n, ""@)),
        percent: temps::as_quantity(hwmon::duty_of(fs, c.dir, n, 255)),
        enable: hwmon::u32_reading(fs, c.dir, hwmon::channel_file("pwm"@, n, "_enable"@)),
    }
}

/// The channels of a chip.
pub open spec fn chip_channels(fs: SysfsView, c: HwmonView) -> Seq<PwmChannelView> {
    hwmon::numbers_among(hwmon::files_in(fs, c.dir), "pwm"@).map_values(
        |n: u32| channel(fs, c, n),
    )
}

/// The channels of chips, chip by chip.
pub open spec fn channels_of(fs: SysfsView, chips: Seq<HwmonView>) -> Seq<PwmChannelView>
    decreases chips.len(),
{
    if chips.len() == 0 {
        Seq::empty()
    } else {
        channels_of(fs, chips.drop_last()) + chip_channels(fs, chips.last())
    }
}

/// List every PWM channel of every discovered `hwmon` chip, with the chip
/// each one belongs to and its current duty/mode. This is the "which channel
/// do I address?" view: channels that are *not* part of the config show up
/// here too.
pub fn pwm_channels_view(fs: &Sysfs) -> (r: Vec<PwmChannel>)
    ensures
        r.deep_view() == channels_of(fs@, hwmon::chips_of(fs@)),
{
    let chips = hwmon::discover(fs);
    let ghost cs = chips.deep_view();
    let mut out: Vec<PwmChannel> = Vec::new();
    let mut i: usize = 0;
    assert(cs.take(0) =~= Seq::<HwmonView>::empty());
    assert(out.deep_view() =~= Seq::<PwmChannelView>::empty());
    while i < chips.len()
        invariant
            i <= chips@.len(),
            cs == chips.deep_view(),
            out.deep_view() == channels_of(fs@, cs.take(i as int)),
        decreases chips@.len() - i,
    {
        let chip = &chips[i];
        let ghost before = out.deep_view();
        proof {
            assert(cs.take(i + 1).drop_last() =~= cs.take(i as int));
            assert(cs.take(i + 1).last() == chip@);
        }
        let numbers = chip.pwm_numbers(fs);
        let ghost show = |n: u32| channel(fs@, chip@, n);
        let mut k: usize = 0;
        assert(before + numbers@.take(0).map_values(show) =~= before);
        while k < numbers.len()
            invariant
                k <= numbers@.len(),
                show == (|n: u32| channel(fs@, chip@, n)),
                out.deep_view() == before + numbers@.take(k as int).map_values(show),
            decreases numbers@.len() - k,
        {
            let n = numbers[k];
            let ghost so_far = out.deep_view();
            let d = number::u64_text(n as u64);
            let c = PwmChannel {
                chip_dir: chip.dir.clone(),
                chip_name: chip.name.clone(),
                number: n,
                id: text::cat("pwm", d.as_str()),
                raw: chip.pwm_raw(fs, n),
                percent: chip.pwm_percent(fs, n, 255),
                enable: chip.pwm_enable(fs, n),
            };
            out.push(c);
            proof {
                assert(out.deep_view() =~= so_far.push(c@));
                assert(numbers@.take(k + 1).map_values(show) =~= numbers@.take(
                    k as int,
                ).map_values(show).push(c@));
                assert(out.deep_view() =~= before + numbers@.take(k + 1).map_values(show));
            }
            k += 1;
        }
        assert(numbers@.take(k as int) =~= numbers@);
        i += 1;
    }
    assert(cs.take(i as int) =~= cs);
    out
}

/// A duty in a column of five.
pub open spec fn duty_column(percent: Option<i64>) -> Seq<char> {
    match percent {
        Some(p) => text::flush_right(quantity::shown_whole(p as int), 4) + "%"@,
        None => "  n/a"@,
    }
}

/// What the mode bits of a channel stand for.
pub open spec fn enable_name(enable: Option<u32>) -> Seq<char> {
    match enable {
        Some(e) => if e == 0 {
            "off"@
        } else if e == 1 {
            "manual"@
        } else if e == 2 {
            "auto (chip)"@
        } else {
            "driver-specific"@
        },
        None => "n/a"@,
    }
}

/// The line for a channel.
pub open spec fn channel_line(c: PwmChannelView) -> Seq<char> {
    let raw = match c.raw {
        Some(v) => number::decimal(v as nat),
        None => "n/a"@,
    };
    "  "@ + text::flush_left(c.chip_dir, 8) + "  "@ + text::flush_left(c.chip_name, 10) + "  "@
        + text::flush_left(c.id, 8) + "  raw="@ + text::flush_left(raw, 3) + "  duty="@
        + duty_column(c.percent) + "  mode="@ + enable_name(c.enable)
}

fn duty_text(percent: Option<i64>) -> (r: String)
    ensures
        r@ == duty_column(percent),
{
    match percent {
        Some(p) => {
            let w = quantity::whole_text(p);
            let w = text::pad_left(w.as_str(), 4);
            text::cat(w.as_str(), "%")
        },
        None => text::owned("  n/a"),
    }
}

fn enable_text(enable: Option<u32>) -> (r: String)
    ensures
        r@ == enable_name(enable),
{
    match enable {
        Some(e) => if e == 0 {
            text::owned("off")
        } else if e == 1 {
            text::owned("manual")
        } else if e == 2 {
            text::owned("auto (chip)")
        } else {
            text::owned("driver-specific")
        },
        None => text::owned("n/a"),
    }
}

/// A human-readable one-line rendering of a [`PwmChannel`].
pub fn format_pwm_channel(c: &PwmChannel) -> (r: String)
    ensures
        r@ == channel_line(c@),
{
    let raw = match c.raw {
        Some(v) => number::u64_text(v as u64),
        None => text::owned("n/a"),
    };
    let dir = text::pad_right(c.chip_dir.as_str(), 8);
    let name = text::pad_right(c.chip_name.as_str(), 10);
    let id = text::pad_right(c.id.as_str(), 8);
    let raw = text::pad_right(raw.as_str(), 3);
    let duty = duty_text(c.percent);
    let mode = enable_text(c.enable);
    let s = text::cat3("  ", dir.as_str(), "  ");
    let s = text::cat3(s.as_str(), name.as_str(), "  ");
    let s = text::cat3(s.as_str(), id.as_str(), "  raw=");
    let s = text::cat3(s.as_str(), raw.as_str(), "  duty=");
    let s = text::cat3(s.as_str(), duty.as_str(), "  mode=");
    text::cat(s.as_str(), mode.as_str())
}

// ---- fans -----------------------------------------------------------------

/// The name of a way to combine readings.
pub open spec fn aggregation_name(a: Aggregation) -> Seq<char> {
    match a {
        Aggregation::Max => "max"@,
        Aggregation::Avg => "avg"@,
        Aggregation::Min => "min"@,
    }
}

fn aggregation_text(a: Aggregation) -> (r: String)
    ensures
        r@ == aggregation_name(a),
{
    match a {
        Aggregation::Max => text::owned("max"),
        Aggregation::Avg => text::owned("avg"),
        Aggregation::Min => text::owned("min"),
    }
}

/// A measured duty range, where there is one.
pub open spec fn range_note(min: Option<i64>, max: Option<i64>) -> Seq<char> {
    match (min, max) {
        (Some(lo), Some(hi)) => "  range="@ + quantity::shown_whole(lo as int) + "-"@
            + quantity::shown_whole(hi as int) + "% (measured)"@,
        _ => ""@,
    }
}

fn range_text(min: Option<i64>, max: Option<i64>) -> (r: String)
    ensures
        r@ == range_note(min, max),
{
    match (min, max) {
        (Some(lo), Some(hi)) => {
            let lo = quantity::whole_text(lo);
            let hi = quantity::whole_text(hi);
            let head = text::cat3("  range=", lo.as_str(), "-");
            text::cat3(head.as_str(), hi.as_str(), "% (measured)")
        },
        _ => text::owned(""),
    }
}

/// The lines for a configured fan: its state, or why there is none, and what
/// drives it.
pub open spec fn fan_lines(fs: SysfsView, chips: Seq<HwmonView>, p: PwmView) -> Seq<Seq<char>> {
    match hwmon::resolved(chips, p.hwmon) {
        None => seq![
            "  "@ + text::flush_left(p.id, 8) + "  (chip "@ + p.hwmon + " not found)"@,
        ],
        Some(c) => match types::channel_of(p.id) {
            None => seq!["  "@ + text::flush_left(p.id, 8) + "  (unparseable id)"@],
            Some(n) => {
                let state = "  "@ + text::flush_left(p.display_name(), 8) + "  "@
                    + text::flush_left(p.hwmon, 8) + "  "@ + text::flush_right(
                    number::decimal(n),
                    3,
                ) + "  duty="@ + duty_column(
                    temps::as_quantity(hwmon::duty_of(fs, c.dir, n as u32, p.pwm_max)),
                ) + "  mode="@ + enable_name(
                    hwmon::u32_reading(
                        fs,
                        c.dir,
                        hwmon::channel_file("pwm"@, n as u32, "_enable"@),
                    ),
                ) + range_note(p.duty_min, p.duty_max);
                let refs = p.driving_sensors().map_values(|s: TempRefView| s.full_name());
                if refs.len() > 0 {
                    seq![
                        state,
                        "  └─ driven by "@ + aggregation_name(p.aggregation) + "("@
                            + text::joined(refs, ", "@) + ")"@,
                    ]
                } else {
                    seq![state]
                }
            },
        },
    }
}

/// Add the lines for a configured fan.
fn add_fan(out: &mut Vec<String>, fs: &Sysfs, chips: &Vec<Hwmon>, p: &Pwm)
    ensures
        final(out).deep_view() == old(out).deep_view() + fan_lines(
            fs@,
            chips.deep_view(),
            p@,
        ),
{
    let ghost before = out.deep_view();
    let id = text::pad_right(p.id.as_str(), 8);
    let chip = match hwmon::resolve(chips, p.hwmon.as_str()) {
        Some(c) => c,
        None => {
            let s = text::cat3("  ", id.as_str(), "  (chip ");
            let s = text::cat3(s.as_str(), p.hwmon.as_str(), " not found)");
            let ghost line = s@;
            out.push(s);
            assert(out.deep_view() =~= before + seq![line]);
            return;
        },
    };
    let n = match p.index() {
        Some(n) => n,
        None => {
            let s = text::cat3("  ", id.as_str(), "  (unparseable id)");
            let ghost line = s@;
            out.push(s);
            assert(out.deep_view() =~= before + seq![line]);
            return;
        },
    };
    let name = text::pad_right(p.display_name(), 8);
    let hw = text::pad_right(p.hwmon.as_str(), 8);
    let d = number::u64_text(n as u64);
    let d = text::pad_left(d.as_str(), 3);
    let duty = duty_text(chip.pwm_percent(fs, n, p.pwm_max));
    let mode = enable_text(chip.pwm_enable(fs, n));
    let range = range_text(p.duty_min, p.duty_max);
    let s = text::cat3("  ", name.as_str(), "  ");
    let s = text::cat3(s.as_str(), hw.as_str(), "  ");
    let s = text::cat3(s.as_str(), d.as_str(), "  duty=");
    let s = text::cat3(s.as_str(), duty.as_str(), "  mode=");
    let s = text::cat3(s.as_str(), mode.as_str(), range.as_str());
    let ghost state = s@;
    out.push(s);
    assert(out.deep_view() =~= before.push(state));
    let sensors = p.driving_sensors();
    let ghost drivers = p@.driving_sensors();
    let ghost name_of = |s: TempRefView| s.full_name();
    let mut refs: Vec<String> = Vec::new();
    let mut i: usize = 0;
    while i < sensors.len()
        invariant
            i <= sensors@.len(),
            drivers == sensors.deep_view(),
            name_of == (|s: TempRefView| s.full_name()),
            refs@.len() == i,
            forall|j: int| 0 <= j < i ==> (#[trigger] refs@[j])@ == drivers[j].full_name(),
        decreases sensors@.len() - i,
    {
        assert(drivers[i as int] == sensors@[i as int]@);
        refs.push(sensors[i].full_name());
        i += 1;
    }
    assert(refs.deep_view() =~= drivers.map_values(name_of));
    if refs.len() > 0 {
        let agg = aggregation_text(p.aggregation);
        let all = text::join(&refs, ", ");
        let s = text::cat3("  └─ driven by ", agg.as_str(), "(");
        let s = text::cat3(s.as_str(), all.as_str(), ")");
        let ghost line = s@;
        out.push(s);
        assert(out.deep_view() =~= before + seq![state, line]);
    } else {
        assert(out.deep_view() =~= before + seq![state]);
    }
}

/// The lines for the configured fans.
pub open spec fn fans_lines(fs: SysfsView, chips: Seq<HwmonView>, pwm: Seq<PwmView>) -> Seq<
    Seq<char>,
>
    decreases pwm.len(),
{
    if pwm.len() == 0 {
        Seq::empty()
    } else {
        fans_lines(fs, chips, pwm.drop_last()) + fan_lines(fs, chips, pwm.last())
    }
}

// ---- temperatures and GPUs ------------------------------------------------

/// The line for a sensor of a chip.
pub open spec fn temp_line(
    fs: SysfsView,
    c: HwmonView,
    hwmon: Seq<char>,
    sensor: Seq<char>,
) -> Seq<char> {
    let head = "  "@ + text::flush_left(hwmon, 12) + " "@ + text::flush_left(sensor, 6);
    match temps::hwmon_celsius(fs, c.dir, sensor) {
        Some(t) => head + "  "@ + text::flush_right(quantity::shown_tenths(t), 6) + "°C  ("@
            + temps::hwmon_label(fs, c.dir, sensor) + ")"@,
        None => head + "  -- no reading --"@,
    }
}

/// The lines for the configured temperature sensors; a group whose chip is
/// not there has none.
pub open spec fn temps_lines(
    fs: SysfsView,
    chips: Seq<HwmonView>,
    groups: Seq<TempSensorView>,
) -> Seq<Seq<char>>
    decreases groups.len(),
{
    if groups.len() == 0 {
        Seq::empty()
    } else {
        let rest = temps_lines(fs, chips, groups.drop_last());
        let g = groups.last();
        match hwmon::resolved(chips, g.hwmon) {
            Some(c) => rest + g.sensors.map_values(|s: Seq<char>| temp_line(fs, c, g.hwmon, s)),
            None => rest,
        }
    }
}

fn temp_text(fs: &Sysfs, c: &Hwmon, hwmon: &str, sensor: &str) -> (r: String)
    ensures
        r@ == temp_line(fs@, c@, hwmon@, sensor@),
{
    let hw = text::pad_right(hwmon, 12);
    let s = text::pad_right(sensor, 6);
    let head = text::cat3("  ", hw.as_str(), " ");
    let head = text::cat(head.as_str(), s.as_str());
    match temps::read_hwmon(c, fs, sensor) {
        Some(reading) => {
            let t = quantity::tenths_text(reading.celsius);
            let t = text::pad_left(t.as_str(), 6);
            let s = text::cat3(head.as_str(), "  ", t.as_str());
            let s = text::cat3(s.as_str(), "°C  (", reading.label.as_str());
            text::cat(s.as_str(), ")")
        },
        None => text::cat(head.as_str(), "  -- no reading --"),
    }
}

fn add_temps(out: &mut Vec<String>, fs: &Sysfs, chips: &Vec<Hwmon>, groups: &Vec<TempSensor>)
    ensures
        final(out).deep_view() == old(out).deep_view() + temps_lines(
            fs@,
            chips.deep_view(),
            groups.deep_view(),
        ),
{
    let ghost before = out.deep_view();
    let ghost gs = groups.deep_view();
    let ghost cs = chips.deep_view();
    let mut i: usize = 0;
    assert(gs.take(0) =~= Seq::<TempSensorView>::empty());
    assert(before + temps_lines(fs@, cs, gs.take(0)) =~= before);
    while i < groups.len()
        invariant
            i <= groups@.len(),
            gs == groups.deep_view(),
            cs == chips.deep_view(),
            out.deep_view() == before + temps_lines(fs@, cs, gs.take(i as int)),
        decreases groups@.len() - i,
    {
        let ghost so_far = out.deep_view();
        let g = &groups[i];
        proof {
            assert(gs.take(i + 1).drop_last() =~= gs.take(i as int));
            assert(gs.take(i + 1).last() == g@);
        }
        match hwmon::resolve(chips, g.hwmon.as_str()) {
            Some(c) => {
                let ghost names = g.sensors.deep_view();
                let ghost show = |s: Seq<char>| temp_line(fs@, c@, g@.hwmon, s);
                let mut k: usize = 0;
                assert(so_far + names.take(0).map_values(show) =~= so_far);
                while k < g.sensors.len()
                    invariant
                        k <= g.sensors@.len(),
                        names == g.sensors.deep_view(),
                        show == (|s: Seq<char>| temp_line(fs@, c@, g@.hwmon, s)),
                        out.deep_view() == so_far + names.take(k as int).map_values(show),
                    decreases g.sensors@.len() - k,
                {
                    let ghost now = out.deep_view();
                    let sensor = g.sensors[k].as_str();
                    assert(names[k as int] == sensor@);
                    let s = temp_text(fs, c, g.hwmon.as_str(), sensor);
                    let ghost line = s@;
                    out.push(s);
                    proof {
                        assert(out.deep_view() =~= now.push(line));
                        assert(names.take(k + 1).map_values(show) =~= names.take(
                            k as int,
                        ).map_values(show).push(line));
                        assert(out.deep_view() =~= so_far + names.take(k + 1).map_values(show));
                    }
                    k += 1;
                }
                proof {
                    assert(names.take(k as int) =~= names);
                    assert(out.deep_view() =~= before + temps_lines(fs@, cs, gs.take(i + 1)));
                }
            },
            None => {},
        }
        i += 1;
    }
    assert(gs.take(i as int) =~= gs);
}

/// The line for a GPU in the summary.
pub open spec fn gpu_line(g: NvidiaGpuView) -> Seq<char> {
    let temp = match g.temp_c {
        Some(t) => text::flush_right(quantity::shown_tenths(t as int), 6),
        None => "   n/a"@,
    };
    "  gpu"@ + text::flush_right(number::decimal(g.index as nat), 2) + "  "@ + text::flush_left(
        g.name,
        24,
    ) + "  "@ + temp + "°C"@
}

fn gpu_text(g: &NvidiaGpu) -> (r: String)
    ensures
        r@ == gpu_line(g@),
{
    let temp = match g.temp_c {
        Some(t) => {
            let t = quantity::tenths_text(t);
            text::pad_left(t.as_str(), 6)
        },
        None => text::owned("   n/a"),
    };
    let n = number::u64_text(g.index as u64);
    let n = text::pad_left(n.as_str(), 2);
    let name = text::pad_right(g.name.as_str(), 24);
    let s = text::cat3("  gpu", n.as_str(), "  ");
    let s = text::cat3(s.as_str(), name.as_str(), "  ");
    text::cat3(s.as_str(), temp.as_str(), "°C")
}

// ---- the summary ----------------------------------------------------------

/// The section on the channels of the hardware.
pub open spec fn channel_section(channels: Seq<PwmChannelView>) -> Seq<Seq<char>> {
    seq!["PWM channels"@] + (if channels.len() == 0 {
        seq!["  (no pwmN channels found)"@]
    } else {
        channels.map_values(|c: PwmChannelView| channel_line(c))
    })
}

/// The section on the GPUs; none without one.
pub open spec fn gpu_section(gpus: Seq<NvidiaGpuView>) -> Seq<Seq<char>> {
    if gpus.len() == 0 {
        Seq::empty()
    } else {
        seq![""@, "GPUs (NVML)"@] + gpus.map_values(|g: NvidiaGpuView| gpu_line(g))
    }
}

/// The lines of the summary: every PWM channel the hardware exposes, the
/// configured fans, the temperatures, and the GPUs.
pub open spec fn summary_lines(
    cfg: ConfigView,
    fs: SysfsView,
    gpus: Seq<NvidiaGpuView>,
) -> Seq<Seq<char>> {
    let chips = hwmon::chips_of(fs);
    channel_section(channels_of(fs, chips)) + seq![""@, "Fans"@] + fans_lines(fs, chips, cfg.pwm)
        + seq![""@, "Temperatures"@] + temps_lines(fs, chips, cfg.temp_sensors) + gpu_section(gpus)
}

fn add_line(out: &mut Vec<String>, s: &str)
    ensures
        final(out).deep_view() == old(out).deep_view() + seq![s@],
{
    let ghost before = out.deep_view();
    out.push(text::owned(s));
    assert(out.deep_view() =~= before + seq![s@]);
}

fn add_heading(out: &mut Vec<String>, s: &str)
    ensures
        final(out).deep_view() == old(out).deep_view() + seq![""@, s@],
{
    let ghost before = out.deep_view();
    out.push(text::owned(""));
    out.push(text::owned(s));
    assert(out.deep_view() =~= before + seq![""@, s@]);
}

/// Render the one-shot summary (PWM channels, configured fans, temperatures,
/// GPUs), one string per line.
pub fn render_summary(cfg: &Config, fs: &Sysfs, gpus: &Vec<NvidiaGpu>) -> (r: Vec<String>)
    ensures
        r.deep_view() == summary_lines(cfg@, fs@, gpus.deep_view()),
{
    let chips = hwmon::discover(fs);
    let ghost cs = chips.deep_view();
    let mut out: Vec<String> = Vec::new();
    assert(out.deep_view() =~= Seq::<Seq<char>>::empty());
    add_line(&mut out, "PWM channels");
    assert(out.deep_view() =~= seq!["PWM channels"@]);
    let channels = pwm_channels_view(fs);
    let ghost chans = channels.deep_view();
    if channels.len() == 0 {
        add_line(&mut out, "  (no pwmN channels found)");
    } else {
        let ghost before = out.deep_view();
        let ghost show = |c: PwmChannelView| channel_line(c);
        let mut i: usize = 0;
        assert(before + chans.take(0).map_values(show) =~= before);
        while i < channels.len()
            invariant
                i <= channels@.len(),
                chans == channels.deep_view(),
                show == (|c: PwmChannelView| channel_line(c)),
                out.deep_view() == before + chans.take(i as int).map_values(show),
            decreases channels@.len() - i,
        {
            let ghost now = out.deep_view();
            assert(chans[i as int] == channels@[i as int]@);
            let s = format_pwm_channel(&channels[i]);
            add_line(&mut out, s.as_str());
            proof {
                assert(chans.take(i + 1).map_values(show) =~= chans.take(i as int).map_values(
                    show,
                ).push(s@));
                assert(out.deep_view() =~= before + chans.take(i + 1).map_values(show));
            }
            i += 1;
        }
        assert(chans.take(i as int) =~= chans);
    }
    assert(out.deep_view() =~= channel_section(chans));
    add_heading(&mut out, "Fans");
    let ghost so_far = out.deep_view();
    let ghost pwm = cfg.pwm.deep_view();
    let mut i: usize = 0;
    assert(pwm.take(0) =~= Seq::<PwmView>::empty());
    assert(so_far + fans_lines(fs@, cs, pwm.take(0)) =~= so_far);
    while i < cfg.pwm.len()
        invariant
            i <= cfg.pwm@.len(),
            pwm == cfg.pwm.deep_view(),
            cs == chips.deep_view(),
            out.deep_view() == so_far + fans_lines(fs@, cs, pwm.take(i as int)),
        decreases cfg.pwm@.len() - i,
    {
        proof {
            assert(pwm.take(i + 1).drop_last() =~= pwm.take(i as int));
            assert(pwm.take(i + 1).last() == cfg.pwm@[i as int]@);
        }
        add_fan(&mut out, fs, &chips, &cfg.pwm[i]);
        assert(out.deep_view() =~= so_far + fans_lines(fs@, cs, pwm.take(i + 1)));
        i += 1;
    }
    assert(pwm.take(i as int) =~= pwm);
    add_heading(&mut out, "Temperatures");
    add_temps(&mut out, fs, &chips, &cfg.temp_sensors);
    let ghost gs = gpus.deep_view();
    let ghost upto = out.deep_view();
    if gpus.len() > 0 {
        add_heading(&mut out, "GPUs (NVML)");
        let ghost before = out.deep_view();
        let ghost show = |g: NvidiaGpuView| gpu_line(g);
        let mut i: usize = 0;
        assert(before + gs.take(0).map_values(show) =~= before);
        while i < gpus.len()
            invariant
                i <= gpus@.len(),
                gs == gpus.deep_view(),
                show == (|g: NvidiaGpuView| gpu_line(g)),
                out.deep_view() == before + gs.take(i as int).map_values(show),
            decreases gpus@.len() - i,
        {
            assert(gs[i as int] == gpus@[i as int]@);
            let s = gpu_text(&gpus[i]);
            add_line(&mut out, s.as_str());
            proof {
                assert(gs.take(i + 1).map_values(show) =~= gs.take(i as int).map_values(show).push(
                    s@,
                ));
                assert(out.deep_view() =~= before + gs.take(i + 1).map_values(show));
            }
            i += 1;
        }
        assert(gs.take(i as int) =~= gs);
        assert(out.deep_view() =~= upto + gpu_section(gs));
    } else {
        assert(out.deep_view() =~= upto + gpu_section(gs));
    }
    out
}

// ---- the probe ------------------------------------------------------------

/// Numbers in brackets.
pub open spec fn number_list(numbers: Seq<u32>) -> Seq<char> {
    "["@ + text::joined(numbers.map_values(|n: u32| number::decimal(n as nat)), ", "@) + "]"@
}

fn list_text(numbers: &Vec<u32>) -> (r: String)
    ensures
        r@ == number_list(numbers@),
{
    let mut parts: Vec<String> = Vec::new();
    let mut i: usize = 0;
    while i < numbers.len()
        invariant
            i <= numbers@.len(),
            parts@.len() == i,
            forall|j: int|
                0 <= j < i ==> (#[trigger] parts@[j])@ == number::decimal(numbers@[j] as nat),
        decreases numbers@.len() - i,
    {
        parts.push(number::u64_text(numbers[i] as u64));
        i += 1;
    }
    assert(parts.deep_view() =~= numbers@.map_values(|n: u32| number::decimal(n as nat)));
    let all = text::join(&parts, ", ");
    text::cat3("[", all.as_str(), "]")
}

/// The line for a chip.
pub open spec fn chip_line(fs: SysfsView, c: HwmonView) -> Seq<char> {
    let files = hwmon::files_in(fs, c.dir);
    text::flush_left(c.name, 10) + "  "@ + c.dir + "  pwm="@ + number_list(
        hwmon::numbers_among(files, "pwm"@),
    ) + " temp="@ + number_list(hwmon::numbers_among(files, "temp"@)) + " fan="@ + number_list(
        hwmon::numbers_among(files, "fan"@),
    )
}

fn chip_text(fs: &Sysfs, c: &Hwmon) -> (r: String)
    ensures
        r@ == chip_line(fs@, c@),
{
    let name = text::pad_right(c.name.as_str(), 10);
    let pwm = list_text(&c.pwm_numbers(fs));
    let temp = list_text(&c.temp_numbers(fs));
    let fan = list_text(&c.fan_numbers(fs));
    let s = text::cat3(name.as_str(), "  ", c.dir.as_str());
    let s = text::cat3(s.as_str(), "  pwm=", pwm.as_str());
    let s = text::cat3(s.as_str(), " temp=", temp.as_str());
    text::cat3(s.as_str(), " fan=", fan.as_str())
}

/// The line for a GPU in the probe.
pub open spec fn probed_gpu_line(g: NvidiaGpuView) -> Seq<char> {
    let temp = match g.temp_c {
        Some(t) => quantity::shown_whole(t as int),
        None => "n/a"@,
    };
    "  gpu"@ + number::decimal(g.index as nat) + "  "@ + text::flush_left(g.name, 24) + "  "@
        + text::flush_right(temp, 5) + "°C"@
}

fn probed_gpu_text(g: &NvidiaGpu) -> (r: String)
    ensures
        r@ == probed_gpu_line(g@),
{
    let temp = match g.temp_c {
        Some(t) => quantity::whole_text(t),
        None => text::owned("n/a"),
    };
    let temp = text::pad_left(temp.as_str(), 5);
    let n = number::u64_text(g.index as u64);
    let name = text::pad_right(g.name.as_str(), 24);
    let s = text::cat3("  gpu", n.as_str(), "  ");
    let s = text::cat3(s.as_str(), name.as_str(), "  ");
    text::cat3(s.as_str(), temp.as_str(), "°C")
}

/// The lines of the probe: the chips with their channels, then the GPUs.
pub open spec fn probe_lines(fs: SysfsView, gpus: Seq<NvidiaGpuView>) -> Seq<Seq<char>> {
    let chips = hwmon::chips_of(fs).map_values(|c: HwmonView| chip_line(fs, c));
    if gpus.len() == 0 {
        chips
    } else {
        chips + seq![""@, "NVIDIA GPUs (NVML):"@] + gpus.map_values(
            |g: NvidiaGpuView| probed_gpu_line(g),
        )
    }
}

/// Every discovered hwmon chip (with its PWM/temp/fan channels) and the
/// NVIDIA GPUs, one string per line.
pub fn probe_view(fs: &Sysfs, gpus: &Vec<NvidiaGpu>) -> (r: Vec<String>)
    ensures
        r.deep_view() == probe_lines(fs@, gpus.deep_view()),
{
    let chips = hwmon::discover(fs);
    let ghost cs = chips.deep_view();
    let ghost show = |c: HwmonView| chip_line(fs@, c);
    let mut out: Vec<String> = Vec::new();
    let mut i: usize = 0;
    assert(out.deep_view() =~= cs.take(0).map_values(show));
    while i < chips.len()
        invariant
            i <= chips@.len(),
            cs == chips.deep_view(),
            show == (|c: HwmonView| chip_line(fs@, c)),
            out.deep_view() == cs.take(i as int).map_values(show),
        decreases chips@.len() - i,
    {
        assert(cs[i as int] == chips@[i as int]@);
        let s = chip_text(fs, &chips[i]);
        add_line(&mut out, s.as_str());
        assert(out.deep_view() =~= cs.take(i + 1).map_values(show));
        i += 1;
    }
    assert(cs.take(i as int) =~= cs);
    if gpus.len() > 0 {
        let ghost gs = gpus.deep_view();
        add_heading(&mut out, "NVIDIA GPUs (NVML):");
        let ghost before = out.deep_view();
        let ghost show = |g: NvidiaGpuView| probed_gpu_line(g);
        let mut i: usize = 0;
        assert(before + gs.take(0).map_values(show) =~= before);
        while i < gpus.len()
            invariant
                i <= gpus@.len(),
                gs == gpus.deep_view(),
                show == (|g: NvidiaGpuView| probed_gpu_line(g)),
                out.deep_view() == before + gs.take(i as int).map_values(show),
            decreases gpus@.len() - i,
        {
            assert(gs[i as int] == gpus@[i as int]@);
            let s = probed_gpu_text(&gpus[i]);
            add_line(&mut out, s.as_str());
            proof {
                assert(gs.take(i + 1).map_values(show) =~= gs.take(i as int).map_values(show).push(
                    s@,
                ));
                assert(out.deep_view() =~= before + gs.take(i + 1).map_values(show));
            }
            i += 1;
        }
        assert(gs.take(i as int) =~= gs);
    }
    out
}

/// Every channel that the hardware exposes has its line in the summary, in
/// the config or not.
pub proof fn law_summary_shows_every_channel(
    cfg: ConfigView,
    fs: SysfsView,
    gpus: Seq<NvidiaGpuView>,
    i: int,
)
    requires
        0 <= i < channels_of(fs, hwmon::chips_of(fs)).len(),
    ensures
        summary_lines(cfg, fs, gpus)[0] == "PWM channels"@,
        summary_lines(cfg, fs, gpus)[i + 1] == channel_line(
            channels_of(fs, hwmon::chips_of(fs))[i],
        ),
{
}

/// Each chip's channels are listed one after the other, with what their files
/// show: the register, the duty on a scale of 255 where the chip gives no
/// other, and the mode.
pub proof fn law_channels_are_listed(fs: SysfsView, chips: Seq<HwmonView>, c: HwmonView, k: int)
    ensures
        channels_of(fs, Seq::empty()) == Seq::<PwmChannelView>::empty(),
        ({
            let before = channels_of(fs, chips);
            let all = channels_of(fs, chips.push(c));
            let numbers = hwmon::numbers_among(hwmon::files_in(fs, c.dir), "pwm"@);
            &&& all.len() == before.len() + numbers.len()
            &&& all.take(before.len() as int) == before
            &&& 0 <= k < numbers.len() ==> ({
                let l = all[before.len() + k];
                let id = "pwm"@ + number::decimal(numbers[k] as nat);
                let d = hwmon::duty_of(fs, c.dir, numbers[k], 255);
                &&& l.chip_dir == c.dir && l.chip_name == c.name
                &&& l.number == numbers[k] && l.id == id
                &&& l.raw == hwmon::u32_reading(fs, c.dir, id)
                &&& l.enable == hwmon::u32_reading(fs, c.dir, id + "_enable"@)
                &&& l.percent is Some <==> d is Some
                &&& d matches Some(v) ==> (i64::MIN <= v <= i64::MAX ==> l.percent == Some(v as i64))
            })
        }),
{
    reveal_strlit("");
    let before = channels_of(fs, chips);
    assert(chips.push(c).drop_last() =~= chips);
    assert(channels_of(fs, chips.push(c)).take(before.len() as int) =~= before);
    let numbers = hwmon::numbers_among(hwmon::files_in(fs, c.dir), "pwm"@);
    if 0 <= k < numbers.len() {
        assert(hwmon::channel_file("pwm"@, numbers[k], ""@) =~= "pwm"@ + number::decimal(
            numbers[k] as nat,
        ));
    }
}

/// The columns: a duty in whole percents, the meaning of the mode bits, the
/// way readings are combined, and a measured range with both ends.
pub proof fn law_columns(p: i64, e: u32, lo: i64, hi: i64)
    ensures
        duty_column(Some(p)) == text::flush_right(quantity::shown_whole(p as int), 4).push('%'),
        duty_column(None) == seq![' ', ' ', 'n', '/', 'a'],
        enable_name(Some(e)) == "off"@ <==> e == 0,
        enable_name(Some(e)) == "manual"@ <==> e == 1,
        enable_name(Some(e)) == "auto (chip)"@ <==> e == 2,
        enable_name(Some(e)) == "driver-specific"@ <==> e > 2,
        enable_name(None) == "n/a"@,
        aggregation_name(Aggregation::Max) == "max"@,
        aggregation_name(Aggregation::Avg) == "avg"@,
        aggregation_name(Aggregation::Min) == "min"@,
        range_note(Some(lo), Some(hi)) == "  range="@ + quantity::shown_whole(lo as int) + "-"@
            + quantity::shown_whole(hi as int) + "% (measured)"@,
        range_note(None, Some(hi)).len() == 0 && range_note(Some(lo), None).len() == 0
            && range_note(None, None).len() == 0,
{
    reveal_strlit("");
    reveal_strlit("%");
    reveal_strlit("  n/a");
    reveal_strlit("off");
    reveal_strlit("manual");
    reveal_strlit("auto (chip)");
    reveal_strlit("driver-specific");
    assert("off"@.len() == 3 && "manual"@.len() == 6 && "auto (chip)"@.len() == 11
        && "driver-specific"@.len() == 15);
    assert(duty_column(Some(p)) =~= text::flush_right(quantity::shown_whole(p as int), 4).push(
        '%',
    ));
    assert(duty_column(None) =~= seq![' ', ' ', 'n', '/', 'a']);
}

/// A channel's line ends with its duty and mode, and starts with its chip's
/// directory.
pub proof fn law_channel_line(c: PwmChannelView)
    ensures
        ({
            let l = channel_line(c);
            let tail = duty_column(c.percent) + "  mode="@ + enable_name(c.enable);
            let head = "  "@ + c.chip_dir;
            &&& l.len() >= tail.len() + head.len()
            &&& l.skip(l.len() - tail.len()) == tail
            &&& l.take(head.len() as int) == head
        }),
{
    let l = channel_line(c);
    let tail = duty_column(c.percent) + "  mode="@ + enable_name(c.enable);
    let head = "  "@ + c.chip_dir;
    assert(l.skip(l.len() - tail.len()) =~= tail);
    assert(l.take(head.len() as int) =~= head);
}

/// Every fan of the config is told of, in order: by its duty on its own scale
/// and its mode, and by what drives it; or by why it cannot be found.
pub proof fn law_fans_are_told_of(
    fs: SysfsView,
    chips: Seq<HwmonView>,
    pwm: Seq<PwmView>,
    p: PwmView,
    n: u32,
)
    ensures
        fans_lines(fs, chips, Seq::empty()) == Seq::<Seq<char>>::empty(),
        fans_lines(fs, chips, pwm.push(p)) == fans_lines(fs, chips, pwm) + fan_lines(fs, chips, p),
        hwmon::resolved(chips, p.hwmon) is None ==> fan_lines(fs, chips, p).len() == 1,
        hwmon::resolved(chips, p.hwmon) matches Some(c) ==> (types::channel_of(p.id) == Some(
            n as nat,
        ) ==> ({
            let lines = fan_lines(fs, chips, p);
            let tail = duty_column(temps::as_quantity(hwmon::duty_of(fs, c.dir, n, p.pwm_max)))
                + "  mode="@ + enable_name(
                hwmon::u32_reading(fs, c.dir, "pwm"@ + number::decimal(n as nat) + "_enable"@),
            ) + range_note(p.duty_min, p.duty_max);
            &&& lines[0].len() >= tail.len()
            &&& lines[0].skip(lines[0].len() - tail.len()) == tail
            &&& p.driving_sensors().len() == 0 ==> lines.len() == 1
            &&& p.driving_sensors().len() > 0 ==> lines.len() == 2 && lines[1]
                == "  └─ driven by "@ + aggregation_name(p.aggregation) + "("@ + text::joined(
                p.driving_sensors().map_values(|s: TempRefView| s.hwmon + ":"@ + s.sensor),
                ", "@,
            ) + ")"@
        })),
{
    assert(pwm.push(p).drop_last() =~= pwm);
    match hwmon::resolved(chips, p.hwmon) {
        Some(c) => {
            if types::channel_of(p.id) == Some(n as nat) {
                let lines = fan_lines(fs, chips, p);
                let tail = duty_column(temps::as_quantity(hwmon::duty_of(fs, c.dir, n, p.pwm_max)))
                    + "  mode="@ + enable_name(
                    hwmon::u32_reading(fs, c.dir, "pwm"@ + number::decimal(n as nat) + "_enable"@),
                ) + range_note(p.duty_min, p.duty_max);
                assert(lines[0].skip(lines[0].len() - tail.len()) =~= tail);
                assert(p.driving_sensors().map_values(|s: TempRefView| s.full_name())
                    =~= p.driving_sensors().map_values(
                    |s: TempRefView| s.hwmon + ":"@ + s.sensor,
                ));
            }
        },
        None => {},
    }
}

/// Every configured sensor has its line: with its reading in tenths and its
/// label, or that it has none. Groups whose chip is not there have none.
pub proof fn law_temperatures_are_told(
    fs: SysfsView,
    chips: Seq<HwmonView>,
    groups: Seq<TempSensorView>,
    g: TempSensorView,
    k: int,
)
    ensures
        temps_lines(fs, chips, Seq::empty()) == Seq::<Seq<char>>::empty(),
        hwmon::resolved(chips, g.hwmon) is None ==> temps_lines(fs, chips, groups.push(g))
            == temps_lines(fs, chips, groups),
        hwmon::resolved(chips, g.hwmon) matches Some(c) ==> ({
            let all = temps_lines(fs, chips, groups.push(g));
            let n = temps_lines(fs, chips, groups).len();
            &&& all.len() == n + g.sensors.len()
            &&& all.take(n as int) == temps_lines(fs, chips, groups)
            &&& 0 <= k < g.sensors.len() ==> ({
                let l = all[n + k];
                let tail = match temps::hwmon_celsius(fs, c.dir, g.sensors[k]) {
                    Some(t) => text::flush_right(quantity::shown_tenths(t), 6) + "°C  ("@
                        + temps::hwmon_label(fs, c.dir, g.sensors[k]) + ")"@,
                    None => "  -- no reading --"@,
                };
                l.len() >= tail.len() && l.skip(l.len() - tail.len()) == tail
            })
        }),
{
    assert(groups.push(g).drop_last() =~= groups);
    let n = temps_lines(fs, chips, groups).len();
    assert(temps_lines(fs, chips, groups.push(g)).take(n as int) =~= temps_lines(
        fs,
        chips,
        groups,
    ));
    match hwmon::resolved(chips, g.hwmon) {
        Some(c) => {
            if 0 <= k < g.sensors.len() {
                let l = temps_lines(fs, chips, groups.push(g))[n + k];
                assert(l == temp_line(fs, c, g.hwmon, g.sensors[k]));
                let tail = match temps::hwmon_celsius(fs, c.dir, g.sensors[k]) {
                    Some(t) => text::flush_right(quantity::shown_tenths(t), 6) + "°C  ("@
                        + temps::hwmon_label(fs, c.dir, g.sensors[k]) + ")"@,
                    None => "  -- no reading --"@,
                };
                assert(l.skip(l.len() - tail.len()) =~= tail);
            }
        },
        None => {},
    }
}

/// The summary has its sections in order: the channels, the fans of the
/// config, the temperatures, and the GPUs where there are any.
pub proof fn law_summary_sections(cfg: ConfigView, fs: SysfsView, gpus: Seq<NvidiaGpuView>, k: int)
    ensures
        ({
            let chips = hwmon::chips_of(fs);
            let s = summary_lines(cfg, fs, gpus);
            let channels = channels_of(fs, chips).len();
            let a = if channels == 0 {
                2
            } else {
                1 + channels as int
            };
            let fans = fans_lines(fs, chips, cfg.pwm);
            let b = a + 2 + fans.len();
            let readings = temps_lines(fs, chips, cfg.temp_sensors);
            let c = b + 2 + readings.len();
            &&& s[0] == "PWM channels"@ && s[a + 1] == "Fans"@ && s[b + 1] == "Temperatures"@
            &&& s.subrange(a + 2, b) == fans
            &&& s.subrange(b + 2, c) == readings
            &&& gpus.len() == 0 ==> s.len() == c
            &&& gpus.len() > 0 ==> s.len() == c + 2 + gpus.len() && s[c + 1] == "GPUs (NVML)"@
            &&& 0 <= k < gpus.len() ==> s[c + 2 + k] == gpu_line(gpus[k])
        }),
{
    let chips = hwmon::chips_of(fs);
    let s = summary_lines(cfg, fs, gpus);
    let channels = channels_of(fs, chips).len();
    let a = if channels == 0 {
        2
    } else {
        1 + channels as int
    };
    let fans = fans_lines(fs, chips, cfg.pwm);
    let b = a + 2 + fans.len();
    let readings = temps_lines(fs, chips, cfg.temp_sensors);
    let c = b + 2 + readings.len();
    let head = channel_section(channels_of(fs, chips));
    assert(head.len() == a);
    assert(s.subrange(a + 2, b) =~= fans);
    assert(s.subrange(b + 2, c) =~= readings);
}

/// A GPU's line ends with its temperature.
pub proof fn law_gpu_lines(g: NvidiaGpuView)
    ensures
        ({
            let l = gpu_line(g);
            let m = probed_gpu_line(g);
            let tail = match g.temp_c {
                Some(t) => text::flush_right(quantity::shown_tenths(t as int), 6) + "°C"@,
                None => "   n/a"@ + "°C"@,
            };
            let end = match g.temp_c {
                Some(t) => text::flush_right(quantity::shown_whole(t as int), 5) + "°C"@,
                None => text::flush_right("n/a"@, 5) + "°C"@,
            };
            &&& l.len() >= tail.len() && l.skip(l.len() - tail.len()) == tail
            &&& m.len() >= end.len() && m.skip(m.len() - end.len()) == end
        }),
{
    let l = gpu_line(g);
    let m = probed_gpu_line(g);
    let tail = match g.temp_c {
        Some(t) => text::flush_right(quantity::shown_tenths(t as int), 6) + "°C"@,
        None => "   n/a"@ + "°C"@,
    };
    let end = match g.temp_c {
        Some(t) => text::flush_right(quantity::shown_whole(t as int), 5) + "°C"@,
        None => text::flush_right("n/a"@, 5) + "°C"@,
    };
    assert(l.skip(l.len() - tail.len()) =~= tail);
    assert(m.skip(m.len() - end.len()) =~= end);
}

/// A probe lists every chip, in order, with the numbers of its channels,
/// sensors and tachometers, and then the GPUs.
pub proof fn law_probe_lists_every_chip(fs: SysfsView, gpus: Seq<NvidiaGpuView>, i: int, k: int)
    ensures
        ({
            let chips = hwmon::chips_of(fs);
            let p = probe_lines(fs, gpus);
            &&& 0 <= i < chips.len() ==> ({
                let c = chips[i];
                let files = hwmon::files_in(fs, c.dir);
                let tail = c.dir + "  pwm="@ + number_list(hwmon::numbers_among(files, "pwm"@))
                    + " temp="@ + number_list(hwmon::numbers_among(files, "temp"@)) + " fan="@
                    + number_list(hwmon::numbers_among(files, "fan"@));
                p[i].len() >= tail.len() && p[i].skip(p[i].len() - tail.len()) == tail
                    && p[i].take(c.name.len() as int) == c.name
            })
            &&& gpus.len() == 0 ==> p.len() == chips.len()
            &&& gpus.len() > 0 ==> p.len() == chips.len() + 2 + gpus.len()
            &&& 0 <= k < gpus.len() ==> p[chips.len() + 2 + k] == probed_gpu_line(gpus[k])
        }),
{
    let chips = hwmon::chips_of(fs);
    let p = probe_lines(fs, gpus);
    if 0 <= i < chips.len() {
        let c = chips[i];
        let files = hwmon::files_in(fs, c.dir);
        assert(p[i] == chip_line(fs, c));
        let tail = c.dir + "  pwm="@ + number_list(hwmon::numbers_among(files, "pwm"@)) + " temp="@
            + number_list(hwmon::numbers_among(files, "temp"@)) + " fan="@ + number_list(
            hwmon::numbers_among(files, "fan"@),
        );
        assert(p[i].skip(p[i].len() - tail.len()) =~= tail);
        assert(p[i].take(c.name.len() as int) =~= c.name);
    }
}

} // verus!
