//! The temperature readings the daemon shows: which there are, and what they
//! are at each tick.

use vstd::prelude::*;
use crate::config::types::{Aggregation, TempRef, TempRefView, TempSensor, TempSensorView};
use crate::hwmon;
use crate::hwmon::{Hwmon, HwmonView, Sysfs, SysfsView};
use crate::ipc::{Temp, TempView};
use crate::json;
use crate::number;
use crate::quantity;
use crate::temps;
use crate::temps::{NvidiaGpu, NvidiaGpuView};
use crate::text;

verus! {

// ---- the list -------------------------------------------------------------

/// The entry for a sensor of a chip, not read yet.
pub open spec fn hwmon_temp(c: HwmonView, fs: SysfsView, sensor: Seq<char>) -> TempView {
    TempView {
        refname: c.dir + ":"@ + sensor,
        label: temps::hwmon_label(fs, c.dir, sensor),
        source: "hwmon"@,
        celsius: None,
    }
}

/// The entries for the configured sensors; groups whose chip is not there
/// are left out.
pub open spec fn hwmon_temps(
    chips: Seq<HwmonView>,
    fs: SysfsView,
    groups: Seq<TempSensorView>,
) -> Seq<TempView>
    decreases groups.len(),
{
    if groups.len() == 0 {
        Seq::empty()
    } else {
        let rest = hwmon_temps(chips, fs, groups.drop_last());
        match hwmon::resolved(chips, groups.last().hwmon) {
            Some(c) => rest + groups.last().sensors.map_values(
                |s: Seq<char>| hwmon_temp(c, fs, s),
            ),
            None => rest,
        }
    }
}

/// The entries for the sensors of one lm-sensors chip: those with an input.
pub open spec fn lm_chip_temps(chip: Seq<char>, sensors: Seq<(Seq<char>, Seq<char>)>) -> Seq<
    TempView,
>
    decreases sensors.len(),
{
    if sensors.len() == 0 {
        Seq::empty()
    } else {
        let rest = lm_chip_temps(chip, sensors.drop_last());
        match temps::lm_input(json::parsed(sensors.last().1)) {
            Some(v) => rest.push(
                TempView {
                    refname: "lm:"@ + chip + ":"@ + sensors.last().0,
                    label: sensors.last().0,
                    source: "lm"@,
                    celsius: Some(v as i64),
                },
            ),
            None => rest,
        }
    }
}

/// The entries for lm-sensors chips.
pub open spec fn lm_chips_temps(chips: Seq<(Seq<char>, Seq<char>)>) -> Seq<TempView>
    decreases chips.len(),
{
    if chips.len() == 0 {
        Seq::empty()
    } else {
        let rest = lm_chips_temps(chips.drop_last());
        match json::parsed(chips.last().1) {
            json::JsonView::Object(sensors) => rest + lm_chip_temps(chips.last().0, sensors),
            _ => rest,
        }
    }
}

/// The entries for a `sensors -j` document.
pub open spec fn lm_temps(doc: json::JsonView) -> Seq<TempView> {
    match doc {
        json::JsonView::Object(chips) => lm_chips_temps(chips),
        _ => Seq::empty(),
    }
}

/// The entry for a GPU.
pub open spec fn gpu_temp(g: NvidiaGpuView) -> TempView {
    TempView {
        refname: "nvidia:gpu"@ + number::decimal(g.index as nat),
        label: "GPU "@ + number::decimal(g.index as nat) + " "@ + g.name,
        source: "nvidia"@,
        celsius: g.temp_c,
    }
}

/// The entries for GPUs.
pub open spec fn gpu_temps(gpus: Seq<NvidiaGpuView>) -> Seq<TempView> {
    gpus.map_values(|g: NvidiaGpuView| gpu_temp(g))
}

/// Add the configured hwmon sensors to the list.
pub fn add_hwmon(out: &mut Vec<Temp>, chips: &Vec<Hwmon>, fs: &Sysfs, groups: &Vec<TempSensor>)
    ensures
        final(out).deep_view() == old(out).deep_view() + hwmon_temps(
            chips.deep_view(),
            fs@,
            groups.deep_view(),
        ),
{
    let ghost before = out.deep_view();
    let ghost gs = groups.deep_view();
    let ghost cs = chips.deep_view();
    let mut i: usize = 0;
    assert(gs.take(0) =~= Seq::<TempSensorView>::empty());
    assert(before + hwmon_temps(cs, fs@, gs.take(0)) =~= before);
    while i < groups.len()
        invariant
            i <= groups@.len(),
            gs == groups.deep_view(),
            cs == chips.deep_view(),
            out.deep_view() == before + hwmon_temps(cs, fs@, gs.take(i as int)),
        decreases groups@.len() - i,
    {
        let ghost so_far = out.deep_view();
        proof {
            assert(gs.take(i + 1).drop_last() =~= gs.take(i as int));
            assert(gs.take(i + 1).last() == groups@[i as int]@);
        }
        match hwmon::resolve(chips, groups[i].hwmon.as_str()) {
            Some(c) => {
                let ghost names = groups@[i as int].sensors.deep_view();
                let ghost entry = |s: Seq<char>| hwmon_temp(c@, fs@, s);
                let mut k: usize = 0;
                assert(so_far + names.take(0).map_values(entry) =~= so_far);
                while k < groups[i].sensors.len()
                    invariant
                        i < groups@.len(),
                        k <= groups@[i as int].sensors@.len(),
                        names == groups@[i as int].sensors.deep_view(),
                        entry == (|s: Seq<char>| hwmon_temp(c@, fs@, s)),
                        out.deep_view() == so_far + names.take(k as int).map_values(entry),
                    decreases groups@[i as int].sensors@.len() - k,
                {
                    let ghost now = out.deep_view();
                    let sensor = groups[i].sensors[k].as_str();
                    assert(names[k as int] == sensor@);
                    let t = Temp {
                        refname: text::cat3(c.dir.as_str(), ":", sensor),
                        label: temps::chip_label(c, fs, sensor),
                        source: text::owned("hwmon"),
                        celsius: None,
                    };
                    out.push(t);
                    proof {
                        assert(out.deep_view() =~= now.push(t@));
                        assert(names.take(k + 1).map_values(entry) =~= names.take(
                            k as int,
                        ).map_values(entry).push(t@));
                        assert(out.deep_view() =~= so_far + names.take(k + 1).map_values(entry));
                    }
                    k += 1;
                }
                proof {
                    assert(names.take(k as int) =~= names);
                    assert(out.deep_view() =~= before + hwmon_temps(cs, fs@, gs.take(i + 1)));
                }
            },
            None => {},
        }
        i += 1;
    }
    assert(gs.take(i as int) =~= gs);
}

fn add_lm_chip(out: &mut Vec<Temp>, chip: &str, sensors: &Vec<(String, String)>)
    ensures
        final(out).deep_view() == old(out).deep_view() + lm_chip_temps(chip@, sensors.deep_view()),
{
    let ghost before = out.deep_view();
    let ghost ss = sensors.deep_view();
    let mut i: usize = 0;
    assert(ss.take(0) =~= Seq::<(Seq<char>, Seq<char>)>::empty());
    assert(before + lm_chip_temps(chip@, ss.take(0)) =~= before);
    while i < sensors.len()
        invariant
            i <= sensors@.len(),
            ss == sensors.deep_view(),
            out.deep_view() == before + lm_chip_temps(chip@, ss.take(i as int)),
        decreases sensors@.len() - i,
    {
        let ghost so_far = out.deep_view();
        proof {
            assert(ss.take(i + 1).drop_last() =~= ss.take(i as int));
            assert(ss.take(i + 1).last() == (sensors@[i as int].0@, sensors@[i as int].1@));
        }
        let so = json::parse(sensors[i].1.as_str());
        match temps::sensor_input(&so) {
            Some(v) => {
                let head = text::cat3("lm:", chip, ":");
                let t = Temp {
                    refname: text::cat(head.as_str(), sensors[i].0.as_str()),
                    label: sensors[i].0.clone(),
                    source: text::owned("lm"),
                    celsius: Some(v),
                };
                out.push(t);
                proof {
                    assert(out.deep_view() =~= so_far.push(t@));
                    assert(out.deep_view() =~= before + lm_chip_temps(chip@, ss.take(i + 1)));
                }
            },
            None => {},
        }
        i += 1;
    }
    assert(ss.take(i as int) =~= ss);
}

/// Add the sensors of a parsed `sensors -j` document to the list.
pub fn add_lm_document(out: &mut Vec<Temp>, doc: &json::Json)
    ensures
        final(out).deep_view() == old(out).deep_view() + lm_temps(doc@),
{
    let ghost before = out.deep_view();
    match doc {
        json::Json::Object(chips) => {
            let ghost cs = chips.deep_view();
            let mut i: usize = 0;
            assert(cs.take(0) =~= Seq::<(Seq<char>, Seq<char>)>::empty());
            assert(before + lm_chips_temps(cs.take(0)) =~= before);
            while i < chips.len()
                invariant
                    i <= chips@.len(),
                    cs == chips.deep_view(),
                    out.deep_view() == before + lm_chips_temps(cs.take(i as int)),
                decreases chips@.len() - i,
            {
                proof {
                    assert(cs.take(i + 1).drop_last() =~= cs.take(i as int));
                    assert(cs.take(i + 1).last() == (chips@[i as int].0@, chips@[i as int].1@));
                }
                let o = json::parse(chips[i].1.as_str());
                match &o {
                    json::Json::Object(sensors) => {
                        add_lm_chip(out, chips[i].0.as_str(), sensors);
                        assert(out.deep_view() =~= before + lm_chips_temps(cs.take(i + 1)));
                    },
                    _ => {},
                }
                i += 1;
            }
            assert(cs.take(i as int) =~= cs);
        },
        _ => {
            assert(before + lm_temps(doc@) =~= before);
        },
    }
}

/// Add the sensors of the `sensors -j` output to the list.
pub fn add_lm_sensors(out: &mut Vec<Temp>, doc: &str)
    ensures
        final(out).deep_view() == old(out).deep_view() + lm_temps(json::parsed(doc@)),
{
    let top = json::parse(doc);
    add_lm_document(out, &top);
}

/// Add the GPUs to the list.
pub fn add_nvidia(out: &mut Vec<Temp>, gpus: &Vec<NvidiaGpu>)
    ensures
        final(out).deep_view() == old(out).deep_view() + gpu_temps(gpus.deep_view()),
{
    let ghost before = out.deep_view();
    let ghost gs = gpus.deep_view();
    let mut i: usize = 0;
    assert(before + gpu_temps(gs.take(0)) =~= before);
    while i < gpus.len()
        invariant
            i <= gpus@.len(),
            gs == gpus.deep_view(),
            out.deep_view() == before + gpu_temps(gs.take(i as int)),
        decreases gpus@.len() - i,
    {
        let ghost so_far = out.deep_view();
        assert(gs[i as int] == gpus@[i as int]@);
        let n = number::u64_text(gpus[i].index as u64);
        let head = text::cat3("GPU ", n.as_str(), " ");
        let t = Temp {
            refname: text::cat("nvidia:gpu", n.as_str()),
            label: text::cat(head.as_str(), gpus[i].name.as_str()),
            source: text::owned("nvidia"),
            celsius: gpus[i].temp_c,
        };
        out.push(t);
        proof {
            assert(out.deep_view() =~= so_far.push(t@));
            assert(gpu_temps(gs.take(i + 1)) =~= gpu_temps(gs.take(i as int)).push(t@));
            assert(out.deep_view() =~= before + gpu_temps(gs.take(i + 1)));
        }
        i += 1;
    }
    assert(gs.take(i as int) =~= gs);
}

// ---- each tick ------------------------------------------------------------

/// The reading an `lm:chip:sensor` entry stands for.
pub open spec fn lm_entry_celsius(doc: Seq<char>, refname: Seq<char>) -> Option<int> {
    match text::after_prefix(refname, "lm:"@) {
        Some(rest) => match text::parted(rest, ':') {
            Some((chip, sensor)) => temps::lm_celsius(doc, chip, sensor),
            None => None,
        },
        None => None,
    }
}

/// Read an `lm:chip:sensor` value out of a `sensors -j` JSON document.
pub fn lm_value(doc: &str, refname: &str) -> (r: Option<i64>)
    ensures
        temps::as_int(r) == lm_entry_celsius(doc@, refname@),
{
    match text::strip_prefix(refname, "lm:") {
        Some(rest) => match text::split_once(rest.as_str(), ':') {
            Some((chip, sensor)) => temps::lm_sensor_celsius(doc, chip.as_str(), sensor.as_str()),
            None => None,
        },
        None => None,
    }
}

/// What an entry's reading is now; an entry of an unknown source, or a hwmon
/// entry without a colon in its id, keeps its reading.
pub open spec fn current_celsius(
    t: TempView,
    chips: Seq<HwmonView>,
    fs: SysfsView,
    nvidia: Seq<NvidiaGpuView>,
    lm: Option<Seq<char>>,
) -> Option<i64> {
    if t.source == "hwmon"@ {
        match text::parted(t.refname, ':') {
            Some((chip, sensor)) => match hwmon::resolved(chips, chip) {
                Some(c) => temps::as_quantity(temps::hwmon_celsius(fs, c.dir, sensor)),
                None => None,
            },
            None => t.celsius,
        }
    } else if t.source == "nvidia"@ {
        match text::after_prefix(t.refname, "nvidia:gpu"@) {
            Some(n) => temps::gpu_celsius(nvidia, number::parsed_nat(n, usize::MAX as nat)),
            None => None,
        }
    } else if t.source == "lm"@ {
        match lm {
            Some(doc) => temps::as_quantity(lm_entry_celsius(doc, t.refname)),
            None => None,
        }
    } else {
        t.celsius
    }
}

/// An entry with its reading brought up to date.
pub open spec fn refreshed(
    t: TempView,
    chips: Seq<HwmonView>,
    fs: SysfsView,
    nvidia: Seq<NvidiaGpuView>,
    lm: Option<Seq<char>>,
) -> TempView {
    TempView { celsius: current_celsius(t, chips, fs, nvidia, lm), ..t }
}

fn refresh(
    t: &Temp,
    chips: &Vec<Hwmon>,
    fs: &Sysfs,
    nvidia: &Vec<NvidiaGpu>,
    lm: Option<&str>,
) -> (r: Option<i64>)
    ensures
        r == current_celsius(
            t@,
            chips.deep_view(),
            fs@,
            nvidia.deep_view(),
            lm.deep_view(),
        ),
{
    let source = t.source.as_str();
    if text::str_eq(source, "hwmon") {
        match text::split_once(t.refname.as_str(), ':') {
            Some((chip, sensor)) => match hwmon::resolve(chips, chip.as_str()) {
                Some(c) => temps::chip_celsius(c, fs, sensor.as_str()),
                None => None,
            },
            None => t.celsius,
        }
    } else if text::str_eq(source, "nvidia") {
        match text::strip_prefix(t.refname.as_str(), "nvidia:gpu") {
            Some(n) => temps::read_gpu(nvidia, n.as_str()),
            None => None,
        }
    } else if text::str_eq(source, "lm") {
        match lm {
            Some(doc) => lm_value(doc, t.refname.as_str()),
            None => None,
        }
    } else {
        t.celsius
    }
}

/// Bring every reading of the list up to date.
pub fn update_temps(
    list: &mut Vec<Temp>,
    chips: &Vec<Hwmon>,
    fs: &Sysfs,
    nvidia: &Vec<NvidiaGpu>,
    lm: Option<&str>,
)
    ensures
        final(list).deep_view() == old(list).deep_view().map_values(
            |t: TempView|
                refreshed(t, chips.deep_view(), fs@, nvidia.deep_view(), lm.deep_view()),
        ),
{
    let ghost before = list.deep_view();
    let ghost now = |t: TempView|
        refreshed(t, chips.deep_view(), fs@, nvidia.deep_view(), lm.deep_view());
    let mut i: usize = 0;
    while i < list.len()
        invariant
            i <= list@.len(),
            list@.len() == before.len(),
            now == (|t: TempView|
                refreshed(t, chips.deep_view(), fs@, nvidia.deep_view(), lm.deep_view())),
            forall|j: int| 0 <= j < i ==> #[trigger] list@[j]@ == now(before[j]),
            forall|j: int| i <= j < list@.len() ==> #[trigger] list@[j]@ == before[j],
        decreases list@.len() - i,
    {
        let c = refresh(&list[i], chips, fs, nvidia, lm);
        list[i].celsius = c;
        i += 1;
    }
    assert(list.deep_view() =~= before.map_values(now));
}

/// The entry and the reference named after a GPU read that GPU: the first in
/// the list with its index, wherever it stands there, and nothing where no
/// GPU has that index.
pub proof fn law_gpu_entry_reads_its_gpu(
    g: NvidiaGpuView,
    chips: Seq<HwmonView>,
    fs: SysfsView,
    nvidia: Seq<NvidiaGpuView>,
    lm: Option<Seq<char>>,
    i: nat,
)
    requires
        i <= nvidia.len(),
        i < nvidia.len() ==> nvidia[i as int].index == g.index,
        forall|j: int| 0 <= j < i ==> (#[trigger] nvidia[j]).index != g.index,
    ensures
        ({
            let now = if i < nvidia.len() {
                nvidia[i as int].temp_c
            } else {
                None
            };
            &&& refreshed(gpu_temp(g), chips, fs, nvidia, lm) == (TempView {
                celsius: now,
                ..gpu_temp(g)
            })
            &&& temps::sensor_celsius(
                chips,
                fs,
                nvidia,
                "nvidia"@,
                "gpu"@ + number::decimal(g.index as nat),
            ) == temps::as_int(now)
        }),
{
    let d = number::decimal(g.index as nat);
    reveal_strlit("hwmon");
    reveal_strlit("nvidia");
    assert("hwmon"@.len() != "nvidia"@.len());
    temps::lemma_gpu_place_is(nvidia, g.index as nat, i);
    number::law_decimal_round_trip(g.index as nat, usize::MAX as nat);
    let entry = "nvidia:gpu"@;
    let sensor = "gpu"@;
    assert((entry + d).take(entry.len() as int) =~= entry);
    assert((entry + d).skip(entry.len() as int) =~= d);
    assert((sensor + d).take(sensor.len() as int) =~= sensor);
    assert((sensor + d).skip(sensor.len() as int) =~= d);
}

// ---- what drives a curve --------------------------------------------------

/// The readings of the sensors that give one.
pub open spec fn sensor_readings(
    sensors: Seq<TempRefView>,
    chips: Seq<HwmonView>,
    fs: SysfsView,
    nvidia: Seq<NvidiaGpuView>,
) -> Seq<int>
    decreases sensors.len(),
{
    if sensors.len() == 0 {
        Seq::empty()
    } else {
        let rest = sensor_readings(sensors.drop_last(), chips, fs, nvidia);
        let s = sensors.last();
        match temps::sensor_celsius(chips, fs, nvidia, s.hwmon, s.sensor) {
            Some(v) => rest.push(v),
            None => rest,
        }
    }
}

/// The largest of a list of numbers.
pub open spec fn largest(vals: Seq<int>) -> int
    decreases vals.len(),
{
    if vals.len() <= 1 {
        vals[0]
    } else if largest(vals.drop_last()) < vals.last() {
        vals.last()
    } else {
        largest(vals.drop_last())
    }
}

/// The smallest of a list of numbers.
pub open spec fn smallest(vals: Seq<int>) -> int
    decreases vals.len(),
{
    if vals.len() <= 1 {
        vals[0]
    } else if vals.last() < smallest(vals.drop_last()) {
        vals.last()
    } else {
        smallest(vals.drop_last())
    }
}

/// The sum of a list of numbers.
pub open spec fn total(vals: Seq<int>) -> int
    decreases vals.len(),
{
    if vals.len() == 0 {
        0
    } else {
        total(vals.drop_last()) + vals.last()
    }
}

/// Several readings as one; `None` when there are none.
pub open spec fn aggregated(vals: Seq<int>, how: Aggregation) -> Option<int> {
    if vals.len() == 0 {
        None
    } else {
        Some(
            match how {
                Aggregation::Max => largest(vals),
                Aggregation::Min => smallest(vals),
                Aggregation::Avg => quantity::rounded(total(vals), vals.len() as int),
            },
        )
    }
}

proof fn lemma_rounded_shift(a: int, k: int, b: int)
    requires
        b > 0,
    ensures
        quantity::rounded(a + k * b, b) == quantity::rounded(a, b) + k,
{
    quantity::lemma_rounded(a, b);
    quantity::lemma_rounded(a + k * b, b);
    let x = quantity::rounded(a, b);
    let y = quantity::rounded(a + k * b, b);
    assert(y == x + k) by (nonlinear_arith)
        requires
            b > 0,
            2 * b * x <= 2 * a + b < 2 * b * (x + 1),
            2 * b * y <= 2 * (a + k * b) + b < 2 * b * (y + 1),
    ;
}

/// The nearest whole billionth to the average of readings.
fn average(vals: &Vec<i64>) -> (r: i64)
    requires
        vals@.len() > 0,
    ensures
        r == quantity::rounded(
            total(vals@.map_values(|v: i64| v as int)),
            vals@.len() as int,
        ),
{
    let ghost ints = vals@.map_values(|v: i64| v as int);
    // Each reading is taken from the bottom of the range of `i64`, so that
    // it is not negative, and the sum is kept as a multiple of the number of
    // readings and a rest.
    let n: u128 = vals.len() as u128;
    let mut q: u128 = 0;
    let mut rest: u128 = 0;
    let mut i: usize = 0;
    let ghost low = i64::MIN as int;
    while i < vals.len()
        invariant
            i <= vals@.len(),
            n == vals@.len(),
            0 < n <= 0xffff_ffff_ffff_ffff,
            ints == vals@.map_values(|v: i64| v as int),
            low == i64::MIN,
            rest < n,
            q * n + rest == total(ints.take(i as int)) - i * low,
            q * n <= i * 0xffff_ffff_ffff_ffff,
        decreases vals@.len() - i,
    {
        let v: u128 = ((vals[i] as i128) - (i64::MIN as i128)) as u128;
        proof {
            assert(v == vals@[i as int] - low);
            assert(q <= i * 0xffff_ffff_ffff_ffff) by (nonlinear_arith)
                requires
                    q * n <= i * 0xffff_ffff_ffff_ffff,
                    n >= 1,
                    q >= 0,
            ;
            assert(q < 0x1_0000_0000_0000_0000) by (nonlinear_arith)
                requires
                    q * n <= i * 0xffff_ffff_ffff_ffff,
                    i < n,
                    q >= 0,
            ;
            vstd::arithmetic::div_mod::lemma_fundamental_div_mod(v as int, n as int);
            assert(ints.take(i + 1).drop_last() =~= ints.take(i as int));
            assert(ints.take(i + 1).last() == vals@[i as int]);
        }
        let qv: u128 = v / n;
        let rv: u128 = v % n;
        let ghost q0 = q as int;
        let ghost r0 = rest as int;
        q = q + qv;
        rest = rest + rv;
        assert((q0 + qv) * n == q0 * n + qv * n) by (nonlinear_arith);
        assert(n * qv == qv * n) by (nonlinear_arith);
        if rest >= n {
            rest = rest - n;
            q = q + 1;
            assert((q0 + qv + 1) * n == q0 * n + qv * n + n) by (nonlinear_arith);
        }
        proof {
            assert((i + 1) * low == i * low + low) by (nonlinear_arith);
            assert(q * n + rest == q0 * n + r0 + v);
            let t = total(ints.take(i + 1)) - (i + 1) * low;
            lemma_offset_total(vals@, i + 1);
            assert(q * n <= t);
        }
        i += 1;
    }
    assert(ints.take(i as int) =~= ints);
    let up: u128 = if 2 * rest >= n {
        1
    } else {
        0
    };
    proof {
        let sum = total(ints) - n * low;
        assert(sum == q * n + rest);
        assert(q * n + rest >= 0) by (nonlinear_arith)
            requires
                q >= 0,
                n >= 0,
                rest >= 0,
        ;
        quantity::lemma_rounded_parts(sum, n as int);
        vstd::arithmetic::div_mod::lemma_fundamental_div_mod_converse(
            sum,
            n as int,
            q as int,
            rest as int,
        );
        assert(sum + low * n == total(ints)) by (nonlinear_arith)
            requires
                sum == total(ints) - n * low,
        ;
        lemma_rounded_shift(sum, low, n as int);
        assert(q <= 0xffff_ffff_ffff_ffff) by (nonlinear_arith)
            requires
                q * n <= n * 0xffff_ffff_ffff_ffff,
                n > 0,
        ;
        lemma_offset_total(vals@, n as int);
        assert(ints.take(n as int) =~= ints);
        assert(q + up <= 0xffff_ffff_ffff_ffff) by (nonlinear_arith)
            requires
                q * n + rest <= n * 0xffff_ffff_ffff_ffff,
                up == 1 ==> 2 * rest >= n,
                up <= 1,
                n > 0,
                q <= 0xffff_ffff_ffff_ffff,
        ;
    }
    let above: i128 = (q + up) as i128;
    (above + (i64::MIN as i128)) as i64
}

proof fn lemma_offset_total(vals: Seq<i64>, n: int)
    requires
        0 <= n <= vals.len(),
    ensures
        ({
            let ints = vals.map_values(|v: i64| v as int);
            0 <= total(ints.take(n)) - n * i64::MIN <= n * 0xffff_ffff_ffff_ffff
        }),
    decreases n,
{
    let ints = vals.map_values(|v: i64| v as int);
    if n > 0 {
        lemma_offset_total(vals, n - 1);
        assert(ints.take(n).drop_last() =~= ints.take(n - 1));
        assert(ints.take(n).last() == vals[n - 1]);
        assert(n * i64::MIN == (n - 1) * i64::MIN + i64::MIN) by (nonlinear_arith);
    }
}

/// Combine readings into one.
pub fn aggregate(vals: &Vec<i64>, how: Aggregation) -> (r: Option<i64>)
    ensures
        temps::as_int(r) == aggregated(vals@.map_values(|v: i64| v as int), how),
{
    let ghost ints = vals@.map_values(|v: i64| v as int);
    if vals.len() == 0 {
        return None;
    }
    match how {
        Aggregation::Avg => Some(average(vals)),
        Aggregation::Max => {
            let mut best: i64 = vals[0];
            let mut i: usize = 1;
            while i < vals.len()
                invariant
                    1 <= i <= vals@.len(),
                    ints == vals@.map_values(|v: i64| v as int),
                    best == largest(ints.take(i as int)),
                decreases vals@.len() - i,
            {
                assert(ints.take(i + 1).drop_last() =~= ints.take(i as int));
                if best < vals[i] {
                    best = vals[i];
                }
                i += 1;
            }
            assert(ints.take(i as int) =~= ints);
            Some(best)
        },
        Aggregation::Min => {
            let mut best: i64 = vals[0];
            let mut i: usize = 1;
            while i < vals.len()
                invariant
                    1 <= i <= vals@.len(),
                    ints == vals@.map_values(|v: i64| v as int),
                    best == smallest(ints.take(i as int)),
                decreases vals@.len() - i,
            {
                assert(ints.take(i + 1).drop_last() =~= ints.take(i as int));
                if vals[i] < best {
                    best = vals[i];
                }
                i += 1;
            }
            assert(ints.take(i as int) =~= ints);
            Some(best)
        },
    }
}

/// The single value that drives a fan's curve: the aggregated reading of all
/// its sensors. `None` when no sensor is readable.
pub fn driving_value(
    sensors: &Vec<TempRef>,
    aggregation: Aggregation,
    chips: &Vec<Hwmon>,
    fs: &Sysfs,
    nvidia: &Vec<NvidiaGpu>,
) -> (r: Option<i64>)
    ensures
        temps::as_int(r) == aggregated(
            sensor_readings(sensors.deep_view(), chips.deep_view(), fs@, nvidia.deep_view()),
            aggregation,
        ),
{
    let ghost ss = sensors.deep_view();
    let mut vals: Vec<i64> = Vec::new();
    let mut i: usize = 0;
    assert(ss.take(0) =~= Seq::<TempRefView>::empty());
    assert(vals@.map_values(|v: i64| v as int) =~= Seq::<int>::empty());
    while i < sensors.len()
        invariant
            i <= sensors@.len(),
            ss == sensors.deep_view(),
            vals@.map_values(|v: i64| v as int) == sensor_readings(
                ss.take(i as int),
                chips.deep_view(),
                fs@,
                nvidia.deep_view(),
            ),
        decreases sensors@.len() - i,
    {
        let ghost before = vals@.map_values(|v: i64| v as int);
        proof {
            assert(ss.take(i + 1).drop_last() =~= ss.take(i as int));
            assert(ss.take(i + 1).last() == sensors@[i as int]@);
        }
        match temps::read_sensor(
            chips,
            fs,
            nvidia,
            sensors[i].hwmon.as_str(),
            sensors[i].sensor.as_str(),
        ) {
            Some(v) => {
                vals.push(v);
                assert(vals@.map_values(|v: i64| v as int) =~= before.push(v as int));
            },
            None => {},
        }
        i += 1;
    }
    assert(ss.take(i as int) =~= ss);
    aggregate(&vals, aggregation)
}

/// The driving value lies between the coolest and the hottest reading, and
/// with one reading it is that reading, however readings are combined.
pub proof fn law_aggregate_between(vals: Seq<int>, how: Aggregation)
    requires
        vals.len() > 0,
    ensures
        aggregated(vals, how) matches Some(v) && smallest(vals) <= v <= largest(vals),
        forall|i: int| 0 <= i < vals.len() ==> smallest(vals) <= #[trigger] vals[i] <= largest(vals),
        vals.contains(smallest(vals)) && vals.contains(largest(vals)),
        vals.len() == 1 ==> aggregated(vals, how) == Some(vals[0]),
{
    lemma_extremes(vals);
    lemma_total_between(vals, smallest(vals), largest(vals));
    let n = vals.len() as int;
    let s = total(vals);
    quantity::lemma_rounded_exact(smallest(vals), n);
    quantity::lemma_rounded_exact(largest(vals), n);
    assert(n * smallest(vals) == smallest(vals) * n && n * largest(vals) == largest(vals) * n)
        by (nonlinear_arith);
    quantity::lemma_rounded_monotonic(smallest(vals) * n, s, n);
    quantity::lemma_rounded_monotonic(s, largest(vals) * n, n);
}

proof fn lemma_extremes(vals: Seq<int>)
    requires
        vals.len() > 0,
    ensures
        forall|i: int| 0 <= i < vals.len() ==> smallest(vals) <= #[trigger] vals[i] <= largest(vals),
        vals.contains(smallest(vals)) && vals.contains(largest(vals)),
        smallest(vals) <= largest(vals),
    decreases vals.len(),
{
    assert(vals.contains(vals[0]) && vals.contains(vals.last()));
    if vals.len() > 1 {
        let t = vals.drop_last();
        lemma_extremes(t);
        assert forall|i: int| 0 <= i < vals.len() implies smallest(vals) <= #[trigger] vals[i]
            <= largest(vals) by {
            if i < t.len() {
                assert(t[i] == vals[i]);
            }
        }
        let a = choose|a: int| 0 <= a < t.len() && t[a] == smallest(t);
        let b = choose|b: int| 0 <= b < t.len() && t[b] == largest(t);
        assert(vals[a] == smallest(t) && vals[b] == largest(t));
    }
}

proof fn lemma_total_between(vals: Seq<int>, lo: int, hi: int)
    requires
        forall|i: int| 0 <= i < vals.len() ==> lo <= #[trigger] vals[i] <= hi,
    ensures
        vals.len() * lo <= total(vals) <= vals.len() * hi,
    decreases vals.len(),
{
    if vals.len() > 0 {
        let t = vals.drop_last();
        assert forall|i: int| 0 <= i < t.len() implies lo <= #[trigger] t[i] <= hi by {
            assert(t[i] == vals[i]);
        }
        lemma_total_between(t, lo, hi);
        let n = vals.len() as int;
        assert(vals[n - 1] == vals.last());
        assert(n * lo == (n - 1) * lo + lo && n * hi == (n - 1) * hi + hi) by (nonlinear_arith);
    }
}

/// The sum of a list of numbers, taken from the front.
pub open spec fn sum(vals: Seq<int>) -> int {
    vals.fold_left(0int, |a: int, b: int| a + b)
}

proof fn lemma_sum(vals: Seq<int>)
    ensures
        sum(vals) == total(vals),
    decreases vals.len(),
{
    reveal_with_fuel(Seq::fold_left, 2);
    if vals.len() > 0 {
        lemma_sum(vals.drop_last());
    }
}

/// Several readings as one: with max the hottest of them, with min the
/// coolest, and with avg their sum by their number, to the nearest billionth
/// (a tie upwards). With no reading there is nothing.
pub proof fn law_readings_are_combined(vals: Seq<int>, i: int)
    requires
        0 <= i < vals.len(),
    ensures
        aggregated(vals, Aggregation::Max) matches Some(v) && vals.contains(v) && vals[i] <= v,
        aggregated(vals, Aggregation::Min) matches Some(v) && vals.contains(v) && v <= vals[i],
        aggregated(vals, Aggregation::Avg) matches Some(v) && 2 * vals.len() * v <= 2
            * vals.fold_left(0int, |a: int, b: int| a + b) + vals.len() < 2 * vals.len() * (v + 1),
        forall|how: Aggregation| #[trigger] aggregated(Seq::<int>::empty(), how) is None,
{
    lemma_extremes(vals);
    lemma_sum(vals);
    quantity::lemma_rounded(total(vals), vals.len() as int);
}

/// The readings that are combined are those of the fan's sensors: a list of
/// sensors gives what its parts give, one after the other, and one sensor
/// gives its reading, or nothing where it has none.
pub proof fn law_sensors_are_read_one_by_one(
    a: Seq<TempRefView>,
    b: Seq<TempRefView>,
    s: TempRefView,
    chips: Seq<HwmonView>,
    fs: SysfsView,
    nvidia: Seq<NvidiaGpuView>,
)
    ensures
        sensor_readings(a + b, chips, fs, nvidia) == sensor_readings(a, chips, fs, nvidia)
            + sensor_readings(b, chips, fs, nvidia),
        sensor_readings(Seq::empty(), chips, fs, nvidia) == Seq::<int>::empty(),
        sensor_readings(seq![s], chips, fs, nvidia) == match temps::sensor_celsius(
            chips,
            fs,
            nvidia,
            s.hwmon,
            s.sensor,
        ) {
            Some(v) => seq![v],
            None => Seq::empty(),
        },
    decreases b.len(),
{
    let none = Seq::<TempRefView>::empty();
    assert(seq![s].drop_last() =~= none);
    assert(sensor_readings(none, chips, fs, nvidia) =~= Seq::<int>::empty());
    assert(sensor_readings(seq![s], chips, fs, nvidia) =~= match temps::sensor_celsius(
        chips,
        fs,
        nvidia,
        s.hwmon,
        s.sensor,
    ) {
        Some(v) => seq![v],
        None => Seq::empty(),
    });
    if b.len() == 0 {
        assert(a + b =~= a);
        assert(sensor_readings(b, chips, fs, nvidia) =~= Seq::<int>::empty());
        assert(sensor_readings(a, chips, fs, nvidia) + Seq::<int>::empty() =~= sensor_readings(
            a,
            chips,
            fs,
            nvidia,
        ));
    } else {
        law_sensors_are_read_one_by_one(a, b.drop_last(), s, chips, fs, nvidia);
        assert((a + b).drop_last() =~= a + b.drop_last());
        assert((a + b).last() == b.last());
        assert(sensor_readings(a + b, chips, fs, nvidia) =~= sensor_readings(a, chips, fs, nvidia)
            + sensor_readings(b, chips, fs, nvidia));
    }
}

/// The sensors of a list that give a reading.
pub open spec fn reading_sensors(
    sensors: Seq<TempRefView>,
    chips: Seq<HwmonView>,
    fs: SysfsView,
    nvidia: Seq<NvidiaGpuView>,
) -> Set<int> {
    Set::new(
        |i: int|
            0 <= i < sensors.len() && temps::sensor_celsius(
                chips,
                fs,
                nvidia,
                sensors[i].hwmon,
                sensors[i].sensor,
            ) is Some,
    )
}

/// No sensor of a fan is left out: the reading of each is among those that
/// are combined, there are as many as there are sensors that give one, and
/// each is the reading of some sensor. Hence with max the driving value is at
/// least every sensor's reading, and with min at most.
pub proof fn law_no_sensor_is_left_out(
    sensors: Seq<TempRefView>,
    chips: Seq<HwmonView>,
    fs: SysfsView,
    nvidia: Seq<NvidiaGpuView>,
    i: int,
)
    requires
        0 <= i < sensors.len(),
    ensures
        ({
            let vals = sensor_readings(sensors, chips, fs, nvidia);
            let hit = reading_sensors(sensors, chips, fs, nvidia);
            &&& hit.finite() && vals.len() == hit.len()
            &&& temps::sensor_celsius(chips, fs, nvidia, sensors[i].hwmon, sensors[i].sensor) matches Some(
                v,
            ) ==> {
                &&& vals.contains(v)
                &&& aggregated(vals, Aggregation::Max) matches Some(t) && v <= t
                &&& aggregated(vals, Aggregation::Min) matches Some(t) && t <= v
            }
            &&& forall|v: int| #[trigger]
                vals.contains(v) ==> exists|k: int|
                    0 <= k < sensors.len() && temps::sensor_celsius(
                        chips,
                        fs,
                        nvidia,
                        (#[trigger] sensors[k]).hwmon,
                        sensors[k].sensor,
                    ) == Some(v)
        }),
    decreases sensors.len(),
{
    let vals = sensor_readings(sensors, chips, fs, nvidia);
    lemma_all_read(sensors, chips, fs, nvidia);
    match temps::sensor_celsius(chips, fs, nvidia, sensors[i].hwmon, sensors[i].sensor) {
        Some(v) => {
            assert(vals.contains(v));
            let k = choose|k: int| 0 <= k < vals.len() && vals[k] == v;
            lemma_extremes(vals);
            assert(smallest(vals) <= vals[k] <= largest(vals));
        },
        None => {},
    }
}

proof fn lemma_all_read(
    sensors: Seq<TempRefView>,
    chips: Seq<HwmonView>,
    fs: SysfsView,
    nvidia: Seq<NvidiaGpuView>,
)
    ensures
        ({
            let vals = sensor_readings(sensors, chips, fs, nvidia);
            let hit = reading_sensors(sensors, chips, fs, nvidia);
            &&& hit.finite() && vals.len() == hit.len()
            &&& forall|i: int|
                0 <= i < sensors.len() ==> (temps::sensor_celsius(
                    chips,
                    fs,
                    nvidia,
                    (#[trigger] sensors[i]).hwmon,
                    sensors[i].sensor,
                ) matches Some(v) ==> vals.contains(v))
            &&& forall|v: int| #[trigger]
                vals.contains(v) ==> exists|k: int|
                    0 <= k < sensors.len() && temps::sensor_celsius(
                        chips,
                        fs,
                        nvidia,
                        (#[trigger] sensors[k]).hwmon,
                        sensors[k].sensor,
                    ) == Some(v)
        }),
    decreases sensors.len(),
{
    let vals = sensor_readings(sensors, chips, fs, nvidia);
    let hit = reading_sensors(sensors, chips, fs, nvidia);
    if sensors.len() == 0 {
        assert(hit =~= Set::<int>::empty());
    } else {
        let t = sensors.drop_last();
        let n = sensors.len() - 1;
        lemma_all_read(t, chips, fs, nvidia);
        let before = sensor_readings(t, chips, fs, nvidia);
        let had = reading_sensors(t, chips, fs, nvidia);
        let last = temps::sensor_celsius(
            chips,
            fs,
            nvidia,
            sensors[n].hwmon,
            sensors[n].sensor,
        );
        if last is Some {
            assert(hit =~= had.insert(n));
            assert(vals[vals.len() - 1] == last->0);
        } else {
            assert(hit =~= had);
        }
        assert forall|i: int| 0 <= i < sensors.len() implies (temps::sensor_celsius(
            chips,
            fs,
            nvidia,
            (#[trigger] sensors[i]).hwmon,
            sensors[i].sensor,
        ) matches Some(v) ==> vals.contains(v)) by {
            if i < n {
                assert(t[i] == sensors[i]);
                match temps::sensor_celsius(
                    chips,
                    fs,
                    nvidia,
                    sensors[i].hwmon,
                    sensors[i].sensor,
                ) {
                    Some(v) => {
                        assert(before.contains(v));
                        let k = choose|k: int| 0 <= k < before.len() && before[k] == v;
                        assert(vals[k] == v);
                    },
                    None => {},
                }
            }
        }
        assert forall|v: int| #[trigger] vals.contains(v) implies exists|k: int|
            0 <= k < sensors.len() && temps::sensor_celsius(
                chips,
                fs,
                nvidia,
                (#[trigger] sensors[k]).hwmon,
                sensors[k].sensor,
            ) == Some(v) by {
            let k = choose|k: int| 0 <= k < vals.len() && vals[k] == v;
            if k < before.len() {
                assert(before.contains(v));
                let j = choose|j: int|
                    0 <= j < t.len() && temps::sensor_celsius(
                        chips,
                        fs,
                        nvidia,
                        (#[trigger] t[j]).hwmon,
                        t[j].sensor,
                    ) == Some(v);
                assert(sensors[j] == t[j]);
            } else {
                assert(sensors[n].hwmon == sensors.last().hwmon);
            }
        }
    }
}

// ---- what is listed and shown ---------------------------------------------

/// The configured sensors are listed group by group, each on the chip its
/// group names; a group whose chip is not there lists nothing. An entry goes
/// by the chip's directory and the sensor, and under the sensor's label.
pub proof fn law_configured_sensors_are_listed(
    chips: Seq<HwmonView>,
    fs: SysfsView,
    groups: Seq<TempSensorView>,
    g: TempSensorView,
    k: int,
)
    ensures
        hwmon_temps(chips, fs, Seq::empty()) == Seq::<TempView>::empty(),
        hwmon::resolved(chips, g.hwmon) is None ==> hwmon_temps(chips, fs, groups.push(g))
            == hwmon_temps(chips, fs, groups),
        hwmon::resolved(chips, g.hwmon) matches Some(c) ==> ({
            let all = hwmon_temps(chips, fs, groups.push(g));
            let n = hwmon_temps(chips, fs, groups).len();
            &&& all.len() == n + g.sensors.len()
            &&& all.take(n as int) == hwmon_temps(chips, fs, groups)
            &&& 0 <= k < g.sensors.len() ==> {
                let t = all[n + k];
                &&& t.refname == c.dir + ":"@ + g.sensors[k]
                &&& t.label == temps::hwmon_label(fs, c.dir, g.sensors[k])
                &&& t.source == "hwmon"@
                &&& t.celsius is None
            }
        }),
{
    assert(groups.push(g).drop_last() =~= groups);
    let n = hwmon_temps(chips, fs, groups).len();
    assert(hwmon_temps(chips, fs, groups.push(g)).take(n as int) =~= hwmon_temps(
        chips,
        fs,
        groups,
    ));
}

/// Every GPU is listed, in order, under its index and name, with its
/// temperature.
pub proof fn law_gpus_are_listed(gpus: Seq<NvidiaGpuView>, k: int)
    requires
        0 <= k < gpus.len(),
    ensures
        ({
            let t = gpu_temps(gpus)[k];
            let d = number::decimal(gpus[k].index as nat);
            &&& gpu_temps(gpus).len() == gpus.len()
            &&& t.refname == "nvidia:gpu"@ + d
            &&& t.label == "GPU "@ + d + " "@ + gpus[k].name
            &&& t.source == "nvidia"@
            &&& t.celsius == gpus[k].temp_c
        }),
{
}

/// The sensors of lm-sensors are listed chip by chip: those with an `input`
/// number, with that number.
pub proof fn law_lm_sensors_are_listed(
    chip: Seq<char>,
    sensors: Seq<(Seq<char>, Seq<char>)>,
    s: (Seq<char>, Seq<char>),
    chips: Seq<(Seq<char>, Seq<char>)>,
    c: (Seq<char>, Seq<char>),
)
    ensures
        lm_chip_temps(chip, Seq::empty()) == Seq::<TempView>::empty(),
        temps::lm_input(json::parsed(s.1)) is None ==> lm_chip_temps(chip, sensors.push(s))
            == lm_chip_temps(chip, sensors),
        temps::lm_input(json::parsed(s.1)) matches Some(v) ==> lm_chip_temps(chip, sensors.push(s))
            == lm_chip_temps(chip, sensors).push(
            TempView {
                refname: "lm:"@ + chip + ":"@ + s.0,
                label: s.0,
                source: "lm"@,
                celsius: Some(v as i64),
            },
        ),
        lm_temps(json::JsonView::Object(Seq::empty())) == Seq::<TempView>::empty(),
        json::parsed(c.1) matches json::JsonView::Object(m) ==> lm_temps(
            json::JsonView::Object(chips.push(c)),
        ) == lm_temps(json::JsonView::Object(chips)) + lm_chip_temps(c.0, m),
        !(json::parsed(c.1) is Object) ==> lm_temps(json::JsonView::Object(chips.push(c)))
            == lm_temps(json::JsonView::Object(chips)),
        forall|j: json::JsonView| !(j is Object) ==> #[trigger] lm_temps(j) == Seq::<TempView>::empty(),
{
    assert(sensors.push(s).drop_last() =~= sensors);
    assert(chips.push(c).drop_last() =~= chips);
}

/// Each tick an entry of a chip shows what its sensor reads then, and only its
/// reading changes.
pub proof fn law_hwmon_entry_is_refreshed(
    t: TempView,
    chips: Seq<HwmonView>,
    fs: SysfsView,
    nvidia: Seq<NvidiaGpuView>,
    lm: Option<Seq<char>>,
    chip: Seq<char>,
    sensor: Seq<char>,
)
    requires
        t.source == "hwmon"@,
        t.refname == chip + ":"@ + sensor,
        !chip.contains(':'),
    ensures
        ({
            let n = refreshed(t, chips, fs, nvidia, lm);
            &&& n == (TempView { celsius: n.celsius, ..t })
            &&& hwmon::resolved(chips, chip) is None ==> n.celsius is None
            &&& hwmon::resolved(chips, chip) matches Some(c) ==> match temps::hwmon_celsius(
                fs,
                c.dir,
                sensor,
            ) {
                Some(v) => n.celsius == Some(v as i64),
                None => n.celsius is None,
            }
        }),
{
    reveal_strlit(":");
    text::law_text_is_split(chip, ':', sensor);
    assert(":"@ =~= seq![':']);
}

/// Each tick an entry of lm-sensors shows what the document says of its chip
/// and sensor then; without a document it shows nothing.
pub proof fn law_lm_entry_is_refreshed(
    t: TempView,
    chips: Seq<HwmonView>,
    fs: SysfsView,
    nvidia: Seq<NvidiaGpuView>,
    doc: Seq<char>,
    chip: Seq<char>,
    sensor: Seq<char>,
)
    requires
        t.source == "lm"@,
        t.refname == "lm:"@ + chip + ":"@ + sensor,
        !chip.contains(':'),
    ensures
        refreshed(t, chips, fs, nvidia, None).celsius is None,
        match temps::lm_celsius(doc, chip, sensor) {
            Some(v) => refreshed(t, chips, fs, nvidia, Some(doc)).celsius == Some(v as i64),
            None => refreshed(t, chips, fs, nvidia, Some(doc)).celsius is None,
        },
{
    reveal_strlit(":");
    reveal_strlit("lm");
    reveal_strlit("hwmon");
    reveal_strlit("nvidia");
    assert("lm"@.len() == 2 && "hwmon"@.len() == 5 && "nvidia"@.len() == 6);
    text::law_text_is_split(chip, ':', sensor);
    assert(":"@ =~= seq![':']);
    let rest = chip + ":"@ + sensor;
    text::law_ends_are_stripped("lm:"@, rest, ':');
    assert(t.refname =~= "lm:"@ + rest);
}

/// A sensor that is on no GPU reads the same whatever GPUs there are.
pub proof fn lemma_gpus_do_not_matter(
    sensors: Seq<TempRefView>,
    chips: Seq<HwmonView>,
    fs: SysfsView,
    some: Seq<NvidiaGpuView>,
    other: Seq<NvidiaGpuView>,
)
    requires
        forall|i: int| 0 <= i < sensors.len() ==> (#[trigger] sensors[i]).hwmon != "nvidia"@,
    ensures
        sensor_readings(sensors, chips, fs, some) == sensor_readings(sensors, chips, fs, other),
    decreases sensors.len(),
{
    if sensors.len() > 0 {
        let t = sensors.drop_last();
        assert forall|i: int| 0 <= i < t.len() implies (#[trigger] t[i]).hwmon != "nvidia"@ by {
            assert(sensors[i].hwmon != "nvidia"@);
        }
        lemma_gpus_do_not_matter(t, chips, fs, some, other);
        assert(sensors[sensors.len() - 1].hwmon != "nvidia"@);
    }
}

/// An entry of no known source keeps its reading, and so does a chip's entry
/// whose name has no colon.
pub proof fn law_other_entries_stay(
    t: TempView,
    chips: Seq<HwmonView>,
    fs: SysfsView,
    nvidia: Seq<NvidiaGpuView>,
    lm: Option<Seq<char>>,
)
    ensures
        t.source != "hwmon"@ && t.source != "nvidia"@ && t.source != "lm"@ ==> refreshed(
            t,
            chips,
            fs,
            nvidia,
            lm,
        ) == t,
        t.source == "hwmon"@ && !t.refname.contains(':') ==> refreshed(t, chips, fs, nvidia, lm)
            == t,
{
    if !t.refname.contains(':') {
        text::law_text_is_split(t.refname, ':', Seq::empty());
    }
}

} // verus!
