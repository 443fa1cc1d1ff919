//! A unified, source-agnostic temperature reading, and the readers that
//! populate it: hwmon sysfs, NVIDIA GPUs (NVML, with the `nvidia-smi` output
//! as a fallback), and the output of `sensors -j` (lm-sensors).

use vstd::prelude::*;
use crate::hwmon;
use crate::hwmon::{Hwmon, HwmonView, Sysfs, SysfsView};
use crate::json;
use crate::number;
use crate::quantity;
use crate::quantity::UNIT;
use crate::text;

verus! {

/// A single temperature reading, with a display label.
#[derive(Debug, PartialEq)]
pub struct TempReading {
    /// A stable identifier, e.g. `it8792:temp3` or `lm:acpitz-acpi-0:temp1`.
    pub source: String,
    /// A human label, e.g. `Tctl` or `Composite`.
    pub label: String,
    pub celsius: i64,
}

/// A [`TempReading`] with its text as character sequences.
pub struct TempReadingView {
    pub source: Seq<char>,
    pub label: Seq<char>,
    pub celsius: int,
}

impl View for TempReading {
    type V = TempReadingView;

    open spec fn view(&self) -> TempReadingView {
        TempReadingView { source: self.source@, label: self.label@, celsius: self.celsius as int }
    }
}

impl DeepView for TempReading {
    type V = TempReadingView;

    open spec fn deep_view(&self) -> TempReadingView {
        self.view()
    }
}

/// A single NVIDIA GPU.
#[derive(Debug, PartialEq)]
pub struct NvidiaGpu {
    pub index: u32,
    pub name: String,
    pub temp_c: Option<i64>,
    pub fan_percent: Option<i64>,
}

/// A [`NvidiaGpu`] with its text as character sequences.
pub struct NvidiaGpuView {
    pub index: u32,
    pub name: Seq<char>,
    pub temp_c: Option<i64>,
    pub fan_percent: Option<i64>,
}

impl View for NvidiaGpu {
    type V = NvidiaGpuView;

    open spec fn view(&self) -> NvidiaGpuView {
        NvidiaGpuView {
            index: self.index,
            name: self.name@,
            temp_c: self.temp_c,
            fan_percent: self.fan_percent,
        }
    }
}

impl DeepView for NvidiaGpu {
    type V = NvidiaGpuView;

    open spec fn deep_view(&self) -> NvidiaGpuView {
        self.view()
    }
}

impl Clone for NvidiaGpu {
    fn clone(&self) -> (r: NvidiaGpu)
        ensures
            r@ == self@,
    {
        NvidiaGpu {
            index: self.index,
            name: self.name.clone(),
            temp_c: self.temp_c,
            fan_percent: self.fan_percent,
        }
    }
}

// ---- hwmon ----------------------------------------------------------------

/// The reading of a chip's sensor, if it gives one.
pub open spec fn hwmon_celsius(fs: SysfsView, dir: Seq<char>, sensor: Seq<char>) -> Option<int> {
    match hwmon::int_reading(fs, dir, sensor + "_input"@) {
        Some(v) => Some(quantity::from_milli(v)),
        None => None,
    }
}

/// The label of a chip's sensor: that of its `_label` file, or its name.
pub open spec fn hwmon_label(fs: SysfsView, dir: Seq<char>, sensor: Seq<char>) -> Seq<char> {
    match hwmon::reading(fs, dir, sensor + "_label"@) {
        Some(l) => l,
        None => sensor,
    }
}

/// An optional quantity as an optional number.
pub open spec fn as_int(v: Option<i64>) -> Option<int> {
    match v {
        Some(x) => Some(x as int),
        None => None,
    }
}

/// The temperature of a chip's sensor.
pub fn chip_celsius(chip: &Hwmon, fs: &Sysfs, sensor: &str) -> (r: Option<i64>)
    ensures
        as_int(r) == hwmon_celsius(fs@, chip@.dir, sensor@),
{
    let f = text::cat(sensor, "_input");
    match chip.read_i64(fs, f.as_str()) {
        Some(v) => Some(quantity::milli(v)),
        None => None,
    }
}

/// The label of a chip's sensor.
pub fn chip_label(chip: &Hwmon, fs: &Sysfs, sensor: &str) -> (r: String)
    ensures
        r@ == hwmon_label(fs@, chip@.dir, sensor@),
{
    let f = text::cat(sensor, "_label");
    match chip.read(fs, f.as_str()) {
        Some(l) => l,
        None => text::owned(sensor),
    }
}

/// Read a single hwmon temperature sensor.
pub fn read_hwmon(chip: &Hwmon, fs: &Sysfs, sensor: &str) -> (r: Option<TempReading>)
    ensures
        r.deep_view() == (match hwmon_celsius(fs@, chip@.dir, sensor@) {
            Some(c) => Some(
                TempReadingView {
                    source: chip@.name + ":"@ + sensor@,
                    label: hwmon_label(fs@, chip@.dir, sensor@),
                    celsius: c,
                },
            ),
            None => None,
        }),
{
    match chip_celsius(chip, fs, sensor) {
        Some(celsius) => {
            let label = chip_label(chip, fs, sensor);
            let source = text::cat3(chip.name.as_str(), ":", sensor);
            Some(TempReading { source, label, celsius })
        },
        None => None,
    }
}

// ---- lm-sensors -----------------------------------------------------------

/// The `input` of a sensor's JSON object.
pub open spec fn lm_input(sensor: json::JsonView) -> Option<int> {
    match json::member(sensor, "input"@) {
        Some(input) => json::number(json::parsed(input)),
        None => None,
    }
}

/// The reading of `sensor` on `chip` in a `sensors -j` document.
pub open spec fn lm_celsius(doc: Seq<char>, chip: Seq<char>, sensor: Seq<char>) -> Option<int> {
    match json::member(json::parsed(doc), chip) {
        Some(chip_obj) => match json::member(json::parsed(chip_obj), sensor) {
            Some(sensor_obj) => lm_input(json::parsed(sensor_obj)),
            None => None,
        },
        None => None,
    }
}

/// The `input` of a sensor's JSON object.
pub fn sensor_input(sensor: &json::Json) -> (r: Option<i64>)
    ensures
        as_int(r) == lm_input(sensor@),
{
    match sensor.get("input") {
        Some(input) => {
            let n = json::parse(input.as_str());
            n.as_quantity()
        },
        None => None,
    }
}

/// The reading of `sensor` on `chip` in a `sensors -j` document.
pub fn lm_sensor_celsius(doc: &str, chip: &str, sensor: &str) -> (r: Option<i64>)
    ensures
        as_int(r) == lm_celsius(doc@, chip@, sensor@),
{
    let top = json::parse(doc);
    match top.get(chip) {
        Some(chip_obj) => {
            let c = json::parse(chip_obj.as_str());
            match c.get(sensor) {
                Some(sensor_obj) => {
                    let s = json::parse(sensor_obj.as_str());
                    sensor_input(&s)
                },
                None => None,
            }
        },
        None => None,
    }
}

/// Read a temperature sensor from the `sensors -j` (lm-sensors) output.
pub fn read_lm_sensors(doc: &str, chip: &str, sensor: &str) -> (r: Option<TempReading>)
    ensures
        r.deep_view() == (match lm_celsius(doc@, chip@, sensor@) {
            Some(c) => Some(
                TempReadingView {
                    source: "lm:"@ + chip@ + ":"@ + sensor@,
                    label: sensor@,
                    celsius: c,
                },
            ),
            None => None,
        }),
{
    match lm_sensor_celsius(doc, chip, sensor) {
        Some(celsius) => {
            let head = text::cat3("lm:", chip, ":");
            let source = text::cat(head.as_str(), sensor);
            Some(TempReading { source, label: text::owned(sensor), celsius })
        },
        None => None,
    }
}

// ---- NVIDIA ---------------------------------------------------------------

/// What NVML answers about one device.
#[derive(Debug, PartialEq)]
pub struct NvmlDevice {
    pub name: Option<String>,
    pub temperature: Option<u32>,
    pub num_fans: Option<u32>,
    /// The speed of the first fan, in percent.
    pub fan_speed: Option<u32>,
}

/// A [`NvmlDevice`] with its text as character sequences.
pub struct NvmlDeviceView {
    pub name: Option<Seq<char>>,
    pub temperature: Option<u32>,
    pub num_fans: Option<u32>,
    pub fan_speed: Option<u32>,
}

impl View for NvmlDevice {
    type V = NvmlDeviceView;

    open spec fn view(&self) -> NvmlDeviceView {
        NvmlDeviceView {
            name: self.name.deep_view(),
            temperature: self.temperature,
            num_fans: self.num_fans,
            fan_speed: self.fan_speed,
        }
    }
}

impl DeepView for NvmlDevice {
    type V = NvmlDeviceView;

    open spec fn deep_view(&self) -> NvmlDeviceView {
        self.view()
    }
}

/// A whole number as a quantity.
pub open spec fn whole(v: Option<u32>) -> Option<i64> {
    match v {
        Some(x) => Some((x * UNIT) as i64),
        None => None,
    }
}

fn whole_quantity(v: Option<u32>) -> (r: Option<i64>)
    ensures
        r == whole(v),
{
    match v {
        Some(x) => Some((x as i64) * UNIT),
        None => None,
    }
}

/// The GPU behind a device that NVML could open; `None` when it has no name.
/// A device without fans has no fan speed.
pub open spec fn gpu_of(index: u32, d: NvmlDeviceView) -> Option<NvidiaGpuView> {
    match d.name {
        Some(name) => Some(
            NvidiaGpuView {
                index,
                name,
                temp_c: whole(d.temperature),
                fan_percent: match d.num_fans {
                    Some(n) => if n > 0 {
                        whole(d.fan_speed)
                    } else {
                        None
                    },
                    None => None,
                },
            },
        ),
        None => None,
    }
}

/// The GPUs among NVML's devices; a device that could not be opened (`None`)
/// or has no name is left out.
pub open spec fn gpus_of(devices: Seq<Option<NvmlDeviceView>>) -> Seq<NvidiaGpuView>
    decreases devices.len(),
{
    if devices.len() == 0 {
        Seq::empty()
    } else {
        let rest = gpus_of(devices.drop_last());
        match devices.last() {
            Some(d) => match gpu_of((devices.len() - 1) as u32, d) {
                Some(g) => rest.push(g),
                None => rest,
            },
            None => rest,
        }
    }
}

/// The GPUs that NVML reports, from what it answers about each device.
pub fn read_nvml(devices: &Vec<Option<NvmlDevice>>) -> (r: Vec<NvidiaGpu>)
    requires
        devices@.len() <= u32::MAX,
    ensures
        r.deep_view() == gpus_of(devices.deep_view()),
{
    let ghost s = devices.deep_view();
    let mut out: Vec<NvidiaGpu> = Vec::new();
    let mut i: usize = 0;
    assert(s.take(0) =~= Seq::<Option<NvmlDeviceView>>::empty());
    assert(out.deep_view() =~= Seq::<NvidiaGpuView>::empty());
    while i < devices.len()
        invariant
            i <= devices@.len() <= u32::MAX,
            s == devices.deep_view(),
            out.deep_view() == gpus_of(s.take(i as int)),
        decreases devices@.len() - i,
    {
        let ghost before = out.deep_view();
        proof {
            assert(s.take(i + 1).drop_last() =~= s.take(i as int));
            assert(s.take(i + 1).last() == devices@[i as int].deep_view());
        }
        match &devices[i] {
            Some(d) => match &d.name {
                Some(name) => {
                    let fan_percent = match d.num_fans {
                        Some(n) => if n > 0 {
                            whole_quantity(d.fan_speed)
                        } else {
                            None
                        },
                        None => None,
                    };
                    let g = NvidiaGpu {
                        index: i as u32,
                        name: name.clone(),
                        temp_c: whole_quantity(d.temperature),
                        fan_percent,
                    };
                    out.push(g);
                    assert(out.deep_view() =~= before.push(g@));
                },
                None => {},
            },
            None => {},
        }
        i += 1;
    }
    assert(s.take(i as int) =~= s);
    out
}

/// A percentage field that may be `75 %`, `0 %`, or `[N/A]`.
pub open spec fn percent_field(s: Seq<char>) -> Option<int> {
    let t = text::trimmed(s);
    if t == "[N/A]"@ || t.len() == 0 {
        None
    } else {
        quantity::parsed_quantity(text::trimmed(text::without_trailing(t, '%')))
    }
}

/// An optional number as an optional quantity.
pub open spec fn as_quantity(v: Option<int>) -> Option<i64> {
    match v {
        Some(x) => Some(x as i64),
        None => None,
    }
}

/// The GPU a line of the `nvidia-smi` output describes. A line with fewer
/// than four fields describes none.
pub open spec fn gpu_in_line(line: Seq<char>) -> Option<NvidiaGpuView> {
    let t = text::trimmed(line);
    let f = text::pieces(t, ',');
    if t.len() == 0 || f.len() < 4 {
        None
    } else {
        Some(
            NvidiaGpuView {
                index: match number::parsed_nat(text::trimmed(f[0]), u32::MAX as nat) {
                    Some(n) => n as u32,
                    None => 0,
                },
                name: text::trimmed(f[1]),
                temp_c: as_quantity(quantity::parsed_quantity(text::trimmed(f[2]))),
                fan_percent: as_quantity(percent_field(text::trimmed(f[3]))),
            },
        )
    }
}

/// The GPUs that lines of the `nvidia-smi` output describe.
pub open spec fn gpus_in(lines: Seq<Seq<char>>) -> Seq<NvidiaGpuView>
    decreases lines.len(),
{
    if lines.len() == 0 {
        Seq::empty()
    } else {
        let rest = gpus_in(lines.drop_last());
        match gpu_in_line(lines.last()) {
            Some(g) => rest.push(g),
            None => rest,
        }
    }
}

/// Parse a bare numeric field (e.g. `45`), `None` for `[N/A]`.
fn parse_number(s: &str) -> (r: Option<i64>)
    ensures
        as_int(r) == quantity::parsed_quantity(s@),
{
    quantity::parse_quantity(s)
}

/// Parse a percentage field that may be `75 %`, `0 %`, or `[N/A]`.
fn parse_percent(s: &str) -> (r: Option<i64>)
    ensures
        as_int(r) == percent_field(s@),
{
    let t = text::trim(s);
    if text::str_eq(t.as_str(), "[N/A]") || text::chars_of(t.as_str()).len() == 0 {
        return None;
    }
    let bare = text::trim_end_matches(t.as_str(), '%');
    let n = text::trim(bare.as_str());
    quantity::parse_quantity(n.as_str())
}

fn parse_line(line: &str) -> (r: Option<NvidiaGpu>)
    ensures
        r.deep_view() == gpu_in_line(line@),
{
    let t = text::trim(line);
    if text::chars_of(t.as_str()).len() == 0 {
        return None;
    }
    let f = text::split(t.as_str(), ',');
    if f.len() < 4 {
        return None;
    }
    let ghost fields = text::pieces(t@, ',');
    assert(fields[0] == f@[0]@ && fields[1] == f@[1]@ && fields[2] == f@[2]@ && fields[3]
        == f@[3]@);
    let index_field = text::trim(f[0].as_str());
    let name = text::trim(f[1].as_str());
    let temp_field = text::trim(f[2].as_str());
    let fan_field = text::trim(f[3].as_str());
    let index = match number::parse_u32(index_field.as_str()) {
        Some(n) => n,
        None => 0,
    };
    let temp_c = parse_number(temp_field.as_str());
    let fan_percent = parse_percent(fan_field.as_str());
    Some(NvidiaGpu { index, name, temp_c, fan_percent })
}

/// Parse the CSV produced by
/// `nvidia-smi --query-gpu=index,name,temperature.gpu,fan.speed --format=csv,noheader`.
///
/// Fields may be a bare number (`45`), a percentage (`99 %`), or `[N/A]`.
pub fn parse_nvidia(csv: &str) -> (r: Vec<NvidiaGpu>)
    ensures
        r.deep_view() == gpus_in(text::pieces(csv@, '\n')),
{
    let lines = text::split(csv, '\n');
    let ghost s = text::pieces(csv@, '\n');
    let mut out: Vec<NvidiaGpu> = Vec::new();
    let mut i: usize = 0;
    assert(s.take(0) =~= Seq::<Seq<char>>::empty());
    assert(out.deep_view() =~= Seq::<NvidiaGpuView>::empty());
    while i < lines.len()
        invariant
            i <= lines@.len(),
            s == lines.deep_view(),
            out.deep_view() == gpus_in(s.take(i as int)),
        decreases lines@.len() - i,
    {
        let ghost before = out.deep_view();
        proof {
            assert(s.take(i + 1).drop_last() =~= s.take(i as int));
            assert(s.take(i + 1).last() == lines@[i as int]@);
        }
        match parse_line(lines[i].as_str()) {
            Some(g) => {
                out.push(g);
                assert(out.deep_view() =~= before.push(g@));
            },
            None => {},
        }
        i += 1;
    }
    assert(s.take(i as int) =~= s);
    out
}

/// All NVIDIA GPUs, from NVML where it answers, or else from the output of
/// `nvidia-smi`; none when neither source is available.
pub fn read_nvidia(nvml: &Option<Vec<Option<NvmlDevice>>>, smi: Option<&str>) -> (r: Vec<NvidiaGpu>)
    requires
        nvml matches Some(d) ==> d@.len() <= u32::MAX,
    ensures
        r.deep_view() == (match nvml {
            Some(d) => gpus_of(d.deep_view()),
            None => match smi {
                Some(csv) => gpus_in(text::pieces(csv@, '\n')),
                None => Seq::empty(),
            },
        }),
{
    match nvml {
        Some(d) => read_nvml(d),
        None => match smi {
            Some(csv) => parse_nvidia(csv),
            None => {
                let none: Vec<NvidiaGpu> = Vec::new();
                assert(none.deep_view() =~= Seq::<NvidiaGpuView>::empty());
                none
            },
        },
    }
}

// ---- any sensor -----------------------------------------------------------

/// The place of the first GPU with the index `n`; the number of GPUs when
/// there is none.
pub open spec fn gpu_place(nvidia: Seq<NvidiaGpuView>, n: nat) -> nat
    decreases nvidia.len(),
{
    if nvidia.len() == 0 || nvidia[0].index == n {
        0
    } else {
        1 + gpu_place(nvidia.skip(1), n)
    }
}

/// The temperature of the first GPU with an index.
pub open spec fn gpu_celsius(nvidia: Seq<NvidiaGpuView>, index: Option<nat>) -> Option<i64> {
    match index {
        Some(n) => {
            let i = gpu_place(nvidia, n) as int;
            if i < nvidia.len() {
                nvidia[i].temp_c
            } else {
                None
            }
        },
        None => None,
    }
}

/// The GPU at `i` has the index `n` and none before it does, or no GPU has it.
pub proof fn lemma_gpu_place_is(nvidia: Seq<NvidiaGpuView>, n: nat, i: nat)
    requires
        i <= nvidia.len(),
        i < nvidia.len() ==> nvidia[i as int].index == n,
        forall|j: int| 0 <= j < i ==> (#[trigger] nvidia[j]).index != n,
    ensures
        gpu_place(nvidia, n) == i,
    decreases nvidia.len(),
{
    if i > 0 {
        let t = nvidia.skip(1);
        assert(nvidia[0].index != n);
        assert forall|j: int| 0 <= j < i - 1 implies (#[trigger] t[j]).index != n by {
            assert(nvidia[j + 1].index != n);
        }
        lemma_gpu_place_is(t, n, (i - 1) as nat);
    }
}

/// The temperature a sensor reference stands for.
pub open spec fn sensor_celsius(
    chips: Seq<HwmonView>,
    fs: SysfsView,
    nvidia: Seq<NvidiaGpuView>,
    hwmon_name: Seq<char>,
    sensor: Seq<char>,
) -> Option<int> {
    if hwmon_name == "nvidia"@ {
        match text::after_prefix(sensor, "gpu"@) {
            Some(n) => as_int(
                gpu_celsius(nvidia, number::parsed_nat(n, usize::MAX as nat)),
            ),
            None => None,
        }
    } else {
        match hwmon::resolved(chips, hwmon_name) {
            Some(c) => hwmon_celsius(fs, c.dir, sensor),
            None => None,
        }
    }
}

/// The temperature of the GPU whose index `number` gives.
pub fn read_gpu(nvidia: &Vec<NvidiaGpu>, number: &str) -> (r: Option<i64>)
    ensures
        r == gpu_celsius(nvidia.deep_view(), number::parsed_nat(number@, usize::MAX as nat)),
{
    let n = match number::parse_usize(number) {
        Some(n) => n,
        None => {
            return None;
        },
    };
    let ghost gpus = nvidia.deep_view();
    let mut i: usize = 0;
    while i < nvidia.len() && nvidia[i].index as u64 != n as u64
        invariant
            i <= nvidia@.len(),
            gpus == nvidia.deep_view(),
            forall|j: int| 0 <= j < i ==> (#[trigger] gpus[j]).index != n,
        decreases nvidia@.len() - i,
    {
        assert(gpus[i as int] == nvidia@[i as int]@);
        i += 1;
    }
    proof {
        if i < nvidia@.len() {
            assert(gpus[i as int] == nvidia@[i as int]@);
        }
        lemma_gpu_place_is(gpus, n as nat, i as nat);
    }
    if i < nvidia.len() {
        nvidia[i].temp_c
    } else {
        None
    }
}

/// Resolve a sensor reference to a temperature. The reference is either a
/// `hwmon` sensor (`hwmon_name` = chip name or `hwmonN`) or an NVIDIA GPU
/// (`hwmon_name` == `"nvidia"`, `sensor` == `"gpu<index>"`).
pub fn read_sensor(
    chips: &Vec<Hwmon>,
    fs: &Sysfs,
    nvidia: &Vec<NvidiaGpu>,
    hwmon_name: &str,
    sensor: &str,
) -> (r: Option<i64>)
    ensures
        as_int(r) == sensor_celsius(
            chips.deep_view(),
            fs@,
            nvidia.deep_view(),
            hwmon_name@,
            sensor@,
        ),
{
    if text::str_eq(hwmon_name, "nvidia") {
        return match text::strip_prefix(sensor, "gpu") {
            Some(n) => read_gpu(nvidia, n.as_str()),
            None => None,
        };
    }
    match hwmon::resolve(chips, hwmon_name) {
        Some(c) => chip_celsius(c, fs, sensor),
        None => None,
    }
}

// ---- laws -----------------------------------------------------------------

/// A chip's sensor reads what its `_input` file holds, in thousandths of a
/// degree; without a number there it reads nothing. Its label is that of its
/// `_label` file, or its own name.
pub proof fn law_sensor_is_read(fs: SysfsView, dir: Seq<char>, sensor: Seq<char>)
    ensures
        ({
            let input = hwmon::int_reading(fs, dir, sensor + "_input"@);
            let label = hwmon::reading(fs, dir, sensor + "_label"@);
            &&& hwmon_celsius(fs, dir, sensor) is Some <==> input is Some
            &&& input matches Some(v) ==> (-9_000_000_000_000 <= v <= 9_000_000_000_000
                ==> hwmon_celsius(fs, dir, sensor) == Some(v * 1_000_000))
            &&& label matches Some(l) ==> hwmon_label(fs, dir, sensor) == l
            &&& label is None ==> hwmon_label(fs, dir, sensor) == sensor
        }),
{
}

/// A reference to a sensor is read on the chip it names, and `nvidia` is no
/// chip: there `gpu` and a number is the first GPU with that index.
pub proof fn law_reference_is_read(
    chips: Seq<HwmonView>,
    fs: SysfsView,
    nvidia: Seq<NvidiaGpuView>,
    name: Seq<char>,
    sensor: Seq<char>,
    n: u32,
    i: nat,
)
    requires
        i <= nvidia.len(),
        i < nvidia.len() ==> nvidia[i as int].index == n,
        forall|j: int| 0 <= j < i ==> (#[trigger] nvidia[j]).index != n,
    ensures
        name != "nvidia"@ && hwmon::resolved(chips, name) is None ==> sensor_celsius(
            chips,
            fs,
            nvidia,
            name,
            sensor,
        ) is None,
        name != "nvidia"@ ==> (hwmon::resolved(chips, name) matches Some(c) ==> sensor_celsius(
            chips,
            fs,
            nvidia,
            name,
            sensor,
        ) == hwmon_celsius(fs, c.dir, sensor)),
        ({
            let got = sensor_celsius(
                chips,
                fs,
                nvidia,
                "nvidia"@,
                "gpu"@ + number::decimal(n as nat),
            );
            &&& i < nvidia.len() && nvidia[i as int].temp_c is Some ==> got == Some(
                nvidia[i as int].temp_c->0 as int,
            )
            &&& i >= nvidia.len() || nvidia[i as int].temp_c is None ==> got is None
        }),
{
    let d = number::decimal(n as nat);
    let g = "gpu"@;
    lemma_gpu_place_is(nvidia, n as nat, i);
    number::law_decimal_round_trip(n as nat, usize::MAX as nat);
    assert((g + d).take(g.len() as int) =~= g);
    assert((g + d).skip(g.len() as int) =~= d);
}

/// NVML's devices are the GPUs, each with its place as its index, its name,
/// its whole degrees, and the percentage of its first fan where it has one. A
/// device that does not answer, or has no name, is left out, and those behind
/// it keep their index.
pub proof fn law_devices_are_gpus(
    devices: Seq<Option<NvmlDeviceView>>,
    d: NvmlDeviceView,
    name: Seq<char>,
)
    requires
        devices.len() < u32::MAX,
    ensures
        gpus_of(Seq::empty()) == Seq::<NvidiaGpuView>::empty(),
        gpus_of(devices.push(None)) == gpus_of(devices),
        gpus_of(devices.push(Some(NvmlDeviceView { name: None, ..d }))) == gpus_of(devices),
        ({
            let all = gpus_of(devices.push(Some(NvmlDeviceView { name: Some(name), ..d })));
            let g = all.last();
            &&& all.len() == gpus_of(devices).len() + 1
            &&& all.drop_last() == gpus_of(devices)
            &&& g.index == devices.len() && g.name == name
            &&& d.temperature is None ==> g.temp_c is None
            &&& d.temperature matches Some(t) ==> g.temp_c == Some((t * 1_000_000_000) as i64)
            &&& d.num_fans is None || d.num_fans == Some(0u32) || d.fan_speed is None
                ==> g.fan_percent is None
            &&& d.num_fans matches Some(n) ==> (n > 0 ==> (d.fan_speed matches Some(p)
                ==> g.fan_percent == Some((p * 1_000_000_000) as i64)))
        }),
{
    let last = Some(NvmlDeviceView { name: Some(name), ..d });
    assert(devices.push(None).drop_last() =~= devices);
    assert(devices.push(Some(NvmlDeviceView { name: None, ..d })).drop_last() =~= devices);
    assert(devices.push(last).drop_last() =~= devices);
    assert(gpus_of(devices.push(last)).drop_last() =~= gpus_of(devices));
}

/// A line of the `nvidia-smi` output with an index, a name, a temperature and
/// a fan speed describes that GPU; one with fewer fields, or none, describes
/// none. Lines describe the GPUs one after the other.
pub proof fn law_lines_are_gpus(
    lines: Seq<Seq<char>>,
    line: Seq<char>,
    f: Seq<Seq<char>>,
    n: u32,
    t: nat,
    p: nat,
)
    requires
        t <= 1000,
        p <= 100,
    ensures
        gpus_in(Seq::empty()) == Seq::<NvidiaGpuView>::empty(),
        gpu_in_line(line) is None ==> gpus_in(lines.push(line)) == gpus_in(lines),
        gpu_in_line(line) matches Some(g) ==> gpus_in(lines.push(line)) == gpus_in(lines).push(g),
        text::trimmed(line).len() == 0 ==> gpu_in_line(line) is None,
        text::trimmed(line).len() > 0 && text::pieces(text::trimmed(line), ',') == f ==> {
            &&& f.len() < 4 ==> gpu_in_line(line) is None
            &&& f.len() >= 4 ==> (gpu_in_line(line) matches Some(g) && {
                &&& g.name == text::trimmed(f[1])
                &&& text::trimmed(f[0]) == number::decimal(n as nat) ==> g.index == n
                &&& text::trimmed(f[2]) == quantity::shown((t * 1_000_000_000) as int) ==> g.temp_c
                    == Some((t * 1_000_000_000) as i64)
                &&& text::trimmed(f[2]) == "[N/A]"@ ==> g.temp_c is None
                &&& text::trimmed(f[3]) == "[N/A]"@ ==> g.fan_percent is None
                &&& text::trimmed(f[3]) == quantity::shown((p * 1_000_000_000) as int) + seq![' ', '%']
                    ==> g.fan_percent == Some((p * 1_000_000_000) as i64)
            })
        },
{
    assert(lines.push(line).drop_last() =~= lines);
    number::law_decimal_round_trip(n as nat, u32::MAX as nat);
    quantity::law_quantity_round_trip((t * 1_000_000_000) as i64);
    law_percentages_are_read((p * 1_000_000_000) as i64);
    if text::trimmed(line).len() > 0 && f.len() >= 4 {
        if text::trimmed(f[2]) == "[N/A]"@ {
            quantity::lemma_not_a_number();
        }
        if text::trimmed(f[3]) == "[N/A]"@ {
            reveal_strlit("[N/A]");
            assert(text::trimmed("[N/A]"@) =~= "[N/A]"@) by {
                text::law_blanks_are_trimmed(Seq::empty(), "[N/A]"@, Seq::empty());
                assert(Seq::<char>::empty() + "[N/A]"@ + Seq::<char>::empty() =~= "[N/A]"@);
            }
        }
    }
}

/// A fan speed is a percentage: a number with or without a percent sign and
/// blanks before it.
pub proof fn law_percentages_are_read(v: i64)
    requires
        v >= 0,
    ensures
        percent_field(quantity::shown(v as int)) == Some(v as int),
        percent_field(quantity::shown(v as int) + seq![' ', '%']) == Some(v as int),
        percent_field("[N/A]"@) is None,
        percent_field(Seq::empty()) is None,
{
    let s = quantity::shown(v as int);
    let none = Seq::<char>::empty();
    quantity::law_quantity_round_trip(v);
    quantity::lemma_shown_ends(v);
    reveal_strlit("[N/A]");
    text::law_blanks_are_trimmed(none, "[N/A]"@, none);
    assert(none + "[N/A]"@ + none =~= "[N/A]"@);
    text::law_blanks_are_trimmed(none, s, none);
    assert(none + s + none =~= s);
    let long = s + seq![' ', '%'];
    text::law_blanks_are_trimmed(none, long, none);
    assert(none + long + none =~= long);
    assert(text::trimmed(none) =~= none);
    text::law_ends_are_stripped(none, s, '%');
    let mid = s + seq![' '];
    assert(long =~= mid.push('%'));
    text::law_ends_are_stripped(none, mid, '%');
    text::law_blanks_are_trimmed(none, s, seq![' ']);
    assert(none + s + seq![' '] =~= mid);
}

/// An lm-sensors reading is the number in the `input` member of the sensor's
/// object, in the chip's object.
pub proof fn law_lm_sensor_is_read(
    doc: Seq<char>,
    chip: Seq<char>,
    sensor: Seq<char>,
    chip_doc: Seq<char>,
    sensor_doc: Seq<char>,
    input: Seq<char>,
    v: i64,
)
    requires
        json::member(json::parsed(doc), chip) == Some(chip_doc),
        json::member(json::parsed(chip_doc), sensor) == Some(sensor_doc),
        v > i64::MIN,
    ensures
        json::member(json::parsed(sensor_doc), "input"@) == Some(input) && json::parsed(input) == (
        json::JsonView::Number(quantity::shown(v as int))) ==> lm_celsius(doc, chip, sensor)
            == Some(v as int),
        json::member(json::parsed(sensor_doc), "input"@) is None ==> lm_celsius(doc, chip, sensor) is None,
        json::member(json::parsed(sensor_doc), "input"@) == Some(input) && !(json::parsed(
            input,
        ) is Number) ==> lm_celsius(doc, chip, sensor) is None,
{
    quantity::law_quantity_round_trip(v);
}

} // verus!
