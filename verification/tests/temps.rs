use fanctl::daemon::readings::{add_lm_document, add_lm_sensors, aggregate, lm_value};
use fanctl::config::types::Aggregation;
use fanctl::hwmon::{Hwmon, SysDir, SysFile, Sysfs};
use fanctl::json::Json;
use fanctl::temps::{
    parse_nvidia, read_hwmon, read_lm_sensors, read_nvidia, read_sensor, sensor_input, NvidiaGpu,
    NvmlDevice,
};

fn q(v: f64) -> i64 {
    (v * 1e9).round() as i64
}

fn empty() -> Sysfs {
    Sysfs {
        base: "/sys/class/hwmon".to_string(),
        dirs: Vec::new(),
    }
}

fn cpu() -> (Hwmon, Sysfs) {
    let file = |n: &str, t: &str| SysFile {
        name: n.to_string(),
        text: Some(t.to_string()),
    };
    let fs = Sysfs {
        base: "/sys/class/hwmon".to_string(),
        dirs: vec![SysDir {
            name: "hwmon0".to_string(),
            is_dir: true,
            files: vec![
                file("name", "k10temp\n"),
                file("temp1_input", "42000\n"),
                file("temp1_label", "Tctl\n"),
                file("temp2_input", "-1500\n"),
            ],
        }],
    };
    let chip = Hwmon {
        name: "k10temp".to_string(),
        dir: "hwmon0".to_string(),
        path: "/sys/class/hwmon/hwmon0".to_string(),
    };
    (chip, fs)
}

#[test]
fn parses_nvidia_csv() {
    let csv = "0, NVIDIA CMP 170HX, 77, [N/A]\n1, NVIDIA GeForce RTX 3080 Ti, 34, 0 %";
    let g = parse_nvidia(csv);
    assert_eq!(g.len(), 2);
    assert_eq!(g[0].index, 0);
    assert_eq!(g[0].temp_c, Some(q(77.0)));
    assert_eq!(g[0].fan_percent, None, "[N/A] -> None");
    assert_eq!(g[1].temp_c, Some(q(34.0)));
    assert_eq!(g[1].fan_percent, Some(q(0.0)));
}

#[test]
fn parses_empty_nvidia() {
    assert!(parse_nvidia("").is_empty());
}

#[test]
fn read_sensor_nvidia() {
    let nvidia = vec![NvidiaGpu {
        index: 0,
        name: "GPU0".to_string(),
        temp_c: Some(q(90.0)),
        fan_percent: None,
    }];
    let fs = empty();
    assert_eq!(
        read_sensor(&vec![], &fs, &nvidia, "nvidia", "gpu0"),
        Some(q(90.0))
    );
    // Out-of-range index -> None.
    assert_eq!(read_sensor(&vec![], &fs, &nvidia, "nvidia", "gpu5"), None);
    assert_eq!(read_sensor(&vec![], &fs, &nvidia, "nvidia", "cpu0"), None);
}

#[test]
fn read_sensor_hwmon() {
    let (chip, fs) = cpu();
    let chips = vec![chip];
    assert_eq!(
        read_sensor(&chips, &fs, &vec![], "k10temp", "temp1"),
        Some(q(42.0))
    );
    assert_eq!(read_sensor(&chips, &fs, &vec![], "missing", "temp1"), None);
}

#[test]
fn odd_nvidia_lines() {
    let csv = "\r\n  x , A , 45.5 , 99 %\r\n1, B, 3\n2, C, [N/A], \n3,D,1,2,3\n";
    let g = parse_nvidia(csv);
    assert_eq!(g.len(), 3);
    assert_eq!((g[0].index, g[0].name.as_str()), (0, "A"));
    assert_eq!(g[0].temp_c, Some(q(45.5)));
    assert_eq!(g[0].fan_percent, Some(q(99.0)));
    assert_eq!((g[1].index, g[1].temp_c, g[1].fan_percent), (2, None, None));
    assert_eq!((g[2].index, g[2].fan_percent), (3, Some(q(2.0))));
}

#[test]
fn nvml_is_preferred_and_skips_unnamed_devices() {
    let nvml = Some(vec![
        None,
        Some(NvmlDevice {
            name: None,
            temperature: Some(1),
            num_fans: Some(1),
            fan_speed: Some(1),
        }),
        Some(NvmlDevice {
            name: Some("A".to_string()),
            temperature: Some(61),
            num_fans: Some(2),
            fan_speed: Some(40),
        }),
        Some(NvmlDevice {
            name: Some("B".to_string()),
            temperature: None,
            num_fans: Some(0),
            fan_speed: Some(40),
        }),
    ]);
    let g = read_nvidia(&nvml, Some("7, X, 1, 1 %"));
    assert_eq!(g.len(), 2);
    assert_eq!((g[0].index, g[0].temp_c, g[0].fan_percent), (2, Some(q(61.0)), Some(q(40.0))));
    assert_eq!((g[1].index, g[1].temp_c, g[1].fan_percent), (3, None, None));
    assert_eq!(read_nvidia(&None, Some("7, X, 1, 1 %"))[0].index, 7);
    assert!(read_nvidia(&None, None).is_empty());
}

#[test]
fn a_hwmon_reading_carries_its_label() {
    let (chip, fs) = cpu();
    let r = read_hwmon(&chip, &fs, "temp1").unwrap();
    assert_eq!(r.source, "k10temp:temp1");
    assert_eq!(r.label, "Tctl");
    assert_eq!(r.celsius, q(42.0));
    let r = read_hwmon(&chip, &fs, "temp2").unwrap();
    assert_eq!(r.label, "temp2");
    assert_eq!(r.celsius, q(-1.5));
    assert!(read_hwmon(&chip, &fs, "temp3").is_none());
}

const LM: &str = r#"{
    "acpitz-acpi-0": {
        "Adapter": "ACPI interface",
        "temp1": { "input": 27.8, "crit": 119.0 },
        "temp2": { "max": 3 }
    },
    "nct": { "fan": { "input": 1200 }, "cold": { "input": -4.25e1 }, "odd": { "input": "7" } },
    "list": [1, 2]
}"#;

#[test]
fn lm_sensors_output_is_read() {
    let r = read_lm_sensors(LM, "acpitz-acpi-0", "temp1").unwrap();
    assert_eq!(r.source, "lm:acpitz-acpi-0:temp1");
    assert_eq!(r.label, "temp1");
    assert_eq!(r.celsius, q(27.8));
    assert_eq!(read_lm_sensors(LM, "nct", "cold").unwrap().celsius, q(-42.5));
    assert!(read_lm_sensors(LM, "acpitz-acpi-0", "temp2").is_none());
    assert!(read_lm_sensors(LM, "acpitz-acpi-0", "Adapter").is_none());
    assert!(read_lm_sensors(LM, "nct", "odd").is_none());
    assert!(read_lm_sensors(LM, "list", "temp1").is_none());
    assert!(read_lm_sensors("{", "nct", "fan").is_none());
    assert_eq!(lm_value(LM, "lm:nct:fan"), Some(q(1200.0)));
    assert_eq!(lm_value(LM, "nct:fan"), None);
    assert_eq!(lm_value(LM, "lm:nct"), None);
}

#[test]
fn lm_sensors_are_listed_where_they_have_an_input() {
    let mut out = Vec::new();
    add_lm_sensors(&mut out, LM);
    let mut refs: Vec<(String, Option<i64>)> =
        out.iter().map(|t| (t.refname.clone(), t.celsius)).collect();
    refs.sort();
    assert_eq!(
        refs,
        vec![
            ("lm:acpitz-acpi-0:temp1".to_string(), Some(q(27.8))),
            ("lm:nct:cold".to_string(), Some(q(-42.5))),
            ("lm:nct:fan".to_string(), Some(q(1200.0))),
        ]
    );
    assert!(out.iter().all(|t| t.source == "lm"));
    let mut none = Vec::new();
    add_lm_sensors(&mut none, "[1]");
    add_lm_sensors(&mut none, "nonsense");
    assert!(none.is_empty());
}

#[test]
fn a_parsed_document_is_taken_apart() {
    let member = |n: &str, t: &str| (n.to_string(), t.to_string());
    let s = Json::Object(vec![member("max", "9"), member("input", "5.5")]);
    assert_eq!(sensor_input(&s), Some(q(5.5)));
    assert_eq!(s.get("max").as_deref(), Some("9"));
    assert_eq!(s.get("min"), None);
    assert_eq!(Json::Null.get("input"), None);
    assert_eq!(Json::Number("1e2".to_string()).as_quantity(), Some(q(100.0)));
    assert_eq!(Json::Invalid.as_quantity(), None);
    let mut out = Vec::new();
    add_lm_document(&mut out, &Json::Invalid);
    assert!(out.is_empty());
}

#[test]
fn readings_are_combined() {
    let v = vec![q(40.0), q(70.0), q(50.0)];
    assert_eq!(aggregate(&v, Aggregation::Max), Some(q(70.0)));
    assert_eq!(aggregate(&v, Aggregation::Min), Some(q(40.0)));
    assert_eq!(aggregate(&v, Aggregation::Avg), Some(53_333_333_333));
    assert_eq!(aggregate(&vec![q(-1.0), q(-2.0)], Aggregation::Avg), Some(q(-1.5)));
    assert_eq!(aggregate(&vec![-3, -4], Aggregation::Avg), Some(-3));
    assert_eq!(
        aggregate(&vec![i64::MAX, i64::MAX, i64::MAX], Aggregation::Avg),
        Some(i64::MAX)
    );
    assert_eq!(
        aggregate(&vec![i64::MIN, i64::MIN], Aggregation::Avg),
        Some(i64::MIN)
    );
    for how in [Aggregation::Max, Aggregation::Min, Aggregation::Avg] {
        assert_eq!(aggregate(&vec![], how), None);
        assert_eq!(aggregate(&vec![q(33.0)], how), Some(q(33.0)));
    }
}

#[test]
fn gpus_are_referenced_by_index() {
    let gpu = |index: u32, t: f64| NvidiaGpu {
        index,
        name: format!("GPU{index}"),
        temp_c: Some(q(t)),
        fan_percent: None,
    };
    let fs = empty();
    // GPU 0 could not be queried.
    let nvidia = vec![gpu(1, 50.0)];
    assert_eq!(
        read_sensor(&vec![], &fs, &nvidia, "nvidia", "gpu1"),
        Some(q(50.0))
    );
    assert_eq!(read_sensor(&vec![], &fs, &nvidia, "nvidia", "gpu0"), None);
    // The order of the list does not matter, but for GPUs of one index.
    let nvidia = vec![gpu(2, 60.0), gpu(0, 40.0), gpu(2, 70.0)];
    assert_eq!(
        read_sensor(&vec![], &fs, &nvidia, "nvidia", "gpu0"),
        Some(q(40.0))
    );
    assert_eq!(
        read_sensor(&vec![], &fs, &nvidia, "nvidia", "gpu2"),
        Some(q(60.0))
    );
}
