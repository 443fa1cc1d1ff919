use fanctl::config::generate::generate;
use fanctl::config::types::{
    default_pwm_max, default_refresh, Aggregation, ControlKind, InitialMode, Pwm, TempRef,
    TempSensor,
};
use fanctl::config::{default_path, join_path, resolve_config_path};
use fanctl::curve::CurvePoint;
use fanctl::hwmon::{discover, resolve, SysDir, SysFile, Sysfs};

fn temp_ref(hwmon: &str, sensor: &str) -> TempRef {
    TempRef {
        hwmon: hwmon.to_string(),
        sensor: sensor.to_string(),
    }
}

fn fan() -> Pwm {
    Pwm {
        id: "pwm1".to_string(),
        hwmon: "it8792".to_string(),
        name: None,
        pwm_max: default_pwm_max(),
        temp_sensors: vec![],
        temp_sensor: None,
        aggregation: Aggregation::default(),
        control: ControlKind::default(),
        curve: vec![],
        default: InitialMode::default(),
        duty_min: None,
        duty_max: None,
    }
}

#[test]
fn legacy_single_sensor_still_parses() {
    let mut p = fan();
    p.temp_sensor = Some(temp_ref("k10temp", "temp1"));
    // The legacy `temp_sensor` object is merged into the driving list.
    assert_eq!(p.driving_sensors().len(), 1);
    assert_eq!(p.temp_sensors.len(), 0);
    assert!(p.temp_sensor.is_some());
    p.temp_sensors.push(temp_ref("nvidia", "gpu0"));
    let names: Vec<String> = p.driving_sensors().iter().map(|s| s.full_name()).collect();
    assert_eq!(names, vec!["nvidia:gpu0", "k10temp:temp1"]);
}

#[test]
fn nvidia_sensor_is_referencable() {
    let mut p = fan();
    p.temp_sensors.push(temp_ref("nvidia", "gpu0"));
    p.aggregation = Aggregation::Avg;
    assert_eq!(p.aggregation, Aggregation::Avg);
    assert_eq!(p.driving_sensors()[0].hwmon, "nvidia");
    assert_eq!(p.driving_sensors()[0].sensor, "gpu0");
}

#[test]
fn a_fan_goes_by_its_name_or_its_id() {
    let mut p = fan();
    assert_eq!(p.display_name(), "pwm1");
    assert_eq!(p.index(), Some(1));
    p.name = Some("CPU".to_string());
    p.id = "fan1".to_string();
    assert_eq!(p.display_name(), "CPU");
    assert_eq!(p.index(), None);
    p.id = "pwm12".to_string();
    assert_eq!(p.index(), Some(12));
    p.id = "pwm".to_string();
    assert_eq!(p.index(), None);
    p.id = "pwm99999999999".to_string();
    assert_eq!(p.index(), None);
}

#[test]
fn defaults() {
    assert_eq!(default_pwm_max(), 255);
    assert_eq!(default_refresh(), 2_000_000_000);
    assert_eq!(Aggregation::default(), Aggregation::Max);
    assert_eq!(ControlKind::default(), ControlKind::Curve);
    assert_eq!(InitialMode::default(), InitialMode::Auto);
    let t = TempSensor::default();
    assert_eq!((t.hwmon.as_str(), t.sensors.len()), ("", 0));
}

#[test]
fn config_paths() {
    assert_eq!(
        default_path(Some("/home/a/.config//"), Some("/home/a")),
        "/home/a/.config/fanctl/fanctl.yaml"
    );
    assert_eq!(
        default_path(None, Some("/home/a")),
        "/home/a/.config/fanctl/fanctl.yaml"
    );
    assert_eq!(default_path(None, None), "/root/.config/fanctl/fanctl.yaml");
    assert_eq!(
        resolve_config_path(&Some("/x.yaml".to_string()), None, None),
        "/x.yaml"
    );
    assert_eq!(
        resolve_config_path(&None, None, None),
        "/root/.config/fanctl/fanctl.yaml"
    );
    assert_eq!(join_path("/a/", "b"), "/a/b");
    assert_eq!(join_path("", "b"), "b");
}

fn file(name: &str, text: &str) -> SysFile {
    SysFile {
        name: name.to_string(),
        text: Some(text.to_string()),
    }
}

fn dir(name: &str, files: Vec<SysFile>) -> SysDir {
    SysDir {
        name: name.to_string(),
        is_dir: true,
        files,
    }
}

#[test]
fn a_generated_config_covers_the_hardware() {
    let fs = Sysfs {
        base: "/sys/class/hwmon".to_string(),
        dirs: vec![
            dir(
                "hwmon0",
                vec![
                    file("name", "it8792\n"),
                    file("pwm1", "0"),
                    file("pwm2", "0"),
                    file("temp2_input", "x"),
                    file("temp3_input", "40000"),
                ],
            ),
            dir("hwmon1", vec![file("name", "nvme\n"), file("temp1_input", "30000")]),
            dir("hwmon2", vec![file("name", "nvme\n"), file("pwm1", "0")]),
        ],
    };
    let c = generate(&fs);
    assert_eq!(c.refresh_secs, 2_000_000_000);
    assert!(!c.show_lm_sensors);
    let fans: Vec<(&str, &str, String)> = c
        .pwm
        .iter()
        .map(|p| (p.id.as_str(), p.hwmon.as_str(), p.temp_sensors[0].full_name()))
        .collect();
    assert_eq!(
        fans,
        vec![
            ("pwm1", "it8792", "it8792:temp2".to_string()),
            ("pwm2", "it8792", "it8792:temp2".to_string()),
            ("pwm1", "hwmon2", "hwmon2:temp1".to_string()),
        ]
    );
    assert_eq!(
        c.pwm[0].curve,
        vec![
            CurvePoint::new(30_000_000_000, 0),
            CurvePoint::new(45_000_000_000, 40_000_000_000),
            CurvePoint::new(60_000_000_000, 75_000_000_000),
            CurvePoint::new(75_000_000_000, 100_000_000_000),
        ]
    );
    assert_eq!(c.pwm[0].pwm_max, 255);
    assert_eq!(c.pwm[0].default, InitialMode::Auto);
    // Only sensors that report a reading are shown, by name or directory.
    let temps: Vec<(&str, Vec<String>)> = c
        .temp_sensors
        .iter()
        .map(|t| (t.hwmon.as_str(), t.sensors.clone()))
        .collect();
    assert_eq!(
        temps,
        vec![
            ("it8792", vec!["temp3".to_string()]),
            ("hwmon1", vec!["temp1".to_string()]),
        ]
    );
    // Every reference leads back to a chip.
    let chips = discover(&fs);
    for p in &c.pwm {
        assert!(resolve(&chips, &p.hwmon).is_some());
    }
}
