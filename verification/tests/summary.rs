use fanctl::config::types::{
    Aggregation, Config, ControlKind, InitialMode, Pwm, TempRef, TempSensor,
};
use fanctl::hwmon::{SysDir, SysFile, Sysfs};
use fanctl::summary::{format_pwm_channel, probe_view, pwm_channels_view, render_summary};
use fanctl::temps::NvidiaGpu;

fn file(name: &str, text: &str) -> SysFile {
    SysFile {
        name: name.to_string(),
        text: Some(text.to_string()),
    }
}

/// A fake chip tree with two PWM channels, one with an explicit max.
fn fake_chip() -> Sysfs {
    Sysfs {
        base: "/sys/class/hwmon".to_string(),
        dirs: vec![SysDir {
            name: "hwmon0".to_string(),
            is_dir: true,
            files: vec![
                file("name", "it8792\n"),
                file("pwm1", "182\n"),
                file("pwm1_enable", "1\n"),
                file("pwm1_max", "255\n"),
                file("pwm2", "100\n"),
                file("pwm2_enable", "0\n"),
            ],
        }],
    }
}

fn config() -> Config {
    Config {
        refresh_secs: 2_000_000_000,
        pwm: vec![Pwm {
            id: "pwm1".to_string(),
            hwmon: "it8792".to_string(),
            name: Some("Fan 1".to_string()),
            pwm_max: 255,
            temp_sensors: vec![TempRef {
                hwmon: "it8792".to_string(),
                sensor: "temp1".to_string(),
            }],
            temp_sensor: None,
            aggregation: Aggregation::Max,
            control: ControlKind::Curve,
            curve: vec![],
            default: InitialMode::Auto,
            duty_min: None,
            duty_max: None,
        }],
        temp_sensors: vec![TempSensor {
            hwmon: "it8792".to_string(),
            sensors: vec!["temp1".to_string()],
        }],
        show_lm_sensors: false,
    }
}

fn text(lines: &[String]) -> String {
    lines.iter().map(|l| format!("{l}\n")).collect()
}

#[test]
fn pwm_channels_view_lists_every_channel_with_state() {
    let fs = fake_chip();
    let out = pwm_channels_view(&fs);

    assert_eq!(out.len(), 2, "both pwmN channels must be listed");
    assert_eq!(out[0].id, "pwm1");
    assert_eq!(out[0].chip_dir, "hwmon0");
    assert_eq!(out[0].chip_name, "it8792");
    assert_eq!(out[0].raw, Some(182));
    assert_eq!(out[0].enable, Some(1));
    assert_eq!(out[1].id, "pwm2");
    assert_eq!(out[1].enable, Some(0));

    let line1 = format_pwm_channel(&out[0]);
    // 182/255 = 71%, mode 1 = manual.
    assert!(line1.contains("hwmon0"), "{line1}");
    assert!(line1.contains("it8792"), "{line1}");
    assert!(line1.contains("pwm1"), "{line1}");
    assert!(line1.contains("raw=182"), "{line1}");
    assert!(line1.contains("duty=  71%"), "{line1}");
    assert!(line1.contains("mode=manual"), "{line1}");

    let line2 = format_pwm_channel(&out[1]);
    // pwm2 has no pwm2_max file: the default range (0..=255) applies.
    assert!(line2.contains("pwm2"), "{line2}");
    assert!(line2.contains("duty=  39%"), "{line2}");
    assert!(line2.contains("mode=off"), "{line2}");
}

#[test]
fn summary_starts_with_pwm_channels() {
    let mut fs = fake_chip();
    fs.dirs[0].files.push(file("temp1_input", "70000\n"));
    let out = text(&render_summary(&config(), &fs, &vec![]));

    assert!(out.starts_with("PWM channels"), "{out}");
    assert!(out.contains("\nFans"), "{out}");
    assert!(out.contains("pwm1"), "{out}");
    assert!(
        out.contains("pwm2"),
        "the unconfigured pwm2 must show up too: {out}"
    );
}

#[test]
fn the_whole_summary() {
    let mut fs = fake_chip();
    fs.dirs[0].files.push(file("temp1_input", "70500\n"));
    fs.dirs[0].files.push(file("pwm3", "1\n"));
    fs.dirs[0].files.push(file("pwm3_enable", "5\n"));
    fs.dirs[0].files.push(file("pwm4_enable", "x\n"));
    let mut cfg = config();
    cfg.pwm[0].duty_min = Some(20_000_000_000);
    cfg.pwm[0].duty_max = Some(80_000_000_000);
    cfg.pwm[0].temp_sensor = Some(TempRef {
        hwmon: "nvidia".to_string(),
        sensor: "gpu0".to_string(),
    });
    let mut lost = cfg.pwm[0].clone();
    lost.id = "pwm7".to_string();
    lost.hwmon = "gone".to_string();
    let mut odd = cfg.pwm[0].clone();
    odd.id = "fan".to_string();
    let mut lone = cfg.pwm[0].clone();
    lone.name = None;
    lone.temp_sensors.clear();
    lone.temp_sensor = None;
    lone.duty_max = None;
    cfg.pwm.push(lost);
    cfg.pwm.push(odd);
    cfg.pwm.push(lone);
    cfg.temp_sensors[0].sensors.push("temp9".to_string());
    cfg.temp_sensors.push(TempSensor {
        hwmon: "gone".to_string(),
        sensors: vec!["temp1".to_string()],
    });
    let gpus = vec![
        NvidiaGpu {
            index: 0,
            name: "RTX".to_string(),
            temp_c: Some(34_000_000_000),
            fan_percent: None,
        },
        NvidiaGpu {
            index: 11,
            name: "CMP".to_string(),
            temp_c: None,
            fan_percent: None,
        },
    ];
    let out = render_summary(&cfg, &fs, &gpus);
    let want = vec![
        "PWM channels",
        "  hwmon0    it8792      pwm1      raw=182  duty=  71%  mode=manual",
        "  hwmon0    it8792      pwm2      raw=100  duty=  39%  mode=off",
        "  hwmon0    it8792      pwm3      raw=1    duty=   0%  mode=driver-specific",
        "  hwmon0    it8792      pwm4      raw=n/a  duty=  n/a  mode=n/a",
        "",
        "Fans",
        "  Fan 1     it8792      1  duty=  71%  mode=manual  range=20-80% (measured)",
        "  └─ driven by max(it8792:temp1, nvidia:gpu0)",
        "  pwm7      (chip gone not found)",
        "  fan       (unparseable id)",
        "  pwm1      it8792      1  duty=  71%  mode=manual",
        "",
        "Temperatures",
        "  it8792       temp1     70.5°C  (temp1)",
        "  it8792       temp9   -- no reading --",
        "",
        "GPUs (NVML)",
        "  gpu 0  RTX                         34.0°C",
        "  gpu11  CMP                          n/a°C",
    ];
    assert_eq!(out, want);
}

#[test]
fn an_empty_summary() {
    let fs = Sysfs {
        base: "/x".to_string(),
        dirs: vec![],
    };
    let cfg = Config {
        refresh_secs: 1,
        pwm: vec![],
        temp_sensors: vec![],
        show_lm_sensors: false,
    };
    assert_eq!(
        render_summary(&cfg, &fs, &vec![]),
        vec![
            "PWM channels",
            "  (no pwmN channels found)",
            "",
            "Fans",
            "",
            "Temperatures"
        ]
    );
}

#[test]
fn the_probe_lists_chips_and_gpus() {
    let fs = fake_chip();
    assert_eq!(
        probe_view(&fs, &vec![]),
        vec!["it8792      hwmon0  pwm=[1, 2] temp=[] fan=[]"]
    );
    let gpus = vec![NvidiaGpu {
        index: 3,
        name: "RTX".to_string(),
        temp_c: Some(33_600_000_000),
        fan_percent: None,
    }];
    let out = probe_view(&fs, &gpus);
    assert_eq!(out[1], "");
    assert_eq!(out[2], "NVIDIA GPUs (NVML):");
    assert_eq!(out[3], "  gpu3  RTX                          34°C");
}
