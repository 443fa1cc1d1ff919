use fanctl::hwmon::{discover, resolve, FileWrite, Hwmon, SysDir, SysFile, Sysfs};

fn file(name: &str, text: &str) -> SysFile {
    SysFile {
        name: name.to_string(),
        text: Some(text.to_string()),
    }
}

fn dir(name: &str, files: Vec<SysFile>) -> SysDir {
    SysDir {
        name: name.to_string(),
        is_dir: true,
        files,
    }
}

fn tree(dirs: Vec<SysDir>) -> Sysfs {
    Sysfs {
        base: "/sys/class/hwmon".to_string(),
        dirs,
    }
}

/// A fake hwmon tree.
fn make_fake_chip() -> Sysfs {
    tree(vec![dir(
        "hwmon0",
        vec![
            file("name", "it8792\n"),
            file("pwm1", "182\n"),
            file("pwm1_enable", "0\n"),
            file("pwm1_max", "255\n"),
            file("pwm2", "100\n"),
            file("pwm2_enable", "0\n"),
            file("temp1_input", "33000\n"),
            file("temp1_label", "T1\n"),
            file("temp2_input", "35000\n"),
            file("fan1_input", "1650\n"),
        ],
    )])
}

/// Carry writes out in the picture.
fn carry_out(c: &Hwmon, fs: &mut Sysfs, writes: &[FileWrite]) -> bool {
    for w in writes {
        if !c.write(fs, &w.file, &w.value) {
            return false;
        }
    }
    true
}

#[test]
fn discovers_chip_and_sensors() {
    let fs = make_fake_chip();
    let chips = discover(&fs);
    assert_eq!(chips.len(), 1, "chips: {:?}", chips);
    let c = &chips[0];
    assert_eq!(c.name, "it8792");
    assert_eq!(c.pwm_numbers(&fs), vec![1, 2]);
    assert_eq!(c.temp_numbers(&fs), vec![1, 2]);
    assert_eq!(c.fan_numbers(&fs), vec![1]);
}

#[test]
fn reads_temps_and_pwm() {
    let fs = make_fake_chip();
    let c = &discover(&fs)[0];
    assert_eq!(c.read_i64(&fs, "temp1_input"), Some(33000));
    assert_eq!(c.read(&fs, "temp1_label").as_deref(), Some("T1"));
    assert_eq!(c.pwm_raw(&fs, 1), Some(182));
    assert_eq!(c.pwm_enable(&fs, 1), Some(0));
    // 182/255 == 71.4%
    let pct = c.pwm_percent(&fs, 1, 255).unwrap() as f64 / 1e9;
    assert!((pct - 71.37).abs() < 0.1, "pct={pct}");
}

#[test]
fn writes_pwm_manual_and_modes() {
    let mut fs = make_fake_chip();
    let c = &discover(&fs)[0];
    assert!(carry_out(c, &mut fs, &c.set_pwm_manual(1, 50_000_000_000, 255)));
    assert_eq!(c.read(&fs, "pwm1_enable").as_deref(), Some("1"));
    assert_eq!(c.pwm_raw(&fs, 1), Some(128), "50% of 255 rounds to 128");

    // Off is a 0% manual duty: the it87 family's `pwmN_enable = 0` does not
    // stop the fan (the driver keeps it on in on/off mode at 100%).
    assert!(carry_out(c, &mut fs, &c.set_pwm_off(1, 255)));
    assert_eq!(c.read(&fs, "pwm1_enable").as_deref(), Some("1"));
    assert_eq!(c.pwm_raw(&fs, 1), Some(0));
    assert!(carry_out(c, &mut fs, &c.set_pwm_auto(1)));
    assert_eq!(c.read(&fs, "pwm1_enable").as_deref(), Some("2"));
    assert!(carry_out(c, &mut fs, &c.set_pwm_full(1, 255)));
    // `Full` is manual mode at the chip's maximum.
    assert_eq!(c.read(&fs, "pwm1_enable").as_deref(), Some("1"));
    assert_eq!(c.pwm_raw(&fs, 1), Some(255));
}

#[test]
fn chips_come_in_order_of_their_directories() {
    let fs = tree(vec![
        dir("hwmon2", vec![file("name", "nvme\n")]),
        dir("hwmon10", vec![file("name", "nvme\n")]),
        dir("hwmon1", vec![file("name", "k10temp\n")]),
        dir("power", vec![file("name", "x\n")]),
        SysDir {
            name: "hwmon3".to_string(),
            is_dir: false,
            files: Vec::new(),
        },
        dir("hwmon7", Vec::new()),
    ]);
    let chips = discover(&fs);
    let dirs: Vec<&str> = chips.iter().map(|c| c.dir.as_str()).collect();
    assert_eq!(dirs, vec!["hwmon1", "hwmon10", "hwmon2", "hwmon7"]);
    // Without a name file a chip goes by its number.
    assert_eq!(chips[3].name, "7");
    assert_eq!(chips[0].path, "/sys/class/hwmon/hwmon1");
    assert_eq!(chips[0].file("pwm1"), "/sys/class/hwmon/hwmon1/pwm1");

    // A unique name, a directory, a name that two chips share.
    assert_eq!(resolve(&chips, "k10temp").unwrap().dir, "hwmon1");
    assert_eq!(resolve(&chips, "hwmon2").unwrap().dir, "hwmon2");
    assert!(resolve(&chips, "nvme").is_none());
    assert!(resolve(&chips, "missing").is_none());
}

#[test]
fn numbers_are_sorted_and_listed_once() {
    let fs = tree(vec![dir(
        "hwmon0",
        vec![
            file("temp10_input", "1"),
            file("temp2_input", "1"),
            file("temp2_label", "1"),
            file("temp1", "1"),
            file("temp3x", "1"),
            file("temp", "1"),
            file("temp99999999999_input", "1"),
            file("pwm07_enable", "1"),
        ],
    )]);
    let c = &discover(&fs)[0];
    assert_eq!(c.temp_numbers(&fs), vec![1, 2, 10]);
    assert_eq!(c.pwm_numbers(&fs), vec![7]);
    assert_eq!(c.fan_numbers(&fs), Vec::<u32>::new());
}

#[test]
fn the_duty_goes_by_the_range_files() {
    let fs = tree(vec![dir(
        "hwmon0",
        vec![
            file("pwm1", "60"),
            file("pwm1_min", "20"),
            file("pwm1_max", "100"),
            file("pwm2", "300"),
            file("pwm3", "5"),
            file("pwm3_min", "9"),
            file("pwm3_max", "9"),
            file("pwm4", "-4"),
            file("pwm5", "x"),
        ],
    )]);
    let c = &discover(&fs)[0];
    assert_eq!(c.pwm_percent(&fs, 1, 255), Some(50_000_000_000));
    assert_eq!(c.pwm_percent(&fs, 2, 255), Some(100_000_000_000));
    assert_eq!(c.pwm_percent(&fs, 3, 255), None);
    assert_eq!(c.pwm_percent(&fs, 4, 255), None);
    assert_eq!(c.pwm_percent(&fs, 5, 255), None);
    assert_eq!(c.pwm_percent(&fs, 6, 255), None);
    assert_eq!(c.pwm_raw(&fs, 4), None);
}

#[test]
fn raw_values_rise_with_the_duty() {
    let fs = make_fake_chip();
    let c = &discover(&fs)[0];
    let raw = |pct: i64, max: u32| -> u32 {
        let w = c.set_pwm_manual(1, pct, max);
        assert_eq!(w.len(), 2);
        assert_eq!((w[0].file.as_str(), w[0].value.as_str()), ("pwm1_enable", "1"));
        assert_eq!(w[1].file, "pwm1");
        w[1].value.parse().unwrap()
    };
    let mut last = 0;
    for p in -10..120i64 {
        let r = raw(p * 1_000_000_000, 255);
        assert!(last <= r && r <= 255);
        last = r;
    }
    assert_eq!(raw(0, 255), 0);
    assert_eq!(raw(100_000_000_000, 255), 255);
    assert_eq!(raw(100_000_000_000, u32::MAX), u32::MAX);
    assert_eq!(raw(70_000_000_000, 255), 179);
}

#[test]
fn a_duty_reads_back_to_within_half_a_register_step() {
    let mut fs = make_fake_chip();
    let c = &discover(&fs)[0].clone();
    for p in 0..=100i64 {
        let pct = p * 1_000_000_000;
        assert!(carry_out(c, &mut fs, &c.set_pwm_manual(1, pct, 255)));
        let back = c.pwm_percent(&fs, 1, 255).unwrap();
        // 50 / 255 percent, without any slack.
        assert!((back - pct).abs() * 2 * 255 <= 100_000_000_000, "{p}: {back}");
    }
    // Any other maximum takes a billionth of a percent more at most.
    let mut fs = tree(vec![dir("hwmon0", vec![file("name", "x\n")])]);
    let c = &discover(&fs)[0].clone();
    for max in [1i64, 3, 7, 40, 50, 200, 1000, 65535, 4_294_967_295] {
        for p in 0..=200i64 {
            let pct = p * 500_000_000;
            assert!(carry_out(c, &mut fs, &c.set_pwm_manual(1, pct, max as u32)));
            let back = c.pwm_percent(&fs, 1, max as u32).unwrap();
            let off = i128::from((back - pct).abs()) * 2 * i128::from(max);
            assert!(off <= 100_000_000_000 + 2 * i128::from(max), "{p} of {max}: {back}");
            assert!((0..=100_000_000_000).contains(&back));
        }
    }
    assert!(carry_out(c, &mut fs, &c.set_pwm_manual(1, 50_000_000_000, 3)));
    assert_eq!(c.pwm_percent(&fs, 1, 3), Some(66_666_666_667));
}

#[test]
fn a_write_changes_one_file() {
    let mut fs = make_fake_chip();
    let c = &discover(&fs)[0].clone();
    assert!(c.write(&mut fs, "pwm2", "7"));
    assert_eq!(c.read(&fs, "pwm2").as_deref(), Some("7"));
    assert_eq!(c.read(&fs, "pwm1").as_deref(), Some("182"));
    // A new file appears; a directory in a file's place takes no write.
    assert!(c.write(&mut fs, "pwm9", "1"));
    assert_eq!(c.pwm_raw(&fs, 9), Some(1));
    fs.dirs[0].files[0].text = None;
    assert!(!c.write(&mut fs, "name", "x"));
    let gone = Hwmon {
        name: "x".to_string(),
        dir: "hwmon9".to_string(),
        path: "/x".to_string(),
    };
    assert!(!gone.write(&mut fs, "pwm1", "1"));
    assert_eq!(gone.read(&fs, "pwm1"), None);
    assert_eq!(gone.pwm_numbers(&fs), Vec::<u32>::new());
}

#[test]
fn the_tachometer_has_two_names() {
    let fs = tree(vec![dir(
        "hwmon0",
        vec![
            file("fan1_input", "x"),
            file("fan1_rpm", "700"),
            file("fan2_input", "800"),
            file("fan2_rpm", "1"),
        ],
    )]);
    let c = &discover(&fs)[0];
    assert_eq!(c.tach(&fs, 1), Some(700));
    assert_eq!(c.tach(&fs, 2), Some(800));
    assert_eq!(c.tach(&fs, 3), None);
}

#[test]
fn directories_tell_chips_of_one_name_apart() {
    let fs = tree(vec![
        dir("hwmon2", vec![file("name", "nvme\n")]),
        dir("hwmon3", vec![file("name", "nvme\n")]),
        dir("hwmon4", vec![file("name", "k10temp\n")]),
    ]);
    let chips = discover(&fs);
    assert_eq!(resolve(&chips, "nvme"), None);
    assert_eq!(resolve(&chips, "hwmon3").unwrap().dir, "hwmon3");
    assert_eq!(resolve(&chips, "k10temp").unwrap().dir, "hwmon4");
    assert_eq!(resolve(&chips, "hwmon4").unwrap().name, "k10temp");
}

#[test]
fn a_failed_write_names_the_file() {
    let fs = make_fake_chip();
    let chips = discover(&fs);
    assert_eq!(
        chips[0].write_failure("pwm1_enable", "Permission denied"),
        "failed to write /sys/class/hwmon/hwmon0/pwm1_enable: Permission denied"
    );
}
