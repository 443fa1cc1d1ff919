use fanctl::args::{parse_args, parse_ui_args, resolve_socket, Args, Purpose, Stop};

fn words(v: &[&str]) -> Vec<String> {
    v.iter().map(|s| s.to_string()).collect()
}

fn daemon(v: &[&str]) -> Result<Args, Stop> {
    parse_args(&words(v))
}

#[test]
fn no_arguments_serve() {
    let a = daemon(&[]).unwrap();
    assert_eq!(a.purpose(), Ok(Purpose::Serve));
    assert_eq!(a.sock, None);
    assert_eq!(a.config_path, None);
}

#[test]
fn flags_take_their_values() {
    let a = daemon(&["-c", "/etc/f.yaml", "--sock", "/tmp/s", "--set", "pwm1=9", "--set", "x"])
        .unwrap();
    assert_eq!(a.config_path, Some("/etc/f.yaml".to_string()));
    assert_eq!(a.sock, Some("/tmp/s".to_string()));
    assert_eq!(a.sets, words(&["pwm1=9", "x"]));
    assert_eq!(a.purpose(), Ok(Purpose::SetModes));
    let a = daemon(&["--config", "a", "--config", "b"]).unwrap();
    assert_eq!(a.config_path, Some("b".to_string()));
}

#[test]
fn help_and_version_stop_at_once() {
    assert_eq!(daemon(&["--help", "--bogus"]), Err(Stop::Help));
    assert_eq!(daemon(&["-h"]), Err(Stop::Help));
    assert_eq!(daemon(&["--version"]), Err(Stop::Version));
    assert_eq!(daemon(&["-V"]), Err(Stop::Version));
}

#[test]
fn unknown_flags_are_an_error() {
    assert_eq!(
        daemon(&["--bogus", "--help"]),
        Err(Stop::Fail("unknown flag \"--bogus\"".to_string()))
    );
    assert_eq!(
        daemon(&["--probe", "now"]),
        Err(Stop::Fail("unknown flag \"now\"".to_string()))
    );
}

#[test]
fn a_missing_value_is_an_error() {
    for (flag, name) in [
        ("-c", "-c"),
        ("--config", "-c"),
        ("--sock", "--sock"),
        ("--set", "--set"),
        ("--sweep", "--sweep"),
        ("--step", "--step"),
        ("--settle", "--settle"),
    ] {
        assert_eq!(daemon(&[flag]), Err(Stop::Missing(name.to_string())));
    }
}

#[test]
fn sweep_settings_are_checked() {
    let a = daemon(&["--sweep", "pwm1", "--step", " 5 ", "--settle", "1.5"]).unwrap();
    assert_eq!(
        a.purpose(),
        Ok(Purpose::Sweep {
            fan: "pwm1".to_string(),
            step: 5,
            settle: 1_500_000_000
        })
    );
    let a = daemon(&["--sweep", "pwm1"]).unwrap();
    assert_eq!(
        a.purpose(),
        Ok(Purpose::Sweep {
            fan: "pwm1".to_string(),
            step: 10,
            settle: 3_000_000_000
        })
    );
    for bad in ["0", "51", "x", "-1", "300"] {
        assert_eq!(
            daemon(&["--sweep", "pwm1", "--step", bad]),
            Err(Stop::Fail(format!(
                "bad --step value {bad:?}: expected a percent in 1..=50"
            )))
        );
    }
    for bad in [
        "0.1",
        "0.1999999999999",
        "60.5",
        "60.0000000001",
        "inf",
        "nan",
        "x",
        "-1",
        "",
    ] {
        assert_eq!(
            daemon(&["--sweep", "pwm1", "--settle", bad]),
            Err(Stop::Fail(format!(
                "bad --settle value {bad:?}: expected seconds in 0.2..=60"
            )))
        );
    }
    assert!(daemon(&["--sweep", "p", "--settle", "0.2", "--step", "1"]).is_ok());
    assert!(daemon(&["--sweep", "p", "--settle", "60", "--step", "50"]).is_ok());
    assert_eq!(
        daemon(&["--step", "5"]),
        Err(Stop::Fail("--step and --settle require --sweep".to_string()))
    );
}

#[test]
fn one_shot_modes_exclude_each_other() {
    let a = daemon(&["--probe", "--summary"]).unwrap();
    assert_eq!(
        a.purpose(),
        Err(
            "--probe, --summary, --set and --sweep are one-shot modes and cannot be combined"
                .to_string()
        )
    );
    assert!(daemon(&["--probe", "--set", "a=1"]).unwrap().purpose().is_err());
    assert!(daemon(&["--sweep", "a", "--set", "a=1"]).unwrap().purpose().is_err());
    assert_eq!(daemon(&["--probe"]).unwrap().purpose(), Ok(Purpose::Probe));
    assert_eq!(daemon(&["--summary"]).unwrap().purpose(), Ok(Purpose::Summary));
}

#[test]
fn client_arguments() {
    let a = parse_ui_args(&words(&["-s", "/tmp/a", "--set", "pwm1=1"])).unwrap();
    assert_eq!(a.sock, Some("/tmp/a".to_string()));
    assert_eq!(a.sets, words(&["pwm1=1"]));
    assert_eq!(parse_ui_args(&words(&["-h"])), Err(Stop::Help));
    assert_eq!(parse_ui_args(&words(&["--version"])), Err(Stop::Version));
    assert_eq!(
        parse_ui_args(&words(&["--sock"])),
        Err(Stop::Missing("-s".to_string()))
    );
    assert_eq!(
        parse_ui_args(&words(&["--set"])),
        Err(Stop::Missing("--set".to_string()))
    );
    assert_eq!(
        parse_ui_args(&words(&["--probe"])),
        Err(Stop::Fail("unknown flag \"--probe\"".to_string()))
    );
}

#[test]
fn the_socket_is_the_first_that_is_named() {
    let arg = Some("/a".to_string());
    assert_eq!(resolve_socket(&arg, Some("/b"), Some("/c")), "/a");
    assert_eq!(resolve_socket(&None, Some("/b"), Some("/c")), "/b");
    assert_eq!(resolve_socket(&None, None, Some("/c")), "/c/fanctld.sock");
    assert_eq!(resolve_socket(&None, None, None), "/run/fanctld.sock");
}
