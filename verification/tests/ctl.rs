use fanctl::ctl::{applied_line, failed_line, parse_set, parse_sets, sent, Sent, SetCommand};
use fanctl::ipc::{Mode, Response};

#[test]
fn percent_values() {
    let s = parse_set("pwm1=99").unwrap();
    assert_eq!(s.fan, "pwm1");
    assert_eq!(s.mode, Mode::Manual { percent: 99 });
    assert_eq!(
        parse_set("pwm1=0").unwrap().mode,
        Mode::Manual { percent: 0 }
    );
    assert_eq!(
        parse_set("pwm2=100").unwrap().mode,
        Mode::Manual { percent: 100 }
    );
}

#[test]
fn keyword_values() {
    assert_eq!(parse_set("pwm1=auto").unwrap().mode, Mode::Auto);
    assert_eq!(parse_set("pwm1=off").unwrap().mode, Mode::Off);
    assert_eq!(parse_set("pwm1=full").unwrap().mode, Mode::Full);
}

#[test]
fn out_of_range_and_garbage_are_rejected() {
    for bad in [
        "pwm1=101",
        "pwm1=1000",
        "pwm1=",
        "=99",
        "pwm1",
        "pwm1=abc",
        "pwm1=-5",
    ] {
        assert!(parse_set(bad).is_err(), "{bad:?} must be rejected");
    }
    let err = parse_set("pwm1=101").unwrap_err();
    assert!(err.contains("0..=100"), "{err}");
}

#[test]
fn set_errors_quote_the_argument() {
    assert_eq!(
        parse_set("pw\"m1").unwrap_err(),
        "bad --set argument \"pw\\\"m1\": expected FAN=MODE, e.g. pwm1=99"
    );
    assert_eq!(
        parse_set(" =5").unwrap_err(),
        "bad --set argument \" =5\": the fan id must not be empty"
    );
    assert_eq!(
        parse_set("a=200").unwrap_err(),
        "bad --set value \"200\": the percent must be in 0..=100 (got 200)"
    );
    assert_eq!(
        parse_set("a= x").unwrap_err(),
        "bad --set value \" x\": expected a percent (0-100) or auto|off|full"
    );
}

#[test]
fn blanks_round_fan_and_mode_are_dropped() {
    let s = parse_set(" pwm1 = 42 ").unwrap();
    assert_eq!(s.fan, "pwm1");
    assert_eq!(s.mode, Mode::Manual { percent: 42 });
}

#[test]
fn every_percentage_is_taken() {
    for p in 0..=100u8 {
        let s = parse_set(&format!("pwm1={p}")).unwrap();
        assert_eq!(s.mode, Mode::Manual { percent: p });
    }
    for p in 101..300 {
        assert!(parse_set(&format!("pwm1={p}")).is_err());
    }
}

#[test]
fn one_bad_set_argument_fails_them_all() {
    let args = |v: &[&str]| v.iter().map(|s| s.to_string()).collect::<Vec<String>>();
    let ok = parse_sets(&args(&["pwm1=99", "pwm2=off"])).unwrap();
    assert_eq!(ok.len(), 2);
    assert_eq!(ok[1].mode, Mode::Off);
    let err = parse_sets(&args(&["pwm1=99", "pwm2", "=3"])).unwrap_err();
    assert!(err.contains("\"pwm2\""), "{err}");
}

fn command() -> SetCommand {
    SetCommand {
        fan: "pwm1".to_string(),
        mode: Mode::Manual { percent: 50 },
    }
}

#[test]
fn the_outcome_of_a_set_is_worded() {
    let c = command();
    assert_eq!(applied_line(&c), "pwm1: set to 50%");
    assert_eq!(failed_line("fanctld", "pwm1", "no fan"), "fanctld: pwm1: no fan");
    assert_eq!(
        sent(&c, &Ok(Response::Done)),
        Sent::Applied("pwm1: set to 50% (via fanctld)".to_string())
    );
    assert_eq!(
        sent(
            &c,
            &Ok(Response::Error {
                message: "no fan pwm1".to_string()
            })
        ),
        Sent::Failed("fanctlui: pwm1: no fan pwm1".to_string())
    );
    assert_eq!(
        sent(&c, &Err("Connection refused (os error 111)".to_string())),
        Sent::Failed(
            "fanctlui: pwm1: Connection refused (os error 111) (is fanctld running?)".to_string()
        )
    );
    assert_eq!(
        sent(&c, &Err("No such file or directory".to_string())),
        Sent::Failed(
            "fanctlui: pwm1: No such file or directory (is fanctld running?)".to_string()
        )
    );
    assert_eq!(
        sent(&c, &Err("timed out".to_string())),
        Sent::Failed("fanctlui: pwm1: timed out".to_string())
    );
}
