use fanctl::config::types::{
    Aggregation, Config, ControlKind, InitialMode, Pwm, TempRef, TempSensor,
};
use fanctl::curve::CurvePoint;
use fanctl::daemon::engine::{Engine, FanPlan};
use fanctl::daemon::server::{
    answer, bad_request, daemon_is_running, handle_connection, step_line, sweep_exit_code,
    sweep_heading, tick_interval, Action, SweepMove, SweepNext, SweepRun,
};
use fanctl::hwmon::{SysDir, SysFile, Sysfs};
use fanctl::ipc::{Mode, Request, Response, State};
use fanctl::sweep;
use fanctl::sweep::SweepReport;
use fanctl::temps::NvidiaGpu;

fn q(v: f64) -> i64 {
    (v * 1e9).round() as i64
}

fn point(temp: f64, duty: f64) -> CurvePoint {
    CurvePoint::new(q(temp), q(duty))
}

fn file(name: &str, text: &str) -> SysFile {
    SysFile {
        name: name.to_string(),
        text: Some(text.to_string()),
    }
}

fn dir(name: &str, files: Vec<SysFile>) -> SysDir {
    SysDir {
        name: name.to_string(),
        is_dir: true,
        files,
    }
}

/// A fake hwmon tree: one k10temp at 70 °C driving one it8792 PWM (with a
/// tachometer, so sweeps can observe it).
fn fake_base() -> Sysfs {
    Sysfs {
        base: "/sys/class/hwmon".to_string(),
        dirs: vec![
            dir(
                "hwmon0",
                vec![
                    file("name", "k10temp\n"),
                    file("temp1_input", "70000\n"),
                    file("temp1_label", "Tctl\n"),
                ],
            ),
            dir(
                "hwmon1",
                vec![
                    file("name", "it8792\n"),
                    file("pwm1", "0\n"),
                    file("pwm1_enable", "0\n"),
                    file("fan1_input", "0\n"),
                ],
            ),
        ],
    }
}

fn config() -> Config {
    Config {
        refresh_secs: q(2.0),
        pwm: vec![Pwm {
            id: "pwm1".to_string(),
            hwmon: "it8792".to_string(),
            name: Some("Fan 1".to_string()),
            pwm_max: 255,
            temp_sensors: vec![TempRef {
                hwmon: "k10temp".to_string(),
                sensor: "temp1".to_string(),
            }],
            temp_sensor: None,
            aggregation: Aggregation::Max,
            control: ControlKind::Curve,
            curve: vec![point(0.0, 0.0), point(100.0, 100.0)],
            default: InitialMode::Auto,
            duty_min: None,
            duty_max: None,
        }],
        temp_sensors: vec![TempSensor {
            hwmon: "k10temp".to_string(),
            sensors: vec!["temp1".to_string()],
        }],
        show_lm_sensors: false,
    }
}

/// An engine with the tree it drives and the config file it keeps.
struct World {
    fs: Sysfs,
    e: Engine,
    /// The config file; `None` where it cannot be written.
    disk: Option<Config>,
    nvidia: Vec<NvidiaGpu>,
}

fn world_of(fs: Sysfs, config: Config) -> World {
    let nvidia = Vec::new();
    let e = Engine::new(config, "/etc/fanctl.yaml".to_string(), &fs, None, &nvidia);
    let disk = Some(e.config.clone());
    World {
        fs,
        e,
        disk,
        nvidia,
    }
}

fn world() -> World {
    world_of(fake_base(), config())
}

impl World {
    fn carry_out(&mut self, plan: &Option<FanPlan>) -> Option<String> {
        if let Some(p) = plan {
            for w in &p.writes {
                if !p.chip.write(&mut self.fs, &w.file, &w.value) {
                    return Some("Is a directory (os error 21)".to_string());
                }
            }
        }
        None
    }

    fn finish_tick(&mut self, plans: Vec<Option<FanPlan>>) {
        let outcomes: Vec<Option<String>> = plans.iter().map(|p| self.carry_out(p)).collect();
        self.e.tick_done(&outcomes, &self.fs);
    }

    fn tick(&mut self) {
        let plans = self.e.tick(&self.fs, &self.nvidia, None);
        self.finish_tick(plans);
    }

    fn set_mode(&mut self, id: &str, mode: Mode) -> Result<(), String> {
        let plan = self.e.set_mode(id, mode, &self.fs, &self.nvidia)?;
        let failure = self.carry_out(&plan);
        self.e.mode_applied(id, &failure, &self.fs)
    }

    fn write_config(&mut self) -> Option<String> {
        if self.disk.is_some() {
            self.disk = Some(self.e.config.clone());
            None
        } else {
            Some("Not a directory (os error 20)".to_string())
        }
    }

    fn save_fan_config(
        &mut self,
        id: &str,
        curve: Vec<CurvePoint>,
        mode: InitialMode,
    ) -> Result<(), String> {
        let undo = self.e.save_fan_config(id, curve, mode)?;
        let failure = self.write_config();
        self.e.fan_config_saved(undo, failure)
    }

    fn reload(&mut self) -> Result<(), String> {
        let config = match &self.disk {
            Some(c) => Ok(c.clone()),
            None => Err("no such file".to_string()),
        };
        let plans = self.e.reload(config, &self.fs, None, &self.nvidia)?;
        self.finish_tick(plans);
        Ok(())
    }

    fn sweep_write(&mut self, duty: u8) -> Result<(), String> {
        let plan = self.e.sweep_write(duty, &self.fs)?;
        let failure = self.carry_out(&Some(plan));
        self.e.sweep_written(&failure, &self.fs)
    }

    fn sweep_finish(&mut self) {
        if let Some(end) = self.e.sweep_finish() {
            let failure = if end.range.is_some() {
                self.write_config()
            } else {
                None
            };
            let plan = self.e.sweep_saved(&end, &failure, &self.fs, &self.nvidia);
            self.carry_out(&plan);
            self.e.sweep_restored(&end.state.fan, None, &self.fs);
        }
    }

    fn sweep_abort(&mut self, why: &str) {
        if let Some(stop) = self.e.sweep_abort(why, &self.fs, &self.nvidia) {
            self.carry_out(&stop.plan);
            self.e.sweep_restored(&stop.fan, Some(why.to_string()), &self.fs);
        }
    }

    /// Serve a request as the daemon does; a sweep is handed back.
    fn request(&mut self, req: Request) -> (Response, Option<SweepRun>) {
        match handle_connection(&mut self.e, req, &self.fs, &self.nvidia) {
            Action::Reply(r) => (r, None),
            Action::Drive { fan, plan } => {
                let failure = self.carry_out(&plan);
                (answer(self.e.mode_applied(&fan, &failure, &self.fs)), None)
            }
            Action::Save(undo) => {
                let failure = self.write_config();
                (answer(self.e.fan_config_saved(undo, failure)), None)
            }
            Action::StartSweep { fan, step, .. } => {
                (Response::Done, Some(SweepRun::new(fan, step)))
            }
            Action::Reload => (answer(self.reload()), None),
        }
    }

    fn state(&mut self) -> State {
        match self.request(Request::GetState).0 {
            Response::State { state } => state,
            other => panic!("unexpected response: {other:?}"),
        }
    }

    fn pwm_file(&self, name: &str) -> String {
        self.file_text("hwmon1", name)
    }

    fn file_text(&self, dir: &str, name: &str) -> String {
        let d = self.fs.dirs.iter().find(|d| d.name == dir).unwrap();
        let f = d.files.iter().find(|f| f.name == name).unwrap();
        f.text.clone().unwrap().trim().to_string()
    }

    fn put(&mut self, dir: &str, name: &str, text: Option<&str>) {
        let d = self.fs.dirs.iter_mut().find(|d| d.name == dir).unwrap();
        let f = d.files.iter_mut().find(|f| f.name == name).unwrap();
        f.text = text.map(|t| t.to_string());
    }

    /// Write `value` to the fake chip's tachometer file.
    fn set_tach(&mut self, value: &str) {
        self.put("hwmon1", "fan1_input", Some(value));
    }
}

#[test]
fn tick_applies_curve_and_reads_back() {
    let mut w = world();
    w.tick();

    // 70 °C on the 0→0 / 100→100 curve = 70% = round(0.7·255) = 179.
    assert_eq!(w.pwm_file("pwm1"), "179");
    assert_eq!(w.pwm_file("pwm1_enable"), "1");
    let fan = &w.e.fans[0];
    assert!(
        (fan.duty.unwrap() - q(70.0)).abs() < q(0.5),
        "duty: {:?}",
        fan.duty
    );
    assert!(fan.err.is_none(), "{:?}", fan.err);
}

#[test]
fn set_mode_manual_writes_duty() {
    let mut w = world();
    w.tick();
    w.set_mode("pwm1", Mode::Manual { percent: 50 }).unwrap();

    assert_eq!(w.pwm_file("pwm1"), "128");
    assert_eq!(w.pwm_file("pwm1_enable"), "1");
    assert!((w.e.fans[0].duty.unwrap() - q(50.0)).abs() < q(0.5));
}

#[test]
fn set_mode_off_and_full_set_enable_bits() {
    let mut w = world();
    w.tick();
    w.set_mode("pwm1", Mode::Off).unwrap();
    // Off is a 0% manual duty: the it87 family's `pwmN_enable = 0` does not
    // stop the fan (the driver keeps it on in on/off mode at 100%).
    assert_eq!(w.pwm_file("pwm1_enable"), "1");
    assert_eq!(w.pwm_file("pwm1"), "0");
    w.set_mode("pwm1", Mode::Full).unwrap();
    // `Full` is manual mode at 100%.
    assert_eq!(w.pwm_file("pwm1_enable"), "1");
    assert_eq!(w.pwm_file("pwm1"), "255");
}

#[test]
fn set_mode_unknown_fan_is_an_error() {
    let mut w = world();
    let err = w.set_mode("pwm9", Mode::Off).unwrap_err();
    assert!(err.contains("pwm9"), "{err}");
}

#[test]
fn save_fan_config_persists_curve_and_default() {
    let mut w = world();
    let new_curve = vec![point(30.0, 0.0), point(60.0, 50.0), point(80.0, 100.0)];
    w.save_fan_config("pwm1", new_curve.clone(), InitialMode::Off)
        .unwrap();

    // On disk: the file now holds the new curve and initial mode.
    let reloaded = w.disk.as_ref().unwrap();
    assert_eq!(reloaded.pwm[0].curve, new_curve);
    assert_eq!(reloaded.pwm[0].default, InitialMode::Off);
    // In memory, and in the runtime curve the next tick will follow.
    assert_eq!(w.e.config.pwm[0].curve, new_curve);
    assert_eq!(w.e.config.pwm[0].default, InitialMode::Off);
    assert_eq!(w.e.fans[0].curve.points[1].duty, q(50.0));
}

#[test]
fn save_fan_config_rejects_bad_curves_and_keeps_the_file() {
    let mut w = world();
    let before = w.disk.as_ref().unwrap().clone();

    // Unsorted temperatures.
    let bad = vec![point(70.0, 0.0), point(60.0, 50.0)];
    let err = w
        .save_fan_config("pwm1", bad, InitialMode::Auto)
        .unwrap_err();
    assert!(err.contains("increasing"), "{err}");
    // Out-of-range duty.
    let bad_duty = vec![point(30.0, 101.0)];
    let err = w
        .save_fan_config("pwm1", bad_duty, InitialMode::Auto)
        .unwrap_err();
    assert!(err.contains("duty"), "{err}");
    // Empty curve.
    let err = w
        .save_fan_config("pwm1", Vec::new(), InitialMode::Auto)
        .unwrap_err();
    assert!(err.contains("at least one"), "{err}");

    // Nothing changed: file intact, in-memory curve untouched.
    assert_eq!(w.disk, Some(before));
    assert_eq!(
        w.e.config.pwm[0].curve,
        vec![point(0.0, 0.0), point(100.0, 100.0)]
    );
}

#[test]
fn curve_errors_are_worded() {
    let mut w = world();
    let mut err = |c: Vec<CurvePoint>| w.save_fan_config("pwm1", c, InitialMode::Auto).unwrap_err();
    assert_eq!(
        err(vec![point(150.5, 0.0)]),
        "bad curve point: 150.5 °C is out of range (0..=150)"
    );
    assert_eq!(
        err(vec![point(30.0, 101.0)]),
        "bad curve point: 101 % duty is out of range (0..=100)"
    );
    assert_eq!(
        err(vec![point(30.0, 1.0), point(30.0, 2.0)]),
        "the curve points must be strictly increasing in temperature (30 °C)"
    );
    assert_eq!(err(vec![]), "the curve needs at least one point");
    let e = w
        .save_fan_config("pwm9", vec![point(1.0, 1.0)], InitialMode::Auto)
        .unwrap_err();
    assert_eq!(e, "no fan pwm9 in the config");
}

#[test]
fn save_fan_config_rolls_back_when_the_write_fails() {
    let mut w = world();
    w.disk = None;
    let (old_curve, old_default) = (w.e.config.pwm[0].curve.clone(), w.e.config.pwm[0].default);

    let err = w
        .save_fan_config(
            "pwm1",
            vec![point(10.0, 10.0), point(20.0, 20.0)],
            InitialMode::Full,
        )
        .unwrap_err();
    assert!(!err.is_empty(), "the write error must be reported: {err:?}");
    assert_eq!(w.e.config.pwm[0].curve, old_curve);
    assert_eq!(w.e.config.pwm[0].default, old_default);
    assert_eq!(w.e.fans[0].curve.points, old_curve);
}

#[test]
fn set_mode_reports_a_failed_write() {
    let mut w = world();
    // Make the pwm1 register a directory so the write must fail.
    w.put("hwmon1", "pwm1", None);
    let err = w
        .set_mode("pwm1", Mode::Manual { percent: 50 })
        .unwrap_err();
    assert!(err.contains("Fan 1"), "{err}");
    assert!(w.e.fans[0].err.is_some());
}

#[test]
fn reload_rebuilds_from_file() {
    let mut w = world();
    w.tick();

    // Write a new config (a second fan) and reload.
    let mut cfg = w.e.config.clone();
    let mut pwm2 = cfg.pwm[0].clone();
    pwm2.id = "pwm2".to_string();
    pwm2.default = InitialMode::Off;
    cfg.pwm.push(pwm2);
    w.disk = Some(cfg);

    w.reload().unwrap();
    assert_eq!(w.e.fans.len(), 2);
    assert_eq!(w.e.fans[1].mode, Mode::Off);
    assert_eq!(w.pwm_file("pwm1_enable"), "1");
}

#[test]
fn an_unreadable_config_changes_nothing() {
    let mut w = world();
    w.tick();
    w.disk = None;
    assert_eq!(w.reload(), Err("no such file".to_string()));
    assert_eq!(w.e.fans.len(), 1);
    assert_eq!(w.pwm_file("pwm1"), "179");
}

#[test]
fn client_round_trips_over_socket() {
    let mut w = world();
    w.tick();
    let state = w.state();
    assert_eq!(state.fans.len(), 1);
    assert_eq!(state.fans[0].label, "Fan 1");
    // The one k10temp reading from the fixture.
    assert!(
        state.temps.iter().any(|t| t.label == "Tctl"),
        "temps: {:?}",
        state.temps
    );
    let c = state
        .temps
        .iter()
        .find(|t| t.label == "Tctl")
        .and_then(|t| t.celsius)
        .unwrap();
    assert!((c - q(70.0)).abs() < q(0.01));

    let (resp, _) = w.request(Request::SetMode {
        fan: "pwm1".to_string(),
        mode: Mode::Manual { percent: 30 },
    });
    assert_eq!(resp, Response::Done);
    let state = w.state();
    assert_eq!(
        state.fans[0].mode,
        Mode::Manual { percent: 30 },
        "set-mode should be visible in the next snapshot"
    );
}

#[test]
fn client_saves_fan_config_over_socket() {
    let mut w = world();
    let (resp, _) = w.request(Request::SaveFanConfig {
        fan: "pwm1".to_string(),
        curve: vec![point(30.0, 10.0), point(75.0, 90.0)],
        default_mode: InitialMode::Off,
    });
    assert!(matches!(resp, Response::Done), "{resp:?}");

    // The next snapshot must already carry the new curve and mode.
    let state = w.state();
    assert_eq!(
        state.fans[0].curve,
        vec![point(30.0, 10.0), point(75.0, 90.0)]
    );
    assert_eq!(state.fans[0].default_mode, InitialMode::Off);
}

#[test]
fn sweep_end_to_end_derives_range_and_restores_mode() {
    let mut w = world();
    w.tick(); // the 0→100 curve at 70 °C writes 179

    w.e.sweep_begin("pwm1", &w.fs).unwrap();
    // 0 %: the fan is off.
    w.sweep_write(0).unwrap();
    assert_eq!(w.pwm_file("pwm1"), "0");
    w.set_tach("0");
    assert_eq!(w.e.sweep_read(&w.fs), 0);
    w.e.sweep_record(0, 0);
    // 10 %: it starts (950), 20 % (1400), 30 % (1800) …
    for (duty, rpm) in [(10, "950"), (20, "1400"), (30, "1800")] {
        w.sweep_write(duty).unwrap();
        w.set_tach(rpm);
        assert_eq!(w.e.sweep_read(&w.fs), rpm.parse::<u32>().unwrap());
        w.e.sweep_record(duty, rpm.parse::<u32>().unwrap());
    }
    // … 40 %: the RPM no longer rises (noise) → the fan is saturated.
    w.sweep_write(40).unwrap();
    w.set_tach("1805");
    assert_eq!(w.e.sweep_read(&w.fs), 1805);
    w.e.sweep_record(40, 1805);
    assert!(sweep::stalled(&w.e.sweep.as_ref().unwrap().steps));

    w.sweep_finish();

    // The range was derived and saved to the config (file + memory), and it
    // now clamps the curve.
    let r = w.e.last_sweep.as_ref().unwrap();
    assert_eq!(
        (r.min_duty, r.max_duty, r.saturated),
        (Some(10), Some(30), true)
    );
    assert!(r.note.contains("between 10 % and 30 %"), "{}", r.note);
    assert!(r.note.contains("duty_min=10 / duty_max=30"), "{}", r.note);
    let reloaded = w.disk.as_ref().unwrap();
    assert_eq!(reloaded.pwm[0].duty_min, Some(q(10.0)));
    assert_eq!(reloaded.pwm[0].duty_max, Some(q(30.0)));
    assert_eq!(w.e.fans[0].duty_min, Some(q(10.0)));

    // The fan's pre-sweep mode (auto/curve) was restored: the next tick
    // re-applies the curve, now clamped to 10–30 % (70 °C → 70 % → clamped to
    // 30 % → round(0.3·255) = 77).
    assert_eq!(w.e.sweep, None);
    w.tick();
    assert_eq!(w.pwm_file("pwm1"), "77");
    assert_eq!(w.e.fans[0].mode, Mode::Auto);
}

#[test]
fn sweep_begin_rejects_unknown_fans_concurrent_sweeps_and_missing_tachs() {
    let mut w = world();
    let err = w.e.sweep_begin("pwm9", &w.fs).unwrap_err();
    assert!(err.contains("pwm9"), "{err}");

    // No tachometer file on the chip.
    let fs = Sysfs {
        base: "/sys/class/hwmon".to_string(),
        dirs: vec![dir(
            "hwmon1",
            vec![
                file("name", "it8792\n"),
                file("pwm1", "0\n"),
                file("pwm1_enable", "0\n"),
            ],
        )],
    };
    let mut w = world_of(fs, config());
    let err = w.e.sweep_begin("pwm1", &w.fs).unwrap_err();
    assert!(err.contains("tachometer"), "{err}");

    // A second sweep is refused while one is running.
    let mut w = world();
    w.e.sweep_begin("pwm1", &w.fs).unwrap();
    let err = w.e.sweep_begin("pwm1", &w.fs).unwrap_err();
    assert!(err.contains("already"), "{err}");
}

#[test]
fn tick_keeps_the_swept_fans_duty_but_refreshes_its_readback() {
    let mut w = world();
    w.tick(); // curve: 70 °C → 179
    w.e.sweep_begin("pwm1", &w.fs).unwrap();
    w.sweep_write(40).unwrap();
    assert_eq!(w.pwm_file("pwm1"), "102");

    // A tick must not re-apply the curve (70 °C → 179) to the swept fan, but
    // it must still refresh the displayed duty/rpm.
    w.set_tach("777");
    w.tick();
    assert_eq!(w.pwm_file("pwm1"), "102");
    assert_eq!(w.e.fans[0].rpm, Some(777));

    // Mode changes are refused while the sweep runs.
    let err = w
        .set_mode("pwm1", Mode::Manual { percent: 50 })
        .unwrap_err();
    assert!(err.contains("sweep"), "{err}");
}

#[test]
fn the_curve_is_clamped_to_the_measured_range() {
    let mut w = world();
    // A hand-edited (or swept-in) range: the 0→100 curve at 10 °C evaluates
    // to 10 %, which is clamped up to duty_min = 20 %.
    let (min, max) = sweep::normalize(Some(q(20.0)), Some(q(80.0)));
    w.e.fans[0].duty_min = min;
    w.e.fans[0].duty_max = max;
    // 70 °C → 70 % (inside the range, untouched); 10 °C → 10 % → 20 %.
    w.tick();
    assert_eq!(w.pwm_file("pwm1"), "179");
    w.put("hwmon0", "temp1_input", Some("10000\n"));
    w.tick();
    assert_eq!(w.pwm_file("pwm1"), "51"); // 20 % of 255
    // And a hot 130 °C → 100 % → clamped down to 80 %.
    w.put("hwmon0", "temp1_input", Some("130000\n"));
    w.tick();
    assert_eq!(w.pwm_file("pwm1"), "204"); // 80 % of 255

    // Explicit duties are never clamped.
    w.set_mode("pwm1", Mode::Full).unwrap();
    assert_eq!(w.pwm_file("pwm1"), "255");
    w.set_mode("pwm1", Mode::Manual { percent: 5 }).unwrap();
    assert_eq!(w.pwm_file("pwm1"), "13");
}

/// Drive a sweep to its end; `tach` gives the speed at each duty.
fn drive(w: &mut World, run: &mut SweepRun, tach: fn(u8) -> u32) -> Vec<u8> {
    let mut duties = Vec::new();
    loop {
        match run.begin_step(&mut w.e, &w.fs) {
            SweepMove::Gone => return duties,
            SweepMove::Abort(why) => {
                w.sweep_abort(&why);
                return duties;
            }
            SweepMove::Write(plan) => {
                let failure = w.carry_out(&Some(plan));
                if let Err(why) = w.e.sweep_written(&failure, &w.fs) {
                    w.sweep_abort(&why);
                    return duties;
                }
            }
        }
        duties.push(run.duty);
        w.set_tach(&tach(run.duty).to_string());
        let sweeping = w.state().sweeping;
        assert_eq!(sweeping.as_deref(), Some("pwm1"));
        match run.end_step(&mut w.e, &w.fs).0 {
            SweepNext::Gone => return duties,
            SweepNext::Continue => {}
            SweepNext::Finish => {
                w.sweep_finish();
                return duties;
            }
        }
    }
}

#[test]
fn sweep_over_socket_reports_progress_and_result_in_the_state() {
    let mut w = world();
    // The fake tachometer (static: the same reading at every duty — a
    // "stuck" one).
    w.set_tach("1234");
    let (resp, run) = w.request(Request::Sweep {
        fan: "pwm1".to_string(),
        step: Some(50),
        settle: Some(q(0.2)),
    });
    assert!(matches!(resp, Response::Done), "{resp:?}");
    let mut run = run.unwrap();
    let duties = drive(&mut w, &mut run, |_| 1234);
    assert_eq!(duties, vec![0, 50]);

    let state = w.state();
    assert_eq!(state.sweeping, None);
    let r = state
        .sweep
        .expect("the finished sweep should show up in a snapshot");
    // A constant 1234 rpm at every duty: the "fan" is already spinning at 0 %
    // and never changes — a degenerate (0, 0) range that must *not* be
    // persisted.
    assert_eq!(
        (r.min_duty, r.max_duty, r.saturated),
        (Some(0), Some(0), true)
    );
    assert!(r.note.contains("stuck tach"), "{}", r.note);
    let reloaded = w.disk.as_ref().unwrap();
    assert_eq!(
        reloaded.pwm[0].duty_min, None,
        "a degenerate range is not saved"
    );
    assert_eq!(
        reloaded.pwm[0].duty_max, None,
        "a degenerate range is not saved"
    );
}

#[test]
fn sweep_aborts_when_a_write_fails() {
    let mut w = world();
    // Make the pwm1 register a directory so the write must fail.
    w.put("hwmon1", "pwm1", None);
    w.tick(); // resolves the chip (the read of the "pwm1" dir fails harmlessly)
    w.e.sweep_begin("pwm1", &w.fs).unwrap();
    let err = w.sweep_write(0).unwrap_err();
    assert!(!err.is_empty(), "{err:?}");
    w.sweep_abort(&err);
    assert_eq!(w.e.sweep, None);
    assert!(w.e.status.contains("sweep of pwm1"), "{}", w.e.status);
    // The fan's mode was restored.
    assert_eq!(w.e.fans[0].mode, Mode::Auto);
    assert_eq!(w.e.fans[0].err.as_deref(), Some(err.as_str()));
}

#[test]
fn a_sweep_steps_to_the_top_unless_the_fan_stalls() {
    let mut w = world();
    w.set_mode("pwm1", Mode::Manual { percent: 30 }).unwrap();
    let (_, run) = w.request(Request::Sweep {
        fan: "pwm1".to_string(),
        step: Some(30),
        settle: None,
    });
    let duties = drive(&mut w, &mut run.unwrap(), |d| u32::from(d) * 20);
    assert_eq!(duties, vec![0, 30, 60, 90, 100]);
    let r = w.e.last_sweep.as_ref().unwrap();
    assert_eq!((r.min_duty, r.max_duty, r.saturated), (Some(30), Some(100), false));
    assert_eq!(w.disk.as_ref().unwrap().pwm[0].duty_min, Some(q(30.0)));
    // The manual mode is back, on the engine and on the chip.
    assert_eq!(w.e.fans[0].mode, Mode::Manual { percent: 30 });
    assert_eq!(w.pwm_file("pwm1"), "77");
    assert_eq!(w.e.fans[0].err, None);
}

#[test]
fn the_default_step_and_settling_time_are_filled_in() {
    let mut w = world();
    let req = Request::Sweep {
        fan: "pwm1".to_string(),
        step: None,
        settle: None,
    };
    match handle_connection(&mut w.e, req, &w.fs, &w.nvidia) {
        Action::StartSweep { fan, step, settle } => {
            assert_eq!((fan.as_str(), step, settle), ("pwm1", 10, q(3.0)));
        }
        other => panic!("unexpected action: {other:?}"),
    }
}

#[test]
fn a_range_that_cannot_be_saved_is_dropped() {
    let mut w = world();
    w.disk = None;
    let (_, run) = w.request(Request::Sweep {
        fan: "pwm1".to_string(),
        step: Some(30),
        settle: None,
    });
    drive(&mut w, &mut run.unwrap(), |d| u32::from(d) * 20);
    assert_eq!(w.e.config.pwm[0].duty_min, None);
    assert_eq!(w.e.config.pwm[0].duty_max, None);
    assert_eq!(w.e.fans[0].duty_min, None);
    assert_eq!(
        w.e.status,
        "pwm1: range measured, but saving the config failed: Not a directory (os error 20)"
    );
    let r = w.e.last_sweep.as_ref().unwrap();
    assert_eq!(
        r.note,
        "pwm1: the fan spins between 30 % and 100 % duty, but saving the range to the config failed: Not a directory (os error 20)"
    );
}

#[test]
fn a_sweep_survives_a_reload_but_not_the_loss_of_its_fan() {
    let mut w = world();
    w.set_tach("500");
    w.e.sweep_begin("pwm1", &w.fs).unwrap();
    let run = SweepRun::new("pwm1".to_string(), 10);
    w.reload().unwrap();
    assert!(w.e.is_swept("pwm1"));
    assert!(matches!(run.begin_step(&mut w.e, &w.fs), SweepMove::Write(_)));

    w.disk.as_mut().unwrap().pwm.clear();
    w.reload().unwrap();
    match run.begin_step(&mut w.e, &w.fs) {
        SweepMove::Abort(why) => {
            assert_eq!(why, "no fan pwm1");
            w.sweep_abort(&why);
        }
        other => panic!("unexpected move: {other:?}"),
    }
    assert_eq!(w.e.status, "sweep of pwm1: no fan pwm1");
    // The engine no longer has the sweep.
    assert!(matches!(run.begin_step(&mut w.e, &w.fs), SweepMove::Gone));
    assert_eq!(w.e.sweep_read(&w.fs), 0);
    assert!(w.e.sweep_write(0, &w.fs).is_err());
}

#[test]
fn errors_reach_the_status_line() {
    let mut w = world();
    w.put("hwmon0", "temp1_input", None);
    w.tick();
    assert_eq!(w.e.status, "Fan 1: no reading from its sensors");
    assert_eq!(w.e.fans[0].err.as_deref(), Some("Fan 1: no reading from its sensors"));

    let mut w = world();
    w.e.fans[0].hwmon = "gone".to_string();
    w.tick();
    assert_eq!(w.e.status, "no resolvable chip for Fan 1");
    assert_eq!(w.e.fans[0].chip, None);
    let err = w.set_mode("pwm1", Mode::Full).unwrap_err();
    assert_eq!(err, "no resolvable chip for Fan 1");
    assert_eq!(
        w.e.sweep_begin("pwm1", &w.fs),
        Err("no resolvable chip for Fan 1".to_string())
    );

    let mut w = world();
    w.put("hwmon1", "pwm1", None);
    w.tick();
    assert_eq!(w.e.status, "Fan 1: Is a directory (os error 21)");
}

#[test]
fn kernel_auto_hands_the_channel_to_the_chip() {
    let mut c = config();
    c.pwm[0].control = ControlKind::KernelAuto;
    let mut w = world_of(fake_base(), c);
    w.tick();
    assert_eq!(w.pwm_file("pwm1_enable"), "2");
    assert_eq!(w.pwm_file("pwm1"), "0");
}

#[test]
fn gpus_are_listed_and_drive_fans() {
    let mut c = config();
    c.pwm[0].temp_sensors.push(TempRef {
        hwmon: "nvidia".to_string(),
        sensor: "gpu0".to_string(),
    });
    let gpus = vec![NvidiaGpu {
        index: 0,
        name: "RTX".to_string(),
        temp_c: Some(q(90.0)),
        fan_percent: None,
    }];
    let fs = fake_base();
    let e = Engine::new(c, "x".to_string(), &fs, None, &gpus);
    let mut w = World {
        fs,
        e,
        disk: None,
        nvidia: gpus,
    };
    assert!(w.e.uses_nvidia());
    assert!(!world().e.uses_nvidia());
    w.tick();
    // max(70, 90) = 90 % = round(0.9·255) = 230.
    assert_eq!(w.pwm_file("pwm1"), "230");
    let t = &w.e.temps[1];
    assert_eq!(
        (t.refname.as_str(), t.label.as_str(), t.source.as_str(), t.celsius),
        ("nvidia:gpu0", "GPU 0 RTX", "nvidia", Some(q(90.0)))
    );
    w.nvidia.clear();
    w.tick();
    assert_eq!(w.e.temps[1].celsius, None);
    assert_eq!(w.pwm_file("pwm1"), "179");
}

#[test]
fn lm_sensors_are_shown_where_asked_for() {
    let doc = r#"{"chip": {"temp1": {"input": 41.5}}}"#;
    let fs = fake_base();
    let none = Vec::new();
    let e = Engine::new(config(), "x".to_string(), &fs, Some(doc), &none);
    assert_eq!(e.temps.len(), 1);
    let mut c = config();
    c.show_lm_sensors = true;
    let mut e = Engine::new(c, "x".to_string(), &fs, Some(doc), &none);
    assert_eq!(e.temps.len(), 2);
    assert_eq!(e.temps[1].refname, "lm:chip:temp1");
    assert_eq!(e.temps[1].celsius, Some(q(41.5)));
    e.tick(&fs, &none, Some(r#"{"chip": {"temp1": {"input": 39}}}"#));
    assert_eq!(e.temps[1].celsius, Some(q(39.0)));
    assert_eq!(e.temps[0].celsius, Some(q(70.0)));
    e.tick(&fs, &none, None);
    assert_eq!(e.temps[1].celsius, None);
}

#[test]
fn server_answers() {
    assert_eq!(
        bad_request("expected value at line 1"),
        Response::Error {
            message: "bad request: expected value at line 1".to_string()
        }
    );
    assert_eq!(answer(Ok(())), Response::Done);
    assert_eq!(
        answer(Err("no".to_string())),
        Response::Error {
            message: "no".to_string()
        }
    );
    let mut w = world();
    let (r, _) = w.request(Request::SetMode {
        fan: "pwm7".to_string(),
        mode: Mode::Off,
    });
    assert_eq!(
        r,
        Response::Error {
            message: "no fan pwm7".to_string()
        }
    );
    assert_eq!(w.request(Request::ReloadConfig).0, Response::Done);
    let (r, run) = w.request(Request::Sweep {
        fan: "pwm7".to_string(),
        step: None,
        settle: None,
    });
    assert_eq!(
        r,
        Response::Error {
            message: "no fan pwm7 in the config".to_string()
        }
    );
    assert!(run.is_none());
}

#[test]
fn one_shot_sweep_output() {
    assert_eq!(step_line(0, 0), "    0 %        0");
    assert_eq!(step_line(100, 3150), "  100 %     3150");
    assert_eq!(
        sweep_heading("pwm1", 10, q(3.0)),
        "Sweeping pwm1: 10 % per step, 3 s settling after each change."
    );
    let report = |min, max| {
        Some(SweepReport {
            fan: "pwm1".to_string(),
            min_duty: min,
            max_duty: max,
            saturated: true,
            note: String::new(),
        })
    };
    assert_eq!(sweep_exit_code(false, &report(Some(20), Some(80))), 0);
    assert_eq!(sweep_exit_code(true, &report(Some(20), Some(80))), 1);
    assert_eq!(sweep_exit_code(false, &report(Some(20), Some(20))), 1);
    assert_eq!(sweep_exit_code(false, &report(None, None)), 1);
    assert_eq!(sweep_exit_code(false, &None), 1);
    let mut w = world();
    let state = w.state();
    assert!(daemon_is_running(&Ok(Response::State { state })));
    assert!(!daemon_is_running(&Ok(Response::Done)));
    assert!(!daemon_is_running(&Err("refused".to_string())));
}

#[test]
fn control_cycles_are_at_least_a_fifth_of_a_second_apart() {
    assert_eq!(tick_interval(q(2.0)), 2_000_000_000);
    assert_eq!(tick_interval(q(0.05)), 200_000_000);
    assert_eq!(tick_interval(q(-1.0)), 200_000_000);
}

#[test]
fn the_status_is_empty_again_when_all_is_well() {
    let mut w = world();
    w.put("hwmon0", "temp1_input", None);
    w.tick();
    assert_eq!(w.e.status, "Fan 1: no reading from its sensors");
    w.put("hwmon0", "temp1_input", Some("70000\n"));
    w.tick();
    assert_eq!(w.e.status, "");
    assert_eq!(w.e.fans[0].err, None);

    // The same after a failed write.
    w.put("hwmon1", "pwm1", None);
    w.tick();
    assert_eq!(w.e.status, "Fan 1: Is a directory (os error 21)");
    w.put("hwmon1", "pwm1", Some("0\n"));
    w.tick();
    assert_eq!(w.state().status, "");
    assert_eq!(w.state().fans[0].err, None);
}

#[test]
fn gpu_entries_read_the_gpu_they_are_named_after() {
    let gpu = |index: u32, t: f64| NvidiaGpu {
        index,
        name: "RTX".to_string(),
        temp_c: Some(q(t)),
        fan_percent: None,
    };
    let mut c = config();
    c.pwm[0].temp_sensors = vec![TempRef {
        hwmon: "nvidia".to_string(),
        sensor: "gpu1".to_string(),
    }];
    let gpus = vec![gpu(0, 40.0), gpu(1, 60.0)];
    let fs = fake_base();
    let e = Engine::new(c, "x".to_string(), &fs, None, &gpus);
    let mut w = World {
        fs,
        e,
        disk: None,
        nvidia: vec![gpu(1, 80.0)],
    };
    // GPU 0 is gone; GPU 1 is now the first in the list.
    w.tick();
    assert_eq!(w.e.temps[1].refname, "nvidia:gpu0");
    assert_eq!(w.e.temps[1].celsius, None);
    assert_eq!(w.e.temps[2].refname, "nvidia:gpu1");
    assert_eq!(w.e.temps[2].celsius, Some(q(80.0)));
    // 80 % = 204.
    assert_eq!(w.pwm_file("pwm1"), "204");
}

#[test]
fn a_dropped_range_leaves_the_configs_own() {
    // A hand-edited range the wrong way round runs the right way round; after
    // a sweep whose range could not be saved the fan has it as written.
    let mut c = config();
    c.pwm[0].duty_min = Some(q(90.0));
    c.pwm[0].duty_max = Some(q(10.0));
    let mut w = world_of(fake_base(), c);
    w.disk = None;
    let (_, run) = w.request(Request::Sweep {
        fan: "pwm1".to_string(),
        step: Some(30),
        settle: None,
    });
    drive(&mut w, &mut run.unwrap(), |d| u32::from(d) * 20);
    let p = &w.e.config.pwm[0];
    assert_eq!((p.duty_min, p.duty_max), (Some(q(90.0)), Some(q(10.0))));
    let f = &w.e.fans[0];
    assert_eq!((f.duty_min, f.duty_max), (Some(q(90.0)), Some(q(10.0))));
}
