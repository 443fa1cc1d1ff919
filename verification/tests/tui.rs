use fanctl::config::types::InitialMode;
use fanctl::curve::CurvePoint;
use fanctl::ipc::{Client, FanState, Mode, Request, Response, State, Temp};
use fanctl::sweep::SweepReport;
use fanctl::tui::app::{App, Job, KeyEvent, Reply, ValueEntry};
use fanctl::tui::editor::{CurveEditor, KeyCode};
use fanctl::tui::ui::{
    centre, draw, draw_curve_editor, draw_fans, draw_help, draw_status, draw_temps,
    draw_unreachable, draw_value_entry, height_of_editor, title_of_editor, Area, Colour, Line,
};

fn q(v: f64) -> i64 {
    (v * 1e9).round() as i64
}

fn point(temp: f64, duty: f64) -> CurvePoint {
    CurvePoint::new(q(temp), q(duty))
}

const SECOND: u64 = 1_000_000_000;

/// The state that the fake daemon serves: one fan, one temperature.
fn served() -> State {
    State {
        refresh_secs: q(2.0),
        status: String::new(),
        fans: vec![FanState {
            id: "pwm1".to_string(),
            label: "Fan 1".to_string(),
            mode: Mode::Auto,
            duty: Some(q(70.0)),
            rpm: Some(1650),
            err: None,
            curve: vec![point(30.0, 0.0), point(75.0, 100.0)],
            default_mode: InitialMode::Auto,
        }],
        temps: vec![Temp {
            refname: "k10temp:temp1".to_string(),
            label: "Tctl".to_string(),
            source: "hwmon".to_string(),
            celsius: Some(q(70.0)),
        }],
        sweeping: None,
        sweep: None,
    }
}

fn client() -> Client {
    Client::new("/nonexistent/fanctld.sock".to_string())
}

/// A client with a fake daemon behind it: `get-state` is answered with the
/// canned state, everything else with success, and every request is logged.
struct World {
    app: App,
    now: u64,
    log: Vec<Request>,
    inbox: Option<Reply>,
}

impl World {
    fn new() -> World {
        World {
            app: App::new(client(), 0),
            now: 0,
            log: Vec::new(),
            inbox: None,
        }
    }

    /// A client that has received its first state.
    fn ready() -> World {
        let mut w = World::new();
        w.step();
        w.step();
        assert!(w.app.state.is_some());
        assert!(w.app.job.is_none());
        w
    }

    fn send(&mut self, req: Option<Request>) {
        if let Some(r) = req {
            self.inbox = Some(Reply::Answer(match r {
                Request::GetState => Response::State { state: served() },
                _ => Response::Done,
            }));
            self.log.push(r);
        }
    }

    fn step(&mut self) {
        self.now += 10_000_000;
        let reply = self.inbox.take();
        let req = self.app.step(reply, self.now);
        self.send(req);
    }

    fn press(&mut self, code: KeyCode) {
        let req = self.app.on_key(KeyEvent {
            code,
            control: false,
            press: true,
        });
        self.send(req);
    }

    fn type_in(&mut self, text: &str) {
        for c in text.chars() {
            self.press(KeyCode::Char(c));
        }
    }

    fn editor(&self) -> &CurveEditor {
        self.app.curve_editor.as_ref().unwrap()
    }
}

#[test]
fn q_quits() {
    let mut w = World::ready();
    assert_eq!(w.app.state.as_ref().map(|s| s.fans.len()), Some(1));
    assert!(!w.app.quit);
    w.press(KeyCode::Char('q'));
    assert!(w.app.quit);
}

#[test]
fn ctrl_c_quits() {
    let mut app = App::new(client(), 0);
    app.on_key(KeyEvent {
        code: KeyCode::Char('c'),
        control: true,
        press: true,
    });
    assert!(app.quit, "Ctrl+C is a key event in raw mode; bind it");
}

#[test]
fn set_mode_key_sends_request_to_daemon() {
    let mut w = World::ready();
    // Manual 50% is set through the Enter dialog: open, type, submit. (The
    // dialog takes the literal value, so 50% is typed as "50".)
    w.press(KeyCode::Enter);
    w.type_in("50");
    w.press(KeyCode::Enter);
    assert!(w.app.value_entry.is_none(), "the dialog must close on submit");
    let want = Request::SetMode {
        fan: "pwm1".to_string(),
        mode: Mode::Manual { percent: 50 },
    };
    assert!(w.log.contains(&want), "a set-mode request should have been sent");
    w.step();
    assert!(w.app.status.is_empty(), "no error expected: {}", w.app.status);
    // The change is polled at once.
    assert_eq!(w.log.last(), Some(&Request::GetState));
}

#[test]
fn value_dialog_rejects_bad_input_and_esc_cancels() {
    let mut w = World::ready();
    w.press(KeyCode::Enter);
    assert!(w.app.value_entry.is_some(), "Enter must open the dialog");
    w.type_in("105");
    w.press(KeyCode::Enter);
    // 105 is out of range: the dialog stays open with an error.
    let e = w.app.value_entry.as_ref().unwrap();
    assert_eq!(e.text, "105");
    assert!(e.error.is_some(), "105 > 100 must be rejected");
    // A fourth digit must not be accepted (3 characters is the cap).
    w.type_in("9");
    assert_eq!(w.app.value_entry.as_ref().unwrap().text, "105");

    // Esc cancels the dialog; nothing may have been sent.
    w.press(KeyCode::Esc);
    assert!(w.app.value_entry.is_none());
    assert!(!w.log.iter().any(|r| matches!(r, Request::SetMode { .. })));
}

#[test]
fn value_dialog_is_modal() {
    let mut w = World::ready();
    w.press(KeyCode::Enter);
    // While typing, ordinary TUI keys must not act.
    w.press(KeyCode::Char('q'));
    w.press(KeyCode::Char('a'));
    assert!(!w.app.quit, "q must not quit while the dialog is open");
    assert!(w.app.value_entry.is_some(), "the dialog must stay open");
    assert!(w.app.job.is_none(), "a must not send a mode while typing");
    w.press(KeyCode::Enter);
    assert!(w.app.value_entry.as_ref().unwrap().error.is_some());
    w.type_in("7");
    w.press(KeyCode::Backspace);
    let e = w.app.value_entry.as_ref().unwrap();
    assert_eq!((e.text.as_str(), e.error.as_deref()), ("", None));
}

#[test]
fn unreachable_daemon_sets_status_and_clears_state() {
    let mut app = App::new(client(), 0);
    assert_eq!(app.start_refresh(), Some(Request::GetState));
    app.pump(Some(Reply::Failed("No such file or directory".to_string())), 5);
    assert!(app.status.contains("can't reach fanctld"));
    assert!(app.state.is_none());
    // It is polled again after half a second.
    assert_eq!(app.step(None, 5 + 499_999_999), None);
    assert_eq!(app.step(None, 5 + 500_000_000), Some(Request::GetState));
}

#[test]
fn e_opens_the_curve_editor() {
    let mut w = World::ready();
    w.press(KeyCode::Char('e'));
    let Some(e) = &w.app.curve_editor else {
        panic!("e must open the editor");
    };
    assert_eq!(e.points.len(), 2);
    assert_eq!(e.points[0].temp, q(30.0));
    assert_eq!(e.points[0].duty, q(0.0));
    assert_eq!(e.row, 0);
    assert_eq!(e.field, 0);
    assert_eq!(e.text, "30", "the cursor's field starts prefilled");
}

#[test]
fn editor_edit_and_save_round_trip() {
    let mut w = World::ready();
    w.press(KeyCode::Char('e'));
    // Rewrite the first point's temp: clear "30", type "40", commit.
    w.press(KeyCode::Backspace);
    w.press(KeyCode::Backspace);
    w.type_in("40");
    w.press(KeyCode::Enter);
    assert_eq!(w.editor().points[0].temp, q(40.0));

    // Add a point after the cursor.
    w.press(KeyCode::Char('a'));
    let e = w.editor();
    assert_eq!(e.points.len(), 3);
    assert_eq!(e.row, 1, "the cursor lands on the new row");
    assert_eq!(e.text, "50");

    // Save.
    w.press(KeyCode::Char('s'));
    assert!(
        w.editor().saving,
        "s must lock the dialog while the daemon works"
    );
    w.press(KeyCode::Esc);
    assert!(w.app.curve_editor.is_some(), "the dialog is locked");
    w.step();
    assert!(
        w.app.curve_editor.is_none(),
        "the editor must close after a save: {}",
        w.app.status
    );
    assert!(
        w.app.status.is_empty() || w.app.status.contains("saved"),
        "unexpected status: {}",
        w.app.status
    );
    let want = Request::SaveFanConfig {
        fan: "pwm1".to_string(),
        curve: vec![point(40.0, 0.0), point(50.0, 0.0), point(75.0, 100.0)],
        default_mode: InitialMode::Auto,
    };
    assert!(w.log.contains(&want), "{:?}", w.log);
}

#[test]
fn editor_rejects_bad_values_and_esc_cancels() {
    let mut w = World::ready();
    w.press(KeyCode::Char('e'));
    // Move to the duty field, type 105, and commit: rejected.
    w.press(KeyCode::Right);
    w.press(KeyCode::Backspace);
    w.type_in("105");
    w.press(KeyCode::Enter);
    let e = w.editor();
    assert_eq!(
        e.points[0].duty,
        q(0.0),
        "an out-of-range duty must not be written"
    );
    assert!(
        e.error.as_deref().is_some_and(|m| m.contains("100")),
        "{:?}",
        e.error
    );

    // Esc cancels; nothing must be sent.
    w.press(KeyCode::Esc);
    assert!(w.app.curve_editor.is_none());
    assert!(!w
        .log
        .iter()
        .any(|r| matches!(r, Request::SaveFanConfig { .. })));
}

#[test]
fn editor_add_delete_move_and_default_cycle() {
    let mut w = World::ready();
    w.press(KeyCode::Char('e'));
    // Add a point, move it to the end, delete it.
    w.press(KeyCode::Char('a'));
    w.press(KeyCode::Char('d'));
    let e = w.editor();
    assert_eq!(e.row, 2);
    assert_eq!(
        (e.points[0].temp, e.points[1].temp, e.points[2].temp),
        (q(30.0), q(75.0), q(40.0))
    );
    w.press(KeyCode::Char('x'));
    let e = w.editor();
    assert_eq!(e.points.len(), 2);
    assert!(e.on_default_row(), "the cursor lands on the default row");

    // The default row is cycled with Left/Right: auto -> full -> off.
    w.press(KeyCode::Left);
    assert_eq!(w.editor().default_mode, InitialMode::Full);
    w.press(KeyCode::Left);
    assert_eq!(w.editor().default_mode, InitialMode::Off);
    w.press(KeyCode::Esc);
    assert!(w.app.curve_editor.is_none());
}

#[test]
fn editor_is_modal() {
    let mut w = World::ready();
    w.press(KeyCode::Char('e'));
    // Ordinary TUI keys must not act while the editor is open.
    w.press(KeyCode::Char('q'));
    w.press(KeyCode::Char('a'));
    assert!(!w.app.quit, "q must not quit while the editor is open");
    assert_eq!(
        w.editor().points.len(),
        3,
        "a adds a point inside the editor"
    );
    assert!(w.app.job.is_none(), "a must not send a mode request");
    w.press(KeyCode::Esc);
    assert!(w.app.curve_editor.is_none());
}

#[test]
fn c_key_sends_a_sweep_request() {
    let mut w = World::ready();
    w.press(KeyCode::Char('c'));
    assert!(matches!(w.app.job, Some(Job::Sweep)));
    let want = Request::Sweep {
        fan: "pwm1".to_string(),
        step: None,
        settle: None,
    };
    assert!(
        w.log.contains(&want),
        "the daemon should have received a sweep request: {:?}",
        w.log
    );
    // Another command has to wait.
    w.press(KeyCode::Char('c'));
    assert_eq!(w.app.status, "fanctld is busy with the previous command");
    w.step();
    assert!(!matches!(w.app.job, Some(Job::Sweep)));
}

#[test]
fn c_key_is_refused_while_a_sweep_is_running() {
    let mut app = App::new(client(), 0);
    let mut st = served();
    st.sweeping = Some("pwm1".to_string());
    app.state = Some(st);

    let sent = app.on_key(KeyEvent {
        code: KeyCode::Char('c'),
        control: false,
        press: true,
    });
    assert_eq!(sent, None);
    assert!(app.job.is_none(), "no request while a sweep runs");
    assert!(app.status.contains("already running"), "{}", app.status);
}

#[test]
fn sweep_job_reports_start_and_refusal() {
    let mut app = App::new(client(), 9 * SECOND);

    // The "started" answer: the poll is re-armed immediately (the progress
    // shows up in the next snapshot).
    app.job = Some(Job::Sweep);
    app.pump(Some(Reply::Answer(Response::Done)), 20 * SECOND);
    assert!(app.job.is_none());
    assert!(app.next_refresh <= 20 * SECOND + 50_000_000);

    // A refusal from the daemon lands in the status line.
    app.job = Some(Job::Sweep);
    app.pump(
        Some(Reply::Answer(Response::Error {
            message: "no fan pwm9 in the config".to_string(),
        })),
        21 * SECOND,
    );
    assert!(app.status.contains("no fan pwm9"), "{}", app.status);
}

#[test]
fn a_mode_asked_for_during_a_poll_is_queued() {
    let mut w = World::ready();
    w.now += 3 * SECOND;
    w.step();
    assert_eq!(w.app.job, Some(Job::GetState));
    w.press(KeyCode::Char('f'));
    assert_eq!(
        w.app.pending_mode,
        Some(("pwm1".to_string(), Mode::Full))
    );
    assert_eq!(w.log.last(), Some(&Request::GetState));
    w.step();
    assert_eq!(
        w.log.last(),
        Some(&Request::SetMode {
            fan: "pwm1".to_string(),
            mode: Mode::Full
        })
    );
    assert_eq!(w.app.job, Some(Job::SetMode));
    assert_eq!(w.app.pending_mode, None);
}

#[test]
fn replies_that_went_wrong() {
    let lost = "fanctlui: internal error while talking to fanctld";
    let odd = "fanctld: unexpected response";
    let mut app = App::new(client(), 0);
    for job in [Job::SetMode, Job::SaveConfig, Job::Sweep] {
        app.job = Some(job);
        app.pump(Some(Reply::Lost), 1);
        assert_eq!(app.status, lost);
        app.job = Some(job);
        app.pump(Some(Reply::Failed("x".to_string())), 1);
        assert_eq!(app.status, "can't reach fanctld: x");
    }
    app.job = Some(Job::GetState);
    app.pump(Some(Reply::Lost), 1);
    assert_eq!(app.status, "fanctlui: internal error while polling fanctld");
    app.job = Some(Job::GetState);
    app.pump(Some(Reply::Answer(Response::Done)), 1);
    assert_eq!(app.status, odd);
    for job in [Job::SaveConfig, Job::Sweep] {
        app.status = String::new();
        app.job = Some(job);
        app.pump(Some(Reply::Answer(Response::State { state: served() })), 1);
        assert_eq!(app.status, odd);
    }
    // An answer to a mode change is not looked at.
    app.status = String::new();
    app.job = Some(Job::SetMode);
    app.pump(
        Some(Reply::Answer(Response::Error {
            message: "m".to_string(),
        })),
        1,
    );
    assert_eq!(app.status, "");
    // Without a request in flight, or without a reply, nothing happens.
    assert_eq!(app.pump(Some(Reply::Lost), 1), None);
    assert_eq!(app.status, "");
    app.job = Some(Job::Sweep);
    assert_eq!(app.pump(None, 1), None);
    assert_eq!(app.job, Some(Job::Sweep));
}

#[test]
fn a_rejected_save_keeps_the_editor_open() {
    let mut w = World::ready();
    w.press(KeyCode::Char('e'));
    w.press(KeyCode::Char('s'));
    w.inbox = Some(Reply::Answer(Response::Error {
        message: "bad curve".to_string(),
    }));
    w.step();
    let e = w.editor();
    assert_eq!(e.error.as_deref(), Some("bad curve"));
    assert!(!e.saving);
}

#[test]
fn an_unsorted_curve_is_not_sent() {
    let mut w = World::ready();
    w.press(KeyCode::Char('e'));
    w.press(KeyCode::Char('d'));
    assert_eq!(w.editor().points[0].temp, q(75.0));
    w.press(KeyCode::Char('s'));
    assert_eq!(
        w.editor().error.as_deref(),
        Some("the points must be strictly increasing in temperature (30.0 °C)")
    );
    assert!(w.app.job.is_none());
    // Moving it back restores the order.
    w.press(KeyCode::Char('u'));
    assert_eq!(w.editor().points, vec![point(30.0, 0.0), point(75.0, 100.0)]);
    // A request in flight also keeps the curve back.
    w.app.job = Some(Job::SetMode);
    w.press(KeyCode::Char('S'));
    assert_eq!(
        w.editor().error.as_deref(),
        Some("a request is already in flight; try again")
    );
}

#[test]
fn the_cursor_goes_round_the_rows_and_fields() {
    let mut w = World::ready();
    w.press(KeyCode::Char('e'));
    w.press(KeyCode::Up);
    assert_eq!((w.editor().row, w.editor().text.as_str()), (2, ""));
    w.press(KeyCode::Down);
    assert_eq!((w.editor().row, w.editor().text.as_str()), (0, "30"));
    w.press(KeyCode::Left);
    assert_eq!((w.editor().field, w.editor().text.as_str()), (1, "0"));
    w.press(KeyCode::Down);
    assert_eq!((w.editor().row, w.editor().field), (1, 1));
    assert_eq!(w.editor().text, "100");
    w.press(KeyCode::Right);
    assert_eq!((w.editor().field, w.editor().text.as_str()), (0, "75"));
    // Passing over the points has changed none of them.
    assert_eq!(w.editor().points, vec![point(30.0, 0.0), point(75.0, 100.0)]);
    // What is no number is not committed, and keeps the cursor.
    w.press(KeyCode::Backspace);
    w.press(KeyCode::Backspace);
    w.press(KeyCode::Down);
    assert_eq!(w.editor().error.as_deref(), Some("please enter a number"));
    assert_eq!(w.editor().row, 1);
    w.type_in("151");
    w.press(KeyCode::Enter);
    assert_eq!(w.editor().error.as_deref(), Some("must be in 0..=150"));
    // Six characters are the cap, and letters do not count.
    w.type_in("23z45678");
    assert_eq!(w.editor().text, "151234");
}

#[test]
fn the_limits_of_a_field_hold_for_the_number_as_typed() {
    let mut e = CurveEditor {
        points: vec![point(30.0, 0.0)],
        row: 0,
        field: 0,
        text: String::new(),
        default_mode: InitialMode::Auto,
        error: None,
        saving: false,
    };
    for (field, text, said) in [
        (0, "150", None),
        (0, "150.0000000001", Some("must be in 0..=150")),
        (0, "-0.0000000001", Some("must be in 0..=150")),
        (0, "inf", Some("must be in 0..=150")),
        (0, "nan", Some("must be in 0..=150")),
        (0, "info", Some("please enter a number")),
        (1, "100", None),
        (1, "100.0000000001", Some("must be in 0..=100")),
        (1, "-infinity", Some("must be in 0..=100")),
    ] {
        e.field = field;
        e.text = text.to_string();
        assert_eq!(e.commit_field(), said.is_none(), "{text}");
        assert_eq!(e.error.as_deref(), said, "{text}");
    }
    assert_eq!(e.points, vec![point(150.0, 100.0)]);
}

#[test]
fn the_last_point_is_not_deleted() {
    let mut w = World::ready();
    w.press(KeyCode::Char('e'));
    w.press(KeyCode::Char('x'));
    assert_eq!(w.editor().points, vec![point(75.0, 100.0)]);
    w.press(KeyCode::Char('x'));
    assert_eq!(w.editor().points.len(), 1);
    let mut e = CurveEditor {
        points: vec![],
        row: 0,
        field: 0,
        text: String::new(),
        default_mode: InitialMode::Auto,
        error: None,
        saving: false,
    };
    assert_eq!(
        e.validate().as_deref(),
        Some("the curve needs at least one point")
    );
    assert!(e.commit_field());
    for want in [InitialMode::Off, InitialMode::Full, InitialMode::Auto] {
        e.cycle_default(1);
        assert_eq!(e.default_mode, want);
    }
    e.cycle_default(-1);
    assert_eq!(e.default_mode, InitialMode::Full);
}

#[test]
fn a_fan_without_a_curve_gets_a_starter_row() {
    let mut w = World::ready();
    w.app.state.as_mut().unwrap().fans[0].curve.clear();
    w.press(KeyCode::Char('e'));
    assert_eq!(w.editor().points, vec![point(0.0, 0.0)]);
    assert_eq!(w.editor().text, "0");
}

#[test]
fn keys_before_the_first_state() {
    let waiting = "waiting for the first state from fanctld …";
    for c in ['a', 'f', 'o', 'e', 'c'] {
        let mut w = World::new();
        w.press(KeyCode::Char(c));
        assert_eq!(w.app.status, waiting, "{c}");
        assert!(w.log.is_empty());
    }
    let mut w = World::new();
    w.press(KeyCode::Enter);
    assert_eq!(w.app.status, waiting);
    w.press(KeyCode::Down);
    assert_eq!(w.app.selected, 0);
}

#[test]
fn selection_scrolling_sorting_and_help() {
    let mut w = World::ready();
    let s = w.app.state.as_mut().unwrap();
    let f = s.fans[0].clone();
    s.fans.push(f.clone());
    s.fans.push(f);
    w.press(KeyCode::Up);
    assert_eq!(w.app.selected, 2);
    w.press(KeyCode::Char('j'));
    assert_eq!(w.app.selected, 0);
    w.press(KeyCode::BackTab);
    w.press(KeyCode::Down);
    w.press(KeyCode::Tab);
    assert_eq!(w.app.selected, 1);
    w.press(KeyCode::Char('k'));
    assert_eq!(w.app.selected, 0);

    w.press(KeyCode::PageUp);
    assert_eq!(w.app.scroll, 0);
    w.press(KeyCode::PageDown);
    assert_eq!(w.app.scroll, 6);
    w.press(KeyCode::End);
    w.press(KeyCode::PageDown);
    assert_eq!(w.app.scroll, 10000);
    w.press(KeyCode::PageUp);
    assert_eq!(w.app.scroll, 9994);
    w.press(KeyCode::Home);
    assert_eq!(w.app.scroll, 0);

    w.press(KeyCode::Char('S'));
    assert!(w.app.sorting);
    w.press(KeyCode::Char('?'));
    assert!(w.app.show_help);
    w.press(KeyCode::Esc);
    assert!(!w.app.show_help);
    // A key that is let go does nothing.
    w.app.on_key(KeyEvent {
        code: KeyCode::Char('q'),
        control: false,
        press: false,
    });
    assert!(!w.app.quit);
}

#[test]
fn polls_follow_the_daemons_interval() {
    let mut app = App::new(client(), 0);
    assert_eq!(app.refresh_interval(), 2 * SECOND);
    assert_eq!(app.wait(0), 0);
    assert_eq!(app.step(None, 0), Some(Request::GetState));
    assert_eq!(app.wait(0), 100_000_000);
    assert_eq!(app.step(None, 60 * SECOND), None, "still in flight");
    let mut st = served();
    st.refresh_secs = q(0.01);
    app.step(Some(Reply::Answer(Response::State { state: st })), SECOND);
    assert_eq!(app.refresh_interval(), 200_000_000);
    assert_eq!(app.next_refresh, SECOND + 200_000_000);
    assert_eq!(app.wait(SECOND), 200_000_000);
    assert_eq!(app.start_refresh(), Some(Request::GetState));
    assert_eq!(app.start_refresh(), None);
}

// ---- what is shown --------------------------------------------------------

fn state() -> State {
    let mut s = served();
    s.fans[0].mode = Mode::Manual { percent: 50 };
    s.fans[0].duty = Some(q(50.0));
    s
}

fn app_with(state: Option<State>) -> App {
    let mut a = App::new(client(), 0);
    a.state = state;
    a
}

fn text_of(lines: &[Line]) -> String {
    lines
        .iter()
        .map(|l| {
            let s: String = l.spans.iter().map(|s| s.text.as_str()).collect();
            format!("{s}\n")
        })
        .collect()
}

#[test]
fn renders_fan_row_and_temp_bar() {
    let s = state();
    let app = app_with(Some(state()));
    let text = text_of(&draw_fans(&s, app.selected))
        + &text_of(&draw_temps(&s, app.sorting, app.scroll, 98, 24));
    assert!(text.contains("Tctl"), "buffer:\n{text}");
    assert!(text.contains("70"), "temp value missing:\n{text}");
    assert!(text.contains("Fan 1"), "fan label missing:\n{text}");
    assert!(text.contains("50%"), "duty missing:\n{text}");
    assert!(text.contains("1650"), "rpm missing:\n{text}");
}

#[test]
fn renders_unreachable_message() {
    let mut app = app_with(None);
    let s = draw_unreachable(&app);
    assert!(s.text.contains("fanctld"), "{}", s.text);
    assert_eq!(s.style.colour, Colour::DarkGray);
    assert_eq!(draw(&app).fans, None);
    app.status = "can't reach fanctld: x".to_string();
    let s = draw_unreachable(&app);
    assert_eq!(s.text, "can't reach fanctld: x");
    assert_eq!(s.style.colour, Colour::Red);
}

#[test]
fn renders_value_dialog() {
    let app = app_with(Some(state()));
    let e = ValueEntry {
        text: "42".to_string(),
        error: None,
    };
    let text = text_of(&draw_value_entry(&app, &e));
    assert!(text.contains("New duty"), "buffer:\n{text}");
    assert!(text.contains("42"), "buffer:\n{text}");
    assert!(text.contains("Esc = cancel"), "buffer:\n{text}");
    assert_eq!(
        text,
        "\n  Fan 1\n  New duty (0-100):  42▌\n  \n\n  Enter = apply    Esc = cancel\n"
    );
    let e = ValueEntry {
        text: String::new(),
        error: Some("no".to_string()),
    };
    let lines = draw_value_entry(&app_with(None), &e);
    assert_eq!(lines[1].spans[0].text, "  the selected fan");
    assert_eq!(lines[2].spans[0].text, "  New duty (0-100):   ");
    assert_eq!(lines[3].spans[0].style.colour, Colour::Red);
}

#[test]
fn renders_curve_editor_dialog() {
    let app = app_with(Some(state()));
    let e = CurveEditor {
        points: vec![point(30.0, 0.0), point(75.0, 100.0)],
        row: 0,
        field: 0,
        text: "30".to_string(),
        default_mode: InitialMode::Auto,
        error: None,
        saving: false,
    };
    let text = title_of_editor(&app, &e) + "\n" + &text_of(&draw_curve_editor(&e));
    assert!(text.contains("Edit Fan 1"), "buffer:\n{text}");
    assert!(text.contains("temp"), "buffer:\n{text}");
    assert!(text.contains("30"), "buffer:\n{text}");
    assert!(text.contains("75"), "buffer:\n{text}");
    assert!(text.contains("100"), "buffer:\n{text}");
    assert!(text.contains("default:  auto"), "buffer:\n{text}");
    assert!(text.contains("s=save"), "buffer:\n{text}");
    assert!(text.contains("esc=cancel"), "buffer:\n{text}");
    assert_eq!(
        text,
        " Edit Fan 1 \n    temp    duty\n>     30▌       0\n       75     100\n  default:  auto\n  a=add x=del u/d=move  s=save  esc=cancel\n"
    );
    assert_eq!(height_of_editor(&e), 9);
    let e = CurveEditor {
        row: 2,
        saving: true,
        error: Some("bad".to_string()),
        ..e
    };
    let lines = draw_curve_editor(&e);
    assert_eq!(title_of_editor(&app, &e), " Saving ");
    assert_eq!(lines.len(), 6);
    assert!(lines[3].spans[0].style.reversed);
    assert_eq!(lines[3].spans[0].text, "> default:  auto");
    assert_eq!(lines[4].spans[0].text, "bad");
    assert_eq!(lines[5].spans[0].text, "  saving …");
}

#[test]
fn renders_sweeping_marker_and_calibrate_help() {
    let mut st = state();
    st.sweeping = Some("pwm1".to_string());
    let text = text_of(&draw_fans(&st, 0));
    assert!(
        text.contains("calibrating"),
        "fan row marker missing:\n{text}"
    );
    let mut app = app_with(Some(st));
    app.show_help = true;
    assert!(draw(&app).help);
    let text = text_of(&draw_help());
    assert!(text.contains("Calibrate"), "help line missing:\n{text}");
}

#[test]
fn status_line_shows_a_recent_sweep_result_until_it_fades() {
    let mut st = state();
    st.sweep = Some(SweepReport {
        fan: "pwm1".to_string(),
        min_duty: Some(20),
        max_duty: Some(80),
        saturated: true,
        note: "pwm1: the fan spins between 20 % and 80 % duty (it saturates at 80 %)".to_string(),
    });
    let now = 200 * SECOND;

    // Recently seen: the note shows in the status line.
    let mut app = app_with(Some(st.clone()));
    app.sweep_report_at = Some(now);
    let s = draw_status(&app, &st, now);
    assert!(s.text.contains("spins between 20 % and 80 %"), "{}", s.text);
    assert_eq!(s.style.colour, Colour::Cyan);

    // Too old (2 min): it fades back to the key hints.
    app.sweep_report_at = Some(now - 120 * SECOND);
    let s = draw_status(&app, &st, now);
    assert!(!s.text.contains("spins between"), "{}", s.text);
    assert!(s.text.contains("c calibrate"), "key hints missing: {}", s.text);
    assert_eq!(s.style.colour, Colour::DarkGray);

    // A new report in a snapshot starts the countdown.
    let mut app = app_with(None);
    app.job = Some(Job::GetState);
    app.pump(Some(Reply::Answer(Response::State { state: st.clone() })), now);
    assert_eq!(app.sweep_report_at, Some(now));
    app.job = Some(Job::GetState);
    app.pump(Some(Reply::Answer(Response::State { state: st.clone() })), now + 5);
    assert_eq!(app.sweep_report_at, Some(now));
    assert!(app.recent_sweep_note(&st, now + 59 * SECOND).is_some());
    assert!(app.recent_sweep_note(&st, now + 60 * SECOND).is_none());
}

#[test]
fn the_status_line_shows_what_matters_most() {
    let mut st = state();
    st.status = "Fan 1: oops".to_string();
    st.sweeping = Some("pwm1".to_string());
    let mut app = app_with(Some(state()));
    app.status = "can't reach fanctld: x".to_string();
    let s = draw_status(&app, &st, 0);
    assert_eq!((s.text.as_str(), s.style.colour), ("can't reach fanctld: x", Colour::Red));
    app.status = String::new();
    let s = draw_status(&app, &st, 0);
    assert_eq!(
        (s.text.as_str(), s.style.colour),
        ("pwm1: calibrating (0→100 %) …", Colour::Cyan)
    );
    st.sweeping = None;
    let s = draw_status(&app, &st, 0);
    assert_eq!((s.text.as_str(), s.style.colour), ("Fan 1: oops", Colour::Red));
}

#[test]
fn fan_rows_in_detail() {
    let mut st = state();
    let lines = draw_fans(&st, 0);
    assert_eq!(text_of(&lines), ">    Fan 1  50%       50%    1650 rpm\n");
    assert!(lines[0].spans.iter().all(|s| s.style.reversed));
    st.fans[0].duty = None;
    st.fans[0].rpm = None;
    st.fans[0].mode = Mode::Auto;
    st.fans[0].err = Some("oops".to_string());
    let lines = draw_fans(&st, 3);
    assert_eq!(text_of(&lines), "     Fan 1  auto      n/a       -  oops\n");
    assert_eq!(lines[0].spans[4].style.colour, Colour::Red);
    assert!(!lines[0].spans[0].style.reversed);
    st.fans.clear();
    assert_eq!(
        text_of(&draw_fans(&st, 0)),
        "  no controllable PWM channels in the config\n"
    );
    assert_eq!(draw(&app_with(Some(st))).fans, Some(2));
    assert_eq!(draw(&app_with(Some(state()))).fans, Some(3));
}

#[test]
fn temperature_rows_in_detail() {
    let mut st = state();
    let t = |label: &str, c: Option<f64>| Temp {
        refname: label.to_string(),
        label: label.to_string(),
        source: "hwmon".to_string(),
        celsius: c.map(q),
    };
    st.temps = vec![
        t("a", Some(20.0)),
        t("b", None),
        t("c", Some(90.4)),
        t("d", Some(20.0)),
        t("e", Some(120.0)),
    ];
    let labels = |lines: &[Line]| -> String {
        lines
            .iter()
            .map(|l| l.spans[0].text.trim().to_string())
            .collect()
    };
    assert_eq!(labels(&draw_temps(&st, false, 0, 62, 10)), "abcde");
    assert_eq!(labels(&draw_temps(&st, true, 0, 62, 10)), "ecadb");
    assert_eq!(labels(&draw_temps(&st, true, 1, 62, 2)), "ca");
    assert_eq!(labels(&draw_temps(&st, true, 10000, 62, 2)), "");

    // A bar of 20 cells: 20 °C lights four, 90.4 °C nineteen.
    let rows = draw_temps(&st, false, 0, 62, 10);
    let row = &rows[0];
    assert_eq!(row.spans.len(), 22);
    assert_eq!(row.spans[21].text, "    20°C");
    let colours: Vec<Colour> = row.spans[1..21].iter().map(|s| s.style.colour).collect();
    assert_eq!(&colours[..4], &[Colour::GreenLight; 4]);
    assert_eq!(&colours[4..9], &[Colour::GreenDark; 5]);
    assert_eq!(&colours[9..15], &[Colour::YellowDark; 6]);
    assert_eq!(&colours[15..], &[Colour::RedDark; 5]);
    let hot: Vec<Colour> = rows[2].spans[1..21].iter().map(|s| s.style.colour).collect();
    assert_eq!(hot[18], Colour::RedLight);
    assert_eq!(hot[19], Colour::RedDark);
    assert_eq!(rows[2].spans[21].text, "    90°C");
    assert_eq!(rows[1].spans[21].text, "    n/a");
    assert_eq!(rows[4].spans[20].style.colour, Colour::RedLight);
    assert_eq!(rows[0].spans[0].text.chars().count(), 34);
    // A narrow block still has a bar of one cell.
    assert_eq!(draw_temps(&st, false, 0, 10, 1)[0].spans.len(), 3);
}

#[test]
fn popups_are_centred_and_fit() {
    let area = Area {
        x: 0,
        y: 0,
        width: 80,
        height: 20,
    };
    assert_eq!(
        centre(area, 46, 12),
        Area {
            x: 17,
            y: 4,
            width: 46,
            height: 12
        }
    );
    let small = Area {
        x: 5,
        y: 6,
        width: 30,
        height: 5,
    };
    assert_eq!(centre(small, 46, 12), small);
}

#[test]
fn bar_colours() {
    assert_eq!(Colour::GreenLight.rgb(), Some((165, 183, 0)));
    assert_eq!(Colour::RedDark.rgb(), Some((76, 32, 32)));
    assert_eq!(Colour::Cyan.rgb(), None);
}

#[test]
fn a_moved_row_keeps_its_values() {
    let mut w = World::ready();
    w.press(KeyCode::Char('e'));
    w.press(KeyCode::Right);
    w.press(KeyCode::Down);
    assert_eq!(w.editor().text, "100");
    w.press(KeyCode::Char('u'));
    let e = w.editor();
    assert_eq!((e.row, e.field, e.text.as_str()), (0, 1, "100"));
    w.press(KeyCode::Enter);
    assert_eq!(
        w.editor().points,
        vec![point(75.0, 100.0), point(30.0, 0.0)]
    );
}
