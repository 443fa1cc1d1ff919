//! What the client's keys and the daemon's replies do.

use vstd::prelude::*;
use crate::curve::CurvePoint;
use crate::ipc::{Mode, RequestView, ResponseView, StateView};
use crate::number;
use crate::quantity;
use crate::sweep::SweepReportView;
use crate::tui::app;
use crate::tui::app::{AppView, EntryView, Job, KeyEvent, ReplyView};
use crate::tui::editor;
use crate::tui::editor::{EditorView, KeyCode};

verus! {

/// A key that was pressed.
pub open spec fn pressed(code: KeyCode, control: bool) -> KeyEvent {
    KeyEvent { code, control, press: true }
}

/// The main view with a fan selected: no dialog is open.
pub open spec fn on_a_fan(a: AppView) -> bool {
    &&& a.curve_editor is None && a.value_entry is None
    &&& a.state matches Some(s) && a.selected < s.fans.len()
}

// ---- the main view --------------------------------------------------------

/// `a`, `f` and `o`, in either case, ask for the selected fan to go into Auto,
/// Full and Off. The request goes out at once and is then in flight, and
/// nothing else of the client changes; behind a poll in flight it waits.
pub proof fn law_mode_keys(a: AppView, c: char, control: bool)
    requires
        on_a_fan(a),
        c == 'a' || c == 'A' || c == 'f' || c == 'F' || c == 'o' || c == 'O',
    ensures
        ({
            let (b, sent) = app::keyed(a, pressed(KeyCode::Char(c), control));
            let fan = a.state->0.fans[a.selected as int].id;
            let mode = if c == 'a' || c == 'A' {
                Mode::Auto
            } else if c == 'f' || c == 'F' {
                Mode::Full
            } else {
                Mode::Off
            };
            &&& a.job != Some(Job::GetState) ==> {
                &&& sent == Some(RequestView::SetMode { fan, mode })
                &&& b == (AppView { job: Some(Job::SetMode), ..a })
            }
            &&& a.job == Some(Job::GetState) ==> {
                &&& sent is None
                &&& b == (AppView { pending_mode: Some((fan, mode)), ..a })
            }
        }),
{
}

/// `c`, in either case, asks for a calibration of the selected fan with the
/// daemon's own settings, unless a request is in flight or a sweep runs.
pub proof fn law_calibration_key(a: AppView, upper: bool)
    requires
        on_a_fan(a),
    ensures
        ({
            let c = if upper {
                'C'
            } else {
                'c'
            };
            let (b, sent) = app::keyed(a, pressed(KeyCode::Char(c), false));
            let fan = a.state->0.fans[a.selected as int].id;
            let free = a.job is None && a.state->0.sweeping is None;
            &&& free ==> {
                &&& sent == Some(RequestView::Sweep { fan, step: None, settle: None })
                &&& b == (AppView { job: Some(Job::Sweep), ..a })
            }
            &&& !free ==> {
                &&& sent is None
                &&& b == (AppView { status: b.status, ..a })
                &&& a.job is Some ==> b.status == "fanctld is busy with the previous command"@
                &&& a.job is None ==> b.status == "a calibration sweep is already running"@
            }
        }),
{
}

/// Without a state, no key sends anything, but for those of an open curve
/// editor; and while nothing is selected no fan is driven.
pub proof fn law_nothing_is_sent_blindly(a: AppView, k: KeyEvent)
    requires
        a.curve_editor is None,
        a.state is None || a.selected >= a.state->0.fans.len(),
    ensures
        app::keyed(a, k).1 is None,
        app::keyed(a, k).0.job == a.job,
        app::keyed(a, k).0.pending_mode == a.pending_mode,
{
}

/// Enter opens the duty dialog, empty; `e` opens the editor on the selected
/// fan's own curve and initial mode, at the first temperature, or on one point
/// at 0 where the fan has no curve. Neither sends anything.
pub proof fn law_dialog_keys(a: AppView, upper: bool, control: bool)
    requires
        on_a_fan(a),
    ensures
        ({
            let (b, sent) = app::keyed(a, pressed(KeyCode::Enter, control));
            &&& sent is None
            &&& b == (AppView { value_entry: b.value_entry, ..a })
            &&& b.value_entry matches Some(e) && e.text.len() == 0 && e.error is None
        }),
        ({
            let c = if upper {
                'E'
            } else {
                'e'
            };
            let f = a.state->0.fans[a.selected as int];
            let (b, sent) = app::keyed(a, pressed(KeyCode::Char(c), control));
            &&& sent is None
            &&& b == (AppView { curve_editor: b.curve_editor, ..a })
            &&& b.curve_editor matches Some(e) && {
                &&& f.curve.len() > 0 ==> e.points == f.curve
                &&& f.curve.len() == 0 ==> e.points == seq![CurvePoint { temp: 0, duty: 0 }]
                &&& e.default_mode == f.default_mode
                &&& e.row == 0 && e.field == 0 && e.error is None && !e.saving
                &&& e.text == quantity::shown(e.points[0].temp as int)
            }
        }),
{
}

/// Down and `j` select the next fan and Up and `k` the one before, round the
/// list; nothing else changes, and nothing is sent.
pub proof fn law_selection_keys(a: AppView, control: bool)
    requires
        on_a_fan(a),
        a.state->0.fans.len() <= usize::MAX,
    ensures
        ({
            let n = a.state->0.fans.len();
            let next = if a.selected + 1 < n {
                a.selected + 1
            } else {
                0
            };
            let last = if a.selected > 0 {
                a.selected - 1
            } else {
                n - 1
            };
            let down = app::keyed(a, pressed(KeyCode::Down, control));
            let up = app::keyed(a, pressed(KeyCode::Up, control));
            &&& down == (AppView { selected: next as usize, ..a }, None::<RequestView>)
            &&& up == (AppView { selected: last as usize, ..a }, None::<RequestView>)
            &&& app::keyed(a, pressed(KeyCode::Char('j'), control)) == down
            &&& app::keyed(a, pressed(KeyCode::BackTab, control)) == down
            &&& app::keyed(a, pressed(KeyCode::Char('k'), control)) == up
            &&& app::keyed(a, pressed(KeyCode::Tab, control)) == up
        }),
{
    let n = a.state->0.fans.len() as int;
    let s = a.selected as int;
    if s + 1 < n {
        vstd::arithmetic::div_mod::lemma_small_mod((s + 1) as nat, n as nat);
    } else {
        vstd::arithmetic::div_mod::lemma_mod_self_0(n);
    }
    if s > 0 {
        vstd::arithmetic::div_mod::lemma_small_mod((s - 1) as nat, n as nat);
    } else {
        vstd::arithmetic::div_mod::lemma_fundamental_div_mod_converse(-1, n, -1, n - 1);
    }
}

/// `s` turns the sorting of the readings on and off, `?` the help; Esc closes
/// the help, and `q` quits. Nothing else changes, and nothing is sent.
pub proof fn law_view_keys(a: AppView, control: bool)
    requires
        a.curve_editor is None,
        a.value_entry is None,
    ensures
        app::keyed(a, pressed(KeyCode::Char('s'), control)) == (
            AppView { sorting: !a.sorting, ..a },
            None::<RequestView>,
        ),
        app::keyed(a, pressed(KeyCode::Char('S'), control)) == app::keyed(
            a,
            pressed(KeyCode::Char('s'), control),
        ),
        app::keyed(a, pressed(KeyCode::Char('?'), control)) == (
            AppView { show_help: !a.show_help, ..a },
            None::<RequestView>,
        ),
        app::keyed(a, pressed(KeyCode::Esc, control)) == (
            AppView { show_help: false, ..a },
            None::<RequestView>,
        ),
        app::keyed(a, pressed(KeyCode::Char('q'), control)) == (
            AppView { quit: true, ..a },
            None::<RequestView>,
        ),
        app::keyed(a, pressed(KeyCode::Char('Q'), control)) == (
            AppView { quit: true, ..a },
            None::<RequestView>,
        ),
{
}

/// The scroll keys move the readings by six rows, to the top, or to the end,
/// and never above the top; nothing else changes.
pub proof fn law_scroll_keys(a: AppView, control: bool)
    requires
        a.curve_editor is None,
        a.value_entry is None,
    ensures
        ({
            let down = app::keyed(a, pressed(KeyCode::PageDown, control));
            let up = app::keyed(a, pressed(KeyCode::PageUp, control));
            let home = app::keyed(a, pressed(KeyCode::Home, control));
            let end = app::keyed(a, pressed(KeyCode::End, control));
            &&& down == (AppView { scroll: down.0.scroll, ..a }, None::<RequestView>)
            &&& a.scroll <= 9994 ==> down.0.scroll == a.scroll + 6
            &&& a.scroll > 9994 ==> down.0.scroll == 10000
            &&& up == (AppView { scroll: up.0.scroll, ..a }, None::<RequestView>)
            &&& a.scroll >= 6 ==> up.0.scroll == a.scroll - 6
            &&& a.scroll < 6 ==> up.0.scroll == 0
            &&& home == (AppView { scroll: 0, ..a }, None::<RequestView>)
            &&& end == (AppView { scroll: 10000, ..a }, None::<RequestView>)
        }),
{
}

/// A key that is let go does nothing, and only `q` and Ctrl+C quit.
pub proof fn law_only_quitting_quits(a: AppView, k: KeyEvent)
    ensures
        !k.press ==> app::keyed(a, k) == (a, None::<RequestView>),
        !a.quit && app::keyed(a, k).0.quit ==> k.press && ((k.code == KeyCode::Char('c')
            && k.control) || k.code == KeyCode::Char('q') || k.code == KeyCode::Char('Q')),
{
}

// ---- the duty dialog ------------------------------------------------------

/// A digit goes behind what was typed, up to three of them, Backspace takes
/// the last one away, and any other character changes nothing.
pub proof fn law_typing_a_duty(a: AppView, c: char, control: bool)
    requires
        a.curve_editor is None,
        a.value_entry is Some,
        !(c == 'c' && control),
    ensures
        ({
            let e = a.value_entry->0;
            let (b, sent) = app::keyed(a, pressed(KeyCode::Char(c), control));
            let takes = '0' <= c && c <= '9' && e.text.len() < 3;
            &&& sent is None
            &&& takes ==> b == (AppView {
                value_entry: Some(EntryView { text: e.text.push(c), error: None }),
                ..a
            })
            &&& !takes ==> b == a
        }),
        ({
            let e = a.value_entry->0;
            let (b, sent) = app::keyed(a, pressed(KeyCode::Backspace, control));
            &&& sent is None
            &&& b == (AppView { value_entry: b.value_entry, ..a })
            &&& b.value_entry matches Some(f) && f.error is None && (e.text.len() > 0 ==> f.text
                == e.text.drop_last()) && (e.text.len() == 0 ==> f.text == e.text)
        }),
{
}

/// Enter with a number above 100 sends nothing: the dialog stays open with
/// what was typed and a message.
pub proof fn law_large_duty_is_rejected(a: AppView, p: nat, control: bool)
    requires
        a.curve_editor is None,
        a.value_entry matches Some(e) && e.text == number::decimal(p),
        p > 100,
    ensures
        ({
            let (b, sent) = app::keyed(a, pressed(KeyCode::Enter, control));
            &&& sent is None
            &&& b == (AppView { value_entry: b.value_entry, ..a })
            &&& b.value_entry matches Some(f) && f.text == a.value_entry->0.text && f.error is Some
        }),
{
    number::law_decimal_round_trip(p, if p > 65535 {
        p
    } else {
        65535
    });
    number::lemma_decimal(p);
}

// ---- replies --------------------------------------------------------------

/// A state that a poll brings is what the client shows from then on, with the
/// old message gone; the next poll is due after the daemon's refresh time, and
/// not sooner than 0.2 s.
pub proof fn law_state_is_taken_over(a: AppView, state: StateView, now: u64)
    requires
        a.job == Some(Job::GetState),
        a.pending_mode is None,
    ensures
        ({
            let (b, sent) = app::pumped(
                a,
                Some(ReplyView::Answer(ResponseView::State { state })),
                now,
            );
            let wait = if state.refresh_secs < 200_000_000 {
                200_000_000
            } else {
                state.refresh_secs as int
            };
            &&& sent is None
            &&& b.state == Some(state)
            &&& b.status.len() == 0
            &&& b.job is None
            &&& b.selected == a.selected && b.sorting == a.sorting && b.scroll == a.scroll
            &&& b.value_entry == a.value_entry && b.curve_editor == a.curve_editor
            &&& b.last_sweep_report == state.sweep
            &&& now + wait <= u64::MAX ==> b.next_refresh == now + wait
            &&& state.sweep != a.last_sweep_report ==> b.sweep_report_at == Some(now)
            &&& state.sweep == a.last_sweep_report ==> b.sweep_report_at == a.sweep_report_at
        }),
{
}

/// Whatever else a poll brings, the client keeps its view and tries again
/// after half a second; a daemon that cannot be reached leaves no state.
pub proof fn law_poll_that_failed(a: AppView, reply: ReplyView, now: u64)
    requires
        a.job == Some(Job::GetState),
        a.pending_mode is None,
        !(reply matches ReplyView::Answer(ResponseView::State { .. })),
        now <= u64::MAX - 500_000_000,
    ensures
        ({
            let b = app::pumped(a, Some(reply), now).0;
            &&& b == (AppView {
                job: None,
                state: b.state,
                status: b.status,
                next_refresh: (now + 500_000_000) as u64,
                ..a
            })
            &&& b.status.len() > 0
            &&& reply is Failed ==> b.state is None
            &&& !(reply is Failed) ==> b.state == a.state
            &&& reply matches ReplyView::Failed(why) ==> b.status == "can't reach fanctld: "@ + why
        }),
{
    reveal_strlit("can't reach fanctld: ");
    reveal_strlit("fanctld: unexpected response");
    reveal_strlit("fanctlui: internal error while polling fanctld");
}

/// A save that was taken closes the editor and is polled at once; one that
/// was refused keeps it open, unlocked and with its points, and shows the
/// reason. Where the daemon could not be reached, the editor closes.
pub proof fn law_answer_to_a_save(a: AppView, e: EditorView, reply: ReplyView, now: u64)
    requires
        a.job == Some(Job::SaveConfig),
        a.pending_mode is None,
        a.curve_editor == Some(e),
    ensures
        ({
            let b = app::pumped(a, Some(reply), now).0;
            &&& b.job is None && b.state == a.state
            &&& reply matches ReplyView::Answer(ResponseView::Error { message }) ==> {
                &&& b.curve_editor == Some(
                    EditorView { error: Some(message), saving: false, ..e },
                )
                &&& b.status == a.status
            }
            &&& reply matches ReplyView::Answer(ResponseView::Done) ==> b.next_refresh == now
            &&& !(reply matches ReplyView::Answer(ResponseView::Error { .. })) ==> b.curve_editor is None
            &&& reply matches ReplyView::Failed(why) ==> b.status == "can't reach fanctld: "@ + why
        }),
{
}

/// A sweep that was started is polled at once; one that was refused leaves
/// the reason in the status.
pub proof fn law_answer_to_a_sweep(a: AppView, reply: ReplyView, now: u64)
    requires
        a.job == Some(Job::Sweep),
        a.pending_mode is None,
    ensures
        ({
            let b = app::pumped(a, Some(reply), now).0;
            &&& b == (AppView { job: None, status: b.status, next_refresh: b.next_refresh, ..a })
            &&& reply matches ReplyView::Answer(ResponseView::Done) ==> b.next_refresh == now
                && b.status == a.status
            &&& reply matches ReplyView::Answer(ResponseView::Error { message }) ==> b.status
                == message && b.next_refresh == a.next_refresh
            &&& reply matches ReplyView::Failed(why) ==> b.status == "can't reach fanctld: "@ + why
        }),
{
}

/// A change of mode that failed to reach the daemon is told; however it went,
/// the view stays.
pub proof fn law_answer_to_a_mode(a: AppView, reply: ReplyView, now: u64)
    requires
        a.job == Some(Job::SetMode),
        a.pending_mode is None,
    ensures
        ({
            let b = app::pumped(a, Some(reply), now).0;
            &&& b == (AppView { job: None, status: b.status, next_refresh: now, ..a })
            &&& reply is Answer ==> b.status == a.status
            &&& reply matches ReplyView::Failed(why) ==> b.status == "can't reach fanctld: "@ + why
        }),
{
}

/// A poll goes out when it is due and nothing is in flight, and not before.
pub proof fn law_polls_when_due(a: AppView, now: u64)
    requires
        a.job is None,
    ensures
        now >= a.next_refresh ==> app::stepped(a, None, now) == (
            AppView { job: Some(Job::GetState), ..a },
            Some(RequestView::GetState),
        ),
        now < a.next_refresh ==> app::stepped(a, None, now) == (a, None::<RequestView>),
{
}

/// The polls go by the daemon's refresh time, with 0.2 s at least, and by 2 s
/// before the first state.
pub proof fn law_poll_interval(s: StateView)
    ensures
        s.refresh_secs >= 200_000_000 ==> app::interval(Some(s)) == s.refresh_secs,
        s.refresh_secs < 200_000_000 ==> app::interval(Some(s)) == 200_000_000,
        app::interval(None) == 2_000_000_000,
{
}

/// The note of a finished sweep is shown for 60 s after it was first seen.
pub proof fn law_note_is_shown_for_a_while(
    a: AppView,
    s: StateView,
    r: SweepReportView,
    at: u64,
    now: u64,
)
    requires
        a.sweep_report_at == Some(at),
        s.sweep == Some(r),
    ensures
        now < at + 60_000_000_000 ==> app::note(a, s, now) == Some(r.note),
        now >= at + 60_000_000_000 ==> app::note(a, s, now) is None,
        app::note(AppView { sweep_report_at: None, ..a }, s, now) is None,
        app::note(a, StateView { sweep: None, ..s }, now) is None,
{
}

// ---- the curve editor -----------------------------------------------------

/// Saving sends the edited points and initial mode for the selected fan, once
/// the active field is committed and the temperatures strictly increase, and
/// locks the editor. With a request in flight, or a field or order that will
/// not do, nothing is sent, and the editor stays open with a message.
pub proof fn law_save_key(a: AppView, e: EditorView, upper: bool, control: bool)
    requires
        a.curve_editor == Some(e),
        !e.saving,
    ensures
        ({
            let c = if upper {
                'S'
            } else {
                's'
            };
            let (b, sent) = app::keyed(a, pressed(KeyCode::Char(c), control));
            let (d, ok) = editor::committed(e);
            let fine = ok && d.points.len() > 0 && forall|i: int, j: int|
                0 <= i < j < d.points.len() ==> (#[trigger] d.points[i]).temp < (
                #[trigger] d.points[j]).temp;
            &&& fine && a.job is None ==> {
                &&& sent matches Some(RequestView::SaveFanConfig { fan, curve, default_mode }) && {
                    &&& curve == d.points && default_mode == e.default_mode
                    &&& on_a_fan(AppView { curve_editor: None, value_entry: None, ..a }) ==> fan
                        == a.state->0.fans[a.selected as int].id
                }
                &&& b.job == Some(Job::SaveConfig)
                &&& b.curve_editor matches Some(f) && f.saving && f.points == d.points
            }
            &&& !(fine && a.job is None) ==> {
                &&& sent is None && b.job == a.job
                &&& b.curve_editor matches Some(f) && !f.saving && f.error is Some
            }
        }),
{
    let (d, ok) = editor::committed(e);
    editor::law_order_is_checked(d.points);
}

// ---- waiting --------------------------------------------------------------

/// Before the first state, the keys for a mode, a calibration and the dialogs
/// say that the client waits, and do nothing else.
pub proof fn law_keys_before_the_first_state(a: AppView, code: KeyCode)
    requires
        a.state is None,
        a.curve_editor is None,
        a.value_entry is None,
        code == KeyCode::Enter || code == KeyCode::Char('a') || code == KeyCode::Char('f') || code
            == KeyCode::Char('o') || code == KeyCode::Char('c') || code == KeyCode::Char('e'),
    ensures
        app::keyed(a, pressed(code, false)) == (
            AppView { status: "waiting for the first state from fanctld …"@, ..a },
            None::<RequestView>,
        ),
{
}

/// A save that was taken is told with the fan's id.
pub proof fn law_save_is_told(a: AppView, now: u64)
    requires
        a.job == Some(Job::SaveConfig),
        a.pending_mode is None,
        a.state matches Some(s) && a.selected < s.fans.len(),
    ensures
        app::pumped(a, Some(ReplyView::Answer(ResponseView::Done)), now).0.status
            == a.state->0.fans[a.selected as int].id + ": saved"@,
{
}

/// While a request is in flight the client looks for its answer every 0.1 s,
/// and it tries an unreachable daemon again after 0.5 s; a point in time that
/// cannot be told is the last one.
pub proof fn law_waits(now: u64, wait: u64)
    ensures
        app::BUSY_WAIT == 100_000_000,
        app::RETRY_WAIT == 500_000_000,
        app::NOTE_TIME == 60_000_000_000,
        now + wait <= u64::MAX ==> app::later(now, wait as int) == now + wait,
        now + wait > u64::MAX ==> app::later(now, wait as int) == u64::MAX,
{
}

} // verus!
