//! The client's state: the last state served by the daemon, the request in
//! flight, the open dialogs, and what keys and replies do to them.
//!
//! Nothing here waits. An operation that wants to talk to the daemon hands
//! out the [`Request`] to send, and the reply comes back through
//! [`App::pump`], so a slow or unresponsive daemon can never freeze the
//! client. Times are in nanoseconds on the caller's clock.

use vstd::prelude::*;
use crate::curve;
use crate::curve::CurvePoint;
use crate::ipc::{
    Client, FanStateView, Mode, Request, RequestView, Response, ResponseView, State, StateView,
};
use crate::number;
use crate::quantity;
use crate::sweep::{SweepReport, SweepReportView};
use crate::text;
use crate::tui::editor;
use crate::tui::editor::{CurveEditor, EditorView, KeyCode};

verus! {

/// A key event: a key that was pressed, or let go, with or without Ctrl.
#[derive(Debug, Clone, Copy, PartialEq, Eq, Structural)]
pub struct KeyEvent {
    pub code: KeyCode,
    pub control: bool,
    pub press: bool,
}

/// The kind of the request in flight.
#[derive(Debug, Clone, Copy, PartialEq, Eq, Structural)]
pub enum Job {
    /// A `get-state` poll.
    GetState,
    /// A `set-mode` command.
    SetMode,
    /// A `save-fan-config` command (curve + default mode).
    SaveConfig,
    /// A `sweep` (calibration) command. The daemon runs the sweep in the
    /// background; this job only carries the *start* answer.
    Sweep,
}

/// What became of a request.
#[derive(Debug)]
pub enum Reply {
    /// The daemon answered.
    Answer(Response),
    /// The daemon could not be reached, or its answer not understood.
    Failed(String),
    /// The request was lost on the client's side.
    Lost,
}

/// A [`Reply`] with its text as character sequences.
pub enum ReplyView {
    Answer(ResponseView),
    Failed(Seq<char>),
    Lost,
}

impl View for Reply {
    type V = ReplyView;

    open spec fn view(&self) -> ReplyView {
        match self {
            Reply::Answer(r) => ReplyView::Answer(r@),
            Reply::Failed(e) => ReplyView::Failed(e@),
            Reply::Lost => ReplyView::Lost,
        }
    }
}

impl DeepView for Reply {
    type V = ReplyView;

    open spec fn deep_view(&self) -> ReplyView {
        self.view()
    }
}

/// The "set exact duty" dialog: a modal numeric input (0-100) for the
/// selected fan.
#[derive(Debug, PartialEq)]
pub struct ValueEntry {
    /// The text typed so far (digits only, at most 3 characters).
    pub text: String,
    /// A validation message to display, if the last submit was rejected.
    pub error: Option<String>,
}

/// A [`ValueEntry`] with its text as character sequences.
pub struct EntryView {
    pub text: Seq<char>,
    pub error: Option<Seq<char>>,
}

impl View for ValueEntry {
    type V = EntryView;

    open spec fn view(&self) -> EntryView {
        EntryView { text: self.text@, error: self.error.deep_view() }
    }
}

impl DeepView for ValueEntry {
    type V = EntryView;

    open spec fn deep_view(&self) -> EntryView {
        self.view()
    }
}

impl Default for ValueEntry {
    fn default() -> (r: ValueEntry)
        ensures
            r@ == (EntryView { text: Seq::empty(), error: None }),
    {
        let text = String::new();
        assert(text@ =~= Seq::<char>::empty());
        ValueEntry { text, error: None }
    }
}

/// Top-level client state.
#[derive(Debug)]
pub struct App {
    pub client: Client,
    /// The last state served by the daemon (or `None` until the first
    /// successful fetch, or while the daemon is unreachable).
    pub state: Option<State>,
    pub selected: usize,
    pub sorting: bool,
    pub scroll: usize,
    pub show_help: bool,
    /// A client-side problem message (daemon unreachable, ...).
    pub status: String,
    pub quit: bool,
    /// The open "set exact duty" dialog, if any.
    pub value_entry: Option<ValueEntry>,
    /// The open "edit curve and default mode" dialog, if any.
    pub curve_editor: Option<CurveEditor>,
    /// The in-flight request to the daemon, if any.
    pub job: Option<Job>,
    /// A mode change that was queued because a `get-state` poll was already
    /// in flight when it was requested.
    pub pending_mode: Option<(String, Mode)>,
    /// When the next `get-state` poll is due.
    pub next_refresh: u64,
    /// The last sweep result seen in a snapshot (to notice a *new* one).
    pub last_sweep_report: Option<SweepReport>,
    /// When the last *new* sweep result was seen; its note is shown in the
    /// status line for a while after that.
    pub sweep_report_at: Option<u64>,
}

/// An [`App`] with its text as character sequences.
pub struct AppView {
    pub client: Seq<char>,
    pub state: Option<StateView>,
    pub selected: usize,
    pub sorting: bool,
    pub scroll: usize,
    pub show_help: bool,
    pub status: Seq<char>,
    pub quit: bool,
    pub value_entry: Option<EntryView>,
    pub curve_editor: Option<EditorView>,
    pub job: Option<Job>,
    pub pending_mode: Option<(Seq<char>, Mode)>,
    pub next_refresh: u64,
    pub last_sweep_report: Option<SweepReportView>,
    pub sweep_report_at: Option<u64>,
}

/// A queued mode with its text as a character sequence.
pub open spec fn queued(p: Option<(String, Mode)>) -> Option<(Seq<char>, Mode)> {
    match p {
        Some((fan, mode)) => Some((fan@, mode)),
        None => None,
    }
}

impl View for App {
    type V = AppView;

    open spec fn view(&self) -> AppView {
        AppView {
            client: self.client.socket_path@,
            state: self.state.deep_view(),
            selected: self.selected,
            sorting: self.sorting,
            scroll: self.scroll,
            show_help: self.show_help,
            status: self.status@,
            quit: self.quit,
            value_entry: self.value_entry.deep_view(),
            curve_editor: self.curve_editor.deep_view(),
            job: self.job,
            pending_mode: queued(self.pending_mode),
            next_refresh: self.next_refresh,
            last_sweep_report: self.last_sweep_report.deep_view(),
            sweep_report_at: self.sweep_report_at,
        }
    }
}

impl AppView {
    /// An open curve editor has a point to edit.
    pub open spec fn valid(self) -> bool {
        self.curve_editor matches Some(e) ==> e.valid()
    }

    /// The fans of the last state; none without one.
    pub open spec fn fans(self) -> Seq<FanStateView> {
        match self.state {
            Some(s) => s.fans,
            None => Seq::empty(),
        }
    }

    /// The selected fan, if there is one.
    pub open spec fn selected_fan(self) -> Option<FanStateView> {
        if self.selected < self.fans().len() {
            Some(self.fans()[self.selected as int])
        } else {
            None
        }
    }

    /// The id of the selected fan; empty without one.
    pub open spec fn selected_id(self) -> Seq<char> {
        match self.selected_fan() {
            Some(f) => f.id,
            None => Seq::empty(),
        }
    }
}

// ---- time -----------------------------------------------------------------

/// A point in time some time after `now`.
pub open spec fn later(now: u64, wait: int) -> u64 {
    if now + wait > u64::MAX {
        u64::MAX
    } else {
        (now + wait) as u64
    }
}

fn add_time(now: u64, wait: u64) -> (r: u64)
    ensures
        r == later(now, wait as int),
{
    if now > u64::MAX - wait {
        u64::MAX
    } else {
        now + wait
    }
}

/// How long to wait between polls: the daemon's refresh time, but at least
/// 0.2 s, or 2 s before the first state.
pub open spec fn interval(state: Option<StateView>) -> int {
    match state {
        Some(s) => if s.refresh_secs < 200_000_000 {
            200_000_000
        } else {
            s.refresh_secs as int
        },
        None => 2_000_000_000,
    }
}

/// How long to wait after a poll that failed, in nanoseconds.
pub const RETRY_WAIT: u64 = 500_000_000;

/// How long the note of a finished sweep is shown, in nanoseconds.
pub const NOTE_TIME: u64 = 60_000_000_000;

// ---- replies --------------------------------------------------------------

/// The client with a request in flight for a mode change that was queued, if
/// one was.
pub open spec fn queue_sent(a: AppView) -> (AppView, Option<RequestView>) {
    match a.pending_mode {
        Some((fan, mode)) => (
            AppView { pending_mode: None, job: Some(Job::SetMode), ..a },
            Some(RequestView::SetMode { fan, mode }),
        ),
        None => (a, None),
    }
}

/// What is said of a daemon that cannot be reached.
pub open spec fn unreachable(why: Seq<char>) -> Seq<char> {
    "can't reach fanctld: "@ + why
}

/// The client after the reply to a poll.
pub open spec fn polled(a: AppView, reply: ReplyView, now: u64) -> AppView {
    let retry = later(now, RETRY_WAIT as int);
    match reply {
        ReplyView::Answer(ResponseView::State { state }) => AppView {
            last_sweep_report: state.sweep,
            sweep_report_at: if state.sweep != a.last_sweep_report {
                Some(now)
            } else {
                a.sweep_report_at
            },
            state: Some(state),
            status: Seq::empty(),
            next_refresh: later(now, interval(Some(state))),
            ..a
        },
        ReplyView::Answer(_) => AppView {
            status: "fanctld: unexpected response"@,
            next_refresh: retry,
            ..a
        },
        ReplyView::Failed(why) => AppView {
            state: None,
            status: unreachable(why),
            next_refresh: retry,
            ..a
        },
        ReplyView::Lost => AppView {
            status: "fanctlui: internal error while polling fanctld"@,
            next_refresh: retry,
            ..a
        },
    }
}

/// What is said when a command was lost.
pub open spec fn lost() -> Seq<char> {
    "fanctlui: internal error while talking to fanctld"@
}

/// The client after the reply to a change of mode: it polls at once to show
/// the change.
pub open spec fn mode_answered(a: AppView, reply: ReplyView, now: u64) -> AppView {
    AppView {
        status: match reply {
            ReplyView::Answer(_) => a.status,
            ReplyView::Failed(why) => unreachable(why),
            ReplyView::Lost => lost(),
        },
        next_refresh: now,
        ..a
    }
}

/// The client after the reply to a save: the dialog closes, unless the
/// daemon rejected the curve.
pub open spec fn save_answered(a: AppView, reply: ReplyView, now: u64) -> AppView {
    match reply {
        ReplyView::Answer(ResponseView::Done) => AppView {
            status: a.selected_id() + ": saved"@,
            curve_editor: None,
            next_refresh: now,
            ..a
        },
        ReplyView::Answer(ResponseView::Error { message }) => AppView {
            curve_editor: match a.curve_editor {
                Some(e) => Some(EditorView { error: Some(message), saving: false, ..e }),
                None => None,
            },
            ..a
        },
        ReplyView::Answer(ResponseView::State { .. }) => AppView {
            status: "fanctld: unexpected response"@,
            curve_editor: None,
            next_refresh: now,
            ..a
        },
        ReplyView::Failed(why) => AppView { status: unreachable(why), curve_editor: None, ..a },
        ReplyView::Lost => AppView { status: lost(), curve_editor: None, ..a },
    }
}

/// The client after the reply to the start of a sweep.
pub open spec fn sweep_answered(a: AppView, reply: ReplyView, now: u64) -> AppView {
    match reply {
        ReplyView::Answer(ResponseView::Done) => AppView { next_refresh: now, ..a },
        ReplyView::Answer(ResponseView::Error { message }) => AppView { status: message, ..a },
        ReplyView::Answer(ResponseView::State { .. }) => AppView {
            status: "fanctld: unexpected response"@,
            ..a
        },
        ReplyView::Failed(why) => AppView { status: unreachable(why), ..a },
        ReplyView::Lost => AppView { status: lost(), ..a },
    }
}

/// The client after a reply, if one has arrived, and the request that goes
/// out then: a mode change that was queued behind it.
pub open spec fn pumped(a: AppView, reply: Option<ReplyView>, now: u64) -> (
    AppView,
    Option<RequestView>,
) {
    match (a.job, reply) {
        (Some(job), Some(r)) => {
            let free = AppView { job: None, ..a };
            queue_sent(
                match job {
                    Job::GetState => polled(free, r, now),
                    Job::SetMode => mode_answered(free, r, now),
                    Job::SaveConfig => save_answered(free, r, now),
                    Job::Sweep => sweep_answered(free, r, now),
                },
            )
        },
        _ => (a, None),
    }
}

/// The client after one turn of its loop: a reply is taken in, and the next
/// poll starts when it is due.
pub open spec fn stepped(a: AppView, reply: Option<ReplyView>, now: u64) -> (
    AppView,
    Option<RequestView>,
) {
    let (b, sent) = pumped(a, reply, now);
    if b.job is None && now >= b.next_refresh {
        (AppView { job: Some(Job::GetState), ..b }, Some(RequestView::GetState))
    } else {
        (b, sent)
    }
}

fn same_report(a: &Option<SweepReport>, b: &Option<SweepReport>) -> (r: bool)
    ensures
        r == (a.deep_view() == b.deep_view()),
{
    match (a, b) {
        (Some(x), Some(y)) => x.same(y),
        (None, None) => true,
        _ => false,
    }
}

impl App {
    /// A client that has heard nothing yet; its first poll is due at `now`.
    pub fn new(client: Client, now: u64) -> (r: App)
        ensures
            r@ == (AppView {
                client: client.socket_path@,
                state: None,
                selected: 0,
                sorting: false,
                scroll: 0,
                show_help: false,
                status: Seq::empty(),
                quit: false,
                value_entry: None,
                curve_editor: None,
                job: None,
                pending_mode: None,
                next_refresh: now,
                last_sweep_report: None,
                sweep_report_at: None,
            }),
            r@.valid(),
    {
        let status = String::new();
        assert(status@ =~= Seq::<char>::empty());
        App {
            client,
            state: None,
            selected: 0,
            sorting: false,
            scroll: 0,
            show_help: false,
            status,
            quit: false,
            value_entry: None,
            curve_editor: None,
            job: None,
            pending_mode: None,
            next_refresh: now,
            last_sweep_report: None,
            sweep_report_at: None,
        }
    }

    /// Start a `get-state` poll (nothing when a request is already in
    /// flight).
    pub fn start_refresh(&mut self) -> (r: Option<Request>)
        ensures
            match old(self)@.job {
                Some(_) => r is None && final(self)@ == old(self)@,
                None => {
                    &&& r.deep_view() == Some(RequestView::GetState)
                    &&& final(self)@ == (AppView { job: Some(Job::GetState), ..old(self)@ })
                },
            },
    {
        if self.job.is_some() {
            return None;
        }
        self.job = Some(Job::GetState);
        Some(Request::GetState)
    }

    /// How long to wait between `get-state` polls, in nanoseconds: the
    /// daemon's refresh time, clamped, or a 2 s default before the first
    /// state.
    pub fn refresh_interval(&self) -> (r: u64)
        ensures
            r == interval(self@.state),
    {
        match &self.state {
            Some(s) => if s.refresh_secs < 200_000_000 {
                200_000_000
            } else {
                s.refresh_secs as u64
            },
            None => 2_000_000_000,
        }
    }

    fn take_poll(&mut self, reply: Reply, now: u64)
        ensures
            final(self)@ == polled(old(self)@, reply@, now),
    {
        match reply {
            Reply::Answer(Response::State { state }) => {
                if !same_report(&state.sweep, &self.last_sweep_report) {
                    self.last_sweep_report = state.sweep.clone();
                    self.sweep_report_at = Some(now);
                }
                self.state = Some(state);
                self.status = String::new();
                assert(self.status@ =~= Seq::<char>::empty());
                let wait = self.refresh_interval();
                self.next_refresh = add_time(now, wait);
            },
            Reply::Answer(_) => {
                self.status = text::owned("fanctld: unexpected response");
                self.next_refresh = add_time(now, RETRY_WAIT);
            },
            Reply::Failed(why) => {
                self.state = None;
                self.status = text::cat("can't reach fanctld: ", why.as_str());
                self.next_refresh = add_time(now, RETRY_WAIT);
            },
            Reply::Lost => {
                self.status = text::owned("fanctlui: internal error while polling fanctld");
                self.next_refresh = add_time(now, RETRY_WAIT);
            },
        }
    }

    fn take_mode(&mut self, reply: Reply, now: u64)
        ensures
            final(self)@ == mode_answered(old(self)@, reply@, now),
    {
        match reply {
            Reply::Answer(_) => {},
            Reply::Failed(why) => {
                self.status = text::cat("can't reach fanctld: ", why.as_str());
            },
            Reply::Lost => {
                self.status = text::owned("fanctlui: internal error while talking to fanctld");
            },
        }
        self.next_refresh = now;
    }

    /// The id of the selected fan; empty without one.
    fn selected_id(&self) -> (r: String)
        ensures
            r@ == self@.selected_id(),
    {
        match &self.state {
            Some(s) => {
                if self.selected < s.fans.len() {
                    assert(s.fans.deep_view()[self.selected as int]
                        == s.fans@[self.selected as int]@);
                    return s.fans[self.selected].id.clone();
                }
            },
            None => {},
        }
        let r = String::new();
        assert(r@ =~= Seq::<char>::empty());
        r
    }

    fn take_save(&mut self, reply: Reply, now: u64)
        ensures
            final(self)@ == save_answered(old(self)@, reply@, now),
    {
        match reply {
            Reply::Answer(Response::Done) => {
                let id = self.selected_id();
                self.status = text::cat(id.as_str(), ": saved");
                self.curve_editor = None;
                self.next_refresh = now;
            },
            Reply::Answer(Response::Error { message }) => {
                match self.curve_editor.take() {
                    Some(e) => {
                        let mut e = e;
                        e.error = Some(message);
                        e.saving = false;
                        self.curve_editor = Some(e);
                    },
                    None => {},
                }
            },
            Reply::Answer(Response::State { .. }) => {
                self.status = text::owned("fanctld: unexpected response");
                self.curve_editor = None;
                self.next_refresh = now;
            },
            Reply::Failed(why) => {
                self.status = text::cat("can't reach fanctld: ", why.as_str());
                self.curve_editor = None;
            },
            Reply::Lost => {
                self.status = text::owned("fanctlui: internal error while talking to fanctld");
                self.curve_editor = None;
            },
        }
    }

    fn take_sweep(&mut self, reply: Reply, now: u64)
        ensures
            final(self)@ == sweep_answered(old(self)@, reply@, now),
    {
        match reply {
            Reply::Answer(Response::Done) => {
                self.next_refresh = now;
            },
            Reply::Answer(Response::Error { message }) => {
                self.status = message;
            },
            Reply::Answer(Response::State { .. }) => {
                self.status = text::owned("fanctld: unexpected response");
            },
            Reply::Failed(why) => {
                self.status = text::cat("can't reach fanctld: ", why.as_str());
            },
            Reply::Lost => {
                self.status = text::owned("fanctlui: internal error while talking to fanctld");
            },
        }
    }

    /// Take in the reply to the request in flight, if it has arrived. The
    /// completed request frees the slot: a queued mode change, if any, goes
    /// out immediately.
    pub fn pump(&mut self, reply: Option<Reply>, now: u64) -> (r: Option<Request>)
        ensures
            (final(self)@, r.deep_view()) == pumped(old(self)@, reply.deep_view(), now),
    {
        let job = match self.job {
            Some(j) => j,
            None => {
                return None;
            },
        };
        let answer = match reply {
            Some(x) => x,
            None => {
                return None;
            },
        };
        self.job = None;
        match job {
            Job::GetState => {
                self.take_poll(answer, now);
            },
            Job::SetMode => {
                self.take_mode(answer, now);
            },
            Job::SaveConfig => {
                self.take_save(answer, now);
            },
            Job::Sweep => {
                self.take_sweep(answer, now);
            },
        }
        match self.pending_mode.take() {
            Some((fan, mode)) => {
                self.job = Some(Job::SetMode);
                Some(Request::SetMode { fan, mode })
            },
            None => None,
        }
    }

    /// One turn of the client's loop: take in a reply and start the next
    /// poll when it is due.
    pub fn step(&mut self, reply: Option<Reply>, now: u64) -> (r: Option<Request>)
        ensures
            (final(self)@, r.deep_view()) == stepped(old(self)@, reply.deep_view(), now),
    {
        let sent = self.pump(reply, now);
        if self.job.is_none() && now >= self.next_refresh {
            return self.start_refresh();
        }
        sent
    }
}

/// How long to wait for keys while a request is in flight, in nanoseconds.
pub const BUSY_WAIT: u64 = 100_000_000;

impl App {
    /// How long to wait for keys: shortly while a request is in flight, so a
    /// stuck daemon can never make the client unresponsive, or else until
    /// the next poll.
    pub fn wait(&self, now: u64) -> (r: u64)
        ensures
            r == if self@.job is Some {
                BUSY_WAIT as int
            } else if self@.next_refresh > now {
                self@.next_refresh - now
            } else {
                0
            },
    {
        if self.job.is_some() {
            BUSY_WAIT
        } else if self.next_refresh > now {
            self.next_refresh - now
        } else {
            0
        }
    }
}

// ---- keys -----------------------------------------------------------------

/// What is said before the first state.
pub open spec fn waiting() -> Seq<char> {
    "waiting for the first state from fanctld …"@
}

/// The client after the selection moved: it goes round the fans.
pub open spec fn selection_moved(a: AppView, delta: int) -> AppView {
    let n = a.fans().len();
    if n == 0 {
        a
    } else {
        AppView { selected: ((a.selected + delta) % (n as int)) as usize, ..a }
    }
}

/// The client after a change of the selected fan's mode was asked for. While
/// a poll is in flight the change is queued behind it.
pub open spec fn mode_requested(a: AppView, mode: Mode) -> (AppView, Option<RequestView>) {
    if a.state is None {
        (AppView { status: waiting(), ..a }, None)
    } else {
        match a.selected_fan() {
            None => (a, None),
            Some(f) => if a.job == Some(Job::GetState) {
                (AppView { pending_mode: Some((f.id, mode)), ..a }, None)
            } else {
                (
                    AppView { job: Some(Job::SetMode), ..a },
                    Some(RequestView::SetMode { fan: f.id, mode }),
                )
            },
        }
    }
}

/// The client after a calibration of the selected fan was asked for.
pub open spec fn calibration_requested(a: AppView) -> (AppView, Option<RequestView>) {
    match a.state {
        None => (AppView { status: waiting(), ..a }, None),
        Some(s) => match a.selected_fan() {
            None => (a, None),
            Some(f) => if a.job is Some {
                (AppView { status: "fanctld is busy with the previous command"@, ..a }, None)
            } else if s.sweeping is Some {
                (AppView { status: "a calibration sweep is already running"@, ..a }, None)
            } else {
                (
                    AppView { job: Some(Job::Sweep), ..a },
                    Some(RequestView::Sweep { fan: f.id, step: None, settle: None }),
                )
            },
        },
    }
}

/// The client with the "set exact duty" dialog opened, where there is a fan.
pub open spec fn entry_opened(a: AppView) -> AppView {
    if a.fans().len() == 0 {
        AppView { status: waiting(), ..a }
    } else {
        AppView { value_entry: Some(EntryView { text: Seq::empty(), error: None }), ..a }
    }
}

/// The client after a key in the "set exact duty" dialog.
pub open spec fn entry_keyed(a: AppView, e: EntryView, code: KeyCode) -> (
    AppView,
    Option<RequestView>,
) {
    match code {
        KeyCode::Backspace => (
            AppView {
                value_entry: Some(
                    EntryView {
                        text: if e.text.len() > 0 {
                            e.text.drop_last()
                        } else {
                            e.text
                        },
                        error: None,
                    },
                ),
                ..a
            },
            None,
        ),
        KeyCode::Char(c) => if text::digit(c) && e.text.len() < 3 {
            (
                AppView {
                    value_entry: Some(EntryView { text: e.text.push(c), error: None }),
                    ..a
                },
                None,
            )
        } else {
            (a, None)
        },
        KeyCode::Enter => match number::parsed_nat(e.text, 65535) {
            Some(v) => if v <= 100 {
                mode_requested(
                    AppView { value_entry: None, ..a },
                    Mode::Manual { percent: v as u8 },
                )
            } else {
                (entry_rejected(a, e), None)
            },
            None => (entry_rejected(a, e), None),
        },
        _ => (a, None),
    }
}

/// The client with what was typed rejected.
pub open spec fn entry_rejected(a: AppView, e: EntryView) -> AppView {
    AppView {
        value_entry: Some(
            EntryView { error: Some("please enter a value between 0 and 100"@), ..e },
        ),
        ..a
    }
}

/// The points to edit: those of the fan, or a starter row.
pub open spec fn starting_points(curve: Seq<CurvePoint>) -> Seq<CurvePoint> {
    if curve.len() == 0 {
        seq![CurvePoint { temp: 0, duty: 0 }]
    } else {
        curve
    }
}

/// The client with the curve editor opened for the selected fan.
pub open spec fn editor_opened(a: AppView) -> AppView {
    match a.selected_fan() {
        None => AppView { status: waiting(), ..a },
        Some(f) => {
            let points = starting_points(f.curve);
            AppView {
                curve_editor: Some(
                    EditorView {
                        points,
                        row: 0,
                        field: 0,
                        text: quantity::shown(points[0].temp as int),
                        default_mode: f.default_mode,
                        error: None,
                        saving: false,
                    },
                ),
                ..a
            }
        },
    }
}

/// The client after a save was asked for: the active field is committed and
/// the curve checked; then it goes to the daemon, and the dialog is locked.
pub open spec fn save_requested(a: AppView, e: EditorView) -> (AppView, Option<RequestView>) {
    let (c, ok) = editor::committed(e);
    if !ok {
        (AppView { curve_editor: Some(c), ..a }, None)
    } else if editor::objection(c.points) is Some {
        (
            AppView {
                curve_editor: Some(EditorView { error: editor::objection(c.points), ..c }),
                ..a
            },
            None,
        )
    } else if a.job is Some {
        (
            AppView {
                curve_editor: Some(
                    EditorView {
                        error: Some("a request is already in flight; try again"@),
                        ..c
                    },
                ),
                ..a
            },
            None,
        )
    } else {
        (
            AppView {
                curve_editor: Some(EditorView { saving: true, ..c }),
                job: Some(Job::SaveConfig),
                ..a
            },
            Some(
                RequestView::SaveFanConfig {
                    fan: a.selected_id(),
                    curve: c.points,
                    default_mode: c.default_mode,
                },
            ),
        )
    }
}

/// The client after a key in the curve editor. While a save is in flight the
/// dialog is locked.
pub open spec fn editor_keyed(a: AppView, e: EditorView, code: KeyCode) -> (
    AppView,
    Option<RequestView>,
) {
    if e.saving {
        (a, None)
    } else if code == KeyCode::Esc {
        (AppView { curve_editor: None, ..a }, None)
    } else if editor::is_letter(code, 's', 'S') {
        save_requested(a, e)
    } else {
        (AppView { curve_editor: Some(editor::edited(e, code)), ..a }, None)
    }
}

/// The client after a key while no dialog is open.
pub open spec fn main_keyed(a: AppView, code: KeyCode) -> (AppView, Option<RequestView>) {
    if editor::is_letter(code, 'q', 'Q') {
        (AppView { quit: true, ..a }, None)
    } else if code == KeyCode::Char('?') {
        (AppView { show_help: !a.show_help, ..a }, None)
    } else if code == KeyCode::Esc {
        (AppView { show_help: false, ..a }, None)
    } else if code == KeyCode::Up || code == KeyCode::Char('k') || code == KeyCode::Tab {
        (selection_moved(a, -1), None)
    } else if code == KeyCode::Down || code == KeyCode::Char('j') || code == KeyCode::BackTab {
        (selection_moved(a, 1), None)
    } else if editor::is_letter(code, 'a', 'A') {
        mode_requested(a, Mode::Auto)
    } else if editor::is_letter(code, 'f', 'F') {
        mode_requested(a, Mode::Full)
    } else if editor::is_letter(code, 'o', 'O') {
        mode_requested(a, Mode::Off)
    } else if code == KeyCode::Enter {
        (entry_opened(a), None)
    } else if editor::is_letter(code, 'e', 'E') {
        (editor_opened(a), None)
    } else if editor::is_letter(code, 'c', 'C') {
        calibration_requested(a)
    } else if editor::is_letter(code, 's', 'S') {
        (AppView { sorting: !a.sorting, ..a }, None)
    } else if code == KeyCode::PageDown {
        (
            AppView {
                scroll: if a.scroll + 6 > 10000 {
                    10000
                } else {
                    (a.scroll + 6) as usize
                },
                ..a
            },
            None,
        )
    } else if code == KeyCode::PageUp {
        (
            AppView {
                scroll: if a.scroll < 6 {
                    0
                } else {
                    (a.scroll - 6) as usize
                },
                ..a
            },
            None,
        )
    } else if code == KeyCode::End {
        (AppView { scroll: 10000, ..a }, None)
    } else if code == KeyCode::Home {
        (AppView { scroll: 0, ..a }, None)
    } else {
        (a, None)
    }
}

/// The client after a key event, and the request to send. Ctrl+C quits
/// always; the dialogs are modal.
pub open spec fn keyed(a: AppView, k: KeyEvent) -> (AppView, Option<RequestView>) {
    if !k.press {
        (a, None)
    } else if k.code == KeyCode::Char('c') && k.control {
        (AppView { quit: true, ..a }, None)
    } else {
        match a.curve_editor {
            Some(e) => editor_keyed(a, e, k.code),
            None => match a.value_entry {
                Some(e) => if k.code == KeyCode::Esc {
                    (AppView { value_entry: None, ..a }, None)
                } else {
                    entry_keyed(a, e, k.code)
                },
                None => main_keyed(a, k.code),
            },
        }
    }
}

impl App {
    fn say_waiting(&mut self)
        ensures
            final(self)@ == (AppView { status: waiting(), ..old(self)@ }),
    {
        self.status = text::owned("waiting for the first state from fanctld …");
    }

    fn fan_count(&self) -> (r: usize)
        ensures
            r == self@.fans().len(),
    {
        match &self.state {
            Some(s) => s.fans.len(),
            None => 0,
        }
    }

    fn select(&mut self, delta: i8)
        ensures
            final(self)@ == selection_moved(old(self)@, delta as int),
    {
        let n: i128 = self.fan_count() as i128;
        if n == 0 {
            return;
        }
        let sum: i128 = (self.selected as i128) + (delta as i128);
        if sum >= 0 {
            self.selected = (sum % n) as usize;
        } else {
            // A multiple of `n` that brings the sum above 0.
            let k: i128 = 128;
            let up: i128 = sum + k * n;
            proof {
                vstd::arithmetic::div_mod::lemma_mod_multiples_vanish(
                    k as int,
                    sum as int,
                    n as int,
                );
                assert(up == n * k + sum) by (nonlinear_arith)
                    requires
                        up == sum + k * n,
                ;
            }
            self.selected = (up % n) as usize;
        }
    }

    /// Send a mode change for the selected fan. If a poll is in flight, the
    /// change is queued and goes out as soon as that poll finishes.
    fn request_mode(&mut self, mode: Mode) -> (r: Option<Request>)
        ensures
            (final(self)@, r.deep_view()) == mode_requested(old(self)@, mode),
    {
        if self.state.is_none() {
            self.say_waiting();
            return None;
        }
        if self.selected >= self.fan_count() {
            return None;
        }
        let fan = self.selected_id();
        let polling = match self.job {
            Some(Job::GetState) => true,
            _ => false,
        };
        if polling {
            self.pending_mode = Some((fan, mode));
            None
        } else {
            self.job = Some(Job::SetMode);
            Some(Request::SetMode { fan, mode })
        }
    }

    /// Ask the daemon to calibrate the selected fan.
    fn start_calibrate(&mut self) -> (r: Option<Request>)
        ensures
            (final(self)@, r.deep_view()) == calibration_requested(old(self)@),
    {
        let sweeping = match &self.state {
            Some(s) => s.sweeping.is_some(),
            None => {
                self.say_waiting();
                return None;
            },
        };
        if self.selected >= self.fan_count() {
            return None;
        }
        if self.job.is_some() {
            self.status = text::owned("fanctld is busy with the previous command");
            return None;
        }
        if sweeping {
            self.status = text::owned("a calibration sweep is already running");
            return None;
        }
        let fan = self.selected_id();
        self.job = Some(Job::Sweep);
        Some(Request::Sweep { fan, step: None, settle: None })
    }

    /// Open the "set exact duty" dialog for the selected fan.
    fn open_value_entry(&mut self)
        ensures
            final(self)@ == entry_opened(old(self)@),
    {
        if self.fan_count() == 0 {
            self.say_waiting();
            return;
        }
        self.value_entry = Some(ValueEntry::default());
    }

    /// Handle a keystroke in the open value dialog (digits, backspace, or
    /// Enter to submit).
    fn on_value_key(&mut self, entry: ValueEntry, code: KeyCode) -> (r: Option<Request>)
        requires
            old(self)@.value_entry is None,
        ensures
            (final(self)@, r.deep_view()) == entry_keyed(
                AppView { value_entry: Some(entry@), ..old(self)@ },
                entry@,
                code,
            ),
    {
        let mut e = entry;
        match code {
            KeyCode::Backspace => {
                let _last = e.text.pop();
                e.error = None;
                self.value_entry = Some(e);
                None
            },
            KeyCode::Char(c) => {
                if text::is_digit(c) && text::chars_of(e.text.as_str()).len() < 3 {
                    e.text.push(c);
                    e.error = None;
                }
                self.value_entry = Some(e);
                None
            },
            KeyCode::Enter => {
                match number::parse_u64(e.text.as_str(), 65535) {
                    Some(v) => {
                        if v <= 100 {
                            return self.request_mode(Mode::Manual { percent: v as u8 });
                        }
                    },
                    None => {},
                }
                e.error = Some(text::owned("please enter a value between 0 and 100"));
                self.value_entry = Some(e);
                None
            },
            _ => {
                self.value_entry = Some(e);
                None
            },
        }
    }

    /// Open the curve/default-mode editor for the selected fan.
    fn open_curve_editor(&mut self)
        ensures
            final(self)@ == editor_opened(old(self)@),
    {
        let (curve, default_mode) = match &self.state {
            Some(s) if self.selected < s.fans.len() => {
                assert(s.fans.deep_view()[self.selected as int]
                    == s.fans@[self.selected as int]@);
                (
                    curve::copy_points(&s.fans[self.selected].curve),
                    s.fans[self.selected].default_mode,
                )
            },
            _ => {
                self.say_waiting();
                return;
            },
        };
        let mut points = curve;
        if points.len() == 0 {
            points.push(CurvePoint::new(0, 0));
            assert(points@ =~= seq![CurvePoint { temp: 0, duty: 0 }]);
        }
        let text = quantity::quantity_text(points[0].temp);
        self.curve_editor = Some(
            CurveEditor {
                points,
                row: 0,
                field: 0,
                text,
                default_mode,
                error: None,
                saving: false,
            },
        );
    }

    /// Validate the edited curve and send it to the daemon (which persists
    /// it). If the commit of the active field fails, the dialog stays open
    /// with the error.
    fn editor_save(&mut self, ed: CurveEditor) -> (r: Option<Request>)
        requires
            old(self)@.curve_editor is None,
        ensures
            (final(self)@, r.deep_view()) == save_requested(
                AppView { curve_editor: Some(ed@), ..old(self)@ },
                ed@,
            ),
    {
        let mut ed = ed;
        if !ed.commit_field() {
            self.curve_editor = Some(ed);
            return None;
        }
        match ed.validate() {
            Some(why) => {
                ed.error = Some(why);
                self.curve_editor = Some(ed);
                return None;
            },
            None => {},
        }
        if self.job.is_some() {
            ed.error = Some(text::owned("a request is already in flight; try again"));
            self.curve_editor = Some(ed);
            return None;
        }
        let curve = curve::copy_points(&ed.points);
        let default_mode = ed.default_mode;
        let fan = self.selected_id();
        ed.saving = true;
        self.curve_editor = Some(ed);
        self.job = Some(Job::SaveConfig);
        Some(Request::SaveFanConfig { fan, curve, default_mode })
    }

    /// Handle a keystroke in the open curve editor.
    fn on_editor_key(&mut self, ed: CurveEditor, code: KeyCode) -> (r: Option<Request>)
        requires
            old(self)@.curve_editor is None,
            ed@.valid(),
        ensures
            (final(self)@, r.deep_view()) == editor_keyed(
                AppView { curve_editor: Some(ed@), ..old(self)@ },
                ed@,
                code,
            ),
    {
        let mut ed = ed;
        if ed.saving {
            self.curve_editor = Some(ed);
            return None;
        }
        match code {
            KeyCode::Esc => None,
            KeyCode::Char(c) => {
                if c == 's' || c == 'S' {
                    return self.editor_save(ed);
                }
                ed.edit(code);
                self.curve_editor = Some(ed);
                None
            },
            _ => {
                ed.edit(code);
                self.curve_editor = Some(ed);
                None
            },
        }
    }

    fn on_main_key(&mut self, code: KeyCode) -> (r: Option<Request>)
        ensures
            (final(self)@, r.deep_view()) == main_keyed(old(self)@, code),
    {
        match code {
            KeyCode::Char(c) => {
                if c == 'q' || c == 'Q' {
                    self.quit = true;
                } else if c == '?' {
                    self.show_help = !self.show_help;
                } else if c == 'k' {
                    self.select(-1);
                } else if c == 'j' {
                    self.select(1);
                } else if c == 'a' || c == 'A' {
                    return self.request_mode(Mode::Auto);
                } else if c == 'f' || c == 'F' {
                    return self.request_mode(Mode::Full);
                } else if c == 'o' || c == 'O' {
                    return self.request_mode(Mode::Off);
                } else if c == 'e' || c == 'E' {
                    self.open_curve_editor();
                } else if c == 'c' || c == 'C' {
                    return self.start_calibrate();
                } else if c == 's' || c == 'S' {
                    self.sorting = !self.sorting;
                }
            },
            KeyCode::Esc => {
                self.show_help = false;
            },
            KeyCode::Up => {
                self.select(-1);
            },
            KeyCode::Tab => {
                self.select(-1);
            },
            KeyCode::Down => {
                self.select(1);
            },
            KeyCode::BackTab => {
                self.select(1);
            },
            KeyCode::Enter => {
                self.open_value_entry();
            },
            KeyCode::PageDown => {
                self.scroll = if self.scroll > 9994 {
                    10000
                } else {
                    self.scroll + 6
                };
            },
            KeyCode::PageUp => {
                self.scroll = if self.scroll < 6 {
                    0
                } else {
                    self.scroll - 6
                };
            },
            KeyCode::End => {
                self.scroll = 10000;
            },
            KeyCode::Home => {
                self.scroll = 0;
            },
            _ => {},
        }
        None
    }

    /// Handle a key event; the result is the request to send, if any.
    pub fn on_key(&mut self, k: KeyEvent) -> (r: Option<Request>)
        requires
            old(self)@.valid(),
        ensures
            (final(self)@, r.deep_view()) == keyed(old(self)@, k),
            final(self)@.valid(),
    {
        proof {
            law_client_stays_valid(self@, k, None, 0);
        }
        if !k.press {
            return None;
        }
        // In raw mode Ctrl+C is a key event, not a signal.
        let quits = match k.code {
            KeyCode::Char(c) => c == 'c' && k.control,
            _ => false,
        };
        if quits {
            self.quit = true;
            return None;
        }
        let ghost before = self@;
        match self.curve_editor.take() {
            Some(ed) => {
                return self.on_editor_key(ed, k.code);
            },
            None => {},
        }
        match self.value_entry.take() {
            Some(e) => {
                let cancels = match k.code {
                    KeyCode::Esc => true,
                    _ => false,
                };
                if cancels {
                    return None;
                }
                return self.on_value_key(e, k.code);
            },
            None => {},
        }
        assert(self@ == before);
        self.on_main_key(k.code)
    }
}

// ---- what is shown in the status line -------------------------------------

/// The note of a recently finished sweep: shown for 60 s after it first
/// appeared.
pub open spec fn note(a: AppView, state: StateView, now: u64) -> Option<Seq<char>> {
    match (a.sweep_report_at, state.sweep) {
        (Some(at), Some(r)) => if now - at < NOTE_TIME {
            Some(r.note)
        } else {
            None
        },
        _ => None,
    }
}

impl App {
    /// The note of a recently finished calibration sweep (its result is shown
    /// in the status line for 60 s after it first appears).
    pub fn recent_sweep_note<'a>(&self, state: &'a State, now: u64) -> (r: Option<&'a str>)
        ensures
            r.deep_view() == note(self@, state@, now),
    {
        match self.sweep_report_at {
            Some(at) => {
                if now >= at && now - at >= NOTE_TIME {
                    return None;
                }
                match &state.sweep {
                    Some(r) => Some(r.note.as_str()),
                    None => None,
                }
            },
            None => None,
        }
    }
}

// ---- laws -----------------------------------------------------------------

/// No key and no reply leaves an open curve editor without a point.
pub proof fn law_client_stays_valid(
    a: AppView,
    k: KeyEvent,
    reply: Option<ReplyView>,
    now: u64,
)
    requires
        a.valid(),
    ensures
        keyed(a, k).0.valid(),
        stepped(a, reply, now).0.valid(),
{
    match a.curve_editor {
        Some(e) => {
            assert(editor::committed(e).0.points.len() == e.points.len());
            assert(editor::edited(e, k.code).valid());
        },
        None => {},
    }
}

/// The dialogs are modal: while one is open, no key but Ctrl+C quits, and no
/// key but those that submit it sends anything.
pub proof fn law_dialogs_are_modal(a: AppView, k: KeyEvent)
    requires
        a.curve_editor is Some || a.value_entry is Some,
        !a.quit,
        !(k.code == KeyCode::Char('c') && k.control),
    ensures
        !keyed(a, k).0.quit,
        keyed(a, k).1 is Some && a.curve_editor is Some ==> editor::is_letter(k.code, 's', 'S'),
        keyed(a, k).1 is Some && a.curve_editor is None ==> k.code == KeyCode::Enter,
        keyed(a, k).0.selected == a.selected,
        keyed(a, k).0.sorting == a.sorting,
        keyed(a, k).0.scroll == a.scroll,
{
}

/// Ctrl+C quits whatever is open; Esc closes an open dialog that is not
/// saving, and sends nothing.
pub proof fn law_ways_out(a: AppView, control: bool)
    ensures
        keyed(a, KeyEvent { code: KeyCode::Char('c'), control: true, press: true }).0.quit,
        ({
            let (b, sent) = keyed(a, KeyEvent { code: KeyCode::Esc, control, press: true });
            &&& sent is None
            &&& a.curve_editor matches Some(e) ==> (!e.saving ==> b.curve_editor is None)
            &&& a.curve_editor is None && a.value_entry is Some ==> b.value_entry is None
        }),
{
}

/// While a save is in flight the curve editor is locked: no key changes
/// anything, except Ctrl+C.
pub proof fn law_saving_locks_the_editor(a: AppView, k: KeyEvent)
    requires
        a.curve_editor matches Some(e) && e.saving,
        !(k.code == KeyCode::Char('c') && k.control),
    ensures
        keyed(a, k) == (a, None::<RequestView>),
{
}

/// There is one request at a time: a request goes out exactly when one comes
/// into flight, and a step of the loop sends none while another is in flight
/// and unanswered.
pub proof fn law_one_request_at_a_time(a: AppView, reply: Option<ReplyView>, now: u64)
    ensures
        stepped(a, reply, now).1 is Some ==> stepped(a, reply, now).0.job is Some,
        a.job is Some && reply is None ==> stepped(a, reply, now) == (a, None::<RequestView>),
        a.job is Some && reply is Some ==> (stepped(a, reply, now).0.job is Some
            <==> stepped(a, reply, now).1 is Some),
{
}

/// A mode asked for while a poll is in flight is not lost: it goes out when
/// the poll is answered, however it is answered.
pub proof fn law_queued_mode_goes_out(a: AppView, mode: Mode, reply: ReplyView, now: u64)
    requires
        a.job == Some(Job::GetState),
        a.state is Some,
        a.selected_fan() is Some,
    ensures
        ({
            let (b, sent) = mode_requested(a, mode);
            let (c, later_sent) = stepped(b, Some(reply), now);
            &&& sent is None
            &&& later_sent == Some(RequestView::SetMode { fan: a.selected_id(), mode })
            &&& c.job == Some(Job::SetMode)
            &&& c.pending_mode is None
        }),
{
}

/// After a change of mode was answered, the client polls at once.
pub proof fn law_mode_change_is_polled(a: AppView, reply: ReplyView, now: u64)
    requires
        a.job == Some(Job::SetMode),
        a.pending_mode is None,
    ensures
        stepped(a, Some(reply), now).1 == Some(RequestView::GetState),
{
}

/// A daemon that cannot be reached leaves no state to show, only the reason,
/// and is polled again after half a second.
pub proof fn law_unreachable_daemon(a: AppView, why: Seq<char>, now: u64, then: u64)
    requires
        a.job == Some(Job::GetState),
        a.pending_mode is None,
        now + RETRY_WAIT <= then,
    ensures
        ({
            let b = pumped(a, Some(ReplyView::Failed(why)), now).0;
            &&& b.state is None
            &&& b.status == unreachable(why)
            &&& b.job is None
            &&& stepped(b, None, then).1 == Some(RequestView::GetState)
        }),
{
}

/// What is typed into the duty dialog is sent as typed: the decimal digits of
/// a number from 0 to 100 ask for that duty.
pub proof fn law_typed_duty_is_sent(a: AppView, p: nat)
    requires
        a.value_entry matches Some(e) && e.text == number::decimal(p),
        a.curve_editor is None,
        a.state is Some,
        a.selected_fan() is Some,
        a.job is None,
        p <= 100,
    ensures
        ({
            let (b, sent) = keyed(
                a,
                KeyEvent { code: KeyCode::Enter, control: false, press: true },
            );
            &&& b.value_entry is None
            &&& sent == Some(
                RequestView::SetMode {
                    fan: a.selected_id(),
                    mode: Mode::Manual { percent: p as u8 },
                },
            )
        }),
{
    number::law_decimal_round_trip(p, 65535);
}

/// The selection always names a fan, as long as there is one, once it moved.
pub proof fn law_selection_in_range(a: AppView, delta: int)
    requires
        0 < a.fans().len() <= usize::MAX,
    ensures
        selection_moved(a, delta).selected < a.fans().len(),
        a.selected < a.fans().len() ==> selection_moved(
            selection_moved(a, delta),
            -delta,
        ).selected == a.selected,
{
    let n = a.fans().len() as int;
    vstd::arithmetic::div_mod::lemma_mod_bound(a.selected + delta, n);
    let s = (a.selected + delta) % n;
    vstd::arithmetic::div_mod::lemma_mod_bound(s - delta, n);
    if a.selected < n {
        vstd::arithmetic::div_mod::lemma_sub_mod_noop(a.selected + delta, delta, n);
        vstd::arithmetic::div_mod::lemma_sub_mod_noop_right(s, delta, n);
        vstd::arithmetic::div_mod::lemma_small_mod(a.selected as nat, n as nat);
    }
}

} // verus!
