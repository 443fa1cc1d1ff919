//! What the client shows: the fan block, a status line, the temperature bars,
//! and the popups, as lines of styled text. All of it is made from the last
//! [`State`] served by the daemon; the caller puts it on the terminal.

use vstd::prelude::*;
use crate::config::types::InitialMode;
use crate::ipc::{FanState, FanStateView, State, StateView, Temp, TempView};
use crate::number;
use crate::order;
use crate::quantity;
use crate::quantity::FULL;
use crate::text;
use crate::tui::app;
use crate::tui::app::{App, AppView, EntryView, ValueEntry};
use crate::tui::editor::{CurveEditor, EditorView};

verus! {

/// A foreground colour.
#[derive(Debug, Clone, Copy, PartialEq, Eq, Structural)]
pub enum Colour {
    /// The terminal's own.
    Plain,
    DarkGray,
    Red,
    Cyan,
    /// Light bar colours.
    GreenLight,
    YellowLight,
    RedLight,
    /// Dark bar colours.
    GreenDark,
    YellowDark,
    RedDark,
}

impl Colour {
    /// The red, green and blue parts of a bar colour.
    pub open spec fn spec_rgb(self) -> Option<(u8, u8, u8)> {
        match self {
            Colour::GreenLight => Some((165, 183, 0)),
            Colour::YellowLight => Some((227, 168, 43)),
            Colour::RedLight => Some((204, 31, 26)),
            Colour::GreenDark => Some((68, 68, 37)),
            Colour::YellowDark => Some((94, 78, 40)),
            Colour::RedDark => Some((76, 32, 32)),
            _ => None,
        }
    }

    /// The red, green and blue parts of a bar colour.
    pub fn rgb(self) -> (r: Option<(u8, u8, u8)>)
        ensures
            r == self.spec_rgb(),
    {
        match self {
            Colour::GreenLight => Some((165, 183, 0)),
            Colour::YellowLight => Some((227, 168, 43)),
            Colour::RedLight => Some((204, 31, 26)),
            Colour::GreenDark => Some((68, 68, 37)),
            Colour::YellowDark => Some((94, 78, 40)),
            Colour::RedDark => Some((76, 32, 32)),
            _ => None,
        }
    }
}

/// How a piece of text is drawn.
#[derive(Debug, Clone, Copy, PartialEq, Eq, Structural)]
pub struct Style {
    pub colour: Colour,
    pub reversed: bool,
    pub bold: bool,
}

/// A piece of text in one style.
#[derive(Debug, PartialEq)]
pub struct Span {
    pub text: String,
    pub style: Style,
}

/// A [`Span`] with its text as a character sequence.
pub struct SpanView {
    pub text: Seq<char>,
    pub style: Style,
}

impl View for Span {
    type V = SpanView;

    open spec fn view(&self) -> SpanView {
        SpanView { text: self.text@, style: self.style }
    }
}

impl DeepView for Span {
    type V = SpanView;

    open spec fn deep_view(&self) -> SpanView {
        self.view()
    }
}

/// A line of text.
#[derive(Debug, PartialEq)]
pub struct Line {
    pub spans: Vec<Span>,
}

impl View for Line {
    type V = Seq<SpanView>;

    open spec fn view(&self) -> Seq<SpanView> {
        self.spans.deep_view()
    }
}

impl DeepView for Line {
    type V = Seq<SpanView>;

    open spec fn deep_view(&self) -> Seq<SpanView> {
        self.view()
    }
}

/// Plain text.
pub open spec fn plain() -> Style {
    Style { colour: Colour::Plain, reversed: false, bold: false }
}

/// Text in a colour.
pub open spec fn coloured(colour: Colour) -> Style {
    Style { colour, reversed: false, bold: false }
}

/// Plain text, or reversed where it is active.
pub open spec fn active_style(active: bool) -> Style {
    Style { colour: Colour::Plain, reversed: active, bold: false }
}

/// A line of one span.
pub open spec fn one(text: Seq<char>, style: Style) -> Seq<SpanView> {
    seq![SpanView { text, style }]
}

fn style_of(colour: Colour, reversed: bool) -> (r: Style)
    ensures
        r == (Style { colour, reversed, bold: false }),
{
    Style { colour, reversed, bold: false }
}

fn line_of(text: String, style: Style) -> (r: Line)
    ensures
        r@ == one(text@, style),
{
    let mut spans: Vec<Span> = Vec::new();
    let s = Span { text, style };
    let ghost v = s@;
    spans.push(s);
    let r = Line { spans };
    assert(r@ =~= seq![v]);
    r
}

fn plain_line(s: &str) -> (r: Line)
    ensures
        r@ == one(s@, plain()),
{
    line_of(text::owned(s), style_of(Colour::Plain, false))
}

fn add_span(line: &mut Line, text: String, style: Style)
    ensures
        final(line)@ == old(line)@.push(SpanView { text: text@, style }),
{
    let ghost before = line@;
    let s = Span { text, style };
    let ghost v = s@;
    line.spans.push(s);
    assert(line@ =~= before.push(v));
}

fn add_line(out: &mut Vec<Line>, line: Line)
    ensures
        final(out).deep_view() == old(out).deep_view().push(line@),
{
    let ghost before = out.deep_view();
    let ghost v = line@;
    out.push(line);
    assert(out.deep_view() =~= before.push(v));
}

/// What is on the screen: the fan block, the status line and the temperatures
/// where there is a state, or else a notice; and on top of it the popups, in
/// this order.
#[derive(Debug, Clone, Copy, PartialEq, Eq, Structural)]
pub struct Parts {
    /// The height of the fan block; `None` without a state.
    pub fans: Option<u16>,
    pub help: bool,
    pub value_entry: bool,
    pub curve_editor: bool,
}

/// What is on the screen.
pub open spec fn parts_of(a: AppView) -> Parts {
    Parts {
        fans: match a.state {
            Some(s) => Some(quantity::clamped(s.fans.len() as int + 2, 0, u16::MAX as int) as u16),
            None => None,
        },
        help: a.show_help,
        value_entry: a.value_entry is Some,
        curve_editor: a.curve_editor is Some,
    }
}

/// What is on the screen.
pub fn draw(a: &App) -> (r: Parts)
    ensures
        r == parts_of(a@),
{
    Parts {
        fans: match &a.state {
            Some(s) => if s.fans.len() > 65533 {
                Some(65535)
            } else {
                Some((s.fans.len() as u16) + 2)
            },
            None => None,
        },
        help: a.show_help,
        value_entry: a.value_entry.is_some(),
        curve_editor: a.curve_editor.is_some(),
    }
}

// ---- fans -----------------------------------------------------------------

/// The row of a fan.
pub open spec fn fan_row(f: FanStateView, selected: bool, sweeping: Option<Seq<char>>) -> Seq<
    SpanView,
> {
    let style = active_style(selected);
    let marker = if selected {
        ">"@
    } else {
        " "@
    };
    let duty = match f.duty {
        Some(d) => text::flush_right(quantity::shown_whole(d as int), 4) + "%"@,
        None => "  n/a"@,
    };
    let rpm = match f.rpm {
        Some(r) => text::flush_right(number::decimal(r as nat), 6) + " rpm"@,
        None => "     -"@,
    };
    let base = seq![
        SpanView { text: text::flush_left(marker, 5) + f.label + "  "@, style },
        SpanView { text: text::flush_left(f.mode.spec_label(), 8), style },
        SpanView { text: duty + "  "@, style },
        SpanView { text: rpm, style },
    ];
    let with_err = match f.err {
        Some(e) => base.push(
            SpanView { text: "  "@ + e, style: Style { colour: Colour::Red, ..style } },
        ),
        None => base,
    };
    if sweeping == Some(f.id) {
        with_err.push(
            SpanView {
                text: "  calibrating…"@,
                style: Style { colour: Colour::Cyan, ..style },
            },
        )
    } else {
        with_err
    }
}

/// The rows of the fan block.
pub open spec fn fan_rows(state: StateView, selected: usize) -> Seq<Seq<SpanView>> {
    if state.fans.len() == 0 {
        seq![one("  no controllable PWM channels in the config"@, plain())]
    } else {
        Seq::new(
            state.fans.len(),
            |i: int| fan_row(state.fans[i], i == selected, state.sweeping),
        )
    }
}

fn draw_fan(f: &FanState, selected: bool, sweeping: &Option<String>) -> (r: Line)
    ensures
        r@ == fan_row(f@, selected, sweeping.deep_view()),
{
    let style = style_of(Colour::Plain, selected);
    let marker = if selected {
        text::pad_right(">", 5)
    } else {
        text::pad_right(" ", 5)
    };
    let duty = match f.duty {
        Some(d) => {
            let w = quantity::whole_text(d);
            let w = text::pad_left(w.as_str(), 4);
            text::cat(w.as_str(), "%")
        },
        None => text::owned("  n/a"),
    };
    let rpm = match f.rpm {
        Some(v) => {
            let w = number::u64_text(v as u64);
            let w = text::pad_left(w.as_str(), 6);
            text::cat(w.as_str(), " rpm")
        },
        None => text::owned("     -"),
    };
    let mode = f.mode.label();
    let mut line = line_of(text::cat3(marker.as_str(), f.label.as_str(), "  "), style);
    add_span(&mut line, text::pad_right(mode.as_str(), 8), style);
    add_span(&mut line, text::cat(duty.as_str(), "  "), style);
    add_span(&mut line, rpm, style);
    assert(line@ =~= fan_row(FanStateView { err: None, ..f@ }, selected, None));
    match &f.err {
        Some(e) => {
            add_span(&mut line, text::cat("  ", e.as_str()), style_of(Colour::Red, selected));
        },
        None => {},
    }
    match sweeping {
        Some(id) => {
            if text::str_eq(id.as_str(), f.id.as_str()) {
                add_span(
                    &mut line,
                    text::owned("  calibrating…"),
                    style_of(Colour::Cyan, selected),
                );
            }
        },
        None => {},
    }
    line
}

/// The rows of the fan block.
pub fn draw_fans(state: &State, selected: usize) -> (r: Vec<Line>)
    ensures
        r.deep_view() == fan_rows(state@, selected),
{
    let mut out: Vec<Line> = Vec::new();
    assert(out.deep_view() =~= Seq::<Seq<SpanView>>::empty());
    if state.fans.len() == 0 {
        add_line(&mut out, plain_line("  no controllable PWM channels in the config"));
        assert(out.deep_view() =~= fan_rows(state@, selected));
        return out;
    }
    let ghost fans = state.fans.deep_view();
    let mut i: usize = 0;
    while i < state.fans.len()
        invariant
            i <= state.fans@.len(),
            fans == state.fans.deep_view(),
            out@.len() == i,
            forall|j: int|
                0 <= j < i ==> (#[trigger] out@[j])@ == fan_row(
                    fans[j],
                    j == selected,
                    state@.sweeping,
                ),
        decreases state.fans@.len() - i,
    {
        assert(fans[i as int] == state.fans@[i as int]@);
        out.push(draw_fan(&state.fans[i], i == selected, &state.sweeping));
        i += 1;
    }
    assert(out.deep_view() =~= fan_rows(state@, selected));
    out
}

// ---- the status line ------------------------------------------------------

/// The key hints.
pub open spec fn hints() -> Seq<char> {
    " ↑↓ select   a/f/o = auto/full/off   Enter = %   e edit   c calibrate   s sort   ? help   q quit "@
}

/// What the status line says: a problem of the client, a sweep in progress,
/// the result of a recent one, the daemon's last error, or the key hints.
pub open spec fn status_text(a: AppView, state: StateView, now: u64) -> Seq<char> {
    if a.status.len() > 0 {
        a.status
    } else if state.sweeping is Some {
        state.sweeping->0 + ": calibrating (0→100 %) …"@
    } else if app::note(a, state, now) is Some {
        app::note(a, state, now)->0
    } else if state.status.len() > 0 {
        state.status
    } else {
        hints()
    }
}

/// The status line: hints in grey, information on a sweep in cyan, the rest
/// in red.
pub open spec fn status_line(a: AppView, state: StateView, now: u64) -> SpanView {
    let shown = status_text(a, state, now);
    SpanView {
        text: shown,
        style: coloured(
            if text::begins_with(shown, " ↑↓"@) {
                Colour::DarkGray
            } else if a.status.len() == 0 && (state.sweeping is Some || app::note(a, state, now)
                is Some) {
                Colour::Cyan
            } else {
                Colour::Red
            },
        ),
    }
}

fn is_empty(s: &String) -> (r: bool)
    ensures
        r == (s@.len() == 0),
{
    text::chars_of(s.as_str()).len() == 0
}

/// The status line.
pub fn draw_status(a: &App, state: &State, now: u64) -> (r: Span)
    ensures
        r@ == status_line(a@, state@, now),
{
    let recent = a.recent_sweep_note(state, now);
    let shown = if !is_empty(&a.status) {
        a.status.clone()
    } else {
        match &state.sweeping {
            Some(fan) => text::cat(fan.as_str(), ": calibrating (0→100 %) …"),
            None => match recent {
                Some(n) => text::owned(n),
                None => if !is_empty(&state.status) {
                    state.status.clone()
                } else {
                    text::owned(
                        " ↑↓ select   a/f/o = auto/full/off   Enter = %   e edit   c calibrate   s sort   ? help   q quit ",
                    )
                },
            },
        }
    };
    let colour = if text::starts_with(shown.as_str(), " ↑↓") {
        Colour::DarkGray
    } else if is_empty(&a.status) && (state.sweeping.is_some() || recent.is_some()) {
        Colour::Cyan
    } else {
        Colour::Red
    };
    Span { text: shown, style: style_of(colour, false) }
}

// ---- temperatures ---------------------------------------------------------

/// What a reading counts as when sorting: a missing one is coldest.
pub open spec fn heat(t: TempView) -> int {
    match t.celsius {
        Some(c) => c as int,
        None => -999_000_000_000,
    }
}

/// The order of readings when sorted: the hottest first.
pub open spec fn hotter() -> spec_fn(TempView, TempView) -> bool {
    |a: TempView, b: TempView| heat(b) <= heat(a)
}

/// The readings as they are listed.
pub open spec fn listed(temps: Seq<TempView>, sorting: bool) -> Seq<TempView> {
    if sorting {
        order::sorted_by(temps, hotter())
    } else {
        temps
    }
}

/// The colour of a bar's cell, given how far along the bar it is: `i` cells
/// out of `width`.
pub open spec fn cell_colour(i: int, width: int, lit: bool) -> Colour {
    if i * 100 < 45 * width {
        if lit {
            Colour::GreenLight
        } else {
            Colour::GreenDark
        }
    } else if i * 100 < 75 * width {
        if lit {
            Colour::YellowLight
        } else {
            Colour::YellowDark
        }
    } else {
        if lit {
            Colour::RedLight
        } else {
            Colour::RedDark
        }
    }
}

/// How much of a bar a reading lights, as a share of [`FULL`]: 0 to 100
/// degrees over the whole bar.
pub open spec fn lit_share(celsius: Option<i64>) -> int {
    match celsius {
        Some(c) => quantity::clamped(c as int, 0, FULL as int),
        None => 0,
    }
}

/// A cell of a reading's bar.
pub open spec fn cell(celsius: Option<i64>, i: int, width: int) -> SpanView {
    SpanView {
        text: "▀"@,
        style: coloured(cell_colour(i, width, i * FULL < lit_share(celsius) * width)),
    }
}

/// The width of the bars in a block of a given inner width.
pub open spec fn bar_width(inner_w: u16) -> int {
    if inner_w <= 43 {
        1
    } else {
        inner_w - 42
    }
}

/// The row of a reading: its label, its bar, its value.
pub open spec fn temp_row(t: TempView, width: int) -> Seq<SpanView> {
    let value = match t.celsius {
        Some(c) => text::flush_right(
            number::signed_decimal(quantity::nearest_whole(c as int)),
            6,
        ) + "°C"@,
        None => "    n/a"@,
    };
    seq![SpanView { text: " "@ + text::flush_left(t.label, 33), style: plain() }] + Seq::new(
        width as nat,
        |i: int| cell(t.celsius, i, width),
    ) + seq![SpanView { text: value, style: plain() }]
}

/// The rows of the temperature block, from where it is scrolled to, as many
/// as fit.
pub open spec fn temp_rows(
    temps: Seq<TempView>,
    sorting: bool,
    scroll: usize,
    inner_w: u16,
    inner_h: u16,
) -> Seq<Seq<SpanView>> {
    let rows = listed(temps, sorting);
    let start = quantity::clamped(scroll as int, 0, rows.len() as int);
    let end = quantity::clamped(start + inner_h, 0, rows.len() as int);
    Seq::new((end - start) as nat, |i: int| temp_row(rows[start + i], bar_width(inner_w)))
}

fn heat_of(t: &Temp) -> (r: i64)
    ensures
        r == heat(t@),
{
    match t.celsius {
        Some(c) => c,
        None => -999_000_000_000,
    }
}

/// The places of the readings in the order they are listed.
fn list_order(temps: &Vec<Temp>, sorting: bool) -> (r: Vec<usize>)
    ensures
        r@.len() == temps@.len(),
        forall|i: int| 0 <= i < r@.len() ==> (#[trigger] r@[i]) < temps@.len(),
        r@.map_values(|i: usize| temps.deep_view()[i as int]) == listed(
            temps.deep_view(),
            sorting,
        ),
{
    let ghost ts = temps.deep_view();
    let ghost pick = |i: usize| ts[i as int];
    let mut out: Vec<usize> = Vec::new();
    let mut i: usize = 0;
    assert(ts.take(0) =~= Seq::<TempView>::empty());
    assert(out@.map_values(pick) =~= Seq::<TempView>::empty());
    while i < temps.len()
        invariant
            i <= temps@.len(),
            ts == temps.deep_view(),
            pick == (|i: usize| ts[i as int]),
            out@.len() == i,
            forall|j: int| 0 <= j < i ==> (#[trigger] out@[j]) < temps@.len(),
            out@.map_values(pick) == listed(ts.take(i as int), sorting),
        decreases temps@.len() - i,
    {
        let ghost before = out@.map_values(pick);
        assert(ts[i as int] == temps@[i as int]@);
        proof {
            assert(ts.take(i + 1).drop_last() =~= ts.take(i as int));
            assert(ts.take(i + 1).last() == ts[i as int]);
        }
        if sorting {
            let h = heat_of(&temps[i]);
            let mut at: usize = out.len();
            while at > 0 && heat_of(&temps[out[at - 1]]) < h
                invariant
                    at <= out@.len(),
                    i < temps@.len(),
                    ts == temps.deep_view(),
                    pick == (|i: usize| ts[i as int]),
                    before == out@.map_values(pick),
                    h == heat(ts[i as int]),
                    forall|j: int| 0 <= j < out@.len() ==> (#[trigger] out@[j]) < temps@.len(),
                    forall|j: int| at <= j < out@.len() ==> heat(#[trigger] before[j]) < h,
                decreases at,
            {
                assert(before[at - 1] == temps@[out@[at - 1] as int]@);
                at -= 1;
            }
            proof {
                if at > 0 {
                    assert(before[at - 1] == temps@[out@[at - 1] as int]@);
                }
                order::lemma_placed_at(before, hotter(), ts[i as int], at as int);
            }
            out.insert(at, i);
            assert(out@.map_values(pick) =~= before.insert(at as int, ts[i as int]));
        } else {
            out.push(i);
            assert(out@.map_values(pick) =~= before.push(ts[i as int]));
            assert(ts.take(i + 1) =~= ts.take(i as int).push(ts[i as int]));
        }
        i += 1;
    }
    assert(ts.take(i as int) =~= ts);
    out
}

fn draw_temp(t: &Temp, width: u16) -> (r: Line)
    ensures
        r@ == temp_row(t@, width as int),
{
    let label = text::pad_right(t.label.as_str(), 33);
    let mut line = line_of(text::cat(" ", label.as_str()), style_of(Colour::Plain, false));
    let share: i64 = match t.celsius {
        Some(c) => quantity::clamp(c, 0, FULL),
        None => 0,
    };
    let ghost head = line@;
    let ghost full = |i: int| cell(t@.celsius, i, width as int);
    let mut i: u16 = 0;
    assert(line@ =~= head + Seq::new(0, full));
    while i < width
        invariant
            i <= width,
            share == lit_share(t@.celsius),
            full == (|i: int| cell(t@.celsius, i, width as int)),
            line@ == head + Seq::new(i as nat, full),
        decreases width - i,
    {
        assert(0 <= share * width <= 100_000_000_000 * 65535) by (nonlinear_arith)
            requires
                0 <= share <= 100_000_000_000,
                0 <= width <= 65535,
        ;
        let lit = (i as i64) * FULL < share * (width as i64);
        let place: u32 = (i as u32) * 100;
        let colour = if place < 45 * (width as u32) {
            if lit {
                Colour::GreenLight
            } else {
                Colour::GreenDark
            }
        } else if place < 75 * (width as u32) {
            if lit {
                Colour::YellowLight
            } else {
                Colour::YellowDark
            }
        } else {
            if lit {
                Colour::RedLight
            } else {
                Colour::RedDark
            }
        };
        let ghost before = line@;
        add_span(&mut line, text::owned("▀"), style_of(colour, false));
        assert(line@ =~= before.push(full(i as int)));
        assert(line@ =~= head + Seq::new(i as nat + 1, full));
        i += 1;
    }
    let value = match t.celsius {
        Some(c) => {
            let n = number::i64_text(quantity::nearest(c));
            let n = text::pad_left(n.as_str(), 6);
            text::cat(n.as_str(), "°C")
        },
        None => text::owned("    n/a"),
    };
    add_span(&mut line, value, style_of(Colour::Plain, false));
    assert(line@ =~= temp_row(t@, width as int));
    line
}

/// The rows of the temperature block, for a block of a given inner size.
pub fn draw_temps(state: &State, sorting: bool, scroll: usize, inner_w: u16, inner_h: u16) -> (r:
    Vec<Line>)
    ensures
        r.deep_view() == temp_rows(state@.temps, sorting, scroll, inner_w, inner_h),
{
    let ghost ts = state.temps.deep_view();
    let rows = list_order(&state.temps, sorting);
    let ghost shown = listed(ts, sorting);
    let n = rows.len();
    let start: usize = if scroll > n {
        n
    } else {
        scroll
    };
    let end: usize = if n - start < (inner_h as usize) {
        n
    } else {
        start + (inner_h as usize)
    };
    let width: u16 = if inner_w <= 43 {
        1
    } else {
        inner_w - 42
    };
    let mut out: Vec<Line> = Vec::new();
    let mut i: usize = start;
    while i < end
        invariant
            start <= i <= end <= rows@.len(),
            ts == state.temps.deep_view(),
            rows@.len() == ts.len(),
            width == bar_width(inner_w),
            shown == rows@.map_values(|i: usize| ts[i as int]),
            forall|j: int| 0 <= j < rows@.len() ==> (#[trigger] rows@[j]) < ts.len(),
            out@.len() == i - start,
            forall|j: int|
                0 <= j < out@.len() ==> (#[trigger] out@[j])@ == temp_row(
                    shown[start + j],
                    bar_width(inner_w),
                ),
        decreases end - i,
    {
        assert(shown[i as int] == state.temps@[rows@[i as int] as int]@);
        out.push(draw_temp(&state.temps[rows[i]], width));
        i += 1;
    }
    assert(out.deep_view() =~= temp_rows(ts, sorting, scroll, inner_w, inner_h));
    out
}

// ---- popups ---------------------------------------------------------------

/// Where a popup goes, and how large it is.
#[derive(Debug, Clone, Copy, PartialEq, Eq, Structural)]
pub struct Area {
    pub x: u16,
    pub y: u16,
    pub width: u16,
    pub height: u16,
}

impl Area {
    /// The area lies on a screen whose coordinates are `u16`.
    pub open spec fn valid(self) -> bool {
        self.x + self.width <= u16::MAX && self.y + self.height <= u16::MAX
    }
}

/// A box of the given size, or as much of it as fits, in the middle of an
/// area.
pub open spec fn centred(area: Area, width: int, height: int) -> Area {
    let w = if width < area.width {
        width
    } else {
        area.width as int
    };
    let h = if height < area.height {
        height
    } else {
        area.height as int
    };
    Area {
        x: (area.x + (area.width - w) / 2) as u16,
        y: (area.y + (area.height - h) / 2) as u16,
        width: w as u16,
        height: h as u16,
    }
}

/// A box of the given size in the middle of an area.
pub fn centre(area: Area, width: u16, height: u16) -> (r: Area)
    requires
        area.valid(),
    ensures
        r == centred(area, width as int, height as int),
{
    let w: u16 = if width < area.width {
        width
    } else {
        area.width
    };
    let h: u16 = if height < area.height {
        height
    } else {
        area.height
    };
    Area {
        x: area.x + (area.width - w) / 2,
        y: area.y + (area.height - h) / 2,
        width: w,
        height: h,
    }
}

/// A popup lies inside the area it is centred in.
pub proof fn law_popup_fits(area: Area, width: int, height: int)
    requires
        area.valid(),
        0 <= width,
        0 <= height,
    ensures
        ({
            let r = centred(area, width, height);
            &&& area.x <= r.x && r.x + r.width <= area.x + area.width
            &&& area.y <= r.y && r.y + r.height <= area.y + area.height
            &&& r.width <= width && r.height <= height
        }),
{
}

/// What is shown while there is no state: the problem in red, or in grey that
/// the client is waiting.
pub open spec fn unreachable_line(a: AppView) -> SpanView {
    if a.status.len() == 0 {
        SpanView {
            text: "waiting for the fanctld daemon …"@,
            style: coloured(Colour::DarkGray),
        }
    } else {
        SpanView { text: a.status, style: coloured(Colour::Red) }
    }
}

/// What is shown while there is no state.
pub fn draw_unreachable(a: &App) -> (r: Span)
    ensures
        r@ == unreachable_line(a@),
{
    if is_empty(&a.status) {
        Span {
            text: text::owned("waiting for the fanctld daemon …"),
            style: style_of(Colour::DarkGray, false),
        }
    } else {
        Span { text: a.status.clone(), style: style_of(Colour::Red, false) }
    }
}

/// The lines of the help popup.
pub open spec fn help_lines() -> Seq<Seq<SpanView>> {
    seq![
        one("Fans"@, Style { colour: Colour::Plain, reversed: false, bold: true }),
        one("  ↑↓/jk   Select fan"@, plain()),
        one("  a        Auto (follow curve or kernel)"@, plain()),
        one("  f        Full speed"@, plain()),
        one("  o        Off"@, plain()),
        one("  Enter    Set exact duty (0-100%)"@, plain()),
        one("  e        Edit curve and default mode (s saves)"@, plain()),
        one("  c        Calibrate: find the duty range the fan responds to"@, plain()),
        one(""@, plain()),
        one("Temperatures"@, plain()),
        one("  s        Sort by temperature"@, plain()),
        one("  PgUp/Dn  Scroll"@, plain()),
        one(""@, plain()),
        one("Global"@, plain()),
        one("  ?        Toggle help"@, plain()),
        one("  Esc      Close help"@, plain()),
        one("  q / Ctrl+C   Quit"@, plain()),
    ]
}

/// The lines of the help popup.
pub fn draw_help() -> (r: Vec<Line>)
    ensures
        r.deep_view() == help_lines(),
{
    let mut out: Vec<Line> = Vec::new();
    out.push(
        line_of(
            text::owned("Fans"),
            Style { colour: Colour::Plain, reversed: false, bold: true },
        ),
    );
    out.push(plain_line("  ↑↓/jk   Select fan"));
    out.push(plain_line("  a        Auto (follow curve or kernel)"));
    out.push(plain_line("  f        Full speed"));
    out.push(plain_line("  o        Off"));
    out.push(plain_line("  Enter    Set exact duty (0-100%)"));
    out.push(plain_line("  e        Edit curve and default mode (s saves)"));
    out.push(plain_line("  c        Calibrate: find the duty range the fan responds to"));
    out.push(plain_line(""));
    out.push(plain_line("Temperatures"));
    out.push(plain_line("  s        Sort by temperature"));
    out.push(plain_line("  PgUp/Dn  Scroll"));
    out.push(plain_line(""));
    out.push(plain_line("Global"));
    out.push(plain_line("  ?        Toggle help"));
    out.push(plain_line("  Esc      Close help"));
    out.push(plain_line("  q / Ctrl+C   Quit"));
    assert(out.deep_view() =~= help_lines());
    out
}

/// The label of the selected fan.
pub open spec fn fan_label(a: AppView) -> Seq<char> {
    match a.selected_fan() {
        Some(f) => f.label,
        None => "the selected fan"@,
    }
}

fn label_text(a: &App) -> (r: String)
    ensures
        r@ == fan_label(a@),
{
    match &a.state {
        Some(s) => {
            if a.selected < s.fans.len() {
                assert(s.fans.deep_view()[a.selected as int] == s.fans@[a.selected as int]@);
                return s.fans[a.selected].label.clone();
            }
        },
        None => {},
    }
    text::owned("the selected fan")
}

/// The lines of the "set exact duty" dialog.
pub open spec fn entry_lines(a: AppView, e: EntryView) -> Seq<Seq<SpanView>> {
    let cursor = if e.text.len() == 0 {
        " "@
    } else {
        "▌"@
    };
    seq![
        one(""@, plain()),
        one("  "@ + fan_label(a), plain()),
        one("  New duty (0-100):  "@ + e.text + cursor, plain()),
        match e.error {
            Some(m) => one(m, coloured(Colour::Red)),
            None => one("  "@, plain()),
        },
        one(""@, plain()),
        one("  Enter = apply    Esc = cancel"@, plain()),
    ]
}

/// The lines of the "set exact duty" dialog: the input the user is typing, an
/// error line, and the key hints.
pub fn draw_value_entry(a: &App, e: &ValueEntry) -> (r: Vec<Line>)
    ensures
        r.deep_view() == entry_lines(a@, e@),
{
    let fan = label_text(a);
    let cursor = if is_empty(&e.text) {
        " "
    } else {
        "▌"
    };
    let name = text::cat("  ", fan.as_str());
    let typed = text::cat3("  New duty (0-100):  ", e.text.as_str(), cursor);
    let mut out: Vec<Line> = Vec::new();
    out.push(plain_line(""));
    out.push(plain_line(name.as_str()));
    out.push(plain_line(typed.as_str()));
    match &e.error {
        Some(m) => {
            out.push(line_of(m.clone(), style_of(Colour::Red, false)));
        },
        None => {
            out.push(plain_line("  "));
        },
    }
    out.push(plain_line(""));
    out.push(plain_line("  Enter = apply    Esc = cancel"));
    assert(out.deep_view() =~= entry_lines(a@, e@));
    out
}

/// A field of a point in the curve editor: what is being typed where the
/// cursor is, or else its value.
pub open spec fn field_text(e: EditorView, i: int, field: usize) -> Seq<char> {
    if i == e.row && e.field == field {
        e.text + "▌"@
    } else if field == 0 {
        quantity::shown(e.points[i].temp as int)
    } else {
        quantity::shown(e.points[i].duty as int)
    }
}

/// The row of a point in the curve editor.
pub open spec fn point_row(e: EditorView, i: int) -> Seq<SpanView> {
    let current = i == e.row;
    let marker = if current {
        ">"@
    } else {
        " "@
    };
    seq![
        SpanView { text: marker + " "@, style: plain() },
        SpanView {
            text: " "@ + text::flush_right(field_text(e, i, 0), 6) + "  "@,
            style: active_style(current && e.field == 0),
        },
        SpanView {
            text: text::flush_right(field_text(e, i, 1), 6),
            style: active_style(current && e.field == 1),
        },
    ]
}

/// The name of an initial mode.
pub open spec fn initial_name(m: InitialMode) -> Seq<char> {
    match m {
        InitialMode::Auto => "auto"@,
        InitialMode::Off => "off"@,
        InitialMode::Full => "full"@,
    }
}

/// The lines of the curve editor: a header, the points, the default mode, an
/// error where there is one, and the key hints.
pub open spec fn editor_lines(e: EditorView) -> Seq<Seq<SpanView>> {
    let marker = if e.on_default_row() {
        ">"@
    } else {
        " "@
    };
    let head = seq![one("    temp    duty"@, plain())];
    let rows = Seq::new(e.points.len(), |i: int| point_row(e, i));
    let default = seq![
        one(
            marker + " default:  "@ + initial_name(e.default_mode),
            active_style(e.on_default_row()),
        ),
    ];
    let error = match e.error {
        Some(m) => seq![one(m, coloured(Colour::Red))],
        None => Seq::empty(),
    };
    let keys = seq![
        one(
            if e.saving {
                "  saving …"@
            } else {
                "  a=add x=del u/d=move  s=save  esc=cancel"@
            },
            plain(),
        ),
    ];
    head + rows + default + error + keys
}

/// The title of the curve editor.
pub open spec fn editor_title(a: AppView, e: EditorView) -> Seq<char> {
    if e.saving {
        " Saving "@
    } else {
        " Edit "@ + fan_label(a) + " "@
    }
}

/// The title of the curve editor.
pub fn title_of_editor(a: &App, e: &CurveEditor) -> (r: String)
    ensures
        r@ == editor_title(a@, e@),
{
    if e.saving {
        text::owned(" Saving ")
    } else {
        let fan = label_text(a);
        text::cat3(" Edit ", fan.as_str(), " ")
    }
}

/// The height of the curve editor: header, points, default, error, hints.
pub open spec fn editor_height(points: nat) -> int {
    points as int + 7
}

/// The height of the curve editor; a list longer than any screen counts as
/// the tallest screen.
pub fn height_of_editor(e: &CurveEditor) -> (r: u16)
    ensures
        r == quantity::clamped(editor_height(e@.points.len()), 0, u16::MAX as int),
{
    if e.points.len() > 65528 {
        65535
    } else {
        (e.points.len() as u16) + 7
    }
}

fn field_cell(e: &CurveEditor, i: usize, field: usize) -> (r: String)
    requires
        i < e.points@.len(),
    ensures
        r@ == text::flush_right(field_text(e@, i as int, field), 6),
{
    let shown = if i == e.row && e.field == field {
        text::cat(e.text.as_str(), "▌")
    } else if field == 0 {
        quantity::quantity_text(e.points[i].temp)
    } else {
        quantity::quantity_text(e.points[i].duty)
    };
    text::pad_left(shown.as_str(), 6)
}

fn draw_point(e: &CurveEditor, i: usize) -> (r: Line)
    requires
        i < e.points@.len(),
    ensures
        r@ == point_row(e@, i as int),
{
    let current = i == e.row;
    let temp = field_cell(e, i, 0);
    let duty = field_cell(e, i, 1);
    let marker = if current {
        text::cat(">", " ")
    } else {
        text::cat(" ", " ")
    };
    let mut line = line_of(marker, style_of(Colour::Plain, false));
    add_span(
        &mut line,
        text::cat3(" ", temp.as_str(), "  "),
        style_of(Colour::Plain, current && e.field == 0),
    );
    add_span(&mut line, duty, style_of(Colour::Plain, current && e.field == 1));
    assert(line@ =~= point_row(e@, i as int));
    line
}

/// The lines of the "edit curve and default mode" dialog.
pub fn draw_curve_editor(e: &CurveEditor) -> (r: Vec<Line>)
    ensures
        r.deep_view() == editor_lines(e@),
{
    let mut out: Vec<Line> = Vec::new();
    assert(out.deep_view() =~= Seq::<Seq<SpanView>>::empty());
    add_line(&mut out, plain_line("    temp    duty"));
    let ghost head = seq![one("    temp    duty"@, plain())];
    let ghost row = |i: int| point_row(e@, i);
    let mut i: usize = 0;
    assert(out.deep_view() =~= head + Seq::new(0, row));
    while i < e.points.len()
        invariant
            i <= e.points@.len(),
            row == (|i: int| point_row(e@, i)),
            out.deep_view() == head + Seq::new(i as nat, row),
        decreases e.points@.len() - i,
    {
        let line = draw_point(e, i);
        add_line(&mut out, line);
        assert(out.deep_view() =~= head + Seq::new(i as nat + 1, row));
        i += 1;
    }
    let on_default = e.on_default_row();
    let mode = match e.default_mode {
        InitialMode::Auto => "auto",
        InitialMode::Off => "off",
        InitialMode::Full => "full",
    };
    let marker = if on_default {
        ">"
    } else {
        " "
    };
    let default = text::cat3(marker, " default:  ", mode);
    add_line(&mut out, line_of(default, style_of(Colour::Plain, on_default)));
    match &e.error {
        Some(m) => {
            add_line(&mut out, line_of(m.clone(), style_of(Colour::Red, false)));
        },
        None => {},
    }
    if e.saving {
        add_line(&mut out, plain_line("  saving …"));
    } else {
        add_line(&mut out, plain_line("  a=add x=del u/d=move  s=save  esc=cancel"));
    }
    assert(out.deep_view() =~= editor_lines(e@));
    out
}

/// Sorting shows every reading once, the hottest first, and readings of the
/// same temperature in the order the daemon lists them.
pub proof fn law_sorted_readings(temps: Seq<TempView>, i: int, j: int)
    requires
        0 <= i < j < temps.len(),
    ensures
        listed(temps, true).len() == temps.len(),
        listed(temps, true).to_multiset() == temps.to_multiset(),
        heat(listed(temps, true)[j]) <= heat(listed(temps, true)[i]),
        forall|t: TempView| #[trigger]
            listed(temps, true).filter(order::same_rank(hotter(), t)) == temps.filter(
                order::same_rank(hotter(), t),
            ),
{
    assert(order::total_order(hotter()));
    order::law_sorted_by(temps, hotter());
    assert(hotter()(listed(temps, true)[i], listed(temps, true)[j]));
}

/// A hotter reading lights at least as much of its bar.
pub proof fn law_bars_grow_with_heat(cool: i64, hot: i64, i: int, width: int)
    requires
        cool <= hot,
        0 <= width,
    ensures
        i * FULL < lit_share(Some(cool)) * width ==> i * FULL < lit_share(Some(hot)) * width,
{
    let a = lit_share(Some(cool));
    let b = lit_share(Some(hot));
    assert(a * width <= b * width) by (nonlinear_arith)
        requires
            a <= b,
            0 <= width,
    ;
}

// ---- what is shown --------------------------------------------------------

/// A fan's row shows the fan as the daemon told of it: its label, its mode,
/// its duty in whole percents, its speed, its error in red, and whether it is
/// being calibrated. The selected fan's row, and no other, is marked and
/// reversed.
pub proof fn law_fan_row(f: FanStateView, selected: bool, sweeping: Option<Seq<char>>)
    ensures
        ({
            let r = fan_row(f, selected, sweeping);
            let marker = if selected {
                seq!['>', ' ', ' ', ' ', ' ']
            } else {
                seq![' ', ' ', ' ', ' ', ' ']
            };
            let errs = if f.err is Some {
                1int
            } else {
                0
            };
            let sweeps = if sweeping == Some(f.id) {
                1int
            } else {
                0
            };
            &&& r.len() == 4 + errs + sweeps
            &&& r[0].text == marker + f.label + "  "@
            &&& r[1].text == text::flush_left(f.mode.spec_label(), 8)
            &&& f.duty is None ==> r[2].text == "  n/a"@ + "  "@
            &&& f.duty matches Some(d) ==> r[2].text == text::flush_right(
                quantity::shown_whole(d as int),
                4,
            ) + "%"@ + "  "@
            &&& f.rpm is None ==> r[3].text == "     -"@
            &&& f.rpm matches Some(v) ==> r[3].text == text::flush_right(
                number::decimal(v as nat),
                6,
            ) + " rpm"@
            &&& f.err matches Some(e) ==> r[4].text == "  "@ + e && r[4].style.colour == Colour::Red
            &&& sweeps == 1 ==> r[4 + errs].text == "  calibrating…"@ && r[4 + errs].style.colour
                == Colour::Cyan
            &&& forall|i: int| 0 <= i < r.len() ==> (#[trigger] r[i]).style.reversed == selected
        }),
{
    reveal_strlit(">");
    reveal_strlit(" ");
    let r = fan_row(f, selected, sweeping);
    let marker = if selected {
        seq!['>', ' ', ' ', ' ', ' ']
    } else {
        seq![' ', ' ', ' ', ' ', ' ']
    };
    assert(text::flush_left(
        if selected {
            ">"@
        } else {
            " "@
        },
        5,
    ) =~= marker);
}

/// Every fan has its row, in order, and the selected one is told apart.
pub proof fn law_every_fan_has_its_row(s: StateView, selected: usize, i: int)
    requires
        0 <= i < s.fans.len(),
    ensures
        fan_rows(s, selected).len() == s.fans.len(),
        fan_rows(s, selected)[i] == fan_row(s.fans[i], i == selected, s.sweeping),
{
}

/// The status line tells, in this order: the client's own problem, a sweep in
/// flight, the note of one that ended lately, the daemon's status, and when
/// there is none of these the keys.
pub proof fn law_status_line(a: AppView, s: StateView, now: u64)
    ensures
        ({
            let l = status_line(a, s, now);
            let note = app::note(a, s, now);
            &&& a.status.len() > 0 ==> l.text == a.status
            &&& a.status.len() == 0 && s.sweeping is Some ==> l.text.len() > s.sweeping->0.len()
                && l.text.take(s.sweeping->0.len() as int) == s.sweeping->0
            &&& a.status.len() == 0 && s.sweeping is None && note is Some ==> l.text == note->0
            &&& a.status.len() == 0 && s.sweeping is None && note is None && s.status.len() > 0
                ==> l.text == s.status
            &&& a.status.len() == 0 && s.sweeping is None && note is None && s.status.len() == 0
                ==> l.text == hints()
        }),
{
    reveal_strlit(": calibrating (0→100 %) …");
    let l = status_line(a, s, now);
    if a.status.len() == 0 && s.sweeping is Some {
        assert(l.text.take(s.sweeping->0.len() as int) =~= s.sweeping->0);
    }
}

/// Sorting puts the hottest reading first and readings without a value last;
/// without sorting the daemon's order stays.
pub proof fn law_readings_are_sorted(temps: Seq<TempView>, i: int, j: int)
    requires
        0 <= i < j < temps.len(),
    ensures
        listed(temps, false) == temps,
        listed(temps, true).to_multiset() == temps.to_multiset(),
        listed(temps, true).len() == temps.len(),
        ({
            let a = listed(temps, true)[i].celsius;
            let b = listed(temps, true)[j].celsius;
            a is Some && b is Some ==> b->0 <= a->0
        }),
        ({
            let a = listed(temps, true)[i].celsius;
            let b = listed(temps, true)[j].celsius;
            a is None && b is Some ==> b->0 <= -999_000_000_000
        }),
{
    law_sorted_readings(temps, i, j);
}

/// The rows shown are those of the list from the scroll position on, as many
/// as fit and no more than there are.
pub proof fn law_readings_are_scrolled(
    temps: Seq<TempView>,
    sorting: bool,
    scroll: usize,
    w: u16,
    h: u16,
    i: int,
)
    ensures
        ({
            let all = listed(temps, sorting);
            let rows = temp_rows(temps, sorting, scroll, w, h);
            &&& scroll >= all.len() ==> rows.len() == 0
            &&& scroll < all.len() && scroll + h <= all.len() ==> rows.len() == h
            &&& scroll < all.len() && scroll + h > all.len() ==> rows.len() == all.len() - scroll
            &&& 0 <= i < rows.len() ==> rows[i] == temp_row(all[scroll + i], bar_width(w))
        }),
{
}

/// A reading's row shows its label, its whole degrees, and a bar. A cell of
/// the bar is lit where its place is below the reading on a scale from 0 to 100
/// degrees; it is green up to 45 %, yellow up to 75 %, and red beyond.
pub proof fn law_reading_row(t: TempView, width: int, i: int)
    requires
        width > 0,
        0 <= i < width,
    ensures
        ({
            let r = temp_row(t, width);
            let c = r[1 + i].style.colour;
            let lit = t.celsius is Some && i * 100_000_000_000 < t.celsius->0 * width;
            &&& r.len() == width + 2
            &&& r[0].text == " "@ + text::flush_left(t.label, 33)
            &&& t.celsius matches Some(v) ==> r[width + 1].text == text::flush_right(
                number::signed_decimal(quantity::nearest_whole(v as int)),
                6,
            ) + "°C"@
            &&& t.celsius is None ==> r[width + 1].text == "    n/a"@
            &&& i * 100 < 45 * width && lit ==> c == Colour::GreenLight
            &&& i * 100 < 45 * width && !lit ==> c == Colour::GreenDark
            &&& 45 * width <= i * 100 < 75 * width && lit ==> c == Colour::YellowLight
            &&& 45 * width <= i * 100 < 75 * width && !lit ==> c == Colour::YellowDark
            &&& i * 100 >= 75 * width && lit ==> c == Colour::RedLight
            &&& i * 100 >= 75 * width && !lit ==> c == Colour::RedDark
        }),
{
    let r = temp_row(t, width);
    assert(r[1 + i] == cell(t.celsius, i, width));
    let s = lit_share(t.celsius);
    match t.celsius {
        Some(v) => {
            if v < 0 {
                assert(v * width <= 0 && s * width == 0) by (nonlinear_arith)
                    requires
                        v < 0,
                        s == 0,
                        width > 0,
                ;
                assert(i * 100_000_000_000 >= 0);
            } else if v > 100_000_000_000 {
                assert(i * 100_000_000_000 < s * width && s * width <= v * width) by (
                nonlinear_arith)
                    requires
                        i < width,
                        s == 100_000_000_000,
                        v >= s,
                        width > 0,
                ;
            }
        },
        None => {
            assert(s * width == 0) by (nonlinear_arith)
                requires
                    s == 0,
            ;
        },
    }
}

/// Each part of the screen is there where it is called for: the fans with two
/// rows more than there are, once there is a state, and the help and the
/// dialogs where they are open.
pub proof fn law_parts(a: AppView)
    ensures
        ({
            let p = parts_of(a);
            &&& p.fans is Some <==> a.state is Some
            &&& a.state matches Some(s) ==> (s.fans.len() <= 65533 ==> p.fans == Some(
                (s.fans.len() + 2) as u16,
            ))
            &&& p.help == a.show_help
            &&& p.value_entry <==> a.value_entry is Some
            &&& p.curve_editor <==> a.curve_editor is Some
        }),
{
}

/// The editor shows its points row by row, then the initial mode, then a
/// message if there is one, then its keys. The field under the cursor shows
/// what is being typed, and every other field its value.
pub proof fn law_editor_lines(e: EditorView, i: int)
    requires
        0 <= i < e.points.len(),
    ensures
        ({
            let l = editor_lines(e);
            let n = e.points.len() as int;
            let row = l[1 + i];
            let temp = if e.row == i && e.field == 0 {
                e.text + "▌"@
            } else {
                quantity::shown(e.points[i].temp as int)
            };
            let duty = if e.row == i && e.field == 1 {
                e.text + "▌"@
            } else {
                quantity::shown(e.points[i].duty as int)
            };
            let word = match e.default_mode {
                InitialMode::Auto => "auto"@,
                InitialMode::Off => "off"@,
                InitialMode::Full => "full"@,
            };
            &&& l.len() == n + if e.error is Some {
                4int
            } else {
                3
            }
            &&& row.len() == 3
            &&& row[0].text == if e.row == i {
                seq!['>', ' ']
            } else {
                seq![' ', ' ']
            }
            &&& row[1].text == " "@ + text::flush_right(temp, 6) + "  "@
            &&& row[2].text == text::flush_right(duty, 6)
            &&& row[1].style.reversed <==> e.row == i && e.field == 0
            &&& row[2].style.reversed <==> e.row == i && e.field == 1
            &&& l[n + 1][0].text == (if e.row >= n {
                ">"@
            } else {
                " "@
            }) + " default:  "@ + word
            &&& l[n + 1][0].style.reversed <==> e.row >= n
            &&& e.error matches Some(m) ==> l[n + 2][0].text == m && l[n + 2][0].style.colour
                == Colour::Red
        }),
{
    reveal_strlit(">");
    reveal_strlit(" ");
    let l = editor_lines(e);
    assert(l[1 + i] == point_row(e, i));
    assert(point_row(e, i)[0].text =~= if e.row == i {
        seq!['>', ' ']
    } else {
        seq![' ', ' ']
    });
}

/// The duty dialog shows the selected fan's label, what was typed, and the
/// message, if there is one, in red.
pub proof fn law_entry_lines(a: AppView, e: EntryView)
    ensures
        ({
            let l = entry_lines(a, e);
            &&& l.len() == 6
            &&& a.state matches Some(s) ==> (a.selected < s.fans.len() ==> l[1][0].text == "  "@
                + s.fans[a.selected as int].label)
            &&& e.text.len() > 0 ==> l[2][0].text == "  New duty (0-100):  "@ + e.text + "▌"@
            &&& e.text.len() == 0 ==> l[2][0].text == "  New duty (0-100):  "@ + e.text + " "@
            &&& e.error matches Some(m) ==> l[3][0].text == m && l[3][0].style.colour
                == Colour::Red
        }),
{
}

/// A popup is as large as asked for, or as its area, and in its middle.
pub proof fn law_popup_is_centred(area: Area, width: int, height: int)
    requires
        area.valid(),
        0 <= width,
        0 <= height,
    ensures
        ({
            let r = centred(area, width, height);
            &&& width <= area.width ==> r.width == width
            &&& width > area.width ==> r.width == area.width
            &&& height <= area.height ==> r.height == height
            &&& height > area.height ==> r.height == area.height
            &&& 0 <= (area.x + area.width - r.x - r.width) - (r.x - area.x) <= 1
            &&& 0 <= (area.y + area.height - r.y - r.height) - (r.y - area.y) <= 1
        }),
{
}

/// The bar takes what the label and the value leave of the width, and one
/// cell at least; the editor is seven rows higher than its points.
pub proof fn law_sizes(inner_w: u16, points: nat)
    ensures
        inner_w >= 43 ==> bar_width(inner_w) == inner_w - 42,
        inner_w < 43 ==> bar_width(inner_w) == 1,
        editor_height(points) == points + 7,
{
}

/// Without a state the client tells what went wrong, in red, or that it waits.
pub proof fn law_unreachable_is_told(a: AppView)
    ensures
        a.status.len() > 0 ==> unreachable_line(a).text == a.status
            && unreachable_line(a).style.colour == Colour::Red,
        a.status.len() == 0 ==> unreachable_line(a).text == "waiting for the fanctld daemon …"@,
{
}

/// The status line is red where something went wrong, cyan while a sweep runs
/// or its note is shown, and dim where it only tells of the keys.
pub proof fn law_status_colours(a: AppView, s: StateView, now: u64)
    ensures
        ({
            let c = status_line(a, s, now).style.colour;
            let l = status_line(a, s, now).text;
            let calm = l.len() >= 3 && l.take(3) == seq![' ', '↑', '↓'];
            &&& calm ==> c == Colour::DarkGray
            &&& !calm && a.status.len() > 0 ==> c == Colour::Red
            &&& !calm && a.status.len() == 0 && (s.sweeping is Some || app::note(a, s, now) is Some)
                ==> c == Colour::Cyan
            &&& !calm && a.status.len() == 0 && s.sweeping is None && app::note(a, s, now) is None
                ==> c == Colour::Red
        }),
{
    reveal_strlit(" ↑↓");
    assert(" ↑↓"@ =~= seq![' ', '↑', '↓']);
}

} // verus!
