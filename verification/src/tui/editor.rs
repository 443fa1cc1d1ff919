//! The "edit curve and default mode" dialog: a modal table editor for the
//! selected fan. It edits a working copy of the fan's config list; everything
//! stays local until saved or cancelled.

use vstd::prelude::*;
use crate::config::types::InitialMode;
use crate::curve::CurvePoint;
use crate::daemon::engine;
use crate::daemon::laws;
use crate::quantity;
use crate::quantity::{FULL, UNIT};
use crate::text;

verus! {

/// A key of the keyboard, as far as the client tells them apart.
#[derive(Debug, Clone, Copy, PartialEq, Eq, Structural)]
pub enum KeyCode {
    Char(char),
    Enter,
    Esc,
    Up,
    Down,
    Left,
    Right,
    Tab,
    BackTab,
    Backspace,
    PageUp,
    PageDown,
    Home,
    End,
    /// Any other key.
    Other,
}

/// Whether a key is a letter, in either case.
pub open spec fn is_letter(code: KeyCode, lower: char, upper: char) -> bool {
    code == KeyCode::Char(lower) || code == KeyCode::Char(upper)
}

/// The dialog.
#[derive(Debug)]
pub struct CurveEditor {
    /// The points being edited (a working copy of the fan's config list).
    pub points: Vec<CurvePoint>,
    /// The row under the cursor: a point row, or `points.len()` for the
    /// "default mode" row.
    pub row: usize,
    /// The field under the cursor on a point row: 0 = temp, 1 = duty.
    pub field: usize,
    /// The text being typed into the active field.
    pub text: String,
    /// The initial mode being set for the fan.
    pub default_mode: InitialMode,
    /// A validation message, if the last commit was rejected.
    pub error: Option<String>,
    /// A save is in flight: the dialog is locked until the daemon answers.
    pub saving: bool,
}

/// A [`CurveEditor`] with its text as character sequences.
pub struct EditorView {
    pub points: Seq<CurvePoint>,
    pub row: usize,
    pub field: usize,
    pub text: Seq<char>,
    pub default_mode: InitialMode,
    pub error: Option<Seq<char>>,
    pub saving: bool,
}

impl View for CurveEditor {
    type V = EditorView;

    open spec fn view(&self) -> EditorView {
        EditorView {
            points: self.points@,
            row: self.row,
            field: self.field,
            text: self.text@,
            default_mode: self.default_mode,
            error: self.error.deep_view(),
            saving: self.saving,
        }
    }
}

impl DeepView for CurveEditor {
    type V = EditorView;

    open spec fn deep_view(&self) -> EditorView {
        self.view()
    }
}

impl EditorView {
    /// Whether the cursor is on the "default mode" row.
    pub open spec fn on_default_row(self) -> bool {
        self.row >= self.points.len()
    }

    /// The dialog always has a point to edit.
    pub open spec fn valid(self) -> bool {
        self.points.len() > 0
    }
}

/// The largest value of a field: 150 degrees, or 100 percent.
pub open spec fn field_limit(field: usize) -> int {
    if field == 0 {
        150 * UNIT
    } else {
        FULL as int
    }
}

/// A point with one of its fields replaced.
pub open spec fn with_field(p: CurvePoint, field: usize, v: int) -> CurvePoint {
    if field == 0 {
        CurvePoint { temp: v as i64, ..p }
    } else {
        CurvePoint { duty: v as i64, ..p }
    }
}

/// The value of a field of a point.
pub open spec fn field_value(p: CurvePoint, field: usize) -> int {
    if field == 0 {
        p.temp as int
    } else {
        p.duty as int
    }
}

/// The dialog after the active field was committed, and whether it could be:
/// the text is a number within the field's limits, and is then shown in its
/// shortest form. On the default row there is nothing to commit.
pub open spec fn committed(e: EditorView) -> (EditorView, bool) {
    if e.on_default_row() {
        (e, true)
    } else {
        match quantity::parsed_number(text::trimmed(e.text)) {
            None => (EditorView { error: Some("please enter a number"@), ..e }, false),
            Some(n) => match n.within(0, field_limit(e.field)) {
                Some(v) => (
                    EditorView {
                        points: e.points.update(
                            e.row as int,
                            with_field(e.points[e.row as int], e.field, v),
                        ),
                        text: quantity::shown(v),
                        error: None,
                        ..e
                    },
                    true,
                ),
                None => (
                    EditorView {
                        error: Some(
                            if e.field == 0 {
                                "must be in 0..=150"@
                            } else {
                                "must be in 0..=100"@
                            },
                        ),
                        ..e
                    },
                    false,
                ),
            },
        }
    }
}

/// The dialog with the cursor moved to a row (the row after the last point is
/// the default row) and a field, its text that of the target.
pub open spec fn moved(e: EditorView, row: int, field: usize) -> EditorView {
    let last = e.points.len();
    if row < last {
        let f: usize = if field > 1 {
            1
        } else {
            field
        };
        EditorView {
            row: row as usize,
            field: f,
            text: quantity::shown(field_value(e.points[row], f)),
            error: None,
            ..e
        }
    } else {
        EditorView { row: last as usize, field: 0, text: Seq::empty(), error: None, ..e }
    }
}

/// The dialog with a point added after the active row: a copy of it, 10
/// degrees hotter, with the cursor on its temperature.
pub open spec fn with_point(e: EditorView) -> EditorView {
    let n = e.points.len();
    let base = e.points[if e.row < n {
        e.row as int
    } else {
        n - 1
    }];
    let p = CurvePoint { temp: quantity::saturated(base.temp + 10 * UNIT) as i64, ..base };
    let at = if e.row < n {
        e.row + 1
    } else {
        n as int
    };
    EditorView {
        points: e.points.insert(at, p),
        row: at as usize,
        field: 0,
        text: quantity::shown(p.temp as int),
        error: None,
        ..e
    }
}

/// The dialog with the active point deleted. The last point stays.
pub open spec fn without_point(e: EditorView) -> EditorView {
    if e.on_default_row() || e.points.len() <= 1 {
        e
    } else {
        let rest = e.points.remove(e.row as int);
        EditorView {
            points: rest,
            text: if e.row < rest.len() {
                quantity::shown(rest[e.row as int].temp as int)
            } else {
                Seq::empty()
            },
            field: 0,
            error: None,
            ..e
        }
    }
}

/// The dialog with the active point moved by `delta` rows, within the list.
/// The text is the active field's.
pub open spec fn with_row_moved(e: EditorView, delta: int) -> EditorView {
    let to = quantity::clamped(e.row + delta, 0, e.points.len() - 1);
    if e.on_default_row() || to == e.row {
        e
    } else {
        let p = e.points[e.row as int];
        EditorView {
            points: e.points.remove(e.row as int).insert(to, p),
            row: to as usize,
            text: quantity::shown(field_value(p, e.field)),
            error: None,
            ..e
        }
    }
}

/// The place of a mode in the cycle auto, off, full.
pub open spec fn mode_place(m: InitialMode) -> int {
    match m {
        InitialMode::Auto => 0,
        InitialMode::Off => 1,
        InitialMode::Full => 2,
    }
}

/// The mode at a place of the cycle.
pub open spec fn mode_at(i: int) -> InitialMode {
    if i % 3 == 0 {
        InitialMode::Auto
    } else if i % 3 == 1 {
        InitialMode::Off
    } else {
        InitialMode::Full
    }
}

/// The dialog with the default mode moved on in the cycle.
pub open spec fn cycled(e: EditorView, dir: int) -> EditorView {
    EditorView {
        default_mode: mode_at(mode_place(e.default_mode) + dir),
        text: Seq::empty(),
        error: None,
        ..e
    }
}

/// The dialog after a typed character: a digit or a point, up to six.
pub open spec fn typed(e: EditorView, c: char) -> EditorView {
    if !e.on_default_row() && (text::digit(c) || c == '.') && e.text.len() < 6 {
        EditorView { text: e.text.push(c), error: None, ..e }
    } else {
        e
    }
}

/// The dialog with the last typed character removed.
pub open spec fn erased(e: EditorView) -> EditorView {
    if e.on_default_row() {
        e
    } else {
        EditorView {
            text: if e.text.len() > 0 {
                e.text.drop_last()
            } else {
                e.text
            },
            error: None,
            ..e
        }
    }
}

/// What is wrong with the order of points from `i` on, if anything.
pub open spec fn disorder(points: Seq<CurvePoint>, i: nat) -> Option<Seq<char>>
    decreases points.len() - i,
{
    if i >= points.len() {
        None
    } else if i > 0 && points[i as int].temp <= points[i - 1].temp {
        Some(
            "the points must be strictly increasing in temperature ("@ + quantity::shown_tenths(
                points[i as int].temp as int,
            ) + " °C)"@,
        )
    } else {
        disorder(points, i + 1)
    }
}

/// What keeps a curve from being saved, if anything.
pub open spec fn objection(points: Seq<CurvePoint>) -> Option<Seq<char>> {
    if points.len() == 0 {
        Some("the curve needs at least one point"@)
    } else {
        disorder(points, 0)
    }
}

/// The dialog after an editing key. A key that leaves the active field first
/// commits it, and does nothing more where that fails.
pub open spec fn edited(e: EditorView, code: KeyCode) -> EditorView {
    let (c, ok) = committed(e);
    let rows = c.points.len() + 1;
    if code == KeyCode::Enter {
        c
    } else if code == KeyCode::Up {
        if ok {
            moved(c, (c.row - 1) % (rows as int), c.field)
        } else {
            c
        }
    } else if code == KeyCode::Down {
        if ok {
            moved(c, (c.row + 1) % (rows as int), c.field)
        } else {
            c
        }
    } else if code == KeyCode::Left || code == KeyCode::Right {
        if !ok {
            c
        } else if c.on_default_row() {
            cycled(
                c,
                if code == KeyCode::Right {
                    1
                } else {
                    -1
                },
            )
        } else {
            moved(
                c,
                c.row as int,
                if c.field == 0 {
                    1
                } else {
                    0
                },
            )
        }
    } else if is_letter(code, 'a', 'A') {
        if ok {
            with_point(c)
        } else {
            c
        }
    } else if is_letter(code, 'x', 'X') {
        if ok {
            without_point(c)
        } else {
            c
        }
    } else if is_letter(code, 'u', 'U') {
        if ok {
            with_row_moved(c, -1)
        } else {
            c
        }
    } else if is_letter(code, 'd', 'D') {
        if ok {
            with_row_moved(c, 1)
        } else {
            c
        }
    } else if code == KeyCode::Backspace {
        erased(e)
    } else {
        match code {
            KeyCode::Char(ch) => typed(e, ch),
            _ => e,
        }
    }
}

impl CurveEditor {
    /// Whether the cursor is on the "default mode" row.
    pub fn on_default_row(&self) -> (r: bool)
        ensures
            r == self@.on_default_row(),
    {
        self.row >= self.points.len()
    }

    /// Commit the active field of the active point row. Returns `true`
    /// (trivially) when the cursor is on the default row.
    pub fn commit_field(&mut self) -> (r: bool)
        ensures
            (final(self)@, r) == committed(old(self)@),
    {
        if self.on_default_row() {
            return true;
        }
        let t = text::trim(self.text.as_str());
        let n = match quantity::parse_number(t.as_str()) {
            Some(n) => n,
            None => {
                self.error = Some(text::owned("please enter a number"));
                return false;
            },
        };
        let v: i64;
        if self.field == 0 {
            v = match n.in_range(0, 150 * UNIT) {
                Some(v) => v,
                None => {
                    self.error = Some(text::owned("must be in 0..=150"));
                    return false;
                },
            };
            let p = self.points[self.row];
            self.points[self.row] = CurvePoint { temp: v, duty: p.duty };
        } else {
            v = match n.in_range(0, FULL) {
                Some(v) => v,
                None => {
                    self.error = Some(text::owned("must be in 0..=100"));
                    return false;
                },
            };
            let p = self.points[self.row];
            self.points[self.row] = CurvePoint { temp: p.temp, duty: v };
        }
        self.text = quantity::quantity_text(v);
        self.error = None;
        true
    }

    /// Move the cursor to `row` (the last index is the default row) and
    /// `field`, refreshing the text buffer with the target's value.
    pub fn move_to(&mut self, row: usize, field: usize)
        ensures
            final(self)@ == moved(old(self)@, row as int, field),
    {
        let last = self.points.len();
        if row < last {
            let field: usize = if field > 1 {
                1
            } else {
                field
            };
            self.row = row;
            self.field = field;
            let p = self.points[row];
            self.text = if field == 0 {
                quantity::quantity_text(p.temp)
            } else {
                quantity::quantity_text(p.duty)
            };
        } else {
            self.row = last;
            self.field = 0;
            self.text = String::new();
            assert(self.text@ =~= Seq::<char>::empty());
        }
        self.error = None;
    }

    /// Add a point after the active row (a copy of it, shifted +10 degrees so
    /// the list stays valid), with the cursor on its temp field.
    pub fn add_point(&mut self)
        requires
            old(self)@.valid(),
        ensures
            final(self)@ == with_point(old(self)@),
    {
        let n = self.points.len();
        let base = if self.row < n {
            self.points[self.row]
        } else {
            self.points[n - 1]
        };
        let temp: i64 = if base.temp > i64::MAX - 10 * UNIT {
            i64::MAX
        } else {
            base.temp + 10 * UNIT
        };
        let at: usize = if self.row < n {
            self.row + 1
        } else {
            n
        };
        self.points.insert(at, CurvePoint { temp, duty: base.duty });
        self.row = at;
        self.field = 0;
        self.text = quantity::quantity_text(temp);
        self.error = None;
    }

    /// Delete the active point row (at least one point must remain).
    pub fn delete_point(&mut self)
        ensures
            final(self)@ == without_point(old(self)@),
    {
        if !self.on_default_row() && self.points.len() > 1 {
            let _gone = self.points.remove(self.row);
            if self.row < self.points.len() {
                self.text = quantity::quantity_text(self.points[self.row].temp);
            } else {
                self.text = String::new();
                assert(self.text@ =~= Seq::<char>::empty());
            }
            self.field = 0;
            self.error = None;
        }
    }

    /// Move the active point row up (-1) or down (+1).
    pub fn move_row(&mut self, delta: isize)
        ensures
            final(self)@ == with_row_moved(old(self)@, delta as int),
    {
        if self.on_default_row() {
            return;
        }
        let last: i128 = (self.points.len() as i128) - 1;
        let want: i128 = (self.row as i128) + (delta as i128);
        let to: usize = if want < 0 {
            0
        } else if want > last {
            last as usize
        } else {
            want as usize
        };
        if to != self.row {
            let p = self.points.remove(self.row);
            self.points.insert(to, p);
            self.row = to;
            self.text = if self.field == 0 {
                quantity::quantity_text(p.temp)
            } else {
                quantity::quantity_text(p.duty)
            };
            self.error = None;
        }
    }

    /// Cycle the default mode on the default row: auto -> off -> full.
    pub fn cycle_default(&mut self, dir: isize)
        ensures
            final(self)@ == cycled(old(self)@, dir as int),
    {
        let i: i128 = match self.default_mode {
            InitialMode::Auto => 0,
            InitialMode::Off => 1,
            InitialMode::Full => 2,
        };
        // A multiple of 3 above any `isize` keeps the sum from being negative.
        let sum: i128 = i + (dir as i128) + 30_000_000_000_000_000_000;
        proof {
            let a = mode_place(self.default_mode) + dir;
            vstd::arithmetic::div_mod::lemma_mod_multiples_vanish(
                10_000_000_000_000_000_000,
                a,
                3,
            );
            assert(sum == 3 * 10_000_000_000_000_000_000int + a);
        }
        let k: i128 = sum % 3;
        self.default_mode = if k == 0 {
            InitialMode::Auto
        } else if k == 1 {
            InitialMode::Off
        } else {
            InitialMode::Full
        };
        self.text = String::new();
        assert(self.text@ =~= Seq::<char>::empty());
        self.error = None;
    }

    /// Push a typed character into the active field (digits and `.` only, at
    /// most 6 characters).
    pub fn push_char(&mut self, c: char)
        ensures
            final(self)@ == typed(old(self)@, c),
    {
        if !self.on_default_row() && (text::is_digit(c) || c == '.') && text::chars_of(
            self.text.as_str(),
        ).len() < 6 {
            self.text.push(c);
            self.error = None;
        }
    }

    /// Remove the last typed character.
    pub fn backspace(&mut self)
        ensures
            final(self)@ == erased(old(self)@),
    {
        if !self.on_default_row() {
            let _last = self.text.pop();
            self.error = None;
        }
    }

    /// Whole-curve validation for saving: points strictly increasing in
    /// temperature. `None` when the curve is acceptable.
    pub fn validate(&self) -> (r: Option<String>)
        ensures
            r.deep_view() == objection(self@.points),
    {
        if self.points.len() == 0 {
            return Some(text::owned("the curve needs at least one point"));
        }
        let mut i: usize = 0;
        while i < self.points.len()
            invariant
                i <= self.points@.len(),
                disorder(self.points@, 0) == disorder(self.points@, i as nat),
            decreases self.points@.len() - i,
        {
            if i > 0 && self.points[i].temp <= self.points[i - 1].temp {
                let t = quantity::tenths_text(self.points[i].temp);
                return Some(
                    text::cat3(
                        "the points must be strictly increasing in temperature (",
                        t.as_str(),
                        " °C)",
                    ),
                );
            }
            i += 1;
        }
        None
    }

    /// Handle an editing key: any but those that cancel or save.
    pub fn edit(&mut self, code: KeyCode)
        requires
            old(self)@.valid(),
        ensures
            final(self)@ == edited(old(self)@, code),
    {
        match code {
            KeyCode::Enter => {
                let _ok = self.commit_field();
            },
            KeyCode::Up => {
                if self.commit_field() {
                    let rows: u128 = (self.points.len() as u128) + 1;
                    let field = self.field;
                    if self.row == 0 {
                        let last = self.points.len();
                        assert((0 - 1) % (rows as int) == rows - 1) by {
                            vstd::arithmetic::div_mod::lemma_fundamental_div_mod_converse(
                                -1,
                                rows as int,
                                -1,
                                rows - 1,
                            );
                        }
                        self.move_to(last, field);
                    } else {
                        let to = (((self.row - 1) as u128) % rows) as usize;
                        self.move_to(to, field);
                    }
                }
            },
            KeyCode::Down => {
                if self.commit_field() {
                    let rows: u128 = (self.points.len() as u128) + 1;
                    let to = (((self.row as u128) + 1) % rows) as usize;
                    let field = self.field;
                    self.move_to(to, field);
                }
            },
            KeyCode::Left => {
                if self.commit_field() {
                    self.sideways(-1);
                }
            },
            KeyCode::Right => {
                if self.commit_field() {
                    self.sideways(1);
                }
            },
            KeyCode::Char(c) => {
                if c == 'a' || c == 'A' {
                    if self.commit_field() {
                        self.add_point();
                    }
                } else if c == 'x' || c == 'X' {
                    if self.commit_field() {
                        self.delete_point();
                    }
                } else if c == 'u' || c == 'U' {
                    if self.commit_field() {
                        self.move_row(-1);
                    }
                } else if c == 'd' || c == 'D' {
                    if self.commit_field() {
                        self.move_row(1);
                    }
                } else {
                    self.push_char(c);
                }
            },
            KeyCode::Backspace => {
                self.backspace();
            },
            _ => {},
        }
    }

    /// Left and Right, once the active field is committed: to the other field
    /// of a point, or through the default modes.
    fn sideways(&mut self, dir: isize)
        ensures
            final(self)@ == (if old(self)@.on_default_row() {
                cycled(old(self)@, dir as int)
            } else {
                moved(
                    old(self)@,
                    old(self)@.row as int,
                    if old(self)@.field == 0 {
                        1
                    } else {
                        0
                    },
                )
            }),
    {
        if self.on_default_row() {
            self.cycle_default(dir);
        } else {
            let row = self.row;
            let f: usize = if self.field == 0 {
                1
            } else {
                0
            };
            self.move_to(row, f);
        }
    }
}

// ---- laws -----------------------------------------------------------------

/// The cursor is on a point or the default row, and on one of two fields.
pub open spec fn cursor_in_place(e: EditorView) -> bool {
    e.row <= e.points.len() && e.field <= 1
}

/// Whatever key is pressed, the dialog keeps a point to edit, its cursor
/// stays in place, and it is not locked by editing.
pub proof fn law_editing_keeps_the_dialog_valid(e: EditorView, code: KeyCode)
    requires
        e.valid(),
        cursor_in_place(e),
        e.points.len() < usize::MAX,
    ensures
        edited(e, code).valid(),
        cursor_in_place(edited(e, code)),
        edited(e, code).saving == e.saving,
{
    let (c, ok) = committed(e);
    let rows = c.points.len() as int + 1;
    assert(c.points.len() == e.points.len());
    vstd::arithmetic::div_mod::lemma_mod_bound(c.row - 1, rows);
    vstd::arithmetic::div_mod::lemma_mod_bound(c.row + 1, rows);
}

/// A field that could not be committed changes no point: only the message is
/// new.
pub proof fn law_rejected_commit_changes_no_point(e: EditorView)
    requires
        !committed(e).1,
    ensures
        committed(e).0 == (EditorView { error: committed(e).0.error, ..e }),
        committed(e).0.error is Some,
{
}

/// A committed field is within its limits, and only that field of that point
/// has changed.
pub proof fn law_commit_changes_one_field(e: EditorView, i: int)
    requires
        committed(e).1,
        !e.on_default_row(),
        0 <= i < e.points.len(),
    ensures
        ({
            let c = committed(e).0;
            &&& c.points.len() == e.points.len()
            &&& i != e.row ==> c.points[i] == e.points[i]
            &&& 0 <= field_value(c.points[e.row as int], e.field) <= field_limit(e.field)
            &&& e.field == 0 ==> c.points[e.row as int].duty == e.points[e.row as int].duty
            &&& e.field != 0 ==> c.points[e.row as int].temp == e.points[e.row as int].temp
        }),
{
}

/// Moving onto a point and committing what is shown there changes no point,
/// where the shown value is within the field's limits.
pub proof fn law_passing_over_a_point_changes_nothing(e: EditorView, row: int, field: usize)
    requires
        0 <= row < e.points.len() <= usize::MAX,
        field <= 1,
        0 <= field_value(e.points[row], field) <= field_limit(field),
    ensures
        committed(moved(e, row, field)).1,
        committed(moved(e, row, field)).0.points == e.points,
        committed(moved(e, row, field)).0.text == moved(e, row, field).text,
{
    let m = moved(e, row, field);
    let v = field_value(e.points[row], field) as i64;
    quantity::law_quantity_round_trip(v);
    assert(m.text == quantity::shown(v as int));
    assert(committed(m).0.points =~= e.points);
}

/// The default modes form a cycle of three, and a step back undoes a step on.
pub proof fn law_default_modes_cycle(e: EditorView, dir: int)
    ensures
        cycled(cycled(e, dir), -dir).default_mode == e.default_mode,
        cycled(cycled(cycled(e, 1), 1), 1).default_mode == e.default_mode,
        cycled(e, 1).default_mode != e.default_mode,
{
}

/// Moving a row keeps every point, and moving it back (where it was not at
/// the end of the list) restores their order. Committing what is shown after
/// the move changes no point, where it is within the field's limits.
pub proof fn law_move_row_keeps_the_points(e: EditorView, down: bool)
    requires
        !e.on_default_row(),
        e.points.len() <= usize::MAX,
    ensures
        ({
            let d: int = if down {
                1
            } else {
                -1
            };
            let m = with_row_moved(e, d);
            &&& m.points.to_multiset() == e.points.to_multiset()
            &&& m.row != e.row ==> with_row_moved(m, -d).points == e.points
            &&& m.row != e.row && 0 <= field_value(m.points[m.row as int], m.field) <= field_limit(
                m.field,
            ) ==> committed(m).1 && committed(m).0.points == m.points
        }),
{
    let d: int = if down {
        1
    } else {
        -1
    };
    let m = with_row_moved(e, d);
    if m.row != e.row {
        let p = e.points[e.row as int];
        let rest = e.points.remove(e.row as int);
        let to = m.row as int;
        assert(rest.insert(e.row as int, p) =~= e.points);
        assert(m.points[to] == p);
        assert(m.points.remove(to) =~= rest);
        assert(e.points =~= rest.insert(e.row as int, p));
        vstd::seq_lib::to_multiset_insert(rest, to, p);
        vstd::seq_lib::to_multiset_insert(rest, e.row as int, p);
        if 0 <= field_value(p, e.field) {
            quantity::law_quantity_round_trip(field_value(p, e.field) as i64);
            assert(committed(m).1 ==> committed(m).0.points =~= m.points);
        }
    }
}

proof fn lemma_disorder(points: Seq<CurvePoint>, i: nat)
    ensures
        disorder(points, i) is None <==> forall|j: int|
            i <= j < points.len() && j > 0 ==> points[j - 1].temp < (#[trigger] points[j]).temp,
    decreases points.len() - i,
{
    if i < points.len() {
        lemma_disorder(points, i + 1);
        if i > 0 && points[i as int].temp <= points[i - 1].temp {
            let j = i as int;
            assert(!(points[j - 1].temp < points[j].temp));
        }
    }
}

/// A curve is sent to the daemon only when its temperatures strictly
/// increase; where its points are also within the limits of their fields,
/// the daemon takes it.
pub proof fn law_daemon_takes_what_is_sent(points: Seq<CurvePoint>)
    requires
        objection(points) is None,
        forall|i: int|
            0 <= i < points.len() ==> 0 <= (#[trigger] points[i]).temp <= field_limit(0) && 0
                <= points[i].duty <= field_limit(1),
    ensures
        engine::bad_curve(points) is None,
{
    lemma_disorder(points, 0);
    assert(laws::good_from(points, 0));
    assert forall|i: int, j: int| 0 <= i < j < points.len() implies points[i].temp
        < points[j].temp by {
        lemma_rises(points, i, j);
    }
    laws::law_curve_is_checked(points);
}

proof fn lemma_rises(points: Seq<CurvePoint>, i: int, j: int)
    requires
        forall|k: int|
            0 <= k < points.len() && k > 0 ==> points[k - 1].temp < (#[trigger] points[k]).temp,
        0 <= i < j < points.len(),
    ensures
        points[i].temp < points[j].temp,
    decreases j - i,
{
    assert(points[j - 1].temp < points[j].temp);
    if i < j - 1 {
        lemma_rises(points, i, j - 1);
    }
}

/// A curve can be sent just when it has a point and its temperatures strictly
/// increase.
pub proof fn law_order_is_checked(points: Seq<CurvePoint>)
    ensures
        objection(points) is None <==> points.len() > 0 && forall|i: int, j: int|
            0 <= i < j < points.len() ==> (#[trigger] points[i]).temp < (#[trigger] points[j]).temp,
{
    lemma_disorder(points, 0);
    if points.len() > 0 && disorder(points, 0) is None {
        assert forall|i: int, j: int| 0 <= i < j < points.len() implies (#[trigger] points[i]).temp
            < (#[trigger] points[j]).temp by {
            lemma_rises(points, i, j);
        }
    }
}

/// What was typed into a field is what the point gets: committing the text of
/// a quantity within 0..=150 degrees, or 0..=100 percent, sets that field of
/// that point to it, and one beyond the limits sets nothing.
pub proof fn law_typed_value_is_set(e: EditorView, v: i64)
    requires
        e.row < e.points.len(),
        e.field <= 1,
        v > i64::MIN,
        e.text == quantity::shown(v as int),
    ensures
        ({
            let (c, ok) = committed(e);
            let p = e.points[e.row as int];
            let top: int = if e.field == 0 {
                150_000_000_000
            } else {
                100_000_000_000
            };
            &&& ok <==> 0 <= v <= top
            &&& ok ==> c.points == e.points.update(
                e.row as int,
                if e.field == 0 {
                    CurvePoint { temp: v, duty: p.duty }
                } else {
                    CurvePoint { temp: p.temp, duty: v }
                },
            )
            &&& ok ==> c.text == e.text && c.error is None
            &&& !ok ==> c.points == e.points && c.error is Some
            &&& c.row == e.row && c.field == e.field && c.default_mode == e.default_mode
        }),
{
    quantity::law_quantity_round_trip(v);
}

/// What is no number is not committed.
pub proof fn law_no_number_no_commit(e: EditorView)
    requires
        e.row < e.points.len(),
        quantity::parsed_number(text::trimmed(e.text)) is None,
    ensures
        committed(e) == (
            EditorView { error: Some("please enter a number"@), ..e },
            false,
        ),
{
}

/// `a` puts a point 10 degrees hotter, with the same duty, behind the active
/// one, or behind the last from the default row, and the cursor on its
/// temperature; the other points stay.
pub proof fn law_adding_a_point(e: EditorView, upper: bool)
    requires
        e.points.len() > 0,
        e.points.len() < usize::MAX,
        committed(e).1,
        forall|i: int| 0 <= i < e.points.len() ==> (#[trigger] e.points[i]).temp <= 150_000_000_000,
    ensures
        ({
            let c = committed(e).0;
            let k = if e.row < e.points.len() {
                e.row as int
            } else {
                e.points.len() - 1
            };
            let r = edited(
                e,
                KeyCode::Char(
                    if upper {
                        'A'
                    } else {
                        'a'
                    },
                ),
            );
            &&& r.points.len() == e.points.len() + 1
            &&& r.points[k + 1].temp == c.points[k].temp + 10_000_000_000
            &&& r.points[k + 1].duty == c.points[k].duty
            &&& forall|i: int| 0 <= i <= k ==> #[trigger] r.points[i] == c.points[i]
            &&& forall|i: int| k < i < e.points.len() ==> #[trigger] r.points[i + 1] == c.points[i]
            &&& r.row == k + 1 && r.field == 0
            &&& r.text == quantity::shown(r.points[k + 1].temp as int)
            &&& r.default_mode == e.default_mode
        }),
{
    let c = committed(e).0;
    assert(c.points.len() == e.points.len());
    if !e.on_default_row() {
        let r = e.row as int;
        law_commit_changes_one_field(e, r);
        assert(c.points[r].temp <= 150_000_000_000);
    }
}

/// `x` takes the active point away, and no other; the last point stays, and
/// so do all from the default row.
pub proof fn law_deleting_a_point(e: EditorView, upper: bool)
    requires
        committed(e).1,
    ensures
        ({
            let c = committed(e).0;
            let r = edited(
                e,
                KeyCode::Char(
                    if upper {
                        'X'
                    } else {
                        'x'
                    },
                ),
            );
            &&& e.row < e.points.len() && e.points.len() > 1 ==> {
                &&& r.points.len() == e.points.len() - 1
                &&& forall|i: int| 0 <= i < e.row ==> #[trigger] r.points[i] == c.points[i]
                &&& forall|i: int| e.row <= i < r.points.len() ==> #[trigger] r.points[i]
                    == c.points[i + 1]
                &&& r.row == e.row && r.field == 0
            }
            &&& e.row >= e.points.len() || e.points.len() <= 1 ==> r == c
        }),
{
}

/// `u` and `d` swap the active point with the one above or below it, the
/// cursor going with it; at the end of the list they do nothing more than
/// commit.
pub proof fn law_moving_a_point(e: EditorView, upper: bool)
    requires
        committed(e).1,
        e.row < e.points.len(),
        e.points.len() <= usize::MAX,
    ensures
        ({
            let c = committed(e).0;
            let k = e.row as int;
            let up = edited(
                e,
                KeyCode::Char(
                    if upper {
                        'U'
                    } else {
                        'u'
                    },
                ),
            );
            let down = edited(
                e,
                KeyCode::Char(
                    if upper {
                        'D'
                    } else {
                        'd'
                    },
                ),
            );
            &&& k > 0 ==> up.points == c.points.update(k, c.points[k - 1]).update(k - 1, c.points[k])
                && up.row == k - 1
            &&& k == 0 ==> up == c
            &&& k + 1 < e.points.len() ==> down.points == c.points.update(
                k,
                c.points[k + 1],
            ).update(k + 1, c.points[k]) && down.row == k + 1
            &&& k + 1 == e.points.len() ==> down == c
        }),
{
    let c = committed(e).0;
    let k = e.row as int;
    assert(c.points.len() == e.points.len());
    let p = c.points[k];
    if k > 0 {
        assert(c.points.remove(k).insert(k - 1, p) =~= c.points.update(k, c.points[k - 1]).update(
            k - 1,
            p,
        ));
    }
    if k + 1 < e.points.len() {
        assert(c.points.remove(k).insert(k + 1, p) =~= c.points.update(k, c.points[k + 1]).update(
            k + 1,
            p,
        ));
    }
}

/// Up and Down go to the row above or below, round the points and the default
/// row, and show the value there; the points stay as committed.
pub proof fn law_moving_the_cursor(e: EditorView)
    requires
        committed(e).1,
        e.row <= e.points.len(),
        e.points.len() < usize::MAX,
        e.field <= 1,
    ensures
        ({
            let c = committed(e).0;
            let n = e.points.len();
            let up = edited(e, KeyCode::Up);
            let down = edited(e, KeyCode::Down);
            &&& up.points == c.points && down.points == c.points
            &&& up.row == if e.row > 0 {
                e.row - 1
            } else {
                n as int
            }
            &&& down.row == if e.row < n {
                e.row + 1
            } else {
                0
            }
            &&& up.row < n && e.field == 0 ==> up.field == 0 && up.text == quantity::shown(
                c.points[up.row as int].temp as int,
            )
            &&& up.row < n && e.field == 1 ==> up.field == 1 && up.text == quantity::shown(
                c.points[up.row as int].duty as int,
            )
            &&& down.row < n && e.field == 0 ==> down.field == 0 && down.text == quantity::shown(
                c.points[down.row as int].temp as int,
            )
            &&& down.row < n && e.field == 1 ==> down.field == 1 && down.text == quantity::shown(
                c.points[down.row as int].duty as int,
            )
            &&& up.row == n ==> up.text.len() == 0
            &&& down.row == n ==> down.text.len() == 0
            &&& up.default_mode == e.default_mode && down.default_mode == e.default_mode
        }),
{
    let c = committed(e).0;
    assert(c.points.len() == e.points.len());
    let rows = e.points.len() as int + 1;
    let r = e.row as int;
    if r > 0 {
        vstd::arithmetic::div_mod::lemma_small_mod((r - 1) as nat, rows as nat);
    } else {
        vstd::arithmetic::div_mod::lemma_fundamental_div_mod_converse(-1, rows, -1, rows - 1);
    }
    if r + 1 < rows {
        vstd::arithmetic::div_mod::lemma_small_mod((r + 1) as nat, rows as nat);
    } else {
        vstd::arithmetic::div_mod::lemma_mod_self_0(rows);
    }
}

/// Left and Right go to the other field of a point and show its value; on the
/// default row Right goes from auto to off, to full, and to auto again, and
/// Left the other way.
pub proof fn law_sideways_keys(e: EditorView)
    requires
        committed(e).1,
        e.field <= 1,
    ensures
        ({
            let c = committed(e).0;
            let left = edited(e, KeyCode::Left);
            let right = edited(e, KeyCode::Right);
            &&& left.points == c.points && right.points == c.points
            &&& e.row < e.points.len() ==> {
                &&& left == right && left.row == e.row && left.field == 1 - e.field
                &&& e.field == 1 ==> left.text == quantity::shown(
                    c.points[e.row as int].temp as int,
                )
                &&& e.field == 0 ==> left.text == quantity::shown(
                    c.points[e.row as int].duty as int,
                )
                &&& left.default_mode == e.default_mode
            }
            &&& e.row >= e.points.len() ==> {
                &&& e.default_mode == InitialMode::Auto ==> right.default_mode == InitialMode::Off
                    && left.default_mode == InitialMode::Full
                &&& e.default_mode == InitialMode::Off ==> right.default_mode == InitialMode::Full
                    && left.default_mode == InitialMode::Auto
                &&& e.default_mode == InitialMode::Full ==> right.default_mode == InitialMode::Auto
                    && left.default_mode == InitialMode::Off
            }
        }),
{
    let c = committed(e).0;
    assert(c.points.len() == e.points.len());
}

/// A key that would leave a field that cannot be committed only says so.
pub proof fn law_bad_field_holds_the_cursor(e: EditorView, code: KeyCode)
    requires
        !committed(e).1,
        code == KeyCode::Enter || code == KeyCode::Up || code == KeyCode::Down || code
            == KeyCode::Left || code == KeyCode::Right || code == KeyCode::Char('a') || code
            == KeyCode::Char('x') || code == KeyCode::Char('u') || code == KeyCode::Char('d'),
    ensures
        edited(e, code) == committed(e).0,
        edited(e, code).points == e.points,
        edited(e, code).row == e.row,
{
}

/// A digit or a point goes behind the text of a field, up to six characters,
/// and Backspace takes the last one away; the points stay. Other characters,
/// and typing on the default row, change nothing.
pub proof fn law_typing_into_a_field(e: EditorView, ch: char)
    requires
        ch != 'a' && ch != 'A' && ch != 'x' && ch != 'X' && ch != 'u' && ch != 'U' && ch != 'd'
            && ch != 'D',
    ensures
        ({
            let r = edited(e, KeyCode::Char(ch));
            let takes = e.row < e.points.len() && (('0' <= ch && ch <= '9') || ch == '.')
                && e.text.len() < 6;
            &&& takes ==> r == (EditorView { text: e.text.push(ch), error: None, ..e })
            &&& !takes ==> r == e
        }),
        ({
            let r = edited(e, KeyCode::Backspace);
            &&& r.points == e.points && r.row == e.row && r.field == e.field
            &&& e.row < e.points.len() && e.text.len() > 0 ==> r.text == e.text.drop_last()
            &&& e.row < e.points.len() ==> r.error is None
            &&& e.row >= e.points.len() ==> r == e
        }),
{
}

} // verus!
