//! The shared one-shot `--set` command, offered by both programs:
//! `fanctld --set pwm1=99` writes the chip directly and exits, while
//! `fanctlui --set pwm1=99` sends the same mode to a running `fanctld` over
//! its socket and exits. This module parses the argument and words the
//! outcome; each program applies the mode its own way.

use vstd::prelude::*;
use crate::ipc::{Mode, Response};
use crate::number;
use crate::text;

verus! {

/// One parsed `--set FAN=MODE` argument.
#[derive(Debug, PartialEq, Eq)]
pub struct SetCommand {
    /// The fan to address: its `pwmN` id as known to the daemon (or to the
    /// config, for the one-shot `fanctld` form).
    pub fan: String,
    /// The mode to apply to it.
    pub mode: Mode,
}

/// A [`SetCommand`] with its text as character sequences.
pub struct SetView {
    pub fan: Seq<char>,
    pub mode: Mode,
}

impl View for SetCommand {
    type V = SetView;

    open spec fn view(&self) -> SetView {
        SetView { fan: self.fan@, mode: self.mode }
    }
}

impl DeepView for SetCommand {
    type V = SetView;

    open spec fn deep_view(&self) -> SetView {
        self.view()
    }
}

/// The mode that `s` names: `auto`, `off`, `full`, or a percentage.
pub open spec fn mode_in(s: Seq<char>) -> Result<Mode, Seq<char>> {
    let t = text::trimmed(s);
    if t == "auto"@ {
        Ok(Mode::Auto)
    } else if t == "off"@ {
        Ok(Mode::Off)
    } else if t == "full"@ {
        Ok(Mode::Full)
    } else {
        match number::parsed_nat(t, u32::MAX as nat) {
            Some(p) => if p <= 100 {
                Ok(Mode::Manual { percent: p as u8 })
            } else {
                Err(
                    "bad --set value "@ + text::debug_text(s)
                        + ": the percent must be in 0..=100 (got "@ + number::decimal(p) + ")"@,
                )
            },
            None => Err(
                "bad --set value "@ + text::debug_text(s)
                    + ": expected a percent (0-100) or auto|off|full"@,
            ),
        }
    }
}

/// The command that a `--set` argument gives, or what is wrong with it.
pub open spec fn set_in(s: Seq<char>) -> Result<SetView, Seq<char>> {
    match text::parted(s, '=') {
        None => Err(
            "bad --set argument "@ + text::debug_text(s)
                + ": expected FAN=MODE, e.g. pwm1=99"@,
        ),
        Some((fan, mode)) => if text::trimmed(fan).len() == 0 {
            Err(
                "bad --set argument "@ + text::debug_text(s)
                    + ": the fan id must not be empty"@,
            )
        } else {
            match mode_in(mode) {
                Ok(m) => Ok(SetView { fan: text::trimmed(fan), mode: m }),
                Err(e) => Err(e),
            }
        },
    }
}

/// A result with its text as character sequences.
pub open spec fn set_result(r: Result<SetCommand, String>) -> Result<SetView, Seq<char>> {
    match r {
        Ok(c) => Ok(c@),
        Err(e) => Err(e@),
    }
}

/// A result with its text as character sequences.
pub open spec fn mode_result(r: Result<Mode, String>) -> Result<Mode, Seq<char>> {
    match r {
        Ok(m) => Ok(m),
        Err(e) => Err(e@),
    }
}

fn parse_mode(s: &str) -> (r: Result<Mode, String>)
    ensures
        mode_result(r) == mode_in(s@),
{
    let t = text::trim(s);
    if text::str_eq(t.as_str(), "auto") {
        return Ok(Mode::Auto);
    }
    if text::str_eq(t.as_str(), "off") {
        return Ok(Mode::Off);
    }
    if text::str_eq(t.as_str(), "full") {
        return Ok(Mode::Full);
    }
    match number::parse_u32(t.as_str()) {
        Some(p) => {
            if p <= 100 {
                return Ok(Mode::Manual { percent: p as u8 });
            }
            let quoted = text::debug_quoted(s);
            let n = number::u64_text(p as u64);
            let head = text::cat3(
                "bad --set value ",
                quoted.as_str(),
                ": the percent must be in 0..=100 (got ",
            );
            Err(text::cat3(head.as_str(), n.as_str(), ")"))
        },
        None => {
            let quoted = text::debug_quoted(s);
            Err(
                text::cat3(
                    "bad --set value ",
                    quoted.as_str(),
                    ": expected a percent (0-100) or auto|off|full",
                ),
            )
        },
    }
}

/// Parse one `--set` argument, `FAN=MODE`.
///
/// `MODE` is either a duty in percent (`0..=100`, e.g. `99`), or one of the
/// keywords `auto`, `off`, `full` (the same choices the TUI keys `a` / `o` /
/// `f` apply).
pub fn parse_set(s: &str) -> (r: Result<SetCommand, String>)
    ensures
        set_result(r) == set_in(s@),
{
    match text::split_once(s, '=') {
        None => {
            let quoted = text::debug_quoted(s);
            Err(
                text::cat3(
                    "bad --set argument ",
                    quoted.as_str(),
                    ": expected FAN=MODE, e.g. pwm1=99",
                ),
            )
        },
        Some((fan, mode)) => {
            let fan = text::trim(fan.as_str());
            if text::chars_of(fan.as_str()).len() == 0 {
                let quoted = text::debug_quoted(s);
                return Err(
                    text::cat3(
                        "bad --set argument ",
                        quoted.as_str(),
                        ": the fan id must not be empty",
                    ),
                );
            }
            match parse_mode(mode.as_str()) {
                Ok(mode) => Ok(SetCommand { fan, mode }),
                Err(e) => Err(e),
            }
        },
    }
}

/// The commands that `--set` arguments give, or what is wrong with the first
/// bad one.
pub open spec fn sets_in(args: Seq<Seq<char>>) -> Result<Seq<SetView>, Seq<char>>
    decreases args.len(),
{
    if args.len() == 0 {
        Ok(Seq::empty())
    } else {
        match sets_in(args.drop_last()) {
            Ok(rest) => match set_in(args.last()) {
                Ok(c) => Ok(rest.push(c)),
                Err(e) => Err(e),
            },
            Err(e) => Err(e),
        }
    }
}

/// Parse every `--set` argument up front, so a bad one fails before any write.
pub fn parse_sets(args: &Vec<String>) -> (r: Result<Vec<SetCommand>, String>)
    ensures
        match (r, sets_in(args.deep_view())) {
            (Ok(v), Ok(s)) => v.deep_view() == s,
            (Err(e), Err(m)) => e@ == m,
            _ => false,
        },
{
    let ghost s = args.deep_view();
    let mut out: Vec<SetCommand> = Vec::new();
    let mut i: usize = 0;
    assert(s.take(0) =~= Seq::<Seq<char>>::empty());
    assert(out.deep_view() =~= Seq::<SetView>::empty());
    while i < args.len()
        invariant
            i <= args@.len(),
            s == args.deep_view(),
            sets_in(s.take(i as int)) == Ok::<Seq<SetView>, Seq<char>>(out.deep_view()),
        decreases args@.len() - i,
    {
        let ghost before = out.deep_view();
        proof {
            assert(s.take(i + 1).drop_last() =~= s.take(i as int));
            assert(s.take(i + 1).last() == args@[i as int]@);
        }
        match parse_set(args[i].as_str()) {
            Ok(c) => {
                out.push(c);
                assert(out.deep_view() =~= before.push(c@));
            },
            Err(e) => {
                proof {
                    lemma_first_bad(s, i + 1);
                }
                return Err(e);
            },
        }
        i += 1;
    }
    assert(s.take(i as int) =~= s);
    Ok(out)
}

proof fn lemma_first_bad(args: Seq<Seq<char>>, n: int)
    requires
        0 <= n <= args.len(),
        sets_in(args.take(n)) is Err,
    ensures
        sets_in(args) == sets_in(args.take(n)),
    decreases args.len(),
{
    if n < args.len() {
        let t = args.drop_last();
        assert(t.take(n) =~= args.take(n));
        lemma_first_bad(t, n);
    } else {
        assert(args.take(n) =~= args);
    }
}

/// A percentage from 0 to 100 set on any fan is taken as that duty; a larger
/// one is refused. (The fan's id holds no `=` and no surrounding blanks.)
pub proof fn law_percentages_are_taken(fan: Seq<char>, p: nat)
    requires
        fan.len() > 0,
        text::trimmed(fan) == fan,
        !fan.contains('='),
        p <= u32::MAX,
    ensures
        p <= 100 ==> set_in(fan + "="@ + number::decimal(p)) == Ok::<SetView, Seq<char>>(
            SetView { fan, mode: Mode::Manual { percent: p as u8 } },
        ),
        p > 100 ==> set_in(fan + "="@ + number::decimal(p)) is Err,
{
    let d = number::decimal(p);
    let s = fan + "="@ + d;
    reveal_strlit("=");
    assert forall|i: int| 0 <= i < fan.len() implies s[i] != '=' by {
        assert(s[i] == fan[i]);
        assert(fan.contains(fan[i]));
    }
    text::lemma_first_of_is(s, '=', fan.len());
    assert(s.take(fan.len() as int) =~= fan);
    assert(s.skip(fan.len() as int + 1) =~= d);
    number::lemma_decimal(p);
    number::lemma_decimal_is_trimmed(p);
    number::law_decimal_round_trip(p, u32::MAX as nat);
    reveal_strlit("auto");
    reveal_strlit("off");
    reveal_strlit("full");
    assert(text::digit(d[0]));
    assert("auto"@[0] == 'a' && "off"@[0] == 'o' && "full"@[0] == 'f');
}

// ---- the outcome ----------------------------------------------------------

/// The line for a mode that `fanctld` wrote to a chip.
pub fn applied_line(c: &SetCommand) -> (r: String)
    ensures
        r@ == c@.fan + ": set to "@ + c@.mode.spec_label(),
{
    let label = c.mode.label();
    text::cat3(c.fan.as_str(), ": set to ", label.as_str())
}

/// The line for a fan that something is wrong with.
pub fn failed_line(program: &str, fan: &str, why: &str) -> (r: String)
    ensures
        r@ == program@ + ": "@ + fan@ + ": "@ + why@,
{
    let head = text::cat3(program, ": ", fan);
    text::cat3(head.as_str(), ": ", why)
}

/// What follows an error that looks as if no daemon were there.
pub open spec fn hint(why: Seq<char>) -> Seq<char> {
    if text::occurs_in(why, "Connection refused"@) || text::occurs_in(why, "No such file"@) {
        " (is fanctld running?)"@
    } else {
        ""@
    }
}

/// The outcome of a `--set` that went through the daemon.
#[derive(Debug, PartialEq)]
pub enum Sent {
    /// It was applied: a line for the standard output.
    Applied(String),
    /// It was not: a line for the standard error.
    Failed(String),
    /// The daemon answered with something else.
    Unexpected,
}

/// A [`Sent`] with its text as character sequences.
pub enum SentView {
    Applied(Seq<char>),
    Failed(Seq<char>),
    Unexpected,
}

impl View for Sent {
    type V = SentView;

    open spec fn view(&self) -> SentView {
        match self {
            Sent::Applied(s) => SentView::Applied(s@),
            Sent::Failed(s) => SentView::Failed(s@),
            Sent::Unexpected => SentView::Unexpected,
        }
    }
}

/// Word the daemon's answer to a `--set`.
pub fn sent(c: &SetCommand, reply: &Result<Response, String>) -> (r: Sent)
    ensures
        r@ == (match reply {
            Ok(Response::Done) => SentView::Applied(
                c@.fan + ": set to "@ + c@.mode.spec_label() + " (via fanctld)"@,
            ),
            Ok(Response::Error { message }) => SentView::Failed(
                "fanctlui"@ + ": "@ + c@.fan + ": "@ + message@,
            ),
            Ok(Response::State { .. }) => SentView::Unexpected,
            Err(why) => SentView::Failed(
                "fanctlui"@ + ": "@ + c@.fan + ": "@ + why@ + hint(why@),
            ),
        }),
{
    match reply {
        Ok(Response::Done) => {
            let line = applied_line(c);
            Sent::Applied(text::cat(line.as_str(), " (via fanctld)"))
        },
        Ok(Response::Error { message }) => Sent::Failed(
            failed_line("fanctlui", c.fan.as_str(), message.as_str()),
        ),
        Ok(Response::State { .. }) => Sent::Unexpected,
        Err(why) => {
            let line = failed_line("fanctlui", c.fan.as_str(), why.as_str());
            if text::contains(why.as_str(), "Connection refused") || text::contains(
                why.as_str(),
                "No such file",
            ) {
                Sent::Failed(text::cat(line.as_str(), " (is fanctld running?)"))
            } else {
                Sent::Failed(text::cat(line.as_str(), ""))
            }
        },
    }
}

/// The modes of `--set`: the words `auto`, `off` and `full`, with blanks
/// around them or not, are those modes, a number up to 100 is that duty, and
/// nothing else is a mode.
pub proof fn law_set_modes(s: Seq<char>)
    ensures
        text::trimmed(s) == "auto"@ ==> mode_in(s) == Ok::<Mode, Seq<char>>(Mode::Auto),
        text::trimmed(s) == "off"@ ==> mode_in(s) == Ok::<Mode, Seq<char>>(Mode::Off),
        text::trimmed(s) == "full"@ ==> mode_in(s) == Ok::<Mode, Seq<char>>(Mode::Full),
        mode_in(s) matches Ok(m) ==> match m {
            Mode::Auto => text::trimmed(s) == "auto"@,
            Mode::Off => text::trimmed(s) == "off"@,
            Mode::Full => text::trimmed(s) == "full"@,
            Mode::Manual { percent } => percent <= 100 && number::parsed_nat(
                text::trimmed(s),
                u32::MAX as nat,
            ) == Some(percent as nat),
        },
{
    reveal_strlit("auto");
    reveal_strlit("off");
    reveal_strlit("full");
    assert("auto"@.len() == 4 && "off"@.len() == 3 && "full"@.len() == 4);
    assert("auto"@[0] == 'a' && "full"@[0] == 'f');
}

/// A `--set` argument is the fan before the first `=` and the mode behind it.
pub proof fn law_set_argument(fan: Seq<char>, mode: Seq<char>)
    requires
        !fan.contains('='),
    ensures
        ({
            let r = set_in(fan + seq!['='] + mode);
            &&& text::trimmed(fan).len() == 0 ==> r is Err
            &&& text::trimmed(fan).len() > 0 ==> (r is Ok <==> mode_in(mode) is Ok)
            &&& r matches Ok(c) ==> c.fan == text::trimmed(fan) && mode_in(mode) == Ok::<
                Mode,
                Seq<char>,
            >(c.mode)
        }),
        set_in(fan) is Err,
{
    text::law_text_is_split(fan, '=', mode);
}

/// All `--set` arguments are read, in order; one bad one spoils them all.
pub proof fn law_every_set_counts(args: Seq<Seq<char>>)
    ensures
        sets_in(args) is Ok <==> forall|i: int|
            0 <= i < args.len() ==> set_in(#[trigger] args[i]) is Ok,
        sets_in(args) matches Ok(v) ==> v.len() == args.len() && forall|i: int|
            0 <= i < args.len() ==> set_in(#[trigger] args[i]) == Ok::<SetView, Seq<char>>(v[i]),
        sets_in(args) matches Err(e) ==> exists|i: int|
            0 <= i < args.len() && set_in(#[trigger] args[i]) == Err::<SetView, Seq<char>>(e)
                && forall|j: int| 0 <= j < i ==> set_in(#[trigger] args[j]) is Ok,
    decreases args.len(),
{
    if args.len() > 0 {
        let t = args.drop_last();
        let n = args.len() - 1;
        law_every_set_counts(t);
        assert forall|i: int| 0 <= i < n implies t[i] == #[trigger] args[i] by {}
        if sets_in(t) is Ok {
            if set_in(args[n]) is Ok {
                let v = sets_in(args)->Ok_0;
                assert forall|i: int| 0 <= i < args.len() implies set_in(#[trigger] args[i]) == Ok::<
                    SetView,
                    Seq<char>,
                >(v[i]) by {
                    if i < n {
                        assert(set_in(t[i]) is Ok);
                    }
                }
            } else {
                assert forall|j: int| 0 <= j < n implies set_in(#[trigger] args[j]) is Ok by {
                    assert(set_in(t[j]) is Ok);
                }
            }
        } else {
            let e = sets_in(t)->Err_0;
            let i = choose|i: int|
                0 <= i < t.len() && set_in(#[trigger] t[i]) == Err::<SetView, Seq<char>>(e)
                    && forall|j: int| 0 <= j < i ==> set_in(#[trigger] t[j]) is Ok;
            assert(set_in(args[i]) == Err::<SetView, Seq<char>>(e));
            assert forall|j: int| 0 <= j < i implies set_in(#[trigger] args[j]) is Ok by {
                assert(set_in(t[j]) is Ok);
            }
        }
    }
}

/// An error that tells of no daemon is followed by a hint, and no other is.
pub proof fn law_hint(why: Seq<char>)
    ensures
        text::occurs_in(why, "Connection refused"@) || text::occurs_in(why, "No such file"@)
            ==> hint(why) == " (is fanctld running?)"@,
        !text::occurs_in(why, "Connection refused"@) && !text::occurs_in(why, "No such file"@)
            ==> hint(why).len() == 0,
{
    reveal_strlit("");
}

} // verus!
