use vstd::prelude::*;
use crate::syntax::{chars_view, parse_usize, words};
use crate::text::decimal;

verus! {

/// What the debugger shows or does after a command.
pub enum DebugActionV {
    Nothing,
    Current,
    State,
    Registers,
    Caps,
    Diff(usize, usize),
    Slice(usize, usize),
    ExportSlice(usize, usize, Seq<char>),
    Why,
    Event,
    Source,
    Help,
    Quit,
    Unknown(Seq<char>),
}

/// The `k`-th word, if there is one.
pub open spec fn word_at(ws: Seq<Seq<char>>, k: int) -> Option<Seq<char>> {
    if 0 <= k < ws.len() {
        Some(ws[k])
    } else {
        None
    }
}

/// An optional step count: one when absent.
pub open spec fn amount_of(w: Option<Seq<char>>) -> Result<usize, Seq<char>> {
    match parse_usize(match w {
        Some(t) => t,
        None => "1"@,
    }) {
        Some(a) => Ok(a),
        None => Err("invalid amount"@),
    }
}

/// A required event index, with the message for its absence.
pub open spec fn index_of(w: Option<Seq<char>>, missing: Seq<char>) -> Result<usize, Seq<char>> {
    match w {
        None => Err(missing),
        Some(t) => match parse_usize(t) {
            Some(i) => Ok(i),
            None => Err("invalid event index"@),
        },
    }
}

/// Two required event indexes.
pub open spec fn range_of(ws: Seq<Seq<char>>, m1: Seq<char>, m2: Seq<char>) -> Result<(usize, usize), Seq<char>> {
    match index_of(word_at(ws, 1), m1) {
        Err(e) => Err(e),
        Ok(from) => match index_of(word_at(ws, 2), m2) {
            Err(e) => Err(e),
            Ok(to) => Ok((from, to)),
        },
    }
}

/// The debugger at event `index` of a trace of `len` events, after `command`: the new event
/// index and what to show, or the message of a command it refuses.
pub open spec fn debug_step(index: usize, len: usize, command: Seq<char>) -> Result<(usize, DebugActionV), Seq<char>> {
    let ws = words(command);
    let head = match word_at(ws, 0) {
        Some(w) => w,
        None => Seq::empty(),
    };
    if command.len() == 0 {
        Ok((index, DebugActionV::Nothing))
    } else if head == "n"@ || head == "next"@ {
        Ok((if index + 1 < len { (index + 1) as usize } else { index }, DebugActionV::Current))
    } else if head == "p"@ || head == "prev"@ {
        Ok((if index > 0 { (index - 1) as usize } else { 0 }, DebugActionV::Current))
    } else if head == "back"@ {
        match amount_of(word_at(ws, 1)) {
            Err(e) => Err(e),
            Ok(a) => Ok((if index >= a { (index - a) as usize } else { 0 }, DebugActionV::Current)),
        }
    } else if head == "forward"@ {
        match amount_of(word_at(ws, 1)) {
            Err(e) => Err(e),
            Ok(a) => Ok((if index + a < len - 1 { (index + a) as usize } else { (len - 1) as usize }, DebugActionV::Current)),
        }
    } else if head == "j"@ || head == "jump"@ {
        match word_at(ws, 1) {
            None => Err("jump expects an event index"@),
            Some(t) => match parse_usize(t) {
                None => Err("invalid event index"@),
                Some(i) => if i >= len {
                    Err("event index "@ + decimal(i as nat) + " out of bounds"@)
                } else {
                    Ok((i, DebugActionV::Current))
                },
            },
        }
    } else if head == "state"@ {
        Ok((index, DebugActionV::State))
    } else if head == "r"@ || head == "regs"@ {
        Ok((index, DebugActionV::Registers))
    } else if head == "c"@ || head == "caps"@ {
        Ok((index, DebugActionV::Caps))
    } else if head == "diff"@ {
        match range_of(ws, "diff expects from index"@, "diff expects to index"@) {
            Err(e) => Err(e),
            Ok((from, to)) => Ok((index, DebugActionV::Diff(from, to))),
        }
    } else if head == "slice"@ {
        match range_of(ws, "slice expects from index"@, "slice expects to index"@) {
            Err(e) => Err(e),
            Ok((from, to)) => Ok((index, DebugActionV::Slice(from, to))),
        }
    } else if head == "export-slice"@ {
        match range_of(ws, "export-slice expects from index"@, "export-slice expects to index"@) {
            Err(e) => Err(e),
            Ok((from, to)) => if word_at(ws, 3) != Some("--out"@) {
                Err("export-slice expects --out path"@)
            } else {
                match word_at(ws, 4) {
                    None => Err("export-slice expects output path"@),
                    Some(path) => Ok((index, DebugActionV::ExportSlice(from, to, path))),
                }
            },
        }
    } else if head == "why"@ {
        Ok((index, DebugActionV::Why))
    } else if head == "e"@ || head == "event"@ {
        Ok((index, DebugActionV::Event))
    } else if head == "s"@ || head == "source"@ {
        Ok((index, DebugActionV::Source))
    } else if head == "h"@ || head == "help"@ {
        Ok((index, DebugActionV::Help))
    } else if head == "q"@ || head == "quit"@ || head == "exit"@ {
        Ok((index, DebugActionV::Quit))
    } else {
        Ok((index, DebugActionV::Unknown(head)))
    }
}

/// The debugger never leaves the trace: from an event of a trace, every command it accepts
/// leads to an event of the same trace, and only a command that moves (answered by showing
/// the current event) changes the event; a refused command gives no event, so the session
/// stays where it was.
pub proof fn debugger_stays_in_trace(index: usize, len: usize, command: Seq<char>)
    requires
        index < len,
    ensures
        debug_step(index, len, command) matches Ok((i, _)) ==> i < len,
        debug_step(index, len, command) matches Ok((i, a)) ==> (!(a is Current) ==> i == index),
{
}

/// What a one-word command shows: `state` the machine state, `r`/`regs` the registers,
/// `c`/`caps` the capability calls, `why` the failure, `e`/`event` the event, `s`/`source`
/// the source line, `h`/`help` the help, and `q`/`quit`/`exit` ends the session.
pub open spec fn shown_by(word: Seq<char>) -> Option<DebugActionV> {
    if word == "state"@ {
        Some(DebugActionV::State)
    } else if word == "r"@ || word == "regs"@ {
        Some(DebugActionV::Registers)
    } else if word == "c"@ || word == "caps"@ {
        Some(DebugActionV::Caps)
    } else if word == "why"@ {
        Some(DebugActionV::Why)
    } else if word == "e"@ || word == "event"@ {
        Some(DebugActionV::Event)
    } else if word == "s"@ || word == "source"@ {
        Some(DebugActionV::Source)
    } else if word == "h"@ || word == "help"@ {
        Some(DebugActionV::Help)
    } else if word == "q"@ || word == "quit"@ || word == "exit"@ {
        Some(DebugActionV::Quit)
    } else {
        None
    }
}

/// Each command word does what it names: a command whose first word names a view shows that
/// view and stays at the event; `n`/`next` and `p`/`prev` move one event forward and back
/// within the trace; `j`/`jump` with an index inside the trace goes there.
#[verifier::rlimit(50)]
pub proof fn commands_do_what_they_name(index: usize, len: usize, command: Seq<char>)
    requires
        index < len,
        command.len() > 0,
    ensures
        word_at(words(command), 0) matches Some(w) ==> (shown_by(w) is Some ==> debug_step(index, len, command)
            == Ok::<(usize, DebugActionV), Seq<char>>((index, shown_by(w)->Some_0))),
        word_at(words(command), 0) matches Some(w) ==> ((w == "n"@ || w == "next"@) ==> debug_step(index, len, command)
            == Ok::<(usize, DebugActionV), Seq<char>>((if index + 1 < len { (index + 1) as usize } else { index }, DebugActionV::Current))),
        word_at(words(command), 0) matches Some(w) ==> ((w == "p"@ || w == "prev"@) ==> debug_step(index, len, command)
            == Ok::<(usize, DebugActionV), Seq<char>>((if index > 0 { (index - 1) as usize } else { 0 }, DebugActionV::Current))),
        word_at(words(command), 0) matches Some(w) ==> ((w == "j"@ || w == "jump"@) ==> (word_at(words(command), 1) matches Some(t)
            ==> (parse_usize(t) matches Some(k) ==> (k < len ==> debug_step(index, len, command)
            == Ok::<(usize, DebugActionV), Seq<char>>((k, DebugActionV::Current)))))),
{
    reveal_strlit("n");
    reveal_strlit("next");
    reveal_strlit("p");
    reveal_strlit("prev");
    reveal_strlit("back");
    reveal_strlit("forward");
    reveal_strlit("j");
    reveal_strlit("jump");
    reveal_strlit("state");
    reveal_strlit("r");
    reveal_strlit("regs");
    reveal_strlit("c");
    reveal_strlit("caps");
    reveal_strlit("diff");
    reveal_strlit("slice");
    reveal_strlit("export-slice");
    reveal_strlit("why");
    reveal_strlit("e");
    reveal_strlit("event");
    reveal_strlit("s");
    reveal_strlit("source");
    reveal_strlit("h");
    reveal_strlit("help");
    reveal_strlit("q");
    reveal_strlit("quit");
    reveal_strlit("exit");
    assert("n"@.len() == 1 && "n"@[0] == 'n');
    assert("next"@.len() == 4 && "next"@[0] == 'n' && "next"@[1] == 'e');
    assert("p"@.len() == 1 && "p"@[0] == 'p');
    assert("prev"@.len() == 4 && "prev"@[0] == 'p' && "prev"@[1] == 'r');
    assert("back"@.len() == 4 && "back"@[0] == 'b' && "back"@[1] == 'a');
    assert("forward"@.len() == 7 && "forward"@[0] == 'f' && "forward"@[1] == 'o');
    assert("j"@.len() == 1 && "j"@[0] == 'j');
    assert("jump"@.len() == 4 && "jump"@[0] == 'j' && "jump"@[1] == 'u');
    assert("state"@.len() == 5 && "state"@[0] == 's' && "state"@[1] == 't');
    assert("r"@.len() == 1 && "r"@[0] == 'r');
    assert("regs"@.len() == 4 && "regs"@[0] == 'r' && "regs"@[1] == 'e');
    assert("c"@.len() == 1 && "c"@[0] == 'c');
    assert("caps"@.len() == 4 && "caps"@[0] == 'c' && "caps"@[1] == 'a');
    assert("diff"@.len() == 4 && "diff"@[0] == 'd' && "diff"@[1] == 'i');
    assert("slice"@.len() == 5 && "slice"@[0] == 's' && "slice"@[1] == 'l');
    assert("export-slice"@.len() == 12 && "export-slice"@[0] == 'e' && "export-slice"@[1] == 'x');
    assert("why"@.len() == 3 && "why"@[0] == 'w' && "why"@[1] == 'h');
    assert("e"@.len() == 1 && "e"@[0] == 'e');
    assert("event"@.len() == 5 && "event"@[0] == 'e' && "event"@[1] == 'v');
    assert("s"@.len() == 1 && "s"@[0] == 's');
    assert("source"@.len() == 6 && "source"@[0] == 's' && "source"@[1] == 'o');
    assert("h"@.len() == 1 && "h"@[0] == 'h');
    assert("help"@.len() == 4 && "help"@[0] == 'h' && "help"@[1] == 'e');
    assert("q"@.len() == 1 && "q"@[0] == 'q');
    assert("quit"@.len() == 4 && "quit"@[0] == 'q' && "quit"@[1] == 'u');
    assert("exit"@.len() == 4 && "exit"@[0] == 'e' && "exit"@[1] == 'x');
}

/// What the debugger shows or does after a command (see [`DebugActionV`]).
#[derive(Debug)]
pub enum DebugAction {
    Nothing,
    Current,
    State,
    Registers,
    Caps,
    Diff(usize, usize),
    Slice(usize, usize),
    ExportSlice(usize, usize, String),
    Why,
    Event,
    Source,
    Help,
    Quit,
    Unknown(String),
}

impl View for DebugAction {
    type V = DebugActionV;

    open spec fn view(&self) -> DebugActionV {
        match self {
            DebugAction::Nothing => DebugActionV::Nothing,
            DebugAction::Current => DebugActionV::Current,
            DebugAction::State => DebugActionV::State,
            DebugAction::Registers => DebugActionV::Registers,
            DebugAction::Caps => DebugActionV::Caps,
            DebugAction::Diff(a, b) => DebugActionV::Diff(*a, *b),
            DebugAction::Slice(a, b) => DebugActionV::Slice(*a, *b),
            DebugAction::ExportSlice(a, b, p) => DebugActionV::ExportSlice(*a, *b, p@),
            DebugAction::Why => DebugActionV::Why,
            DebugAction::Event => DebugActionV::Event,
            DebugAction::Source => DebugActionV::Source,
            DebugAction::Help => DebugActionV::Help,
            DebugAction::Quit => DebugActionV::Quit,
            DebugAction::Unknown(w) => DebugActionV::Unknown(w@),
        }
    }
}

fn word_at_exec(ws: &Vec<Vec<char>>, k: usize) -> (r: Option<&Vec<char>>)
    ensures
        match r {
            Some(w) => word_at(chars_view(ws@), k as int) == Some(w@),
            None => word_at(chars_view(ws@), k as int) is None,
        },
{
    if k < ws.len() {
        Some(&ws[k])
    } else {
        None
    }
}

fn amount_exec(w: Option<&Vec<char>>) -> (r: Result<usize, String>)
    ensures
        match r {
            Ok(a) => amount_of(match w {
                Some(t) => Some(t@),
                None => None,
            }) == Ok::<usize, Seq<char>>(a),
            Err(e) => amount_of(match w {
                Some(t) => Some(t@),
                None => None,
            }) == Err::<usize, Seq<char>>(e@),
        },
{
    let one = crate::syntax::chars_of("1");
    let t = match w {
        Some(t) => t,
        None => &one,
    };
    match crate::syntax::parse_usize_exec(t) {
        Some(a) => Ok(a),
        None => Err(String::from_str("invalid amount")),
    }
}

fn index_exec(w: Option<&Vec<char>>, missing: &str) -> (r: Result<usize, String>)
    ensures
        match r {
            Ok(a) => index_of(match w {
                Some(t) => Some(t@),
                None => None,
            }, missing@) == Ok::<usize, Seq<char>>(a),
            Err(e) => index_of(match w {
                Some(t) => Some(t@),
                None => None,
            }, missing@) == Err::<usize, Seq<char>>(e@),
        },
{
    match w {
        None => Err(String::from_str(missing)),
        Some(t) => match crate::syntax::parse_usize_exec(t) {
            Some(i) => Ok(i),
            None => Err(String::from_str("invalid event index")),
        },
    }
}

fn range_exec(ws: &Vec<Vec<char>>, m1: &str, m2: &str) -> (r: Result<(usize, usize), String>)
    ensures
        match r {
            Ok(p) => range_of(chars_view(ws@), m1@, m2@) == Ok::<(usize, usize), Seq<char>>(p),
            Err(e) => range_of(chars_view(ws@), m1@, m2@) == Err::<(usize, usize), Seq<char>>(e@),
        },
{
    let from = match index_exec(word_at_exec(ws, 1), m1) {
        Ok(i) => i,
        Err(e) => return Err(e),
    };
    let to = match index_exec(word_at_exec(ws, 2), m2) {
        Ok(i) => i,
        Err(e) => return Err(e),
    };
    Ok((from, to))
}

pub open spec fn step_matches(r: Result<(usize, DebugAction), String>, s: Result<(usize, DebugActionV), Seq<char>>) -> bool {
    match (r, s) {
        (Ok((i, a)), Ok((j, b))) => i == j && a@ == b,
        (Err(e), Err(f)) => e@ == f,
        _ => false,
    }
}

/// The debugger's answer to `command` at event `index` of a trace of `len` events: the new
/// index and what to show, or the message of a refused command.
pub fn debug_command(index: usize, len: usize, command: &str) -> (r: Result<(usize, DebugAction), String>)
    requires
        index < len,
    ensures
        step_matches(r, debug_step(index, len, command@)),
{
    let cs = crate::syntax::chars_of(command);
    let ws = crate::syntax::words_of(&cs);
    let ghost wv = chars_view(ws@);
    assert(wv == words(command@));
    let empty: Vec<char> = Vec::new();
    let head: &Vec<char> = match word_at_exec(&ws, 0) {
        Some(w) => w,
        None => &empty,
    };
    let is = |a: &str| -> (b: bool)
        ensures
            b == (head@ == a@),
        { crate::syntax::chars_are(head, a) };
    if cs.len() == 0 {
        Ok((index, DebugAction::Nothing))
    } else if is("n") || is("next") {
        Ok((if index + 1 < len { index + 1 } else { index }, DebugAction::Current))
    } else if is("p") || is("prev") {
        Ok((if index > 0 { index - 1 } else { 0 }, DebugAction::Current))
    } else if is("back") {
        match amount_exec(word_at_exec(&ws, 1)) {
            Err(e) => Err(e),
            Ok(a) => Ok((if index >= a { index - a } else { 0 }, DebugAction::Current)),
        }
    } else if is("forward") {
        match amount_exec(word_at_exec(&ws, 1)) {
            Err(e) => Err(e),
            Ok(a) => Ok((if a < len - 1 - index { index + a } else { len - 1 }, DebugAction::Current)),
        }
    } else if is("j") || is("jump") {
        match word_at_exec(&ws, 1) {
            None => Err(String::from_str("jump expects an event index")),
            Some(t) => match crate::syntax::parse_usize_exec(t) {
                None => Err(String::from_str("invalid event index")),
                Some(i) => if i >= len {
                    let mut m = crate::text::with_decimal("event index ", i);
                    m.append(" out of bounds");
                    Err(m)
                } else {
                    Ok((i, DebugAction::Current))
                },
            },
        }
    } else if is("state") {
        Ok((index, DebugAction::State))
    } else if is("r") || is("regs") {
        Ok((index, DebugAction::Registers))
    } else if is("c") || is("caps") {
        Ok((index, DebugAction::Caps))
    } else if is("diff") {
        match range_exec(&ws, "diff expects from index", "diff expects to index") {
            Err(e) => Err(e),
            Ok((from, to)) => Ok((index, DebugAction::Diff(from, to))),
        }
    } else if is("slice") {
        match range_exec(&ws, "slice expects from index", "slice expects to index") {
            Err(e) => Err(e),
            Ok((from, to)) => Ok((index, DebugAction::Slice(from, to))),
        }
    } else if is("export-slice") {
        match range_exec(&ws, "export-slice expects from index", "export-slice expects to index") {
            Err(e) => Err(e),
            Ok((from, to)) => {
                let flag_ok = match word_at_exec(&ws, 3) {
                    Some(f) => crate::syntax::chars_are(f, "--out"),
                    None => false,
                };
                if !flag_ok {
                    return Err(String::from_str("export-slice expects --out path"));
                }
                match word_at_exec(&ws, 4) {
                    None => Err(String::from_str("export-slice expects output path")),
                    Some(p) => Ok((index, DebugAction::ExportSlice(from, to, crate::syntax::string_of_chars(p)))),
                }
            },
        }
    } else if is("why") {
        Ok((index, DebugAction::Why))
    } else if is("e") || is("event") {
        Ok((index, DebugAction::Event))
    } else if is("s") || is("source") {
        Ok((index, DebugAction::Source))
    } else if is("h") || is("help") {
        Ok((index, DebugAction::Help))
    } else if is("q") || is("quit") || is("exit") {
        Ok((index, DebugAction::Quit))
    } else {
        Ok((index, DebugAction::Unknown(crate::syntax::string_of_chars(head))))
    }
}

} // verus!
