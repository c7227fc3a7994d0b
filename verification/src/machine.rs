//! The escape state machine, as a mathematical model.
//!
//! A fragment is read one character at a time, left to right. The machine
//! starts in [`State::Begin`], and [`step`] says what one character does to it.
//! [`decode_spec`] is the output after the whole fragment has been read.
//!
//! The encoding is not JSON's. The first character of a fragment is always
//! consumed without being emitted, and every character, escaped or not, is
//! emitted as its low eight bits only. Both are deliberate.

use vstd::prelude::*;
use crate::hex::hex_value;

verus! {

/// Where the machine stands between two characters.
#[derive(Clone, Copy, Debug, PartialEq, Eq, Structural)]
pub enum State {
    /// Nothing has been read yet.
    Begin,
    /// Reading ordinary content.
    Normal,
    /// A backslash has just been read.
    Escaping,
    /// Inside the four hexadecimal digits that follow `\u`: `count` of them
    /// have been read and `value` is what they amount to so far.
    Unicode { count: u8, value: u32 },
    /// The closing quote has been read. Nothing that follows is looked at.
    End,
    /// A `\u` escape held a character that is no hexadecimal digit. Nothing
    /// that follows is looked at.
    Error,
}

impl State {
    /// Fewer than four digits are pending, and the pending value is one that
    /// so many digits can amount to.
    pub open spec fn wf(self) -> bool {
        match self {
            State::Unicode { count, value } => {
                ||| count == 0 && value == 0
                ||| count == 1 && value < 0x10
                ||| count == 2 && value < 0x100
                ||| count == 3 && value < 0x1000
            },
            _ => true,
        }
    }

    /// The two states that no character leaves.
    pub open spec fn is_terminal(self) -> bool {
        self is End || self is Error
    }
}

/// The whole machine: its state, whether the fragment opened with a quote, and
/// the bytes emitted so far.
pub struct Machine {
    pub state: State,
    pub quoted: bool,
    pub out: Seq<u8>,
}

/// The low eight bits of a character's scalar value.
pub open spec fn low_byte(c: char) -> u8 {
    (c as u32 % 0x100) as u8
}

/// Each character of `s` cut down to its low eight bits.
pub open spec fn low_bytes(s: Seq<char>) -> Seq<u8> {
    Seq::new(s.len(), |i: int| low_byte(s[i]))
}

/// The machine before the first character.
pub open spec fn initial() -> Machine {
    Machine { state: State::Begin, quoted: false, out: Seq::empty() }
}

/// The machine after reading `c`.
pub open spec fn step(m: Machine, c: char) -> Machine {
    match m.state {
        State::Begin => Machine { state: State::Normal, quoted: c == '"', out: m.out },
        State::Normal => {
            if c == '\\' {
                Machine { state: State::Escaping, ..m }
            } else if c == '"' && m.quoted {
                Machine { state: State::End, ..m }
            } else {
                Machine { out: m.out.push(low_byte(c)), ..m }
            }
        },
        State::Escaping => {
            if c == 'u' {
                Machine { state: State::Unicode { count: 0, value: 0 }, ..m }
            } else if c == 'n' {
                Machine { state: State::Normal, out: m.out.push(0x0a), ..m }
            } else if c == 't' {
                Machine { state: State::Normal, out: m.out.push(0x09), ..m }
            } else if c == 'r' {
                Machine { state: State::Normal, out: m.out.push(0x0d), ..m }
            } else {
                Machine { state: State::Normal, out: m.out.push(low_byte(c)), ..m }
            }
        },
        State::Unicode { count, value } => match hex_value(c) {
            Some(digit) => {
                let unit = value * 16 + digit;
                if count == 3 {
                    Machine { state: State::Normal, out: m.out.push((unit % 0x100) as u8), ..m }
                } else {
                    Machine {
                        state: State::Unicode { count: (count + 1) as u8, value: unit as u32 },
                        ..m
                    }
                }
            },
            None => Machine { state: State::Error, ..m },
        },
        State::End => m,
        State::Error => m,
    }
}

/// The machine after reading all of `s`, starting from `m`.
pub open spec fn run(m: Machine, s: Seq<char>) -> Machine
    decreases s.len(),
{
    if s.len() == 0 {
        m
    } else {
        step(run(m, s.drop_last()), s.last())
    }
}

/// The bytes that a fragment decodes to.
pub open spec fn decode_spec(fragment: Seq<char>) -> Seq<u8> {
    run(initial(), fragment).out
}

/// A step keeps a well-formed state well-formed.
pub proof fn lemma_step_wf(m: Machine, c: char)
    requires
        m.state.wf(),
    ensures
        step(m, c).state.wf(),
{
}

/// Reading characters keeps a well-formed state well-formed. In particular
/// every state that a fragment leads to is well-formed.
pub proof fn lemma_run_wf(m: Machine, s: Seq<char>)
    requires
        m.state.wf(),
    ensures
        run(m, s).state.wf(),
    decreases s.len(),
{
    if s.len() > 0 {
        lemma_run_wf(m, s.drop_last());
        lemma_step_wf(run(m, s.drop_last()), s.last());
    }
}

/// Reading one more character is one more step.
pub proof fn lemma_run_push(m: Machine, s: Seq<char>, c: char)
    ensures
        run(m, s.push(c)) == step(run(m, s), c),
{
    assert(s.push(c).drop_last() =~= s);
}

/// A machine in a terminal state stays as it is, whatever it reads.
pub proof fn lemma_run_terminal(m: Machine, s: Seq<char>)
    requires
        m.state.is_terminal(),
    ensures
        run(m, s) == m,
    decreases s.len(),
{
    if s.len() > 0 {
        lemma_run_terminal(m, s.drop_last());
    }
}

/// Reading `a` and then `b` is reading `a + b`.
pub proof fn lemma_run_concat(m: Machine, a: Seq<char>, b: Seq<char>)
    ensures
        run(m, a + b) == run(run(m, a), b),
    decreases b.len(),
{
    if b.len() == 0 {
        assert(a + b =~= a);
    } else {
        lemma_run_concat(m, a, b.drop_last());
        assert((a + b).drop_last() =~= a + b.drop_last());
        assert((a + b).last() == b.last());
    }
}

} // verus!
