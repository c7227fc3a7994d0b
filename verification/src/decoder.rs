//! The executable decoder.

use vstd::prelude::*;
use crate::grammar::{fragment_bytes, lemma_decode_reads_fragment};
use crate::hex::hex_digit;
use crate::machine::{
    decode_spec, initial, lemma_run_concat, lemma_run_push, lemma_run_terminal, low_byte, run,
    step, Machine, State,
};

verus! {

/// A decoder that is fed a fragment one character at a time.
pub struct Decoder {
    state: State,
    quoted: bool,
    out: Vec<u8>,
}

impl View for Decoder {
    type V = Machine;

    closed spec fn view(&self) -> Machine {
        Machine { state: self.state, quoted: self.quoted, out: self.out@ }
    }
}

/// The low eight bits of a character's scalar value. This is what the decoder
/// emits for a character, on purpose: it does not encode the character.
fn char_low_byte(c: char) -> (b: u8)
    ensures
        b == low_byte(c),
{
    (c as u32 % 0x100) as u8
}

impl Decoder {
    /// The state is one that reading characters can lead to.
    pub open spec fn wf(&self) -> bool {
        self@.state.wf()
    }

    /// A decoder that has read nothing.
    pub fn new() -> (d: Decoder)
        ensures
            d.wf(),
            d@ == initial(),
    {
        Decoder { state: State::Begin, quoted: false, out: Vec::new() }
    }

    /// Reads one character.
    pub fn feed(&mut self, c: char)
        requires
            old(self).wf(),
        ensures
            final(self).wf(),
            final(self)@ == step(old(self)@, c),
    {
        match self.state {
            State::Begin => {
                self.quoted = c == '"';
                self.state = State::Normal;
            },
            State::Normal => {
                if c == '\\' {
                    self.state = State::Escaping;
                } else if c == '"' && self.quoted {
                    self.state = State::End;
                } else {
                    self.out.push(char_low_byte(c));
                }
            },
            State::Escaping => {
                if c == 'u' {
                    self.state = State::Unicode { count: 0, value: 0 };
                } else if c == 'n' {
                    self.out.push(0x0a);
                    self.state = State::Normal;
                } else if c == 't' {
                    self.out.push(0x09);
                    self.state = State::Normal;
                } else if c == 'r' {
                    self.out.push(0x0d);
                    self.state = State::Normal;
                } else {
                    self.out.push(char_low_byte(c));
                    self.state = State::Normal;
                }
            },
            State::Unicode { count, value } => {
                match hex_digit(c) {
                    Some(digit) => {
                        let unit: u32 = value * 16 + digit;
                        if count == 3 {
                            // On purpose: the unit is not encoded as UTF-8, and two
                            // surrogates are not put together. Only the low byte of
                            // each unit is kept.
                            self.out.push((unit % 0x100) as u8);
                            self.state = State::Normal;
                        } else {
                            self.state = State::Unicode { count: count + 1, value: unit };
                        }
                    },
                    None => {
                        self.state = State::Error;
                    },
                }
            },
            State::End => {},
            State::Error => {},
        }
    }

    /// Whether the decoder has stopped: it has read the closing quote, or a
    /// malformed `\u` escape.
    pub fn is_finished(&self) -> (b: bool)
        ensures
            b == self@.state.is_terminal(),
    {
        match self.state {
            State::End => true,
            State::Error => true,
            _ => false,
        }
    }

    /// The state that the decoder is in.
    pub fn state(&self) -> (state: State)
        ensures
            state == self@.state,
    {
        self.state
    }

    /// Whether the fragment opened with a quote. Before the first character
    /// has been read the answer is `false`.
    pub fn is_quoted(&self) -> (quoted: bool)
        ensures
            quoted == self@.quoted,
    {
        self.quoted
    }

    /// The bytes decoded so far.
    pub fn into_bytes(self) -> (out: Vec<u8>)
        ensures
            out@ == self@.out,
    {
        self.out
    }
}

/// Decodes a raw fragment into bytes: those that the state machine emits
/// while it reads the fragment, which are those that the fragment stands for.
pub fn decode(fragment: &str) -> (out: Vec<u8>)
    ensures
        out@ == decode_spec(fragment@),
        out@ == fragment_bytes(fragment@),
{
    let mut decoder = Decoder::new();
    assert(fragment@.skip(0) =~= fragment@);
    for c in it: fragment.chars()
        invariant_except_break
            run(decoder@, fragment@.skip(it.index())) == run(initial(), fragment@),
        invariant
            it.seq() == fragment@,
            decoder.wf(),
        ensures
            decoder@ == run(initial(), fragment@),
    {
        let ghost rest = fragment@.skip(it.index());
        if decoder.is_finished() {
            proof {
                lemma_run_terminal(decoder@, rest);
            }
            break;
        }
        proof {
            assert(rest =~= seq![c] + fragment@.skip(it.index() + 1));
            lemma_run_push(decoder@, Seq::empty(), c);
            assert(Seq::<char>::empty().push(c) =~= seq![c]);
            lemma_run_concat(decoder@, seq![c], fragment@.skip(it.index() + 1));
        }
        decoder.feed(c);
    }
    proof {
        lemma_decode_reads_fragment(fragment@);
    }
    decoder.into_bytes()
}

} // verus!
