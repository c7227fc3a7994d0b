//! What a fragment stands for, read as a text rather than run as a machine.
//!
//! After its first character a fragment is a run of items: a plain character,
//! a backslash with one character, or `\u` with four hexadecimal digits. Each
//! item stands for one byte. The run ends at the closing quote of a quoted
//! fragment, at a `\u` that is not followed by four hexadecimal digits, or
//! where the fragment ends.

use vstd::prelude::*;
use crate::hex::hex_value;
use crate::machine::{
    decode_spec, initial, lemma_run_concat, lemma_run_push, lemma_run_terminal, low_byte, run,
    step, Machine, State,
};

verus! {

/// The byte that a backslash and `c` stand for, where `c` is not `u`: a
/// control byte for `n`, `t` and `r`, and the low byte of any other character.
pub open spec fn escape_byte(c: char) -> u8 {
    if c == 'n' {
        0x0a
    } else if c == 't' {
        0x09
    } else if c == 'r' {
        0x0d
    } else {
        low_byte(c)
    }
}

/// Every character of `s` is a hexadecimal digit.
pub open spec fn all_hex(s: Seq<char>) -> bool {
    forall|i: int| 0 <= i < s.len() ==> (#[trigger] hex_value(s[i])) is Some
}

/// The byte that two hexadecimal digits spell, `high` first.
pub open spec fn hex_pair(high: char, low: char) -> u8 {
    (hex_value(high)->0 * 16 + hex_value(low)->0) as u8
}

/// The bytes that the content `s` stands for. In a quoted fragment a quote
/// ends the content.
///
/// Of the four digits of a `\u` item only the last two count: the item stands
/// for the low byte of the number that the four spell.
pub open spec fn content_bytes(s: Seq<char>, quoted: bool) -> Seq<u8>
    decreases s.len(),
{
    if s.len() == 0 {
        Seq::empty()
    } else if s[0] == '\\' {
        if s.len() == 1 {
            Seq::empty()
        } else if s[1] == 'u' {
            if s.len() >= 6 && all_hex(s.subrange(2, 6)) {
                seq![hex_pair(s[4], s[5])] + content_bytes(s.skip(6), quoted)
            } else {
                Seq::empty()
            }
        } else {
            seq![escape_byte(s[1])] + content_bytes(s.skip(2), quoted)
        }
    } else if s[0] == '"' && quoted {
        Seq::empty()
    } else {
        seq![low_byte(s[0])] + content_bytes(s.skip(1), quoted)
    }
}

/// The bytes that a fragment stands for. Its first character is no content:
/// it only says, by being a quote or not, whether the fragment is quoted.
pub open spec fn fragment_bytes(f: Seq<char>) -> Seq<u8> {
    if f.len() == 0 {
        Seq::empty()
    } else {
        content_bytes(f.skip(1), f[0] == '"')
    }
}

/// The first character of a fragment is consumed without being emitted. It
/// only decides whether the fragment counts as quoted.
pub proof fn lemma_run_first(c: char, rest: Seq<char>)
    ensures
        run(initial(), seq![c] + rest) == run(
            Machine { state: State::Normal, quoted: c == '"', out: Seq::empty() },
            rest,
        ),
{
    lemma_run_push(initial(), Seq::empty(), c);
    assert(Seq::<char>::empty().push(c) =~= seq![c]);
    lemma_run_concat(initial(), seq![c], rest);
}

/// The number that the hexadecimal digits of `s` spell, the first digit being
/// the highest.
pub open spec fn hex_number(s: Seq<char>) -> int
    decreases s.len(),
{
    if s.len() == 0 {
        0
    } else {
        hex_number(s.drop_last()) * 16 + hex_value(s.last())->0
    }
}

/// In ordinary content a backslash and one character other than `u` emit one
/// byte, and ordinary content goes on.
pub proof fn lemma_simple_escape(m: Machine, c: char)
    requires
        m.state is Normal,
        c != 'u',
    ensures
        run(m, seq!['\\', c]) == (Machine { out: m.out.push(escape_byte(c)), ..m }),
{
    lemma_run_push(m, Seq::empty(), '\\');
    lemma_run_push(m, seq!['\\'], c);
    assert(Seq::<char>::empty().push('\\') =~= seq!['\\']);
    assert(seq!['\\'].push(c) =~= seq!['\\', c]);
}

/// After `\u`, up to three hexadecimal digits emit nothing: the machine
/// holds their count and the number they spell.
pub proof fn lemma_hex_digits(m: Machine, h: Seq<char>)
    requires
        m.state is Normal,
        h.len() <= 3,
        all_hex(h),
    ensures
        0 <= hex_number(h) < 0x1000,
        h.len() <= 2 ==> hex_number(h) < 0x100,
        h.len() <= 1 ==> hex_number(h) < 0x10,
        h.len() == 0 ==> hex_number(h) == 0,
        run(m, seq!['\\', 'u'] + h) == (Machine {
            state: State::Unicode { count: h.len() as u8, value: hex_number(h) as u32 },
            ..m
        }),
    decreases h.len(),
{
    if h.len() == 0 {
        lemma_run_push(m, Seq::empty(), '\\');
        lemma_run_push(m, seq!['\\'], 'u');
        assert(Seq::<char>::empty().push('\\') =~= seq!['\\']);
        assert(seq!['\\'].push('u') =~= seq!['\\', 'u'] + h);
    } else {
        let front = h.drop_last();
        lemma_hex_digits(m, front);
        assert(hex_value(h.last()) is Some);
        assert((seq!['\\', 'u'] + front).push(h.last()) =~= seq!['\\', 'u'] + h);
        lemma_run_push(m, seq!['\\', 'u'] + front, h.last());
    }
}

/// A whole `\uXXXX` escape in ordinary content emits one byte, the one that
/// its last two digits spell, and ordinary content goes on. The first two
/// digits are read and lost.
pub proof fn lemma_hex_escape(m: Machine, h: Seq<char>)
    requires
        m.state is Normal,
        h.len() == 4,
        all_hex(h),
    ensures
        run(m, seq!['\\', 'u'] + h) == (Machine {
            out: m.out.push(hex_pair(h[2], h[3])),
            ..m
        }),
{
    let front = h.drop_last();
    let high = front.drop_last();
    lemma_hex_digits(m, front);
    assert(hex_value(h[3]) is Some);
    assert(hex_value(h[2]) is Some);
    assert(front.last() == h[2]);
    assert((seq!['\\', 'u'] + front).push(h[3]) =~= seq!['\\', 'u'] + h);
    lemma_run_push(m, seq!['\\', 'u'] + front, h[3]);
    let low = hex_value(h[2])->0 * 16 + hex_value(h[3])->0;
    let unit = hex_number(front) * 16 + hex_value(h[3])->0;
    assert(unit == hex_number(high) * 0x100 + low);
    assert(unit % 0x100 == low) by (nonlinear_arith)
        requires
            unit == hex_number(high) * 0x100 + low,
            0 <= low < 0x100,
    ;
}

/// A `\u` escape that the end of the fragment cuts short emits nothing, and
/// the machine has not stopped.
pub proof fn lemma_hex_escape_cut_short(m: Machine, h: Seq<char>)
    requires
        m.state is Normal,
        h.len() < 4,
        all_hex(h),
    ensures
        run(m, seq!['\\', 'u'] + h).out == m.out,
        !run(m, seq!['\\', 'u'] + h).state.is_terminal(),
{
    lemma_hex_digits(m, h);
}

/// A character that is no hexadecimal digit, among the four that follow
/// `\u`, stops the machine. Nothing is emitted for the escape, and nothing
/// that follows is read.
pub proof fn lemma_hex_escape_invalid(m: Machine, h: Seq<char>, c: char, tail: Seq<char>)
    requires
        m.state is Normal,
        h.len() < 4,
        all_hex(h),
        hex_value(c) is None,
    ensures
        run(m, seq!['\\', 'u'] + h + seq![c] + tail) == (Machine { state: State::Error, ..m }),
{
    let stopped = Machine { state: State::Error, ..m };
    lemma_hex_digits(m, h);
    lemma_run_push(m, seq!['\\', 'u'] + h, c);
    assert((seq!['\\', 'u'] + h).push(c) =~= seq!['\\', 'u'] + h + seq![c]);
    lemma_run_concat(m, seq!['\\', 'u'] + h + seq![c], tail);
    lemma_run_terminal(stopped, tail);
}

/// How many hexadecimal digits `s` opens with.
pub open spec fn hex_prefix_len(s: Seq<char>) -> nat
    decreases s.len(),
{
    if s.len() == 0 || hex_value(s[0]) is None {
        0
    } else {
        1 + hex_prefix_len(s.drop_first())
    }
}

/// The digits that `s` opens with are digits, and what follows them, if
/// anything does, is none.
pub proof fn lemma_hex_prefix(s: Seq<char>)
    ensures
        hex_prefix_len(s) <= s.len(),
        all_hex(s.take(hex_prefix_len(s) as int)),
        hex_prefix_len(s) < s.len() ==> hex_value(s[hex_prefix_len(s) as int]) is None,
    decreases s.len(),
{
    if s.len() == 0 || hex_value(s[0]) is None {
    } else {
        let rest = s.drop_first();
        let k = hex_prefix_len(rest) as int;
        lemma_hex_prefix(rest);
        assert forall|i: int| 0 <= i < k + 1 implies (#[trigger] hex_value(s.take(k + 1)[i]))
            is Some by {
            if i > 0 {
                assert(s.take(k + 1)[i] == rest.take(k)[i - 1]);
            }
        }
    }
}

/// A `\u` that is not followed by four hexadecimal digits emits nothing, and
/// nothing after it is emitted either.
pub proof fn lemma_hex_escape_broken(m: Machine, t: Seq<char>)
    requires
        m.state is Normal,
        !(t.len() >= 4 && all_hex(t.take(4))),
    ensures
        run(m, seq!['\\', 'u'] + t).out == m.out,
{
    let k = hex_prefix_len(t) as int;
    lemma_hex_prefix(t);
    if k >= 4 {
        assert forall|i: int| 0 <= i < 4 implies (#[trigger] hex_value(t.take(4)[i])) is Some by {
            assert(t.take(4)[i] == t.take(k)[i]);
        }
    } else if k == t.len() {
        assert(t.take(k) =~= t);
        lemma_hex_escape_cut_short(m, t);
    } else {
        let h = t.take(k);
        let tail = t.skip(k + 1);
        assert(seq!['\\', 'u'] + h + seq![t[k]] + tail =~= seq!['\\', 'u'] + t);
        lemma_hex_escape_invalid(m, h, t[k], tail);
    }
}

/// From ordinary content on, the machine emits what the content stands for.
pub proof fn lemma_run_content(m: Machine, s: Seq<char>)
    requires
        m.state is Normal,
    ensures
        run(m, s).out == m.out + content_bytes(s, m.quoted),
    decreases s.len(),
{
    if s.len() == 0 {
        assert(m.out + content_bytes(s, m.quoted) =~= m.out);
    } else if s[0] == '\\' {
        if s.len() == 1 {
            assert(s =~= Seq::<char>::empty().push('\\'));
            lemma_run_push(m, Seq::empty(), '\\');
            assert(m.out + content_bytes(s, m.quoted) =~= m.out);
        } else if s[1] == 'u' {
            let t = s.skip(2);
            assert(s =~= seq!['\\', 'u'] + t);
            assert(t.len() >= 4 ==> t.take(4) =~= s.subrange(2, 6));
            if s.len() >= 6 && all_hex(s.subrange(2, 6)) {
                let h = t.take(4);
                let rest = s.skip(6);
                let next = Machine { out: m.out.push(hex_pair(h[2], h[3])), ..m };
                lemma_hex_escape(m, h);
                assert(s =~= seq!['\\', 'u'] + h + rest);
                lemma_run_concat(m, seq!['\\', 'u'] + h, rest);
                lemma_run_content(next, rest);
                assert(next.out + content_bytes(rest, m.quoted) =~= m.out + content_bytes(
                    s,
                    m.quoted,
                ));
            } else {
                lemma_hex_escape_broken(m, t);
                assert(m.out + content_bytes(s, m.quoted) =~= m.out);
            }
        } else {
            let rest = s.skip(2);
            let next = Machine { out: m.out.push(escape_byte(s[1])), ..m };
            lemma_simple_escape(m, s[1]);
            assert(s =~= seq!['\\', s[1]] + rest);
            lemma_run_concat(m, seq!['\\', s[1]], rest);
            lemma_run_content(next, rest);
            assert(next.out + content_bytes(rest, m.quoted) =~= m.out + content_bytes(
                s,
                m.quoted,
            ));
        }
    } else {
        let rest = s.skip(1);
        let next = step(m, s[0]);
        lemma_run_push(m, Seq::empty(), s[0]);
        assert(Seq::<char>::empty().push(s[0]) =~= seq![s[0]]);
        assert(s =~= seq![s[0]] + rest);
        lemma_run_concat(m, seq![s[0]], rest);
        if s[0] == '"' && m.quoted {
            lemma_run_terminal(next, rest);
            assert(m.out + content_bytes(s, m.quoted) =~= m.out);
        } else {
            lemma_run_content(next, rest);
            assert(next.out + content_bytes(rest, m.quoted) =~= m.out + content_bytes(
                s,
                m.quoted,
            ));
        }
    }
}

/// The machine and the reading of a fragment as a text agree: a fragment
/// decodes to the bytes that it stands for.
pub proof fn lemma_decode_reads_fragment(f: Seq<char>)
    ensures
        decode_spec(f) == fragment_bytes(f),
{
    if f.len() > 0 {
        let rest = f.skip(1);
        let m = Machine { state: State::Normal, quoted: f[0] == '"', out: Seq::empty() };
        assert(f =~= seq![f[0]] + rest);
        lemma_run_first(f[0], rest);
        lemma_run_content(m, rest);
        assert(m.out + content_bytes(rest, m.quoted) =~= content_bytes(rest, m.quoted));
    }
}

} // verus!
