//! What holds of the decoder on whole families of fragments.

use vstd::prelude::*;
use vstd::utf8::{
    encode_utf8, encode_utf8_decode_utf8, encode_utf8_valid_utf8, is_ascii_chars,
    is_ascii_chars_encode_utf8,
};
use crate::grammar::lemma_run_first;
use crate::machine::{
    decode_spec, lemma_run_concat, lemma_run_push, lemma_run_terminal, low_byte, low_bytes, run,
    step, Machine, State,
};
use crate::text::decoded_text;

verus! {

/// No character of `s` is a backslash.
pub open spec fn no_backslash(s: Seq<char>) -> bool {
    forall|i: int| 0 <= i < s.len() ==> #[trigger] s[i] != '\\'
}

/// No character of `s` is a double quote.
pub open spec fn no_quote(s: Seq<char>) -> bool {
    forall|i: int| 0 <= i < s.len() ==> #[trigger] s[i] != '"'
}

/// `s` without its first character; the empty sequence stays empty.
pub open spec fn after_first(s: Seq<char>) -> Seq<char> {
    if s.len() == 0 {
        s
    } else {
        s.drop_first()
    }
}

/// In ordinary content, characters that are neither a backslash nor a closing
/// quote are emitted one by one as their low bytes, and the machine stays in
/// ordinary content.
pub proof fn lemma_run_plain(m: Machine, s: Seq<char>)
    requires
        m.state is Normal,
        no_backslash(s),
        m.quoted ==> no_quote(s),
    ensures
        run(m, s) == (Machine { out: m.out + low_bytes(s), ..m }),
    decreases s.len(),
{
    if s.len() == 0 {
        assert(m.out + low_bytes(s) =~= m.out);
    } else {
        let front = s.drop_last();
        lemma_run_plain(m, front);
        assert(m.out + low_bytes(s) =~= (m.out + low_bytes(front)).push(low_byte(s.last())));
    }
}

/// A fragment that holds no backslash and does not open with a quote decodes
/// to the low bytes of all its characters but the first. So it decodes to the
/// low bytes of all its characters only when it is empty.
pub proof fn lemma_unquoted_plain_fragment(f: Seq<char>)
    requires
        no_backslash(f),
        f.len() > 0 ==> f[0] != '"',
    ensures
        decode_spec(f) == low_bytes(after_first(f)),
        decode_spec(f) == low_bytes(f) <==> f.len() == 0,
{
    if f.len() == 0 {
        assert(decode_spec(f) =~= low_bytes(f));
    } else {
        let rest = f.drop_first();
        let m = Machine { state: State::Normal, quoted: false, out: Seq::empty() };
        assert(f =~= seq![f[0]] + rest);
        lemma_run_first(f[0], rest);
        assert forall|i: int| 0 <= i < rest.len() implies #[trigger] rest[i] != '\\' by {
            assert(rest[i] == f[i + 1]);
        }
        lemma_run_plain(m, rest);
        assert(m.out + low_bytes(rest) =~= low_bytes(rest));
        assert(low_bytes(rest).len() != low_bytes(f).len());
    }
}

/// A fragment that opens with a quote decodes to the low bytes of what stands
/// between that quote and the next one, where no backslash stands there.
/// Whatever follows the closing quote is ignored, and so is a missing closing
/// quote.
pub proof fn lemma_quoted_plain_fragment(body: Seq<char>, tail: Seq<char>)
    requires
        no_backslash(body),
        no_quote(body),
    ensures
        decode_spec(seq!['"'] + body + seq!['"'] + tail) == low_bytes(body),
        decode_spec(seq!['"'] + body) == low_bytes(body),
{
    let m = Machine { state: State::Normal, quoted: true, out: Seq::empty() };
    let read = Machine { state: State::Normal, quoted: true, out: low_bytes(body) };
    let closed = Machine { state: State::End, quoted: true, out: low_bytes(body) };
    lemma_run_plain(m, body);
    assert(m.out + low_bytes(body) =~= low_bytes(body));
    lemma_run_first('"', body);

    assert(seq!['"'] + body + seq!['"'] + tail =~= seq!['"'] + (body + seq!['"'] + tail));
    lemma_run_first('"', body + seq!['"'] + tail);
    assert(body + seq!['"'] + tail =~= body + (seq!['"'] + tail));
    lemma_run_concat(m, body, seq!['"'] + tail);
    lemma_run_concat(read, seq!['"'], tail);
    lemma_run_push(read, Seq::empty(), '"');
    assert(Seq::<char>::empty().push('"') =~= seq!['"']);
    assert(step(read, '"') == closed);
    lemma_run_terminal(closed, tail);
}

/// Text of ASCII characters without a quote or a backslash comes back from
/// the decoder as its own bytes, less the first character: the decoder
/// drops the first character of every fragment. So such text comes back
/// unchanged only when it is empty.
pub proof fn lemma_plain_ascii_fragment(s: Seq<char>)
    requires
        is_ascii_chars(s),
        no_backslash(s),
        no_quote(s),
    ensures
        decode_spec(s) == encode_utf8(after_first(s)),
        decoded_text(s) == Some(after_first(s)),
        decode_spec(s) == encode_utf8(s) <==> s.len() == 0,
{
    let rest = after_first(s);
    lemma_unquoted_plain_fragment(s);
    assert(is_ascii_chars(rest)) by {
        assert forall|i: int| 0 <= i < rest.len() implies '\0' <= #[trigger] rest[i]
            <= '\u{7f}' by {
            assert(rest[i] == s[i + 1]);
        }
    }
    lemma_ascii_low_bytes(rest);
    lemma_ascii_low_bytes(s);
    encode_utf8_valid_utf8(rest);
    encode_utf8_decode_utf8(rest);
}

/// Between quotes, text of ASCII characters without a quote or a backslash
/// decodes to itself.
pub proof fn lemma_quoted_ascii_fragment(s: Seq<char>)
    requires
        is_ascii_chars(s),
        no_backslash(s),
        no_quote(s),
    ensures
        decode_spec(seq!['"'] + s + seq!['"']) == encode_utf8(s),
        decoded_text(seq!['"'] + s + seq!['"']) == Some(s),
{
    lemma_quoted_plain_fragment(s, Seq::empty());
    assert(seq!['"'] + s + seq!['"'] + Seq::<char>::empty() =~= seq!['"'] + s + seq!['"']);
    lemma_ascii_low_bytes(s);
    encode_utf8_valid_utf8(s);
    encode_utf8_decode_utf8(s);
}

/// The low bytes of ASCII text are its UTF-8 encoding.
pub proof fn lemma_ascii_low_bytes(s: Seq<char>)
    requires
        is_ascii_chars(s),
    ensures
        low_bytes(s) == encode_utf8(s),
{
    is_ascii_chars_encode_utf8(s);
    assert forall|i: int| 0 <= i < s.len() implies low_bytes(s)[i] == encode_utf8(s)[i] by {
        let c = s[i];
        assert('\0' <= c <= '\u{7f}');
        assert(c as u32 % 0x100 == c as u32);
    }
    assert(low_bytes(s) =~= encode_utf8(s));
}

} // verus!
