//! Escaping of XML character data, over bytes and over characters.

use vstd::prelude::*;
use vstd::utf8::*;
use crate::text::lemma_encode_utf8_concat;

verus! {

// ---------------------------------------------------------------------------
// Escaping of character data
// ---------------------------------------------------------------------------

/// The bytes that stand for byte `b` in escaped XML character data: the five
/// markup bytes `<`, `>`, `'`, `&` and `"` become entity references, every other
/// byte stands for itself.
pub open spec fn escape_byte(b: u8) -> Seq<u8> {
    if b == 60 {
        seq![38u8, 108u8, 116u8, 59u8]  // &lt;
    } else if b == 62 {
        seq![38u8, 103u8, 116u8, 59u8]  // &gt;
    } else if b == 39 {
        seq![38u8, 97u8, 112u8, 111u8, 115u8, 59u8]  // &apos;
    } else if b == 38 {
        seq![38u8, 97u8, 109u8, 112u8, 59u8]  // &amp;
    } else if b == 34 {
        seq![38u8, 113u8, 117u8, 111u8, 116u8, 59u8]  // &quot;
    } else {
        seq![b]
    }
}

/// Byte-wise escaping of character data.
pub open spec fn escape_bytes(s: Seq<u8>) -> Seq<u8>
    decreases s.len(),
{
    if s.len() == 0 {
        Seq::empty()
    } else {
        escape_byte(s[0]) + escape_bytes(s.drop_first())
    }
}

/// The characters that stand for `c` in escaped XML character data.
pub open spec fn escape_char(c: char) -> Seq<char> {
    if c == '<' {
        seq!['&', 'l', 't', ';']
    } else if c == '>' {
        seq!['&', 'g', 't', ';']
    } else if c == '\'' {
        seq!['&', 'a', 'p', 'o', 's', ';']
    } else if c == '&' {
        seq!['&', 'a', 'm', 'p', ';']
    } else if c == '"' {
        seq!['&', 'q', 'u', 'o', 't', ';']
    } else {
        seq![c]
    }
}

/// `s` with the five XML markup characters replaced by entity references.
pub open spec fn xml_escape(s: Seq<char>) -> Seq<char>
    decreases s.len(),
{
    if s.len() == 0 {
        Seq::empty()
    } else {
        escape_char(s[0]) + xml_escape(s.drop_first())
    }
}

/// Escaped text holds none of the characters `<`, `>`, `'` and `"`: it cannot open or
/// close an element, nor end a quoted attribute value.
pub proof fn lemma_escaped_text_has_no_markup(s: Seq<char>)
    ensures
        forall|i: int|
            0 <= i < xml_escape(s).len() ==> {
                let c = #[trigger] xml_escape(s)[i];
                c != '<' && c != '>' && c != '\'' && c != '"'
            },
    decreases s.len(),
{
    if s.len() > 0 {
        lemma_escaped_text_has_no_markup(s.drop_first());
        let head = escape_char(s[0]);
        let rest = xml_escape(s.drop_first());
        assert forall|i: int| 0 <= i < xml_escape(s).len() implies {
            let c = #[trigger] xml_escape(s)[i];
            c != '<' && c != '>' && c != '\'' && c != '"'
        } by {
            if i < head.len() {
                assert(xml_escape(s)[i] == head[i]);
            } else {
                assert(xml_escape(s)[i] == rest[i - head.len()]);
            }
        }
    }
}

/// Whether `s` starts with `prefix`.
pub open spec fn starts_with(s: Seq<char>, prefix: Seq<char>) -> bool {
    s.len() >= prefix.len() && s.subrange(0, prefix.len() as int) == prefix
}

/// Character data read back: each of the five predefined entity references
/// (`&lt;`, `&gt;`, `&apos;`, `&amp;`, `&quot;`) stands for its character, every
/// other character for itself.
pub open spec fn xml_unescape(s: Seq<char>) -> Seq<char>
    decreases s.len(),
{
    if s.len() == 0 {
        Seq::empty()
    } else if starts_with(s, seq!['&', 'l', 't', ';']) {
        seq!['<'] + xml_unescape(s.subrange(4, s.len() as int))
    } else if starts_with(s, seq!['&', 'g', 't', ';']) {
        seq!['>'] + xml_unescape(s.subrange(4, s.len() as int))
    } else if starts_with(s, seq!['&', 'a', 'p', 'o', 's', ';']) {
        seq!['\''] + xml_unescape(s.subrange(6, s.len() as int))
    } else if starts_with(s, seq!['&', 'a', 'm', 'p', ';']) {
        seq!['&'] + xml_unescape(s.subrange(5, s.len() as int))
    } else if starts_with(s, seq!['&', 'q', 'u', 'o', 't', ';']) {
        seq!['"'] + xml_unescape(s.subrange(6, s.len() as int))
    } else {
        seq![s[0]] + xml_unescape(s.drop_first())
    }
}

proof fn lemma_unescape_step(c: char, t: Seq<char>)
    ensures
        xml_unescape(escape_char(c) + t) == seq![c] + xml_unescape(t),
{
    let e = escape_char(c);
    let s = e + t;
    assert(s.subrange(e.len() as int, s.len() as int) =~= t);
    if e.len() == 1 {
        assert(s.drop_first() =~= t);
        assert(s[0] == c);
        assert(c != '&');
        assert(!starts_with(s, seq!['&', 'l', 't', ';']));
        assert(!starts_with(s, seq!['&', 'g', 't', ';']));
        assert(!starts_with(s, seq!['&', 'a', 'p', 'o', 's', ';']));
        assert(!starts_with(s, seq!['&', 'a', 'm', 'p', ';']));
        assert(!starts_with(s, seq!['&', 'q', 'u', 'o', 't', ';']));
    } else {
        assert(s.subrange(0, e.len() as int) =~= e);
        if c == '<' {
            assert(starts_with(s, seq!['&', 'l', 't', ';']));
        } else if c == '>' {
            assert(!starts_with(s, seq!['&', 'l', 't', ';'])) by {
                assert(s.subrange(0, 4)[1] == 'g');
            }
            assert(starts_with(s, seq!['&', 'g', 't', ';']));
        } else if c == '\'' {
            assert(!starts_with(s, seq!['&', 'l', 't', ';'])) by {
                assert(s.subrange(0, 4)[1] == 'a');
            }
            assert(!starts_with(s, seq!['&', 'g', 't', ';'])) by {
                assert(s.subrange(0, 4)[1] == 'a');
            }
            assert(s.subrange(0, 6) =~= seq!['&', 'a', 'p', 'o', 's', ';']);
        } else if c == '&' {
            assert(!starts_with(s, seq!['&', 'l', 't', ';'])) by {
                assert(s.subrange(0, 4)[1] == 'a');
            }
            assert(!starts_with(s, seq!['&', 'g', 't', ';'])) by {
                assert(s.subrange(0, 4)[1] == 'a');
            }
            assert(!starts_with(s, seq!['&', 'a', 'p', 'o', 's', ';'])) by {
                if s.len() >= 6 {
                    assert(s.subrange(0, 6)[2] == 'm');
                }
            }
            assert(s.subrange(0, 5) =~= seq!['&', 'a', 'm', 'p', ';']);
        } else {
            assert(c == '"');
            assert(!starts_with(s, seq!['&', 'l', 't', ';'])) by {
                assert(s.subrange(0, 4)[1] == 'q');
            }
            assert(!starts_with(s, seq!['&', 'g', 't', ';'])) by {
                assert(s.subrange(0, 4)[1] == 'q');
            }
            assert(!starts_with(s, seq!['&', 'a', 'p', 'o', 's', ';'])) by {
                assert(s.subrange(0, 6)[1] == 'q');
            }
            assert(!starts_with(s, seq!['&', 'a', 'm', 'p', ';'])) by {
                assert(s.subrange(0, 5)[1] == 'q');
            }
            assert(s.subrange(0, 6) =~= seq!['&', 'q', 'u', 'o', 't', ';']);
        }
    }
}

/// Reading escaped text back gives the text: escaping loses nothing.
pub proof fn lemma_unescape_escape(s: Seq<char>)
    ensures
        xml_unescape(xml_escape(s)) == s,
    decreases s.len(),
{
    if s.len() > 0 {
        lemma_unescape_escape(s.drop_first());
        lemma_unescape_step(s[0], xml_escape(s.drop_first()));
        assert(seq![s[0]] + s.drop_first() == s);
    }
}

proof fn lemma_escape_bytes_concat(a: Seq<u8>, b: Seq<u8>)
    ensures
        escape_bytes(a + b) == escape_bytes(a) + escape_bytes(b),
    decreases a.len(),
{
    if a.len() > 0 {
        lemma_escape_bytes_concat(a.drop_first(), b);
        assert((a + b).drop_first() == a.drop_first() + b);
    } else {
        assert(a + b == b);
    }
}

proof fn lemma_escape_bytes_high(s: Seq<u8>)
    requires
        forall|i: int| 0 <= i < s.len() ==> #[trigger] s[i] >= 0x80,
    ensures
        escape_bytes(s) == s,
    decreases s.len(),
{
    if s.len() > 0 {
        lemma_escape_bytes_high(s.drop_first());
        assert(s[0] >= 0x80);
        assert(seq![s[0]] + s.drop_first() == s);
    }
}

proof fn lemma_escape_scalar(c: char)
    ensures
        escape_bytes(encode_scalar(c as u32)) == encode_utf8(escape_char(c)),
{
    let u = c as u32;
    broadcast use char_is_scalar;
    let e = escape_char(c);
    vstd::utf8::is_ascii_chars_encode_utf8(seq!['&', 'l', 't', ';']);
    vstd::utf8::is_ascii_chars_encode_utf8(seq!['&', 'g', 't', ';']);
    vstd::utf8::is_ascii_chars_encode_utf8(seq!['&', 'a', 'p', 'o', 's', ';']);
    vstd::utf8::is_ascii_chars_encode_utf8(seq!['&', 'a', 'm', 'p', ';']);
    vstd::utf8::is_ascii_chars_encode_utf8(seq!['&', 'q', 'u', 'o', 't', ';']);
    if has_width_1_encoding(u) {
        let b = leading_byte_width_1(u);
        assert(b == u) by (bit_vector)
            requires b == (u & 0x7F) as u8, u <= 0x7F;
        assert(escape_bytes(seq![b]) == escape_byte(b)) by {
            assert(seq![b].drop_first() =~= Seq::<u8>::empty());
            assert(escape_bytes(Seq::<u8>::empty()) == Seq::<u8>::empty());
            assert(seq![b][0] == b);
            assert(escape_byte(b) + Seq::<u8>::empty() =~= escape_byte(b));
        }
        if e.len() == 1 {
            assert(e == seq![c]);
            assert(encode_utf8(e) == encode_scalar(u) + encode_utf8(e.drop_first()));
            assert(e.drop_first().len() == 0);
            assert(encode_scalar(u) + Seq::<u8>::empty() == encode_scalar(u));
        } else {
            assert(encode_utf8(e) =~= escape_byte(b));
        }
    } else {
        assert(e == seq![c]);
        assert(encode_utf8(e) == encode_scalar(u) + encode_utf8(e.drop_first()));
        assert(e.drop_first().len() == 0);
        assert(encode_scalar(u) + Seq::<u8>::empty() == encode_scalar(u));
        let s = encode_scalar(u);
        if has_width_2_encoding(u) {
            let b1 = leading_byte_width_2(u);
            let b2 = last_continuation_byte(u);
            assert(b1 >= 0x80 && b2 >= 0x80) by (bit_vector)
                requires b1 == 0xC0 | ((u >> 6) & 0x1F) as u8, b2 == 0x80 | (u & 0x3F) as u8;
        } else if has_width_3_encoding(u) {
            let b1 = leading_byte_width_3(u);
            let b2 = second_last_continuation_byte(u);
            let b3 = last_continuation_byte(u);
            assert(b1 >= 0x80 && b2 >= 0x80 && b3 >= 0x80) by (bit_vector)
                requires
                    b1 == 0xE0 | ((u >> 12) & 0x0F) as u8,
                    b2 == 0x80 | ((u >> 6) & 0x3F) as u8,
                    b3 == 0x80 | (u & 0x3F) as u8;
        } else {
            let b1 = leading_byte_width_4(u);
            let b2 = third_last_continuation_byte(u);
            let b3 = second_last_continuation_byte(u);
            let b4 = last_continuation_byte(u);
            assert(b1 >= 0x80 && b2 >= 0x80 && b3 >= 0x80 && b4 >= 0x80) by (bit_vector)
                requires
                    b1 == 0xF0 | ((u >> 18) & 0x7) as u8,
                    b2 == 0x80 | ((u >> 12) & 0x3F) as u8,
                    b3 == 0x80 | ((u >> 6) & 0x3F) as u8,
                    b4 == 0x80 | (u & 0x3F) as u8;
        }
        lemma_escape_bytes_high(s);
    }
}

/// Escaping the UTF-8 bytes of a text byte by byte gives the UTF-8 bytes of the
/// text escaped character by character.
pub proof fn lemma_escape_utf8(s: Seq<char>)
    ensures
        escape_bytes(encode_utf8(s)) == encode_utf8(xml_escape(s)),
    decreases s.len(),
{
    if s.len() > 0 {
        lemma_escape_utf8(s.drop_first());
        lemma_escape_scalar(s[0]);
        lemma_escape_bytes_concat(encode_scalar(s[0] as u32), encode_utf8(s.drop_first()));
        lemma_encode_utf8_concat(escape_char(s[0]), xml_escape(s.drop_first()));
    }
}

} // verus!
