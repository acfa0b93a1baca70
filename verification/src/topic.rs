//! Deterministic, collision-free transformation of arbitrary identifiers
//! into strings legal in a topic segment.
//!
//! ASCII letters, digits and '-' pass through unchanged; every other
//! character becomes '_' followed by the six lower-case hex digits of its
//! code point.  Because '_' itself is escaped, the encoding is prefix
//! decodable and therefore injective: two distinct identifiers can never
//! collide, and the same identifier always maps to the same string.

use crate::strutil::push_char;
use vstd::prelude::*;
use vstd::utf8::{char_is_scalar, char_u32_cast};

verus! {

/// Characters legal in a topic segment: ASCII letters, digits and '-'.
/// '_' is deliberately not safe, so that it can introduce escapes.
pub open spec fn safe_char(c: char) -> bool {
    ||| 97 <= c as int <= 122
    ||| 65 <= c as int <= 90
    ||| 48 <= c as int <= 57
    ||| c as int == 45
}

/// Lower-case hex digit of a nibble.
pub open spec fn hex_digit(n: u32) -> char {
    if n == 0 {
        '0'
    } else if n == 1 {
        '1'
    } else if n == 2 {
        '2'
    } else if n == 3 {
        '3'
    } else if n == 4 {
        '4'
    } else if n == 5 {
        '5'
    } else if n == 6 {
        '6'
    } else if n == 7 {
        '7'
    } else if n == 8 {
        '8'
    } else if n == 9 {
        '9'
    } else if n == 10 {
        'a'
    } else if n == 11 {
        'b'
    } else if n == 12 {
        'c'
    } else if n == 13 {
        'd'
    } else if n == 14 {
        'e'
    } else {
        'f'
    }
}

/// The escape of a character: '_' and the six hex digits of its code
/// point, most significant first.
pub open spec fn escape_of(c: char) -> Seq<char> {
    let v = c as u32;
    seq![
        '_',
        hex_digit((v >> 20) & 0xF),
        hex_digit((v >> 16) & 0xF),
        hex_digit((v >> 12) & 0xF),
        hex_digit((v >> 8) & 0xF),
        hex_digit((v >> 4) & 0xF),
        hex_digit(v & 0xF),
    ]
}

/// What one character contributes to a topic-safe string.
pub open spec fn encode_char(c: char) -> Seq<char> {
    if safe_char(c) {
        seq![c]
    } else {
        escape_of(c)
    }
}

/// The topic-safe form of an identifier.
pub open spec fn topic_safe(s: Seq<char>) -> Seq<char>
    decreases s.len(),
{
    if s.len() == 0 {
        Seq::empty()
    } else {
        encode_char(s[0]) + topic_safe(s.drop_first())
    }
}

proof fn lemma_encode_char_props(c: char)
    ensures
        safe_char(c) ==> encode_char(c) =~= seq![c] && c != '_',
        !safe_char(c) ==> encode_char(c).len() == 7 && encode_char(c)[0] == '_',
        encode_char(c).len() >= 1,
{
    if safe_char(c) {
        assert(c as int != 95);
        assert('_' as int == 95);
    }
}

proof fn lemma_hex_digit_inj(a: u32, b: u32)
    requires
        a < 16,
        b < 16,
        hex_digit(a) == hex_digit(b),
    ensures
        a == b,
{
}

proof fn lemma_encode_char_inj(c1: char, c2: char)
    requires
        encode_char(c1) == encode_char(c2),
    ensures
        c1 == c2,
{
    lemma_encode_char_props(c1);
    lemma_encode_char_props(c2);
    if safe_char(c1) && safe_char(c2) {
        assert(encode_char(c1)[0] == c1);
        assert(encode_char(c2)[0] == c2);
    } else if !safe_char(c1) && !safe_char(c2) {
        let a = c1 as u32;
        let b = c2 as u32;
        assert((a >> 20) & 0xF < 16 && (a >> 16) & 0xF < 16 && (a >> 12) & 0xF < 16 && (a >> 8)
            & 0xF < 16 && (a >> 4) & 0xF < 16 && a & 0xF < 16) by (bit_vector);
        assert((b >> 20) & 0xF < 16 && (b >> 16) & 0xF < 16 && (b >> 12) & 0xF < 16 && (b >> 8)
            & 0xF < 16 && (b >> 4) & 0xF < 16 && b & 0xF < 16) by (bit_vector);
        assert(escape_of(c1)[1] == escape_of(c2)[1]);
        assert(escape_of(c1)[2] == escape_of(c2)[2]);
        assert(escape_of(c1)[3] == escape_of(c2)[3]);
        assert(escape_of(c1)[4] == escape_of(c2)[4]);
        assert(escape_of(c1)[5] == escape_of(c2)[5]);
        assert(escape_of(c1)[6] == escape_of(c2)[6]);
        lemma_hex_digit_inj((a >> 20) & 0xF, (b >> 20) & 0xF);
        lemma_hex_digit_inj((a >> 16) & 0xF, (b >> 16) & 0xF);
        lemma_hex_digit_inj((a >> 12) & 0xF, (b >> 12) & 0xF);
        lemma_hex_digit_inj((a >> 8) & 0xF, (b >> 8) & 0xF);
        lemma_hex_digit_inj((a >> 4) & 0xF, (b >> 4) & 0xF);
        lemma_hex_digit_inj(a & 0xF, b & 0xF);
        char_is_scalar(c1);
        char_is_scalar(c2);
        assert(a < 0x110000);
        assert(b < 0x110000);
        assert(a == b) by (bit_vector)
            requires
                a < 0x110000,
                b < 0x110000,
                (a >> 20) & 0xF == (b >> 20) & 0xF,
                (a >> 16) & 0xF == (b >> 16) & 0xF,
                (a >> 12) & 0xF == (b >> 12) & 0xF,
                (a >> 8) & 0xF == (b >> 8) & 0xF,
                (a >> 4) & 0xF == (b >> 4) & 0xF,
                a & 0xF == b & 0xF,
        ;
        char_u32_cast(c1, a);
        char_u32_cast(c2, b);
    } else {
        assert(encode_char(c1).len() != encode_char(c2).len());
    }
}

/// The encoding of an identifier is injective: equal topic-safe strings
/// can only come from equal identifiers.
pub proof fn lemma_topic_safe_injective(s1: Seq<char>, s2: Seq<char>)
    requires
        topic_safe(s1) == topic_safe(s2),
    ensures
        s1 == s2,
    decreases s1.len(),
{
    if s1.len() == 0 {
        if s2.len() > 0 {
            lemma_encode_char_props(s2[0]);
            assert(topic_safe(s2).len() >= 1);
        }
        assert(s1 =~= s2);
    } else if s2.len() == 0 {
        lemma_encode_char_props(s1[0]);
        assert(topic_safe(s1).len() >= 1);
    } else {
        let c1 = s1[0];
        let c2 = s2[0];
        let e1 = encode_char(c1);
        let e2 = encode_char(c2);
        let t1 = topic_safe(s1.drop_first());
        let t2 = topic_safe(s2.drop_first());
        lemma_encode_char_props(c1);
        lemma_encode_char_props(c2);
        assert((e1 + t1)[0] == e1[0]);
        assert((e2 + t2)[0] == e2[0]);
        if safe_char(c1) != safe_char(c2) {
            // One head is a safe character, the other an escape lead-in:
            // the first output characters cannot agree.
            assert(e1[0] == e2[0]);
            assert(false);
        }
        if safe_char(c1) && safe_char(c2) {
            assert(e1 =~= e2);
        } else {
            assert forall|k: int| 0 <= k < 7 implies e1[k] == e2[k] by {
                assert((e1 + t1)[k] == e1[k]);
                assert((e2 + t2)[k] == e2[k]);
            }
            assert(e1 =~= e2);
        }
        lemma_encode_char_inj(c1, c2);
        assert(t1 =~= (e1 + t1).skip(e1.len() as int));
        assert(t2 =~= (e2 + t2).skip(e2.len() as int));
        lemma_topic_safe_injective(s1.drop_first(), s2.drop_first());
        assert(s1.len() == s2.len());
        assert forall|j: int| 0 <= j < s1.len() implies s1[j] == s2[j] by {
            if j > 0 {
                assert(s1[j] == s1.drop_first()[j - 1]);
                assert(s2[j] == s2.drop_first()[j - 1]);
            }
        }
        assert(s1 =~= s2);
    }
}

proof fn lemma_topic_safe_snoc(s: Seq<char>, c: char)
    ensures
        topic_safe(s.push(c)) == topic_safe(s) + encode_char(c),
    decreases s.len(),
{
    if s.len() == 0 {
        assert(s.push(c).drop_first() =~= Seq::<char>::empty());
        assert(s.push(c)[0] == c);
        assert(encode_char(c) + topic_safe(Seq::<char>::empty()) =~= encode_char(c));
        assert(topic_safe(s) + encode_char(c) =~= encode_char(c));
    } else {
        assert(s.push(c).drop_first() =~= s.drop_first().push(c));
        assert(s.push(c)[0] == s[0]);
        lemma_topic_safe_snoc(s.drop_first(), c);
        assert(encode_char(s[0]) + (topic_safe(s.drop_first()) + encode_char(c)) =~= (encode_char(
            s[0],
        ) + topic_safe(s.drop_first())) + encode_char(c));
    }
}

fn hex_digit_exec(n: u32) -> (c: char)
    requires
        n < 16,
    ensures
        c == hex_digit(n),
{
    if n == 0 {
        '0'
    } else if n == 1 {
        '1'
    } else if n == 2 {
        '2'
    } else if n == 3 {
        '3'
    } else if n == 4 {
        '4'
    } else if n == 5 {
        '5'
    } else if n == 6 {
        '6'
    } else if n == 7 {
        '7'
    } else if n == 8 {
        '8'
    } else if n == 9 {
        '9'
    } else if n == 10 {
        'a'
    } else if n == 11 {
        'b'
    } else if n == 12 {
        'c'
    } else if n == 13 {
        'd'
    } else if n == 14 {
        'e'
    } else {
        'f'
    }
}

/// The topic-safe form of an identifier.
pub fn topic_safe_string(s: &str) -> (r: String)
    ensures
        r@ == topic_safe(s@),
{
    let len = s.unicode_len();
    let mut out = String::new();
    let mut i: usize = 0;
    proof {
        assert(s@.take(0) =~= Seq::<char>::empty());
    }
    while i < len
        invariant
            i <= len,
            len == s@.len(),
            out@ == topic_safe(s@.take(i as int)),
        decreases len - i,
    {
        let c = s.get_char(i);
        let v = c as u32;
        proof {
            assert(s@.take(i as int + 1) =~= s@.take(i as int).push(s@[i as int]));
            lemma_topic_safe_snoc(s@.take(i as int), s@[i as int]);
        }
        if (97 <= v && v <= 122) || (65 <= v && v <= 90) || (48 <= v && v <= 57) || v == 45 {
            push_char(&mut out, c);
            proof {
                assert(out@ =~= topic_safe(s@.take(i as int)) + encode_char(c));
            }
        } else {
            push_char(&mut out, '_');
            proof {
                assert((v >> 20) & 0xF < 16 && (v >> 16) & 0xF < 16 && (v >> 12) & 0xF < 16 && (v
                    >> 8) & 0xF < 16 && (v >> 4) & 0xF < 16 && v & 0xF < 16) by (bit_vector);
            }
            push_char(&mut out, hex_digit_exec((v >> 20) & 0xF));
            push_char(&mut out, hex_digit_exec((v >> 16) & 0xF));
            push_char(&mut out, hex_digit_exec((v >> 12) & 0xF));
            push_char(&mut out, hex_digit_exec((v >> 8) & 0xF));
            push_char(&mut out, hex_digit_exec((v >> 4) & 0xF));
            push_char(&mut out, hex_digit_exec(v & 0xF));
            proof {
                assert(out@ =~= topic_safe(s@.take(i as int)) + encode_char(c));
            }
        }
        i += 1;
    }
    proof {
        assert(s@.take(len as int) =~= s@);
    }
    out
}

} // verus!
