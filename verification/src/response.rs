//! A response is itself one frame.

use vstd::prelude::*;

#[allow(unused_imports)]
use crate::framing::{
    is_frame, is_open_frame, latin1, law_frame_is_read_whole, lex, lex_step, reads, Lex,
};
#[allow(unused_imports)]
use crate::json::{all_escaped, escaped, quoted};
#[allow(unused_imports)]
use crate::protocol::response_object;
#[allow(unused_imports)]
use crate::text::{decimal, digit, digits};
#[allow(unused_imports)]
use vstd::utf8::*;

verus! {

/// Where a scan that stands at `at` arrives over `s`, if a brace stays open all the way.
spec fn run(at: Lex, s: Seq<u8>) -> Option<Lex>
    decreases s.len(),
{
    if s.len() == 0 {
        Some(at)
    } else {
        let next = lex_step(at, s[0]);
        if next.depth > 0 {
            run(next, s.drop_first())
        } else {
            None
        }
    }
}

/// The byte that a scan sees in a character: those of a longer encoding mean nothing to it.
spec fn seen(c: char) -> u8 {
    if (c as u32) < 0x80 {
        c as u8
    } else {
        0x80
    }
}

/// As `run`, over the characters of a text.
spec fn run_text(at: Lex, s: Seq<char>) -> Option<Lex>
    decreases s.len(),
{
    if s.len() == 0 {
        Some(at)
    } else {
        let next = lex_step(at, seen(s[0]));
        if next.depth > 0 {
            run_text(next, s.drop_first())
        } else {
            None
        }
    }
}

proof fn lemma_run_concat(at: Lex, a: Seq<u8>, b: Seq<u8>)
    ensures
        run(at, a + b) == match run(at, a) {
            Some(mid) => run(mid, b),
            None => None,
        },
    decreases a.len(),
{
    if a.len() == 0 {
        assert(a + b =~= b);
    } else {
        assert((a + b).drop_first() =~= a.drop_first() + b);
        lemma_run_concat(lex_step(at, a[0]), a.drop_first(), b);
    }
}

proof fn lemma_run_text_concat(at: Lex, a: Seq<char>, b: Seq<char>)
    ensures
        run_text(at, a + b) == match run_text(at, a) {
            Some(mid) => run_text(mid, b),
            None => None,
        },
    decreases a.len(),
{
    if a.len() == 0 {
        assert(a + b =~= b);
    } else {
        assert((a + b).drop_first() =~= a.drop_first() + b);
        lemma_run_text_concat(lex_step(at, seen(a[0])), a.drop_first(), b);
    }
}

/// The encoding of a character beyond ASCII has no byte of ASCII in it.
pub(crate) proof fn lemma_encoded_char(c: char)
    ensures
        (c as u32) < 0x80 ==> encode_scalar(c as u32) == seq![c as u8],
        (c as u32) >= 0x80 ==> {
            let e = encode_scalar(c as u32);
            &&& 2 <= e.len() <= 4
            &&& forall|i: int| 0 <= i < e.len() ==> #[trigger] e[i] >= 0x80
        },
{
    let n = c as u32;
    char_is_scalar(c);
    assert(n < 0x80 ==> (n & 0x7f) as u8 == n as u8) by (bit_vector);
    assert(forall|x: u8| #[trigger] (0x80 | x) >= 0x80) by (bit_vector);
    assert(forall|x: u8| #[trigger] (0xc0 | x) >= 0x80) by (bit_vector);
    assert(forall|x: u8| #[trigger] (0xe0 | x) >= 0x80) by (bit_vector);
    assert(forall|x: u8| #[trigger] (0xf0 | x) >= 0x80) by (bit_vector);
}

/// Bytes beyond ASCII move a scan as one of them does.
proof fn lemma_run_beyond_ascii(at: Lex, e: Seq<u8>)
    requires
        at.depth > 0,
        e.len() > 0,
        forall|i: int| 0 <= i < e.len() ==> #[trigger] e[i] >= 0x80,
    ensures
        run(at, e) == Some(lex_step(at, 0x80)),
    decreases e.len(),
{
    let next = lex_step(at, e[0]);
    let tail = e.drop_first();
    assert(next == lex_step(at, 0x80));
    if tail.len() > 0 {
        assert forall|i: int| 0 <= i < tail.len() implies #[trigger] tail[i] >= 0x80 by {
            assert(tail[i] == e[i + 1]);
        }
        lemma_run_beyond_ascii(next, tail);
        assert(lex_step(next, 0x80) == next);
    }
}

/// A scan over the bytes of a text goes as the scan over its characters.
proof fn lemma_run_encoded(at: Lex, s: Seq<char>)
    requires
        at.depth > 0,
    ensures
        run(at, encode_utf8(s)) == run_text(at, s),
    decreases s.len(),
{
    if s.len() > 0 {
        let first = encode_scalar(s[0] as u32);
        let tail = encode_utf8(s.drop_first());
        let next = lex_step(at, seen(s[0]));
        lemma_encoded_char(s[0]);
        lemma_run_concat(at, first, tail);
        if (s[0] as u32) < 0x80 {
            assert(first.drop_first() =~= Seq::empty());
            assert(run(next, Seq::<u8>::empty()) == Some(next));
        } else {
            lemma_run_beyond_ascii(at, first);
        }
        if next.depth > 0 {
            lemma_run_encoded(next, s.drop_first());
        }
    }
}

/// A text after another is encoded after it.
proof fn lemma_encode_concat(a: Seq<char>, b: Seq<char>)
    ensures
        encode_utf8(a + b) == encode_utf8(a) + encode_utf8(b),
    decreases a.len(),
{
    if a.len() == 0 {
        assert(a + b =~= b);
        assert(encode_utf8(a) + encode_utf8(b) =~= encode_utf8(b));
    } else {
        assert((a + b).drop_first() =~= a.drop_first() + b);
        lemma_encode_concat(a.drop_first(), b);
        assert(encode_utf8(a + b) =~= encode_utf8(a) + encode_utf8(b));
    }
}

/// A frame that is open stays so over bytes on which a brace stays open.
proof fn lemma_run_opens(p: Seq<u8>, s: Seq<u8>)
    requires
        is_open_frame(p),
        run(lex(p), s) is Some,
    ensures
        is_open_frame(p + s),
        Some(lex(p + s)) == run(lex(p), s),
    decreases s.len(),
{
    if s.len() == 0 {
        assert(p + s =~= p);
    } else {
        let q = p.push(s[0]);
        assert(q.drop_last() =~= p);
        assert forall|m: int| 0 < m <= q.len() implies lex(#[trigger] q.take(m)).depth > 0 by {
            if m == q.len() {
                assert(q.take(m) =~= q);
            } else {
                assert(q.take(m) =~= p.take(m));
            }
        }
        assert(p + s =~= q + s.drop_first());
        lemma_run_opens(q, s.drop_first());
    }
}

/// Outside a string literal: neither a brace nor a quotation mark.
spec fn is_plain(c: char) -> bool {
    c != '"' && c != '{' && c != '}'
}

proof fn lemma_seen_plain(c: char)
    requires
        is_plain(c),
    ensures
        seen(c) != 0x22,
        seen(c) != 0x7b,
        seen(c) != 0x7d,
{
}

/// A scan outside string literals does not move over plain characters.
proof fn lemma_run_plain(at: Lex, s: Seq<char>)
    requires
        at.depth > 0,
        !at.in_str,
        forall|i: int| 0 <= i < s.len() ==> is_plain(#[trigger] s[i]),
    ensures
        run_text(at, s) == Some(at),
    decreases s.len(),
{
    if s.len() > 0 {
        assert(is_plain(s[0]));
        lemma_seen_plain(s[0]);
        let tail = s.drop_first();
        assert forall|i: int| 0 <= i < tail.len() implies is_plain(#[trigger] tail[i]) by {
            assert(tail[i] == s[i + 1]);
        }
        lemma_run_plain(at, tail);
    }
}

/// A number is written in plain characters.
proof fn lemma_digits_plain(n: nat)
    ensures
        forall|i: int| 0 <= i < digits(n).len() ==> is_plain(#[trigger] digits(n)[i]),
    decreases n,
{
    assert(forall|d: nat| d < 10 ==> is_plain(#[trigger] digit(d)));
    if n >= 10 {
        lemma_digits_plain(n / 10);
        assert(is_plain(digit(n % 10)));
        assert forall|i: int| 0 <= i < digits(n).len() implies is_plain(#[trigger] digits(n)[i]) by {
            if i < digits(n / 10).len() {
                assert(digits(n)[i] == digits(n / 10)[i]);
            }
        }
    } else {
        assert(is_plain(digit(n)));
    }
}

proof fn lemma_decimal_plain(n: int)
    ensures
        forall|i: int| 0 <= i < decimal(n).len() ==> is_plain(#[trigger] decimal(n)[i]),
{
    if n < 0 {
        lemma_digits_plain((-n) as nat);
        assert forall|i: int| 0 <= i < decimal(n).len() implies is_plain(
            #[trigger] decimal(n)[i],
        ) by {
            if i > 0 {
                assert(decimal(n)[i] == digits((-n) as nat)[i - 1]);
            }
        }
    } else {
        lemma_digits_plain(n as nat);
    }
}

/// A scan inside a string literal is back where it was after one escaped character.
proof fn lemma_run_escaped_char(at: Lex, c: char)
    requires
        at.depth > 0,
        at.in_str,
        !at.esc,
    ensures
        run_text(at, escaped(c)) == Some(at),
{
    reveal_with_fuel(run_text, 7);
    let e = escaped(c);
    if e.len() == 1 {
        assert(e.drop_first() =~= Seq::empty());
    } else if e.len() == 2 {
        assert(e.drop_first().drop_first() =~= Seq::empty());
    } else {
        assert(e.drop_first()[0] == 'u');
        assert(e.drop_first().drop_first()[0] == '0');
        assert(e.drop_first().drop_first().drop_first()[0] == '0');
        assert(e.drop_first().drop_first().drop_first().drop_first()[0] == e[4]);
        assert(e.drop_first().drop_first().drop_first().drop_first().drop_first()[0] == e[5]);
        assert(e.drop_first().drop_first().drop_first().drop_first().drop_first().drop_first()
            =~= Seq::empty());
    }
}

/// A scan inside a string literal is back where it was after all of an escaped text.
proof fn lemma_run_escaped(at: Lex, s: Seq<char>)
    requires
        at.depth > 0,
        at.in_str,
        !at.esc,
    ensures
        run_text(at, all_escaped(s)) == Some(at),
    decreases s.len(),
{
    if s.len() > 0 {
        lemma_run_escaped(at, s.drop_last());
        lemma_run_escaped_char(at, s.last());
        lemma_run_text_concat(at, all_escaped(s.drop_last()), escaped(s.last()));
    }
}

/// Inside a string literal: neither a backslash nor a quotation mark.
spec fn is_word(s: Seq<char>) -> bool {
    forall|i: int| 0 <= i < s.len() ==> #[trigger] s[i] != '"' && s[i] != '\\'
}

/// A scan inside a string literal does not move over a word.
proof fn lemma_run_word(at: Lex, s: Seq<char>)
    requires
        at.depth > 0,
        at.in_str,
        !at.esc,
        is_word(s),
    ensures
        run_text(at, s) == Some(at),
    decreases s.len(),
{
    if s.len() > 0 {
        assert(s[0] != '"' && s[0] != '\\');
        lemma_seen_word(s[0]);
        lemma_run_word(at, s.drop_first());
    }
}

proof fn lemma_seen_word(c: char)
    requires
        c != '"',
        c != '\\',
    ensures
        seen(c) != 0x22,
        seen(c) != 0x5c,
{
}

/// A scan outside string literals is back where it was after a literal that holds a word
/// or an escaped text.
proof fn lemma_run_literal(at: Lex, inside: Seq<char>)
    requires
        at.depth > 0,
        !at.in_str,
        !at.esc,
        run_text(Lex { in_str: true, ..at }, inside) == Some(Lex { in_str: true, ..at }),
    ensures
        run_text(at, seq!['"'] + inside + seq!['"']) == Some(at),
{
    let within = Lex { in_str: true, ..at };
    let mark = seq!['"'];
    reveal_with_fuel(run_text, 2);
    assert(mark.drop_first() =~= Seq::empty());
    assert(run_text(at, mark) == Some(within));
    assert(run_text(within, mark) == Some(at));
    lemma_run_text_concat(at, mark, inside);
    lemma_run_text_concat(at, mark + inside, mark);
}

/// A scan outside string literals is back where it was after a member's name and what is
/// plain around it.
proof fn lemma_run_name(at: Lex, before: Seq<char>, word: Seq<char>, after: Seq<char>)
    requires
        at.depth > 0,
        !at.in_str,
        !at.esc,
        is_word(word),
        forall|i: int| 0 <= i < before.len() ==> is_plain(#[trigger] before[i]),
        forall|i: int| 0 <= i < after.len() ==> is_plain(#[trigger] after[i]),
    ensures
        run_text(at, before + (seq!['"'] + word + seq!['"']) + after) == Some(at),
{
    let literal = seq!['"'] + word + seq!['"'];
    lemma_run_word(Lex { in_str: true, ..at }, word);
    lemma_run_literal(at, word);
    lemma_run_plain(at, before);
    lemma_run_plain(at, after);
    lemma_run_text_concat(at, before, literal);
    lemma_run_text_concat(at, before + literal, after);
}

/// Every response is one whole frame, whatever its output holds: a reader of frames that is
/// given responses line by line gets each of them, and nothing else.
pub proof fn law_response_is_one_frame(
    request_id: i64,
    exit_code: i32,
    output: Seq<char>,
    rest: Seq<u8>,
)
    ensures
        is_frame(encode_utf8(response_object(request_id, exit_code, output))),
        reads(
            encode_utf8(response_object(request_id, exit_code, output)).push(0x0a) + rest,
            Ok(Some(latin1(encode_utf8(response_object(request_id, exit_code, output))))),
            seq![0x0au8] + rest,
        ),
{
    reveal_strlit("{\"requestId\":");
    reveal_strlit(",\"exitCode\":");
    reveal_strlit(",\"output\":");
    reveal_strlit("}");
    let at = Lex { in_str: false, esc: false, depth: 1 };
    let brace = seq!['{'];
    let comma = seq![','];
    let colon = seq![':'];
    let none = Seq::<char>::empty();
    let word1 = seq!['r', 'e', 'q', 'u', 'e', 's', 't', 'I', 'd'];
    let word2 = seq!['e', 'x', 'i', 't', 'C', 'o', 'd', 'e'];
    let word3 = seq!['o', 'u', 't', 'p', 'u', 't'];
    let name1 = none + (seq!['"'] + word1 + seq!['"']) + colon;
    let name2 = comma + (seq!['"'] + word2 + seq!['"']) + colon;
    let name3 = comma + (seq!['"'] + word3 + seq!['"']) + colon;
    assert("{\"requestId\":"@ =~= brace + name1);
    assert(",\"exitCode\":"@ =~= name2);
    assert(",\"output\":"@ =~= name3);
    assert("}"@ =~= seq!['}']);
    lemma_run_name(at, none, word1, colon);
    lemma_run_name(at, comma, word2, colon);
    lemma_run_name(at, comma, word3, colon);
    let num1 = decimal(request_id as int);
    let num2 = decimal(exit_code as int);
    lemma_decimal_plain(request_id as int);
    lemma_decimal_plain(exit_code as int);
    lemma_run_plain(at, num1);
    lemma_run_plain(at, num2);
    lemma_run_escaped(Lex { in_str: true, ..at }, output);
    lemma_run_literal(at, all_escaped(output));
    let inner = name1 + num1 + name2 + num2 + name3 + quoted(output);
    lemma_run_text_concat(at, name1, num1);
    lemma_run_text_concat(at, name1 + num1, name2);
    lemma_run_text_concat(at, name1 + num1 + name2, num2);
    lemma_run_text_concat(at, name1 + num1 + name2 + num2, name3);
    lemma_run_text_concat(at, name1 + num1 + name2 + num2 + name3, quoted(output));
    assert(run_text(at, inner) == Some(at));
    lemma_run_encoded(at, inner);

    let object = response_object(request_id, exit_code, output);
    let whole = encode_utf8(object);
    assert(object =~= brace + inner + seq!['}']);
    lemma_encode_concat(brace + inner, seq!['}']);
    lemma_encode_concat(brace, inner);
    lemma_encode_one('{');
    lemma_encode_one('}');
    let p = seq![0x7bu8];
    assert(p.drop_last() =~= Seq::empty());
    assert(lex(Seq::<u8>::empty()) == (Lex { in_str: false, esc: false, depth: 0 }));
    assert(lex(p) == at);
    assert forall|m: int| 0 < m <= p.len() implies lex(#[trigger] p.take(m)).depth > 0 by {
        assert(p.take(m) =~= p);
    }
    lemma_run_opens(p, encode_utf8(inner));
    let open = p + encode_utf8(inner);
    assert(whole =~= open.push(0x7d));
    assert(whole.drop_last() =~= open);
    assert(whole.last() == 0x7d);
    law_frame_is_read_whole(Seq::empty(), whole, seq![0x0au8] + rest);
    assert(Seq::<u8>::empty() + whole + (seq![0x0au8] + rest) =~= whole.push(0x0a) + rest);
}

/// The encoding of one character of ASCII.
proof fn lemma_encode_one(c: char)
    requires
        (c as u32) < 0x80,
    ensures
        encode_utf8(seq![c]) == seq![c as u8],
{
    lemma_encoded_char(c);
    let one = seq![c];
    assert(one.drop_first() =~= Seq::empty());
    assert(encode_utf8(Seq::<char>::empty()) =~= Seq::<u8>::empty());
    assert(encode_utf8(one) =~= seq![c as u8]);
}

/// No control character.
spec fn is_printed(s: Seq<char>) -> bool {
    forall|i: int| 0 <= i < s.len() ==> (#[trigger] s[i] as u32) >= 0x20
}

proof fn lemma_digits_printed(n: nat)
    ensures
        is_printed(digits(n)),
    decreases n,
{
    lemma_digit_printed(n % 10);
    if n >= 10 {
        lemma_digits_printed(n / 10);
    }
}

proof fn lemma_digit_printed(d: nat)
    requires
        d < 10,
    ensures
        (digit(d) as u32) >= 0x20,
{
}

proof fn lemma_escaped_char_printed(c: char)
    ensures
        is_printed(escaped(c)),
{
}

proof fn lemma_escaped_printed(s: Seq<char>)
    ensures
        is_printed(all_escaped(s)),
    decreases s.len(),
{
    if s.len() > 0 {
        lemma_escaped_printed(s.drop_last());
        lemma_escaped_char_printed(s.last());
    }
}

proof fn lemma_encoded_char_printed(c: char)
    requires
        (c as u32) >= 0x20,
    ensures
        forall|i: int|
            0 <= i < encode_scalar(c as u32).len() ==> #[trigger] encode_scalar(c as u32)[i]
                >= 0x20,
{
    lemma_encoded_char(c);
}

proof fn lemma_encoded_printed(s: Seq<char>)
    requires
        is_printed(s),
    ensures
        forall|i: int| 0 <= i < encode_utf8(s).len() ==> #[trigger] encode_utf8(s)[i] >= 0x20,
    decreases s.len(),
{
    if s.len() > 0 {
        assert((s[0] as u32) >= 0x20);
        lemma_encoded_char_printed(s[0]);
        let first = encode_scalar(s[0] as u32);
        let tail = s.drop_first();
        assert forall|i: int| 0 <= i < tail.len() implies (#[trigger] tail[i] as u32) >= 0x20 by {
            assert(tail[i] == s[i + 1]);
        }
        lemma_encoded_printed(tail);
        let all = encode_utf8(s);
        assert forall|i: int| 0 <= i < all.len() implies #[trigger] all[i] >= 0x20 by {
            if i < first.len() {
                assert(all[i] == first[i]);
            } else {
                assert(all[i] == encode_utf8(tail)[i - first.len()]);
            }
        }
    }
}

/// Every response is one line, whatever its output holds: before the line feed that ends it
/// stands no control byte, and so no other line feed.
pub proof fn law_response_is_one_line(request_id: i64, exit_code: i32, output: Seq<char>)
    ensures
        forall|i: int|
            0 <= i < encode_utf8(response_object(request_id, exit_code, output)).len()
                ==> #[trigger] encode_utf8(response_object(request_id, exit_code, output))[i]
                >= 0x20,
{
    reveal_strlit("{\"requestId\":");
    reveal_strlit(",\"exitCode\":");
    reveal_strlit(",\"output\":");
    reveal_strlit("}");
    lemma_digits_printed(if request_id < 0 { (-request_id) as nat } else { request_id as nat });
    lemma_digits_printed(if exit_code < 0 { (-exit_code) as nat } else { exit_code as nat });
    lemma_escaped_printed(output);
    assert(is_printed(decimal(request_id as int)));
    assert(is_printed(decimal(exit_code as int)));
    assert(is_printed(quoted(output)));
    lemma_encoded_printed(response_object(request_id, exit_code, output));
}

} // verus!
