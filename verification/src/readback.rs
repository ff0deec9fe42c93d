//! What a reader makes of a response and of a parse error: it reads back what was written.

use vstd::prelude::*;

#[allow(unused_imports)]
use crate::json::{all_escaped, error_head, escaped, hex_digit, quoted};
#[allow(unused_imports)]
use crate::key::law_encoding_tells_texts_apart;
#[allow(unused_imports)]
use crate::protocol::response_object;
#[allow(unused_imports)]
use crate::text::{decimal, law_decimal_denotes_its_number, number_value};
#[allow(unused_imports)]
use vstd::utf8::*;

verus! {

/// What stands behind `head` in a text that begins with it.
pub open spec fn behind(s: Seq<char>, head: Seq<char>) -> Option<Seq<char>> {
    if head.is_prefix_of(s) {
        Some(s.skip(head.len() as int))
    } else {
        None
    }
}

/// How many characters at the front of a text can be those of an integer.
pub open spec fn number_length(s: Seq<char>) -> int
    decreases s.len(),
{
    if s.len() > 0 && (s[0] == '-' || '0' <= s[0] <= '9') {
        1 + number_length(s.drop_first())
    } else {
        0
    }
}

/// Digits, with no zero before others.
pub open spec fn is_digits(d: Seq<char>) -> bool {
    &&& d.len() > 0
    &&& forall|i: int| 0 <= i < d.len() ==> '0' <= #[trigger] d[i] <= '9'
    &&& d.len() > 1 ==> d[0] != '0'
}

/// An integer as JSON writes it: digits, with at most a minus sign before them.
pub open spec fn is_number(s: Seq<char>) -> bool {
    if s.len() > 0 && s[0] == '-' {
        is_digits(s.drop_first())
    } else {
        is_digits(s)
    }
}

/// The integer at the front of a text, and what stands behind it.
pub open spec fn read_number(s: Seq<char>) -> Option<(int, Seq<char>)> {
    let n = number_length(s);
    if is_number(s.take(n)) {
        Some((number_value(s.take(n)), s.skip(n)))
    } else {
        None
    }
}

/// The value of a hexadecimal digit.
pub open spec fn hex_value(c: char) -> Option<u32> {
    if '0' <= c <= '9' {
        Some((c as u32 - 0x30) as u32)
    } else if 'a' <= c <= 'f' {
        Some((c as u32 - 0x57) as u32)
    } else if 'A' <= c <= 'F' {
        Some((c as u32 - 0x37) as u32)
    } else {
        None
    }
}

/// What a character behind a backslash stands for.
pub open spec fn short_escape(c: char) -> Option<char> {
    if c == '"' || c == '\\' || c == '/' {
        Some(c)
    } else if c == 'b' {
        Some('\u{8}')
    } else if c == 'f' {
        Some('\u{c}')
    } else if c == 'n' {
        Some('\n')
    } else if c == 'r' {
        Some('\r')
    } else if c == 't' {
        Some('\t')
    } else {
        None
    }
}

/// The character at the front of the inside of a string literal, and how many characters it
/// is written in. Of the escapes with `u`, those below U+0100 are read.
pub open spec fn read_char(s: Seq<char>) -> Option<(char, int)> {
    if s.len() == 0 || (s[0] as u32) < 0x20 || s[0] == '"' {
        None
    } else if s[0] != '\\' {
        Some((s[0], 1))
    } else if s.len() >= 6 && s[1] == 'u' {
        match (hex_value(s[4]), hex_value(s[5])) {
            (Some(high), Some(low)) => if s[2] == '0' && s[3] == '0' {
                Some(((16 * high + low) as u32 as char, 6))
            } else {
                None
            },
            _ => None,
        }
    } else if s.len() >= 2 {
        match short_escape(s[1]) {
            Some(c) => Some((c, 2)),
            None => None,
        }
    } else {
        None
    }
}

/// What the inside of a string literal denotes, up to the quotation mark that ends it, and
/// what stands behind that.
pub open spec fn read_literal(s: Seq<char>) -> Option<(Seq<char>, Seq<char>)>
    decreases s.len(),
{
    if s.len() > 0 && s[0] == '"' {
        Some((Seq::empty(), s.drop_first()))
    } else {
        match read_char(s) {
            Some((c, n)) => match read_literal(s.skip(n)) {
                Some((text, rest)) => Some((seq![c] + text, rest)),
                None => None,
            },
            None => None,
        }
    }
}

/// What the object of a response says: the identifier of the request, the exit code, and
/// the output.
pub open spec fn read_response(s: Seq<char>) -> Option<(int, int, Seq<char>)> {
    match behind(s, "{\"requestId\":"@) {
        Some(a) => match read_number(a) {
            Some((id, b)) => match behind(b, ",\"exitCode\":"@) {
                Some(c) => match read_number(c) {
                    Some((code, d)) => match behind(d, ",\"output\":\""@) {
                        Some(e) => match read_literal(e) {
                            Some((output, end)) => if end == "}"@ {
                                Some((id, code, output))
                            } else {
                                None
                            },
                            None => None,
                        },
                        None => None,
                    },
                    None => None,
                },
                None => None,
            },
            None => None,
        },
        None => None,
    }
}

proof fn lemma_behind(head: Seq<char>, rest: Seq<char>)
    ensures
        behind(head + rest, head) == Some(rest),
{
    assert(head =~= (head + rest).subrange(0, head.len() as int));
    assert((head + rest).skip(head.len() as int) =~= rest);
}

proof fn lemma_number_length(s: Seq<char>, rest: Seq<char>)
    requires
        forall|i: int| 0 <= i < s.len() ==> #[trigger] s[i] == '-' || '0' <= s[i] <= '9',
        rest.len() > 0,
        rest[0] == ',' || rest[0] == ':',
    ensures
        number_length(s + rest) == s.len(),
    decreases s.len(),
{
    if s.len() == 0 {
        assert(s + rest =~= rest);
    } else {
        let tail = s.drop_first();
        assert forall|i: int| 0 <= i < tail.len() implies #[trigger] tail[i] == '-' || '0'
            <= tail[i] <= '9' by {
            assert(tail[i] == s[i + 1]);
        }
        lemma_number_length(tail, rest);
        assert((s + rest).drop_first() =~= tail + rest);
        assert((s + rest)[0] == s[0]);
    }
}

proof fn lemma_read_number(n: int, rest: Seq<char>)
    requires
        rest.len() > 0,
        rest[0] == ',' || rest[0] == ':',
    ensures
        read_number(decimal(n) + rest) == Some((n, rest)),
{
    let s = decimal(n);
    law_decimal_denotes_its_number(n);
    lemma_number_length(s, rest);
    assert((s + rest).take(s.len() as int) =~= s);
    assert((s + rest).skip(s.len() as int) =~= rest);
    if n < 0 {
        let d = s.drop_first();
        assert forall|i: int| 0 <= i < d.len() implies '0' <= #[trigger] d[i] <= '9' by {
            assert(d[i] == s[i + 1]);
        }
        assert(d[0] == s[1]);
    } else {
        assert(s[0] != '-');
    }
    assert(is_number(s));
}

proof fn lemma_hex_digit(n: u32)
    requires
        n < 16,
    ensures
        hex_value(hex_digit(n)) == Some(n),
{
}

proof fn lemma_read_char(c: char, rest: Seq<char>)
    ensures
        read_char(escaped(c) + rest) == Some((c, escaped(c).len() as int)),
        escaped(c).len() > 0,
        escaped(c)[0] != '"',
{
    let n = c as u32;
    let e = escaped(c);
    let s = e + rest;
    assert(s[0] == e[0]);
    if e.len() == 2 {
        assert(s[1] == e[1]);
        char_u32_cast(c, n);
    }
    if e.len() == 6 {
        lemma_hex_digit(n / 16);
        lemma_hex_digit(n % 16);
        assert(s[1] == 'u' && s[2] == '0' && s[3] == '0');
        assert(s[4] == hex_digit(n / 16) && s[5] == hex_digit(n % 16));
        assert((16 * (n / 16) + n % 16) as u32 == n);
        char_u32_cast(c, n);
    }
}

proof fn lemma_escaped_first(c: char, t: Seq<char>)
    ensures
        all_escaped(seq![c] + t) == escaped(c) + all_escaped(t),
    decreases t.len(),
{
    let s = seq![c] + t;
    if t.len() == 0 {
        assert(s.drop_last() =~= Seq::empty());
        assert(s.last() == c);
        assert(all_escaped(Seq::<char>::empty()) =~= Seq::<char>::empty());
        assert(all_escaped(s) =~= escaped(c) + all_escaped(t));
    } else {
        assert(s.drop_last() =~= seq![c] + t.drop_last());
        assert(s.last() == t.last());
        lemma_escaped_first(c, t.drop_last());
        assert(all_escaped(s) =~= escaped(c) + all_escaped(t));
    }
}

/// A string literal denotes the text that was quoted, whatever that holds.
pub proof fn law_literal_denotes_its_text(text: Seq<char>, rest: Seq<char>)
    ensures
        quoted(text).len() > 0,
        quoted(text)[0] == '"',
        read_literal(quoted(text).drop_first() + rest) == Some((text, rest)),
    decreases text.len(),
{
    let inside = all_escaped(text) + seq!['"'] + rest;
    assert(quoted(text).drop_first() + rest =~= inside);
    if text.len() == 0 {
        assert(inside[0] == '"');
        assert(inside.drop_first() =~= rest);
    } else {
        let c = text[0];
        let tail = text.drop_first();
        let more = all_escaped(tail) + seq!['"'] + rest;
        assert(text =~= seq![c] + tail);
        lemma_escaped_first(c, tail);
        lemma_read_char(c, more);
        assert(inside =~= escaped(c) + more);
        assert(inside[0] == escaped(c)[0]);
        assert(inside.skip(escaped(c).len() as int) =~= more);
        assert(quoted(tail).drop_first() + rest =~= more);
        law_literal_denotes_its_text(tail, rest);
    }
}

/// A response says what it was made from: read as JSON, it gives back the identifier of the
/// request, the exit code and the output, whatever they are.
pub proof fn law_response_is_read_back(request_id: i64, exit_code: i32, output: Seq<char>)
    ensures
        read_response(response_object(request_id, exit_code, output)) == Some(
            (request_id as int, exit_code as int, output),
        ),
{
    reveal_strlit(",\"exitCode\":");
    reveal_strlit(",\"output\":");
    reveal_strlit(",\"output\":\"");
    let s = response_object(request_id, exit_code, output);
    let e = quoted(output).drop_first() + "}"@;
    let d = ",\"output\":\""@ + e;
    let c = decimal(exit_code as int) + d;
    let b = ",\"exitCode\":"@ + c;
    let a = decimal(request_id as int) + b;
    law_literal_denotes_its_text(output, "}"@);
    assert(",\"output\":\""@ =~= ",\"output\":"@.push('"'));
    assert(quoted(output) =~= seq!['"'] + quoted(output).drop_first());
    assert(s =~= "{\"requestId\":"@ + a);
    lemma_behind("{\"requestId\":"@, a);
    assert(b[0] == ',');
    lemma_read_number(request_id as int, b);
    lemma_behind(",\"exitCode\":"@, c);
    assert(d[0] == ',');
    lemma_read_number(exit_code as int, d);
    lemma_behind(",\"output\":\""@, e);
}

/// Responses that differ in what they say differ in the bytes that are written.
pub proof fn law_responses_tell_answers_apart(
    request_id: i64,
    exit_code: i32,
    output: Seq<char>,
    other_id: i64,
    other_code: i32,
    other_output: Seq<char>,
)
    requires
        encode_utf8(response_object(request_id, exit_code, output)).push(0x0a) == encode_utf8(
            response_object(other_id, other_code, other_output),
        ).push(0x0a),
    ensures
        request_id == other_id,
        exit_code == other_code,
        output == other_output,
{
    let s = response_object(request_id, exit_code, output);
    let t = response_object(other_id, other_code, other_output);
    assert(encode_utf8(s) =~= encode_utf8(s).push(0x0a).drop_last());
    assert(encode_utf8(t) =~= encode_utf8(t).push(0x0a).drop_last());
    law_encoding_tells_texts_apart(s, t);
    law_response_is_read_back(request_id, exit_code, output);
    law_response_is_read_back(other_id, other_code, other_output);
}

/// Where the text of a parse error says that the error stands: the line and the column.
pub open spec fn read_place(s: Seq<char>) -> Option<(int, int)> {
    match behind(s, "Parse error at line:"@) {
        Some(a) => match read_number(a) {
            Some((line, b)) => match behind(b, ", col:"@) {
                Some(c) => match read_number(c) {
                    Some((column, _)) => Some((line, column)),
                    None => None,
                },
                None => None,
            },
            None => None,
        },
        None => None,
    }
}

/// The text of a parse error begins with the place of the error, whatever reason follows.
pub proof fn law_parse_error_tells_its_place(place: (nat, nat), reason: Seq<char>)
    ensures
        read_place(error_head(place) + reason) == Some((place.0 as int, place.1 as int)),
{
    reveal_strlit(", col:");
    reveal_strlit(": ");
    let d = ": "@ + reason;
    let c = decimal(place.1 as int) + d;
    let b = ", col:"@ + c;
    let a = decimal(place.0 as int) + b;
    assert(error_head(place) + reason =~= "Parse error at line:"@ + a);
    lemma_behind("Parse error at line:"@, a);
    assert(b[0] == ',');
    lemma_read_number(place.0 as int, b);
    lemma_behind(", col:"@, c);
    assert(d[0] == ':');
    lemma_read_number(place.1 as int, d);
}

} // verus!
