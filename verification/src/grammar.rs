//! Which runs of bytes are frames: a brace, what stands inside, and the brace that closes it.
//!
//! Inside stand bytes that mean nothing to the framing, string literals, and frames. A run of
//! bytes that is built of these is a frame, and since no frame begins another, nothing else
//! that begins such a frame is one.

use vstd::prelude::*;

#[allow(unused_imports)]
use crate::framing::{
    is_frame, is_open_frame, is_space, latin1, leading_space, lemma_leading_space, lex, lex_step,
    reads, Lex, ReadError,
};

verus! {

/// What can stand inside a frame.
pub open spec fn is_inside(s: Seq<u8>) -> bool {
    is_frame(seq![0x7bu8] + s + seq![0x7du8])
}

/// What ends a string literal behind its first quotation mark: bytes up to the first
/// quotation mark that no backslash escapes, and that mark.
pub open spec fn ends_literal(s: Seq<u8>) -> bool
    decreases s.len(),
{
    if s.len() == 0 {
        false
    } else if s[0] == 0x22 {
        s.len() == 1
    } else if s[0] == 0x5c {
        s.len() >= 2 && ends_literal(s.skip(2))
    } else {
        ends_literal(s.drop_first())
    }
}

/// Outside any string literal, with as many braces open as closed.
spec fn at_rest() -> Lex {
    Lex { in_str: false, esc: false, depth: 0 }
}

/// Nowhere more braces closed than opened.
spec fn stays_up(s: Seq<u8>) -> bool {
    forall|k: int| 0 <= k <= s.len() ==> lex(#[trigger] s.take(k)).depth >= 0
}

proof fn lemma_stays_up(s: Seq<u8>, b: u8)
    requires
        stays_up(s),
        lex_step(lex(s), b).depth >= 0,
    ensures
        stays_up(s.push(b)),
        lex(s.push(b)) == lex_step(lex(s), b),
{
    let t = s.push(b);
    assert(t.drop_last() =~= s);
    assert forall|k: int| 0 <= k <= t.len() implies lex(#[trigger] t.take(k)).depth >= 0 by {
        if k == t.len() {
            assert(t.take(k) =~= t);
        } else {
            assert(t.take(k) =~= s.take(k));
        }
    }
}

/// A backslash escapes inside a string literal only.
proof fn lemma_escape_is_inside(s: Seq<u8>)
    ensures
        lex(s).esc ==> lex(s).in_str,
    decreases s.len(),
{
    if s.len() > 0 {
        lemma_escape_is_inside(s.drop_last());
    }
}

/// Outside any string literal, bytes mean what they mean at the start.
proof fn lemma_shift(p: Seq<u8>, q: Seq<u8>)
    requires
        !lex(p).in_str,
    ensures
        lex(p + q) == (Lex { depth: lex(p).depth + lex(q).depth, ..lex(q) }),
    decreases q.len(),
{
    if q.len() == 0 {
        assert(p + q =~= p);
        lemma_escape_is_inside(p);
    } else {
        lemma_shift(p, q.drop_last());
        assert((p + q).drop_last() =~= p + q.drop_last());
    }
}

/// What is at rest in the end and stays up can stand inside, behind anything that can.
proof fn lemma_fits(s: Seq<u8>, q: Seq<u8>)
    requires
        is_inside(s),
        stays_up(q),
        lex(q) == at_rest(),
    ensures
        is_inside(s + q),
{
    let p = seq![0x7bu8] + s;
    let f = seq![0x7bu8] + s + seq![0x7du8];
    assert(f.drop_last() =~= p);
    assert(p.take(p.len() as int) =~= p);
    assert(lex(f) == lex_step(lex(p), 0x7d));
    lemma_escape_is_inside(p);
    let t = p + q;
    assert forall|m: int| 0 < m <= t.len() implies lex(#[trigger] t.take(m)).depth > 0 by {
        if m <= p.len() {
            assert(t.take(m) =~= p.take(m));
        } else {
            let k = m - p.len();
            assert(t.take(m) =~= p + q.take(k));
            lemma_shift(p, q.take(k));
        }
    }
    assert(t[0] == p[0]);
    lemma_shift(p, q);
    let g = seq![0x7bu8] + (s + q) + seq![0x7du8];
    assert(g.drop_last() =~= t);
}

proof fn lemma_literal(q: Seq<u8>, l: Seq<u8>)
    requires
        stays_up(q),
        lex(q) == (Lex { in_str: true, esc: false, depth: 0 }),
        ends_literal(l),
    ensures
        stays_up(q + l),
        lex(q + l) == at_rest(),
    decreases l.len(),
{
    lemma_stays_up(q, l[0]);
    if l[0] == 0x22 {
        assert(q + l =~= q.push(l[0]));
    } else if l[0] == 0x5c {
        lemma_stays_up(q.push(l[0]), l[1]);
        lemma_literal(q.push(l[0]).push(l[1]), l.skip(2));
        assert(q + l =~= q.push(l[0]).push(l[1]) + l.skip(2));
    } else {
        lemma_literal(q.push(l[0]), l.drop_first());
        assert(q + l =~= q.push(l[0]) + l.drop_first());
    }
}

proof fn lemma_nothing_stays_up()
    ensures
        stays_up(Seq::empty()),
        lex(Seq::empty()) == at_rest(),
{
    let none = Seq::<u8>::empty();
    assert forall|k: int| 0 <= k <= none.len() implies lex(#[trigger] none.take(k)).depth >= 0 by {
        assert(none.take(k) =~= none);
    }
}

/// Two braces are a frame.
pub proof fn law_two_braces_are_a_frame()
    ensures
        is_frame(seq![0x7bu8, 0x7du8]),
        is_inside(Seq::empty()),
{
    let p = seq![0x7bu8];
    let f = seq![0x7bu8, 0x7du8];
    assert(p.drop_last() =~= Seq::empty());
    assert(f.drop_last() =~= p);
    lemma_nothing_stays_up();
    assert forall|m: int| 0 < m <= p.len() implies lex(#[trigger] p.take(m)).depth > 0 by {
        assert(p.take(m) =~= p);
        assert(lex(p) == lex_step(at_rest(), 0x7b));
    }
    assert(lex(p) == lex_step(at_rest(), 0x7b));
    assert(lex(f) == lex_step(lex(p), 0x7d));
    assert(seq![0x7bu8] + Seq::<u8>::empty() + seq![0x7du8] =~= f);
}

/// A byte that is neither a brace nor a quotation mark can stand inside a frame, and it may
/// be a backslash.
pub proof fn law_plain_byte_stands_inside(s: Seq<u8>, b: u8)
    requires
        is_inside(s),
        b != 0x22,
        b != 0x7b,
        b != 0x7d,
    ensures
        is_inside(s.push(b)),
{
    lemma_nothing_stays_up();
    lemma_stays_up(Seq::empty(), b);
    assert(s + Seq::<u8>::empty().push(b) =~= s.push(b));
    lemma_fits(s, Seq::<u8>::empty().push(b));
}

/// A string literal can stand inside a frame, whatever bytes it holds: braces in it mean
/// nothing, nor do quotation marks behind a backslash.
pub proof fn law_literal_stands_inside(s: Seq<u8>, literal: Seq<u8>)
    requires
        is_inside(s),
        ends_literal(literal),
    ensures
        is_inside(s.push(0x22) + literal),
{
    let q = Seq::<u8>::empty().push(0x22);
    lemma_nothing_stays_up();
    lemma_stays_up(Seq::empty(), 0x22);
    lemma_literal(q, literal);
    assert(s.push(0x22) + literal =~= s + (q + literal));
    lemma_fits(s, q + literal);
}

/// A frame can stand inside a frame.
pub proof fn law_frame_stands_inside(s: Seq<u8>, frame: Seq<u8>)
    requires
        is_inside(s),
        is_frame(frame),
    ensures
        is_inside(s + frame),
{
    let p = frame.drop_last();
    assert forall|k: int| 0 <= k <= frame.len() implies lex(#[trigger] frame.take(k)).depth
        >= 0 by {
        if k == frame.len() {
            assert(frame.take(k) =~= frame);
        } else if k > 0 {
            assert(frame.take(k) =~= p.take(k));
        }
    }
    assert(p.take(p.len() as int) =~= p);
    lemma_escape_is_inside(p);
    lemma_fits(s, frame);
}

/// No frame begins another, and none begins what is still open.
pub proof fn law_no_frame_begins_another(frame: Seq<u8>, rest: Seq<u8>)
    requires
        is_frame(frame),
    ensures
        rest.len() > 0 ==> !is_frame(frame + rest),
        !is_open_frame(frame + rest),
{
    let all = frame + rest;
    assert(all.take(frame.len() as int) =~= frame);
    if rest.len() > 0 {
        assert(all.drop_last().take(frame.len() as int) =~= frame);
    }
}

/// What begins with a brace either begins with a frame or is open to its end.
pub proof fn law_brace_opens_a_frame(s: Seq<u8>)
    requires
        s.len() > 0,
        s[0] == 0x7b,
    ensures
        is_open_frame(s) || exists|n: int| 0 < n <= s.len() && is_frame(#[trigger] s.take(n)),
    decreases s.len(),
{
    if s.len() == 1 {
        law_two_braces_are_a_frame();
        assert(seq![0x7bu8, 0x7du8].drop_last() =~= s);
    } else {
        let p = s.drop_last();
        law_brace_opens_a_frame(p);
        if is_open_frame(p) {
            assert(p.take(p.len() as int) =~= p);
            if lex(s).depth > 0 {
                assert forall|m: int| 0 < m <= s.len() implies lex(#[trigger] s.take(m)).depth
                    > 0 by {
                    if m == s.len() {
                        assert(s.take(m) =~= s);
                    } else {
                        assert(s.take(m) =~= p.take(m));
                    }
                }
            } else {
                assert(s.take(s.len() as int) =~= s);
            }
        } else {
            let n = choose|n: int| 0 < n <= p.len() && is_frame(#[trigger] p.take(n));
            assert(s.take(n) =~= p.take(n));
        }
    }
}

/// White space is what Unicode takes for it among the first 256 characters: tab, line feed,
/// vertical tab, form feed, carriage return, space, next line, and no-break space.
pub proof fn law_white_space(b: u8)
    ensures
        is_space(b) <==> b == 9 || b == 10 || b == 11 || b == 12 || b == 13 || b == 32 || b == 133
            || b == 160,
{
}

/// A text has one character for each byte, with that byte's value.
pub proof fn law_bytes_become_characters(s: Seq<u8>, i: int)
    requires
        0 <= i < s.len(),
    ensures
        latin1(s).len() == s.len(),
        latin1(s)[i] as u32 == s[i] as u32,
{
}

/// What a read gives where no frame comes: nothing on white space alone; the first other byte
/// where that is no brace, and what stands behind it is left; and the end of the input in the
/// middle of a frame where the frame is open to the end.
pub proof fn law_read_without_a_frame(space: Seq<u8>, b: u8, rest: Seq<u8>, open: Seq<u8>)
    requires
        forall|i: int| 0 <= i < space.len() ==> is_space(#[trigger] space[i]),
    ensures
        reads(space, Ok(None), Seq::empty()),
        !is_space(b) && b != 0x7b ==> reads(
            space.push(b) + rest,
            Err(ReadError::InvalidData(b as char)),
            rest,
        ),
        is_open_frame(open) ==> reads(
            space + open,
            Err(ReadError::UnexpectedEof),
            Seq::empty(),
        ),
{
    let w = space.len() as int;
    lemma_leading_space(space, w);
    assert(space.skip(w) =~= Seq::empty());
    if !is_space(b) && b != 0x7b {
        let input = space.push(b) + rest;
        assert forall|i: int| 0 <= i < w implies is_space(#[trigger] input[i]) by {
            assert(input[i] == space[i]);
        }
        lemma_leading_space(input, w);
        assert(input.skip(w).skip(1) =~= rest);
    }
    if is_open_frame(open) {
        let input = space + open;
        assert forall|i: int| 0 <= i < w implies is_space(#[trigger] input[i]) by {
            assert(input[i] == space[i]);
        }
        assert(input[w] == open[0]);
        lemma_leading_space(input, w);
        assert(input.skip(w) =~= open);
    }
}

} // verus!
