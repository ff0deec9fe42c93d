//! Brace-counted framing of the JSON objects that arrive on one byte stream.

use vstd::prelude::*;

use crate::text::{debug_text, push_char, push_text};
#[allow(unused_imports)]
use crate::text::char_debug;

verus! {

/// What a scan over the bytes of one JSON object knows at some point: whether it
/// stands inside a string literal, whether the byte before was an unpaired
/// backslash of that literal, and how many braces are open.
#[verifier::ext_equal]
pub struct Lex {
    pub in_str: bool,
    pub esc: bool,
    pub depth: int,
}

/// The scan moves over one byte. Braces count only outside string literals; inside
/// one, a backslash takes the meaning away from the byte that follows it.
pub open spec fn lex_step(at: Lex, b: u8) -> Lex {
    if at.in_str {
        if at.esc {
            Lex { esc: false, ..at }
        } else if b == 0x5c {
            Lex { esc: true, ..at }
        } else {
            Lex { in_str: b != 0x22, ..at }
        }
    } else if b == 0x22 {
        Lex { in_str: true, ..at }
    } else if b == 0x7b {
        Lex { depth: at.depth + 1, ..at }
    } else if b == 0x7d {
        Lex { depth: at.depth - 1, ..at }
    } else {
        at
    }
}

/// Where the scan stands after all of `s`.
pub open spec fn lex(s: Seq<u8>) -> Lex
    decreases s.len(),
{
    if s.len() == 0 {
        Lex { in_str: false, esc: false, depth: 0 }
    } else {
        lex_step(lex(s.drop_last()), s.last())
    }
}

/// `s` begins with a brace, and no prefix of it (nor `s` itself) has closed that brace.
pub open spec fn is_open_frame(s: Seq<u8>) -> bool {
    &&& s.len() > 0
    &&& s[0] == 0x7b
    &&& forall|m: int| 0 < m <= s.len() ==> lex(#[trigger] s.take(m)).depth > 0
}

/// `s` is one whole frame: it begins with a brace, its last byte closes that brace,
/// and no byte before does.
pub open spec fn is_frame(s: Seq<u8>) -> bool {
    &&& s.len() > 0
    &&& is_open_frame(s.drop_last())
    &&& lex(s).depth == 0
}

/// The Latin-1 characters that have the Unicode property White_Space.
pub open spec fn is_space(b: u8) -> bool {
    0x09 <= b <= 0x0d || b == 0x20 || b == 0x85 || b == 0xa0
}

/// How many bytes of white space `s` begins with.
pub open spec fn leading_space(s: Seq<u8>) -> nat
    decreases s.len(),
{
    if s.len() > 0 && is_space(s[0]) {
        1 + leading_space(s.drop_first())
    } else {
        0
    }
}

/// Every byte read as the character of the same number.
pub open spec fn latin1(s: Seq<u8>) -> Seq<char> {
    s.map_values(|b: u8| b as char)
}

/// Why no frame could be read.
#[derive(Clone, Copy, Debug, PartialEq, Eq, Structural)]
pub enum ReadError {
    /// The stream ended inside a frame.
    UnexpectedEof,
    /// Where a frame should begin stands this character, and not a brace.
    InvalidData(char),
}

impl ReadError {
    /// The error in words.
    pub fn message(&self) -> (r: String)
        ensures
            r@ == match *self {
                ReadError::UnexpectedEof => "EOF mid-JSON"@,
                ReadError::InvalidData(c) => "expected '{' got "@ + char_debug(c),
            },
    {
        match *self {
            ReadError::UnexpectedEof => "EOF mid-JSON".to_owned(),
            ReadError::InvalidData(c) => {
                let mut text = "expected '{' got ".to_owned();
                push_text(&mut text, debug_text(c).as_str());
                text
            },
        }
    }
}

/// What one more byte meant.
#[derive(Debug)]
pub enum Feed {
    /// The frame goes on, or none has begun.
    More,
    /// The byte closed this frame.
    Done(String),
    /// No frame begins with this character.
    Reject(char),
}

/// Collects the bytes of one frame at a time.
pub struct JsonFramer {
    buf: Vec<u8>,
    depth: usize,
    in_str: bool,
    esc: bool,
}

impl View for JsonFramer {
    type V = Seq<u8>;

    /// The bytes of the frame that has begun, from its brace on.
    closed spec fn view(&self) -> Seq<u8> {
        self.buf@
    }
}

impl JsonFramer {
    /// The counters agree with the bytes collected, and these are empty or an open frame.
    pub closed spec fn wf(&self) -> bool {
        &&& lex(self.buf@) == (Lex {
            in_str: self.in_str,
            esc: self.esc,
            depth: self.depth as int,
        })
        &&& self.depth <= self.buf@.len()
        &&& self.buf@.len() == 0 || is_open_frame(self.buf@)
    }

    /// A framer at the start of a stream.
    pub fn new() -> (f: Self)
        ensures
            f.wf(),
            f@.len() == 0,
    {
        JsonFramer { buf: Vec::new(), depth: 0, in_str: false, esc: false }
    }

    /// Takes one byte of the stream.
    pub fn feed(&mut self, byte: u8) -> (r: Feed)
        requires
            old(self).wf(),
        ensures
            final(self).wf(),
            match r {
                Feed::Reject(c) => {
                    &&& old(self)@.len() == 0
                    &&& !is_space(byte)
                    &&& byte != 0x7b
                    &&& c == byte as char
                    &&& final(self)@ == old(self)@
                },
                Feed::Done(text) => {
                    &&& is_frame(old(self)@.push(byte))
                    &&& text@ == latin1(old(self)@.push(byte))
                    &&& final(self)@.len() == 0
                },
                Feed::More => if old(self)@.len() == 0 && is_space(byte) {
                    final(self)@ == old(self)@
                } else {
                    &&& final(self)@ == old(self)@.push(byte)
                    &&& is_open_frame(final(self)@)
                },
            },
    {
        if self.buf.len() == 0 {
            if is_space_byte(byte) {
                return Feed::More;
            }
            if byte != 0x7b {
                return Feed::Reject(byte as char);
            }
        }
        proof {
            lemma_push(self.buf@, byte);
        }
        self.buf.push(byte);
        // At most as many braces are open as bytes are held, so the counter has room.
        assert(self.buf.len() == self.buf@.len());
        if self.in_str {
            if self.esc {
                self.esc = false;
            } else if byte == 0x5c {
                self.esc = true;
            } else if byte == 0x22 {
                self.in_str = false;
            }
        } else if byte == 0x22 {
            self.in_str = true;
        } else if byte == 0x7b {
            self.depth = self.depth + 1;
        } else if byte == 0x7d {
            self.depth = self.depth - 1;
            if self.depth == 0 {
                let text = latin1_string(&self.buf);
                *self = JsonFramer::new();
                return Feed::Done(text);
            }
        }
        Feed::More
    }

    /// The stream has ended: an error if a frame had begun.
    pub fn finish(&self) -> (r: Result<(), ReadError>)
        ensures
            r is Ok <==> self@.len() == 0,
            r is Err ==> r->Err_0 == ReadError::UnexpectedEof,
    {
        if self.buf.len() == 0 {
            Ok(())
        } else {
            Err(ReadError::UnexpectedEof)
        }
    }
}

/// One more byte after the bytes of an open frame, or after none.
proof fn lemma_push(s: Seq<u8>, b: u8)
    ensures
        lex(s.push(b)) == lex_step(lex(s), b),
        s.push(b).drop_last() == s,
        is_open_frame(s) ==> lex(s).depth > 0,
        (s.len() == 0 && b == 0x7b || is_open_frame(s)) && lex(s.push(b)).depth > 0
            ==> is_open_frame(s.push(b)),
{
    let t = s.push(b);
    assert(t.drop_last() =~= s);
    assert(s.take(s.len() as int) =~= s);
    if (s.len() == 0 && b == 0x7b || is_open_frame(s)) && lex(t).depth > 0 {
        assert forall|m: int| 0 < m <= t.len() implies lex(#[trigger] t.take(m)).depth > 0 by {
            if m == t.len() {
                assert(t.take(m) =~= t);
            } else {
                assert(t.take(m) =~= s.take(m));
            }
        }
    }
}

/// What one read of a frame gives on the bytes `input`, and which bytes it leaves.
/// White space before the frame is passed over. Nothing but white space is the end of
/// the stream; a frame is handed out as text; anything else is refused at its first
/// character; and a frame that the input does not close is an error.
pub open spec fn reads(
    input: Seq<u8>,
    out: Result<Option<Seq<char>>, ReadError>,
    rest: Seq<u8>,
) -> bool {
    let body = input.skip(leading_space(input) as int);
    match out {
        Ok(None) => body.len() == 0 && rest == body,
        Ok(Some(text)) => {
            let n = text.len() as int;
            &&& n <= body.len()
            &&& is_frame(body.take(n))
            &&& text == latin1(body.take(n))
            &&& rest == body.skip(n)
        },
        Err(ReadError::InvalidData(c)) => {
            &&& body.len() > 0
            &&& body[0] != 0x7b
            &&& c == body[0] as char
            &&& rest == body.skip(1)
        },
        Err(ReadError::UnexpectedEof) => is_open_frame(body) && rest.len() == 0,
    }
}

/// The text of a frame that was read, by its characters.
pub open spec fn read_view(r: Result<Option<String>, ReadError>) -> Result<
    Option<Seq<char>>,
    ReadError,
> {
    match r {
        Ok(Some(text)) => Ok(Some(text@)),
        Ok(None) => Ok(None),
        Err(e) => Err(e),
    }
}

/// A stream of bytes that is held in memory.
pub struct ByteReader<'a> {
    bytes: &'a [u8],
    pos: usize,
}

impl<'a> View for ByteReader<'a> {
    type V = Seq<u8>;

    /// The bytes that are still to be read.
    closed spec fn view(&self) -> Seq<u8> {
        self.bytes@.skip(self.pos as int)
    }
}

impl<'a> ByteReader<'a> {
    /// The position lies within the bytes.
    pub closed spec fn wf(&self) -> bool {
        self.pos <= self.bytes@.len()
    }

    /// A reader that has all of `bytes` before it.
    pub fn new(bytes: &'a [u8]) -> (r: Self)
        ensures
            r.wf(),
            r@ == bytes@,
    {
        ByteReader { bytes, pos: 0 }
    }

    /// Takes the next byte, if there is one.
    fn next_byte(&mut self) -> (r: Option<u8>)
        requires
            old(self).wf(),
        ensures
            final(self).wf(),
            match r {
                Some(b) => old(self)@.len() > 0 && b == old(self)@[0] && final(self)@
                    == old(self)@.skip(1),
                None => old(self)@.len() == 0 && final(self)@ == old(self)@,
            },
    {
        if self.pos < self.bytes.len() {
            let b: u8 = self.bytes[self.pos];
            self.pos = self.pos + 1;
            assert(self@ =~= old(self)@.skip(1));
            Some(b)
        } else {
            None
        }
    }
}

/// Reads the next frame, byte by byte, and nothing beyond its closing brace.
pub fn read_json_value(reader: &mut ByteReader<'_>) -> (r: Result<Option<String>, ReadError>)
    requires
        old(reader).wf(),
    ensures
        final(reader).wf(),
        reads(old(reader)@, read_view(r), final(reader)@),
{
    let ghost input = reader@;
    let ghost mut taken: int = 0;
    let mut framer = JsonFramer::new();
    loop
        invariant
            input == old(reader)@,
            reader.wf(),
            framer.wf(),
            0 <= framer@.len() <= taken <= input.len(),
            reader@ == input.skip(taken),
            forall|i: int| 0 <= i < taken - framer@.len() ==> is_space(#[trigger] input[i]),
            framer@ == input.subrange(taken - framer@.len(), taken),
            framer@.len() > 0 ==> is_open_frame(framer@),
        decreases input.len() - taken,
    {
        let ghost w = taken - framer@.len();
        let ghost before = framer@;
        match reader.next_byte() {
            None => {
                let end = framer.finish();
                proof {
                    assert(input.skip(w) =~= framer@);
                    assert(framer@.len() > 0 ==> framer@[0] == input[w]);
                    lemma_leading_space(input, w);
                }
                return match end {
                    Ok(()) => Ok(None),
                    Err(e) => Err(e),
                };
            },
            Some(b) => {
                assert(b == input[taken]);
                assert(reader@ =~= input.skip(taken + 1));
                proof {
                    taken = taken + 1;
                    assert(before.push(b) =~= input.subrange(w, taken));
                }
                match framer.feed(b) {
                    Feed::More => {
                        proof {
                            if before.len() == 0 && is_space(b) {
                                assert(framer@ =~= input.subrange(taken, taken));
                            }
                        }
                    },
                    Feed::Done(text) => {
                        proof {
                            lemma_frame_start(before.push(b));
                            lemma_leading_space(input, w);
                            let body = input.skip(w);
                            assert(body.take(before.len() as int + 1) =~= before.push(b));
                            assert(body.skip(before.len() as int + 1) =~= reader@);
                        }
                        return Ok(Some(text));
                    },
                    Feed::Reject(c) => {
                        proof {
                            lemma_leading_space(input, w);
                            assert(input.skip(w).skip(1) =~= reader@);
                        }
                        return Err(ReadError::InvalidData(c));
                    },
                }
            },
        }
    }
}

/// The white space that `s` begins with ends where the first other byte stands.
pub(crate) proof fn lemma_leading_space(s: Seq<u8>, w: int)
    requires
        0 <= w <= s.len(),
        forall|i: int| 0 <= i < w ==> is_space(#[trigger] s[i]),
        w < s.len() ==> !is_space(s[w]),
    ensures
        leading_space(s) == w,
    decreases s.len(),
{
    if w > 0 {
        assert(is_space(s[0]));
        let t = s.drop_first();
        assert forall|i: int| 0 <= i < w - 1 implies is_space(#[trigger] t[i]) by {
            assert(t[i] == s[i + 1]);
        }
        lemma_leading_space(t, w - 1);
    }
}

/// A frame begins with its brace.
proof fn lemma_frame_start(f: Seq<u8>)
    requires
        is_frame(f),
    ensures
        f.len() >= 2,
        f[0] == 0x7b,
{
    assert(f.drop_last()[0] == f[0]);
}

/// A frame is read whole, whatever white space stands before it and whatever bytes
/// follow; those bytes are left for the next read.
pub proof fn law_frame_is_read_whole(space: Seq<u8>, frame: Seq<u8>, rest: Seq<u8>)
    requires
        forall|i: int| 0 <= i < space.len() ==> is_space(#[trigger] space[i]),
        is_frame(frame),
    ensures
        reads(space + frame + rest, Ok(Some(latin1(frame))), rest),
{
    let input = space + frame + rest;
    let w = space.len() as int;
    lemma_frame_start(frame);
    assert(input[w] == frame[0]);
    assert forall|i: int| 0 <= i < w implies is_space(#[trigger] input[i]) by {
        assert(input[i] == space[i]);
    }
    lemma_leading_space(input, w);
    let body = input.skip(w);
    assert(body.take(frame.len() as int) =~= frame);
    assert(body.skip(frame.len() as int) =~= rest);
}

/// The bytes of all the frames, one after the other.
pub open spec fn packed(frames: Seq<Seq<u8>>) -> Seq<u8>
    decreases frames.len(),
{
    if frames.len() == 0 {
        Seq::empty()
    } else {
        frames[0] + packed(frames.drop_first())
    }
}

/// Frames that are packed without a separator come out one by one, in order, each as
/// it went in, and the stream then ends.
pub proof fn law_packed_frames_come_out_in_order(frames: Seq<Seq<u8>>)
    requires
        forall|i: int| 0 <= i < frames.len() ==> is_frame(#[trigger] frames[i]),
    ensures
        forall|i: int|
            0 <= i < frames.len() ==> reads(
                packed(#[trigger] frames.skip(i)),
                Ok(Some(latin1(frames[i]))),
                packed(frames.skip(i + 1)),
            ),
        reads(packed(frames.skip(frames.len() as int)), Ok(None), Seq::empty()),
{
    assert forall|i: int| 0 <= i < frames.len() implies reads(
        packed(#[trigger] frames.skip(i)),
        Ok(Some(latin1(frames[i]))),
        packed(frames.skip(i + 1)),
    ) by {
        let tail = packed(frames.skip(i + 1));
        assert(frames.skip(i).drop_first() =~= frames.skip(i + 1));
        assert(packed(frames.skip(i)) =~= Seq::<u8>::empty() + frames[i] + tail);
        law_frame_is_read_whole(Seq::empty(), frames[i], tail);
    }
    assert(Seq::<u8>::empty().skip(0) =~= Seq::<u8>::empty());
}

/// The bytes of all the frames, with white space before each and behind the last.
pub open spec fn spaced(frames: Seq<Seq<u8>>, spaces: Seq<Seq<u8>>) -> Seq<u8>
    decreases frames.len(),
{
    if frames.len() == 0 {
        spaces[0]
    } else {
        spaces[0] + frames[0] + spaced(frames.drop_first(), spaces.drop_first())
    }
}

/// Frames with any white space between them come out one by one, in order, each as it went
/// in, and the stream then ends.
pub proof fn law_spaced_frames_come_out_in_order(
    frames: Seq<Seq<u8>>,
    spaces: Seq<Seq<u8>>,
    i: int,
)
    requires
        spaces.len() == frames.len() + 1,
        forall|k: int| 0 <= k < frames.len() ==> is_frame(#[trigger] frames[k]),
        forall|k: int, j: int|
            0 <= k < spaces.len() && 0 <= j < spaces[k].len() ==> is_space(#[trigger] spaces[k][j]),
        0 <= i <= frames.len(),
    ensures
        i < frames.len() ==> reads(
            spaced(frames.skip(i), spaces.skip(i)),
            Ok(Some(latin1(frames[i]))),
            spaced(frames.skip(i + 1), spaces.skip(i + 1)),
        ),
        i == frames.len() ==> reads(
            spaced(frames.skip(i), spaces.skip(i)),
            Ok(None),
            Seq::empty(),
        ),
{
    let space = spaces[i];
    assert(spaces.skip(i)[0] == space);
    if i < frames.len() {
        assert(frames.skip(i).drop_first() =~= frames.skip(i + 1));
        assert(spaces.skip(i).drop_first() =~= spaces.skip(i + 1));
        let tail = spaced(frames.skip(i + 1), spaces.skip(i + 1));
        law_frame_is_read_whole(space, frames[i], tail);
    } else {
        lemma_leading_space(space, space.len() as int);
        assert(space.skip(space.len() as int) =~= Seq::empty());
    }
}

/// A stream that breaks off inside a frame is an error, wherever it breaks off.
pub proof fn law_cut_frame_is_refused(space: Seq<u8>, frame: Seq<u8>, n: int)
    requires
        forall|i: int| 0 <= i < space.len() ==> is_space(#[trigger] space[i]),
        is_frame(frame),
        0 < n < frame.len(),
    ensures
        reads(space + frame.take(n), Err(ReadError::UnexpectedEof), Seq::empty()),
{
    let cut = frame.take(n);
    let input = space + cut;
    let w = space.len() as int;
    lemma_frame_start(frame);
    assert(input[w] == frame[0]);
    assert forall|i: int| 0 <= i < w implies is_space(#[trigger] input[i]) by {
        assert(input[i] == space[i]);
    }
    lemma_leading_space(input, w);
    assert(input.skip(w) =~= cut);
    assert forall|m: int| 0 < m <= cut.len() implies lex(#[trigger] cut.take(m)).depth > 0 by {
        assert(cut.take(m) =~= frame.drop_last().take(m));
    }
}

/// No input can be read in two ways: what a read gives and what it leaves are
/// determined by the bytes alone.
pub proof fn law_read_is_determined(
    input: Seq<u8>,
    out1: Result<Option<Seq<char>>, ReadError>,
    rest1: Seq<u8>,
    out2: Result<Option<Seq<char>>, ReadError>,
    rest2: Seq<u8>,
)
    requires
        reads(input, out1, rest1),
        reads(input, out2, rest2),
    ensures
        out1 == out2,
        rest1 == rest2,
{
    let body = input.skip(leading_space(input) as int);
    lemma_frame_lengths(body);
    assert(rest1.len() == 0 ==> rest1 =~= Seq::empty());
    assert(rest2.len() == 0 ==> rest2 =~= Seq::empty());
    assert(forall|n: int|
        1 < n <= body.len() && is_frame(#[trigger] body.take(n)) ==> body.take(n).drop_last()[0]
            == body[0]);
}

/// Of all that begins with the same bytes at most one prefix is a frame, and there is
/// none where all of it is an open frame.
proof fn lemma_frame_lengths(body: Seq<u8>)
    ensures
        forall|n: int, m: int|
            0 <= n <= body.len() && 0 <= m <= body.len() && is_frame(#[trigger] body.take(n))
                && is_frame(#[trigger] body.take(m)) ==> n == m,
        forall|n: int|
            0 <= n <= body.len() && is_frame(#[trigger] body.take(n)) ==> !is_open_frame(body),
{
    assert forall|n: int, m: int|
        0 <= n < m <= body.len() && is_frame(#[trigger] body.take(n)) && is_frame(
            #[trigger] body.take(m),
        ) implies false by {
        let open = body.take(m).drop_last();
        assert(open.take(n) =~= body.take(n));
    }
}

/// Whether a byte, read as a character, is white space.
pub fn is_space_byte(b: u8) -> (r: bool)
    ensures
        r == is_space(b),
{
    (0x09 <= b && b <= 0x0d) || b == 0x20 || b == 0x85 || b == 0xa0
}

/// The string whose characters are the given bytes.
fn latin1_string(bytes: &Vec<u8>) -> (s: String)
    ensures
        s@ == latin1(bytes@),
{
    let mut s = String::new();
    let mut i: usize = 0;
    while i < bytes.len()
        invariant
            i <= bytes@.len(),
            s@ == latin1(bytes@.take(i as int)),
        decreases bytes@.len() - i,
    {
        push_char(&mut s, bytes[i] as char);
        i = i + 1;
        assert(bytes@.take(i as int) =~= bytes@.take(i - 1).push(bytes@[i - 1]));
    }
    assert(bytes@.take(i as int) =~= bytes@);
    s
}

/// What was read is seen as it is.
pub proof fn law_read_is_seen_as_it_is(r: Result<Option<String>, ReadError>)
    ensures
        r matches Ok(Some(text)) ==> read_view(r) == Ok::<_, ReadError>(Some(text@)),
        r matches Ok(None) ==> read_view(r) == Ok::<Option<Seq<char>>, ReadError>(None),
        r matches Err(e) ==> read_view(r) == Err::<Option<Seq<char>>, _>(e),
{
}

} // verus!
