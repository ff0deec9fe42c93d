//! The key under which the two phases of one crate find each other.
//!
//! It is a hash over the request's inputs and over the arguments that rustc is handed.
//! The params files differ from phase to phase and do not count.

use vstd::prelude::*;

use crate::text::{contains, ends_with};
#[allow(unused_imports)]
use crate::response::lemma_encoded_char;
#[allow(unused_imports)]
use crate::text::{law_occurrence_splits_the_text, occurs_in, pairs, texts};
#[allow(unused_imports)]
use vstd::string::*;
#[allow(unused_imports)]
use vstd::utf8::*;

verus! {

/// The state that the 64-bit FNV-1a hash starts from.
pub const FNV_OFFSET: u64 = 0xcbf2_9ce4_8422_2325;

/// The multiplier of the 64-bit FNV-1a hash.
pub const FNV_PRIME: u64 = 0x0000_0100_0000_01b3;

/// The 64-bit FNV-1a hash of `bytes`, where the hash stood at `start` before: each byte is
/// combined by exclusive or, and the state is then multiplied modulo 2^64.
pub open spec fn fnv1a_from(start: u64, bytes: Seq<u8>) -> u64
    decreases bytes.len(),
{
    if bytes.len() == 0 {
        start
    } else {
        let h = fnv1a_from(start, bytes.drop_last()) ^ (bytes.last() as u64);
        ((h * FNV_PRIME) % 0x1_0000_0000_0000_0000) as u64
    }
}

/// Whether the path is that of a params file, which the build system writes anew for
/// every action.
pub open spec fn params_file(path: Seq<char>) -> bool {
    ||| ".params"@.is_suffix_of(path)
    ||| occurs_in("/_internal_"@, path)
    ||| occurs_in("/internal/_"@, path)
}

/// The inputs that count, in order.
pub open spec fn counted(inputs: Seq<(Seq<char>, Seq<char>)>) -> Seq<(Seq<char>, Seq<char>)> {
    inputs.filter(|p: (Seq<char>, Seq<char>)| !params_file(p.0))
}

/// The paths and digests in UTF-8, each behind the other and each ended by a zero byte.
pub open spec fn input_bytes(inputs: Seq<(Seq<char>, Seq<char>)>) -> Seq<u8>
    decreases inputs.len(),
{
    if inputs.len() == 0 {
        Seq::empty()
    } else {
        let (path, digest) = inputs.last();
        input_bytes(inputs.drop_last()) + encode_utf8(path) + seq![0u8] + encode_utf8(digest)
            + seq![0u8]
    }
}

/// The arguments in UTF-8, each ended by a zero byte.
pub open spec fn argv_bytes(argv: Seq<Seq<char>>) -> Seq<u8>
    decreases argv.len(),
{
    if argv.len() == 0 {
        Seq::empty()
    } else {
        argv_bytes(argv.drop_last()) + encode_utf8(argv.last()) + seq![0u8]
    }
}

/// The key of a request with these inputs and these rustc arguments.
pub open spec fn key(inputs: Seq<(Seq<char>, Seq<char>)>, argv: Seq<Seq<char>>) -> u64 {
    fnv1a_from(FNV_OFFSET, input_bytes(counted(inputs)) + seq![0x7cu8] + argv_bytes(argv))
}

/// The 64-bit FNV-1a hash.
pub fn fnv1a(bytes: &[u8]) -> (r: u64)
    ensures
        r == fnv1a_from(FNV_OFFSET, bytes@),
{
    let mut h: u64 = FNV_OFFSET;
    let mut i: usize = 0;
    while i < bytes.len()
        invariant
            i <= bytes@.len(),
            h == fnv1a_from(FNV_OFFSET, bytes@.take(i as int)),
        decreases bytes@.len() - i,
    {
        assert(bytes@.take(i + 1).drop_last() =~= bytes@.take(i as int));
        h = h ^ (bytes[i] as u64);
        h = h.wrapping_mul(FNV_PRIME);
        i = i + 1;
    }
    assert(bytes@.take(i as int) =~= bytes@);
    h
}

/// Whether the path is that of a params file.
pub fn is_params_file(path: &str) -> (r: bool)
    ensures
        r == params_file(path@),
{
    ends_with(path, ".params") || contains(path, "/_internal_") || contains(path, "/internal/_")
}

/// Appends bytes to a buffer.
pub(crate) fn push_bytes(buf: &mut Vec<u8>, bytes: &[u8])
    ensures
        final(buf)@ == old(buf)@ + bytes@,
{
    buf.extend_from_slice(bytes);
    assert(buf@ =~= old(buf)@ + bytes@);
}

/// The key of a request with these inputs and these rustc arguments.
pub fn compute_key(inputs: &[(String, String)], rustc_argv: &[String]) -> (r: u64)
    ensures
        r == key(pairs(inputs@), texts(rustc_argv@)),
{
    let mut buf: Vec<u8> = Vec::new();
    let ghost all = pairs(inputs@);
    let ghost argv = texts(rustc_argv@);
    let ghost pred = |p: (Seq<char>, Seq<char>)| !params_file(p.0);
    let mut i: usize = 0;
    assert(all.take(0) =~= Seq::empty());
    while i < inputs.len()
        invariant
            i <= inputs@.len(),
            all == pairs(inputs@),
            pred == (|p: (Seq<char>, Seq<char>)| !params_file(p.0)),
            buf@ == input_bytes(all.take(i as int).filter(pred)),
        decreases inputs@.len() - i,
    {
        let ghost done = all.take(i as int);
        let ghost more = all.take(i + 1);
        assert(more.drop_last() =~= done);
        assert(more.last() == (inputs@[i as int].0@, inputs@[i as int].1@));
        reveal(Seq::filter);
        let path = inputs[i].0.as_str();
        let digest = inputs[i].1.as_str();
        if !is_params_file(path) {
            push_bytes(&mut buf, path.as_bytes());
            buf.push(0);
            push_bytes(&mut buf, digest.as_bytes());
            buf.push(0);
            proof {
                let f = done.filter(pred);
                assert(more.filter(pred) == f.push(more.last()));
                assert(f.push(more.last()).drop_last() =~= f);
                assert(buf@ =~= input_bytes(f) + encode_utf8(path@) + seq![0u8] + encode_utf8(
                    digest@,
                ) + seq![0u8]);
            }
        }
        i = i + 1;
    }
    assert(all.take(i as int) =~= all);
    let ghost head = buf@ + seq![0x7cu8];
    buf.push(0x7c);
    assert(buf@ =~= head);
    let mut j: usize = 0;
    assert(argv.take(0) =~= Seq::empty());
    assert(head + argv_bytes(argv.take(0)) =~= head);
    while j < rustc_argv.len()
        invariant
            j <= rustc_argv@.len(),
            argv == texts(rustc_argv@),
            buf@ == head + argv_bytes(argv.take(j as int)),
        decreases rustc_argv@.len() - j,
    {
        assert(argv.take(j + 1).drop_last() =~= argv.take(j as int));
        let arg = rustc_argv[j].as_str();
        push_bytes(&mut buf, arg.as_bytes());
        buf.push(0);
        assert(buf@ =~= head + (argv_bytes(argv.take(j as int)) + encode_utf8(arg@) + seq![0u8]));
        j = j + 1;
    }
    assert(argv.take(j as int) =~= argv);
    fnv1a(buf.as_slice())
}

/// A params file does not count: with it or without it, wherever it stands among the
/// inputs and whatever its digest is, the key is the same.
pub proof fn law_params_files_do_not_count(
    before: Seq<(Seq<char>, Seq<char>)>,
    file: (Seq<char>, Seq<char>),
    after: Seq<(Seq<char>, Seq<char>)>,
    argv: Seq<Seq<char>>,
)
    requires
        params_file(file.0),
    ensures
        key(before + seq![file] + after, argv) == key(before + after, argv),
{
    let pred = |p: (Seq<char>, Seq<char>)| !params_file(p.0);
    let one = seq![file];
    reveal_with_fuel(Seq::filter, 2);
    assert(one.drop_last() =~= Seq::empty());
    assert(one.filter(pred) =~= Seq::empty());
    Seq::filter_distributes_over_add(before + one, after, pred);
    Seq::filter_distributes_over_add(before, one, pred);
    Seq::filter_distributes_over_add(before, after, pred);
    assert(counted(before + one + after) =~= counted(before + after));
}

/// Hashing goes on where it stood: the hash of two runs of bytes is the hash of the
/// second, from where the first had left it.
pub proof fn law_hash_continues(start: u64, first: Seq<u8>, later: Seq<u8>)
    ensures
        fnv1a_from(start, first + later) == fnv1a_from(fnv1a_from(start, first), later),
    decreases later.len(),
{
    if later.len() == 0 {
        assert(first + later =~= first);
    } else {
        assert((first + later).drop_last() =~= first + later.drop_last());
        law_hash_continues(start, first, later.drop_last());
    }
}

/// The hash is FNV-1a with 64 bits: nothing is hashed to the offset basis, and one byte more
/// is taken in by an exclusive or and a multiplication modulo 2^64.
pub proof fn law_hash_takes_byte_after_byte(start: u64, bytes: Seq<u8>, byte: u8)
    ensures
        fnv1a_from(start, Seq::empty()) == start,
        fnv1a_from(start, bytes.push(byte)) as int == ((fnv1a_from(start, bytes) ^ (byte as u64))
            * 0x100000001b3) % 0x1_0000_0000_0000_0000,
        FNV_OFFSET == 0xcbf29ce484222325u64,
{
    assert(bytes.push(byte).drop_last() =~= bytes);
}

/// A path is that of a params file where it ends in `.params`, or has `/_internal_` or
/// `/internal/_` in it, and only there.
pub proof fn law_params_file_is_told_by_its_path(path: Seq<char>)
    ensures
        params_file(path) <==> {
            ||| exists|x: Seq<char>| path == #[trigger] (x + ".params"@)
            ||| exists|x: Seq<char>, y: Seq<char>| path == #[trigger] (x + "/_internal_"@ + y)
            ||| exists|x: Seq<char>, y: Seq<char>| path == #[trigger] (x + "/internal/_"@ + y)
        },
{
    law_occurrence_splits_the_text("/_internal_"@, path);
    law_occurrence_splits_the_text("/internal/_"@, path);
    let end = ".params"@;
    if end.is_suffix_of(path) {
        let x = path.take(path.len() - end.len());
        assert(path =~= x + end);
    }
    if exists|x: Seq<char>| path == #[trigger] (x + end) {
        let x = choose|x: Seq<char>| path == #[trigger] (x + end);
        assert(end =~= path.subrange(path.len() - end.len(), path.len() as int));
    }
}

/// Every argument counts, whatever it is and wherever it stands: the key with one argument
/// more is the key without it, hashed on over the argument's UTF-8 and a zero byte.
pub proof fn law_every_argument_counts(
    inputs: Seq<(Seq<char>, Seq<char>)>,
    argv: Seq<Seq<char>>,
    arg: Seq<char>,
)
    ensures
        key(inputs, argv.push(arg)) == fnv1a_from(key(inputs, argv), encode_utf8(arg).push(0u8)),
        argv_bytes(argv.push(arg)) == argv_bytes(argv) + encode_utf8(arg).push(0u8),
        argv_bytes(Seq::empty()).len() == 0,
{
    let head = input_bytes(counted(inputs)) + seq![0x7cu8];
    let end = encode_utf8(arg).push(0u8);
    assert(argv.push(arg).drop_last() =~= argv);
    assert(argv_bytes(argv) + encode_utf8(arg) + seq![0u8] =~= argv_bytes(argv) + end);
    law_hash_continues(FNV_OFFSET, head + argv_bytes(argv), end);
    assert(head + argv_bytes(argv.push(arg)) =~= head + argv_bytes(argv) + end);
}

/// Every input counts whose path is not that of a params file, with its path and its digest,
/// and a bar parts the inputs from the arguments. `file` is any input.
pub proof fn law_every_input_counts(
    inputs: Seq<(Seq<char>, Seq<char>)>,
    file: (Seq<char>, Seq<char>),
)
    ensures
        counted(Seq::empty()).len() == 0,
        input_bytes(Seq::empty()).len() == 0,
        params_file(file.0) ==> counted(inputs.push(file)) == counted(inputs),
        !params_file(file.0) ==> counted(inputs.push(file)) == counted(inputs).push(file),
        input_bytes(inputs.push(file)) == input_bytes(inputs) + encode_utf8(file.0).push(0u8)
            + encode_utf8(file.1).push(0u8),
        key(inputs, Seq::empty()) == fnv1a_from(
            0xcbf29ce484222325u64,
            input_bytes(counted(inputs)).push(0x7cu8),
        ),
{
    let pred = |p: (Seq<char>, Seq<char>)| !params_file(p.0);
    reveal(Seq::filter);
    assert(inputs.push(file).drop_last() =~= inputs);
    assert(input_bytes(inputs.push(file)) =~= input_bytes(inputs) + encode_utf8(file.0).push(0u8)
        + encode_utf8(file.1).push(0u8));
    let bytes = input_bytes(counted(inputs));
    assert(bytes + seq![0x7cu8] + argv_bytes(Seq::empty()) =~= bytes.push(0x7cu8));
}

/// No zero character.
pub open spec fn zero_free(s: Seq<char>) -> bool {
    forall|i: int| 0 <= i < s.len() ==> #[trigger] s[i] != '\0'
}

/// Texts that differ are encoded in bytes that differ.
pub proof fn law_encoding_tells_texts_apart(a: Seq<char>, b: Seq<char>)
    requires
        encode_utf8(a) == encode_utf8(b),
    ensures
        a == b,
{
    encode_utf8_decode_utf8(a);
    encode_utf8_decode_utf8(b);
}

proof fn lemma_encoded_char_zero_free(c: char)
    requires
        c != '\0',
    ensures
        forall|i: int|
            0 <= i < encode_scalar(c as u32).len() ==> #[trigger] encode_scalar(c as u32)[i] != 0,
{
    lemma_encoded_char(c);
}

proof fn lemma_encoded_zero_free(s: Seq<char>)
    requires
        zero_free(s),
    ensures
        forall|i: int| 0 <= i < encode_utf8(s).len() ==> #[trigger] encode_utf8(s)[i] != 0,
    decreases s.len(),
{
    if s.len() > 0 {
        let first = encode_scalar(s[0] as u32);
        let tail = s.drop_first();
        lemma_encoded_char_zero_free(s[0]);
        assert forall|i: int| 0 <= i < tail.len() implies #[trigger] tail[i] != '\0' by {
            assert(tail[i] == s[i + 1]);
        }
        lemma_encoded_zero_free(tail);
        let all = encode_utf8(s);
        assert forall|i: int| 0 <= i < all.len() implies #[trigger] all[i] != 0 by {
            if i < first.len() {
                assert(all[i] == first[i]);
            } else {
                assert(all[i] == encode_utf8(tail)[i - first.len()]);
            }
        }
    }
}

/// Bytes that end in zero-ended runs end in the same run where they are the same.
proof fn lemma_last_run(x: Seq<u8>, e: Seq<u8>, y: Seq<u8>, f: Seq<u8>)
    requires
        x + e.push(0u8) == y + f.push(0u8),
        x.len() > 0 ==> x.last() == 0,
        y.len() > 0 ==> y.last() == 0,
        forall|i: int| 0 <= i < e.len() ==> #[trigger] e[i] != 0,
        forall|i: int| 0 <= i < f.len() ==> #[trigger] f[i] != 0,
    ensures
        x == y,
        e == f,
{
    let s = x + e.push(0u8);
    assert(s.len() == x.len() + e.len() + 1 == y.len() + f.len() + 1);
    if x.len() > y.len() {
        assert(s[x.len() - 1] == x.last());
        assert(s[x.len() - 1] == f[x.len() - 1 - y.len()]);
    }
    if y.len() > x.len() {
        assert(s[y.len() - 1] == y.last());
        assert(s[y.len() - 1] == e[y.len() - 1 - x.len()]);
    }
    assert(x =~= s.take(x.len() as int));
    assert(y =~= s.take(y.len() as int));
    assert(e =~= s.subrange(x.len() as int, s.len() - 1));
    assert(f =~= s.subrange(y.len() as int, s.len() - 1));
}

/// What is hashed of the arguments tells them apart: lists of arguments without a zero
/// character differ in the bytes that are hashed wherever they differ at all.
pub proof fn law_hashed_arguments_tell_lists_apart(a: Seq<Seq<char>>, b: Seq<Seq<char>>)
    requires
        argv_bytes(a) == argv_bytes(b),
        forall|i: int| 0 <= i < a.len() ==> zero_free(#[trigger] a[i]),
        forall|i: int| 0 <= i < b.len() ==> zero_free(#[trigger] b[i]),
    ensures
        a == b,
    decreases a.len(),
{
    if a.len() > 0 && b.len() > 0 {
        let x = argv_bytes(a.drop_last());
        let y = argv_bytes(b.drop_last());
        assert(argv_bytes(a) =~= x + encode_utf8(a.last()).push(0u8));
        assert(argv_bytes(b) =~= y + encode_utf8(b.last()).push(0u8));
        assert(zero_free(a[a.len() - 1]));
        assert(zero_free(b[b.len() - 1]));
        lemma_encoded_zero_free(a.last());
        lemma_encoded_zero_free(b.last());
        lemma_last_run(x, encode_utf8(a.last()), y, encode_utf8(b.last()));
        law_encoding_tells_texts_apart(a.last(), b.last());
        law_hashed_arguments_tell_lists_apart(a.drop_last(), b.drop_last());
        assert(a =~= a.drop_last().push(a.last()));
        assert(b =~= b.drop_last().push(b.last()));
    } else {
        assert(a =~= b);
    }
}

/// What is hashed of the inputs tells them apart in the same way.
pub proof fn law_hashed_inputs_tell_lists_apart(
    a: Seq<(Seq<char>, Seq<char>)>,
    b: Seq<(Seq<char>, Seq<char>)>,
)
    requires
        input_bytes(a) == input_bytes(b),
        forall|i: int|
            0 <= i < a.len() ==> zero_free((#[trigger] a[i]).0) && zero_free(a[i].1),
        forall|i: int|
            0 <= i < b.len() ==> zero_free((#[trigger] b[i]).0) && zero_free(b[i].1),
    ensures
        a == b,
    decreases a.len(),
{
    if a.len() > 0 && b.len() > 0 {
        let (p, d) = a.last();
        let (q, e) = b.last();
        let x = input_bytes(a.drop_last());
        let y = input_bytes(b.drop_last());
        let xp = x + encode_utf8(p).push(0u8);
        let yq = y + encode_utf8(q).push(0u8);
        assert(input_bytes(a) =~= xp + encode_utf8(d).push(0u8));
        assert(input_bytes(b) =~= yq + encode_utf8(e).push(0u8));
        assert(zero_free(a[a.len() - 1].0));
        assert(zero_free(b[b.len() - 1].0));
        lemma_encoded_zero_free(p);
        lemma_encoded_zero_free(d);
        lemma_encoded_zero_free(q);
        lemma_encoded_zero_free(e);
        lemma_last_run(xp, encode_utf8(d), yq, encode_utf8(e));
        lemma_last_run(x, encode_utf8(p), y, encode_utf8(q));
        law_encoding_tells_texts_apart(p, q);
        law_encoding_tells_texts_apart(d, e);
        law_hashed_inputs_tell_lists_apart(a.drop_last(), b.drop_last());
        assert(a =~= a.drop_last().push(a.last()));
        assert(b =~= b.drop_last().push(b.last()));
    } else {
        assert(a =~= b);
    }
}

} // verus!
