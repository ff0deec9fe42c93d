//! The wrapper flags that travel inside a request's argument list.
//!
//! Of the arguments that Bazel sends, some are meant for the worker and not for rustc:
//!
//! - `--rustc-quit-on-rmeta true`: the request wants the metadata alone;
//! - `--output-file <path>`: where rustc's diagnostics are to be written;
//! - `--env-file <path>`: a file of environment variables for rustc.
//!
//! Each may also be written as one argument, with `=` before its value.

use vstd::prelude::*;

use crate::text::{same_text, strip_prefix};
#[allow(unused_imports)]
use crate::text::texts;

verus! {

/// Which artifact of the crate a request waits for.
#[derive(Clone, Copy, Debug, PartialEq, Eq, Hash, Structural)]
pub enum Phase {
    Metadata,
    Link,
}

impl Default for Phase {
    fn default() -> (r: Self)
        ensures
            r == Phase::Link,
    {
        Phase::Link
    }
}

/// What the wrapper flags of one request say.
#[derive(Debug)]
pub struct RequestFlags {
    pub phase: Phase,
    pub output_file: Option<String>,
    pub env_files: Vec<String>,
}

impl Default for RequestFlags {
    fn default() -> (r: Self)
        ensures
            r.phase == Phase::Link,
            r.output_file is None,
            r.env_files@.len() == 0,
    {
        RequestFlags { phase: Phase::Link, output_file: None, env_files: Vec::new() }
    }
}

/// What an argument list says: its wrapper flags, and the arguments that are none.
#[verifier::ext_equal]
pub struct FlagScan {
    pub phase: Phase,
    pub output_file: Option<Seq<char>>,
    pub env_files: Seq<Seq<char>>,
    pub rest: Seq<Seq<char>>,
}

/// What no argument at all says.
pub open spec fn no_flags() -> FlagScan {
    FlagScan {
        phase: Phase::Link,
        output_file: None,
        env_files: Seq::empty(),
        rest: Seq::empty(),
    }
}

/// A flag whose value is the next argument.
pub open spec fn takes_next(arg: Seq<char>) -> bool {
    arg == "--rustc-quit-on-rmeta"@ || arg == "--output-file"@ || arg == "--env-file"@
}

/// The value of `arg` where it is the flag `name`, an `=` included in the name.
pub open spec fn value_of(arg: Seq<char>, name: Seq<char>) -> Option<Seq<char>> {
    if name.is_prefix_of(arg) {
        Some(arg.skip(name.len() as int))
    } else {
        None
    }
}

/// A flag that carries its value behind an `=`.
pub open spec fn carries_value(arg: Seq<char>) -> bool {
    ||| value_of(arg, "--rustc-quit-on-rmeta="@) is Some
    ||| value_of(arg, "--output-file="@) is Some
    ||| value_of(arg, "--env-file="@) is Some
}

/// An argument that is meant for the worker.
pub open spec fn is_flag(arg: Seq<char>) -> bool {
    takes_next(arg) || carries_value(arg)
}

/// One flag's value before what all later arguments say. The metadata phase is asked for
/// by the value `true` alone, and no later argument takes that back.
pub open spec fn with_phase(value: Option<Seq<char>>, later: FlagScan) -> FlagScan {
    if value == Some("true"@) {
        FlagScan { phase: Phase::Metadata, ..later }
    } else {
        later
    }
}

/// The last output file counts.
pub open spec fn with_output_file(value: Option<Seq<char>>, later: FlagScan) -> FlagScan {
    if later.output_file is None {
        FlagScan { output_file: value, ..later }
    } else {
        later
    }
}

/// All the env files count, in order.
pub open spec fn with_env_file(value: Option<Seq<char>>, later: FlagScan) -> FlagScan {
    match value {
        Some(path) => FlagScan { env_files: seq![path] + later.env_files, ..later },
        None => later,
    }
}

/// What the argument list says, read from left to right. A flag that stands last and
/// lacks its value is passed over.
pub open spec fn scan(args: Seq<Seq<char>>) -> FlagScan
    decreases args.len(),
{
    if args.len() == 0 {
        no_flags()
    } else {
        let arg = args[0];
        let next = args.drop_first();
        if takes_next(arg) {
            let (value, later) = if next.len() > 0 {
                (Some(next[0]), scan(next.drop_first()))
            } else {
                (None, no_flags())
            };
            if arg == "--rustc-quit-on-rmeta"@ {
                with_phase(value, later)
            } else if arg == "--output-file"@ {
                with_output_file(value, later)
            } else {
                with_env_file(value, later)
            }
        } else {
            let later = scan(next);
            if value_of(arg, "--rustc-quit-on-rmeta="@) is Some {
                with_phase(value_of(arg, "--rustc-quit-on-rmeta="@), later)
            } else if value_of(arg, "--output-file="@) is Some {
                with_output_file(value_of(arg, "--output-file="@), later)
            } else if value_of(arg, "--env-file="@) is Some {
                with_env_file(value_of(arg, "--env-file="@), later)
            } else {
                FlagScan { rest: seq![arg] + later.rest, ..later }
            }
        }
    }
}

/// What two argument lists say, one behind the other.
pub open spec fn followed_by(first: FlagScan, later: FlagScan) -> FlagScan {
    FlagScan {
        phase: if first.phase == Phase::Metadata {
            first.phase
        } else {
            later.phase
        },
        output_file: if later.output_file is Some {
            later.output_file
        } else {
            first.output_file
        },
        env_files: first.env_files + later.env_files,
        rest: first.rest + later.rest,
    }
}

impl RequestFlags {
    /// The flags, beside the arguments that were left.
    pub open spec fn scanned(&self, rest: Seq<String>) -> FlagScan {
        FlagScan {
            phase: self.phase,
            output_file: match self.output_file {
                Some(path) => Some(path@),
                None => None,
            },
            env_files: texts(self.env_files@),
            rest: texts(rest),
        }
    }
}

/// Takes the wrapper flags out of an argument list, and says what they were.
pub fn extract_request_flags(args: &mut Vec<String>) -> (out: RequestFlags)
    ensures
        out.scanned(final(args)@) == scan(texts(old(args)@)),
{
    let mut out = RequestFlags::default();
    let mut filtered: Vec<String> = Vec::with_capacity(args.len());
    let mut i: usize = 0;
    let ghost all = texts(args@);
    assert(all.skip(0) =~= all);
    assert(out.scanned(filtered@) =~= no_flags());
    assert(followed_by(no_flags(), scan(all)) =~= scan(all));
    while i < args.len()
        invariant
            i <= args@.len(),
            args@ == old(args)@,
            all == texts(args@),
            followed_by(out.scanned(filtered@), scan(all.skip(i as int))) == scan(all),
        decreases args@.len() - i,
    {
        let ghost before = out.scanned(filtered@);
        let ghost left = all.skip(i as int);
        assert(left.drop_first() =~= all.skip(i + 1));
        assert(i + 1 < all.len() ==> left.drop_first().drop_first() =~= all.skip(i + 2));
        assert(all.skip(all.len() as int) =~= Seq::empty());
        let a = args[i].as_str();
        assert(a@ == left[0]);
        let quit = same_text(a, "--rustc-quit-on-rmeta");
        let output = same_text(a, "--output-file");
        let env = same_text(a, "--env-file");
        if quit || output || env {
            if i + 1 < args.len() {
                let value = &args[i + 1];
                assert(value@ == left.drop_first()[0]);
                if quit {
                    if same_text(value.as_str(), "true") {
                        out.phase = Phase::Metadata;
                    }
                } else if output {
                    out.output_file = Some(value.clone());
                } else {
                    out.env_files.push(value.clone());
                    assert(out.scanned(filtered@).env_files =~= before.env_files.push(value@));
                }
                i = i + 2;
            } else {
                i = i + 1;
            }
        } else if let Some(value) = strip_prefix(a, "--rustc-quit-on-rmeta=") {
            if same_text(value, "true") {
                out.phase = Phase::Metadata;
            }
            i = i + 1;
        } else if let Some(value) = strip_prefix(a, "--output-file=") {
            out.output_file = Some(value.to_owned());
            i = i + 1;
        } else if let Some(value) = strip_prefix(a, "--env-file=") {
            out.env_files.push(value.to_owned());
            assert(out.scanned(filtered@).env_files =~= before.env_files.push(value@));
            i = i + 1;
        } else {
            filtered.push(args[i].clone());
            assert(out.scanned(filtered@).rest =~= before.rest.push(a@));
            i = i + 1;
        }
        assert(followed_by(out.scanned(filtered@), scan(all.skip(i as int))) =~= followed_by(
            before,
            scan(left),
        ));
    }
    assert(all.skip(i as int) =~= Seq::empty());
    assert(followed_by(out.scanned(filtered@), no_flags()) =~= out.scanned(filtered@));
    *args = filtered;
    out
}

/// No flag stands last without its value.
pub open spec fn is_complete(args: Seq<Seq<char>>) -> bool
    decreases args.len(),
{
    if args.len() == 0 {
        true
    } else if takes_next(args[0]) {
        args.len() > 1 && is_complete(args.skip(2))
    } else {
        is_complete(args.drop_first())
    }
}

/// rustc is handed its own arguments alone: none of those that are left is a wrapper flag.
pub proof fn law_no_flag_is_left(args: Seq<Seq<char>>)
    ensures
        forall|i: int| 0 <= i < scan(args).rest.len() ==> !is_flag(#[trigger] scan(args).rest[i]),
    decreases args.len(),
{
    if args.len() > 0 {
        let next = args.drop_first();
        if takes_next(args[0]) {
            if next.len() > 0 {
                law_no_flag_is_left(next.drop_first());
            }
        } else {
            law_no_flag_is_left(next);
            let later = scan(next).rest;
            if !carries_value(args[0]) {
                assert forall|i: int| 0 <= i < scan(args).rest.len() implies !is_flag(
                    #[trigger] scan(args).rest[i],
                ) by {
                    if i > 0 {
                        assert(scan(args).rest[i] == later[i - 1]);
                    }
                }
            }
        }
    }
}

/// Arguments without a wrapper flag are all left, and say nothing to the worker.
pub proof fn law_plain_arguments_are_kept(args: Seq<Seq<char>>)
    requires
        forall|i: int| 0 <= i < args.len() ==> !is_flag(#[trigger] args[i]),
    ensures
        scan(args) == (FlagScan { rest: args, ..no_flags() }),
    decreases args.len(),
{
    if args.len() > 0 {
        let next = args.drop_first();
        assert forall|i: int| 0 <= i < next.len() implies !is_flag(#[trigger] next[i]) by {
            assert(next[i] == args[i + 1]);
        }
        law_plain_arguments_are_kept(next);
        assert(!is_flag(args[0]));
        assert(seq![args[0]] + next =~= args);
    } else {
        assert(args =~= Seq::empty());
    }
}

/// Stripping once is enough: a second pass finds no flag and takes nothing away.
pub proof fn law_stripping_twice_is_stripping_once(args: Seq<Seq<char>>)
    ensures
        scan(scan(args).rest) == (FlagScan { rest: scan(args).rest, ..no_flags() }),
{
    law_no_flag_is_left(args);
    law_plain_arguments_are_kept(scan(args).rest);
}

/// Two lists say, one behind the other, what each says by itself.
pub proof fn law_lists_are_scanned_apart(first: Seq<Seq<char>>, later: Seq<Seq<char>>)
    requires
        is_complete(first),
    ensures
        scan(first + later) == followed_by(scan(first), scan(later)),
    decreases first.len(),
{
    let both = first + later;
    if first.len() == 0 {
        assert(both =~= later);
        assert(followed_by(no_flags(), scan(later)) =~= scan(later));
    } else {
        assert(both[0] == first[0]);
        assert(both.drop_first() =~= first.drop_first() + later);
        if takes_next(first[0]) {
            assert(first.drop_first().drop_first() =~= first.skip(2));
            assert(both.drop_first().drop_first() =~= first.skip(2) + later);
            assert(both.drop_first()[0] == first.drop_first()[0]);
            law_lists_are_scanned_apart(first.skip(2), later);
        } else {
            law_lists_are_scanned_apart(first.drop_first(), later);
        }
        assert(scan(both) =~= followed_by(scan(first), scan(later)));
    }
}

/// Wrapper flags leave no trace in what rustc is handed: a run of them, wherever it stands
/// between two other arguments, can be left out or replaced by another run.
pub proof fn law_flags_leave_no_trace(
    before: Seq<Seq<char>>,
    flags: Seq<Seq<char>>,
    after: Seq<Seq<char>>,
)
    requires
        is_complete(before),
        is_complete(flags),
        scan(flags).rest.len() == 0,
    ensures
        scan(before + flags + after).rest == scan(before + after).rest,
{
    law_lists_are_scanned_apart(flags, after);
    law_lists_are_scanned_apart(before, flags + after);
    law_lists_are_scanned_apart(before, after);
    assert(before + flags + after =~= before + (flags + after));
    assert(scan(flags).rest + scan(after).rest =~= scan(after).rest);
}

/// The phase marker leaves no trace but the phase: wherever it stands between two other
/// arguments, in either of its forms, rustc's arguments, the output file and the env
/// files are those of the list without it.
pub proof fn law_phase_marker_leaves_no_trace(
    before: Seq<Seq<char>>,
    marker: Seq<Seq<char>>,
    after: Seq<Seq<char>>,
)
    requires
        is_complete(before),
        marker == seq!["--rustc-quit-on-rmeta"@, "true"@] || marker
            == seq!["--rustc-quit-on-rmeta=true"@],
    ensures
        scan(before + marker + after) == (FlagScan {
            phase: Phase::Metadata,
            ..scan(before + after)
        }),
{
    reveal_strlit("--rustc-quit-on-rmeta");
    reveal_strlit("--rustc-quit-on-rmeta=");
    reveal_strlit("--rustc-quit-on-rmeta=true");
    reveal_strlit("--output-file");
    reveal_strlit("--env-file");
    reveal_strlit("true");
    let arg = marker[0];
    assert(scan(Seq::<Seq<char>>::empty()) == no_flags());
    assert(is_complete(Seq::<Seq<char>>::empty()));
    if marker.len() == 2 {
        assert(marker.drop_first().drop_first() =~= Seq::empty());
        assert(marker.skip(2) =~= Seq::empty());
    } else {
        assert(marker.drop_first() =~= Seq::empty());
        assert("--rustc-quit-on-rmeta="@ =~= arg.subrange(0, 22));
        assert(arg.skip(22) =~= "true"@);
        assert(!takes_next(arg));
    }
    assert(scan(marker) == (FlagScan { phase: Phase::Metadata, ..no_flags() }));
    assert(is_complete(marker));
    law_lists_are_scanned_apart(marker, after);
    law_lists_are_scanned_apart(before, marker + after);
    law_lists_are_scanned_apart(before, after);
    assert(before + marker + after =~= before + (marker + after));
    assert(scan(before + marker + after) =~= FlagScan {
        phase: Phase::Metadata,
        ..scan(before + after)
    });
}

/// rustc's own arguments are left alone: a list without the three flag names, alone or with
/// an `=` behind them, stays as it is, and says nothing to the worker.
pub proof fn law_own_arguments_of_rustc_are_left_alone(args: Seq<Seq<char>>)
    requires
        forall|i: int|
            #![trigger args[i]]
            0 <= i < args.len() ==> {
                &&& args[i] != "--rustc-quit-on-rmeta"@
                &&& args[i] != "--output-file"@
                &&& args[i] != "--env-file"@
                &&& !"--rustc-quit-on-rmeta="@.is_prefix_of(args[i])
                &&& !"--output-file="@.is_prefix_of(args[i])
                &&& !"--env-file="@.is_prefix_of(args[i])
            },
    ensures
        scan(args).rest == args,
        scan(args).phase == Phase::Link,
        scan(args).output_file is None,
        scan(args).env_files.len() == 0,
{
    law_plain_arguments_are_kept(args);
}

/// One of rustc's own arguments is left in its place before all that is left of the later
/// arguments, and changes nothing in what they say.
pub proof fn law_own_argument_of_rustc_is_left_in_place(arg: Seq<char>, later: Seq<Seq<char>>)
    requires
        arg != "--rustc-quit-on-rmeta"@,
        arg != "--output-file"@,
        arg != "--env-file"@,
        !"--rustc-quit-on-rmeta="@.is_prefix_of(arg),
        !"--output-file="@.is_prefix_of(arg),
        !"--env-file="@.is_prefix_of(arg),
    ensures
        scan(seq![arg] + later).rest == seq![arg] + scan(later).rest,
        scan(seq![arg] + later).phase == scan(later).phase,
        scan(seq![arg] + later).output_file == scan(later).output_file,
        scan(seq![arg] + later).env_files == scan(later).env_files,
{
    assert((seq![arg] + later).drop_first() =~= later);
}

/// Each flag takes the argument behind it as its value, and both are stripped: `true` asks
/// for the metadata; the output file is that of the last such flag; the env files are those
/// of all such flags, in order.
pub proof fn law_flag_takes_the_next_argument(value: Seq<char>, later: Seq<Seq<char>>)
    ensures
        ({
            let s = scan(seq!["--rustc-quit-on-rmeta"@, value] + later);
            &&& s.phase == Phase::Metadata <==> value == "true"@ || scan(later).phase
                == Phase::Metadata
            &&& s.output_file == scan(later).output_file
            &&& s.env_files == scan(later).env_files
            &&& s.rest == scan(later).rest
        }),
        ({
            let s = scan(seq!["--output-file"@, value] + later);
            &&& s.phase == scan(later).phase
            &&& scan(later).output_file is None ==> s.output_file == Some(value)
            &&& scan(later).output_file is Some ==> s.output_file == scan(later).output_file
            &&& s.env_files == scan(later).env_files
            &&& s.rest == scan(later).rest
        }),
        ({
            let s = scan(seq!["--env-file"@, value] + later);
            &&& s.phase == scan(later).phase
            &&& s.output_file == scan(later).output_file
            &&& s.env_files == seq![value] + scan(later).env_files
            &&& s.rest == scan(later).rest
        }),
{
    reveal_strlit("--rustc-quit-on-rmeta");
    reveal_strlit("--output-file");
    reveal_strlit("--env-file");
    assert("--env-file"@[2] == 'e');
    assert("--output-file"@[2] == 'o');
    assert("--rustc-quit-on-rmeta"@[2] == 'r');
    lemma_carried("--rustc-quit-on-rmeta"@, "--rustc-quit-on-rmeta="@, value, later);
    lemma_carried("--output-file"@, "--output-file="@, value, later);
    lemma_carried("--env-file"@, "--env-file="@, value, later);
}

/// Each flag may carry its value behind an `=`, to the same effect.
pub proof fn law_flag_carries_its_value(value: Seq<char>, later: Seq<Seq<char>>)
    ensures
        scan(seq!["--rustc-quit-on-rmeta="@ + value] + later) == scan(
            seq!["--rustc-quit-on-rmeta"@, value] + later,
        ),
        scan(seq!["--output-file="@ + value] + later) == scan(
            seq!["--output-file"@, value] + later,
        ),
        scan(seq!["--env-file="@ + value] + later) == scan(seq!["--env-file"@, value] + later),
{
    reveal_strlit("--rustc-quit-on-rmeta");
    reveal_strlit("--output-file");
    reveal_strlit("--env-file");
    reveal_strlit("--rustc-quit-on-rmeta=");
    reveal_strlit("--output-file=");
    reveal_strlit("--env-file=");
    lemma_carried("--rustc-quit-on-rmeta"@, "--rustc-quit-on-rmeta="@, value, later);
    lemma_carried("--output-file"@, "--output-file="@, value, later);
    lemma_carried("--env-file"@, "--env-file="@, value, later);
    assert("--env-file"@[2] == 'e');
    assert("--output-file"@[2] == 'o');
    assert("--rustc-quit-on-rmeta"@[2] == 'r');
    let q = "--rustc-quit-on-rmeta="@ + value;
    let o = "--output-file="@ + value;
    let e = "--env-file="@ + value;
    assert(q[2] == 'r' && o[2] == 'o' && e[2] == 'e');
    assert(!takes_next(q) && !takes_next(o) && !takes_next(e));
    assert(value_of(o, "--rustc-quit-on-rmeta="@) is None) by {
        assert(o.len() >= 22 ==> o.subrange(0, 22)[2] == 'o');
    }
    assert(value_of(e, "--rustc-quit-on-rmeta="@) is None) by {
        assert(e.len() >= 22 ==> e.subrange(0, 22)[2] == 'e');
    }
    assert(value_of(e, "--output-file="@) is None) by {
        assert(e.len() >= 14 ==> e.subrange(0, 14)[2] == 'e');
    }
}

/// A flag with its value behind it or in it leads to the same later arguments.
proof fn lemma_carried(
    name: Seq<char>,
    with_equals: Seq<char>,
    value: Seq<char>,
    later: Seq<Seq<char>>,
)
    ensures
        (seq![with_equals + value] + later).drop_first() == later,
        (seq![name, value] + later).drop_first().drop_first() == later,
        (seq![name, value] + later).drop_first()[0] == value,
        value_of(with_equals + value, with_equals) == Some(value),
{
    assert((seq![with_equals + value] + later).drop_first() =~= later);
    assert((seq![name, value] + later).drop_first().drop_first() =~= later);
    let arg = with_equals + value;
    assert(with_equals =~= arg.subrange(0, with_equals.len() as int));
    assert(arg.skip(with_equals.len() as int) =~= value);
}

/// A flag that stands last and lacks its value is stripped and says nothing; so does no
/// argument at all.
pub proof fn law_flag_without_a_value_says_nothing(flag: Seq<char>)
    requires
        flag == "--rustc-quit-on-rmeta"@ || flag == "--output-file"@ || flag == "--env-file"@,
    ensures
        scan(seq![flag]) == scan(Seq::empty()),
        scan(Seq::empty()).phase == Phase::Link,
        scan(Seq::empty()).output_file is None,
        scan(Seq::empty()).env_files.len() == 0,
        scan(Seq::empty()).rest.len() == 0,
{
    assert(seq![flag].drop_first() =~= Seq::empty());
}

/// Flags are seen field by field, beside the arguments that were left.
pub proof fn law_flags_are_seen_whole(flags: RequestFlags, rest: Seq<String>)
    ensures
        flags.scanned(rest).phase == flags.phase,
        flags.output_file is None <==> flags.scanned(rest).output_file is None,
        flags.output_file matches Some(path) ==> flags.scanned(rest).output_file == Some(path@),
        flags.scanned(rest).env_files.len() == flags.env_files@.len(),
        forall|i: int|
            0 <= i < flags.env_files@.len() ==> #[trigger] flags.scanned(rest).env_files[i]
                == flags.env_files@[i]@,
        flags.scanned(rest).rest.len() == rest.len(),
        forall|i: int|
            0 <= i < rest.len() ==> #[trigger] flags.scanned(rest).rest[i] == rest[i]@,
{
}

} // verus!
