//! What the worker decides while it handles one request.
//!
//! A request goes through these steps. The caller does what lies between them: it reads
//! env files, starts rustc, waits and writes files.
//!
//! 1. [`handle_request`] answers a cancelled request at once, and else names the arguments
//!    to prepare.
//! 2. [`plan_request`] parts the prepared arguments into rustc's and the worker's, computes
//!    the key, and says whether env files are to be read first.
//! 3. [`RequestPlan::env_loaded`] settles rustc's environment from those files, or answers
//!    with an error.
//! 4. The crates under way are asked for the key. A rustc that has to be started and
//!    cannot be is forgotten and answered by [`start_failed`].
//! 5. When the artifact's fate is known, [`finish_request`] says what to write, whether to
//!    forget the crate, and what to answer.

use vstd::prelude::*;

use crate::flags::{extract_request_flags, RequestFlags};
use crate::inflight::{Settled, StateMap};
use crate::key::compute_key;
use crate::protocol::WorkRequest;
use crate::text::{push_text, replace};
#[allow(unused_imports)]
use crate::flags::{
    is_complete, law_flags_leave_no_trace, law_stripping_twice_is_stripping_once, scan,
};
#[allow(unused_imports)]
use crate::inflight::verdict_view;
#[allow(unused_imports)]
use crate::key::{counted, key};
#[allow(unused_imports)]
use crate::text::{
    joined, law_first_occurrence_is_replaced, law_replacing_changes_what_joins,
    law_text_without_an_occurrence_stays, occurs_in, pairs, replaced, texts,
};

verus! {

/// The answer to a request: the exit code and the text that Bazel shows.
#[derive(Debug)]
pub struct Reply {
    pub code: i32,
    pub output: String,
}

/// An answer, by what it says.
#[verifier::ext_equal]
pub struct ReplyModel {
    pub code: i32,
    pub output: Seq<char>,
}

impl View for Reply {
    type V = ReplyModel;

    open spec fn view(&self) -> ReplyModel {
        ReplyModel { code: self.code, output: self.output@ }
    }
}

/// How the handling of a request begins.
#[derive(Debug)]
pub enum HandleStep {
    /// It is answered, and nothing else is done.
    Reply(Reply),
    /// The wrapper's substitutions are to be applied to each of these arguments.
    Prepare(Vec<String>),
}

/// The arguments with the working directory in the place of `${pwd}`.
pub open spec fn with_pwd(args: Seq<Seq<char>>, cwd: Seq<char>) -> Seq<Seq<char>> {
    args.map_values(|a: Seq<char>| replaced(a, "${pwd}"@, cwd))
}

/// Begins to handle a request. One that is cancelled succeeds with nothing to show.
pub fn handle_request(req: &WorkRequest, cwd: &str) -> (r: HandleStep)
    ensures
        match r {
            HandleStep::Reply(reply) => req@.cancel && reply@ == (ReplyModel {
                code: 0,
                output: Seq::empty(),
            }),
            HandleStep::Prepare(args) => !req@.cancel && texts(args@) == with_pwd(
                req@.arguments,
                cwd@,
            ),
        },
{
    if req.cancel {
        return HandleStep::Reply(Reply { code: 0, output: String::new() });
    }
    proof {
        reveal_strlit("${pwd}");
    }
    let mut args: Vec<String> = Vec::new();
    let mut i: usize = 0;
    while i < req.arguments.len()
        invariant
            i <= req.arguments@.len(),
            crate::text::no_overlap("${pwd}"@),
            args@.len() == i,
            forall|j: int|
                0 <= j < i ==> #[trigger] args@[j]@ == replaced(
                    req.arguments@[j]@,
                    "${pwd}"@,
                    cwd@,
                ),
        decreases req.arguments@.len() - i,
    {
        args.push(replace(req.arguments[i].as_str(), "${pwd}", cwd));
        i = i + 1;
    }
    assert(texts(args@) =~= with_pwd(req@.arguments, cwd@));
    HandleStep::Prepare(args)
}

/// What a request asks for.
#[derive(Debug)]
pub struct RequestPlan {
    /// What rustc is handed.
    pub rustc_args: Vec<String>,
    /// What the worker is told.
    pub flags: RequestFlags,
    /// Under which key the crate is found.
    pub key: u64,
}

/// The key of a request with these inputs and these prepared arguments.
pub open spec fn request_key(
    inputs: Seq<(Seq<char>, Seq<char>)>,
    prepared: Seq<Seq<char>>,
) -> u64 {
    key(inputs, scan(prepared).rest)
}

/// A request that is ready for rustc: what it asks for, and the environment of a rustc
/// that is started for it.
#[derive(Debug)]
pub struct Entering {
    pub plan: RequestPlan,
    pub env: Vec<(String, String)>,
}

/// What comes before the crates under way are asked.
#[derive(Debug)]
pub enum PlanStep {
    /// The env files that the plan names are to be read.
    LoadEnv(RequestPlan),
    /// Nothing.
    Enter(Entering),
}

impl RequestPlan {
    /// The plan is that of a request with these inputs and these prepared arguments.
    pub open spec fn follows(
        &self,
        inputs: Seq<(Seq<char>, Seq<char>)>,
        prepared: Seq<Seq<char>>,
    ) -> bool {
        &&& self.flags.scanned(self.rustc_args@) == scan(prepared)
        &&& self.key == request_key(inputs, prepared)
    }

    /// The env files have been read: rustc's environment is that of the worker's start with
    /// what they set on top. Where they could not be read, the request is answered.
    pub fn env_loaded(
        self,
        base: &Vec<(String, String)>,
        loaded: Result<Vec<(String, String)>, String>,
    ) -> (r: Result<Entering, Reply>)
        ensures
            match loaded {
                Ok(extra) => r matches Ok(entering) && entering.plan == self && pairs(
                    entering.env@,
                ) == pairs(base@) + pairs(extra@) && env_view(entering.env@)
                    == env_view(base@).union_prefer_right(env_view(extra@)),
                Err(e) => r matches Err(reply) && reply@ == (ReplyModel {
                    code: 1,
                    output: "env-file error: "@ + e@,
                }),
            },
    {
        match loaded {
            Ok(extra) => Ok(Entering { plan: self, env: merge_env(base, &extra) }),
            Err(e) => {
                let mut output = "env-file error: ".to_owned();
                push_text(&mut output, e.as_str());
                Err(Reply { code: 1, output })
            },
        }
    }
}

/// Parts the prepared arguments of a request, and computes its key from what rustc is
/// handed. `base` is the environment of the worker's start.
pub fn plan_request(
    inputs: &[(String, String)],
    prepared: Vec<String>,
    base: &Vec<(String, String)>,
) -> (r: PlanStep)
    ensures
        match r {
            PlanStep::LoadEnv(plan) => {
                &&& scan(texts(prepared@)).env_files.len() > 0
                &&& plan.follows(pairs(inputs@), texts(prepared@))
                &&& plan.flags.scanned(plan.rustc_args@) == scan(texts(prepared@))
                &&& plan.key == key(pairs(inputs@), texts(plan.rustc_args@))
            },
            PlanStep::Enter(entering) => {
                &&& scan(texts(prepared@)).env_files.len() == 0
                &&& entering.plan.follows(pairs(inputs@), texts(prepared@))
                &&& entering.plan.flags.scanned(entering.plan.rustc_args@) == scan(
                    texts(prepared@),
                )
                &&& entering.plan.key == key(pairs(inputs@), texts(entering.plan.rustc_args@))
                &&& pairs(entering.env@) == pairs(base@)
                &&& env_view(entering.env@) == env_view(base@)
            },
        },
{
    let mut rustc_args = prepared;
    let flags = extract_request_flags(&mut rustc_args);
    let key = compute_key(inputs, rustc_args.as_slice());
    let plan = RequestPlan { rustc_args, flags, key };
    assert(plan.flags.env_files@.len() == scan(texts(prepared@)).env_files.len());
    if !plan.flags.env_files.is_empty() {
        PlanStep::LoadEnv(plan)
    } else {
        let env = merge_env(base, &Vec::new());
        assert(pairs(env@) =~= pairs(base@));
        assert(env_view(env@) =~= env_view(base@));
        PlanStep::Enter(Entering { plan, env })
    }
}

/// An environment, by the names of its variables. Of two settings of a name the later
/// counts.
pub open spec fn env_view(env: Seq<(String, String)>) -> Map<Seq<char>, Seq<char>>
    decreases env.len(),
{
    if env.len() == 0 {
        Map::empty()
    } else {
        env_view(env.drop_last()).insert(env.last().0@, env.last().1@)
    }
}

/// One environment with another on top.
fn merge_env(base: &Vec<(String, String)>, extra: &Vec<(String, String)>) -> (env: Vec<
    (String, String),
>)
    ensures
        pairs(env@) == pairs(base@) + pairs(extra@),
        env_view(env@) == env_view(base@).union_prefer_right(env_view(extra@)),
{
    let mut env: Vec<(String, String)> = Vec::new();
    let mut i: usize = 0;
    while i < base.len()
        invariant
            i <= base@.len(),
            env@ =~= base@.take(i as int),
        decreases base@.len() - i,
    {
        env.push((base[i].0.clone(), base[i].1.clone()));
        i = i + 1;
    }
    let mut j: usize = 0;
    while j < extra.len()
        invariant
            j <= extra@.len(),
            env@ =~= base@ + extra@.take(j as int),
        decreases extra@.len() - j,
    {
        env.push((extra[j].0.clone(), extra[j].1.clone()));
        j = j + 1;
    }
    assert(env@ =~= base@ + extra@);
    proof {
        lemma_env_concat(base@, extra@);
    }
    assert(pairs(env@) =~= pairs(base@) + pairs(extra@));
    env
}

/// Settings that come later count over those that come first.
proof fn lemma_env_concat(first: Seq<(String, String)>, later: Seq<(String, String)>)
    ensures
        env_view(first + later) == env_view(first).union_prefer_right(env_view(later)),
    decreases later.len(),
{
    let both = first + later;
    if later.len() == 0 {
        assert(both =~= first);
        assert(env_view(both) =~= env_view(first).union_prefer_right(env_view(later)));
    } else {
        assert(both.drop_last() =~= first + later.drop_last());
        lemma_env_concat(first, later.drop_last());
        assert(env_view(both) =~= env_view(first).union_prefer_right(env_view(later)));
    }
}

/// The answer where rustc could not be started.
pub fn spawn_failure(error: &str) -> (r: Reply)
    ensures
        r@ == (ReplyModel { code: 1, output: "failed to spawn rustc: "@ + error@ }),
{
    let mut output = "failed to spawn rustc: ".to_owned();
    push_text(&mut output, error);
    Reply { code: 1, output }
}

/// rustc could not be started for the crate that was entered under this key: the crate is
/// no longer among those under way, and the request is answered.
pub fn start_failed<T>(state: &mut StateMap<T>, key: u64, error: &str) -> (r: Reply)
    ensures
        final(state)@ == old(state)@.remove(key),
        r@ == (ReplyModel { code: 1, output: "failed to spawn rustc: "@ + error@ }),
{
    state.remove(key);
    spawn_failure(error)
}

/// What is left to do for a request.
#[derive(Debug)]
pub struct Finish {
    /// The key of the crate, where it is no longer to be kept.
    pub retire: Option<u64>,
    /// The file to write, and what to write into it.
    pub sidecar: Option<(String, String)>,
    pub reply: Reply,
}

/// The answer to a request whose artifact has this verdict, where rustc has said this
/// much: what rustc has said, and behind it the error if there is one.
pub open spec fn reply_of(verdict: Result<(), Seq<char>>, stderr: Seq<char>) -> ReplyModel {
    match verdict {
        Ok(()) => ReplyModel { code: 0, output: stderr },
        Err(e) => ReplyModel {
            code: 1,
            output: if stderr.len() == 0 {
                e
            } else {
                stderr + "\n"@ + e
            },
        },
    }
}

/// Ends the handling of a request. What rustc has said goes to the output file, where the
/// request named one, whatever the verdict is.
pub fn finish_request(plan: RequestPlan, settled: Settled) -> (r: Finish)
    ensures
        r.reply@ == reply_of(verdict_view(settled.result), settled.stderr@),
        r.retire == if settled.retire {
            Some(plan.key)
        } else {
            None
        },
        match plan.flags.output_file {
            Some(path) => r.sidecar matches Some(file) && file.0@ == path@ && file.1@
                == settled.stderr@,
            None => r.sidecar is None,
        },
{
    let retire = if settled.retire {
        Some(plan.key)
    } else {
        None
    };
    let result = settled.result;
    let stderr = settled.stderr;
    let sidecar = match plan.flags.output_file {
        Some(path) => Some((path, stderr.clone())),
        None => None,
    };
    let reply = match result {
        Ok(()) => Reply { code: 0, output: stderr },
        Err(e) => {
            if stderr.as_str().is_empty() {
                Reply { code: 1, output: e }
            } else {
                let mut output = stderr;
                push_text(&mut output, "\n");
                push_text(&mut output, e.as_str());
                Reply { code: 1, output }
            }
        },
    };
    Finish { retire, sidecar, reply }
}

/// The two phases of a crate meet: their requests have the same key, and so share one
/// rustc, where they differ in the wrapper flags that stand between the same arguments and
/// in params files alone.
pub proof fn law_phases_share_a_key(
    before: Seq<Seq<char>>,
    flags1: Seq<Seq<char>>,
    flags2: Seq<Seq<char>>,
    after: Seq<Seq<char>>,
    inputs1: Seq<(Seq<char>, Seq<char>)>,
    inputs2: Seq<(Seq<char>, Seq<char>)>,
)
    requires
        is_complete(before),
        is_complete(flags1),
        is_complete(flags2),
        scan(flags1).rest.len() == 0,
        scan(flags2).rest.len() == 0,
        counted(inputs1) == counted(inputs2),
    ensures
        request_key(inputs1, before + flags1 + after) == request_key(
            inputs2,
            before + flags2 + after,
        ),
        scan(before + flags1 + after).rest == scan(before + flags2 + after).rest,
{
    law_flags_leave_no_trace(before, flags1, after);
    law_flags_leave_no_trace(before, flags2, after);
}

/// An argument in which `${pwd}` does not occur is handed on as it is.
pub proof fn law_only_pwd_is_substituted(arg: Seq<char>, cwd: Seq<char>)
    requires
        !occurs_in("${pwd}"@, arg),
    ensures
        replaced(arg, "${pwd}"@, cwd) == arg,
    decreases arg.len(),
{
    let from = "${pwd}"@;
    if arg.len() > 0 {
        let rest = arg.drop_first();
        if from.is_prefix_of(arg) {
            assert(arg.subrange(0int, 0int + from.len()) == from);
        }
        if occurs_in(from, rest) {
            let i = choose|i: int|
                0 <= i <= rest.len() - from.len() && #[trigger] rest.subrange(i, i + from.len())
                    == from;
            assert(arg.subrange(i + 1, i + 1 + from.len()) =~= rest.subrange(i, i + from.len()));
        }
        law_only_pwd_is_substituted(rest, cwd);
        assert(seq![arg[0]] + rest =~= arg);
    }
}

/// A request is answered with success if and only if its artifact has come about, and what
/// rustc has said is part of every answer.
pub proof fn law_answer_tells_the_verdict(verdict: Result<(), Seq<char>>, stderr: Seq<char>)
    ensures
        reply_of(verdict, stderr).code == 0 <==> verdict is Ok,
        stderr.is_prefix_of(reply_of(verdict, stderr).output),
        verdict matches Err(e) ==> e.is_suffix_of(reply_of(verdict, stderr).output),
{
    match verdict {
        Ok(()) => {
            assert(stderr.is_prefix_of(stderr));
        },
        Err(e) => {
            let output = reply_of(verdict, stderr).output;
            assert(stderr =~= output.subrange(0, stderr.len() as int));
            assert(e =~= output.subrange(output.len() - e.len(), output.len() as int));
        },
    }
}

/// Every argument is handed on with the working directory in the place of `${pwd}`: as many
/// go out as came in, and what stood around `${pwd}` in an argument stands around the
/// working directory. `pieces` are what is left of the argument around `${pwd}`.
pub proof fn law_pwd_is_substituted_in_every_argument(
    args: Seq<Seq<char>>,
    cwd: Seq<char>,
    i: int,
    pieces: Seq<Seq<char>>,
)
    requires
        0 <= i < args.len(),
        args[i] == joined(pieces, "${pwd}"@),
        forall|k: int| 0 <= k < pieces.len() ==> !occurs_in("${pwd}"@, #[trigger] pieces[k]),
    ensures
        with_pwd(args, cwd).len() == args.len(),
        with_pwd(args, cwd)[i] == joined(pieces, cwd),
{
    reveal_strlit("${pwd}");
    law_replacing_changes_what_joins(pieces, "${pwd}"@, cwd);
}

/// One `${pwd}` in an argument becomes the working directory, and an argument without it is
/// handed on as it is.
pub proof fn law_one_pwd_becomes_the_working_directory(
    args: Seq<Seq<char>>,
    cwd: Seq<char>,
    i: int,
    x: Seq<char>,
    y: Seq<char>,
)
    requires
        0 <= i < args.len(),
        !occurs_in("${pwd}"@, x),
        !occurs_in("${pwd}"@, y),
    ensures
        with_pwd(args, cwd).len() == args.len(),
        args[i] == x ==> with_pwd(args, cwd)[i] == x,
        args[i] == x + "${pwd}"@ + y ==> with_pwd(args, cwd)[i] == x + cwd + y,
{
    reveal_strlit("${pwd}");
    if args[i] == x {
        law_text_without_an_occurrence_stays(x, "${pwd}"@, cwd);
    }
    if args[i] == x + "${pwd}"@ + y {
        law_text_without_an_occurrence_stays(y, "${pwd}"@, cwd);
        law_first_occurrence_is_replaced(x, "${pwd}"@, y, cwd);
    }
}

/// What the answer to a request is: rustc's own words where the artifact has come about;
/// else the error alone where rustc has said nothing, or the error on a line of its own
/// behind what rustc has said.
pub proof fn law_answer_is_what_was_said_and_the_error(stderr: Seq<char>, e: Seq<char>)
    ensures
        reply_of(Ok(()), stderr).code == 0,
        reply_of(Ok(()), stderr).output == stderr,
        reply_of(Err(e), stderr).code == 1,
        reply_of(Err(e), Seq::empty()).output == e,
        stderr.len() > 0 ==> reply_of(Err(e), stderr).output == stderr.push('\n') + e,
{
    reveal_strlit("\n");
    assert(stderr + "\n"@ =~= stderr.push('\n'));
}

/// The key depends on what rustc is handed, and on nothing else of the arguments: arguments
/// that are rustc's own have the key of themselves, and any others that of what is left of
/// them.
pub proof fn law_key_is_that_of_what_rustc_is_handed(
    inputs: Seq<(Seq<char>, Seq<char>)>,
    prepared: Seq<Seq<char>>,
)
    ensures
        request_key(inputs, prepared) == key(inputs, scan(prepared).rest),
        request_key(inputs, prepared) == request_key(inputs, scan(prepared).rest),
{
    law_stripping_twice_is_stripping_once(prepared);
}

/// In an environment the last setting of a name counts, and a name that is not set has no
/// value.
pub proof fn law_last_setting_counts(env: Seq<(String, String)>, i: int, name: Seq<char>)
    ensures
        (0 <= i < env.len() && env[i].0@ == name && forall|j: int|
            i < j < env.len() ==> #[trigger] env[j].0@ != name) ==> env_view(env).dom().contains(
            name,
        ) && env_view(env)[name] == env[i].1@,
        (forall|j: int| 0 <= j < env.len() ==> #[trigger] env[j].0@ != name) ==> !env_view(
            env,
        ).dom().contains(name),
    decreases env.len(),
{
    if env.len() > 0 {
        let rest = env.drop_last();
        law_last_setting_counts(rest, i, name);
        if 0 <= i < env.len() && env[i].0@ == name && (forall|j: int|
            i < j < env.len() ==> #[trigger] env[j].0@ != name) {
            if i < rest.len() {
                assert(env[env.len() - 1].0@ != name);
                assert(rest[i] == env[i]);
                assert forall|j: int| i < j < rest.len() implies #[trigger] rest[j].0@ != name by {
                    assert(rest[j] == env[j]);
                }
            }
        }
        if forall|j: int| 0 <= j < env.len() ==> #[trigger] env[j].0@ != name {
            assert(env[env.len() - 1].0@ != name);
            assert forall|j: int| 0 <= j < rest.len() implies #[trigger] rest[j].0@ != name by {
                assert(rest[j] == env[j]);
            }
        }
    }
}

/// An answer is seen by its code and its text.
pub proof fn law_answer_is_seen_whole(reply: Reply)
    ensures
        reply@.code == reply.code,
        reply@.output == reply.output@,
{
}

/// The first `${pwd}` of an argument becomes the working directory, and what stands behind
/// it is substituted as if it were an argument of its own.
pub proof fn law_pwd_is_substituted_from_left_to_right(
    args: Seq<Seq<char>>,
    cwd: Seq<char>,
    i: int,
    x: Seq<char>,
    y: Seq<char>,
)
    requires
        0 <= i < args.len(),
        args[i] == x + "${pwd}"@ + y,
        !occurs_in("${pwd}"@, x),
    ensures
        with_pwd(args, cwd)[i] == x + cwd + with_pwd(seq![y], cwd)[0],
{
    reveal_strlit("${pwd}");
    law_first_occurrence_is_replaced(x, "${pwd}"@, y, cwd);
}

} // verus!
