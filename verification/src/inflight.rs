//! One running rustc, and the requests that wait for what it produces.
//!
//! A crate is compiled once for both of its phases. The metadata is ready as soon as rustc
//! announces it; the library, when rustc has ended. Either is signalled once, and the
//! requests that wait for it take the verdict.

use std::collections::HashMap;

use vstd::prelude::*;

use crate::flags::Phase;
use crate::text::{decimal_text, ends_with, push_char, push_text};
#[allow(unused_imports)]
use crate::text::decimal;

verus! {

/// One artifact of a crate under way.
#[derive(Debug)]
pub struct ArtifactSlot {
    ready: bool,
    err: Option<String>,
    consumed: bool,
}

/// What is known of one artifact: whether its fate is known, with which error if any, and
/// whether a request has taken the verdict.
#[verifier::ext_equal]
pub struct SlotModel {
    pub ready: bool,
    pub err: Option<Seq<char>>,
    pub consumed: bool,
}

/// The characters of an error, where there is one.
pub open spec fn error_view(err: Option<String>) -> Option<Seq<char>> {
    match err {
        Some(e) => Some(e@),
        None => None,
    }
}

/// The characters of the error, where the verdict is one.
pub open spec fn verdict_view(r: Result<(), String>) -> Result<(), Seq<char>> {
    match r {
        Ok(()) => Ok(()),
        Err(e) => Err(e@),
    }
}

/// An artifact of which nothing is known.
pub open spec fn pending() -> SlotModel {
    SlotModel { ready: false, err: None, consumed: false }
}

/// The artifact's fate becomes known. What is known already stays.
pub open spec fn signalled(slot: SlotModel, err: Option<Seq<char>>) -> SlotModel {
    if slot.ready {
        slot
    } else {
        SlotModel { ready: true, err, ..slot }
    }
}

/// A request takes the verdict.
pub open spec fn taken(slot: SlotModel) -> SlotModel {
    SlotModel { consumed: true, ..slot }
}

/// The verdict on an artifact whose fate is known.
pub open spec fn verdict(slot: SlotModel) -> Result<(), Seq<char>> {
    match slot.err {
        Some(e) => Err(e),
        None => Ok(()),
    }
}

impl View for ArtifactSlot {
    type V = SlotModel;

    closed spec fn view(&self) -> SlotModel {
        SlotModel { ready: self.ready, err: error_view(self.err), consumed: self.consumed }
    }
}

impl Default for ArtifactSlot {
    fn default() -> (r: Self)
        ensures
            r@ == pending(),
    {
        ArtifactSlot { ready: false, err: None, consumed: false }
    }
}

impl ArtifactSlot {
    /// Makes the artifact's fate known, unless it is known already. Says whether waiters
    /// are to be woken.
    fn signal(&mut self, err: Option<String>) -> (wake: bool)
        ensures
            final(self)@ == signalled(old(self)@, error_view(err)),
            wake == !old(self)@.ready,
    {
        if !self.ready {
            self.ready = true;
            self.err = err;
            true
        } else {
            false
        }
    }

    /// Takes the verdict; `None` where it has to be waited for.
    fn wait(&mut self) -> (r: Option<Result<(), String>>)
        ensures
            match r {
                None => !old(self)@.ready && final(self)@ == old(self)@,
                Some(v) => {
                    &&& old(self)@.ready
                    &&& final(self)@ == taken(old(self)@)
                    &&& verdict_view(v) == verdict(old(self)@)
                },
            },
    {
        if !self.ready {
            return None;
        }
        self.consumed = true;
        match &self.err {
            Some(e) => Some(Err(e.clone())),
            None => Some(Ok(())),
        }
    }
}

/// A crate that rustc is compiling.
#[derive(Debug)]
pub struct CrateInFlight {
    rmeta: ArtifactSlot,
    rlib: ArtifactSlot,
    stderr_buf: String,
}

/// What is known of a crate under way: its two artifacts, and what rustc has said so far.
#[verifier::ext_equal]
pub struct CrateModel {
    pub rmeta: SlotModel,
    pub rlib: SlotModel,
    pub stderr: Seq<char>,
}

impl View for CrateInFlight {
    type V = CrateModel;

    closed spec fn view(&self) -> CrateModel {
        CrateModel { rmeta: self.rmeta@, rlib: self.rlib@, stderr: self.stderr_buf@ }
    }
}

/// What became of one line that rustc wrote to its standard error.
#[derive(Debug)]
pub enum StderrLine {
    /// It is a message, to be shown like this.
    Message(String),
    /// It is not to be shown.
    Skip,
    /// It is not to be shown, and announces that rustc may be ended.
    Terminate,
    /// It is not what rustc writes as JSON.
    Unparsed,
}

/// What a line leaves in the crate's diagnostics.
pub open spec fn shown(line: Seq<char>, parsed: StderrLine) -> Seq<char> {
    match parsed {
        StderrLine::Message(msg) => if "\n"@.is_suffix_of(msg@) {
            msg@
        } else {
            msg@.push('\n')
        },
        StderrLine::Skip => Seq::empty(),
        StderrLine::Terminate => Seq::empty(),
        StderrLine::Unparsed => line.push('\n'),
    }
}

/// rustc writes a line, which may announce that the metadata has been written.
pub open spec fn after_line(
    state: CrateModel,
    line: Seq<char>,
    metadata_seen: bool,
    parsed: StderrLine,
) -> CrateModel {
    CrateModel {
        rmeta: if metadata_seen {
            signalled(state.rmeta, None)
        } else {
            state.rmeta
        },
        stderr: state.stderr + shown(line, parsed),
        ..state
    }
}

/// How rustc ended.
#[derive(Debug)]
pub enum ChildStatus {
    Success,
    /// It failed, with this exit code where it has one.
    Failed(Option<i32>),
    /// Its end could not be waited for.
    WaitError(String),
}

/// The error that the end of rustc stands for.
pub open spec fn exit_error(status: ChildStatus) -> Option<Seq<char>> {
    match status {
        ChildStatus::Success => None,
        ChildStatus::Failed(Some(code)) => Some(
            "rustc exited with status Some("@ + decimal(code as int) + ")"@,
        ),
        ChildStatus::Failed(None) => Some("rustc exited with status None"@),
        ChildStatus::WaitError(e) => Some("rustc wait error: "@ + e@),
    }
}

/// rustc ends: whatever was not known of either artifact is known now.
pub open spec fn after_exit(state: CrateModel, status: ChildStatus) -> CrateModel {
    CrateModel {
        rmeta: signalled(state.rmeta, exit_error(status)),
        rlib: signalled(state.rlib, exit_error(status)),
        ..state
    }
}

/// The artifact that a phase waits for.
pub open spec fn slot_of(state: CrateModel, phase: Phase) -> SlotModel {
    match phase {
        Phase::Metadata => state.rmeta,
        Phase::Link => state.rlib,
    }
}

/// A request of the phase takes its verdict.
pub open spec fn after_wait(state: CrateModel, phase: Phase) -> CrateModel {
    match phase {
        Phase::Metadata => CrateModel { rmeta: taken(state.rmeta), ..state },
        Phase::Link => CrateModel { rlib: taken(state.rlib), ..state },
    }
}

/// Which waiters are to be woken.
#[derive(Clone, Copy, Debug, PartialEq, Eq, Structural)]
pub struct Wake {
    pub rmeta: bool,
    pub rlib: bool,
}

/// What a request gets once the artifact's fate is known.
#[derive(Debug)]
pub struct Settled {
    pub result: Result<(), String>,
    /// What rustc has said so far.
    pub stderr: String,
    /// Both phases have their verdict, and the crate need not be kept.
    pub retire: bool,
}

impl CrateInFlight {
    /// A crate of which nothing is known yet.
    pub fn new() -> (r: Self)
        ensures
            r@ == (CrateModel { rmeta: pending(), rlib: pending(), stderr: Seq::empty() }),
    {
        CrateInFlight {
            rmeta: ArtifactSlot::default(),
            rlib: ArtifactSlot::default(),
            stderr_buf: String::new(),
        }
    }

    /// The metadata's fate becomes known. Says whether its waiters are to be woken.
    pub fn signal_rmeta(&mut self, err: Option<String>) -> (wake: bool)
        ensures
            final(self)@ == (CrateModel {
                rmeta: signalled(old(self)@.rmeta, error_view(err)),
                ..old(self)@
            }),
            wake == !old(self)@.rmeta.ready,
    {
        self.rmeta.signal(err)
    }

    /// The library's fate becomes known. Says whether its waiters are to be woken.
    pub fn signal_rlib(&mut self, err: Option<String>) -> (wake: bool)
        ensures
            final(self)@ == (CrateModel {
                rlib: signalled(old(self)@.rlib, error_view(err)),
                ..old(self)@
            }),
            wake == !old(self)@.rlib.ready,
    {
        self.rlib.signal(err)
    }

    /// Takes the verdict on the metadata. `None` where it is not known yet: the caller
    /// waits until it is woken, and asks again.
    pub fn wait_rmeta(&mut self) -> (r: Option<Result<(), String>>)
        ensures
            match r {
                None => !old(self)@.rmeta.ready && final(self)@ == old(self)@,
                Some(v) => {
                    &&& old(self)@.rmeta.ready
                    &&& final(self)@ == after_wait(old(self)@, Phase::Metadata)
                    &&& verdict_view(v) == verdict(old(self)@.rmeta)
                },
            },
    {
        self.rmeta.wait()
    }

    /// Takes the verdict on the library. `None` where it is not known yet: the caller
    /// waits until it is woken, and asks again.
    pub fn wait_rlib(&mut self) -> (r: Option<Result<(), String>>)
        ensures
            match r {
                None => !old(self)@.rlib.ready && final(self)@ == old(self)@,
                Some(v) => {
                    &&& old(self)@.rlib.ready
                    &&& final(self)@ == after_wait(old(self)@, Phase::Link)
                    &&& verdict_view(v) == verdict(old(self)@.rlib)
                },
            },
    {
        self.rlib.wait()
    }

    /// Whether both verdicts have been taken.
    pub fn both_consumed(&self) -> (r: bool)
        ensures
            r == is_consumed(self@),
    {
        self.rmeta.consumed && self.rlib.consumed
    }

    /// rustc has written a line. Says whether the waiters for the metadata are to be woken.
    pub fn stderr_line(&mut self, line: &str, metadata_seen: bool, parsed: StderrLine) -> (wake:
        bool)
        ensures
            final(self)@ == after_line(old(self)@, line@, metadata_seen, parsed),
            wake == (metadata_seen && !old(self)@.rmeta.ready),
    {
        let wake = if metadata_seen {
            self.signal_rmeta(None)
        } else {
            false
        };
        let ghost before = self.stderr_buf@;
        match &parsed {
            StderrLine::Message(msg) => {
                push_text(&mut self.stderr_buf, msg.as_str());
                if !ends_with(msg.as_str(), "\n") {
                    push_char(&mut self.stderr_buf, '\n');
                }
            },
            StderrLine::Skip => {},
            StderrLine::Terminate => {},
            StderrLine::Unparsed => {
                push_text(&mut self.stderr_buf, line);
                push_char(&mut self.stderr_buf, '\n');
            },
        }
        assert(self.stderr_buf@ =~= before + shown(line@, parsed));
        wake
    }

    /// rustc has ended. Says which waiters are to be woken.
    pub fn child_exited(&mut self, status: ChildStatus) -> (wake: Wake)
        ensures
            final(self)@ == after_exit(old(self)@, status),
            wake == (Wake { rmeta: !old(self)@.rmeta.ready, rlib: !old(self)@.rlib.ready }),
    {
        let err = exit_message(&status);
        let again = err.clone();
        let rmeta = self.signal_rmeta(err);
        let rlib = self.signal_rlib(again);
        Wake { rmeta, rlib }
    }

    /// A request of the given phase asks for its verdict, and gets with it what rustc has
    /// said so far. `None` where the verdict is not known yet: the caller waits until it is
    /// woken, and asks again.
    pub fn settle(&mut self, phase: Phase) -> (r: Option<Settled>)
        ensures
            match r {
                None => !slot_of(old(self)@, phase).ready && final(self)@ == old(self)@,
                Some(s) => {
                    &&& slot_of(old(self)@, phase).ready
                    &&& final(self)@ == after_wait(old(self)@, phase)
                    &&& verdict_view(s.result) == verdict(slot_of(old(self)@, phase))
                    &&& s.stderr@ == old(self)@.stderr
                    &&& s.retire == is_consumed(final(self)@)
                },
            },
    {
        let verdict = match phase {
            Phase::Metadata => self.wait_rmeta(),
            Phase::Link => self.wait_rlib(),
        };
        match verdict {
            None => None,
            Some(result) => Some(
                Settled {
                    result,
                    stderr: self.stderr_buf.clone(),
                    retire: self.both_consumed(),
                },
            ),
        }
    }
}

/// The error that the end of rustc stands for.
fn exit_message(status: &ChildStatus) -> (r: Option<String>)
    ensures
        error_view(r) == exit_error(*status),
{
    match status {
        ChildStatus::Success => None,
        ChildStatus::Failed(Some(code)) => {
            let mut msg = "rustc exited with status Some(".to_owned();
            push_text(&mut msg, decimal_text(*code as i64).as_str());
            push_text(&mut msg, ")");
            Some(msg)
        },
        ChildStatus::Failed(None) => Some("rustc exited with status None".to_owned()),
        ChildStatus::WaitError(e) => {
            let mut msg = "rustc wait error: ".to_owned();
            push_text(&mut msg, e.as_str());
            Some(msg)
        },
    }
}

/// The crates under way, by the keys of their requests. What is held for each is up to the
/// caller, who shares it between the requests and the rustc that serves them.
pub struct StateMap<T> {
    entries: HashMap<u64, T>,
}

impl<T> View for StateMap<T> {
    type V = Map<u64, T>;

    closed spec fn view(&self) -> Map<u64, T> {
        self.entries@
    }
}

/// A request with this key comes in: its crate is under way already, or is from now on.
pub open spec fn entered<T>(entries: Map<u64, T>, key: u64, fresh: T) -> Map<u64, T> {
    if entries.dom().contains(key) {
        entries
    } else {
        entries.insert(key, fresh)
    }
}

impl<T> StateMap<T> {
    /// No crate is under way.
    pub fn new() -> (r: Self)
        ensures
            r@ == Map::<u64, T>::empty(),
    {
        StateMap { entries: HashMap::new() }
    }

    /// The crate under way that a request with this key joins.
    pub fn lookup(&self, key: u64) -> (r: Option<&T>)
        ensures
            match r {
                Some(t) => self@.dom().contains(key) && *t == self@[key],
                None => !self@.dom().contains(key),
            },
    {
        broadcast use vstd::std_specs::hash::group_hash_axioms;

        self.entries.get(&key)
    }

    /// A request with this key comes in. Where its crate is under way already, nothing
    /// changes and it joins that; else `fresh` is entered and rustc is to be started, as
    /// the result says.
    pub fn enter(&mut self, key: u64, fresh: T) -> (spawn: bool)
        ensures
            spawn == !old(self)@.dom().contains(key),
            final(self)@ == entered(old(self)@, key, fresh),
    {
        broadcast use vstd::std_specs::hash::group_hash_axioms;

        if self.entries.contains_key(&key) {
            false
        } else {
            self.entries.insert(key, fresh);
            true
        }
    }

    /// The crate with this key is no longer kept: both phases have their verdict, or rustc
    /// could not be started.
    pub fn remove(&mut self, key: u64)
        ensures
            final(self)@ == old(self)@.remove(key),
    {
        broadcast use vstd::std_specs::hash::group_hash_axioms;

        self.entries.remove(&key);
        assert(self@ =~= old(self)@.remove(key));
    }
}

/// Nothing is taken, and no error is held, before the artifact's fate is known.
pub open spec fn slot_sound(slot: SlotModel) -> bool {
    !slot.ready ==> slot.err is None && !slot.consumed
}

/// Both artifacts are sound.
pub open spec fn crate_sound(state: CrateModel) -> bool {
    slot_sound(state.rmeta) && slot_sound(state.rlib)
}

/// A crate under way starts sound, and every signal, every line, every end of rustc and
/// every verdict that is handed out keeps it so.
pub proof fn law_crate_stays_sound(
    state: CrateModel,
    err: Option<Seq<char>>,
    line: Seq<char>,
    metadata_seen: bool,
    parsed: StderrLine,
    status: ChildStatus,
    phase: Phase,
)
    requires
        crate_sound(state),
    ensures
        slot_sound(pending()),
        crate_sound(CrateModel { rmeta: signalled(state.rmeta, err), ..state }),
        crate_sound(CrateModel { rlib: signalled(state.rlib, err), ..state }),
        crate_sound(after_line(state, line, metadata_seen, parsed)),
        crate_sound(after_exit(state, status)),
        slot_of(state, phase).ready ==> crate_sound(after_wait(state, phase)),
{
}

/// The first signal counts: a later one changes nothing, whatever it says.
pub proof fn law_first_signal_counts(
    slot: SlotModel,
    first: Option<Seq<char>>,
    later: Option<Seq<char>>,
)
    ensures
        signalled(signalled(slot, first), later) == signalled(slot, first),
        signalled(slot, first).ready,
{
}

/// The verdict is there for every request that asks: taking it changes neither the verdict
/// nor that it is known.
pub proof fn law_verdict_can_be_taken_again(slot: SlotModel)
    ensures
        taken(slot).ready == slot.ready,
        verdict(taken(slot)) == verdict(slot),
        taken(taken(slot)) == taken(slot),
{
}

/// The metadata phase gets its answer as soon as rustc has announced the metadata: nothing
/// that rustc says later, and no way in which it ends, takes that back. A failure then
/// falls to the link phase.
pub proof fn law_metadata_outlives_a_failure(
    state: CrateModel,
    line: Seq<char>,
    parsed: StderrLine,
    status: ChildStatus,
)
    requires
        !state.rmeta.ready,
        !state.rlib.ready,
    ensures
        after_line(state, line, true, parsed).rmeta.ready,
        verdict(after_line(state, line, true, parsed).rmeta) is Ok,
        verdict(after_exit(after_line(state, line, true, parsed), status).rmeta) is Ok,
        verdict(after_exit(after_line(state, line, true, parsed), status).rlib) == match exit_error(
            status,
        ) {
            Some(e) => Err::<(), _>(e),
            None => Ok(()),
        },
{
}

/// No request waits for ever: once rustc has ended, in whatever way, both phases have
/// their verdict, and where nothing was announced before, both have the same.
pub proof fn law_exit_releases_all_waiters(state: CrateModel, status: ChildStatus)
    ensures
        after_exit(state, status).rmeta.ready,
        after_exit(state, status).rlib.ready,
        !state.rmeta.ready && !state.rlib.ready ==> after_exit(state, status).rmeta.err
            == after_exit(state, status).rlib.err,
        after_exit(after_exit(state, status), ChildStatus::Success) == after_exit(state, status),
{
}

/// Nothing but the end of rustc makes the library's fate known: lines and waiting requests
/// leave it as it is.
pub proof fn law_library_waits_for_the_end(
    state: CrateModel,
    line: Seq<char>,
    metadata_seen: bool,
    parsed: StderrLine,
    phase: Phase,
)
    ensures
        after_line(state, line, metadata_seen, parsed).rlib == state.rlib,
        after_wait(state, phase).rlib.ready == state.rlib.ready,
        after_wait(state, phase).rlib.err == state.rlib.err,
{
}

/// rustc is never ended early: a line that would allow it counts as one that is not shown.
pub proof fn law_rustc_is_never_ended_early(
    state: CrateModel,
    line: Seq<char>,
    metadata_seen: bool,
)
    ensures
        after_line(state, line, metadata_seen, StderrLine::Terminate) == after_line(
            state,
            line,
            metadata_seen,
            StderrLine::Skip,
        ),
{
}

/// What rustc has said is kept: every line leaves it as it is or adds to its end, and
/// nothing else touches it.
pub proof fn law_diagnostics_are_kept(
    state: CrateModel,
    line: Seq<char>,
    metadata_seen: bool,
    parsed: StderrLine,
    status: ChildStatus,
    phase: Phase,
)
    ensures
        state.stderr.is_prefix_of(after_line(state, line, metadata_seen, parsed).stderr),
        after_exit(state, status).stderr == state.stderr,
        after_wait(state, phase).stderr == state.stderr,
{
    let more = after_line(state, line, metadata_seen, parsed).stderr;
    assert(state.stderr =~= more.subrange(0, state.stderr.len() as int));
}

/// Both verdicts have been taken.
pub open spec fn is_consumed(state: CrateModel) -> bool {
    state.rmeta.consumed && state.rlib.consumed
}

/// The crate is kept for the other phase: a request that takes its verdict completes the
/// two if and only if a request of the other phase has taken its own before.
pub proof fn law_crate_is_kept_for_the_other_phase(state: CrateModel, phase: Phase)
    ensures
        is_consumed(after_wait(state, phase)) <==> match phase {
            Phase::Metadata => state.rlib.consumed,
            Phase::Link => state.rmeta.consumed,
        },
{
}

/// One rustc serves all requests with a key: once the first has come in, the crate stays
/// what it is for every later one, and requests with other keys do not touch it.
pub proof fn law_one_rustc_per_key<T>(
    entries: Map<u64, T>,
    key: u64,
    first: T,
    other_key: u64,
    other: T,
)
    ensures
        entered(entries, key, first).dom().contains(key),
        entered(entered(entries, key, first), key, other) == entered(entries, key, first),
        entered(entered(entries, key, first), other_key, other)[key] == entered(
            entries,
            key,
            first,
        )[key],
{
}

/// A crate that could not be started leaves no trace among those under way.
pub proof fn law_failed_start_leaves_no_trace<T>(entries: Map<u64, T>, key: u64, fresh: T)
    requires
        !entries.dom().contains(key),
    ensures
        entered(entries, key, fresh).remove(key) == entries,
{
    assert(entries.insert(key, fresh).remove(key) =~= entries);
}

/// What becomes of one artifact: it starts unknown; the first word on it is kept as it was
/// said; taking the verdict marks it and changes nothing else; and the verdict is the error
/// that was said, or success where none was.
pub proof fn law_slot_keeps_what_was_said(slot: SlotModel, err: Option<Seq<char>>, e: Seq<char>)
    ensures
        !pending().ready,
        pending().err is None,
        !pending().consumed,
        signalled(slot, err).ready,
        !slot.ready ==> signalled(slot, err).err == err,
        slot.ready ==> signalled(slot, err).err == slot.err,
        signalled(slot, err).consumed == slot.consumed,
        taken(slot).consumed,
        taken(slot).ready == slot.ready,
        taken(slot).err == slot.err,
        slot.err is None ==> verdict(slot) == Ok::<(), Seq<char>>(()),
        slot.err == Some(e) ==> verdict(slot) == Err::<(), Seq<char>>(e),
{
}

/// The end of rustc decides on every artifact that is not known by then, whatever rustc has
/// said before: where it succeeded the artifact is there, where it failed or could not be
/// waited for it is not, and the error says which and how. What was known stays as it was,
/// and nothing is added to what rustc has said.
pub proof fn law_exit_decides_what_is_not_known(
    state: CrateModel,
    status: ChildStatus,
    phase: Phase,
)
    ensures
        slot_of(after_exit(state, status), phase).ready,
        slot_of(after_exit(state, status), phase).consumed == slot_of(state, phase).consumed,
        slot_of(state, phase).ready ==> slot_of(after_exit(state, status), phase) == slot_of(
            state,
            phase,
        ),
        !slot_of(state, phase).ready ==> (verdict(slot_of(after_exit(state, status), phase)) is Ok
            <==> status is Success),
        !slot_of(state, phase).ready ==> (status matches ChildStatus::Failed(Some(code)) ==> {
            slot_of(after_exit(state, status), phase).err == Some(
                "rustc exited with status Some("@ + decimal(code as int) + ")"@,
            )
        }),
        !slot_of(state, phase).ready ==> (status matches ChildStatus::Failed(None) ==> {
            slot_of(after_exit(state, status), phase).err == Some("rustc exited with status None"@)
        }),
        !slot_of(state, phase).ready ==> (status matches ChildStatus::WaitError(e) ==> {
            slot_of(after_exit(state, status), phase).err == Some("rustc wait error: "@ + e@)
        }),
        after_exit(state, status).stderr == state.stderr,
{
}

/// A phase waits for its own artifact, and takes no other.
pub proof fn law_phase_waits_for_its_artifact(state: CrateModel)
    ensures
        slot_of(state, Phase::Metadata) == state.rmeta,
        slot_of(state, Phase::Link) == state.rlib,
        after_wait(state, Phase::Metadata).rmeta.consumed,
        after_wait(state, Phase::Metadata).rmeta.ready == state.rmeta.ready,
        after_wait(state, Phase::Metadata).rmeta.err == state.rmeta.err,
        after_wait(state, Phase::Metadata).rlib == state.rlib,
        after_wait(state, Phase::Link).rlib.consumed,
        after_wait(state, Phase::Link).rlib.ready == state.rlib.ready,
        after_wait(state, Phase::Link).rlib.err == state.rlib.err,
        after_wait(state, Phase::Link).rmeta == state.rmeta,
        is_consumed(state) <==> state.rmeta.consumed && state.rlib.consumed,
{
}

/// What a line of rustc's adds to what is shown: a message, on a line that it or else the
/// worker ends; a line that is none as it stands; of any other, nothing.
pub proof fn law_line_is_shown_once(
    state: CrateModel,
    line: Seq<char>,
    metadata_seen: bool,
    parsed: StderrLine,
)
    ensures
        ({
            let stderr = after_line(state, line, metadata_seen, parsed).stderr;
            match parsed {
                StderrLine::Message(msg) => {
                    &&& msg@.len() > 0 && msg@.last() == '\n' ==> stderr == state.stderr + msg@
                    &&& !(msg@.len() > 0 && msg@.last() == '\n') ==> stderr == (state.stderr
                        + msg@).push('\n')
                },
                StderrLine::Unparsed => stderr == (state.stderr + line).push('\n'),
                StderrLine::Skip => stderr == state.stderr,
                StderrLine::Terminate => stderr == state.stderr,
            }
        }),
        after_line(state, line, metadata_seen, parsed).rlib == state.rlib,
        !metadata_seen ==> after_line(state, line, metadata_seen, parsed).rmeta == state.rmeta,
        metadata_seen && state.rmeta.ready ==> after_line(state, line, metadata_seen, parsed).rmeta
            == state.rmeta,
        metadata_seen && !state.rmeta.ready ==> {
            let rmeta = after_line(state, line, metadata_seen, parsed).rmeta;
            rmeta.ready && rmeta.err is None && rmeta.consumed == state.rmeta.consumed
        },
{
    reveal_strlit("\n");
    let stderr = after_line(state, line, metadata_seen, parsed).stderr;
    match parsed {
        StderrLine::Message(msg) => {
            if msg@.len() > 0 {
                let end = msg@.subrange(msg@.len() - 1, msg@.len() as int);
                assert(end.len() == 1 && end[0] == msg@.last());
                if msg@.last() == '\n' {
                    assert("\n"@ =~= end);
                }
            }
            assert(state.stderr + msg@.push('\n') =~= (state.stderr + msg@).push('\n'));
        },
        StderrLine::Unparsed => {
            assert(state.stderr + line.push('\n') =~= (state.stderr + line).push('\n'));
        },
        StderrLine::Skip => {
            assert(stderr =~= state.stderr);
        },
        StderrLine::Terminate => {
            assert(stderr =~= state.stderr);
        },
    }
}

/// Where a crate stands once rustc has written all of `lines`: of each, the line itself,
/// whether it told of the metadata, and what it was parsed as.
pub open spec fn after_lines(
    state: CrateModel,
    lines: Seq<(Seq<char>, bool, StderrLine)>,
) -> CrateModel
    decreases lines.len(),
{
    if lines.len() == 0 {
        state
    } else {
        let (line, metadata_seen, parsed) = lines.last();
        after_line(after_lines(state, lines.drop_last()), line, metadata_seen, parsed)
    }
}

proof fn lemma_lines_tell_of_metadata(
    state: CrateModel,
    lines: Seq<(Seq<char>, bool, StderrLine)>,
)
    requires
        state.rmeta == pending(),
        state.rlib == pending(),
    ensures
        after_lines(state, lines).rlib == pending(),
        after_lines(state, lines).rmeta.err is None,
        after_lines(state, lines).rmeta.ready <==> exists|i: int|
            0 <= i < lines.len() && (#[trigger] lines[i]).1,
    decreases lines.len(),
{
    if lines.len() > 0 {
        let before = lines.drop_last();
        lemma_lines_tell_of_metadata(state, before);
        if exists|i: int| 0 <= i < before.len() && (#[trigger] before[i]).1 {
            let i = choose|i: int| 0 <= i < before.len() && (#[trigger] before[i]).1;
            assert(lines[i].1);
        }
        if exists|i: int| 0 <= i < lines.len() && (#[trigger] lines[i]).1 {
            let i = choose|i: int| 0 <= i < lines.len() && (#[trigger] lines[i]).1;
            if i < before.len() {
                assert(before[i].1);
            }
        }
        assert(lines[lines.len() - 1] == lines.last());
    }
}

/// The life of a crate, from nothing known to the end of rustc: the metadata is there if and
/// only if a line told of it or rustc succeeded; the library is there if and only if rustc
/// succeeded.
pub proof fn law_life_of_a_crate(
    state: CrateModel,
    lines: Seq<(Seq<char>, bool, StderrLine)>,
    status: ChildStatus,
)
    requires
        state.rmeta == pending(),
        state.rlib == pending(),
    ensures
        after_exit(after_lines(state, lines), status).rmeta.ready,
        after_exit(after_lines(state, lines), status).rlib.ready,
        verdict(after_exit(after_lines(state, lines), status).rmeta) is Ok <==> {
            ||| status is Success
            ||| exists|i: int| 0 <= i < lines.len() && (#[trigger] lines[i]).1
        },
        verdict(after_exit(after_lines(state, lines), status).rlib) is Ok <==> status is Success,
{
    lemma_lines_tell_of_metadata(state, lines);
}

/// Errors and verdicts are seen as they are.
pub proof fn law_verdict_is_seen_as_it_is(r: Result<(), String>, err: Option<String>)
    ensures
        r is Ok <==> verdict_view(r) is Ok,
        r matches Err(e) ==> verdict_view(r) == Err::<(), Seq<char>>(e@),
        err is None <==> error_view(err) is None,
        err matches Some(e) ==> error_view(err) == Some(e@),
{
}

/// A crate enters under its key where none stands there, and one that stands there stays;
/// nothing changes under any other key.
pub proof fn law_entering_keeps_what_stands<T>(
    entries: Map<u64, T>,
    key: u64,
    fresh: T,
    other: u64,
)
    ensures
        entered(entries, key, fresh).dom().contains(key),
        !entries.dom().contains(key) ==> entered(entries, key, fresh)[key] == fresh,
        entries.dom().contains(key) ==> entered(entries, key, fresh)[key] == entries[key],
        other != key ==> (entered(entries, key, fresh).dom().contains(other)
            <==> entries.dom().contains(other)),
        other != key ==> entered(entries, key, fresh)[other] == entries[other],
{
}

} // verus!
