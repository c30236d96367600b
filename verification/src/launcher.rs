use crate::error::AppError;
use vstd::prelude::*;
use vstd::string::StrSliceExecFns;
use vstd::string::StringExecFns;

verus! {

/// A request to launch some number of instances of the installed
/// application, pointing each at a payload file. Ephemeral: never
/// persisted.
pub struct LaunchRequest {
    /// Path of the installed executable; must be non-empty and name an
    /// existing filesystem entry.
    pub game_path: String,
    /// Path of the payload file embedded in each instance's arguments; must
    /// be non-empty, but is not validated further.
    pub vrcw_file: String,
    /// How many instances to spawn; zero is legal and spawns nothing.
    pub client_count: u32,
}

/// A request is valid when both required string fields are non-empty.
pub open spec fn valid_request(req: &LaunchRequest) -> bool {
    req.game_path@.len() > 0 && req.vrcw_file@.len() > 0
}

/// What the launch sequence asks its driver to do next. The driver performs
/// the filesystem or process call and reports the outcome as a
/// `LaunchEvent`; every decision between the calls is made here.
#[derive(Debug, Clone, Copy, PartialEq, Eq)]
pub enum LaunchStep {
    /// Ask whether the request's `game_path` names an existing entry.
    CheckPath,
    /// Write the request's `game_path` to the configuration store.
    Persist,
    /// Spawn the instance with this 1-based index, detached, with the
    /// request's argument tokens.
    Spawn { index: u32 },
    /// The sequence is over: the count of instances launched, or the error.
    Done { result: Result<u32, AppError> },
}

/// The driver's report on the step it performed.
#[derive(Debug, Clone, Copy, PartialEq, Eq)]
pub enum LaunchEvent {
    /// Whether `game_path` exists.
    PathChecked(bool),
    /// Whether the persist write succeeded.
    Persisted(bool),
    /// Whether the spawn call succeeded.
    Spawned(bool),
}

/// The first step of a launch sequence. An invalid request is rejected
/// outright: the sequence ends before any filesystem or process step is
/// issued.
pub open spec fn start_step(req: &LaunchRequest) -> LaunchStep {
    if valid_request(req) {
        LaunchStep::CheckPath
    } else {
        LaunchStep::Done { result: Err(AppError::InvalidInputError) }
    }
}

/// The transition of the launch sequence: from the current step and the
/// driver's event to the next step.
///
/// A missing path ends the sequence with `PathNotFoundError` before any
/// persist or spawn step. A failed persist ends it with `IoError` before
/// any spawn step. A zero-count request ends successfully right after the
/// persist, spawning nothing. Spawning goes strictly in ascending order,
/// one instance at a time, and aborts on the first failure with that
/// instance's 1-based index; earlier instances are not rolled back. A
/// finished sequence stays finished, and an event that does not answer the
/// current step changes nothing.
pub open spec fn next_step(req: &LaunchRequest, cur: LaunchStep, ev: LaunchEvent) -> LaunchStep {
    match (cur, ev) {
        (LaunchStep::CheckPath, LaunchEvent::PathChecked(exists)) => {
            if exists {
                LaunchStep::Persist
            } else {
                LaunchStep::Done { result: Err(AppError::PathNotFoundError) }
            }
        },
        (LaunchStep::Persist, LaunchEvent::Persisted(ok)) => {
            if !ok {
                LaunchStep::Done { result: Err(AppError::IoError) }
            } else if req.client_count == 0 {
                LaunchStep::Done { result: Ok(0) }
            } else {
                LaunchStep::Spawn { index: 1 }
            }
        },
        (LaunchStep::Spawn { index }, LaunchEvent::Spawned(ok)) => {
            if !ok {
                LaunchStep::Done { result: Err(AppError::LaunchFailedError { index }) }
            } else if index < req.client_count {
                LaunchStep::Spawn { index: (index + 1) as u32 }
            } else {
                LaunchStep::Done { result: Ok(req.client_count) }
            }
        },
        _ => cur,
    }
}

/// Begins a launch sequence for `req`.
pub fn launch_start(req: &LaunchRequest) -> (s: LaunchStep)
    ensures
        s == start_step(req),
{
    if req.game_path.as_str().is_empty() || req.vrcw_file.as_str().is_empty() {
        LaunchStep::Done { result: Err(AppError::InvalidInputError) }
    } else {
        LaunchStep::CheckPath
    }
}

/// Advances a launch sequence by one driver event.
pub fn launch_step(req: &LaunchRequest, cur: &LaunchStep, ev: LaunchEvent) -> (s: LaunchStep)
    ensures
        s == next_step(req, *cur, ev),
{
    match (cur, ev) {
        (LaunchStep::CheckPath, LaunchEvent::PathChecked(exists)) => {
            if exists {
                LaunchStep::Persist
            } else {
                LaunchStep::Done { result: Err(AppError::PathNotFoundError) }
            }
        },
        (LaunchStep::Persist, LaunchEvent::Persisted(ok)) => {
            if !ok {
                LaunchStep::Done { result: Err(AppError::IoError) }
            } else if req.client_count == 0 {
                LaunchStep::Done { result: Ok(0) }
            } else {
                LaunchStep::Spawn { index: 1 }
            }
        },
        (LaunchStep::Spawn { index }, LaunchEvent::Spawned(ok)) => {
            if !ok {
                LaunchStep::Done { result: Err(AppError::LaunchFailedError { index: *index }) }
            } else if *index < req.client_count {
                LaunchStep::Spawn { index: *index + 1 }
            } else {
                LaunchStep::Done { result: Ok(req.client_count) }
            }
        },
        _ => *cur,
    }
}

/// The step a launch run reaches from the start after a sequence of driver
/// events, applied in order.
pub open spec fn run_steps(req: &LaunchRequest, evs: Seq<LaunchEvent>) -> LaunchStep
    decreases evs.len(),
{
    if evs.len() == 0 {
        start_step(req)
    } else {
        next_step(req, run_steps(req, evs.drop_last()), evs.last())
    }
}

/// How many successful spawn reports a sequence of events carries: each one
/// stands for an instance that is running.
pub open spec fn spawn_successes(evs: Seq<LaunchEvent>) -> int
    decreases evs.len(),
{
    if evs.len() == 0 {
        0
    } else {
        spawn_successes(evs.drop_last()) + (if evs.last() == LaunchEvent::Spawned(true) {
            1int
        } else {
            0int
        })
    }
}

/// How many successful persist reports a sequence of events carries.
pub open spec fn persist_successes(evs: Seq<LaunchEvent>) -> int
    decreases evs.len(),
{
    if evs.len() == 0 {
        0
    } else {
        persist_successes(evs.drop_last()) + (if evs.last() == LaunchEvent::Persisted(true) {
            1int
        } else {
            0int
        })
    }
}

/// Whether an event answers the step the machine is at.
pub open spec fn answers(cur: LaunchStep, ev: LaunchEvent) -> bool {
    match (cur, ev) {
        (LaunchStep::CheckPath, LaunchEvent::PathChecked(_)) => true,
        (LaunchStep::Persist, LaunchEvent::Persisted(_)) => true,
        (LaunchStep::Spawn { .. }, LaunchEvent::Spawned(_)) => true,
        _ => false,
    }
}

/// Whether each event of the trace answers the step the machine was at when
/// it arrived — a driver that does what it is asked and reports back.
pub open spec fn responsive(req: &LaunchRequest, evs: Seq<LaunchEvent>) -> bool
    decreases evs.len(),
{
    if evs.len() == 0 {
        true
    } else {
        responsive(req, evs.drop_last()) && answers(run_steps(req, evs.drop_last()), evs.last())
    }
}

/// The launch accounting at one step: what the trace so far must hold for
/// the machine to be at that step. Before the persist step nothing was
/// persisted and nothing spawned; at the spawn step for instance `index`,
/// exactly one persist succeeded and exactly `index - 1` instances are
/// running; a successful end spawned exactly the requested count; a spawn
/// failure at instance `index` left exactly `index - 1` instances running.
/// The two rejection errors and the persist failure come before any spawn.
pub open spec fn accounted(req: &LaunchRequest, evs: Seq<LaunchEvent>, step: LaunchStep) -> bool {
    match step {
        LaunchStep::CheckPath => spawn_successes(evs) == 0 && persist_successes(evs) == 0,
        LaunchStep::Persist => spawn_successes(evs) == 0 && persist_successes(evs) == 0,
        LaunchStep::Spawn { index } => 1 <= index <= req.client_count && spawn_successes(evs)
            == index - 1 && persist_successes(evs) == 1,
        LaunchStep::Done { result } => match result {
            Ok(c) => c == req.client_count && spawn_successes(evs) == c && persist_successes(evs)
                == 1,
            Err(AppError::InvalidInputError) => spawn_successes(evs) == 0 && persist_successes(evs)
                == 0,
            Err(AppError::PathNotFoundError) => spawn_successes(evs) == 0 && persist_successes(evs)
                == 0,
            Err(AppError::IoError) => spawn_successes(evs) == 0 && persist_successes(evs) == 0,
            Err(AppError::LaunchFailedError { index }) => 1 <= index <= req.client_count
                && spawn_successes(evs) == index - 1 && persist_successes(evs) == 1,
            Err(_) => false,
        },
    }
}

/// The failure-ordering contract of the launcher: in any run whose driver
/// answers each step, the step reached accounts exactly for what happened.
/// In particular, a run that ends with a spawn failure at instance `index`
/// persisted exactly once and left exactly `index - 1` instances running,
/// so the caller can always infer the partial outcome from the reported
/// index; a run rejected for invalid input or a missing path persisted
/// nothing and spawned nothing.
pub proof fn lemma_launch_accounting(req: &LaunchRequest, evs: Seq<LaunchEvent>)
    requires
        responsive(req, evs),
    ensures
        accounted(req, evs, run_steps(req, evs)),
    decreases evs.len(),
{
    if evs.len() > 0 {
        lemma_launch_accounting(req, evs.drop_last());
    }
}

/// The fixed head of every instance's argument string; the payload file
/// path is appended to it verbatim.
pub open spec fn args_prefix() -> Seq<char> {
    "--url=create?hidden=true&name=BuildAndRun&url=file:///"@
}

/// The full argument string of one instance for a payload file.
pub open spec fn instance_args(vrcw: Seq<char>) -> Seq<char> {
    args_prefix() + vrcw
}

/// Builds the argument string of one instance.
pub fn build_instance_args(vrcw_file: &str) -> (a: String)
    ensures
        a@ == instance_args(vrcw_file@),
{
    let mut a = String::from_str("--url=create?hidden=true&name=BuildAndRun&url=file:///");
    a.append(vrcw_file);
    a
}

/// The white-space characters on which an argument string is split: the
/// Unicode `White_Space` set, the same set `str::split_whitespace` splits
/// on.
pub open spec fn is_ws(c: char) -> bool {
    let u = c as u32;
    (0x9 <= u && u <= 0xD) || u == 0x20 || u == 0x85 || u == 0xA0 || u == 0x1680 || (0x2000 <= u
        && u <= 0x200A) || u == 0x2028 || u == 0x2029 || u == 0x202F || u == 0x205F || u == 0x3000
}

/// Splitting on whitespace, one character at a time: `cur` is the token
/// accumulated so far; whitespace ends it (an empty one is dropped, so runs
/// of whitespace produce no empty tokens).
pub open spec fn split_ws_acc(s: Seq<char>, cur: Seq<char>) -> Seq<Seq<char>>
    decreases s.len(),
{
    if s.len() == 0 {
        if cur.len() == 0 {
            Seq::empty()
        } else {
            seq![cur]
        }
    } else if is_ws(s[0]) {
        if cur.len() == 0 {
            split_ws_acc(s.drop_first(), Seq::empty())
        } else {
            seq![cur] + split_ws_acc(s.drop_first(), Seq::empty())
        }
    } else {
        split_ws_acc(s.drop_first(), cur.push(s[0]))
    }
}

/// The whitespace-separated tokens of a string, in order, with no empty
/// tokens.
pub open spec fn split_ws(s: Seq<char>) -> Seq<Seq<char>> {
    split_ws_acc(s, Seq::empty())
}

/// The character sequences of a token list.
pub open spec fn views_of(toks: Seq<String>) -> Seq<Seq<char>> {
    toks.map_values(|t: String| t@)
}

proof fn lemma_split_acc_tokens_nonempty(s: Seq<char>, cur: Seq<char>)
    ensures
        forall|i: int| 0 <= i < split_ws_acc(s, cur).len() ==> split_ws_acc(s, cur)[i].len() > 0,
    decreases s.len(),
{
    if s.len() == 0 {
    } else if is_ws(s[0]) {
        lemma_split_acc_tokens_nonempty(s.drop_first(), Seq::empty());
        if cur.len() > 0 {
            let res = split_ws_acc(s, cur);
            let rec = split_ws_acc(s.drop_first(), Seq::empty());
            assert forall|i: int| 0 <= i < res.len() implies res[i].len() > 0 by {
                if i == 0 {
                    assert(res[i] == cur);
                } else {
                    assert(res[i] == rec[i - 1]);
                }
            }
        }
    } else {
        lemma_split_acc_tokens_nonempty(s.drop_first(), cur.push(s[0]));
        assert(split_ws_acc(s, cur) == split_ws_acc(s.drop_first(), cur.push(s[0])));
    }
}

/// The splitter yields no empty token: runs of whitespace, leading or
/// trailing whitespace included, produce nothing.
pub proof fn lemma_split_tokens_nonempty(s: Seq<char>)
    ensures
        forall|i: int| 0 <= i < split_ws(s).len() ==> split_ws(s)[i].len() > 0,
{
    lemma_split_acc_tokens_nonempty(s, Seq::empty());
}

proof fn lemma_split_acc_no_ws(s: Seq<char>, cur: Seq<char>)
    requires
        forall|i: int| 0 <= i < s.len() ==> !is_ws(s[i]),
        cur.len() + s.len() > 0,
    ensures
        split_ws_acc(s, cur) == seq![cur + s],
    decreases s.len(),
{
    if s.len() == 0 {
        assert(cur + s =~= cur);
        assert(split_ws_acc(s, cur) =~= seq![cur + s]);
    } else {
        assert(forall|i: int|
            0 <= i < s.drop_first().len() ==> !is_ws(#[trigger] s.drop_first()[i]));
        lemma_split_acc_no_ws(s.drop_first(), cur.push(s[0]));
        assert(cur.push(s[0]) + s.drop_first() =~= cur + s);
    }
}

/// A non-empty string without whitespace splits into exactly one token:
/// the whole string, unchanged.
pub proof fn lemma_split_no_ws_single(s: Seq<char>)
    requires
        s.len() > 0,
        forall|i: int| 0 <= i < s.len() ==> !is_ws(s[i]),
    ensures
        split_ws(s) == seq![s],
{
    lemma_split_acc_no_ws(s, Seq::empty());
    assert(Seq::<char>::empty() + s =~= s);
}

/// A payload file path without whitespace reaches the spawned instance
/// whole: its constructed argument string splits into exactly one token,
/// the full string. (One with whitespace is split into several stray
/// tokens: the preserved hazard of the format.)
pub proof fn lemma_clean_payload_one_token(vrcw: Seq<char>)
    requires
        forall|i: int| 0 <= i < vrcw.len() ==> !is_ws(vrcw[i]),
    ensures
        split_ws(instance_args(vrcw)) == seq![instance_args(vrcw)],
{
    reveal_strlit("--url=create?hidden=true&name=BuildAndRun&url=file:///");
    let a = instance_args(vrcw);
    assert(forall|i: int| 0 <= i < args_prefix().len() ==> !is_ws(args_prefix()[i]));
    assert(forall|i: int| 0 <= i < a.len() ==> !is_ws(a[i]));
    lemma_split_no_ws_single(a);
}

/// Whether `c` is one of the white-space characters the splitter
/// recognizes.
pub fn is_ws_char(c: char) -> (b: bool)
    ensures
        b == is_ws(c),
{
    let u = c as u32;
    (0x9 <= u && u <= 0xD) || u == 0x20 || u == 0x85 || u == 0xA0 || u == 0x1680 || (0x2000 <= u
        && u <= 0x200A) || u == 0x2028 || u == 0x2029 || u == 0x202F || u == 0x205F || u == 0x3000
}

/// Splits a string into its whitespace-separated tokens.
pub fn split_args(s: &str) -> (toks: Vec<String>)
    ensures
        views_of(toks@) == split_ws(s@),
{
    let n = s.unicode_len();
    let mut toks: Vec<String> = Vec::new();
    let mut start: usize = 0;
    let mut i: usize = 0;
    proof {
        assert(s@.subrange(0, n as int) =~= s@);
        assert(s@.subrange(0, 0) =~= Seq::<char>::empty());
        assert(views_of(toks@) =~= Seq::<Seq<char>>::empty());
    }
    while i < n
        invariant
            0 <= start <= i <= n,
            n == s@.len(),
            views_of(toks@) + split_ws_acc(s@.subrange(i as int, n as int), s@.subrange(start as int, i as int)) =~= split_ws(s@),
        decreases n - i,
    {
        proof {
            let rest = s@.subrange(i as int, n as int);
            assert(rest[0] == s@[i as int]);
            assert(rest.drop_first() =~= s@.subrange(i as int + 1, n as int));
        }
        let c = s.get_char(i);
        if is_ws_char(c) {
            if start < i {
                let tok = String::from_str(s.substring_char(start, i));
                proof {
                    let old_views = views_of(toks@);
                    assert(views_of(toks@.push(tok)) =~= old_views + seq![tok@]);
                }
                toks.push(tok);
            } else {
                proof {
                    assert(s@.subrange(start as int, i as int) =~= Seq::<char>::empty());
                }
            }
            start = i + 1;
            i = i + 1;
            proof {
                assert(s@.subrange(start as int, i as int) =~= Seq::<char>::empty());
            }
        } else {
            proof {
                assert(s@.subrange(start as int, i as int).push(s@[i as int]) =~= s@.subrange(
                    start as int,
                    i as int + 1,
                ));
            }
            i = i + 1;
        }
    }
    proof {
        assert(s@.subrange(i as int, n as int) =~= Seq::<char>::empty());
    }
    if start < n {
        let tok = String::from_str(s.substring_char(start, n));
        proof {
            let old_views = views_of(toks@);
            assert(views_of(toks@.push(tok)) =~= old_views + seq![tok@]);
        }
        toks.push(tok);
        proof {
            assert(views_of(toks@) =~= split_ws(s@));
        }
    } else {
        proof {
            assert(s@.subrange(start as int, i as int) =~= Seq::<char>::empty());
            assert(views_of(toks@) =~= split_ws(s@));
        }
    }
    toks
}

/// The argument tokens handed to one spawned instance: the constructed
/// argument string, split on whitespace. A payload path that itself
/// contains whitespace is thereby split into several stray tokens; that is
/// the behavior of record, kept as it is.
pub fn instance_arg_tokens(vrcw_file: &str) -> (toks: Vec<String>)
    ensures
        views_of(toks@) == split_ws(instance_args(vrcw_file@)),
{
    let a = build_instance_args(vrcw_file);
    split_args(a.as_str())
}

} // verus!
