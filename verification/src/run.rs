//! Carrying out the steps of a command against the remote-desktop session.
//!
//! A [`Run`] says which request to send next and is told what came of it. It
//! owns what has to be undone: whatever happens, the keys and buttons that it
//! pressed are let go before it finishes.

use crate::binary64::Real;
use crate::deadline::{time_left, Deadline};
use crate::fault::{agrees, general, Fault, FaultView};
use crate::input::{
    acts, held, held_after, law_plans_are_well_ordered, nothing_held, plan, planned, well_ordered,
    window_of, Command, Held, Monitor, Point, Refusal, Step,
};
use crate::outcome::{
    both_cleaned, cleaned, cleanup_result, combine_cleanups, combine_operation_cleanup,
    with_cleanup, Checked,
};
use crate::text::{quote, quoted, same, texts};
use vstd::prelude::*;

verus! {

/// What is to be done next. Time limits are in nanoseconds.
#[derive(Clone, Copy, Debug, PartialEq, Eq, Structural)]
pub enum Request {
    /// Nothing: ask again.
    Proceed,
    /// Nothing: the last request has not been answered.
    Awaiting,
    /// Ask the compositor which window is active.
    ActiveWindow { within: u64 },
    Move { point: Point, within: u64 },
    Button { code: i32, pressed: bool, within: u64 },
    Key { keysym: u32, pressed: bool, within: u64 },
    Axis { dx: Real, dy: Real, within: u64 },
    /// The run is over.
    Finished,
}

/// What came of a request.
#[derive(Debug)]
pub enum Reply<S> {
    Done,
    ActiveWindow(Option<S>),
    Failed(S),
    TimedOut,
}

impl Reply<String> {
    pub open spec fn view(self) -> Reply<Seq<char>> {
        match self {
            Reply::Done => Reply::Done,
            Reply::ActiveWindow(Some(s)) => Reply::ActiveWindow(Some(s@)),
            Reply::ActiveWindow(None) => Reply::ActiveWindow(None),
            Reply::Failed(s) => Reply::Failed(s@),
            Reply::TimedOut => Reply::TimedOut,
        }
    }
}

/// How far a run is.
#[derive(Clone, Copy, Debug, PartialEq, Eq, Structural)]
pub enum Stage {
    /// The next step is due.
    Working,
    /// The current step was sent.
    Sent,
    /// So many of the held buttons are still to be let go.
    Buttons(usize),
    /// The release of the last of so many held buttons was sent.
    ButtonSent(usize),
    /// So many of the held keys are still to be let go.
    Keys(usize),
    /// The release of the last of so many held keys was sent.
    KeySent(usize),
    Finished,
}

/// What a run has done so far, as far as the window can notice.
pub enum Mark {
    /// The expected window was found to be the active one.
    Verified,
    Moved,
    Button { code: i32, pressed: bool },
    Key { keysym: u32, pressed: bool },
    Scrolled,
}

/// The state of a run.
#[verifier::ext_equal]
pub struct RunView {
    pub steps: Seq<Step>,
    pub at: int,
    pub window: Seq<char>,
    pub deadline: Deadline,
    pub cleanup: Deadline,
    pub keys: Seq<u32>,
    pub buttons: Seq<i32>,
    pub invalid: bool,
    pub stage: Stage,
    pub failure: Option<FaultView>,
    pub button_errors: Seq<Seq<char>>,
    pub key_errors: Seq<Seq<char>>,
    pub trace: Seq<Mark>,
}

/// A failure that ends the work and starts the clean-up.
pub open spec fn failing(s: RunView, fault: FaultView) -> RunView {
    RunView { failure: Some(fault), stage: Stage::Buttons(s.buttons.len() as usize), ..s }
}

/// What the window can notice of a step when it is sent.
pub open spec fn mark_of(step: Step) -> Option<Mark> {
    match step {
        Step::Check => None,
        Step::Focus => None,
        Step::Move(_) => Some(Mark::Moved),
        Step::Press(b) => Some(Mark::Button { code: b, pressed: true }),
        Step::Release(b) => Some(Mark::Button { code: b, pressed: false }),
        Step::KeyDown(k) => Some(Mark::Key { keysym: k, pressed: true }),
        Step::KeyUp(k) => Some(Mark::Key { keysym: k, pressed: false }),
        Step::Axis(_, _) => Some(Mark::Scrolled),
    }
}

/// The request that a step sends.
pub open spec fn request_of(step: Step, within: u64) -> Request {
    match step {
        Step::Check => Request::Proceed,
        Step::Focus => Request::ActiveWindow { within },
        Step::Move(point) => Request::Move { point, within },
        Step::Press(code) => Request::Button { code, pressed: true, within },
        Step::Release(code) => Request::Button { code, pressed: false, within },
        Step::KeyDown(keysym) => Request::Key { keysym, pressed: true, within },
        Step::KeyUp(keysym) => Request::Key { keysym, pressed: false, within },
        Step::Axis(dx, dy) => Request::Axis { dx, dy, within },
    }
}

/// A trace with one more mark, where there is one.
pub open spec fn marked(trace: Seq<Mark>, mark: Option<Mark>) -> Seq<Mark> {
    match mark {
        Some(m) => trace.push(m),
        None => trace,
    }
}

/// The state after a run was asked for its next request, and that request.
pub open spec fn advanced(s: RunView, now: u64) -> (RunView, Request) {
    match s.stage {
        Stage::Working => if s.at >= s.steps.len() {
            (
                RunView { stage: Stage::Buttons(s.buttons.len() as usize), ..s },
                Request::Proceed,
            )
        } else {
            let step = s.steps[s.at];
            match time_left(s.deadline.end, now) {
                // A release that can no longer be sent leaves the session in an
                // unknown state.
                Err(e) => (
                    failing(
                        RunView { invalid: s.invalid || step is Release || step is KeyUp, ..s },
                        e,
                    ),
                    Request::Proceed,
                ),
                Ok(within) => if step is Check {
                    (RunView { at: s.at + 1, ..s }, Request::Proceed)
                } else {
                    (
                        RunView {
                            stage: Stage::Sent,
                            trace: marked(s.trace, mark_of(step)),
                            ..s
                        },
                        request_of(step, within),
                    )
                },
            }
        },
        Stage::Buttons(n) => if n == 0 {
            (RunView { stage: Stage::Keys(s.keys.len() as usize), ..s }, Request::Proceed)
        } else {
            match time_left(s.cleanup.end, now) {
                Err(e) => (
                    RunView {
                        invalid: true,
                        button_errors: s.button_errors.push(e.message),
                        stage: Stage::Buttons((n - 1) as usize),
                        ..s
                    },
                    Request::Proceed,
                ),
                Ok(within) => {
                    let step = Step::Release(s.buttons[n - 1]);
                    (
                        RunView {
                            stage: Stage::ButtonSent(n),
                            trace: marked(s.trace, mark_of(step)),
                            ..s
                        },
                        request_of(step, within),
                    )
                },
            }
        },
        Stage::Keys(n) => if n == 0 {
            (RunView { stage: Stage::Finished, ..s }, Request::Proceed)
        } else {
            match time_left(s.cleanup.end, now) {
                Err(e) => (
                    RunView {
                        invalid: true,
                        key_errors: s.key_errors.push(e.message),
                        stage: Stage::Keys((n - 1) as usize),
                        ..s
                    },
                    Request::Proceed,
                ),
                Ok(within) => {
                    let step = Step::KeyUp(s.keys[n - 1]);
                    (
                        RunView {
                            stage: Stage::KeySent(n),
                            trace: marked(s.trace, mark_of(step)),
                            ..s
                        },
                        request_of(step, within),
                    )
                },
            }
        },
        Stage::Finished => (s, Request::Finished),
        _ => (s, Request::Awaiting),
    }
}

/// What a step is called in failure messages.
pub open spec fn step_name(step: Step) -> Seq<char> {
    match step {
        Step::Move(_) => "pointer motion"@,
        Step::Press(_) => "pointer button"@,
        Step::Release(_) => "pointer button"@,
        Step::Axis(_, _) => "pointer axis"@,
        _ => "keyboard keysym"@,
    }
}

/// The failure of an input request; `None` where it did not fail.
pub open spec fn input_failure(step: Step, reply: Reply<Seq<char>>) -> Option<FaultView> {
    match reply {
        Reply::Failed(why) => Some(
            general(
                step_name(step) + " failed; RemoteDesktop session invalidated"@ + ": "@ + why,
            ),
        ),
        Reply::TimedOut => Some(
            general(step_name(step) + " timed out; RemoteDesktop session invalidated"@),
        ),
        _ => None,
    }
}

/// The failure of a check of the active window; `None` where the expected one
/// is active.
pub open spec fn focus_failure(window: Seq<char>, reply: Reply<Seq<char>>) -> Option<FaultView> {
    let actual = match reply {
        Reply::ActiveWindow(Some(u)) => u,
        _ => "<none>"@,
    };
    match reply {
        Reply::Failed(why) => Some(general(why)),
        Reply::TimedOut => Some(
            general(
                "request deadline expired while checking active window UUID: deadline has elapsed"@,
            ),
        ),
        _ => if reply == Reply::ActiveWindow(Some(window)) {
            None
        } else {
            Some(
                general(
                    "active window UUID mismatch: expected "@ + quoted(window) + ", actual "@
                        + quoted(actual),
                ),
            )
        },
    }
}

/// What is held once a step was carried out.
pub open spec fn holding(s: RunView, step: Step) -> RunView {
    match held_after(Held { keys: s.keys, buttons: s.buttons }, step) {
        Some(h) => RunView { keys: h.keys, buttons: h.buttons, ..s },
        None => s,
    }
}

/// The state after the reply to the last request.
pub open spec fn answered(s: RunView, reply: Reply<Seq<char>>) -> RunView {
    match s.stage {
        Stage::Sent => {
            let step = s.steps[s.at];
            if step is Focus {
                match focus_failure(s.window, reply) {
                    Some(fault) => failing(s, fault),
                    None => RunView {
                        at: s.at + 1,
                        stage: Stage::Working,
                        trace: s.trace.push(Mark::Verified),
                        ..s
                    },
                }
            } else {
                match input_failure(step, reply) {
                    // What was pressed may be down although the request failed.
                    Some(fault) => failing(
                        if step is Press || step is KeyDown {
                            holding(RunView { invalid: true, ..s }, step)
                        } else {
                            RunView { invalid: true, ..s }
                        },
                        fault,
                    ),
                    None => RunView {
                        at: s.at + 1,
                        stage: Stage::Working,
                        ..holding(s, step)
                    },
                }
            }
        },
        Stage::ButtonSent(n) => {
            match input_failure(Step::Release(0), reply) {
                Some(fault) => RunView {
                    invalid: true,
                    button_errors: s.button_errors.push(fault.message),
                    stage: Stage::Buttons((n - 1) as usize),
                    ..s
                },
                None => RunView {
                    buttons: s.buttons.remove(n - 1),
                    stage: Stage::Buttons((n - 1) as usize),
                    ..s
                },
            }
        },
        Stage::KeySent(n) => {
            match input_failure(Step::KeyUp(0), reply) {
                Some(fault) => RunView {
                    invalid: true,
                    key_errors: s.key_errors.push(fault.message),
                    stage: Stage::Keys((n - 1) as usize),
                    ..s
                },
                None => RunView {
                    keys: s.keys.remove(n - 1),
                    stage: Stage::Keys((n - 1) as usize),
                    ..s
                },
            }
        },
        _ => s,
    }
}

/// The result of a run that is over.
pub open spec fn result_of(s: RunView) -> Checked {
    with_cleanup(
        match s.failure {
            Some(fault) => Err(fault),
            None => Ok(()),
        },
        both_cleaned(
            cleaned("button release"@, s.button_errors),
            cleaned("key release"@, s.key_errors),
        ),
    )
}

/// A run that is about to begin.
pub open spec fn fresh(
    steps: Seq<Step>,
    window: Seq<char>,
    deadline: Deadline,
    cleanup: Deadline,
) -> RunView {
    RunView {
        steps,
        at: 0,
        window,
        deadline,
        cleanup,
        keys: Seq::empty(),
        buttons: Seq::empty(),
        invalid: false,
        stage: Stage::Working,
        failure: None,
        button_errors: Seq::empty(),
        key_errors: Seq::empty(),
        trace: Seq::empty(),
    }
}

/// A moment at which a run is asked for its next request, and what comes of
/// that request.
pub struct Event {
    pub now: u64,
    pub reply: Reply<Seq<char>>,
}

/// The state of a run after some events.
pub open spec fn after(s: RunView, events: Seq<Event>) -> RunView
    decreases events.len(),
{
    if events.len() == 0 {
        s
    } else {
        let event = events.last();
        answered(advanced(after(s, events.drop_last()), event.now).0, event.reply)
    }
}

/// How often something was done.
pub open spec fn times(trace: Seq<Mark>, mark: Mark) -> nat {
    trace.to_multiset().count(mark)
}

/// Whether a key was let go as often as it was pressed, but for what is on
/// record as held.
pub open spec fn key_covered(trace: Seq<Mark>, keys: Seq<u32>, keysym: u32) -> bool {
    times(trace, Mark::Key { keysym, pressed: true }) <= times(
        trace,
        Mark::Key { keysym, pressed: false },
    ) + keys.to_multiset().count(keysym)
}

/// Whether a button was let go as often as it was pressed, but for what is on
/// record as held.
pub open spec fn button_covered(trace: Seq<Mark>, buttons: Seq<i32>, code: i32) -> bool {
    times(trace, Mark::Button { code, pressed: true }) <= times(
        trace,
        Mark::Button { code, pressed: false },
    ) + buttons.to_multiset().count(code)
}

/// Whether all that was pressed was let go as often, but for what is on record
/// as held.
pub open spec fn covered(trace: Seq<Mark>, keys: Seq<u32>, buttons: Seq<i32>) -> bool {
    &&& forall|k: u32| #[trigger] key_covered(trace, keys, k)
    &&& forall|b: i32| #[trigger] button_covered(trace, buttons, b)
}

/// Whether a mark stands for acting on the window, other than by letting go.
pub open spec fn touches(mark: Mark) -> bool {
    match mark {
        Mark::Verified => false,
        Mark::Moved => true,
        Mark::Button { pressed, .. } => pressed,
        Mark::Key { pressed, .. } => pressed,
        Mark::Scrolled => true,
    }
}

/// Whether the window was found to be the active one right before each action
/// on it.
pub open spec fn verified_first(trace: Seq<Mark>) -> bool {
    forall|i: int|
        0 <= i < trace.len() && touches(#[trigger] trace[i]) ==> i > 0 && trace[i - 1]
            == Mark::Verified
}

/// What is under way.
pub open spec fn pending(s: RunView) -> Option<Mark> {
    match s.stage {
        Stage::Sent => mark_of(s.steps[s.at]),
        Stage::ButtonSent(n) => mark_of(Step::Release(s.buttons[n - 1])),
        Stage::KeySent(n) => mark_of(Step::KeyUp(s.keys[n - 1])),
        _ => None,
    }
}

/// What was done and answered.
pub open spec fn settled(s: RunView) -> Seq<Mark> {
    match pending(s) {
        Some(_) => s.trace.drop_last(),
        None => s.trace,
    }
}

/// What is held and how the failures add up, by stage.
pub open spec fn stage_holds(s: RunView) -> bool {
    match s.stage {
        Stage::Working | Stage::Sent => {
            &&& !s.invalid
            &&& s.failure is None
            &&& s.keys.len() + s.buttons.len() <= s.at
            &&& s.button_errors.len() == 0
            &&& s.key_errors.len() == 0
            &&& held(nothing_held(), s.steps.take(s.at)) == Some(
                Held { keys: s.keys, buttons: s.buttons },
            )
            &&& s.stage == Stage::Sent ==> s.at < s.steps.len() && !(s.steps[s.at] is Check)
        },
        Stage::Buttons(n) => {
            &&& s.buttons.len() == n + s.button_errors.len()
            &&& s.key_errors.len() == 0
        },
        Stage::ButtonSent(n) => {
            &&& n > 0
            &&& s.buttons.len() == n + s.button_errors.len()
            &&& s.key_errors.len() == 0
        },
        Stage::Keys(n) => {
            &&& s.buttons.len() == s.button_errors.len()
            &&& s.keys.len() == n + s.key_errors.len()
        },
        Stage::KeySent(n) => {
            &&& n > 0
            &&& s.buttons.len() == s.button_errors.len()
            &&& s.keys.len() == n + s.key_errors.len()
        },
        Stage::Finished => {
            &&& s.buttons.len() == s.button_errors.len()
            &&& s.keys.len() == s.key_errors.len()
        },
    }
}

/// What holds of a run at every moment.
pub open spec fn sound(s: RunView) -> bool {
    &&& 0 <= s.at <= s.steps.len()
    &&& s.steps.len() <= usize::MAX
    &&& s.keys.len() + s.buttons.len() <= s.steps.len()
    &&& well_ordered(s.steps)
    &&& stage_holds(s)
    &&& s.invalid ==> s.failure is Some || s.button_errors.len() > 0 || s.key_errors.len() > 0
    &&& s.button_errors.len() + s.key_errors.len() > 0 ==> s.invalid
    &&& s.failure is None ==> s.stage == Stage::Working || s.stage == Stage::Sent || s.at
        == s.steps.len()
    &&& verified_first(s.trace)
    &&& pending(s) is Some ==> s.trace.len() > 0 && Some(s.trace.last()) == pending(s)
    &&& covered(settled(s), s.keys, s.buttons)
    &&& s.stage == Stage::Working && s.at > 0 && s.steps[s.at - 1] is Focus ==> s.trace.len() > 0
        && s.trace.last() == Mark::Verified
}

proof fn lemma_held_so_far(steps: Seq<Step>, i: int)
    requires
        0 <= i <= steps.len(),
        held(nothing_held(), steps) is Some,
    ensures
        held(nothing_held(), steps.take(i)) is Some,
        i > 0 ==> held(nothing_held(), steps.take(i)) == held_after(
            held(nothing_held(), steps.take(i - 1))->Some_0,
            steps[i - 1],
        ),
    decreases steps.len() - i,
{
    if i < steps.len() {
        lemma_held_so_far(steps, i + 1);
        assert(steps.take(i + 1).drop_last() =~= steps.take(i));
    } else {
        assert(steps.take(i) =~= steps);
    }
    if i > 0 {
        assert(steps.take(i).drop_last() =~= steps.take(i - 1));
    }
}

proof fn lemma_verified_first_push(trace: Seq<Mark>, mark: Mark)
    requires
        verified_first(trace),
        touches(mark) ==> trace.len() > 0 && trace.last() == Mark::Verified,
    ensures
        verified_first(trace.push(mark)),
{
    let longer = trace.push(mark);
    assert forall|i: int| 0 <= i < longer.len() && touches(#[trigger] longer[i]) implies i > 0
        && longer[i - 1] == Mark::Verified by {
        if i < trace.len() {
            assert(longer[i] == trace[i]);
        }
    }
}

/// Asking for the next request keeps a run sound.
proof fn lemma_advanced_is_sound(s: RunView, now: u64)
    requires
        sound(s),
    ensures
        sound(advanced(s, now).0),
{
    broadcast use vstd::seq_lib::group_to_multiset_ensures;

    let t = advanced(s, now).0;
    match s.stage {
        Stage::Working => {
            if s.at < s.steps.len() {
                let step = s.steps[s.at];
                if time_left(s.deadline.end, now) is Ok {
                    if step is Check {
                        lemma_held_so_far(s.steps, s.at + 1);
                        lemma_held_so_far(s.steps, s.at);
                    } else {
                        if let Some(mark) = mark_of(step) {
                            if touches(mark) {
                                assert(acts(s.steps[s.at]));
                            }
                            lemma_verified_first_push(s.trace, mark);
                            assert(t.trace.drop_last() =~= s.trace);
                        }
                    }
                }
            }
        },
        Stage::Buttons(n) => {
            if n > 0 && time_left(s.cleanup.end, now) is Ok {
                let mark = Mark::Button { code: s.buttons[n - 1], pressed: false };
                lemma_verified_first_push(s.trace, mark);
                assert(t.trace.drop_last() =~= s.trace);
            }
        },
        Stage::Keys(n) => {
            if n > 0 && time_left(s.cleanup.end, now) is Ok {
                let mark = Mark::Key { keysym: s.keys[n - 1], pressed: false };
                lemma_verified_first_push(s.trace, mark);
                assert(t.trace.drop_last() =~= s.trace);
            }
        },
        _ => {},
    }
}

/// A mark that goes with a change of what is held keeps everything covered,
/// where it covers each key and each button.
proof fn lemma_covered_push(
    trace: Seq<Mark>,
    mark: Mark,
    keys: Seq<u32>,
    buttons: Seq<i32>,
    new_keys: Seq<u32>,
    new_buttons: Seq<i32>,
)
    requires
        covered(trace, keys, buttons),
        match mark {
            Mark::Key { keysym, pressed: true } => new_keys == keys.push(keysym) && new_buttons
                == buttons,
            Mark::Button { code, pressed: true } => new_keys == keys && new_buttons
                == buttons.push(code),
            Mark::Key { keysym, pressed: false } => new_buttons == buttons && (new_keys == keys
                || exists|i: int|
                0 <= i < keys.len() && keys[i] == keysym && new_keys == #[trigger] keys.remove(i)),
            Mark::Button { code, pressed: false } => new_keys == keys && (new_buttons == buttons
                || exists|i: int|
                0 <= i < buttons.len() && buttons[i] == code && new_buttons
                    == #[trigger] buttons.remove(i)),
            _ => new_keys == keys && new_buttons == buttons,
        },
    ensures
        covered(trace.push(mark), new_keys, new_buttons),
{
    broadcast use vstd::seq_lib::group_to_multiset_ensures;

    assert forall|k: u32| #[trigger] key_covered(trace.push(mark), new_keys, k) by {
        assert(key_covered(trace, keys, k));
    }
    assert forall|b: i32| #[trigger] button_covered(trace.push(mark), new_buttons, b) by {
        assert(button_covered(trace, buttons, b));
    }
}

/// The reply to a request keeps a run sound.
proof fn lemma_answered_is_sound(s: RunView, reply: Reply<Seq<char>>)
    requires
        sound(s),
    ensures
        sound(answered(s, reply)),
{
    let t = answered(s, reply);
    let done = settled(s);
    if pending(s) is Some {
        assert(s.trace =~= done.push(s.trace.last()));
    }
    match s.stage {
        Stage::Sent => {
            let step = s.steps[s.at];
            lemma_held_so_far(s.steps, s.at + 1);
            lemma_held_so_far(s.steps, s.at);
            if step is Focus {
                lemma_verified_first_push(s.trace, Mark::Verified);
                lemma_covered_push(done, Mark::Verified, s.keys, s.buttons, s.keys, s.buttons);
            } else {
                if step is KeyUp {
                    assert(s.keys.remove(s.keys.len() - 1) =~= s.keys.drop_last());
                }
                if step is Release {
                    assert(s.buttons.remove(s.buttons.len() - 1) =~= s.buttons.drop_last());
                }
                lemma_covered_push(done, s.trace.last(), s.keys, s.buttons, t.keys, t.buttons);
            }
        },
        Stage::ButtonSent(n) => {
            let left = s.buttons.remove(n - 1);
            lemma_covered_push(done, s.trace.last(), s.keys, s.buttons, t.keys, t.buttons);
        },
        Stage::KeySent(n) => {
            let left = s.keys.remove(n - 1);
            lemma_covered_push(done, s.trace.last(), s.keys, s.buttons, t.keys, t.buttons);
        },
        _ => {},
    }
}

/// Whatever happens, a run stays sound.
proof fn lemma_run_is_sound(s: RunView, events: Seq<Event>)
    requires
        sound(s),
    ensures
        sound(after(s, events)),
    decreases events.len(),
{
    if events.len() > 0 {
        let before = after(s, events.drop_last());
        lemma_run_is_sound(s, events.drop_last());
        lemma_advanced_is_sound(before, events.last().now);
        lemma_answered_is_sound(advanced(before, events.last().now).0, events.last().reply);
    }
}

proof fn lemma_fresh_is_sound(
    steps: Seq<Step>,
    window: Seq<char>,
    deadline: Deadline,
    cleanup: Deadline,
)
    requires
        well_ordered(steps),
        steps.len() <= usize::MAX,
    ensures
        sound(fresh(steps, window, deadline, cleanup)),
{
    let s = fresh(steps, window, deadline, cleanup);
    broadcast use vstd::seq_lib::group_to_multiset_ensures;

    assert(s.steps.take(0) =~= Seq::empty());
    assert forall|m: Mark| times(s.trace, m) == 0 by {
        assert(!s.trace.contains(m));
    }
}

/// The run of a command.
pub open spec fn run_of(
    c: Command<Seq<char>>,
    m: Monitor,
    deadline: Deadline,
    cleanup: Deadline,
) -> RunView {
    fresh(planned(c, m)->Ok_0, window_of(c), deadline, cleanup)
}

/// Whether the steps of a command can be counted.
pub open spec fn runnable(c: Command<Seq<char>>, m: Monitor) -> bool {
    planned(c, m) is Ok && planned(c, m)->Ok_0.len() <= usize::MAX
}

/// Whatever the command and whatever happens while it runs: the window is
/// touched only right after it was found to be the active one.
pub proof fn law_window_is_verified_first(
    c: Command<Seq<char>>,
    m: Monitor,
    deadline: Deadline,
    cleanup: Deadline,
    events: Seq<Event>,
)
    requires
        runnable(c, m),
    ensures
        verified_first(after(run_of(c, m, deadline, cleanup), events).trace),
{
    law_plans_are_well_ordered(c, m);
    lemma_fresh_is_sound(planned(c, m)->Ok_0, window_of(c), deadline, cleanup);
    lemma_run_is_sound(run_of(c, m, deadline, cleanup), events);
}

/// When a run is over and nothing failed, all steps were carried out, the
/// session is valid, and every key and button was let go as often as it was
/// pressed.
pub proof fn law_success_leaves_nothing_pressed(
    c: Command<Seq<char>>,
    m: Monitor,
    deadline: Deadline,
    cleanup: Deadline,
    events: Seq<Event>,
    keysym: u32,
    code: i32,
)
    requires
        runnable(c, m),
        after(run_of(c, m, deadline, cleanup), events).stage == Stage::Finished,
        result_of(after(run_of(c, m, deadline, cleanup), events)) is Ok,
    ensures
        ({
            let s = after(run_of(c, m, deadline, cleanup), events);
            &&& s.at == s.steps.len()
            &&& !s.invalid
            &&& times(s.trace, Mark::Key { keysym, pressed: true }) <= times(
                s.trace,
                Mark::Key { keysym, pressed: false },
            )
            &&& times(s.trace, Mark::Button { code, pressed: true }) <= times(
                s.trace,
                Mark::Button { code, pressed: false },
            )
        }),
{
    broadcast use vstd::seq_lib::group_to_multiset_ensures;

    law_plans_are_well_ordered(c, m);
    lemma_fresh_is_sound(planned(c, m)->Ok_0, window_of(c), deadline, cleanup);
    lemma_run_is_sound(run_of(c, m, deadline, cleanup), events);
    let s = after(run_of(c, m, deadline, cleanup), events);
    assert(key_covered(s.trace, s.keys, keysym));
    assert(button_covered(s.trace, s.buttons, code));
    assert(!s.keys.contains(keysym));
    assert(!s.buttons.contains(code));
}

/// When a run is over, whatever is still on record as held is reported: the
/// result is a failure, and the session is given up.
pub proof fn law_what_stays_held_is_reported(
    c: Command<Seq<char>>,
    m: Monitor,
    deadline: Deadline,
    cleanup: Deadline,
    events: Seq<Event>,
)
    requires
        runnable(c, m),
        after(run_of(c, m, deadline, cleanup), events).stage == Stage::Finished,
    ensures
        ({
            let s = after(run_of(c, m, deadline, cleanup), events);
            &&& s.keys.len() + s.buttons.len() > 0 ==> s.invalid
            &&& s.invalid ==> result_of(s) is Err
            &&& s.key_errors.len() == s.keys.len()
            &&& s.button_errors.len() == s.buttons.len()
        }),
{
    law_plans_are_well_ordered(c, m);
    lemma_fresh_is_sound(planned(c, m)->Ok_0, window_of(c), deadline, cleanup);
    lemma_run_is_sound(run_of(c, m, deadline, cleanup), events);
}

/// Once something failed, nothing is sent but the release of what is held.
pub proof fn law_only_releases_follow_a_failure(
    c: Command<Seq<char>>,
    m: Monitor,
    deadline: Deadline,
    cleanup: Deadline,
    events: Seq<Event>,
    next: Event,
)
    requires
        runnable(c, m),
        after(run_of(c, m, deadline, cleanup), events).failure is Some,
    ensures
        ({
            let s = after(run_of(c, m, deadline, cleanup), events);
            let t = after(run_of(c, m, deadline, cleanup), events.push(next));
            &&& t.failure == s.failure
            &&& t.trace == s.trace || (exists|mark: Mark|
                !touches(mark) && mark != Mark::Verified && t.trace == #[trigger] s.trace.push(mark))
        }),
{
    law_plans_are_well_ordered(c, m);
    lemma_fresh_is_sound(planned(c, m)->Ok_0, window_of(c), deadline, cleanup);
    lemma_run_is_sound(run_of(c, m, deadline, cleanup), events);
    assert(events.push(next).drop_last() =~= events);
    let s = after(run_of(c, m, deadline, cleanup), events);
    let t = after(run_of(c, m, deadline, cleanup), events.push(next));
    if t.trace != s.trace {
        assert(t.trace =~= s.trace.push(t.trace.last()));
    }
}

/// How many events a run needs at most to get to its end.
pub open spec fn remaining(s: RunView) -> nat {
    match s.stage {
        Stage::Working | Stage::Sent => (2 * (s.steps.len() - s.at) + s.keys.len()
            + s.buttons.len() + 3) as nat,
        Stage::Buttons(n) | Stage::ButtonSent(n) => n as nat + s.keys.len() + 2,
        Stage::Keys(n) | Stage::KeySent(n) => n as nat + 1,
        Stage::Finished => 0,
    }
}

/// A run that was answered after it was asked waits for nothing.
pub open spec fn waits(s: RunView) -> bool {
    s.stage is Sent || s.stage is ButtonSent || s.stage is KeySent
}

proof fn lemma_event_makes_progress(s: RunView, event: Event)
    requires
        sound(s),
        !waits(s),
    ensures
        !waits(answered(advanced(s, event.now).0, event.reply)),
        s.stage is Finished || remaining(answered(advanced(s, event.now).0, event.reply))
            < remaining(s),
        s.stage is Finished ==> remaining(answered(advanced(s, event.now).0, event.reply)) == 0,
{
    lemma_advanced_is_sound(s, event.now);
}

proof fn lemma_run_makes_progress(s: RunView, events: Seq<Event>)
    requires
        sound(s),
        !waits(s),
    ensures
        !waits(after(s, events)),
        remaining(after(s, events)) == 0 || remaining(after(s, events)) + events.len() <= remaining(
            s,
        ),
    decreases events.len(),
{
    if events.len() > 0 {
        lemma_run_makes_progress(s, events.drop_last());
        lemma_run_is_sound(s, events.drop_last());
        lemma_event_makes_progress(after(s, events.drop_last()), events.last());
    }
}

/// Every run ends, within a number of events that its steps bound.
pub proof fn law_runs_end(
    c: Command<Seq<char>>,
    m: Monitor,
    deadline: Deadline,
    cleanup: Deadline,
    events: Seq<Event>,
)
    requires
        runnable(c, m),
        events.len() >= 2 * planned(c, m)->Ok_0.len() + 3,
    ensures
        after(run_of(c, m, deadline, cleanup), events).stage == Stage::Finished,
{
    law_plans_are_well_ordered(c, m);
    lemma_fresh_is_sound(planned(c, m)->Ok_0, window_of(c), deadline, cleanup);
    lemma_run_makes_progress(run_of(c, m, deadline, cleanup), events);
    lemma_run_is_sound(run_of(c, m, deadline, cleanup), events);
}

/// The run of one command.
pub struct Run {
    steps: Vec<Step>,
    at: usize,
    window: String,
    deadline: Deadline,
    cleanup: Deadline,
    keys: Vec<u32>,
    buttons: Vec<i32>,
    invalid: bool,
    stage: Stage,
    failure: Option<Fault>,
    button_errors: Vec<String>,
    key_errors: Vec<String>,
    trace: Ghost<Seq<Mark>>,
}

impl View for Run {
    type V = RunView;

    closed spec fn view(&self) -> RunView {
        RunView {
            steps: self.steps@,
            at: self.at as int,
            window: self.window@,
            deadline: self.deadline,
            cleanup: self.cleanup,
            keys: self.keys@,
            buttons: self.buttons@,
            invalid: self.invalid,
            stage: self.stage,
            failure: match self.failure {
                Some(f) => Some(f@),
                None => None,
            },
            button_errors: texts(self.button_errors@),
            key_errors: texts(self.key_errors@),
            trace: self.trace@,
        }
    }
}

/// Adds the failure of a release to those before it.
fn note_error(errors: &mut Vec<String>, message: String)
    ensures
        texts(final(errors)@) == texts(old(errors)@).push(message@),
{
    errors.push(message);
    assert(texts(errors@) =~= texts(old(errors)@).push(message@));
}

/// The failure of an input request, where it failed.
fn check_input(step: Step, reply: Reply<String>) -> (r: Option<Fault>)
    ensures
        match (r, input_failure(step, reply@)) {
            (Some(f), Some(e)) => f@ == e,
            (None, None) => true,
            _ => false,
        },
{
    let name = match step {
        Step::Move(_) => "pointer motion",
        Step::Press(_) => "pointer button",
        Step::Release(_) => "pointer button",
        Step::Axis(_, _) => "pointer axis",
        _ => "keyboard keysym",
    };
    match reply {
        Reply::Failed(why) => {
            let mut message = name.to_owned();
            message.append(" failed; RemoteDesktop session invalidated");
            message.append(": ");
            message.append(why.as_str());
            Some(Fault::new(message))
        },
        Reply::TimedOut => {
            let mut message = name.to_owned();
            message.append(" timed out; RemoteDesktop session invalidated");
            Some(Fault::new(message))
        },
        _ => None,
    }
}

/// The failure of a check of the active window, where it failed.
fn check_focus(window: &str, reply: Reply<String>) -> (r: Option<Fault>)
    ensures
        match (r, focus_failure(window@, reply@)) {
            (Some(f), Some(e)) => f@ == e,
            (None, None) => true,
            _ => false,
        },
{
    let actual = match reply {
        Reply::Failed(why) => return Some(Fault::new(why)),
        Reply::TimedOut => return Some(
            Fault::of(
                "request deadline expired while checking active window UUID: deadline has elapsed",
            ),
        ),
        Reply::ActiveWindow(Some(uuid)) => {
            if same(uuid.as_str(), window) {
                return None;
            }
            uuid
        },
        _ => "<none>".to_owned(),
    };
    let mut message = "active window UUID mismatch: expected ".to_owned();
    message.append(quote(window).as_str());
    message.append(", actual ");
    message.append(quote(actual.as_str()).as_str());
    Some(Fault::new(message))
}

/// The window that a command is for.
fn target(command: &Command<String>) -> (r: String)
    ensures
        r@ == window_of(command@),
{
    match command {
        Command::Move { window, .. } => window.clone(),
        Command::Click { window, .. } => window.clone(),
        Command::Drag { window, .. } => window.clone(),
        Command::Scroll { window, .. } => window.clone(),
        Command::PressKey { window, .. } => window.clone(),
        Command::TypeText { window, .. } => window.clone(),
    }
}

impl Run {
    /// Plans a command that has to be carried out within the given time; the
    /// clean-up after it may take until `cleanup`.
    pub fn start(
        command: &Command<String>,
        monitor: &Monitor,
        deadline: Deadline,
        cleanup: Deadline,
    ) -> (r: Result<Run, Refusal<Fault>>)
        ensures
            match (r, planned(command@, *monitor)) {
                (Ok(run), Ok(_)) => runnable(command@, *monitor) && run@ == run_of(
                    command@,
                    *monitor,
                    deadline,
                    cleanup,
                ) && sound(run@),
                (Err(f), Err(e)) => f@ == e,
                _ => false,
            },
    {
        match plan(command, monitor) {
            Ok(steps) => {
                proof {
                    law_plans_are_well_ordered(command@, *monitor);
                }
                Ok(Run::with_steps(steps, target(command), deadline, cleanup))
            },
            Err(refusal) => Err(refusal),
        }
    }

    fn with_steps(steps: Vec<Step>, window: String, deadline: Deadline, cleanup: Deadline) -> (r: Run)
        requires
            well_ordered(steps@),
        ensures
            r@ == fresh(steps@, window@, deadline, cleanup),
            sound(r@),
    {
        let run = Run {
            steps,
            at: 0,
            window,
            deadline,
            cleanup,
            keys: Vec::new(),
            buttons: Vec::new(),
            invalid: false,
            stage: Stage::Working,
            failure: None,
            button_errors: Vec::new(),
            key_errors: Vec::new(),
            trace: Ghost(Seq::empty()),
        };
        proof {
            assert(run.steps.len() == steps@.len());
            lemma_fresh_is_sound(steps@, window@, deadline, cleanup);
            assert(run@ =~= fresh(steps@, window@, deadline, cleanup));
        }
        run
    }

    /// Ends the work with a failure.
    fn fail(&mut self, fault: Fault)
        requires
            old(self)@.buttons.len() <= usize::MAX,
        ensures
            final(self)@ == failing(old(self)@, fault@),
    {
        self.failure = Some(fault);
        self.stage = Stage::Buttons(self.buttons.len());
    }

    /// Records that a step is about to be sent and gives the request for it.
    fn send(&mut self, step: Step, within: u64) -> (r: Request)
        ensures
            final(self)@ == (RunView {
                trace: marked(old(self)@.trace, mark_of(step)),
                ..old(self)@
            }),
            r == request_of(step, within),
    {
        self.trace = Ghost(marked(self.trace@, mark_of(step)));
        match step {
            Step::Check => Request::Proceed,
            Step::Focus => Request::ActiveWindow { within },
            Step::Move(point) => Request::Move { point, within },
            Step::Press(code) => Request::Button { code, pressed: true, within },
            Step::Release(code) => Request::Button { code, pressed: false, within },
            Step::KeyDown(keysym) => Request::Key { keysym, pressed: true, within },
            Step::KeyUp(keysym) => Request::Key { keysym, pressed: false, within },
            Step::Axis(dx, dy) => Request::Axis { dx, dy, within },
        }
    }

    /// What is to be done next, at the moment `now`.
    pub fn next(&mut self, now: u64) -> (r: Request)
        requires
            sound(old(self)@),
        ensures
            final(self)@ == advanced(old(self)@, now).0,
            r == advanced(old(self)@, now).1,
            sound(final(self)@),
    {
        proof {
            lemma_advanced_is_sound(self@, now);
        }
        match self.stage {
            Stage::Working => {
                if self.at >= self.steps.len() {
                    self.stage = Stage::Buttons(self.buttons.len());
                    return Request::Proceed;
                }
                let step = self.steps[self.at];
                match self.deadline.remaining_at(now) {
                    Err(fault) => {
                        if matches!(step, Step::Release(_) | Step::KeyUp(_)) {
                            self.invalid = true;
                        }
                        self.fail(fault);
                        Request::Proceed
                    },
                    Ok(within) => {
                        if matches!(step, Step::Check) {
                            self.at = self.at + 1;
                            return Request::Proceed;
                        }
                        self.stage = Stage::Sent;
                        self.send(step, within)
                    },
                }
            },
            Stage::Buttons(n) => {
                if n == 0 {
                    self.stage = Stage::Keys(self.keys.len());
                    return Request::Proceed;
                }
                match self.cleanup.remaining_at(now) {
                    Err(fault) => {
                        self.invalid = true;
                        note_error(&mut self.button_errors, fault.message);
                        self.stage = Stage::Buttons(n - 1);
                        Request::Proceed
                    },
                    Ok(within) => {
                        self.stage = Stage::ButtonSent(n);
                        let step = Step::Release(self.buttons[n - 1]);
                        self.send(step, within)
                    },
                }
            },
            Stage::Keys(n) => {
                if n == 0 {
                    self.stage = Stage::Finished;
                    return Request::Proceed;
                }
                match self.cleanup.remaining_at(now) {
                    Err(fault) => {
                        self.invalid = true;
                        note_error(&mut self.key_errors, fault.message);
                        self.stage = Stage::Keys(n - 1);
                        Request::Proceed
                    },
                    Ok(within) => {
                        self.stage = Stage::KeySent(n);
                        let step = Step::KeyUp(self.keys[n - 1]);
                        self.send(step, within)
                    },
                }
            },
            Stage::Finished => Request::Finished,
            Stage::Sent => Request::Awaiting,
            Stage::ButtonSent(_) => Request::Awaiting,
            Stage::KeySent(_) => Request::Awaiting,
        }
    }

    /// Takes the reply to the last request.
    pub fn reply(&mut self, reply: Reply<String>)
        requires
            sound(old(self)@),
        ensures
            final(self)@ == answered(old(self)@, reply@),
            sound(final(self)@),
    {
        proof {
            lemma_answered_is_sound(self@, reply@);
            if self.stage == Stage::Sent {
                lemma_held_so_far(self@.steps, self@.at + 1);
                lemma_held_so_far(self@.steps, self@.at);
            }
        }
        match self.stage {
            Stage::Sent => {
                let step = self.steps[self.at];
                if matches!(step, Step::Focus) {
                    match check_focus(self.window.as_str(), reply) {
                        Some(fault) => self.fail(fault),
                        None => {
                            self.at = self.at + 1;
                            self.stage = Stage::Working;
                            self.trace = Ghost(self.trace@.push(Mark::Verified));
                        },
                    }
                    return;
                }
                match check_input(step, reply) {
                    Some(fault) => {
                        self.invalid = true;
                        match step {
                            Step::Press(code) => self.buttons.push(code),
                            Step::KeyDown(keysym) => self.keys.push(keysym),
                            _ => {},
                        }
                        self.fail(fault);
                    },
                    None => {
                        match step {
                            Step::Press(code) => self.buttons.push(code),
                            Step::KeyDown(keysym) => self.keys.push(keysym),
                            Step::Release(_) => {
                                self.buttons.pop();
                            },
                            Step::KeyUp(_) => {
                                self.keys.pop();
                            },
                            _ => {},
                        }
                        self.at = self.at + 1;
                        self.stage = Stage::Working;
                    },
                }
            },
            Stage::ButtonSent(n) => {
                match check_input(Step::Release(0), reply) {
                    Some(fault) => {
                        self.invalid = true;
                        note_error(&mut self.button_errors, fault.message);
                    },
                    None => {
                        self.buttons.remove(n - 1);
                    },
                }
                self.stage = Stage::Buttons(n - 1);
            },
            Stage::KeySent(n) => {
                match check_input(Step::KeyUp(0), reply) {
                    Some(fault) => {
                        self.invalid = true;
                        note_error(&mut self.key_errors, fault.message);
                    },
                    None => {
                        self.keys.remove(n - 1);
                    },
                }
                self.stage = Stage::Keys(n - 1);
            },
            _ => {},
        }
    }

    /// Whether the session can no longer be relied on.
    pub fn is_invalid(&self) -> (r: bool)
        ensures
            r == self@.invalid,
    {
        self.invalid
    }

    /// The result of a run that is over.
    pub fn result(&self) -> (r: Result<(), Fault>)
        ensures
            agrees(r, result_of(self@)),
    {
        let operation = match &self.failure {
            Some(fault) => Err(fault.clone()),
            None => Ok(()),
        };
        let buttons = cleanup_result("button release", &self.button_errors);
        let keys = cleanup_result("key release", &self.key_errors);
        combine_operation_cleanup(operation, combine_cleanups(buttons, keys))
    }
}

/// What is sent is the step that is due, and nothing else: the pointer goes to
/// the very point, the very button or key is pressed or let go, and the wheel
/// is turned by the very distance. It is sent within the time that is left, and
/// where none is left, it is not. Once the steps are over, only what is held is
/// let go, the last first.
pub proof fn law_requests_carry_out_the_steps(s: RunView, now: u64)
    requires
        0 <= s.at,
    ensures
        ({
            let due = s.stage is Working && s.at < s.steps.len() && now < s.deadline.end;
            let left = s.deadline.end - now;
            let step = s.steps[s.at];
            let spare = s.cleanup.end - now;
            &&& match advanced(s, now).1 {
                Request::ActiveWindow { within } => due && step is Focus && within == left,
                Request::Move { point, within } => due && step == Step::Move(point) && within
                    == left,
                Request::Axis { dx, dy, within } => due && step == Step::Axis(dx, dy) && within
                    == left,
                Request::Button { code, pressed, within } => if pressed {
                    due && step == Step::Press(code) && within == left
                } else {
                    ||| due && step == Step::Release(code) && within == left
                    ||| (s.stage matches Stage::Buttons(n) && n > 0 && code == s.buttons[n - 1]
                        && within == spare && spare > 0)
                },
                Request::Key { keysym, pressed, within } => if pressed {
                    due && step == Step::KeyDown(keysym) && within == left
                } else {
                    ||| due && step == Step::KeyUp(keysym) && within == left
                    ||| (s.stage matches Stage::Keys(n) && n > 0 && keysym == s.keys[n - 1]
                        && within == spare && spare > 0)
                },
                Request::Finished => s.stage is Finished,
                Request::Proceed => !(due && !(step is Check)),
                Request::Awaiting => s.stage is Sent || s.stage is ButtonSent || s.stage is KeySent,
            }
            &&& due && !(step is Check) ==> advanced(s, now).0.stage is Sent
                && advanced(s, now).0.at == s.at
            &&& due && step is Check ==> advanced(s, now).0.at == s.at + 1
            &&& s.stage is Working && s.at < s.steps.len() && now >= s.deadline.end ==> advanced(
                s,
                now,
            ).0.failure is Some
            &&& advanced(s, now).0.steps == s.steps && advanced(s, now).0.window == s.window
        }),
{
}

/// A step is over once it was answered: a check of the window only where the
/// expected window is the active one, and anything else only where it did not
/// fail. Otherwise the work ends, and what was pressed counts as held.
pub proof fn law_failures_end_the_work(s: RunView, reply: Reply<Seq<char>>)
    requires
        s.stage is Sent,
        0 <= s.at < s.steps.len(),
        s.failure is None,
    ensures
        ({
            let t = answered(s, reply);
            let step = s.steps[s.at];
            let fine = if step is Focus {
                reply == Reply::ActiveWindow(Some(s.window))
            } else {
                !(reply is Failed) && !(reply is TimedOut)
            };
            &&& t.steps == s.steps && t.window == s.window
            &&& fine ==> t.at == s.at + 1 && t.stage is Working && t.failure is None && t.invalid
                == s.invalid
            &&& !fine ==> t.at == s.at && t.failure is Some && t.stage == Stage::Buttons(
                t.buttons.len() as usize,
            )
            &&& !fine && !(step is Focus) ==> t.invalid
            &&& step matches Step::Press(b) ==> t.buttons == s.buttons.push(b) && t.keys == s.keys
            &&& step matches Step::KeyDown(k) ==> t.keys == s.keys.push(k) && t.buttons
                == s.buttons
            &&& fine && (step matches Step::Release(b) && s.buttons.len() > 0 && s.buttons.last()
                == b) ==> t.buttons == s.buttons.drop_last()
            &&& fine && (step matches Step::KeyUp(k) && s.keys.len() > 0 && s.keys.last() == k)
                ==> t.keys == s.keys.drop_last()
        }),
{
}

} // verus!
