//! Pointer and keyboard commands: what they ask for, which of them are
//! refused, and the steps that carry them out.

use crate::binary64::{double_of, int_units, Real};
use crate::fault::{agrees, general, Fault, FaultView};
use crate::keymap::{char_to_keysym, chord, keysym_of_char, parse_chord};
use crate::text::{blank, chars_of, decimal, same, show_i64, show_u64, trim, trimmed};
use vstd::prelude::*;

verus! {

pub const BTN_LEFT: i32 = 0x110;

pub const BTN_RIGHT: i32 = 0x111;

pub const BTN_MIDDLE: i32 = 0x112;

/// The contents of an optional string.
pub open spec fn opt_text(o: Option<String>) -> Option<Seq<char>> {
    match o {
        Some(s) => Some(s@),
        None => None,
    }
}

/// A point in the coordinates of the compositor.
#[derive(Clone, Copy, Debug, PartialEq, Eq, Structural)]
pub struct Point {
    pub x: Real,
    pub y: Real,
}

/// The part of the compositor's plane that the selected monitor shows.
#[derive(Clone, Copy, Debug, PartialEq, Eq, Structural)]
pub struct Monitor {
    pub origin_x: i32,
    pub origin_y: i32,
    pub width: i32,
    pub height: i32,
}

impl View for Monitor {
    type V = Monitor;

    open spec fn view(&self) -> Monitor {
        *self
    }
}

/// What the portal reports about one of its streams.
#[derive(Clone, Copy, Debug)]
pub struct StreamGeometry {
    pub position: Option<(i32, i32)>,
    pub size: Option<(i32, i32)>,
}

/// The monitor behind the portal's streams: exactly one stream, with a
/// position and a positive size.
pub open spec fn monitor_of(streams: Seq<StreamGeometry>) -> Result<Monitor, FaultView> {
    if streams.len() != 1 {
        Err(
            general(
                "expected exactly one monitor screencast stream, received "@ + decimal(
                    streams.len() as int,
                ),
            ),
        )
    } else {
        match (streams[0].position, streams[0].size) {
            (None, _) => Err(
                general("screencast stream did not report a compositor position"@),
            ),
            (_, None) => Err(general("screencast stream did not report a size"@)),
            (Some((x, y)), Some((w, h))) => if w <= 0 || h <= 0 {
                Err(
                    general(
                        "screencast stream reported nonpositive logical size "@ + decimal(w as int)
                            + "x"@ + decimal(h as int),
                    ),
                )
            } else {
                Ok(Monitor { origin_x: x, origin_y: y, width: w, height: h })
            },
        }
    }
}

/// Selects the monitor behind the portal's streams.
pub fn select_monitor(streams: &Vec<StreamGeometry>) -> (r: Result<Monitor, Fault>)
    ensures
        agrees(r, monitor_of(streams@)),
{
    if streams.len() != 1 {
        let mut message = "expected exactly one monitor screencast stream, received ".to_owned();
        message.append(show_u64(streams.len() as u64).as_str());
        return Err(Fault::new(message));
    }
    let (x, y) = match streams[0].position {
        Some(p) => p,
        None => {
            return Err(Fault::of("screencast stream did not report a compositor position"));
        },
    };
    let (w, h) = match streams[0].size {
        Some(s) => s,
        None => {
            return Err(Fault::of("screencast stream did not report a size"));
        },
    };
    if w <= 0 || h <= 0 {
        let mut message = "screencast stream reported nonpositive logical size ".to_owned();
        message.append(show_i64(w as i64).as_str());
        message.append("x");
        message.append(show_i64(h as i64).as_str());
        return Err(Fault::new(message));
    }
    Ok(Monitor { origin_x: x, origin_y: y, width: w, height: h })
}

/// Where a point lies with respect to a monitor.
#[derive(Clone, Copy, Debug, PartialEq, Eq, Structural)]
pub enum Placement {
    Inside,
    NotFinite,
    Outside,
}

/// Whether a coordinate lies in the half-open interval of the given origin and
/// extent.
pub open spec fn within(x: Real, origin: int, extent: int) -> bool {
    int_units(origin) <= x.units() < int_units(origin + extent)
}

/// Where a point lies with respect to a monitor.
pub open spec fn placement_of(p: Point, m: Monitor) -> Placement {
    if !p.x.finite() || !p.y.finite() {
        Placement::NotFinite
    } else if within(p.x, m.origin_x as int, m.width as int) && within(
        p.y,
        m.origin_y as int,
        m.height as int,
    ) {
        Placement::Inside
    } else {
        Placement::Outside
    }
}

fn is_within(x: Real, origin: i32, extent: i32) -> (r: bool)
    requires
        x.finite(),
    ensures
        r == within(x, origin as int, extent as int),
{
    let low = Real::from_i64(origin as i64);
    let high = Real::from_i64(origin as i64 + extent as i64);
    low.le(x) && x.lt(high)
}

/// Tells where a point lies with respect to a monitor.
pub fn place(p: Point, m: &Monitor) -> (r: Placement)
    ensures
        r == placement_of(p, *m),
{
    if !p.x.is_finite() || !p.y.is_finite() {
        Placement::NotFinite
    } else if is_within(p.x, m.origin_x, m.width) && is_within(p.y, m.origin_y, m.height) {
        Placement::Inside
    } else {
        Placement::Outside
    }
}

/// Why a command is refused before anything is sent.
#[derive(Debug)]
pub enum Refusal<F> {
    Fault(F),
    /// A point does not lie on the selected monitor.
    Misplaced(Point, Placement),
}

impl Refusal<Fault> {
    pub open spec fn view(self) -> Refusal<FaultView> {
        match self {
            Refusal::Fault(f) => Refusal::Fault(f@),
            Refusal::Misplaced(p, w) => Refusal::Misplaced(p, w),
        }
    }
}

/// The button code of a button name; no name is the left button.
pub open spec fn button_code(s: Option<Seq<char>>) -> Result<i32, FaultView> {
    match s {
        None => Ok(BTN_LEFT),
        Some(n) => if n == "left"@ || n == "l"@ {
            Ok(BTN_LEFT)
        } else if n == "right"@ || n == "r"@ {
            Ok(BTN_RIGHT)
        } else if n == "middle"@ || n == "m"@ {
            Ok(BTN_MIDDLE)
        } else {
            Err(general("invalid mouse button: "@ + n))
        },
    }
}

/// Reads a button name.
pub fn parse_mouse_button(s: Option<&str>) -> (r: Result<i32, Fault>)
    ensures
        agrees(
            r,
            button_code(
                match s {
                    Some(n) => Some(n@),
                    None => None,
                },
            ),
        ),
{
    match s {
        None => Ok(BTN_LEFT),
        Some(n) => if same(n, "left") || same(n, "l") {
            Ok(BTN_LEFT)
        } else if same(n, "right") || same(n, "r") {
            Ok(BTN_RIGHT)
        } else if same(n, "middle") || same(n, "m") {
            Ok(BTN_MIDDLE)
        } else {
            let mut message = "invalid mouse button: ".to_owned();
            message.append(n);
            Err(Fault::new(message))
        },
    }
}

/// How often a click is repeated; no count is once.
pub open spec fn clicks(count: Option<u32>) -> Result<u32, FaultView> {
    let n = match count {
        Some(n) => n,
        None => 1,
    };
    if 1 <= n <= 3 {
        Ok(n)
    } else {
        Err(general("click_count must be between 1 and 3"@))
    }
}

/// Reads a click count.
pub fn parse_click_count(count: Option<u32>) -> (r: Result<u32, Fault>)
    ensures
        agrees(r, clicks(count)),
{
    let n: u32 = match count {
        Some(n) => n,
        None => 1,
    };
    if n < 1 || n > 3 {
        return Err(Fault::of("click_count must be between 1 and 3"));
    }
    Ok(n)
}

/// A window has to be named for anything to be sent to it.
pub open spec fn uuid_check(uuid: Seq<char>) -> Result<(), FaultView> {
    if trimmed(uuid).len() == 0 {
        Err(general("expected_window_uuid must not be empty"@))
    } else {
        Ok(())
    }
}

/// Refuses a blank window identifier.
pub fn validate_expected_uuid(expected_uuid: &str) -> (r: Result<(), Fault>)
    ensures
        agrees(r, uuid_check(expected_uuid@)),
{
    if blank(expected_uuid) {
        return Err(Fault::of("expected_window_uuid must not be empty"));
    }
    Ok(())
}

/// The directions in which one can scroll.
#[derive(Clone, Copy, Debug, PartialEq, Eq, Structural)]
pub enum Direction {
    Up,
    Down,
    Left,
    Right,
}

impl View for Direction {
    type V = Direction;

    open spec fn view(&self) -> Direction {
        *self
    }
}

/// The direction that a text names.
pub open spec fn direction_of(s: Seq<char>) -> Option<Direction> {
    if s == "up"@ || s == "u"@ {
        Some(Direction::Up)
    } else if s == "down"@ || s == "d"@ {
        Some(Direction::Down)
    } else if s == "left"@ || s == "l"@ {
        Some(Direction::Left)
    } else if s == "right"@ || s == "r"@ {
        Some(Direction::Right)
    } else {
        None
    }
}

/// Reads a direction.
pub fn read_direction(s: &str) -> (r: Option<Direction>)
    ensures
        r == direction_of(s@),
{
    if same(s, "up") || same(s, "u") {
        Some(Direction::Up)
    } else if same(s, "down") || same(s, "d") {
        Some(Direction::Down)
    } else if same(s, "left") || same(s, "l") {
        Some(Direction::Left)
    } else if same(s, "right") || same(s, "r") {
        Some(Direction::Right)
    } else {
        None
    }
}

/// The direction of a scroll, whose distance has to be finite where one is
/// given.
pub open spec fn scroll_check(direction: Seq<char>, pixels: Option<Real>) -> Result<
    Direction,
    FaultView,
> {
    if pixels is Some && !pixels->0.finite() {
        Err(general("scroll pixels must be finite"@))
    } else {
        match direction_of(trimmed(direction)) {
            Some(d) => Ok(d),
            None => Err(general("invalid scroll direction: "@ + trimmed(direction))),
        }
    }
}

/// Reads the direction of a scroll and checks its distance.
pub fn validate_scroll(direction: &str, pixels: Option<Real>) -> (r: Result<Direction, Fault>)
    ensures
        agrees(r, scroll_check(direction@, pixels)),
{
    if let Some(p) = pixels {
        if !p.is_finite() {
            return Err(Fault::of("scroll pixels must be finite"));
        }
    }
    let d = trim(direction);
    match read_direction(d) {
        Some(found) => Ok(found),
        None => {
            let mut message = "invalid scroll direction: ".to_owned();
            message.append(d);
            Err(Fault::new(message))
        },
    }
}

/// One step of carrying out a command.
#[derive(Clone, Copy, Debug, PartialEq, Eq, Structural)]
pub enum Step {
    /// Stop if the time is used up.
    Check,
    /// Stop unless the expected window is the active one.
    Focus,
    Move(Point),
    Press(i32),
    Release(i32),
    KeyDown(u32),
    KeyUp(u32),
    /// Scroll by a horizontal and a vertical distance.
    Axis(Real, Real),
}

/// Pressing keys one after another, each only after the window was verified.
pub open spec fn hold_steps(ks: Seq<u32>) -> Seq<Step>
    decreases ks.len(),
{
    if ks.len() == 0 {
        Seq::empty()
    } else {
        hold_steps(ks.drop_last()) + seq![Step::Check, Step::Focus, Step::KeyDown(ks.last())]
    }
}

/// Releasing keys in the reverse of the order in which they were pressed.
pub open spec fn release_steps(ks: Seq<u32>) -> Seq<Step>
    decreases ks.len(),
{
    if ks.len() == 0 {
        Seq::empty()
    } else {
        seq![Step::KeyUp(ks.last())] + release_steps(ks.drop_last())
    }
}

/// Clicking a button `n` times.
pub open spec fn click_steps(button: i32, n: nat) -> Seq<Step>
    decreases n,
{
    if n == 0 {
        Seq::empty()
    } else {
        click_steps(button, (n - 1) as nat) + seq![
            Step::Check,
            Step::Focus,
            Step::Press(button),
            Step::Release(button),
        ]
    }
}

/// Typing the characters of a text.
pub open spec fn type_steps(text: Seq<char>) -> Seq<Step>
    decreases text.len(),
{
    if text.len() == 0 {
        Seq::empty()
    } else {
        let k = keysym_of_char(text.last());
        type_steps(text.drop_last()) + seq![
            Step::Check,
            Step::Focus,
            Step::KeyDown(k),
            Step::KeyUp(k),
        ]
    }
}

/// Moving the pointer within the verified window.
pub open spec fn move_steps(p: Point) -> Seq<Step> {
    seq![Step::Focus, Step::Move(p)]
}

/// Dragging with the left button from one point to another.
pub open spec fn drag_steps(from: Point, to: Point) -> Seq<Step> {
    seq![
        Step::Focus,
        Step::Move(from),
        Step::Focus,
        Step::Press(BTN_LEFT),
        Step::Focus,
        Step::Move(to),
        Step::Focus,
        Step::Release(BTN_LEFT),
    ]
}

/// The modifier keys that are held during a command.
pub open spec fn modifiers(key: Option<Seq<char>>) -> Result<Seq<u32>, FaultView> {
    match key {
        Some(spec) => if trimmed(spec).len() == 0 {
            Ok(Seq::empty())
        } else {
            chord(spec)
        },
        None => Ok(Seq::empty()),
    }
}

/// What is held down after some steps: keys and buttons, in the order in which
/// they were pressed.
pub struct Held {
    pub keys: Seq<u32>,
    pub buttons: Seq<i32>,
}

/// What is held down after one more step; `None` where the step releases
/// something else than what was pressed last.
pub open spec fn held_after(h: Held, step: Step) -> Option<Held> {
    match step {
        Step::KeyDown(k) => Some(Held { keys: h.keys.push(k), ..h }),
        Step::KeyUp(k) => if h.keys.len() > 0 && h.keys.last() == k {
            Some(Held { keys: h.keys.drop_last(), ..h })
        } else {
            None
        },
        Step::Press(b) => Some(Held { buttons: h.buttons.push(b), ..h }),
        Step::Release(b) => if h.buttons.len() > 0 && h.buttons.last() == b {
            Some(Held { buttons: h.buttons.drop_last(), ..h })
        } else {
            None
        },
        _ => Some(h),
    }
}

/// What is held down after some steps that begin with `h` held.
pub open spec fn held(h: Held, steps: Seq<Step>) -> Option<Held>
    decreases steps.len(),
{
    if steps.len() == 0 {
        Some(h)
    } else {
        match held(h, steps.drop_last()) {
            Some(m) => held_after(m, steps.last()),
            None => None,
        }
    }
}

/// Nothing held down.
pub open spec fn nothing_held() -> Held {
    Held { keys: Seq::empty(), buttons: Seq::empty() }
}

/// Whether a step acts on the active window, other than by letting go.
pub open spec fn acts(step: Step) -> bool {
    step is Move || step is Press || step is KeyDown || step is Axis
}

/// Whether every step that acts comes right after a check of the active window.
pub open spec fn guarded(steps: Seq<Step>) -> bool {
    forall|i: int|
        0 <= i < steps.len() && acts(#[trigger] steps[i]) ==> i > 0 && steps[i - 1] == Step::Focus
}

/// Whether steps can be carried out: every action is guarded, and every
/// release lets go of what was pressed last.
pub open spec fn well_ordered(steps: Seq<Step>) -> bool {
    guarded(steps) && held(nothing_held(), steps) is Some
}

proof fn lemma_held_concat(h: Held, a: Seq<Step>, b: Seq<Step>)
    ensures
        held(h, a + b) == (match held(h, a) {
            Some(m) => held(m, b),
            None => None,
        }),
    decreases b.len(),
{
    if b.len() == 0 {
        assert(a + b =~= a);
    } else {
        assert((a + b).drop_last() =~= a + b.drop_last());
        lemma_held_concat(h, a, b.drop_last());
    }
}

proof fn lemma_guarded_concat(a: Seq<Step>, b: Seq<Step>)
    requires
        guarded(a),
        guarded(b),
    ensures
        guarded(a + b),
{
    assert forall|i: int| 0 <= i < (a + b).len() && acts(#[trigger] (a + b)[i]) implies i > 0 && (a
        + b)[i - 1] == Step::Focus by {
        if i >= a.len() {
            assert(acts(b[i - a.len()]));
        } else {
            assert(acts(a[i]));
        }
    }
}

proof fn lemma_hold_steps(h: Held, ks: Seq<u32>)
    ensures
        guarded(hold_steps(ks)),
        held(h, hold_steps(ks)) == Some(Held { keys: h.keys + ks, buttons: h.buttons }),
    decreases ks.len(),
{
    if ks.len() == 0 {
        assert(h.keys + ks =~= h.keys);
    } else {
        lemma_hold_steps(h, ks.drop_last());
        let three = seq![Step::Check, Step::Focus, Step::KeyDown(ks.last())];
        lemma_guarded_concat(hold_steps(ks.drop_last()), three);
        lemma_held_concat(h, hold_steps(ks.drop_last()), three);
        reveal_with_fuel(held, 4);
        assert(three.drop_last() =~= seq![Step::Check, Step::Focus]);
        assert(three.drop_last().drop_last() =~= seq![Step::Check]);
        assert((h.keys + ks.drop_last()).push(ks.last()) =~= h.keys + ks);
    }
}

proof fn lemma_release_steps(h: Held, ks: Seq<u32>)
    ensures
        guarded(release_steps(ks)),
        held(Held { keys: h.keys + ks, buttons: h.buttons }, release_steps(ks)) == Some(h),
    decreases ks.len(),
{
    let from = Held { keys: h.keys + ks, buttons: h.buttons };
    if ks.len() == 0 {
        assert(h.keys + ks =~= h.keys);
    } else {
        let one = seq![Step::KeyUp(ks.last())];
        lemma_release_steps(h, ks.drop_last());
        lemma_guarded_concat(one, release_steps(ks.drop_last()));
        lemma_held_concat(from, one, release_steps(ks.drop_last()));
        reveal_with_fuel(held, 2);
        assert(one.drop_last() =~= Seq::<Step>::empty());
        assert((h.keys + ks).drop_last() =~= h.keys + ks.drop_last());
    }
}

proof fn lemma_click_steps(h: Held, button: i32, n: nat)
    ensures
        guarded(click_steps(button, n)),
        held(h, click_steps(button, n)) == Some(h),
    decreases n,
{
    if n > 0 {
        let four = seq![Step::Check, Step::Focus, Step::Press(button), Step::Release(button)];
        lemma_click_steps(h, button, (n - 1) as nat);
        lemma_guarded_concat(click_steps(button, (n - 1) as nat), four);
        lemma_held_concat(h, click_steps(button, (n - 1) as nat), four);
        reveal_with_fuel(held, 5);
        assert(four.drop_last() =~= seq![Step::Check, Step::Focus, Step::Press(button)]);
        assert(four.drop_last().drop_last() =~= seq![Step::Check, Step::Focus]);
        assert(four.drop_last().drop_last().drop_last() =~= seq![Step::Check]);
        assert(h.buttons.push(button).drop_last() =~= h.buttons);
    }
}

proof fn lemma_type_steps(h: Held, text: Seq<char>)
    ensures
        guarded(type_steps(text)),
        held(h, type_steps(text)) == Some(h),
    decreases text.len(),
{
    if text.len() > 0 {
        let k = keysym_of_char(text.last());
        let four = seq![Step::Check, Step::Focus, Step::KeyDown(k), Step::KeyUp(k)];
        lemma_type_steps(h, text.drop_last());
        lemma_guarded_concat(type_steps(text.drop_last()), four);
        lemma_held_concat(h, type_steps(text.drop_last()), four);
        reveal_with_fuel(held, 5);
        assert(four.drop_last() =~= seq![Step::Check, Step::Focus, Step::KeyDown(k)]);
        assert(four.drop_last().drop_last() =~= seq![Step::Check, Step::Focus]);
        assert(four.drop_last().drop_last().drop_last() =~= seq![Step::Check]);
        assert(h.keys.push(k).drop_last() =~= h.keys);
    }
}

proof fn lemma_move_steps(h: Held, p: Point)
    ensures
        guarded(move_steps(p)),
        held(h, move_steps(p)) == Some(h),
{
    reveal_with_fuel(held, 3);
    assert(move_steps(p).drop_last() =~= seq![Step::Focus]);
}

proof fn lemma_axis_steps(h: Held, dx: Real, dy: Real)
    ensures
        guarded(seq![Step::Focus, Step::Axis(dx, dy)]),
        held(h, seq![Step::Focus, Step::Axis(dx, dy)]) == Some(h),
{
    reveal_with_fuel(held, 3);
    assert(seq![Step::Focus, Step::Axis(dx, dy)].drop_last() =~= seq![Step::Focus]);
}

proof fn lemma_drag_steps(h: Held, from: Point, to: Point)
    ensures
        guarded(drag_steps(from, to)),
        held(h, drag_steps(from, to)) == Some(h),
{
    let all = drag_steps(from, to);
    let press = seq![Step::Focus, Step::Press(BTN_LEFT)];
    let release = seq![Step::Focus, Step::Release(BTN_LEFT)];
    let mid = Held { keys: h.keys, buttons: h.buttons.push(BTN_LEFT) };
    assert(all =~= move_steps(from) + press + move_steps(to) + release);
    lemma_move_steps(h, from);
    lemma_held_concat(h, move_steps(from), press);
    reveal_with_fuel(held, 3);
    assert(press.drop_last() =~= seq![Step::Focus]);
    assert(held(h, press) == Some(mid));
    lemma_move_steps(mid, to);
    lemma_held_concat(h, move_steps(from) + press, move_steps(to));
    assert(release.drop_last() =~= seq![Step::Focus]);
    assert(h.buttons.push(BTN_LEFT).drop_last() =~= h.buttons);
    assert(held(mid, release) == Some(h));
    lemma_held_concat(h, move_steps(from) + press + move_steps(to), release);
}

/// A pointer or keyboard command for one window.
#[derive(Debug)]
#[allow(inconsistent_fields)]
pub enum Command<S> {
    Move { point: Point, window: S, key: Option<S> },
    Click {
        point: Point,
        window: S,
        mouse_button: Option<S>,
        click_count: Option<u32>,
        key: Option<S>,
    },
    Drag { from: Point, to: Point, window: S, key: Option<S> },
    Scroll {
        direction: S,
        window: S,
        pixels: Option<Real>,
        x: Option<Real>,
        y: Option<Real>,
        key: Option<S>,
    },
    PressKey { key: S, window: S },
    TypeText { text: S, window: S },
}

impl Command<String> {
    pub open spec fn view(self) -> Command<Seq<char>> {
        match self {
            Command::Move { point, window, key } => Command::Move {
                point,
                window: window@,
                key: opt_text(key),
            },
            Command::Click { point, window, mouse_button, click_count, key } => Command::Click {
                point,
                window: window@,
                mouse_button: opt_text(mouse_button),
                click_count,
                key: opt_text(key),
            },
            Command::Drag { from, to, window, key } => Command::Drag {
                from,
                to,
                window: window@,
                key: opt_text(key),
            },
            Command::Scroll { direction, window, pixels, x, y, key } => Command::Scroll {
                direction: direction@,
                window: window@,
                pixels,
                x,
                y,
                key: opt_text(key),
            },
            Command::PressKey { key, window } => Command::PressKey { key: key@, window: window@ },
            Command::TypeText { text, window } => Command::TypeText {
                text: text@,
                window: window@,
            },
        }
    }
}

/// The window that a command is meant for.
pub open spec fn window_of(c: Command<Seq<char>>) -> Seq<char> {
    match c {
        Command::Move { window, .. } => window,
        Command::Click { window, .. } => window,
        Command::Drag { window, .. } => window,
        Command::Scroll { window, .. } => window,
        Command::PressKey { window, .. } => window,
        Command::TypeText { window, .. } => window,
    }
}

/// Steps, or why there are none.
pub type Planned = Result<Seq<Step>, Refusal<FaultView>>;

/// The steps that follow where a point has to lie on the monitor.
pub open spec fn if_placed(p: Point, m: Monitor, rest: Planned) -> Planned {
    if placement_of(p, m) is Inside {
        rest
    } else {
        Err(Refusal::Misplaced(p, placement_of(p, m)))
    }
}

/// Steps with modifier keys held before them.
pub open spec fn with_modifiers(key: Option<Seq<char>>, steps: Seq<Step>) -> Planned {
    match modifiers(key) {
        Ok(ks) => Ok(hold_steps(ks) + steps),
        Err(e) => Err(Refusal::Fault(e)),
    }
}

/// The distance that is scrolled where none is given: 120.
pub open spec fn default_scroll() -> Real {
    double_of(120)
}

/// The horizontal and vertical distance of a scroll: the distance counts
/// without its sign, and up and left are negative.
pub open spec fn scroll_step(d: Direction, pixels: Option<Real>) -> Step {
    let distance = (match pixels {
        Some(p) => p,
        None => default_scroll(),
    }).without_sign();
    let zero = Real { bits: 0 };
    match d {
        Direction::Up => Step::Axis(zero, distance.opposite()),
        Direction::Down => Step::Axis(zero, distance),
        Direction::Left => Step::Axis(distance.opposite(), zero),
        Direction::Right => Step::Axis(distance, zero),
    }
}

/// The steps of a scroll, which first goes to a point where one is given.
pub open spec fn scroll_steps(p: Option<Point>, d: Direction, pixels: Option<Real>) -> Seq<Step> {
    match p {
        Some(p) => move_steps(p) + seq![Step::Focus, scroll_step(d, pixels)],
        None => seq![Step::Focus, scroll_step(d, pixels)],
    }
}

/// The steps that carry out a command, once its window is known to be named.
pub open spec fn steps_of(c: Command<Seq<char>>, m: Monitor) -> Planned {
    match c {
        Command::Move { point, key, .. } => if_placed(
            point,
            m,
            with_modifiers(key, move_steps(point)),
        ),
        Command::Click { point, mouse_button, click_count, key, .. } => if_placed(
            point,
            m,
            match (button_code(mouse_button), clicks(click_count)) {
                (Err(e), _) => Err(Refusal::Fault(e)),
                (_, Err(e)) => Err(Refusal::Fault(e)),
                (Ok(b), Ok(n)) => with_modifiers(
                    key,
                    move_steps(point) + click_steps(b, n as nat),
                ),
            },
        ),
        Command::Drag { from, to, key, .. } => if_placed(
            from,
            m,
            if_placed(to, m, with_modifiers(key, drag_steps(from, to))),
        ),
        Command::Scroll { direction, pixels, x, y, key, .. } => {
            let rest = |p: Option<Point>|
                match scroll_check(direction, pixels) {
                    Err(e) => Err(Refusal::Fault(e)),
                    Ok(d) => with_modifiers(key, scroll_steps(p, d, pixels)),
                };
            match (x, y) {
                (Some(x), Some(y)) => if_placed(Point { x, y }, m, rest(Some(Point { x, y }))),
                (None, None) => rest(None),
                _ => Err(
                    Refusal::Fault(general("scroll x and y must be provided together"@)),
                ),
            }
        },
        Command::PressKey { key, .. } => match chord(key) {
            Ok(ks) => Ok(hold_steps(ks) + release_steps(ks)),
            Err(e) => Err(Refusal::Fault(e)),
        },
        Command::TypeText { text, .. } => Ok(type_steps(text)),
    }
}

/// The steps that carry out a command: a command for no window is refused
/// before anything else is looked at.
pub open spec fn planned(c: Command<Seq<char>>, m: Monitor) -> Planned {
    match uuid_check(window_of(c)) {
        Err(e) => Err(Refusal::Fault(e)),
        Ok(()) => steps_of(c, m),
    }
}

/// Whether a plan is the one that `expected` describes.
pub open spec fn plan_agrees(r: Result<Vec<Step>, Refusal<Fault>>, expected: Planned) -> bool {
    match (r, expected) {
        (Ok(steps), Ok(model)) => steps@ == model,
        (Err(refusal), Err(model)) => refusal@ == model,
        _ => false,
    }
}

fn push_move(steps: &mut Vec<Step>, p: Point)
    ensures
        final(steps)@ == old(steps)@ + move_steps(p),
{
    steps.push(Step::Focus);
    steps.push(Step::Move(p));
    assert(steps@ =~= old(steps)@ + move_steps(p));
}

fn push_hold(steps: &mut Vec<Step>, ks: &Vec<u32>)
    ensures
        final(steps)@ == old(steps)@ + hold_steps(ks@),
{
    let mut i: usize = 0;
    assert(steps@ + hold_steps(ks@.take(0)) =~= steps@);
    while i < ks.len()
        invariant
            i <= ks@.len(),
            steps@ == old(steps)@ + hold_steps(ks@.take(i as int)),
        decreases ks@.len() - i,
    {
        let ghost before = steps@;
        assert(ks@.take(i + 1).drop_last() =~= ks@.take(i as int));
        steps.push(Step::Check);
        steps.push(Step::Focus);
        steps.push(Step::KeyDown(ks[i]));
        i += 1;
        assert(steps@ =~= old(steps)@ + hold_steps(ks@.take(i as int)));
    }
    assert(ks@.take(i as int) =~= ks@);
}

fn push_release(steps: &mut Vec<Step>, ks: &Vec<u32>)
    ensures
        final(steps)@ == old(steps)@ + release_steps(ks@),
{
    let mut i: usize = ks.len();
    assert(ks@.take(i as int) =~= ks@);
    while i > 0
        invariant
            i <= ks@.len(),
            steps@ + release_steps(ks@.take(i as int)) == old(steps)@ + release_steps(ks@),
        decreases i,
    {
        let ghost before = steps@;
        assert(ks@.take(i as int).drop_last() =~= ks@.take(i - 1));
        steps.push(Step::KeyUp(ks[i - 1]));
        i -= 1;
        assert(steps@ + release_steps(ks@.take(i as int)) =~= before + release_steps(
            ks@.take(i + 1),
        ));
    }
    assert(steps@ + release_steps(ks@.take(0)) =~= steps@);
}

fn push_clicks(steps: &mut Vec<Step>, button: i32, n: u32)
    ensures
        final(steps)@ == old(steps)@ + click_steps(button, n as nat),
{
    let mut i: u32 = 0;
    assert(steps@ + click_steps(button, 0) =~= steps@);
    while i < n
        invariant
            i <= n,
            steps@ == old(steps)@ + click_steps(button, i as nat),
        decreases n - i,
    {
        steps.push(Step::Check);
        steps.push(Step::Focus);
        steps.push(Step::Press(button));
        steps.push(Step::Release(button));
        i += 1;
        assert(steps@ =~= old(steps)@ + click_steps(button, i as nat));
    }
}

fn push_text(steps: &mut Vec<Step>, text: &str)
    ensures
        final(steps)@ == old(steps)@ + type_steps(text@),
{
    let chars = chars_of(text);
    let mut i: usize = 0;
    assert(steps@ + type_steps(text@.take(0)) =~= steps@);
    while i < chars.len()
        invariant
            i <= chars@.len(),
            chars@ == text@,
            steps@ == old(steps)@ + type_steps(text@.take(i as int)),
        decreases chars@.len() - i,
    {
        assert(text@.take(i + 1).drop_last() =~= text@.take(i as int));
        let k = char_to_keysym(chars[i]);
        steps.push(Step::Check);
        steps.push(Step::Focus);
        steps.push(Step::KeyDown(k));
        steps.push(Step::KeyUp(k));
        i += 1;
        assert(steps@ =~= old(steps)@ + type_steps(text@.take(i as int)));
    }
    assert(text@.take(i as int) =~= text@);
}

fn parse_modifiers(key: &Option<String>) -> (r: Result<Vec<u32>, Fault>)
    ensures
        agrees(r, modifiers(opt_text(*key))),
{
    match key {
        Some(spec) => if blank(spec.as_str()) {
            Ok(Vec::new())
        } else {
            parse_chord(spec.as_str())
        },
        None => Ok(Vec::new()),
    }
}

fn begin(key: &Option<String>) -> (r: Result<Vec<Step>, Refusal<Fault>>)
    ensures
        plan_agrees(r, with_modifiers(opt_text(*key), Seq::empty())),
        match r {
            Ok(steps) => modifiers(opt_text(*key)) is Ok && steps@ == hold_steps(
                modifiers(opt_text(*key))->Ok_0,
            ),
            Err(refusal) => modifiers(opt_text(*key)) is Err && refusal@ == Refusal::Fault(
                modifiers(opt_text(*key))->Err_0,
            ),
        },
{
    match parse_modifiers(key) {
        Ok(ks) => {
            let mut steps: Vec<Step> = Vec::new();
            push_hold(&mut steps, &ks);
            assert(steps@ =~= hold_steps(ks@));
            assert(steps@ =~= hold_steps(ks@) + Seq::<Step>::empty());
            Ok(steps)
        },
        Err(e) => Err(Refusal::Fault(e)),
    }
}

fn require_placed(p: Point, m: &Monitor) -> (r: Result<(), Refusal<Fault>>)
    ensures
        match r {
            Ok(()) => placement_of(p, *m) is Inside,
            Err(refusal) => placement_of(p, *m) !is Inside && refusal@ == Refusal::<
                FaultView,
            >::Misplaced(p, placement_of(p, *m)),
        },
{
    match place(p, m) {
        Placement::Inside => Ok(()),
        other => Err(Refusal::Misplaced(p, other)),
    }
}

fn plan_scroll(
    direction: &str,
    pixels: Option<Real>,
    p: Option<Point>,
    key: &Option<String>,
) -> (r: Result<Vec<Step>, Refusal<Fault>>)
    ensures
        plan_agrees(
            r,
            match scroll_check(direction@, pixels) {
                Err(e) => Err(Refusal::Fault(e)),
                Ok(d) => with_modifiers(opt_text(*key), scroll_steps(p, d, pixels)),
            },
        ),
{
    let d = match validate_scroll(direction, pixels) {
        Ok(d) => d,
        Err(e) => {
            return Err(Refusal::Fault(e));
        },
    };
    let mut steps = match begin(key) {
        Ok(steps) => steps,
        Err(e) => {
            return Err(e);
        },
    };
    let ghost base = steps@;
    if let Some(at) = p {
        push_move(&mut steps, at);
    }
    let distance = (match pixels {
        Some(n) => n,
        None => Real::from_natural(120),
    }).abs();
    let zero = Real { bits: 0 };
    steps.push(Step::Focus);
    match d {
        Direction::Up => steps.push(Step::Axis(zero, distance.negated())),
        Direction::Down => steps.push(Step::Axis(zero, distance)),
        Direction::Left => steps.push(Step::Axis(distance.negated(), zero)),
        Direction::Right => steps.push(Step::Axis(distance, zero)),
    }
    assert(steps@ =~= base + scroll_steps(p, d, pixels));
    Ok(steps)
}

/// Turns a command into the steps that carry it out, or refuses it.
pub fn plan(c: &Command<String>, m: &Monitor) -> (r: Result<Vec<Step>, Refusal<Fault>>)
    ensures
        plan_agrees(r, planned(c@, *m)),
{
    let window = match c {
        Command::Move { window, .. } => window,
        Command::Click { window, .. } => window,
        Command::Drag { window, .. } => window,
        Command::Scroll { window, .. } => window,
        Command::PressKey { window, .. } => window,
        Command::TypeText { window, .. } => window,
    };
    if let Err(e) = validate_expected_uuid(window.as_str()) {
        return Err(Refusal::Fault(e));
    }
    match c {
        Command::Move { point, key, .. } => {
            require_placed(*point, m)?;
            let mut steps = begin(key)?;
            push_move(&mut steps, *point);
            Ok(steps)
        },
        Command::Click { point, mouse_button, click_count, key, .. } => {
            require_placed(*point, m)?;
            let name = match mouse_button {
                Some(n) => Some(n.as_str()),
                None => None,
            };
            let button = match parse_mouse_button(name) {
                Ok(b) => b,
                Err(e) => {
                    return Err(Refusal::Fault(e));
                },
            };
            let count = match parse_click_count(*click_count) {
                Ok(n) => n,
                Err(e) => {
                    return Err(Refusal::Fault(e));
                },
            };
            let mut steps = begin(key)?;
            let ghost base = steps@;
            push_move(&mut steps, *point);
            push_clicks(&mut steps, button, count);
            assert(steps@ =~= base + (move_steps(*point) + click_steps(button, count as nat)));
            Ok(steps)
        },
        Command::Drag { from, to, key, .. } => {
            require_placed(*from, m)?;
            require_placed(*to, m)?;
            let mut steps = begin(key)?;
            let ghost base = steps@;
            push_move(&mut steps, *from);
            steps.push(Step::Focus);
            steps.push(Step::Press(BTN_LEFT));
            push_move(&mut steps, *to);
            steps.push(Step::Focus);
            steps.push(Step::Release(BTN_LEFT));
            assert(steps@ =~= base + drag_steps(*from, *to));
            Ok(steps)
        },
        Command::Scroll { direction, pixels, x, y, key, .. } => {
            let p = match (*x, *y) {
                (Some(x), Some(y)) => {
                    require_placed(Point { x, y }, m)?;
                    Some(Point { x, y })
                },
                (None, None) => None,
                _ => {
                    return Err(
                        Refusal::Fault(Fault::of("scroll x and y must be provided together")),
                    );
                },
            };
            plan_scroll(direction.as_str(), *pixels, p, key)
        },
        Command::PressKey { key, .. } => match parse_chord(key.as_str()) {
            Ok(ks) => {
                let mut steps: Vec<Step> = Vec::new();
                push_hold(&mut steps, &ks);
                push_release(&mut steps, &ks);
                assert(steps@ =~= hold_steps(ks@) + release_steps(ks@));
                Ok(steps)
            },
            Err(e) => Err(Refusal::Fault(e)),
        },
        Command::TypeText { text, .. } => {
            let mut steps: Vec<Step> = Vec::new();
            push_text(&mut steps, text.as_str());
            assert(steps@ =~= type_steps(text@));
            Ok(steps)
        },
    }
}

/// The keys that a command leaves held when its steps are done.
pub open spec fn held_at_end(c: Command<Seq<char>>) -> Seq<u32> {
    let key = match c {
        Command::Move { key, .. } => key,
        Command::Click { key, .. } => key,
        Command::Drag { key, .. } => key,
        Command::Scroll { key, .. } => key,
        _ => None,
    };
    match modifiers(key) {
        Ok(ks) => ks,
        Err(_) => Seq::empty(),
    }
}

proof fn lemma_with_modifiers(key: Option<Seq<char>>, steps: Seq<Step>)
    requires
        guarded(steps),
        forall|h: Held| held(h, steps) == Some(h),
    ensures
        match with_modifiers(key, steps) {
            Ok(all) => guarded(all) && held(nothing_held(), all) == Some(
                Held { keys: modifiers(key)->Ok_0, buttons: Seq::empty() },
            ),
            Err(_) => modifiers(key) is Err,
        },
{
    if let Ok(ks) = modifiers(key) {
        lemma_hold_steps(nothing_held(), ks);
        lemma_guarded_concat(hold_steps(ks), steps);
        lemma_held_concat(nothing_held(), hold_steps(ks), steps);
        assert(nothing_held().keys + ks =~= ks);
    }
}

/// Whatever the command, its steps touch the window only right after the
/// window was found to be the active one, let go of buttons and keys in the
/// reverse order of pressing, and end with no button held and no key but the
/// modifiers.
pub proof fn law_plans_are_well_ordered(c: Command<Seq<char>>, m: Monitor)
    requires
        planned(c, m) is Ok,
    ensures
        well_ordered(planned(c, m)->Ok_0),
        held(nothing_held(), planned(c, m)->Ok_0) == Some(
            Held { keys: held_at_end(c), buttons: Seq::empty() },
        ),
{
    match c {
        Command::Move { point, key, .. } => {
            assert forall|h: Held| held(h, move_steps(point)) == Some(h) by {
                lemma_move_steps(h, point);
            }
            lemma_move_steps(nothing_held(), point);
            lemma_with_modifiers(key, move_steps(point));
        },
        Command::Click { point, mouse_button, click_count, key, .. } => {
            let b = button_code(mouse_button)->Ok_0;
            let n = clicks(click_count)->Ok_0 as nat;
            let steps = move_steps(point) + click_steps(b, n);
            assert forall|h: Held| held(h, steps) == Some(h) by {
                lemma_move_steps(h, point);
                lemma_click_steps(h, b, n);
                lemma_held_concat(h, move_steps(point), click_steps(b, n));
            }
            lemma_move_steps(nothing_held(), point);
            lemma_click_steps(nothing_held(), b, n);
            lemma_guarded_concat(move_steps(point), click_steps(b, n));
            lemma_with_modifiers(key, steps);
        },
        Command::Drag { from, to, key, .. } => {
            assert forall|h: Held| held(h, drag_steps(from, to)) == Some(h) by {
                lemma_drag_steps(h, from, to);
            }
            lemma_drag_steps(nothing_held(), from, to);
            lemma_with_modifiers(key, drag_steps(from, to));
        },
        Command::Scroll { direction, pixels, x, y, key, .. } => {
            let p = match (x, y) {
                (Some(x), Some(y)) => Some(Point { x, y }),
                _ => None,
            };
            let d = scroll_check(direction, pixels)->Ok_0;
            let steps = scroll_steps(p, d, pixels);
            let last = seq![Step::Focus, scroll_step(d, pixels)];
            let (dx, dy) = match scroll_step(d, pixels) {
                Step::Axis(dx, dy) => (dx, dy),
                _ => (default_scroll(), default_scroll()),
            };
            assert forall|h: Held| held(h, steps) == Some(h) by {
                lemma_axis_steps(h, dx, dy);
                if let Some(at) = p {
                    lemma_move_steps(h, at);
                    lemma_held_concat(h, move_steps(at), last);
                }
            }
            lemma_axis_steps(nothing_held(), dx, dy);
            if let Some(at) = p {
                lemma_move_steps(nothing_held(), at);
                lemma_guarded_concat(move_steps(at), last);
            }
            lemma_with_modifiers(key, steps);
        },
        Command::PressKey { key, .. } => {
            let ks = chord(key)->Ok_0;
            lemma_hold_steps(nothing_held(), ks);
            lemma_release_steps(nothing_held(), ks);
            lemma_guarded_concat(hold_steps(ks), release_steps(ks));
            lemma_held_concat(nothing_held(), hold_steps(ks), release_steps(ks));
        },
        Command::TypeText { text, .. } => {
            lemma_type_steps(nothing_held(), text);
        },
    }
}

/// Where the pointer stands before the step of number `i`, once it was moved.
pub open spec fn pointer_at(steps: Seq<Step>, i: int) -> Option<Point>
    decreases i,
{
    if i <= 0 || i > steps.len() {
        None
    } else {
        match steps[i - 1] {
            Step::Move(p) => Some(p),
            _ => pointer_at(steps, i - 1),
        }
    }
}

/// The keys that are pressed, in order.
pub open spec fn keys_pressed(steps: Seq<Step>) -> Seq<u32>
    decreases steps.len(),
{
    if steps.len() == 0 {
        Seq::empty()
    } else {
        match steps.last() {
            Step::KeyDown(k) => keys_pressed(steps.drop_last()).push(k),
            _ => keys_pressed(steps.drop_last()),
        }
    }
}

/// The keys that are released, in order.
pub open spec fn keys_released(steps: Seq<Step>) -> Seq<u32>
    decreases steps.len(),
{
    if steps.len() == 0 {
        Seq::empty()
    } else {
        match steps.last() {
            Step::KeyUp(k) => keys_released(steps.drop_last()).push(k),
            _ => keys_released(steps.drop_last()),
        }
    }
}

/// The buttons that are pressed, in order.
pub open spec fn buttons_pressed(steps: Seq<Step>) -> Seq<i32>
    decreases steps.len(),
{
    if steps.len() == 0 {
        Seq::empty()
    } else {
        match steps.last() {
            Step::Press(b) => buttons_pressed(steps.drop_last()).push(b),
            _ => buttons_pressed(steps.drop_last()),
        }
    }
}

/// Whether a step touches the pointer.
pub open spec fn points(step: Step) -> bool {
    step is Move || step is Press || step is Release || step is Axis
}

/// Whether a step touches the keyboard.
pub open spec fn types(step: Step) -> bool {
    step is KeyDown || step is KeyUp
}

proof fn lemma_pressed_concat(a: Seq<Step>, b: Seq<Step>)
    ensures
        keys_pressed(a + b) == keys_pressed(a) + keys_pressed(b),
        keys_released(a + b) == keys_released(a) + keys_released(b),
        buttons_pressed(a + b) == buttons_pressed(a) + buttons_pressed(b),
    decreases b.len(),
{
    if b.len() == 0 {
        assert(a + b =~= a);
        assert(keys_pressed(a) + keys_pressed(b) =~= keys_pressed(a));
        assert(keys_released(a) + keys_released(b) =~= keys_released(a));
        assert(buttons_pressed(a) + buttons_pressed(b) =~= buttons_pressed(a));
    } else {
        assert((a + b).drop_last() =~= a + b.drop_last());
        lemma_pressed_concat(a, b.drop_last());
        assert(keys_pressed(a + b) =~= keys_pressed(a) + keys_pressed(b));
        assert(keys_released(a + b) =~= keys_released(a) + keys_released(b));
        assert(buttons_pressed(a + b) =~= buttons_pressed(a) + buttons_pressed(b));
    }
}

proof fn lemma_nothing_typed(steps: Seq<Step>)
    requires
        forall|i: int| 0 <= i < steps.len() ==> !types(#[trigger] steps[i]),
    ensures
        keys_pressed(steps) == Seq::<u32>::empty(),
        keys_released(steps) == Seq::<u32>::empty(),
    decreases steps.len(),
{
    if steps.len() > 0 {
        assert(!types(steps[steps.len() - 1]));
        assert forall|i: int| 0 <= i < steps.drop_last().len() implies !types(
            #[trigger] steps.drop_last()[i],
        ) by {
            assert(steps.drop_last()[i] == steps[i]);
        }
        lemma_nothing_typed(steps.drop_last());
    }
}

proof fn lemma_no_buttons(steps: Seq<Step>)
    requires
        forall|i: int| 0 <= i < steps.len() ==> (#[trigger] steps[i]) !is Press,
    ensures
        buttons_pressed(steps) == Seq::<i32>::empty(),
    decreases steps.len(),
{
    if steps.len() > 0 {
        assert(steps[steps.len() - 1] !is Press);
        assert forall|i: int| 0 <= i < steps.drop_last().len() implies (
        #[trigger] steps.drop_last()[i]) !is Press by {
            assert(steps.drop_last()[i] == steps[i]);
        }
        lemma_no_buttons(steps.drop_last());
    }
}

proof fn lemma_holding_presses(ks: Seq<u32>)
    ensures
        keys_pressed(hold_steps(ks)) == ks,
        keys_released(hold_steps(ks)) == Seq::<u32>::empty(),
        forall|i: int| 0 <= i < hold_steps(ks).len() ==> !points(#[trigger] hold_steps(ks)[i]),
    decreases ks.len(),
{
    if ks.len() > 0 {
        lemma_holding_presses(ks.drop_last());
        let before = hold_steps(ks.drop_last());
        let three = seq![Step::Check, Step::Focus, Step::KeyDown(ks.last())];
        lemma_pressed_concat(before, three);
        reveal_with_fuel(keys_pressed, 4);
        reveal_with_fuel(keys_released, 4);
        assert(three.drop_last() =~= seq![Step::Check, Step::Focus]);
        assert(three.drop_last().drop_last() =~= seq![Step::Check]);
        assert(keys_pressed(three) =~= seq![ks.last()]);
        assert(keys_released(three) =~= Seq::<u32>::empty());
        assert(keys_pressed(hold_steps(ks)) =~= ks);
        assert(keys_released(hold_steps(ks)) =~= Seq::<u32>::empty());
        assert forall|i: int| 0 <= i < hold_steps(ks).len() implies !points(
            #[trigger] hold_steps(ks)[i],
        ) by {
            if i < before.len() {
                assert(hold_steps(ks)[i] == before[i]);
            } else {
                assert(hold_steps(ks)[i] == three[i - before.len()]);
            }
        }
    } else {
        assert(keys_pressed(hold_steps(ks)) =~= ks);
    }
}

proof fn lemma_letting_go(ks: Seq<u32>)
    ensures
        keys_released(release_steps(ks)) == ks.reverse(),
        keys_pressed(release_steps(ks)) == Seq::<u32>::empty(),
        forall|i: int|
            0 <= i < release_steps(ks).len() ==> (#[trigger] release_steps(ks)[i]) is KeyUp,
    decreases ks.len(),
{
    if ks.len() > 0 {
        let one = seq![Step::KeyUp(ks.last())];
        let rest = release_steps(ks.drop_last());
        lemma_letting_go(ks.drop_last());
        lemma_pressed_concat(one, rest);
        reveal_with_fuel(keys_pressed, 2);
        reveal_with_fuel(keys_released, 2);
        assert(one.drop_last() =~= Seq::<Step>::empty());
        assert(keys_released(one) =~= seq![ks.last()]);
        assert(keys_pressed(one) =~= Seq::<u32>::empty());
        assert(keys_released(release_steps(ks)) =~= ks.reverse());
        assert(keys_pressed(release_steps(ks)) =~= Seq::<u32>::empty());
        assert forall|i: int| 0 <= i < release_steps(ks).len() implies (
        #[trigger] release_steps(ks)[i]) is KeyUp by {
            if i > 0 {
                assert(release_steps(ks)[i] == rest[i - 1]);
            }
        }
    } else {
        assert(keys_released(release_steps(ks)) =~= ks.reverse());
    }
}

/// Steps that follow on held keys find the pointer where they put it.
proof fn lemma_pointer_after_holding(ks: Seq<u32>, tail: Seq<Step>, i: int)
    requires
        0 <= i <= tail.len(),
    ensures
        pointer_at(hold_steps(ks) + tail, hold_steps(ks).len() + i) == pointer_at(tail, i),
    decreases i,
{
    let base = hold_steps(ks);
    let all = base + tail;
    if i == 0 {
        lemma_holding_presses(ks);
        lemma_never_moved(all, base.len() as int);
    } else {
        assert(all[base.len() + i - 1] == tail[i - 1]);
        lemma_pointer_after_holding(ks, tail, i - 1);
    }
}

proof fn lemma_never_moved(steps: Seq<Step>, i: int)
    requires
        0 <= i <= steps.len(),
        forall|j: int| 0 <= j < i ==> (#[trigger] steps[j]) !is Move,
    ensures
        pointer_at(steps, i) is None,
    decreases i,
{
    if i > 0 {
        assert(steps[i - 1] !is Move);
        lemma_never_moved(steps, i - 1);
    }
}

proof fn lemma_pointer_stays(steps: Seq<Step>, from: int, i: int)
    requires
        0 <= from <= i <= steps.len(),
        forall|j: int| from <= j < i ==> (#[trigger] steps[j]) !is Move,
    ensures
        pointer_at(steps, i) == pointer_at(steps, from),
    decreases i,
{
    if from < i {
        assert(steps[i - 1] !is Move);
        lemma_pointer_stays(steps, from, i - 1);
    }
}

/// The keys that a command is asked to hold: none where none is named, or
/// nothing but white space is.
pub open spec fn wanted_modifiers(key: Option<Seq<char>>) -> Seq<u32> {
    if key is None || trimmed(key->Some_0).len() == 0 {
        Seq::empty()
    } else {
        chord(key->Some_0)->Ok_0
    }
}

/// Whether the steps first press the keys that are to be held, in order and
/// releasing none, and touch the pointer only then.
pub open spec fn holds_first(steps: Seq<Step>, key: Option<Seq<char>>) -> bool {
    &&& keys_pressed(steps) == wanted_modifiers(key)
    &&& keys_released(steps) == Seq::<u32>::empty()
    &&& forall|i: int, j: int|
        0 <= i < steps.len() && 0 <= j < steps.len() && (#[trigger] steps[i]) is KeyDown && points(
            #[trigger] steps[j],
        ) ==> i < j
}

proof fn lemma_held_first(ks: Seq<u32>, tail: Seq<Step>)
    requires
        forall|i: int| 0 <= i < tail.len() ==> !types(#[trigger] tail[i]),
    ensures
        ({
            let all = hold_steps(ks) + tail;
            let n = hold_steps(ks).len() as int;
            &&& keys_pressed(all) == ks
            &&& keys_released(all) == Seq::<u32>::empty()
            &&& buttons_pressed(all) == buttons_pressed(tail)
            &&& forall|i: int| 0 <= i < n ==> !points(#[trigger] all[i])
            &&& forall|i: int| n <= i < all.len() ==> #[trigger] all[i] == tail[i - n]
            &&& forall|i: int, j: int|
                0 <= i < all.len() && 0 <= j < all.len() && (#[trigger] all[i]) is KeyDown
                    && points(#[trigger] all[j]) ==> i < j
            &&& forall|i: int|
                n <= i <= all.len() ==> #[trigger] pointer_at(all, i) == pointer_at(tail, i - n)
        }),
{
    let base = hold_steps(ks);
    let all = base + tail;
    lemma_holding_presses(ks);
    lemma_nothing_typed(tail);
    lemma_pressed_concat(base, tail);
    assert forall|i: int| 0 <= i < base.len() implies (#[trigger] base[i]) !is Press by {
        assert(!points(base[i]));
    }
    lemma_no_buttons(base);
    assert(keys_pressed(all) =~= ks);
    assert(keys_released(all) =~= Seq::<u32>::empty());
    assert(buttons_pressed(all) =~= buttons_pressed(tail));
    assert forall|i: int| 0 <= i < base.len() implies !points(#[trigger] all[i]) by {
        assert(all[i] == base[i]);
    }
    assert forall|i: int, j: int|
        0 <= i < all.len() && 0 <= j < all.len() && (#[trigger] all[i]) is KeyDown && points(
            #[trigger] all[j],
        ) implies i < j by {
        if i >= base.len() {
            assert(all[i] == tail[i - base.len()]);
        }
        if j < base.len() {
            assert(all[j] == base[j]);
        }
    }
    assert forall|i: int| base.len() <= i <= all.len() implies #[trigger] pointer_at(all, i)
        == pointer_at(tail, i - base.len()) by {
        lemma_pointer_after_holding(ks, tail, i - base.len());
    }
}

/// A move puts the pointer at the point that is given, and does nothing else.
pub proof fn law_moves_go_to_the_point(
    point: Point,
    window: Seq<char>,
    key: Option<Seq<char>>,
    m: Monitor,
)
    requires
        planned(Command::Move { point, window, key }, m) is Ok,
    ensures
        ({
            let steps = planned(Command::Move { point, window, key }, m)->Ok_0;
            &&& holds_first(steps, key)
            &&& pointer_at(steps, steps.len() as int) == Some(point)
            &&& forall|i: int|
                0 <= i < steps.len() && points(#[trigger] steps[i]) ==> steps[i] == Step::Move(
                    point,
                )
        }),
{
    let ks = modifiers(key)->Ok_0;
    lemma_held_first(ks, move_steps(point));
    reveal_with_fuel(pointer_at, 3);
}

proof fn lemma_clicking(b: i32, n: nat)
    ensures
        click_steps(b, n).len() == 4 * n,
        buttons_pressed(click_steps(b, n)) == Seq::new(n, |i: int| b),
        forall|i: int|
            0 <= i < 4 * n ==> #[trigger] click_steps(b, n)[i] == (if i % 4 == 0 {
                Step::Check
            } else if i % 4 == 1 {
                Step::Focus
            } else if i % 4 == 2 {
                Step::Press(b)
            } else {
                Step::Release(b)
            }),
    decreases n,
{
    if n > 0 {
        let before = click_steps(b, (n - 1) as nat);
        let four = seq![Step::Check, Step::Focus, Step::Press(b), Step::Release(b)];
        lemma_clicking(b, (n - 1) as nat);
        lemma_pressed_concat(before, four);
        reveal_with_fuel(buttons_pressed, 5);
        assert(four.drop_last() =~= seq![Step::Check, Step::Focus, Step::Press(b)]);
        assert(four.drop_last().drop_last() =~= seq![Step::Check, Step::Focus]);
        assert(four.drop_last().drop_last().drop_last() =~= seq![Step::Check]);
        assert(buttons_pressed(four) =~= seq![b]);
        assert(buttons_pressed(click_steps(b, n)) =~= Seq::new(n, |i: int| b));
        assert forall|i: int| 0 <= i < 4 * n implies #[trigger] click_steps(b, n)[i] == (if i % 4
            == 0 {
            Step::Check
        } else if i % 4 == 1 {
            Step::Focus
        } else if i % 4 == 2 {
            Step::Press(b)
        } else {
            Step::Release(b)
        }) by {
            if i < before.len() {
                assert(click_steps(b, n)[i] == before[i]);
            } else {
                assert(click_steps(b, n)[i] == four[i - before.len()]);
            }
        }
    } else {
        assert(buttons_pressed(click_steps(b, n)) =~= Seq::new(n, |i: int| b));
    }
}

/// A click presses the button that is named, or the left one, as often as is
/// asked for, or once, while the pointer stands at the point that is given, and
/// lets go of it at once each time.
pub proof fn law_clicks_press_at_the_point(
    point: Point,
    window: Seq<char>,
    mouse_button: Option<Seq<char>>,
    click_count: Option<u32>,
    key: Option<Seq<char>>,
    m: Monitor,
)
    requires
        planned(Command::Click { point, window, mouse_button, click_count, key }, m) is Ok,
    ensures
        ({
            let steps = planned(
                Command::Click { point, window, mouse_button, click_count, key },
                m,
            )->Ok_0;
            &&& holds_first(steps, key)
            &&& buttons_pressed(steps).len() == (match click_count {
                Some(n) => n as nat,
                None => 1,
            })
            &&& 1 <= buttons_pressed(steps).len() <= 3
            &&& forall|i: int|
                0 <= i < steps.len() ==> match #[trigger] steps[i] {
                    Step::Press(b) => {
                        &&& pointer_at(steps, i) == Some(point)
                        &&& i + 1 < steps.len() && steps[i + 1] == Step::Release(b)
                        &&& {
                            ||| b == 0x110 && (mouse_button is None || mouse_button == Some(
                                "left"@,
                            ) || mouse_button == Some("l"@))
                            ||| b == 0x111 && (mouse_button == Some("right"@) || mouse_button
                                == Some("r"@))
                            ||| b == 0x112 && (mouse_button == Some("middle"@) || mouse_button
                                == Some("m"@))
                        }
                    },
                    Step::Move(p) => p == point,
                    Step::Axis(_, _) => false,
                    _ => true,
                }
        }),
{
    let ks = modifiers(key)->Ok_0;
    let b = button_code(mouse_button)->Ok_0;
    let n = clicks(click_count)->Ok_0 as nat;
    let tail = move_steps(point) + click_steps(b, n);
    let all = hold_steps(ks) + tail;
    let base = hold_steps(ks).len() as int;
    lemma_clicking(b, n);
    assert forall|i: int| 2 <= i < tail.len() implies #[trigger] tail[i] == click_steps(b, n)[i
        - 2] by {}
    assert(tail[0] == Step::Focus && tail[1] == Step::Move(point));
    lemma_held_first(ks, tail);
    lemma_pressed_concat(move_steps(point), click_steps(b, n));
    lemma_no_buttons(move_steps(point));
    assert(buttons_pressed(all) =~= Seq::new(n, |i: int| b));
    assert forall|i: int| 2 <= i <= tail.len() implies #[trigger] pointer_at(tail, i) == Some(
        point,
    ) by {
        lemma_pointer_stays(tail, 2, i);
    }
    assert forall|i: int| 0 <= i < all.len() && (#[trigger] all[i]) is Press implies {
        &&& pointer_at(all, i) == Some(point)
        &&& i + 1 < all.len() && all[i + 1] == Step::Release(b)
        &&& all[i] == Step::Press(b)
    } by {
        assert(base <= i);
        let k = i - base;
        assert(all[i] == tail[k]);
        assert(tail[k] == click_steps(b, n)[k - 2]);
        assert(k + 1 < tail.len());
        assert(tail[k + 1] == click_steps(b, n)[k - 1]);
        assert(all[i + 1] == tail[k + 1]);
        assert(pointer_at(tail, k) == Some(point));
    }
    assert forall|i: int| 0 <= i < all.len() implies match #[trigger] all[i] {
        Step::Move(p) => p == point,
        Step::Axis(_, _) => false,
        _ => true,
    } by {
        if base <= i {
            assert(all[i] == tail[i - base]);
            if i - base >= 2 {
                assert(tail[i - base] == click_steps(b, n)[i - base - 2]);
            }
        } else {
            assert(!points(all[i]));
        }
    }
}

/// A drag takes what lies at the first point to the second: the pointer stands
/// at the first when the left button is pressed, which it is once, and at the
/// second when it is released, with which the steps end.
pub proof fn law_drags_go_from_the_first_point_to_the_second(
    from: Point,
    to: Point,
    window: Seq<char>,
    key: Option<Seq<char>>,
    m: Monitor,
)
    requires
        planned(Command::Drag { from, to, window, key }, m) is Ok,
    ensures
        ({
            let steps = planned(Command::Drag { from, to, window, key }, m)->Ok_0;
            &&& holds_first(steps, key)
            &&& buttons_pressed(steps) == seq![0x110i32]
            &&& steps.last() == Step::Release(0x110)
            &&& forall|i: int|
                0 <= i < steps.len() ==> match #[trigger] steps[i] {
                    Step::Press(_) => pointer_at(steps, i) == Some(from),
                    Step::Release(_) => pointer_at(steps, i) == Some(to),
                    Step::Move(p) => p == from || p == to,
                    Step::Axis(_, _) => false,
                    _ => true,
                }
        }),
{
    let ks = modifiers(key)->Ok_0;
    let tail = drag_steps(from, to);
    let all = hold_steps(ks) + tail;
    let base = hold_steps(ks).len() as int;
    lemma_held_first(ks, tail);
    let first = seq![Step::Focus, Step::Move(from), Step::Focus];
    let middle = seq![Step::Press(BTN_LEFT)];
    let last = seq![Step::Focus, Step::Move(to), Step::Focus, Step::Release(BTN_LEFT)];
    assert(tail =~= first + middle + last);
    lemma_pressed_concat(first + middle, last);
    lemma_pressed_concat(first, middle);
    lemma_no_buttons(first);
    lemma_no_buttons(last);
    assert(middle.drop_last() =~= Seq::<Step>::empty());
    reveal_with_fuel(buttons_pressed, 2);
    assert(buttons_pressed(all) =~= seq![0x110i32]);
    assert(pointer_at(tail, 3) == Some(from)) by {
        reveal_with_fuel(pointer_at, 3);
    }
    assert(pointer_at(tail, 7) == Some(to)) by {
        reveal_with_fuel(pointer_at, 3);
    }
    assert(all.last() == tail[7]);
    assert forall|i: int| 0 <= i < all.len() implies match #[trigger] all[i] {
        Step::Press(_) => pointer_at(all, i) == Some(from),
        Step::Release(_) => pointer_at(all, i) == Some(to),
        Step::Move(p) => p == from || p == to,
        Step::Axis(_, _) => false,
        _ => true,
    } by {
        if base <= i {
            assert(all[i] == tail[i - base]);
            assert(pointer_at(all, i) == pointer_at(tail, i - base));
        } else {
            assert(!points(all[i]));
        }
    }
}

/// A scroll ends with one turn of the wheel, by the distance that is given
/// without its sign, or by 120: downwards and to the right it is positive,
/// upwards and to the left negative, and across the direction it is zero. It
/// happens where the pointer was moved to, where a point is given; otherwise
/// the pointer is not moved.
pub proof fn law_scrolls_turn_in_the_direction(
    direction: Seq<char>,
    window: Seq<char>,
    pixels: Option<Real>,
    x: Option<Real>,
    y: Option<Real>,
    key: Option<Seq<char>>,
    m: Monitor,
)
    requires
        planned(Command::Scroll { direction, window, pixels, x, y, key }, m) is Ok,
    ensures
        ({
            let steps = planned(
                Command::Scroll { direction, window, pixels, x, y, key },
                m,
            )->Ok_0;
            let d = trimmed(direction);
            let given = match pixels {
                Some(p) => p.units(),
                None => 120 * (vstd::arithmetic::power2::pow2(1074) as int),
            };
            let distance = if given < 0 {
                -given
            } else {
                given
            };
            &&& holds_first(steps, key)
            &&& steps.len() > 0
            &&& steps.last() matches Step::Axis(dx, dy) && {
                &&& dx.finite() && dy.finite()
                &&& {
                    ||| (d == "down"@ || d == "d"@) && dx.units() == 0 && dy.units() == distance
                    ||| (d == "up"@ || d == "u"@) && dx.units() == 0 && dy.units() == -distance
                    ||| (d == "right"@ || d == "r"@) && dx.units() == distance && dy.units() == 0
                    ||| (d == "left"@ || d == "l"@) && dx.units() == -distance && dy.units() == 0
                }
            }
            &&& forall|i: int|
                0 <= i < steps.len() - 1 ==> match #[trigger] steps[i] {
                    Step::Move(p) => Some(p.x) == x && Some(p.y) == y,
                    other => !points(other),
                }
            &&& match (x, y) {
                (Some(x), Some(y)) => pointer_at(steps, steps.len() - 1) == Some(Point { x, y }),
                (None, None) => pointer_at(steps, steps.len() - 1) is None,
                _ => false,
            }
        }),
{
    let ks = modifiers(key)->Ok_0;
    let p = match (x, y) {
        (Some(x), Some(y)) => Some(Point { x, y }),
        _ => None,
    };
    let d = scroll_check(direction, pixels)->Ok_0;
    let tail = scroll_steps(p, d, pixels);
    let all = hold_steps(ks) + tail;
    let base = hold_steps(ks).len() as int;
    let far = match pixels {
        Some(p) => p,
        None => default_scroll(),
    };
    lemma_held_first(ks, tail);
    crate::binary64::lemma_small_doubles();
    crate::binary64::law_signs_are_turned(far);
    crate::binary64::law_signs_are_turned(far.without_sign());
    assert(all.last() == tail[tail.len() - 1]);
    assert(Real { bits: 0 }.units() == 0 && Real { bits: 0 }.finite());
    reveal_with_fuel(pointer_at, 4);
    assert(pointer_at(all, all.len() - 1) == pointer_at(tail, tail.len() - 1));
    assert forall|i: int| 0 <= i < all.len() - 1 implies match #[trigger] all[i] {
        Step::Move(p) => Some(p.x) == x && Some(p.y) == y,
        other => !points(other),
    } by {
        if base <= i {
            assert(all[i] == tail[i - base]);
        } else {
            assert(!points(all[i]));
        }
    }
}

/// Scrolling up and down, or left and right, by the same distance cancels out,
/// and nothing but the direction differs.
pub proof fn law_opposite_scrolls_cancel_out(
    one: Seq<char>,
    other: Seq<char>,
    window: Seq<char>,
    pixels: Option<Real>,
    x: Option<Real>,
    y: Option<Real>,
    key: Option<Seq<char>>,
    m: Monitor,
)
    requires
        one == "up"@ && other == "down"@ || one == "left"@ && other == "right"@,
        planned(Command::Scroll { direction: one, window, pixels, x, y, key }, m) is Ok,
    ensures
        ({
            let a = planned(Command::Scroll { direction: one, window, pixels, x, y, key }, m);
            let b = planned(Command::Scroll { direction: other, window, pixels, x, y, key }, m);
            &&& b is Ok
            &&& a->Ok_0.drop_last() == b->Ok_0.drop_last()
            &&& (a->Ok_0.last(), b->Ok_0.last()) matches (Step::Axis(ax, ay), Step::Axis(bx, by))
                && ax.units() + bx.units() == 0 && ay.units() + by.units() == 0
        }),
{
    reveal_strlit("up");
    reveal_strlit("down");
    reveal_strlit("left");
    reveal_strlit("right");
    reveal_strlit("u");
    reveal_strlit("d");
    reveal_strlit("l");
    reveal_strlit("r");
    crate::text::lemma_trimmed_keeps(one);
    crate::text::lemma_trimmed_keeps(other);
    let far = match pixels {
        Some(p) => p,
        None => default_scroll(),
    };
    crate::binary64::law_signs_are_turned(far.without_sign());
    let ks = modifiers(key)->Ok_0;
    let p = match (x, y) {
        (Some(x), Some(y)) => Some(Point { x, y }),
        _ => None,
    };
    let a = hold_steps(ks) + scroll_steps(p, scroll_check(one, pixels)->Ok_0, pixels);
    let b = hold_steps(ks) + scroll_steps(p, scroll_check(other, pixels)->Ok_0, pixels);
    assert(a.drop_last() =~= b.drop_last());
}

/// A key press presses the keys of its chord in their order and lets go of them
/// in the reverse order, once all of them are pressed, without touching the
/// pointer.
pub proof fn law_chords_are_pressed_and_released(key: Seq<char>, window: Seq<char>, m: Monitor)
    requires
        planned(Command::PressKey { key, window }, m) is Ok,
    ensures
        ({
            let steps = planned(Command::PressKey { key, window }, m)->Ok_0;
            let ks = chord(key)->Ok_0;
            &&& chord(key) is Ok
            &&& keys_pressed(steps) == ks
            &&& keys_released(steps) == ks.reverse()
            &&& forall|i: int| 0 <= i < steps.len() ==> !points(#[trigger] steps[i])
            &&& forall|i: int, j: int|
                0 <= i < steps.len() && 0 <= j < steps.len() && (#[trigger] steps[i]) is KeyDown
                    && (#[trigger] steps[j]) is KeyUp ==> i < j
        }),
{
    let ks = chord(key)->Ok_0;
    let a = hold_steps(ks);
    let b = release_steps(ks);
    let steps = a + b;
    lemma_holding_presses(ks);
    lemma_letting_go(ks);
    lemma_pressed_concat(a, b);
    lemma_no_key_up(ks);
    assert(keys_pressed(steps) =~= ks);
    assert(keys_released(steps) =~= ks.reverse());
    assert forall|i: int| 0 <= i < steps.len() implies !points(#[trigger] steps[i]) by {
        if i < a.len() {
            assert(steps[i] == a[i]);
        } else {
            assert(steps[i] == b[i - a.len()]);
        }
    }
    assert forall|i: int, j: int|
        0 <= i < steps.len() && 0 <= j < steps.len() && (#[trigger] steps[i]) is KeyDown && (
        #[trigger] steps[j]) is KeyUp implies i < j by {
        if i >= a.len() {
            assert(steps[i] == b[i - a.len()]);
        }
        if j < a.len() {
            assert(steps[j] == a[j]);
        }
    }
}

proof fn lemma_no_key_up(ks: Seq<u32>)
    ensures
        forall|i: int| 0 <= i < hold_steps(ks).len() ==> (#[trigger] hold_steps(ks)[i]) !is KeyUp,
    decreases ks.len(),
{
    if ks.len() > 0 {
        let before = hold_steps(ks.drop_last());
        let three = seq![Step::Check, Step::Focus, Step::KeyDown(ks.last())];
        lemma_no_key_up(ks.drop_last());
        assert forall|i: int| 0 <= i < hold_steps(ks).len() implies (
        #[trigger] hold_steps(ks)[i]) !is KeyUp by {
            if i < before.len() {
                assert(hold_steps(ks)[i] == before[i]);
            } else {
                assert(hold_steps(ks)[i] == three[i - before.len()]);
            }
        }
    }
}

/// Typing presses the keys of the characters of the text, one for each and in
/// their order, and lets go of each before the next one, without touching the
/// pointer.
pub proof fn law_texts_are_typed_in_order(text: Seq<char>, window: Seq<char>, m: Monitor)
    requires
        trimmed(window).len() > 0,
    ensures
        ({
            let steps = planned(Command::TypeText { text, window }, m)->Ok_0;
            &&& planned(Command::TypeText { text, window }, m) is Ok
            &&& keys_pressed(steps) == text.map_values(|c: char| keysym_of_char(c))
            &&& keys_released(steps) == keys_pressed(steps)
            &&& forall|i: int|
                0 <= i < steps.len() ==> !points(#[trigger] steps[i]) && (steps[i] matches
                Step::KeyDown(k) ==> i + 1 < steps.len() && steps[i + 1] == Step::KeyUp(k))
        }),
{
    lemma_typing(text);
}

proof fn lemma_typing(text: Seq<char>)
    ensures
        ({
            let steps = type_steps(text);
            &&& keys_pressed(steps) == text.map_values(|c: char| keysym_of_char(c))
            &&& keys_released(steps) == keys_pressed(steps)
            &&& forall|i: int|
                0 <= i < steps.len() ==> !points(#[trigger] steps[i]) && (steps[i] matches
                Step::KeyDown(k) ==> i + 1 < steps.len() && steps[i + 1] == Step::KeyUp(k))
        }),
    decreases text.len(),
{
    let steps = type_steps(text);
    let wanted = text.map_values(|c: char| keysym_of_char(c));
    if text.len() > 0 {
        let before = type_steps(text.drop_last());
        let k = keysym_of_char(text.last());
        let four = seq![Step::Check, Step::Focus, Step::KeyDown(k), Step::KeyUp(k)];
        lemma_typing(text.drop_last());
        lemma_pressed_concat(before, four);
        reveal_with_fuel(keys_pressed, 5);
        reveal_with_fuel(keys_released, 5);
        assert(four.drop_last() =~= seq![Step::Check, Step::Focus, Step::KeyDown(k)]);
        assert(four.drop_last().drop_last() =~= seq![Step::Check, Step::Focus]);
        assert(four.drop_last().drop_last().drop_last() =~= seq![Step::Check]);
        assert(keys_pressed(four) =~= seq![k]);
        assert(keys_released(four) =~= seq![k]);
        assert(text.drop_last().map_values(|c: char| keysym_of_char(c)).push(k) =~= wanted);
        assert(keys_pressed(steps) =~= wanted);
        assert(keys_released(steps) =~= wanted);
        assert forall|i: int| 0 <= i < steps.len() implies !points(#[trigger] steps[i]) && (steps[i]
            matches Step::KeyDown(k) ==> i + 1 < steps.len() && steps[i + 1] == Step::KeyUp(
            k,
        )) by {
            if i < before.len() {
                assert(steps[i] == before[i]);
                if before[i] is KeyDown {
                    assert(steps[i + 1] == before[i + 1]);
                }
            } else {
                assert(steps[i] == four[i - before.len()]);
            }
        }
    } else {
        assert(keys_pressed(steps) =~= wanted);
    }
}

/// A point is on the monitor just where both its coordinates are numbers from
/// the monitor's origin on and below its far edge.
pub proof fn law_points_lie_on_the_monitor(p: Point, m: Monitor)
    ensures
        placement_of(p, m) is NotFinite <==> !(p.x.finite() && p.y.finite()),
        placement_of(p, m) is Inside <==> {
            let one = vstd::arithmetic::power2::pow2(1074) as int;
            &&& p.x.finite() && p.y.finite()
            &&& m.origin_x * one <= p.x.units() < (m.origin_x + m.width) * one
            &&& m.origin_y * one <= p.y.units() < (m.origin_y + m.height) * one
        },
{
}

/// The monitor is that of the one stream that there is, at its position and of
/// its size, which must not be empty.
pub proof fn law_the_monitor_is_that_of_the_stream(streams: Seq<StreamGeometry>)
    ensures
        match monitor_of(streams) {
            Ok(m) => {
                &&& streams.len() == 1
                &&& streams[0].position == Some((m.origin_x, m.origin_y))
                &&& streams[0].size == Some((m.width, m.height))
                &&& m.width > 0 && m.height > 0
            },
            Err(_) => streams.len() != 1 || streams[0].position is None || streams[0].size is None
                || streams[0].size->Some_0.0 <= 0 || streams[0].size->Some_0.1 <= 0,
        },
{
}

/// Whether the keys that are to be held can be told.
pub open spec fn can_hold(key: Option<Seq<char>>) -> bool {
    key is None || trimmed(key->Some_0).len() == 0 || chord(key->Some_0) is Ok
}

/// A command is carried out just where its window is named, all of its points
/// lie on the monitor, its keys are known, and what it asks for is something
/// that can be done; otherwise it is refused before anything is sent.
pub proof fn law_what_can_be_done_is_planned(c: Command<Seq<char>>, m: Monitor)
    ensures
        planned(c, m) is Ok <==> match c {
            Command::Move { point, window, key } => {
                &&& trimmed(window).len() > 0
                &&& placement_of(point, m) is Inside
                &&& can_hold(key)
            },
            Command::Click { point, window, mouse_button, click_count, key } => {
                &&& trimmed(window).len() > 0
                &&& placement_of(point, m) is Inside
                &&& can_hold(key)
                &&& click_count is None || 1 <= click_count->Some_0 <= 3
                &&& mouse_button matches Some(b) ==> b == "left"@ || b == "l"@ || b == "right"@ || b
                    == "r"@ || b == "middle"@ || b == "m"@
            },
            Command::Drag { from, to, window, key } => {
                &&& trimmed(window).len() > 0
                &&& placement_of(from, m) is Inside && placement_of(to, m) is Inside
                &&& can_hold(key)
            },
            Command::Scroll { direction, window, pixels, x, y, key } => {
                let d = trimmed(direction);
                &&& trimmed(window).len() > 0
                &&& x is Some <==> y is Some
                &&& x is Some && y is Some ==> placement_of(
                    Point { x: x->Some_0, y: y->Some_0 },
                    m,
                ) is Inside
                &&& pixels is None || pixels->Some_0.finite()
                &&& d == "up"@ || d == "u"@ || d == "down"@ || d == "d"@ || d == "left"@ || d == "l"@
                    || d == "right"@ || d == "r"@
                &&& can_hold(key)
            },
            Command::PressKey { key, window } => trimmed(window).len() > 0 && chord(key) is Ok,
            Command::TypeText { text, window } => trimmed(window).len() > 0,
        },
{
}

/// A command is taken for what it says: its points, its distance and its number
/// as they are, and its texts by their characters.
pub proof fn law_commands_are_taken_as_given(c: Command<String>)
    ensures
        match (c, c@) {
            (
                Command::Move { point, window, key },
                Command::Move { point: p, window: w, key: k },
            ) => p == point && w == window@ && k == opt_text(key),
            (
                Command::Click { point, window, mouse_button, click_count, key },
                Command::Click {
                    point: p,
                    window: w,
                    mouse_button: b,
                    click_count: n,
                    key: k,
                },
            ) => p == point && w == window@ && b == opt_text(mouse_button) && n == click_count && k
                == opt_text(key),
            (
                Command::Drag { from, to, window, key },
                Command::Drag { from: f, to: t, window: w, key: k },
            ) => f == from && t == to && w == window@ && k == opt_text(key),
            (
                Command::Scroll { direction, window, pixels, x, y, key },
                Command::Scroll { direction: d, window: w, pixels: n, x: a, y: b, key: k },
            ) => d == direction@ && w == window@ && n == pixels && a == x && b == y && k
                == opt_text(key),
            (
                Command::PressKey { key, window },
                Command::PressKey { key: k, window: w },
            ) => k == key@ && w == window@,
            (
                Command::TypeText { text, window },
                Command::TypeText { text: t, window: w },
            ) => t == text@ && w == window@,
            _ => false,
        },
        opt_text(None) is None,
        forall|s: String| opt_text(Some(s)) == Some(#[trigger] s@),
{
}

} // verus!
