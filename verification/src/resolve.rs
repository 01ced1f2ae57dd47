//! Getting from the name of an application to its window: finding it,
//! launching it where it does not run, and bringing it to the front.

use crate::apps::{is_desktop_app_not_found, AppView, DesktopApp};
use crate::engine::{
    app_check, canonical_identity, goes_by, normalize_app, requested, requested_identity,
    window_identity,
};
use crate::fault::{general, Fault, FaultKind, FaultView};
use crate::kwin::{identity, is_window_not_found, normal, WindowInfo, WindowView};
use crate::text::{lowercase, quote, quoted, same, trimmed};
use vstd::prelude::*;

verus! {

/// How long, in nanoseconds, a launched application may take to show a window.
pub const LAUNCH_TIMEOUT_NS: u64 = 20_000_000_000;

/// How long to wait, in milliseconds, before looking for the window again.
pub const LAUNCH_POLL_MS: u64 = 250;

/// What has to be done next.
#[derive(Debug)]
pub enum Need<S, A, W> {
    /// Find the installed application that a query stands for.
    App(S),
    /// Find the window that a query stands for.
    Window(S),
    Launch(A),
    /// Wait so many milliseconds.
    Pause(u64),
    /// Bring a window to the front.
    Activate(W),
}

/// How far the way is gone.
#[derive(Debug)]
pub enum Stage<S, A, W> {
    Alias,
    Window { alias: Option<A>, lookup: S },
    App { lookup: S },
    Launch { desktop: A, lookup: S },
    Appear { desktop: A, lookup: S, deadline: u64 },
    Pause { desktop: A, lookup: S, deadline: u64 },
    Activate { window: W },
}

/// The way from the name of an application to its window.
#[derive(Debug)]
pub struct Resolution<S, A, W> {
    pub app: S,
    pub stage: Stage<S, A, W>,
}

/// What came of what had to be done.
#[derive(Debug)]
pub enum Answer<A, W, F> {
    App(Result<A, F>),
    Window(Result<W, F>),
    Done(Result<(), F>),
}

/// What follows.
#[derive(Debug)]
pub enum Turn<S, A, W, F> {
    Ask(Need<S, A, W>, Resolution<S, A, W>),
    Done(Result<W, F>),
}

/// What has to be done, in the model.
pub type NeedView = Need<Seq<char>, AppView, WindowView>;

/// How far the way is gone, in the model.
pub type StageView = Stage<Seq<char>, AppView, WindowView>;

/// The way, in the model.
pub type ResolutionView = Resolution<Seq<char>, AppView, WindowView>;

/// What came of what had to be done, in the model.
pub type AnswerView = Answer<AppView, WindowView, FaultView>;

/// What follows, in the model.
pub type TurnView = Turn<Seq<char>, AppView, WindowView, FaultView>;

impl Need<String, DesktopApp, WindowInfo> {
    pub open spec fn view(self) -> NeedView {
        match self {
            Need::App(s) => Need::App(s@),
            Need::Window(s) => Need::Window(s@),
            Need::Launch(a) => Need::Launch(a@),
            Need::Pause(ms) => Need::Pause(ms),
            Need::Activate(w) => Need::Activate(w@),
        }
    }
}

impl Stage<String, DesktopApp, WindowInfo> {
    pub open spec fn view(self) -> StageView {
        match self {
            Stage::Alias => Stage::Alias,
            Stage::Window { alias, lookup } => Stage::Window {
                alias: match alias {
                    Some(a) => Some(a@),
                    None => None,
                },
                lookup: lookup@,
            },
            Stage::App { lookup } => Stage::App { lookup: lookup@ },
            Stage::Launch { desktop, lookup } => Stage::Launch {
                desktop: desktop@,
                lookup: lookup@,
            },
            Stage::Appear { desktop, lookup, deadline } => Stage::Appear {
                desktop: desktop@,
                lookup: lookup@,
                deadline,
            },
            Stage::Pause { desktop, lookup, deadline } => Stage::Pause {
                desktop: desktop@,
                lookup: lookup@,
                deadline,
            },
            Stage::Activate { window } => Stage::Activate { window: window@ },
        }
    }
}

impl Resolution<String, DesktopApp, WindowInfo> {
    pub open spec fn view(self) -> ResolutionView {
        Resolution { app: self.app@, stage: self.stage@ }
    }
}

impl Answer<DesktopApp, WindowInfo, Fault> {
    pub open spec fn view(self) -> AnswerView {
        match self {
            Answer::App(Ok(a)) => Answer::App(Ok(a@)),
            Answer::App(Err(f)) => Answer::App(Err(f@)),
            Answer::Window(Ok(w)) => Answer::Window(Ok(w@)),
            Answer::Window(Err(f)) => Answer::Window(Err(f@)),
            Answer::Done(Ok(())) => Answer::Done(Ok(())),
            Answer::Done(Err(f)) => Answer::Done(Err(f@)),
        }
    }
}

impl Turn<String, DesktopApp, WindowInfo, Fault> {
    pub open spec fn view(self) -> TurnView {
        match self {
            Turn::Ask(need, way) => Turn::Ask(need@, way@),
            Turn::Done(Ok(w)) => Turn::Done(Ok(w@)),
            Turn::Done(Err(f)) => Turn::Done(Err(f@)),
        }
    }
}

/// How the way begins.
pub open spec fn begun(app: Seq<char>) -> TurnView {
    match app_check(normal(app)) {
        Err(e) => Turn::Done(Err(e)),
        Ok(_) => Turn::Ask(Need::App(app), Resolution { app, stage: Stage::Alias }),
    }
}

/// What follows once a window was found: it is brought to the front where it
/// is exactly the one that was asked for.
pub open spec fn with_window(app: Seq<char>, lookup: Seq<char>, w: WindowView) -> TurnView {
    with_candidate(app, w, requested(lookup) == identity(goes_by(w)))
}

/// What follows once a window was found that is, or is not, exactly the one
/// that was asked for.
pub open spec fn with_candidate(app: Seq<char>, w: WindowView, exact: bool) -> TurnView {
    if exact {
        Turn::Ask(Need::Activate(w), Resolution { app, stage: Stage::Activate { window: w } })
    } else {
        Turn::Done(
            Err(
                general(
                    "KWin resolved "@ + quoted(app) + " to non-exact window identity "@ + quoted(
                        goes_by(w),
                    ) + "; use an exact app ID from list_apps"@,
                ),
            ),
        )
    }
}

/// What follows where the application has to be launched.
pub open spec fn with_launch(app: Seq<char>, lookup: Seq<char>, desktop: AppView) -> TurnView {
    Turn::Ask(
        Need::Launch(desktop),
        Resolution { app, stage: Stage::Launch { desktop, lookup } },
    )
}

/// What follows where the window of a launched application is looked for.
pub open spec fn with_search(
    app: Seq<char>,
    lookup: Seq<char>,
    desktop: AppView,
    deadline: u64,
) -> TurnView {
    Turn::Ask(
        Need::Window(desktop.id),
        Resolution { app, stage: Stage::Appear { desktop, lookup, deadline } },
    )
}

/// What follows once the window of a launched application was looked for.
pub open spec fn with_appearance(
    app: Seq<char>,
    lookup: Seq<char>,
    desktop: AppView,
    deadline: u64,
    found: Result<WindowView, FaultView>,
    now: u64,
) -> TurnView {
    match found {
        Ok(w) => if identity(goes_by(w)) == identity(desktop.id) {
            with_window(app, lookup, w)
        } else {
            Turn::Done(
                Err(
                    general(
                        "launched desktop application "@ + desktop.id
                            + " but KWin returned mismatched identity "@ + quoted(goes_by(w))
                            + " for UUID "@ + w.uuid,
                    ),
                ),
            )
        },
        Err(e) => if e.kind != FaultKind::WindowNotFound {
            Turn::Done(Err(e))
        } else if now < deadline {
            Turn::Ask(
                Need::Pause(LAUNCH_POLL_MS),
                Resolution { app, stage: Stage::Pause { desktop, lookup, deadline } },
            )
        } else {
            Turn::Done(
                Err(
                    general(
                        "launched desktop application "@ + desktop.id
                            + " but no exact actionable KWin window appeared within 20 seconds"@,
                    ),
                ),
            )
        },
    }
}

/// What follows on what came of what had to be done, at a moment.
pub open spec fn followed(way: ResolutionView, answer: AnswerView, now: u64) -> TurnView {
    let app = way.app;
    match (way.stage, answer) {
        (Stage::Alias, Answer::App(Ok(d))) => Turn::Ask(
            Need::Window(d.id),
            Resolution { app, stage: Stage::Window { alias: Some(d), lookup: d.id } },
        ),
        (Stage::Alias, Answer::App(Err(e))) => if e.kind == FaultKind::DesktopAppNotFound {
            Turn::Ask(
                Need::Window(app),
                Resolution { app, stage: Stage::Window { alias: None, lookup: app } },
            )
        } else {
            Turn::Done(Err(e))
        },
        (Stage::Window { lookup, .. }, Answer::Window(Ok(w))) => with_window(app, lookup, w),
        (Stage::Window { alias, lookup }, Answer::Window(Err(e))) => if e.kind
            == FaultKind::WindowNotFound {
            match alias {
                Some(d) => with_launch(app, lookup, d),
                None => Turn::Ask(
                    Need::App(app),
                    Resolution { app, stage: Stage::App { lookup } },
                ),
            }
        } else {
            Turn::Done(Err(e))
        },
        (Stage::App { lookup }, Answer::App(Ok(d))) => with_launch(app, lookup, d),
        (Stage::App { .. }, Answer::App(Err(e))) => Turn::Done(Err(e)),
        (Stage::Launch { desktop, lookup }, Answer::Done(Ok(()))) => with_search(
            app,
            lookup,
            desktop,
            (now + LAUNCH_TIMEOUT_NS) as u64,
        ),
        (Stage::Launch { .. }, Answer::Done(Err(e))) => Turn::Done(Err(e)),
        (Stage::Appear { desktop, lookup, deadline }, Answer::Window(found)) => with_appearance(
            app,
            lookup,
            desktop,
            deadline,
            found,
            now,
        ),
        (Stage::Pause { desktop, lookup, deadline }, Answer::Done(_)) => with_search(
            app,
            lookup,
            desktop,
            deadline,
        ),
        (Stage::Activate { window }, Answer::Done(Ok(()))) => Turn::Done(Ok(window)),
        (Stage::Activate { .. }, Answer::Done(Err(e))) => Turn::Done(Err(e)),
        _ => Turn::Done(Err(general("unexpected answer"@))),
    }
}

/// The way from the name of an application to its window.
pub type Way = Resolution<String, DesktopApp, WindowInfo>;

/// What follows on the way.
pub type WayTurn = Turn<String, DesktopApp, WindowInfo, Fault>;

/// Begins with the name of an application.
pub fn begin_resolution(app: &str) -> (r: WayTurn)
    ensures
        r@ == begun(app@),
{
    match normalize_app(app) {
        Err(fault) => Turn::Done(Err(fault)),
        Ok(_) => Turn::Ask(
            Need::App(app.to_owned()),
            Resolution { app: app.to_owned(), stage: Stage::Alias },
        ),
    }
}

fn take_window(app: String, lookup: String, window: WindowInfo) -> (r: WayTurn)
    ensures
        r@ == with_window(app@, lookup@, window@),
{
    let identity = window_identity(&window);
    let wanted = requested_identity(lookup.as_str());
    let exact = same(wanted.as_str(), canonical_identity(identity.as_str()).as_str());
    take_candidate(app, window, exact)
}

/// Goes on with a window that is, or is not, exactly the one that was asked
/// for.
pub fn take_candidate(app: String, window: WindowInfo, exact: bool) -> (r: WayTurn)
    ensures
        r@ == with_candidate(app@, window@, exact),
{
    let identity = window_identity(&window);
    if exact {
        let copy = window.clone();
        return Turn::Ask(
            Need::Activate(window),
            Resolution { app, stage: Stage::Activate { window: copy } },
        );
    }
    let mut message = "KWin resolved ".to_owned();
    message.append(quote(app.as_str()).as_str());
    message.append(" to non-exact window identity ");
    message.append(quote(identity.as_str()).as_str());
    message.append("; use an exact app ID from list_apps");
    Turn::Done(Err(Fault::new(message)))
}

fn ask_launch(app: String, lookup: String, desktop: DesktopApp) -> (r: WayTurn)
    ensures
        r@ == with_launch(app@, lookup@, desktop@),
{
    let copy = desktop.clone();
    Turn::Ask(
        Need::Launch(copy),
        Resolution { app, stage: Stage::Launch { desktop, lookup } },
    )
}

fn ask_window(app: String, lookup: String, desktop: DesktopApp, deadline: u64) -> (r: WayTurn)
    ensures
        r@ == with_search(app@, lookup@, desktop@, deadline),
{
    let id = desktop.id.clone();
    Turn::Ask(
        Need::Window(id),
        Resolution { app, stage: Stage::Appear { desktop, lookup, deadline } },
    )
}

/// The view of a result that carries a window.
pub open spec fn found_view(r: Result<WindowInfo, Fault>) -> Result<WindowView, FaultView> {
    match r {
        Ok(w) => Ok(w@),
        Err(f) => Err(f@),
    }
}

fn take_appearance(
    app: String,
    lookup: String,
    desktop: DesktopApp,
    deadline: u64,
    found: Result<WindowInfo, Fault>,
    now: u64,
) -> (r: WayTurn)
    ensures
        r@ == with_appearance(app@, lookup@, desktop@, deadline, found_view(found), now),
{
    match found {
        Ok(window) => {
            let identity = window_identity(&window);
            if same(
                canonical_identity(identity.as_str()).as_str(),
                canonical_identity(desktop.id.as_str()).as_str(),
            ) {
                return take_window(app, lookup, window);
            }
            let mut message = "launched desktop application ".to_owned();
            message.append(desktop.id.as_str());
            message.append(" but KWin returned mismatched identity ");
            message.append(quote(identity.as_str()).as_str());
            message.append(" for UUID ");
            message.append(window.uuid.as_str());
            Turn::Done(Err(Fault::new(message)))
        },
        Err(fault) => {
            if !is_window_not_found(&fault) {
                return Turn::Done(Err(fault));
            }
            if now < deadline {
                return Turn::Ask(
                    Need::Pause(LAUNCH_POLL_MS),
                    Resolution { app, stage: Stage::Pause { desktop, lookup, deadline } },
                );
            }
            let mut message = "launched desktop application ".to_owned();
            message.append(desktop.id.as_str());
            message.append(" but no exact actionable KWin window appeared within 20 seconds");
            Turn::Done(Err(Fault::new(message)))
        },
    }
}

/// Goes on with what came of what had to be done, at the moment `now`.
pub fn resume_resolution(
    way: Way,
    answer: Answer<DesktopApp, WindowInfo, Fault>,
    now: u64,
) -> (r: WayTurn)
    requires
        now + LAUNCH_TIMEOUT_NS <= u64::MAX,
    ensures
        r@ == followed(way@, answer@, now),
{
    let app = way.app;
    match (way.stage, answer) {
        (Stage::Alias, Answer::App(Ok(desktop))) => {
            let id = desktop.id.clone();
            let lookup = desktop.id.clone();
            Turn::Ask(
                Need::Window(id),
                Resolution { app, stage: Stage::Window { alias: Some(desktop), lookup } },
            )
        },
        (Stage::Alias, Answer::App(Err(fault))) => {
            if !is_desktop_app_not_found(&fault) {
                return Turn::Done(Err(fault));
            }
            let query = app.clone();
            let lookup = app.clone();
            Turn::Ask(
                Need::Window(query),
                Resolution { app, stage: Stage::Window { alias: None, lookup } },
            )
        },
        (Stage::Window { lookup, .. }, Answer::Window(Ok(window))) => take_window(
            app,
            lookup,
            window,
        ),
        (Stage::Window { alias, lookup }, Answer::Window(Err(fault))) => {
            if !is_window_not_found(&fault) {
                return Turn::Done(Err(fault));
            }
            match alias {
                Some(desktop) => ask_launch(app, lookup, desktop),
                None => {
                    let query = app.clone();
                    Turn::Ask(Need::App(query), Resolution { app, stage: Stage::App { lookup } })
                },
            }
        },
        (Stage::App { lookup }, Answer::App(Ok(desktop))) => ask_launch(app, lookup, desktop),
        (Stage::App { .. }, Answer::App(Err(fault))) => Turn::Done(Err(fault)),
        (Stage::Launch { desktop, lookup }, Answer::Done(Ok(()))) => ask_window(
            app,
            lookup,
            desktop,
            now + LAUNCH_TIMEOUT_NS,
        ),
        (Stage::Launch { .. }, Answer::Done(Err(fault))) => Turn::Done(Err(fault)),
        (Stage::Appear { desktop, lookup, deadline }, Answer::Window(found)) => take_appearance(
            app,
            lookup,
            desktop,
            deadline,
            found,
            now,
        ),
        (Stage::Pause { desktop, lookup, deadline }, Answer::Done(_)) => ask_window(
            app,
            lookup,
            desktop,
            deadline,
        ),
        (Stage::Activate { window }, Answer::Done(Ok(()))) => Turn::Done(Ok(window)),
        (Stage::Activate { .. }, Answer::Done(Err(fault))) => Turn::Done(Err(fault)),
        _ => Turn::Done(Err(Fault::of("unexpected answer"))),
    }
}

/// The query that a window has to answer to, at the stages at which one is
/// looked for.
pub open spec fn lookup_of(stage: StageView) -> Option<Seq<char>> {
    match stage {
        Stage::Window { lookup, .. } => Some(lookup),
        Stage::Appear { lookup, .. } => Some(lookup),
        _ => None,
    }
}

/// Only a window that goes exactly by what was asked for is brought to the
/// front.
pub proof fn law_only_the_exact_window_is_activated(
    way: ResolutionView,
    answer: AnswerView,
    now: u64,
    w: WindowView,
    next: ResolutionView,
)
    requires
        followed(way, answer, now) == (Turn::Ask::<Seq<char>, AppView, WindowView, FaultView>(
            Need::Activate(w),
            next,
        )),
    ensures
        answer == Answer::Window::<AppView, WindowView, FaultView>(Ok(w)),
        lookup_of(way.stage) is Some,
        identity(goes_by(w)) == requested(lookup_of(way.stage)->Some_0),
{
}

/// A window is handed out only once it was brought to the front.
pub proof fn law_windows_are_activated_first(
    way: ResolutionView,
    answer: AnswerView,
    now: u64,
    w: WindowView,
)
    requires
        followed(way, answer, now) == (Turn::Done::<Seq<char>, AppView, WindowView, FaultView>(
            Ok(w),
        )),
    ensures
        way.stage == (Stage::Activate::<Seq<char>, AppView, WindowView> { window: w }),
        answer is Done && answer->Done_0 is Ok,
{
}

/// How far a stage lies from the end.
pub open spec fn distance(stage: StageView) -> nat {
    match stage {
        Stage::Alias => 6,
        Stage::Window { .. } => 5,
        Stage::App { .. } => 4,
        Stage::Launch { .. } => 3,
        Stage::Appear { .. } => 2,
        Stage::Pause { .. } => 2,
        Stage::Activate { .. } => 1,
    }
}

/// The way only goes forward: no stage is come back to but the wait for the
/// window of a launched application, and that only until its time is up. So an
/// application is launched at most once.
pub proof fn law_the_way_goes_forward(
    way: ResolutionView,
    answer: AnswerView,
    now: u64,
    need: NeedView,
    next: ResolutionView,
)
    requires
        followed(way, answer, now) == (Turn::Ask::<Seq<char>, AppView, WindowView, FaultView>(
            need,
            next,
        )),
    ensures
        next.app == way.app,
        distance(next.stage) < distance(way.stage) || (way.stage is Appear && next.stage is Pause
            && now < way.stage->Appear_deadline && next.stage->Pause_deadline
            == way.stage->Appear_deadline) || (way.stage is Pause && next.stage is Appear
            && next.stage->Appear_deadline == way.stage->Pause_deadline),
        need is Launch ==> next.stage is Launch,
{
}

/// The way asks for what it was given: first for the application of the name,
/// then for the window of that application, or of the name itself where there
/// is no such application. The application is launched only where its window
/// is not found, and then its window is looked for, every quarter of a second,
/// for twenty seconds.
pub proof fn law_the_way_asks_for_what_is_named(
    way: ResolutionView,
    answer: AnswerView,
    now: u64,
    need: NeedView,
    next: ResolutionView,
)
    requires
        now + 20_000_000_000 <= u64::MAX,
        followed(way, answer, now) == (Turn::Ask::<Seq<char>, AppView, WindowView, FaultView>(
            need,
            next,
        )),
    ensures
        match need {
            Need::App(query) => {
                &&& query == way.app
                &&& way.stage matches Stage::Window { alias, .. } && alias is None
                &&& answer matches Answer::Window(Err(e)) && e.kind == FaultKind::WindowNotFound
            },
            Need::Window(query) => match way.stage {
                Stage::Alias => match answer {
                    Answer::App(Ok(d)) => query == d.id,
                    Answer::App(Err(e)) => query == way.app && e.kind
                        == FaultKind::DesktopAppNotFound,
                    _ => false,
                },
                Stage::Launch { desktop, .. } => {
                    &&& query == desktop.id
                    &&& answer matches Answer::Done(Ok(()))
                    &&& next.stage matches Stage::Appear { deadline, .. } && deadline == now
                        + 20_000_000_000
                },
                Stage::Pause { desktop, .. } => query == desktop.id,
                _ => false,
            },
            Need::Launch(desktop) => match (way.stage, answer) {
                (Stage::Window { alias, .. }, Answer::Window(Err(e))) => alias == Some(desktop)
                    && e.kind == FaultKind::WindowNotFound,
                (Stage::App { .. }, Answer::App(Ok(d))) => d == desktop,
                _ => false,
            },
            Need::Pause(ms) => {
                &&& ms == 250
                &&& way.stage matches Stage::Appear { deadline, .. } && now < deadline
                &&& answer matches Answer::Window(Err(e)) && e.kind == FaultKind::WindowNotFound
            },
            Need::Activate(w) => answer == Answer::Window::<AppView, WindowView, FaultView>(Ok(w)),
        },
{
}

/// What is looked for is what the name says: where an application goes by the
/// name, the window has to be one of that application.
pub proof fn law_what_is_looked_for_is_kept(
    way: ResolutionView,
    answer: AnswerView,
    now: u64,
    need: NeedView,
    next: ResolutionView,
)
    requires
        followed(way, answer, now) == (Turn::Ask::<Seq<char>, AppView, WindowView, FaultView>(
            need,
            next,
        )),
    ensures
        next.app == way.app,
        match next.stage {
            Stage::Window { alias, lookup } => match answer {
                Answer::App(Ok(d)) => alias == Some(d) && lookup == d.id,
                _ => alias is None && lookup == way.app,
            },
            Stage::App { lookup } => way.stage matches Stage::Window { lookup: l, .. } && l
                == lookup,
            Stage::Launch { desktop, lookup } => need == Need::Launch::<
                Seq<char>,
                AppView,
                WindowView,
            >(desktop) && match way.stage {
                Stage::Window { lookup: l, .. } => l == lookup,
                Stage::App { lookup: l } => l == lookup,
                _ => false,
            },
            Stage::Appear { desktop, lookup, deadline } => match way.stage {
                Stage::Launch { desktop: d, lookup: l } => d == desktop && l == lookup,
                Stage::Pause { desktop: d, lookup: l, deadline: t } => d == desktop && l == lookup
                    && t == deadline,
                _ => false,
            },
            Stage::Pause { desktop, lookup, deadline } => way.stage == (Stage::Appear::<
                Seq<char>,
                AppView,
                WindowView,
            > { desktop, lookup, deadline }),
            Stage::Activate { window } => need == Need::Activate::<Seq<char>, AppView, WindowView>(
                window,
            ),
            Stage::Alias => false,
        },
{
}

/// Every name but a blank one and `Unnamed` is looked for, as it is given.
pub proof fn law_names_are_looked_for(app: Seq<char>)
    ensures
        begun(app) is Done <==> lowercase(trimmed(app)).len() == 0 || lowercase(trimmed(app))
            == "unnamed"@,
        begun(app) matches Turn::Ask(need, way) ==> need == Need::App::<
            Seq<char>,
            AppView,
            WindowView,
        >(app) && way.app == app && way.stage is Alias,
        begun(app) matches Turn::Done(r) ==> r is Err,
{
}

} // verus!
