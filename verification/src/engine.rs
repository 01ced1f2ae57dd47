//! Applications as they are worked with: which are offered, what stands
//! behind a window, and the state that was captured last.

use crate::binary64::Real;
use crate::fault::{agrees, general, Fault, FaultView};
use crate::input::opt_text;
use crate::kwin::{
    desktop_identity, exact_id, exact_window_id, identity, normal, WindowInfo, WindowView,
};
use crate::order::{ranked, sort_order};
use crate::text::{
    blank, bool_text, cut, decimal, ends_with, eq_ignore_ascii_case, join, joined, last_at, quote,
    quoted, rsplit_once, same, same_ascii_folded, show_bool, show_u64, starts_with, texts,
    to_lowercase, trim, trimmed,
};
use crate::tree::{FocusView, FocusedElement};
use vstd::prelude::*;

verus! {

/// How long to wait, in milliseconds, for an application to draw itself
/// where nothing else is asked for.
pub const DEFAULT_SETTLE_MS: u64 = 200;

/// How long to wait at most.
pub const MAX_SETTLE_MS: u64 = 2_000;

/// An application that is offered.
#[derive(Debug)]
pub struct AppInfo {
    pub id: String,
    pub display_name: Option<String>,
    pub is_running: bool,
}

/// An application that is offered.
#[verifier::ext_equal]
pub struct OfferView {
    pub id: Seq<char>,
    pub display_name: Option<Seq<char>>,
    pub is_running: bool,
}

impl View for AppInfo {
    type V = OfferView;

    open spec fn view(&self) -> OfferView {
        OfferView {
            id: self.id@,
            display_name: opt_text(self.display_name),
            is_running: self.is_running,
        }
    }
}

/// The applications that are offered.
pub open spec fn offers(apps: Seq<AppInfo>) -> Seq<OfferView> {
    Seq::new(apps.len(), |i: int| apps[i]@)
}

/// The windows of a list.
pub open spec fn windows_of(windows: Seq<WindowInfo>) -> Seq<WindowView> {
    Seq::new(windows.len(), |i: int| windows[i]@)
}

/// Whether a name in normal form can be that of an application.
pub open spec fn app_check(normalized: Seq<char>) -> Result<Seq<char>, FaultView> {
    if normalized.len() == 0 || normalized == "unnamed"@ {
        Err(general("app must be non-empty and cannot be \"Unnamed\""@))
    } else {
        Ok(normalized)
    }
}

/// Refuses a name, in normal form, that cannot be that of an application.
pub fn check_app(normalized: String) -> (r: Result<String, Fault>)
    ensures
        agrees(r, app_check(normalized@)),
{
    if normalized.as_str().unicode_len() == 0 || same(normalized.as_str(), "unnamed") {
        return Err(Fault::of("app must be non-empty and cannot be \"Unnamed\""));
    }
    Ok(normalized)
}

/// Brings the name of an application into normal form.
pub fn normalize_app(app: &str) -> (r: Result<String, Fault>)
    ensures
        agrees(r, app_check(normal(app@))),
{
    check_app(to_lowercase(trim(app)))
}

/// What a window goes by: its desktop file or, for want of one, its class.
pub open spec fn goes_by(w: WindowView) -> Seq<char> {
    if trimmed(w.desktop_file).len() > 0 {
        trimmed(w.desktop_file)
    } else {
        trimmed(w.resource_class)
    }
}

/// Tells what a window goes by.
pub fn window_identity(window: &WindowInfo) -> (r: String)
    ensures
        r@ == goes_by(window@),
{
    let desktop = trim(window.desktop_file.as_str());
    if desktop.unicode_len() > 0 {
        desktop.to_owned()
    } else {
        trim(window.resource_class.as_str()).to_owned()
    }
}

/// Reduces a name to the form in which names are compared.
pub fn canonical_identity(value: &str) -> (r: String)
    ensures
        r@ == identity(value@),
{
    desktop_identity(value)
}

/// The application that an exact window name is for.
pub open spec fn exact_app(value: Seq<char>) -> Option<Seq<char>> {
    match cut(value, last_at(value, '@')) {
        Some((who, uuid)) => if "{"@.is_prefix_of(uuid) && "}"@.is_suffix_of(uuid) {
            Some(who)
        } else {
            None
        },
        None => None,
    }
}

/// Finds the application that an exact window name is for.
pub fn exact_id_identity(value: &str) -> (r: Option<&str>)
    ensures
        match r {
            Some(who) => exact_app(value@) == Some(who@),
            None => exact_app(value@) is None,
        },
{
    match rsplit_once(value, '@') {
        Some((who, uuid)) => if starts_with(uuid, "{") && ends_with(uuid, "}") {
            Some(who)
        } else {
            None
        },
        None => None,
    }
}

/// The identity that a query asks for.
pub open spec fn requested(lookup: Seq<char>) -> Seq<char> {
    match exact_app(lookup) {
        Some(who) => identity(who),
        None => identity(lookup),
    }
}

/// Finds the identity that a query asks for.
pub fn requested_identity(lookup: &str) -> (r: String)
    ensures
        r@ == requested(lookup@),
{
    match exact_id_identity(lookup) {
        Some(who) => canonical_identity(who),
        None => canonical_identity(lookup),
    }
}

/// Whether a name is that of a window, which has to have one.
pub open spec fn is_name_of(candidate: Seq<char>, name: Seq<char>) -> bool {
    trimmed(candidate).len() > 0 && identity(candidate) == name
}

/// Whether a name stands for a window: by its identity, its class, its name or
/// its caption.
pub open spec fn names_window(root_name: Seq<char>, w: WindowView) -> bool {
    let name = identity(root_name);
    name.len() > 0 && (is_name_of(goes_by(w), name) || is_name_of(w.resource_class, name)
        || is_name_of(w.resource_name, name) || is_name_of(w.caption, name))
}

fn same_identity(candidate: &str, name: &str) -> (r: bool)
    ensures
        r == is_name_of(candidate@, name@),
{
    !blank(candidate) && same(canonical_identity(candidate).as_str(), name)
}

/// Tells whether a name stands for a window.
pub fn root_name_matches_window(root_name: &str, window: &WindowInfo) -> (r: bool)
    ensures
        r == names_window(root_name@, window@),
{
    let root = canonical_identity(root_name);
    root.as_str().unicode_len() > 0 && (same_identity(
        window_identity(window).as_str(),
        root.as_str(),
    ) || same_identity(window.resource_class.as_str(), root.as_str()) || same_identity(
        window.resource_name.as_str(),
        root.as_str(),
    ) || same_identity(window.caption.as_str(), root.as_str()))
}

/// What is offered for a window, if anything.
pub open spec fn offer(w: WindowView) -> Option<OfferView> {
    if goes_by(w).len() == 0 || same_ascii_folded(goes_by(w), "unnamed"@) {
        None
    } else {
        Some(
            OfferView {
                id: exact_id(w),
                display_name: Some(
                    if trimmed(w.caption).len() == 0 {
                        goes_by(w)
                    } else {
                        w.caption
                    },
                ),
                is_running: true,
            },
        )
    }
}

/// What is offered for windows, in their order.
pub open spec fn offered(windows: Seq<WindowView>) -> Seq<OfferView>
    decreases windows.len(),
{
    if windows.len() == 0 {
        Seq::empty()
    } else {
        match offer(windows.last()) {
            Some(o) => offered(windows.drop_last()).push(o),
            None => offered(windows.drop_last()),
        }
    }
}

/// The names of what is offered.
pub open spec fn offer_ids(all: Seq<OfferView>) -> Seq<Seq<char>> {
    Seq::new(all.len(), |i: int| all[i].id)
}

/// What is offered, in the order of the names.
pub open spec fn offers_by_id(all: Seq<OfferView>) -> Seq<OfferView> {
    Seq::new(all.len(), |i: int| all[ranked(offer_ids(all))[i]])
}

fn make_offer(window: &WindowInfo) -> (r: Option<AppInfo>)
    ensures
        match r {
            Some(a) => offer(window@) == Some(a@),
            None => offer(window@) is None,
        },
{
    let name = window_identity(window);
    if name.as_str().unicode_len() == 0 || eq_ignore_ascii_case(name.as_str(), "unnamed") {
        return None;
    }
    let display = if blank(window.caption.as_str()) {
        name
    } else {
        window.caption.clone()
    };
    Some(AppInfo { id: exact_window_id(window), display_name: Some(display), is_running: true })
}

fn copy_offer(a: &AppInfo) -> (r: AppInfo)
    ensures
        r@ == a@,
{
    AppInfo {
        id: a.id.clone(),
        display_name: match &a.display_name {
            Some(s) => Some(s.clone()),
            None => None,
        },
        is_running: a.is_running,
    }
}

/// The applications that are offered for the given windows, in the order of
/// their names.
pub fn list_apps(windows: &Vec<WindowInfo>) -> (r: Vec<AppInfo>)
    ensures
        offers(r@) == offers_by_id(offered(windows_of(windows@))),
{
    let ghost views = windows_of(windows@);
    let mut found: Vec<AppInfo> = Vec::new();
    let mut ids: Vec<String> = Vec::new();
    let mut i: usize = 0;
    proof {
        assert(offers(found@) =~= Seq::empty());
        assert(texts(ids@) =~= offer_ids(Seq::empty()));
    }
    while i < windows.len()
        invariant
            i <= windows@.len(),
            views == windows_of(windows@),
            offers(found@) == offered(views.take(i as int)),
            texts(ids@) == offer_ids(offers(found@)),
        decreases windows@.len() - i,
    {
        assert(views.take(i + 1).drop_last() =~= views.take(i as int));
        if let Some(app) = make_offer(&windows[i]) {
            let ghost was = found@;
            let ghost names = ids@;
            let id = app.id.clone();
            ids.push(id);
            found.push(app);
            assert(offers(found@) =~= offers(was).push(app@));
            assert(texts(ids@) =~= texts(names).push(app@.id));
            assert(offer_ids(offers(found@)) =~= offer_ids(offers(was)).push(app@.id));
        }
        i += 1;
    }
    assert(views.take(i as int) =~= views);
    let ghost all = offered(views);
    let order = sort_order(&ids);
    let mut out: Vec<AppInfo> = Vec::new();
    let mut k: usize = 0;
    while k < order.len()
        invariant
            k <= order@.len() == found@.len(),
            all == offers(found@),
            forall|j: int|
                0 <= j < order@.len() ==> #[trigger] order@[j] == ranked(offer_ids(all))[j]
                    && order@[j] < found@.len(),
            offers(out@) == offers_by_id(all).take(k as int),
        decreases order@.len() - k,
    {
        let ghost was = out@;
        let app = copy_offer(&found[order[k]]);
        out.push(app);
        assert(offers(out@) =~= offers(was).push(app@));
        assert(offers_by_id(all).take(k + 1) =~= offers_by_id(all).take(k as int).push(app@));
        k += 1;
    }
    assert(offers_by_id(all).take(k as int) =~= offers_by_id(all));
    out
}

/// An accessibility root: its name, its process, and whether that process
/// descends from the window's.
#[derive(Debug)]
pub struct RootInfo {
    pub name: String,
    pub pid: u32,
    pub descendant: bool,
}

/// An accessibility root.
#[verifier::ext_equal]
pub struct RootView {
    pub name: Seq<char>,
    pub pid: u32,
    pub descendant: bool,
}

impl View for RootInfo {
    type V = RootView;

    open spec fn view(&self) -> RootView {
        RootView { name: self.name@, pid: self.pid, descendant: self.descendant }
    }
}

/// The roots of a list.
pub open spec fn roots_of(roots: Seq<RootInfo>) -> Seq<RootView> {
    Seq::new(roots.len(), |i: int| roots[i]@)
}

/// Whether the process of a root descends from that of the window and is
/// another.
pub open spec fn below_window(root: RootView, w: WindowView) -> bool {
    root.pid != w.pid && root.descendant
}

/// Whether a root, whose name is the window's or not, stands for a window: it
/// has a name, and its process is the window's, or one below it while the name
/// is the window's too.
pub open spec fn correlated(root: RootView, w: WindowView, named: bool) -> bool {
    trimmed(root.name).len() > 0 && (root.pid == w.pid || (below_window(root, w) && named))
}

/// Whether a root stands for a window.
pub open spec fn stands_for(root: RootView, w: WindowView) -> bool {
    correlated(root, w, names_window(root.name, w))
}

/// Which of the roots have a name of the window.
pub open spec fn name_marks(roots: Seq<RootView>, w: WindowView) -> Seq<bool> {
    Seq::new(roots.len(), |i: int| names_window(roots[i].name, w))
}

/// The places of the roots, among the first `n`, that stand for a window.
pub open spec fn standing(
    roots: Seq<RootView>,
    w: WindowView,
    marks: Seq<bool>,
    n: nat,
) -> Seq<int>
    decreases n,
{
    if n == 0 {
        Seq::empty()
    } else if correlated(roots[n - 1], w, marks[n - 1]) {
        standing(roots, w, marks, (n - 1) as nat).push(n - 1)
    } else {
        standing(roots, w, marks, (n - 1) as nat)
    }
}

/// What is said of a root that has something to do with a window.
pub open spec fn evidence_of(root: RootView, w: WindowView, named: bool) -> Option<Seq<char>> {
    let exact = root.pid == w.pid;
    if exact || below_window(root, w) || named {
        Some(
            quoted(root.name) + " (PID "@ + decimal(root.pid as int) + ", exact_pid="@ + bool_text(
                exact,
            ) + ", descendant="@ + bool_text(below_window(root, w)) + ", name_match="@ + bool_text(
                named,
            ) + ")"@,
        )
    } else {
        None
    }
}

/// What is said of the first `n` roots.
pub open spec fn evidence(
    roots: Seq<RootView>,
    w: WindowView,
    marks: Seq<bool>,
    n: nat,
) -> Seq<Seq<char>>
    decreases n,
{
    if n == 0 {
        Seq::empty()
    } else {
        match evidence_of(roots[n - 1], w, marks[n - 1]) {
            Some(line) => evidence(roots, w, marks, (n - 1) as nat).push(line),
            None => evidence(roots, w, marks, (n - 1) as nat),
        }
    }
}

/// What is said of all roots together.
pub open spec fn evidence_text(
    roots: Seq<RootView>,
    w: WindowView,
    marks: Seq<bool>,
) -> Seq<char> {
    let lines = evidence(roots, w, marks, roots.len());
    if lines.len() == 0 {
        "no related or identity-matching roots"@
    } else {
        joined(lines, "; "@)
    }
}

/// How the roots at some places are named.
pub open spec fn candidate_texts(roots: Seq<RootView>, places: Seq<int>) -> Seq<Seq<char>> {
    Seq::new(
        places.len(),
        |i: int|
            quoted(roots[places[i]].name) + " (PID "@ + decimal(roots[places[i]].pid as int)
                + ")"@,
    )
}

/// The place of the one root that stands for a window, where it is marked which
/// roots have a name of the window.
pub open spec fn marked_place(roots: Seq<RootView>, w: WindowView, marks: Seq<bool>) -> Result<
    int,
    FaultView,
> {
    let places = standing(roots, w, marks, roots.len());
    if places.len() == 1 {
        Ok(places[0])
    } else if places.len() == 0 {
        Err(
            general(
                "window "@ + w.uuid + " (PID "@ + decimal(w.pid as int) + ", identity "@ + quoted(
                    goes_by(w),
                ) + ") has no strictly correlated AT-SPI root ("@ + evidence_text(roots, w, marks)
                    + "); the already-running app must be fully restarted with accessibility enabled"@,
            ),
        )
    } else {
        Err(
            general(
                "window "@ + w.uuid + " (PID "@ + decimal(w.pid as int)
                    + ") has ambiguous strictly correlated AT-SPI roots: "@ + joined(
                    candidate_texts(roots, places),
                    ", "@,
                ) + "; evidence: "@ + evidence_text(roots, w, marks),
            ),
        )
    }
}

/// The place of the one root that stands for a window.
pub open spec fn root_place(roots: Seq<RootView>, w: WindowView) -> Result<int, FaultView> {
    marked_place(roots, w, name_marks(roots, w))
}

fn tell_evidence(root: &RootInfo, window: &WindowInfo, named: bool) -> (r: Option<String>)
    ensures
        opt_text(r) == evidence_of(root@, window@, named),
{
    let exact = root.pid == window.pid;
    let descendant = !exact && root.descendant;
    if !(exact || descendant || named) {
        return None;
    }
    let mut line = quote(root.name.as_str());
    line.append(" (PID ");
    line.append(show_u64(root.pid as u64).as_str());
    line.append(", exact_pid=");
    line.append(show_bool(exact));
    line.append(", descendant=");
    line.append(show_bool(descendant));
    line.append(", name_match=");
    line.append(show_bool(named));
    line.append(")");
    Some(line)
}

proof fn lemma_standing(roots: Seq<RootView>, w: WindowView, n: nat)
    requires
        n <= roots.len(),
    ensures
        forall|k: int|
            0 <= k < standing(roots, w, name_marks(roots, w), n).len() ==> 0
                <= #[trigger] standing(roots, w, name_marks(roots, w), n)[k] < n && stands_for(
                roots[standing(roots, w, name_marks(roots, w), n)[k]],
                w,
            ),
        forall|i: int|
            0 <= i < n && stands_for(#[trigger] roots[i], w) ==> standing(
                roots,
                w,
                name_marks(roots, w),
                n,
            ).contains(i),
    decreases n,
{
    if n > 0 {
        let marks = name_marks(roots, w);
        let before = standing(roots, w, marks, (n - 1) as nat);
        let all = standing(roots, w, marks, n);
        lemma_standing(roots, w, (n - 1) as nat);
        assert forall|i: int| 0 <= i < n && stands_for(#[trigger] roots[i], w) implies all.contains(
            i,
        ) by {
            if i < n - 1 {
                let k = choose|k: int| 0 <= k < before.len() && before[k] == i;
                assert(all[k] == i);
            } else {
                assert(all[all.len() - 1] == i);
            }
        }
    }
}

fn name_candidates(
    roots: &Vec<RootInfo>,
    places: &Vec<usize>,
    spots: Ghost<Seq<int>>,
) -> (r: String)
    requires
        spots@.len() == places@.len(),
        forall|k: int|
            0 <= k < places@.len() ==> #[trigger] places@[k] == spots@[k] && places@[k]
                < roots@.len(),
    ensures
        r@ == joined(candidate_texts(roots_of(roots@), spots@), ", "@),
{
    let ghost wanted = candidate_texts(roots_of(roots@), spots@);
    let mut lines: Vec<String> = Vec::new();
    let mut i: usize = 0;
    while i < places.len()
        invariant
            i <= places@.len() == spots@.len(),
            wanted == candidate_texts(roots_of(roots@), spots@),
            forall|k: int|
                0 <= k < places@.len() ==> #[trigger] places@[k] == spots@[k] && places@[k]
                    < roots@.len(),
            texts(lines@) == wanted.take(i as int),
        decreases places@.len() - i,
    {
        let ghost was = lines@;
        let root = &roots[places[i]];
        let mut line = quote(root.name.as_str());
        line.append(" (PID ");
        line.append(show_u64(root.pid as u64).as_str());
        line.append(")");
        lines.push(line);
        assert(texts(lines@) =~= texts(was).push(line@));
        assert(wanted.take(i + 1) =~= wanted.take(i as int).push(line@));
        i += 1;
    }
    assert(wanted.take(i as int) =~= wanted);
    join(&lines, ", ")
}

/// Finds the one root that stands for a window.
pub fn choose_root(roots: &Vec<RootInfo>, window: &WindowInfo) -> (r: Result<usize, Fault>)
    ensures
        match (r, root_place(roots_of(roots@), window@)) {
            (Ok(i), Ok(e)) => i == e && i < roots@.len(),
            (Err(f), Err(e)) => f@ == e,
            _ => false,
        },
{
    let ghost wanted = name_marks(roots_of(roots@), window@);
    let mut marks: Vec<bool> = Vec::new();
    let mut i: usize = 0;
    while i < roots.len()
        invariant
            i <= roots@.len(),
            wanted == name_marks(roots_of(roots@), window@),
            marks@ == wanted.take(i as int),
        decreases roots@.len() - i,
    {
        let ghost was = marks@;
        let named = root_name_matches_window(roots[i].name.as_str(), window);
        marks.push(named);
        assert(wanted.take(i + 1) =~= was.push(named));
        i += 1;
    }
    assert(marks@ =~= wanted);
    choose_marked_root(roots, window, &marks)
}

/// Finds the one root that stands for a window, where it is marked which roots
/// have a name of the window.
pub fn choose_marked_root(roots: &Vec<RootInfo>, window: &WindowInfo, marks: &Vec<bool>) -> (r:
    Result<usize, Fault>)
    requires
        marks@.len() == roots@.len(),
    ensures
        match (r, marked_place(roots_of(roots@), window@, marks@)) {
            (Ok(i), Ok(e)) => i == e && i < roots@.len(),
            (Err(f), Err(e)) => f@ == e,
            _ => false,
        },
{
    let ghost all = roots_of(roots@);
    let mut places: Vec<usize> = Vec::new();
    let mut lines: Vec<String> = Vec::new();
    let mut i: usize = 0;
    assert(texts(lines@) =~= Seq::empty());
    while i < roots.len()
        invariant
            i <= roots@.len() == marks@.len(),
            all == roots_of(roots@),
            standing(all, window@, marks@, i as nat).len() == places@.len(),
            forall|k: int|
                0 <= k < places@.len() ==> #[trigger] places@[k] == standing(
                    all,
                    window@,
                    marks@,
                    i as nat,
                )[k] && places@[k] < roots@.len(),
            texts(lines@) == evidence(all, window@, marks@, i as nat),
        decreases roots@.len() - i,
    {
        let root = &roots[i];
        assert(all[i as int] == root@);
        let named = marks[i];
        if let Some(line) = tell_evidence(root, window, named) {
            let ghost was = lines@;
            lines.push(line);
            assert(texts(lines@) =~= texts(was).push(line@));
        }
        if !blank(root.name.as_str()) && (root.pid == window.pid || (root.descendant && named)) {
            places.push(i);
        }
        i += 1;
    }
    if places.len() == 1 {
        return Ok(places[0]);
    }
    let evidence = if lines.len() == 0 {
        "no related or identity-matching roots".to_owned()
    } else {
        join(&lines, "; ")
    };
    let mut message = "window ".to_owned();
    message.append(window.uuid.as_str());
    message.append(" (PID ");
    message.append(show_u64(window.pid as u64).as_str());
    if places.len() == 0 {
        message.append(", identity ");
        message.append(quote(window_identity(window).as_str()).as_str());
        message.append(") has no strictly correlated AT-SPI root (");
        message.append(evidence.as_str());
        message.append(
            "); the already-running app must be fully restarted with accessibility enabled",
        );
    } else {
        message.append(") has ambiguous strictly correlated AT-SPI roots: ");
        message.append(
            name_candidates(
                roots,
                &places,
                Ghost(standing(all, window@, marks@, roots@.len() as nat)),
            ).as_str(),
        );
        message.append("; evidence: ");
        message.append(evidence.as_str());
    }
    Err(Fault::new(message))
}

/// The root that is found for a window stands for it, and no other does.
pub proof fn law_roots_are_unambiguous(roots: Seq<RootView>, w: WindowView, other: int)
    requires
        root_place(roots, w) is Ok,
        0 <= other < roots.len(),
    ensures
        0 <= root_place(roots, w)->Ok_0 < roots.len(),
        stands_for(roots[other], w) <==> other == root_place(roots, w)->Ok_0,
{
    lemma_standing(roots, w, roots.len());
    let all = standing(roots, w, name_marks(roots, w), roots.len());
    assert(stands_for(roots[all[0]], w));
    if stands_for(roots[other], w) {
        assert(all.contains(other));
    }
}

/// A captured state of an application.
#[derive(Debug)]
pub struct AppState {
    pub window: WindowInfo,
    pub tree: String,
    pub screenshot_png: Vec<u8>,
    pub screenshot_width: u32,
    pub screenshot_height: u32,
    pub screenshot_scale: Real,
    pub focused_element: Option<FocusedElement>,
    pub accessibility_warning: Option<String>,
}

/// A captured state of an application.
#[verifier::ext_equal]
pub struct StateView {
    pub window: WindowView,
    pub tree: Seq<char>,
    pub screenshot_png: Seq<u8>,
    pub screenshot_width: u32,
    pub screenshot_height: u32,
    pub screenshot_scale: Real,
    pub focused_element: Option<FocusView>,
    pub accessibility_warning: Option<Seq<char>>,
}

impl View for AppState {
    type V = StateView;

    open spec fn view(&self) -> StateView {
        StateView {
            window: self.window@,
            tree: self.tree@,
            screenshot_png: self.screenshot_png@,
            screenshot_width: self.screenshot_width,
            screenshot_height: self.screenshot_height,
            screenshot_scale: self.screenshot_scale,
            focused_element: match self.focused_element {
                Some(f) => Some(f@),
                None => None,
            },
            accessibility_warning: opt_text(self.accessibility_warning),
        }
    }
}

/// An element that can be acted on: its middle on the screen, the action that
/// is what a click does, and the window that it lies in.
#[derive(Debug)]
pub struct ElementTarget {
    pub center_x: Real,
    pub center_y: Real,
    pub click_action: Option<String>,
    pub window_uuid: String,
}

/// An element that can be acted on.
#[verifier::ext_equal]
pub struct TargetView {
    pub center_x: Real,
    pub center_y: Real,
    pub click_action: Option<Seq<char>>,
    pub window_uuid: Seq<char>,
}

impl View for ElementTarget {
    type V = TargetView;

    open spec fn view(&self) -> TargetView {
        TargetView {
            center_x: self.center_x,
            center_y: self.center_y,
            click_action: opt_text(self.click_action),
            window_uuid: self.window_uuid@,
        }
    }
}

/// A point on the screen that lies in a window.
#[derive(Debug)]
pub struct PreparedPoint {
    pub x: Real,
    pub y: Real,
    pub window_uuid: String,
}

/// A point on the screen that lies in a window.
#[verifier::ext_equal]
pub struct PointView {
    pub x: Real,
    pub y: Real,
    pub window_uuid: Seq<char>,
}

impl View for PreparedPoint {
    type V = PointView;

    open spec fn view(&self) -> PointView {
        PointView { x: self.x, y: self.y, window_uuid: self.window_uuid@ }
    }
}

/// Whether a window goes by a name of its own: its desktop file or, for want of
/// one, its class, which must not be `unnamed`.
pub open spec fn has_own_name(w: WindowView) -> bool {
    own_name(w).len() > 0 && !same_ascii_folded(own_name(w), "unnamed"@)
}

/// The desktop file of a window or, for want of one, its class.
pub open spec fn own_name(w: WindowView) -> Seq<char> {
    if trimmed(w.desktop_file).len() > 0 {
        trimmed(w.desktop_file)
    } else {
        trimmed(w.resource_class)
    }
}

/// Whether an entry of the list is that of a window: under its exact name, by
/// its caption or, for want of one, by what it goes by, and as one that runs.
pub open spec fn is_entry_of(o: OfferView, w: WindowView) -> bool {
    &&& o.id == exact_id(w)
    &&& o.is_running
    &&& o.display_name == Some(
        if trimmed(w.caption).len() > 0 {
            w.caption
        } else {
            own_name(w)
        },
    )
}

/// Whether an entry of the list is that of one of the windows that go by a name
/// of their own.
pub open spec fn comes_from(o: OfferView, windows: Seq<WindowView>) -> bool {
    exists|i: int|
        0 <= i < windows.len() && has_own_name(windows[i]) && is_entry_of(o, #[trigger] windows[i])
}

/// Whether a window has an entry in the list.
pub open spec fn is_listed(w: WindowView, all: Seq<OfferView>) -> bool {
    exists|k: int| 0 <= k < all.len() && is_entry_of(#[trigger] all[k], w)
}

proof fn lemma_offered(windows: Seq<WindowView>)
    ensures
        forall|k: int|
            0 <= k < offered(windows).len() ==> #[trigger] comes_from(
                offered(windows)[k],
                windows,
            ),
        forall|i: int|
            0 <= i < windows.len() && has_own_name(windows[i]) ==> #[trigger] is_listed(
                windows[i],
                offered(windows),
            ),
        offered(windows).len() <= windows.len(),
    decreases windows.len(),
{
    if windows.len() > 0 {
        let rest = windows.drop_last();
        let last = windows.last();
        let all = offered(windows);
        let before = offered(rest);
        lemma_offered(rest);
        assert(windows[windows.len() - 1] == last);
        assert(has_own_name(last) <==> offer(last) is Some);
        assert forall|k: int| 0 <= k < all.len() implies #[trigger] comes_from(all[k], windows) by {
            if k < before.len() {
                assert(all[k] == before[k]);
                assert(comes_from(before[k], rest));
                let i = choose|i: int|
                    0 <= i < rest.len() && has_own_name(rest[i]) && is_entry_of(
                        before[k],
                        #[trigger] rest[i],
                    );
                assert(windows[i] == rest[i]);
            } else {
                assert(is_entry_of(all[k], windows[windows.len() - 1]));
            }
        }
        assert forall|i: int| 0 <= i < windows.len() && has_own_name(
            windows[i],
        ) implies #[trigger] is_listed(windows[i], all) by {
            if i < rest.len() {
                assert(rest[i] == windows[i]);
                assert(is_listed(rest[i], before));
                let k = choose|k: int|
                    0 <= k < before.len() && is_entry_of(#[trigger] before[k], rest[i]);
                assert(all[k] == before[k]);
            } else {
                assert(is_entry_of(all[before.len() as int], last));
            }
        }
    }
}

/// The list of the applications holds an entry for every window that goes by a
/// name of its own, and no others, in the order of their exact names.
pub proof fn law_named_windows_are_listed(windows: Seq<WindowView>)
    ensures
        ({
            let all = offers_by_id(offered(windows));
            &&& all.len() <= windows.len()
            &&& forall|k: int| 0 <= k < all.len() ==> #[trigger] comes_from(all[k], windows)
            &&& forall|i: int|
                0 <= i < windows.len() && has_own_name(windows[i]) ==> #[trigger] is_listed(
                    windows[i],
                    all,
                )
            &&& forall|a: int, b: int|
                0 <= a < b < all.len() ==> crate::order::text_le(
                    (#[trigger] all[a]).id,
                    (#[trigger] all[b]).id,
                )
        }),
{
    let found = offered(windows);
    let ids = offer_ids(found);
    let all = offers_by_id(found);
    let order = ranked(ids);
    lemma_offered(windows);
    crate::order::law_ranks_sort(ids);
    assert forall|k: int| 0 <= k < all.len() implies #[trigger] comes_from(all[k], windows) by {
        assert(all[k] == found[order[k]]);
        assert(comes_from(found[order[k]], windows));
    }
    assert forall|i: int| 0 <= i < windows.len() && has_own_name(windows[i]) implies #[trigger] is_listed(
        windows[i],
        all,
    ) by {
        assert(is_listed(windows[i], found));
        let p = choose|p: int|
            0 <= p < found.len() && is_entry_of(#[trigger] found[p], windows[i]);
        assert(order.contains(p));
        let k = choose|k: int| 0 <= k < order.len() && order[k] == p;
        assert(all[k] == found[p]);
    }
    assert forall|a: int, b: int| 0 <= a < b < all.len() implies crate::order::text_le(
        (#[trigger] all[a]).id,
        (#[trigger] all[b]).id,
    ) by {
        assert(all[a] == found[order[a]] && all[b] == found[order[b]]);
        assert(ids[order[a]] == all[a].id && ids[order[b]] == all[b].id);
    }
}

/// Whether a name stands for a window in the form in which names are compared.
pub open spec fn is_window_name(name: Seq<char>, w: WindowView) -> bool {
    let n = identity(name);
    &&& n.len() > 0
    &&& {
        ||| own_name(w).len() > 0 && identity(own_name(w)) == n
        ||| trimmed(w.resource_class).len() > 0 && identity(w.resource_class) == n
        ||| trimmed(w.resource_name).len() > 0 && identity(w.resource_name) == n
        ||| trimmed(w.caption).len() > 0 && identity(w.caption) == n
    }
}

/// Whether a root can be that of a window: it has a name, and it belongs to the
/// window's process, or to a process below that one while it goes by a name of
/// the window.
pub open spec fn may_be_root_of(root: RootView, w: WindowView) -> bool {
    trimmed(root.name).len() > 0 && (root.pid == w.pid || root.descendant && is_window_name(
        root.name,
        w,
    ))
}

proof fn lemma_standing_roots(roots: Seq<RootView>, w: WindowView, n: nat)
    requires
        n <= roots.len(),
    ensures
        ({
            let places = standing(roots, w, name_marks(roots, w), n);
            &&& forall|k: int|
                0 <= k < places.len() ==> 0 <= #[trigger] places[k] < n && may_be_root_of(
                    roots[places[k]],
                    w,
                )
            &&& forall|i: int|
                0 <= i < n && may_be_root_of(#[trigger] roots[i], w) ==> places.contains(i)
            &&& forall|a: int, b: int|
                0 <= a < b < places.len() ==> #[trigger] places[a] < #[trigger] places[b]
        }),
    decreases n,
{
    if n > 0 {
        let marks = name_marks(roots, w);
        let before = standing(roots, w, marks, (n - 1) as nat);
        let places = standing(roots, w, marks, n);
        lemma_standing_roots(roots, w, (n - 1) as nat);
        lemma_own_name_trimmed(w);
        assert(correlated(roots[n - 1], w, marks[n - 1]) == may_be_root_of(roots[n - 1], w));
        assert forall|i: int| 0 <= i < n && may_be_root_of(#[trigger] roots[i], w) implies
            places.contains(i) by {
            if i < n - 1 {
                assert(before.contains(i));
                let k = choose|k: int| 0 <= k < before.len() && before[k] == i;
                assert(places[k] == i);
            } else {
                assert(places[places.len() - 1] == i);
            }
        }
    }
}

proof fn lemma_own_name_trimmed(w: WindowView)
    ensures
        trimmed(own_name(w)).len() > 0 <==> own_name(w).len() > 0,
{
    let (i, j) = crate::text::law_trimming_takes_white_space(w.desktop_file);
    let (k, l) = crate::text::law_trimming_takes_white_space(w.resource_class);
    let name = own_name(w);
    if name.len() > 0 {
        crate::text::lemma_trimmed_keeps(name);
    } else {
        let (a, b) = crate::text::law_trimming_takes_white_space(name);
    }
}

/// The root of a window is found just where one root alone can be that of the
/// window, and is that one.
pub proof fn law_the_only_root_of_a_window_is_found(roots: Seq<RootView>, w: WindowView, i: int)
    ensures
        root_place(roots, w) == Ok::<int, FaultView>(i) <==> {
            &&& 0 <= i < roots.len()
            &&& may_be_root_of(roots[i], w)
            &&& forall|j: int|
                0 <= j < roots.len() && may_be_root_of(#[trigger] roots[j], w) ==> j == i
        },
{
    let places = standing(roots, w, name_marks(roots, w), roots.len());
    lemma_standing_roots(roots, w, roots.len());
    if root_place(roots, w) == Ok::<int, FaultView>(i) {
        assert(places[0] == i);
        assert forall|j: int| 0 <= j < roots.len() && may_be_root_of(
            #[trigger] roots[j],
            w,
        ) implies j == i by {
            assert(places.contains(j));
        }
    }
    if 0 <= i < roots.len() && may_be_root_of(roots[i], w) && forall|j: int|
        0 <= j < roots.len() && may_be_root_of(#[trigger] roots[j], w) ==> j == i {
        assert(places.contains(i));
        let k = choose|k: int| 0 <= k < places.len() && places[k] == i;
        if places.len() > 1 {
            assert(places[0] < places[1]);
            assert(may_be_root_of(roots[places[0]], w) && may_be_root_of(roots[places[1]], w));
        }
    }
}

/// What is asked for is the application of an exact name, which stands before
/// the at sign, or else the name itself, in the form in which names are
/// compared.
pub proof fn law_exact_names_ask_for_their_app(who: Seq<char>, uuid: Seq<char>, plain: Seq<char>)
    requires
        !uuid.contains('@'),
        uuid.len() >= 1,
        uuid[0] == '{',
        uuid.last() == '}',
        !plain.contains('@'),
    ensures
        exact_app(who.push('@') + uuid) == Some(who),
        requested(who.push('@') + uuid) == identity(who),
        exact_app(plain) is None,
        requested(plain) == identity(plain),
{
    let value = who.push('@') + uuid;
    let k = who.len() as int;
    assert forall|j: int| k < j < value.len() implies value[j] != '@' by {
        assert(value[j] == uuid[j - k - 1]);
    }
    crate::text::lemma_last_at(value, '@', k);
    assert(value.subrange(0, k) =~= who);
    assert(value.subrange(k + 1, value.len() as int) =~= uuid);
    reveal_strlit("{");
    reveal_strlit("}");
    assert("{"@ =~= uuid.subrange(0, 1));
    assert("}"@ =~= uuid.subrange(uuid.len() - 1, uuid.len() as int));
    crate::text::law_last_occurrences_are_last(plain, '@');
    if last_at(plain, '@') >= 0 {
        assert(plain.contains('@'));
    }
}

/// A name can be that of an application unless it is empty or `unnamed`, and it
/// is taken as it is.
pub proof fn law_names_of_apps_are_kept(name: Seq<char>, w: WindowView)
    ensures
        app_check(name) is Err <==> name.len() == 0 || name == "unnamed"@,
        app_check(name) is Ok ==> app_check(name) == Ok::<Seq<char>, FaultView>(name),
        goes_by(w) == own_name(w),
{
}

/// What is handed over between the parts of a call is seen as it is.
pub proof fn law_results_are_seen_as_they_are(
    app: AppInfo,
    root: RootInfo,
    state: AppState,
    target: ElementTarget,
    point: PreparedPoint,
)
    ensures
        app@.id == app.id@,
        app@.display_name == opt_text(app.display_name),
        app@.is_running == app.is_running,
        root@.name == root.name@ && root@.pid == root.pid && root@.descendant == root.descendant,
        state@.window == state.window@,
        state@.tree == state.tree@,
        state@.screenshot_png == state.screenshot_png@,
        state@.screenshot_width == state.screenshot_width,
        state@.screenshot_height == state.screenshot_height,
        state@.screenshot_scale == state.screenshot_scale,
        state.focused_element is None <==> state@.focused_element is None,
        state.focused_element matches Some(f) ==> state@.focused_element == Some(f@),
        state@.accessibility_warning == opt_text(state.accessibility_warning),
        target@.center_x == target.center_x && target@.center_y == target.center_y,
        target@.click_action == opt_text(target.click_action),
        target@.window_uuid == target.window_uuid@,
        point@.x == point.x && point@.y == point.y,
        point@.window_uuid == point.window_uuid@,
{
}

} // verus!
