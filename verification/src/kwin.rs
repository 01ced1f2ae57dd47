//! The windows that the compositor reports: what is known of each, how an
//! application is told from another, and which window a query stands for.

use crate::binary64::Real;
use crate::fault::{agrees, general, under, Fault, FaultKind, FaultView};
use crate::text::{
    blank, cut, ends_with, join, joined, last_at, lowercase, quote, quoted, rsplit_once, same,
    starts_with, strip_suffix, texts, to_lowercase, trim, trimmed, without_suffix,
};
use vstd::prelude::*;

verus! {

/// A window of the compositor. Positions and sizes are in compositor
/// coordinates.
#[derive(Debug)]
pub struct WindowInfo {
    pub uuid: String,
    pub caption: String,
    pub resource_class: String,
    pub resource_name: String,
    pub desktop_file: String,
    pub pid: u32,
    pub x: Real,
    pub y: Real,
    pub width: Real,
    pub height: Real,
    pub minimized: bool,
    pub fullscreen: bool,
}

/// What is known of a window.
#[verifier::ext_equal]
pub struct WindowView {
    pub uuid: Seq<char>,
    pub caption: Seq<char>,
    pub resource_class: Seq<char>,
    pub resource_name: Seq<char>,
    pub desktop_file: Seq<char>,
    pub pid: u32,
    pub x: Real,
    pub y: Real,
    pub width: Real,
    pub height: Real,
    pub minimized: bool,
    pub fullscreen: bool,
}

impl View for WindowInfo {
    type V = WindowView;

    open spec fn view(&self) -> WindowView {
        WindowView {
            uuid: self.uuid@,
            caption: self.caption@,
            resource_class: self.resource_class@,
            resource_name: self.resource_name@,
            desktop_file: self.desktop_file@,
            pid: self.pid,
            x: self.x,
            y: self.y,
            width: self.width,
            height: self.height,
            minimized: self.minimized,
            fullscreen: self.fullscreen,
        }
    }
}

impl Clone for WindowInfo {
    fn clone(&self) -> (r: WindowInfo)
        ensures
            r@ == self@,
    {
        WindowInfo {
            uuid: self.uuid.clone(),
            caption: self.caption.clone(),
            resource_class: self.resource_class.clone(),
            resource_name: self.resource_name.clone(),
            desktop_file: self.desktop_file.clone(),
            pid: self.pid,
            x: self.x,
            y: self.y,
            width: self.width,
            height: self.height,
            minimized: self.minimized,
            fullscreen: self.fullscreen,
        }
    }
}

/// A window together with what decides whether it is a normal task window.
#[derive(Debug)]
pub struct WindowRecord {
    pub info: WindowInfo,
    pub window_type: i32,
    pub skip_taskbar: bool,
}

/// What is known of a window and its role.
#[verifier::ext_equal]
pub struct RecordView {
    pub info: WindowView,
    pub window_type: i32,
    pub skip_taskbar: bool,
}

impl View for WindowRecord {
    type V = RecordView;

    open spec fn view(&self) -> RecordView {
        RecordView {
            info: self.info@,
            window_type: self.window_type,
            skip_taskbar: self.skip_taskbar,
        }
    }
}

/// The windows of some records.
pub open spec fn infos(records: Seq<WindowRecord>) -> Seq<WindowView> {
    Seq::new(records.len(), |i: int| records[i].info@)
}

/// Whether a failure says that no window was found.
pub fn is_window_not_found(error: &Fault) -> (r: bool)
    ensures
        r == (error@.kind == FaultKind::WindowNotFound),
{
    matches!(error.kind, FaultKind::WindowNotFound)
}

/// A text without surrounding white space, in lower case.
pub open spec fn normal(s: Seq<char>) -> Seq<char> {
    lowercase(trimmed(s))
}

/// Removes surrounding white space and folds to lower case.
pub fn normalize(value: &str) -> (r: String)
    ensures
        r@ == normal(value@),
{
    to_lowercase(trim(value))
}

/// The name by which an application is compared: in normal form and without
/// the suffix of desktop files.
pub open spec fn identity(s: Seq<char>) -> Seq<char> {
    without_suffix(normal(s), ".desktop"@)
}

/// Reduces an application's name to the form in which names are compared.
pub fn desktop_identity(value: &str) -> (r: String)
    ensures
        r@ == identity(value@),
{
    let normalized = normalize(value);
    strip_suffix(normalized.as_str(), ".desktop").to_owned()
}

/// The application that a window belongs to.
pub open spec fn app_of(w: WindowView) -> Seq<char> {
    if trimmed(w.desktop_file).len() == 0 {
        normal(w.resource_class)
    } else {
        identity(w.desktop_file)
    }
}

/// The application that a window belongs to.
pub fn app_identity(window: &WindowInfo) -> (r: String)
    ensures
        r@ == app_of(window@),
{
    if blank(window.desktop_file.as_str()) {
        normalize(window.resource_class.as_str())
    } else {
        desktop_identity(window.desktop_file.as_str())
    }
}

/// The name of a window that no other window has.
pub open spec fn exact_id(w: WindowView) -> Seq<char> {
    app_of(w) + "@"@ + w.uuid
}

/// The name of a window that no other window has.
pub fn exact_window_id(window: &WindowInfo) -> (r: String)
    ensures
        r@ == exact_id(window@),
{
    let mut id = app_identity(window);
    id.append("@");
    id.append(window.uuid.as_str());
    id
}

/// Whether a name that is not empty stands for a query.
pub open spec fn named(name: Seq<char>, query: Seq<char>) -> bool {
    name.len() > 0 && identity(name) == query
}

/// Whether a window is one that a query stands for: by its desktop file, its
/// class, its name or its caption, each compared as a whole.
pub open spec fn fits_query(w: WindowView, query: Seq<char>) -> bool {
    ||| identity(w.desktop_file).len() > 0 && identity(w.desktop_file) == query
    ||| named(normal(w.resource_class), query)
    ||| named(normal(w.resource_name), query)
    ||| named(normal(w.caption), query)
}

/// Whether a name that is not empty, and is compared by its identity, stands
/// for a query.
pub fn is_named(name: &str, compared: &str, query: &str) -> (r: bool)
    ensures
        r == (name@.len() > 0 && compared@ == query@),
{
    name.unicode_len() > 0 && same(compared, query)
}

/// How well a window fits a query; `None` where it does not.
pub fn score(window: &WindowInfo, query: &str) -> (r: Option<u8>)
    ensures
        r == (if fits_query(window@, query@) {
            Some(100u8)
        } else {
            None
        }),
{
    let desktop = desktop_identity(window.desktop_file.as_str());
    let class = normalize(window.resource_class.as_str());
    let name = normalize(window.resource_name.as_str());
    let caption = normalize(window.caption.as_str());
    if is_named(desktop.as_str(), desktop.as_str(), query) || is_named(
        class.as_str(),
        desktop_identity(class.as_str()).as_str(),
        query,
    ) || is_named(name.as_str(), desktop_identity(name.as_str()).as_str(), query) || is_named(
        caption.as_str(),
        desktop_identity(caption.as_str()).as_str(),
        query,
    ) {
        Some(100)
    } else {
        None
    }
}

/// The parts of a name of the form `<identity>@{<uuid>}`; `None` for a name of
/// another form, a failure where a part is missing.
pub open spec fn exact_parts(value: Seq<char>) -> Result<
    Option<(Seq<char>, Seq<char>)>,
    FaultView,
> {
    match cut(value, last_at(value, '@')) {
        None => Ok(None),
        Some((who, uuid)) => if !("{"@.is_prefix_of(uuid) && "}"@.is_suffix_of(uuid)) {
            Ok(None)
        } else if trimmed(who).len() == 0 || uuid.len() <= 2 {
            Err(
                general(
                    "invalid exact window ID "@ + quoted(value)
                        + "; expected <identity>@{<uuid>}"@,
                ),
            )
        } else {
            Ok(Some((who, uuid)))
        },
    }
}

/// Takes a name of the form `<identity>@{<uuid>}` apart.
pub fn parse_exact_window_id(value: &str) -> (r: Result<Option<(&str, &str)>, Fault>)
    ensures
        match (r, exact_parts(value@)) {
            (Ok(Some((a, b))), Ok(Some((c, d)))) => a@ == c && b@ == d,
            (Ok(None), Ok(None)) => true,
            (Err(f), Err(e)) => f@ == e,
            _ => false,
        },
{
    match rsplit_once(value, '@') {
        None => Ok(None),
        Some((who, uuid)) => {
            if !starts_with(uuid, "{") || !ends_with(uuid, "}") {
                return Ok(None);
            }
            if blank(who) || uuid.unicode_len() <= 2 {
                let mut message = "invalid exact window ID ".to_owned();
                message.append(quote(value).as_str());
                message.append("; expected <identity>@{<uuid>}");
                return Err(Fault::new(message));
            }
            Ok(Some((who, uuid)))
        },
    }
}

/// The first window with a UUID.
pub open spec fn with_uuid(windows: Seq<WindowView>, uuid: Seq<char>) -> Option<WindowView>
    decreases windows.len(),
{
    if windows.len() == 0 {
        None
    } else {
        match with_uuid(windows.drop_last(), uuid) {
            Some(w) => Some(w),
            None => if windows.last().uuid == uuid {
                Some(windows.last())
            } else {
                None
            },
        }
    }
}

/// The windows that a query stands for, in order.
pub open spec fn hits(windows: Seq<WindowView>, query: Seq<char>) -> Seq<WindowView>
    decreases windows.len(),
{
    if windows.len() == 0 {
        Seq::empty()
    } else {
        let before = hits(windows.drop_last(), query);
        if fits_query(windows.last(), query) {
            before.push(windows.last())
        } else {
            before
        }
    }
}

/// Which of the windows a query stands for.
pub open spec fn fitting_marks(windows: Seq<WindowView>, query: Seq<char>) -> Seq<bool> {
    Seq::new(windows.len(), |i: int| fits_query(windows[i], query))
}

/// The windows that are marked, in order.
pub open spec fn marked(windows: Seq<WindowView>, marks: Seq<bool>) -> Seq<WindowView>
    decreases windows.len(),
{
    if windows.len() == 0 {
        Seq::empty()
    } else {
        let before = marked(windows.drop_last(), marks.drop_last());
        if marks.last() {
            before.push(windows.last())
        } else {
            before
        }
    }
}

/// The exact names of some windows.
pub open spec fn exact_ids(windows: Seq<WindowView>) -> Seq<Seq<char>> {
    Seq::new(windows.len(), |i: int| exact_id(windows[i]))
}

/// How a window is listed where nothing was found.
pub open spec fn listed(w: WindowView) -> Seq<char> {
    app_of(w) + " ("@ + quoted(w.caption) + ")"@
}

/// How windows are listed where nothing was found.
pub open spec fn listing(windows: Seq<WindowView>) -> Seq<Seq<char>> {
    Seq::new(windows.len(), |i: int| listed(windows[i]))
}

/// The window that an exact name stands for.
pub open spec fn resolved_exactly(
    windows: Seq<WindowView>,
    app: Seq<char>,
    who: Seq<char>,
    uuid: Seq<char>,
) -> Result<WindowView, FaultView> {
    match with_uuid(windows, uuid) {
        None => Err(
            general(
                "exact window ID "@ + quoted(app) + " is stale; UUID "@ + uuid
                    + " is not present in fresh KWin records"@,
            ),
        ),
        Some(w) => if identity(who) == identity(app_of(w)) {
            Ok(w)
        } else {
            Err(
                general(
                    "exact window ID "@ + quoted(app) + " identity mismatch: UUID "@ + uuid
                        + " currently belongs to "@ + quoted(app_of(w)),
                ),
            )
        },
    }
}

/// The one window that is marked for a query.
pub open spec fn resolved_by_marks(
    windows: Seq<WindowView>,
    app: Seq<char>,
    query: Seq<char>,
    marks: Seq<bool>,
) -> Result<WindowView, FaultView> {
    if query.len() == 0 || query == "unnamed"@ {
        Err(general("application query must be non-empty and cannot be \"Unnamed\""@))
    } else {
        let found = marked(windows, marks);
        if found.len() == 0 {
            Err(
                FaultView {
                    kind: FaultKind::WindowNotFound,
                    message: "application "@ + quoted(app) + " not found; available windows: "@
                        + joined(listing(windows), ", "@),
                },
            )
        } else if found.len() == 1 {
            Ok(found[0])
        } else {
            Err(
                general(
                    "application "@ + quoted(app) + " is ambiguous; candidates: "@ + joined(
                        exact_ids(found),
                        ", "@,
                    ),
                ),
            )
        }
    }
}

/// The one window that a query stands for.
pub open spec fn resolved_by_name(windows: Seq<WindowView>, app: Seq<char>) -> Result<
    WindowView,
    FaultView,
> {
    resolved_by_marks(windows, app, identity(app), fitting_marks(windows, identity(app)))
}

/// The window that a name or a query stands for.
pub open spec fn resolved(windows: Seq<WindowView>, app: Seq<char>) -> Result<
    WindowView,
    FaultView,
> {
    match exact_parts(app) {
        Err(e) => Err(e),
        Ok(Some((who, uuid))) => resolved_exactly(windows, app, who, uuid),
        Ok(None) => resolved_by_name(windows, app),
    }
}

fn find_uuid(records: &Vec<WindowRecord>, uuid: &str) -> (r: Option<usize>)
    ensures
        match r {
            Some(i) => i < records@.len() && with_uuid(infos(records@), uuid@) == Some(
                records@[i as int].info@,
            ),
            None => with_uuid(infos(records@), uuid@) is None,
        },
{
    let ghost all = infos(records@);
    let mut i: usize = records.len();
    let mut at: Option<usize> = None;
    assert(all.take(i as int) =~= all);
    while i > 0
        invariant
            i <= records@.len(),
            all == infos(records@),
            match at {
                Some(k) => k < records@.len(),
                None => true,
            },
            with_uuid(all, uuid@) == (match with_uuid(all.take(i as int), uuid@) {
                Some(w) => Some(w),
                None => match at {
                    Some(k) => Some(all[k as int]),
                    None => None,
                },
            }),
        decreases i,
    {
        assert(all.take(i as int).drop_last() =~= all.take(i - 1));
        i -= 1;
        if same(records[i].info.uuid.as_str(), uuid) {
            at = Some(i);
        }
    }
    at
}

fn find_marked(records: &Vec<WindowRecord>, marks: &Vec<bool>) -> (r: Vec<usize>)
    requires
        marks@.len() == records@.len(),
    ensures
        marked(infos(records@), marks@).len() == r@.len(),
        forall|i: int|
            0 <= i < r@.len() ==> #[trigger] r@[i] < records@.len() && records@[r@[i] as int].info@
                == marked(infos(records@), marks@)[i],
{
    let ghost all = infos(records@);
    let mut found: Vec<usize> = Vec::new();
    let mut i: usize = 0;
    while i < records.len()
        invariant
            i <= records@.len() == marks@.len(),
            all == infos(records@),
            marked(all.take(i as int), marks@.take(i as int)).len() == found@.len(),
            forall|k: int|
                0 <= k < found@.len() ==> #[trigger] found@[k] < records@.len()
                    && records@[found@[k] as int].info@ == marked(
                    all.take(i as int),
                    marks@.take(i as int),
                )[k],
        decreases records@.len() - i,
    {
        assert(all.take(i + 1).drop_last() =~= all.take(i as int));
        assert(marks@.take(i + 1).drop_last() =~= marks@.take(i as int));
        if marks[i] {
            found.push(i);
        }
        i += 1;
    }
    assert(all.take(i as int) =~= all);
    assert(marks@.take(i as int) =~= marks@);
    found
}

fn not_found(records: &Vec<WindowRecord>, app: &str) -> (r: Fault)
    ensures
        r@.kind == FaultKind::WindowNotFound,
        r@.message == "application "@ + quoted(app@) + " not found; available windows: "@ + joined(
            listing(infos(records@)),
            ", "@,
        ),
{
    let mut available: Vec<String> = Vec::new();
    let mut i: usize = 0;
    while i < records.len()
        invariant
            i <= records@.len(),
            texts(available@) == listing(infos(records@)).take(i as int),
        decreases records@.len() - i,
    {
        let ghost was = available@;
        let mut line = app_identity(&records[i].info);
        line.append(" (");
        line.append(quote(records[i].info.caption.as_str()).as_str());
        line.append(")");
        available.push(line);
        assert(texts(available@) =~= texts(was).push(line@));
        assert(listing(infos(records@)).take(i + 1) =~= listing(infos(records@)).take(
            i as int,
        ).push(line@));
        i += 1;
    }
    assert(listing(infos(records@)).take(i as int) =~= listing(infos(records@)));
    let mut message = "application ".to_owned();
    message.append(quote(app).as_str());
    message.append(" not found; available windows: ");
    message.append(join(&available, ", ").as_str());
    Fault { kind: FaultKind::WindowNotFound, message }
}

fn ambiguous(
    records: &Vec<WindowRecord>,
    app: &str,
    found: &Vec<usize>,
    windows: Ghost<Seq<WindowView>>,
) -> (r: Fault)
    requires
        windows@.len() == found@.len(),
        forall|i: int|
            0 <= i < found@.len() ==> #[trigger] found@[i] < records@.len()
                && records@[found@[i] as int].info@ == windows@[i],
    ensures
        r@ == general(
            "application "@ + quoted(app@) + " is ambiguous; candidates: "@ + joined(
                exact_ids(windows@),
                ", "@,
            ),
        ),
{
    let mut candidates: Vec<String> = Vec::new();
    let mut i: usize = 0;
    while i < found.len()
        invariant
            i <= found@.len() == windows@.len(),
            forall|k: int|
                0 <= k < found@.len() ==> #[trigger] found@[k] < records@.len()
                    && records@[found@[k] as int].info@ == windows@[k],
            texts(candidates@) == exact_ids(windows@).take(i as int),
        decreases found@.len() - i,
    {
        let ghost was = candidates@;
        let id = exact_window_id(&records[found[i]].info);
        candidates.push(id);
        assert(texts(candidates@) =~= texts(was).push(id@));
        assert(exact_ids(windows@).take(i + 1) =~= exact_ids(windows@).take(i as int).push(id@));
        i += 1;
    }
    assert(exact_ids(windows@).take(i as int) =~= exact_ids(windows@));
    let mut message = "application ".to_owned();
    message.append(quote(app).as_str());
    message.append(" is ambiguous; candidates: ");
    message.append(join(&candidates, ", ").as_str());
    Fault::new(message)
}

/// Finds the one window that is marked for a query.
pub fn resolve_by_marks(
    records: &Vec<WindowRecord>,
    app: &str,
    query: &str,
    marks: &Vec<bool>,
) -> (r: Result<WindowInfo, Fault>)
    requires
        marks@.len() == records@.len(),
    ensures
        agrees(r, resolved_by_marks(infos(records@), app@, query@, marks@)),
{
    if query.unicode_len() == 0 || same(query, "unnamed") {
        return Err(
            Fault::of("application query must be non-empty and cannot be \"Unnamed\""),
        );
    }
    let found = find_marked(records, marks);
    if found.len() == 0 {
        return Err(not_found(records, app));
    }
    if found.len() == 1 {
        return Ok(records[found[0]].info.clone());
    }
    Err(ambiguous(records, app, &found, Ghost(marked(infos(records@), marks@))))
}

/// Finds the one window that a name or a query stands for.
pub fn resolve_records(records: &Vec<WindowRecord>, app: &str) -> (r: Result<WindowInfo, Fault>)
    ensures
        agrees(r, resolved(infos(records@), app@)),
{
    match parse_exact_window_id(app) {
        Err(fault) => return Err(fault),
        Ok(Some((who, uuid))) => {
            let at = match find_uuid(records, uuid) {
                Some(at) => at,
                None => {
                    let mut message = "exact window ID ".to_owned();
                    message.append(quote(app).as_str());
                    message.append(" is stale; UUID ");
                    message.append(uuid);
                    message.append(" is not present in fresh KWin records");
                    return Err(Fault::new(message));
                },
            };
            let actual = app_identity(&records[at].info);
            if !same(desktop_identity(who).as_str(), desktop_identity(actual.as_str()).as_str()) {
                let mut message = "exact window ID ".to_owned();
                message.append(quote(app).as_str());
                message.append(" identity mismatch: UUID ");
                message.append(uuid);
                message.append(" currently belongs to ");
                message.append(quote(actual.as_str()).as_str());
                return Err(Fault::new(message));
            }
            return Ok(records[at].info.clone());
        },
        Ok(None) => {},
    }
    let query = desktop_identity(app);
    let mut marks: Vec<bool> = Vec::new();
    let mut i: usize = 0;
    while i < records.len()
        invariant
            i <= records@.len(),
            marks@ == fitting_marks(infos(records@), query@).take(i as int),
        decreases records@.len() - i,
    {
        let ghost was = marks@;
        let fits = score(&records[i].info, query.as_str()).is_some();
        marks.push(fits);
        assert(fitting_marks(infos(records@), query@).take(i + 1) =~= was.push(fits));
        i += 1;
    }
    assert(marks@ =~= fitting_marks(infos(records@), query@));
    resolve_by_marks(records, app, query.as_str(), &marks)
}

proof fn lemma_with_uuid_is_listed(windows: Seq<WindowView>, uuid: Seq<char>)
    ensures
        match with_uuid(windows, uuid) {
            Some(w) => windows.contains(w) && w.uuid == uuid,
            None => true,
        },
    decreases windows.len(),
{
    if windows.len() > 0 {
        let before = windows.drop_last();
        lemma_with_uuid_is_listed(before, uuid);
        if let Some(w) = with_uuid(before, uuid) {
            let i = choose|i: int| 0 <= i < before.len() && before[i] == w;
            assert(windows[i] == w);
        } else {
            assert(windows[windows.len() - 1] == windows.last());
        }
    }
}

proof fn lemma_hits_are_listed(windows: Seq<WindowView>, query: Seq<char>)
    ensures
        forall|k: int|
            0 <= k < hits(windows, query).len() ==> windows.contains(
                #[trigger] hits(windows, query)[k],
            ) && fits_query(hits(windows, query)[k], query),
        forall|i: int|
            0 <= i < windows.len() && fits_query(#[trigger] windows[i], query) ==> hits(
                windows,
                query,
            ).contains(windows[i]),
    decreases windows.len(),
{
    if windows.len() > 0 {
        let before = windows.drop_last();
        let all = hits(windows, query);
        lemma_hits_are_listed(before, query);
        assert forall|k: int| 0 <= k < all.len() implies windows.contains(#[trigger] all[k])
            && fits_query(all[k], query) by {
            if k < hits(before, query).len() {
                let w = hits(before, query)[k];
                let i = choose|i: int| 0 <= i < before.len() && before[i] == w;
                assert(windows[i] == w);
            } else {
                assert(windows[windows.len() - 1] == all[k]);
            }
        }
        assert forall|i: int|
            0 <= i < windows.len() && fits_query(#[trigger] windows[i], query) implies all.contains(
            windows[i],
        ) by {
            if i < before.len() {
                assert(before[i] == windows[i]);
                let k = choose|k: int|
                    0 <= k < hits(before, query).len() && hits(before, query)[k] == windows[i];
                assert(all[k] == windows[i]);
            } else {
                assert(all[all.len() - 1] == windows[i]);
            }
        }
    }
}

proof fn lemma_marked_hits(windows: Seq<WindowView>, query: Seq<char>)
    ensures
        marked(windows, fitting_marks(windows, query)) == hits(windows, query),
    decreases windows.len(),
{
    if windows.len() > 0 {
        assert(fitting_marks(windows, query).drop_last() =~= fitting_marks(
            windows.drop_last(),
            query,
        ));
        lemma_marked_hits(windows.drop_last(), query);
    }
}

/// A query resolves only to a listed window, and never to one of several: any
/// listed window that the query stands for is the resolved one.
pub proof fn law_resolution_never_guesses(windows: Seq<WindowView>, app: Seq<char>, other: int)
    requires
        exact_parts(app) == Ok::<Option<(Seq<char>, Seq<char>)>, FaultView>(None),
        resolved(windows, app) is Ok,
        0 <= other < windows.len(),
        fits_query(windows[other], identity(app)),
    ensures
        windows.contains(resolved(windows, app)->Ok_0),
        fits_query(resolved(windows, app)->Ok_0, identity(app)),
        windows[other] == resolved(windows, app)->Ok_0,
{
    lemma_hits_are_listed(windows, identity(app));
    lemma_marked_hits(windows, identity(app));
}

/// An exact name resolves only to a listed window that has its UUID and
/// belongs to its application.
pub proof fn law_exact_resolution_is_exact(
    windows: Seq<WindowView>,
    app: Seq<char>,
    who: Seq<char>,
    uuid: Seq<char>,
)
    requires
        exact_parts(app) == Ok::<Option<(Seq<char>, Seq<char>)>, FaultView>(Some((who, uuid))),
        resolved(windows, app) is Ok,
    ensures
        windows.contains(resolved(windows, app)->Ok_0),
        resolved(windows, app)->Ok_0.uuid == uuid,
        identity(app_of(resolved(windows, app)->Ok_0)) == identity(who),
{
    lemma_with_uuid_is_listed(windows, uuid);
}

/// The exact name of a listed window resolves to that window: it holds of
/// every window whose UUID is written in braces, holds no `@` and is listed
/// for it first, and whose application has a name.
pub proof fn law_exact_ids_resolve(windows: Seq<WindowView>, w: WindowView)
    requires
        with_uuid(windows, w.uuid) == Some(w),
        "{"@.is_prefix_of(w.uuid),
        "}"@.is_suffix_of(w.uuid),
        w.uuid.len() > 2,
        !w.uuid.contains('@'),
        trimmed(app_of(w)).len() > 0,
    ensures
        resolved(windows, exact_id(w)) == Ok::<WindowView, FaultView>(w),
{
    reveal_strlit("@");
    let id = exact_id(w);
    let at = app_of(w).len() as int;
    assert(id[at] == '@');
    crate::text::lemma_last_at(id, '@', at);
    assert(id.subrange(0, at) =~= app_of(w));
    assert(id.subrange(at + 1, id.len() as int) =~= w.uuid);
}

/// A value of a property that the compositor reports.
#[derive(Debug)]
pub enum MetaValue<S> {
    Text(S),
    Int32(i32),
    Uint32(u32),
    Double(Real),
    Boolean(bool),
    Other,
}

impl MetaValue<String> {
    pub open spec fn view(self) -> MetaValue<Seq<char>> {
        match self {
            MetaValue::Text(s) => MetaValue::Text(s@),
            MetaValue::Int32(n) => MetaValue::Int32(n),
            MetaValue::Uint32(n) => MetaValue::Uint32(n),
            MetaValue::Double(x) => MetaValue::Double(x),
            MetaValue::Boolean(b) => MetaValue::Boolean(b),
            MetaValue::Other => MetaValue::Other,
        }
    }
}

/// The properties that the compositor reports of one thing, by name.
pub type Metadata = Vec<(String, MetaValue<String>)>;

/// What the compositor reports.
pub type MetadataView = Seq<(Seq<char>, MetaValue<Seq<char>>)>;

/// The properties by name.
pub open spec fn properties(m: Seq<(String, MetaValue<String>)>) -> MetadataView {
    Seq::new(m.len(), |i: int| (m[i].0@, m[i].1@))
}

/// The value of the first property with a name.
pub open spec fn property(m: MetadataView, key: Seq<char>) -> Result<
    MetaValue<Seq<char>>,
    FaultView,
>
    decreases m.len(),
{
    if m.len() == 0 {
        Err(general("missing metadata field "@ + key))
    } else {
        match property(m.drop_last(), key) {
            Ok(v) => Ok(v),
            Err(e) => if m.last().0 == key {
                Ok(m.last().1)
            } else {
                Err(e)
            },
        }
    }
}

/// The failure of reading a property as something that it is not.
pub open spec fn not_a(key: Seq<char>, what: Seq<char>) -> FaultView {
    general("metadata field "@ + key + " is not "@ + what + ": incorrect type"@)
}

pub open spec fn text_property(m: MetadataView, key: Seq<char>) -> Result<Seq<char>, FaultView> {
    match property(m, key) {
        Ok(MetaValue::Text(s)) => Ok(s),
        Ok(_) => Err(not_a(key, "a string"@)),
        Err(e) => Err(e),
    }
}

pub open spec fn i32_property(m: MetadataView, key: Seq<char>) -> Result<i32, FaultView> {
    match property(m, key) {
        Ok(MetaValue::Int32(n)) => Ok(n),
        Ok(_) => Err(not_a(key, "int32"@)),
        Err(e) => Err(e),
    }
}

pub open spec fn u32_property(m: MetadataView, key: Seq<char>) -> Result<u32, FaultView> {
    match property(m, key) {
        Ok(MetaValue::Uint32(n)) => Ok(n),
        Ok(_) => Err(not_a(key, "uint32"@)),
        Err(e) => Err(e),
    }
}

pub open spec fn double_property(m: MetadataView, key: Seq<char>) -> Result<Real, FaultView> {
    match property(m, key) {
        Ok(MetaValue::Double(x)) => Ok(x),
        Ok(_) => Err(not_a(key, "double"@)),
        Err(e) => Err(e),
    }
}

pub open spec fn bool_property(m: MetadataView, key: Seq<char>) -> Result<bool, FaultView> {
    match property(m, key) {
        Ok(MetaValue::Boolean(b)) => Ok(b),
        Ok(_) => Err(not_a(key, "boolean"@)),
        Err(e) => Err(e),
    }
}

/// Looks a property up.
pub fn required_value<'a>(metadata: &'a Metadata, key: &str) -> (r: Result<
    &'a MetaValue<String>,
    Fault,
>)
    ensures
        match (r, property(properties(metadata@), key@)) {
            (Ok(v), Ok(e)) => v@ == e,
            (Err(f), Err(e)) => f@ == e,
            _ => false,
        },
{
    let ghost all = properties(metadata@);
    let mut i: usize = 0;
    while i < metadata.len()
        invariant
            i <= metadata@.len(),
            all == properties(metadata@),
            property(all.take(i as int), key@) == Err::<MetaValue<Seq<char>>, FaultView>(
                general("missing metadata field "@ + key@),
            ),
        decreases metadata@.len() - i,
    {
        assert(all.take(i + 1).drop_last() =~= all.take(i as int));
        if same(metadata[i].0.as_str(), key) {
            proof {
                lemma_property_early(all, key@, i + 1);
            }
            return Ok(&metadata[i].1);
        }
        i += 1;
    }
    assert(all.take(i as int) =~= all);
    let mut message = "missing metadata field ".to_owned();
    message.append(key);
    Err(Fault::new(message))
}

proof fn lemma_property_early(m: MetadataView, key: Seq<char>, i: int)
    requires
        0 <= i <= m.len(),
        property(m.take(i), key) is Ok,
    ensures
        property(m, key) == property(m.take(i), key),
    decreases m.len(),
{
    if i < m.len() {
        assert(m.drop_last().take(i) =~= m.take(i));
        lemma_property_early(m.drop_last(), key, i);
    } else {
        assert(m.take(i) =~= m);
    }
}

fn wrong_type(key: &str, what: &str) -> (r: Fault)
    ensures
        r@ == not_a(key@, what@),
{
    let mut message = "metadata field ".to_owned();
    message.append(key);
    message.append(" is not ");
    message.append(what);
    message.append(": incorrect type");
    Fault::new(message)
}

/// Reads a property that has to be a text.
pub fn required_string(metadata: &Metadata, key: &str) -> (r: Result<String, Fault>)
    ensures
        agrees(r, text_property(properties(metadata@), key@)),
{
    match required_value(metadata, key) {
        Ok(MetaValue::Text(s)) => Ok(s.clone()),
        Ok(_) => Err(wrong_type(key, "a string")),
        Err(fault) => Err(fault),
    }
}

/// Reads a property that has to be a signed number.
pub fn required_i32(metadata: &Metadata, key: &str) -> (r: Result<i32, Fault>)
    ensures
        agrees(r, i32_property(properties(metadata@), key@)),
{
    match required_value(metadata, key) {
        Ok(MetaValue::Int32(n)) => Ok(*n),
        Ok(_) => Err(wrong_type(key, "int32")),
        Err(fault) => Err(fault),
    }
}

/// Reads a property that has to be an unsigned number.
pub fn required_u32(metadata: &Metadata, key: &str) -> (r: Result<u32, Fault>)
    ensures
        agrees(r, u32_property(properties(metadata@), key@)),
{
    match required_value(metadata, key) {
        Ok(MetaValue::Uint32(n)) => Ok(*n),
        Ok(_) => Err(wrong_type(key, "uint32")),
        Err(fault) => Err(fault),
    }
}

/// Reads a property that has to be a double.
pub fn required_f64(metadata: &Metadata, key: &str) -> (r: Result<Real, Fault>)
    ensures
        agrees(r, double_property(properties(metadata@), key@)),
{
    match required_value(metadata, key) {
        Ok(MetaValue::Double(x)) => Ok(*x),
        Ok(_) => Err(wrong_type(key, "double")),
        Err(fault) => Err(fault),
    }
}

/// Reads a property that has to be a truth value.
pub fn required_bool(metadata: &Metadata, key: &str) -> (r: Result<bool, Fault>)
    ensures
        agrees(r, bool_property(properties(metadata@), key@)),
{
    match required_value(metadata, key) {
        Ok(MetaValue::Boolean(b)) => Ok(*b),
        Ok(_) => Err(wrong_type(key, "boolean")),
        Err(fault) => Err(fault),
    }
}

/// The texts that describe a window.
pub struct Names {
    pub caption: Seq<char>,
    pub resource_class: Seq<char>,
    pub resource_name: Seq<char>,
    pub desktop_file: Seq<char>,
}

/// The texts that describe a window, as the compositor reports them.
pub open spec fn reported_names(m: MetadataView) -> Result<Names, FaultView> {
    match (
        text_property(m, "caption"@),
        text_property(m, "resourceClass"@),
        text_property(m, "resourceName"@),
        text_property(m, "desktopFile"@),
    ) {
        (Err(e), _, _, _) => Err(e),
        (_, Err(e), _, _) => Err(e),
        (_, _, Err(e), _) => Err(e),
        (_, _, _, Err(e)) => Err(e),
        (Ok(caption), Ok(resource_class), Ok(resource_name), Ok(desktop_file)) => Ok(
            Names { caption, resource_class, resource_name, desktop_file },
        ),
    }
}

/// The place of a window.
pub struct Frame {
    pub x: Real,
    pub y: Real,
    pub width: Real,
    pub height: Real,
}

/// The place of a window, as the compositor reports it.
pub open spec fn reported_frame(m: MetadataView) -> Result<Frame, FaultView> {
    match (
        double_property(m, "x"@),
        double_property(m, "y"@),
        double_property(m, "width"@),
        double_property(m, "height"@),
    ) {
        (Err(e), _, _, _) => Err(e),
        (_, Err(e), _, _) => Err(e),
        (_, _, Err(e), _) => Err(e),
        (_, _, _, Err(e)) => Err(e),
        (Ok(x), Ok(y), Ok(width), Ok(height)) => Ok(Frame { x, y, width, height }),
    }
}

/// The flags of a window and its type, as the compositor reports them.
pub open spec fn reported_role(m: MetadataView) -> Result<(bool, bool, i32, bool), FaultView> {
    match (
        bool_property(m, "minimized"@),
        bool_property(m, "fullscreen"@),
        i32_property(m, "type"@),
        bool_property(m, "skipTaskbar"@),
    ) {
        (Err(e), _, _, _) => Err(e),
        (_, Err(e), _, _) => Err(e),
        (_, _, Err(e), _) => Err(e),
        (_, _, _, Err(e)) => Err(e),
        (Ok(minimized), Ok(fullscreen), Ok(window_type), Ok(skip_taskbar)) => Ok(
            (minimized, fullscreen, window_type, skip_taskbar),
        ),
    }
}

/// The UUID and the process of a window, as the compositor reports them.
pub open spec fn reported_owner(m: MetadataView) -> Result<(Seq<char>, u32), FaultView> {
    match text_property(m, "uuid"@) {
        Err(e) => Err(e),
        Ok(uuid) => if trimmed(uuid).len() == 0 {
            Err(general("uuid is empty"@))
        } else {
            match i32_property(m, "pid"@) {
                Err(e) => Err(e),
                Ok(pid) => if pid < 0 {
                    Err(
                        general(
                            "pid is negative: out of range integral type conversion attempted"@,
                        ),
                    )
                } else {
                    Ok((uuid, pid as u32))
                },
            }
        },
    }
}

/// The record of a window that the compositor reports; where several
/// properties are missing or wrong, the failure is that of the first.
pub open spec fn reported_window(m: MetadataView) -> Result<RecordView, FaultView> {
    match (reported_owner(m), reported_names(m), reported_frame(m), reported_role(m)) {
        (Err(e), _, _, _) => Err(e),
        (_, Err(e), _, _) => Err(e),
        (_, _, Err(e), _) => Err(e),
        (_, _, _, Err(e)) => Err(e),
        (Ok((uuid, pid)), Ok(names), Ok(frame), Ok((minimized, fullscreen, window_type, skip))) => Ok(
            RecordView {
                info: WindowView {
                    uuid,
                    caption: names.caption,
                    resource_class: names.resource_class,
                    resource_name: names.resource_name,
                    desktop_file: names.desktop_file,
                    pid,
                    x: frame.x,
                    y: frame.y,
                    width: frame.width,
                    height: frame.height,
                    minimized,
                    fullscreen,
                },
                window_type,
                skip_taskbar: skip,
            },
        ),
    }
}

fn parse_owner(metadata: &Metadata) -> (r: Result<(String, u32), Fault>)
    ensures
        match (r, reported_owner(properties(metadata@))) {
            (Ok((uuid, pid)), Ok((u, p))) => uuid@ == u && pid == p,
            (Err(f), Err(e)) => f@ == e,
            _ => false,
        },
{
    let uuid = match required_string(metadata, "uuid") {
        Ok(v) => v,
        Err(fault) => return Err(fault),
    };
    if blank(uuid.as_str()) {
        return Err(Fault::of("uuid is empty"));
    }
    let pid = match required_i32(metadata, "pid") {
        Ok(v) => v,
        Err(fault) => return Err(fault),
    };
    if pid < 0 {
        return Err(
            Fault::of("pid is negative: out of range integral type conversion attempted"),
        );
    }
    Ok((uuid, pid as u32))
}

/// Reads what the compositor reports of a window.
pub fn parse_window_metadata(metadata: &Metadata) -> (r: Result<WindowRecord, Fault>)
    ensures
        agrees(r, reported_window(properties(metadata@))),
{
    let (uuid, pid) = match parse_owner(metadata) {
        Ok(v) => v,
        Err(fault) => return Err(fault),
    };
    let caption = match required_string(metadata, "caption") {
        Ok(v) => v,
        Err(fault) => return Err(fault),
    };
    let resource_class = match required_string(metadata, "resourceClass") {
        Ok(v) => v,
        Err(fault) => return Err(fault),
    };
    let resource_name = match required_string(metadata, "resourceName") {
        Ok(v) => v,
        Err(fault) => return Err(fault),
    };
    let desktop_file = match required_string(metadata, "desktopFile") {
        Ok(v) => v,
        Err(fault) => return Err(fault),
    };
    let x = match required_f64(metadata, "x") {
        Ok(v) => v,
        Err(fault) => return Err(fault),
    };
    let y = match required_f64(metadata, "y") {
        Ok(v) => v,
        Err(fault) => return Err(fault),
    };
    let width = match required_f64(metadata, "width") {
        Ok(v) => v,
        Err(fault) => return Err(fault),
    };
    let height = match required_f64(metadata, "height") {
        Ok(v) => v,
        Err(fault) => return Err(fault),
    };
    let minimized = match required_bool(metadata, "minimized") {
        Ok(v) => v,
        Err(fault) => return Err(fault),
    };
    let fullscreen = match required_bool(metadata, "fullscreen") {
        Ok(v) => v,
        Err(fault) => return Err(fault),
    };
    let window_type = match required_i32(metadata, "type") {
        Ok(v) => v,
        Err(fault) => return Err(fault),
    };
    let skip_taskbar = match required_bool(metadata, "skipTaskbar") {
        Ok(v) => v,
        Err(fault) => return Err(fault),
    };
    Ok(
        WindowRecord {
            info: WindowInfo {
                uuid,
                caption,
                resource_class,
                resource_name,
                desktop_file,
                pid,
                x,
                y,
                width,
                height,
                minimized,
                fullscreen,
            },
            window_type,
            skip_taskbar,
        },
    )
}

/// Whether a window is one that a user works with: a normal window that the
/// task bar shows and that has an area.
pub open spec fn is_task_window(record: RecordView) -> bool {
    &&& record.window_type == 0
    &&& !record.skip_taskbar
    &&& (Real { bits: 0 }).less(record.info.width)
    &&& (Real { bits: 0 }).less(record.info.height)
}

/// What becomes of a window that was asked for by its UUID: a record where it
/// is a task window, nothing where it is not or no longer exists.
pub open spec fn admitted(uuid: Seq<char>, m: MetadataView) -> Result<
    Option<RecordView>,
    FaultView,
> {
    if m.len() == 0 {
        Ok(None)
    } else {
        match reported_window(m) {
            Err(e) => Err(under("invalid metadata for KWin window "@ + uuid, e)),
            Ok(record) => if record.info.uuid != uuid {
                Err(
                    general(
                        "KWin returned UUID "@ + record.info.uuid + " for requested window "@
                            + uuid,
                    ),
                )
            } else if is_task_window(record) {
                Ok(Some(record))
            } else {
                Ok(None)
            },
        }
    }
}

/// Decides whether the window that was asked for by its UUID is listed.
pub fn admit_window(uuid: &str, metadata: &Metadata) -> (r: Result<Option<WindowRecord>, Fault>)
    ensures
        match (r, admitted(uuid@, properties(metadata@))) {
            (Ok(Some(record)), Ok(Some(e))) => record@ == e,
            (Ok(None), Ok(None)) => true,
            (Err(f), Err(e)) => f@ == e,
            _ => false,
        },
{
    if metadata.len() == 0 {
        return Ok(None);
    }
    let record = match parse_window_metadata(metadata) {
        Ok(record) => record,
        Err(fault) => {
            let mut heading = "invalid metadata for KWin window ".to_owned();
            heading.append(uuid);
            return Err(fault.context(heading.as_str()));
        },
    };
    if !same(record.info.uuid.as_str(), uuid) {
        let mut message = "KWin returned UUID ".to_owned();
        message.append(record.info.uuid.as_str());
        message.append(" for requested window ");
        message.append(uuid);
        return Err(Fault::new(message));
    }
    let zero = Real { bits: 0 };
    if record.window_type == 0 && !record.skip_taskbar && zero.lt(record.info.width) && zero.lt(
        record.info.height,
    ) {
        Ok(Some(record))
    } else {
        Ok(None)
    }
}

/// Whether a property is reported with a value: the first of its name has it.
pub open spec fn reports(m: MetadataView, key: Seq<char>, value: MetaValue<Seq<char>>) -> bool {
    exists|i: int|
        0 <= i < m.len() && #[trigger] m[i] == (key, value) && forall|j: int|
            0 <= j < i ==> (#[trigger] m[j]).0 != key
}

/// A property that is found is the first of its name; where none is found, none
/// is reported.
pub proof fn lemma_reported(m: MetadataView, key: Seq<char>)
    ensures
        match property(m, key) {
            Ok(v) => reports(m, key, v),
            Err(_) => forall|j: int| 0 <= j < m.len() ==> (#[trigger] m[j]).0 != key,
        },
    decreases m.len(),
{
    if m.len() > 0 {
        let rest = m.drop_last();
        lemma_reported(rest, key);
        assert(forall|j: int| 0 <= j < rest.len() ==> #[trigger] m[j] == rest[j]);
        assert(m[m.len() - 1] == m.last());
        match property(rest, key) {
            Ok(v) => {
                let i = choose|i: int|
                    0 <= i < rest.len() && #[trigger] rest[i] == (key, v) && forall|j: int|
                        0 <= j < i ==> (#[trigger] rest[j]).0 != key;
                assert(m[i] == (key, v));
            },
            Err(_) => {
                if m.last().0 == key {
                    assert(m[m.len() - 1] == (key, m.last().1));
                }
            },
        }
    }
}

/// What is known of a window is what the compositor reports, each property
/// under its own name.
pub proof fn law_windows_are_as_reported(m: MetadataView)
    requires
        reported_window(m) is Ok,
    ensures
        ({
            let r = reported_window(m)->Ok_0;
            let w = r.info;
            &&& reports(m, "uuid"@, MetaValue::Text(w.uuid)) && trimmed(w.uuid).len() > 0
            &&& reports(m, "pid"@, MetaValue::Int32(w.pid as i32)) && w.pid <= i32::MAX
            &&& reports(m, "caption"@, MetaValue::Text(w.caption))
            &&& reports(m, "resourceClass"@, MetaValue::Text(w.resource_class))
            &&& reports(m, "resourceName"@, MetaValue::Text(w.resource_name))
            &&& reports(m, "desktopFile"@, MetaValue::Text(w.desktop_file))
            &&& reports(m, "x"@, MetaValue::Double(w.x))
            &&& reports(m, "y"@, MetaValue::Double(w.y))
            &&& reports(m, "width"@, MetaValue::Double(w.width))
            &&& reports(m, "height"@, MetaValue::Double(w.height))
            &&& reports(m, "minimized"@, MetaValue::Boolean(w.minimized))
            &&& reports(m, "fullscreen"@, MetaValue::Boolean(w.fullscreen))
            &&& reports(m, "type"@, MetaValue::Int32(r.window_type))
            &&& reports(m, "skipTaskbar"@, MetaValue::Boolean(r.skip_taskbar))
        }),
{
    lemma_reported(m, "uuid"@);
    lemma_reported(m, "pid"@);
    lemma_reported(m, "caption"@);
    lemma_reported(m, "resourceClass"@);
    lemma_reported(m, "resourceName"@);
    lemma_reported(m, "desktopFile"@);
    lemma_reported(m, "x"@);
    lemma_reported(m, "y"@);
    lemma_reported(m, "width"@);
    lemma_reported(m, "height"@);
    lemma_reported(m, "minimized"@);
    lemma_reported(m, "fullscreen"@);
    lemma_reported(m, "type"@);
    lemma_reported(m, "skipTaskbar"@);
}

/// A window is worked with just where it is the one that was asked for, is a
/// normal window that the task bar shows, and has an area.
pub proof fn law_only_task_windows_are_admitted(uuid: Seq<char>, m: MetadataView)
    requires
        reported_window(m) is Ok,
        m.len() > 0,
    ensures
        ({
            let r = reported_window(m)->Ok_0;
            &&& admitted(uuid, m) matches Ok(Some(record)) ==> record == r && record.info.uuid
                == uuid
            &&& admitted(uuid, m) is Err <==> r.info.uuid != uuid
            &&& r.info.uuid == uuid ==> (admitted(uuid, m)->Ok_0 is Some <==> r.window_type == 0
                && !r.skip_taskbar && !r.info.width.nan() && !r.info.height.nan()
                && r.info.width.units() > 0 && r.info.height.units() > 0)
        }),
{
    assert(Real { bits: 0 }.units() == 0 && !Real { bits: 0 }.nan());
}

/// A name that is not exact resolves to a window just where one window alone
/// goes by it: by its desktop file, its class, its name or its caption,
/// whatever the case, the white space around it and the ending of desktop
/// files.
pub proof fn law_the_only_window_of_a_name_is_found(
    windows: Seq<WindowView>,
    app: Seq<char>,
    i: int,
)
    requires
        exact_parts(app) == Ok::<Option<(Seq<char>, Seq<char>)>, FaultView>(None),
        0 <= i < windows.len(),
        goes_by_name(windows[i], identity(app)),
        forall|j: int|
            0 <= j < windows.len() && j != i ==> !goes_by_name(
                #[trigger] windows[j],
                identity(app),
            ),
        identity(app).len() > 0,
        identity(app) != "unnamed"@,
    ensures
        resolved(windows, app) == Ok::<WindowView, FaultView>(windows[i]),
{
    let marks = fitting_marks(windows, identity(app));
    assert forall|j: int| 0 <= j < windows.len() implies #[trigger] marks[j] == (j == i) by {
        assert(goes_by_name(windows[j], identity(app)) == fits_query(windows[j], identity(app)));
    }
    lemma_marked_once(windows, marks, i);
}

/// Whether a window goes by a name in the form in which names are compared.
pub open spec fn goes_by_name(w: WindowView, name: Seq<char>) -> bool {
    ||| identity(w.desktop_file).len() > 0 && identity(w.desktop_file) == name
    ||| normal(w.resource_class).len() > 0 && identity(normal(w.resource_class)) == name
    ||| normal(w.resource_name).len() > 0 && identity(normal(w.resource_name)) == name
    ||| normal(w.caption).len() > 0 && identity(normal(w.caption)) == name
}

proof fn lemma_marked_once(windows: Seq<WindowView>, marks: Seq<bool>, i: int)
    requires
        marks.len() == windows.len(),
        0 <= i < windows.len(),
        forall|j: int| 0 <= j < windows.len() ==> #[trigger] marks[j] == (j == i),
    ensures
        marked(windows, marks) == seq![windows[i]],
    decreases windows.len(),
{
    let before = marked(windows.drop_last(), marks.drop_last());
    assert(marks.last() == marks[marks.len() - 1]);
    if i == windows.len() - 1 {
        lemma_unmarked(windows.drop_last(), marks.drop_last());
        assert(marked(windows, marks) =~= seq![windows[i]]);
    } else {
        lemma_marked_once(windows.drop_last(), marks.drop_last(), i);
    }
}

proof fn lemma_unmarked(windows: Seq<WindowView>, marks: Seq<bool>)
    requires
        marks.len() == windows.len(),
        forall|j: int| 0 <= j < windows.len() ==> !(#[trigger] marks[j]),
    ensures
        marked(windows, marks) == Seq::<WindowView>::empty(),
    decreases windows.len(),
{
    if windows.len() > 0 {
        assert(!marks[marks.len() - 1]);
        lemma_unmarked(windows.drop_last(), marks.drop_last());
    }
}

/// A name that no window goes by is not found, which is told apart from other
/// failures.
pub proof fn law_unknown_names_are_not_found(
    windows: Seq<WindowView>,
    app: Seq<char>,
)
    requires
        exact_parts(app) == Ok::<Option<(Seq<char>, Seq<char>)>, FaultView>(None),
        identity(app).len() > 0,
        identity(app) != "unnamed"@,
    ensures
        (forall|j: int|
            0 <= j < windows.len() ==> !goes_by_name(#[trigger] windows[j], identity(app)))
            ==> resolved(windows, app) is Err && resolved(windows, app)->Err_0.kind
            == FaultKind::WindowNotFound,
{
    let marks = fitting_marks(windows, identity(app));
    if forall|j: int|
        0 <= j < windows.len() ==> !goes_by_name(#[trigger] windows[j], identity(app)) {
        assert forall|j: int| 0 <= j < windows.len() implies !(#[trigger] marks[j]) by {
            assert(!goes_by_name(windows[j], identity(app)));
        }
        lemma_unmarked(windows, marks);
    }
}

/// The exact name of a window is its application, an at sign and its UUID, and
/// names of one form are compared without case, the white space around them and
/// the ending of desktop files.
pub proof fn law_exact_names_hold_the_uuid(w: WindowView)
    ensures
        exact_id(w).len() == app_of(w).len() + 1 + w.uuid.len(),
        exact_id(w).subrange(0, app_of(w).len() as int) == app_of(w),
        exact_id(w)[app_of(w).len() as int] == '@',
        exact_id(w).subrange((app_of(w).len() + 1) as int, exact_id(w).len() as int) == w.uuid,
        trimmed(w.desktop_file).len() > 0 ==> app_of(w) == identity(w.desktop_file),
        trimmed(w.desktop_file).len() == 0 ==> app_of(w) == normal(w.resource_class),
{
    reveal_strlit("@");
    assert(exact_id(w).subrange(0, app_of(w).len() as int) =~= app_of(w));
    assert(exact_id(w).subrange((app_of(w).len() + 1) as int, exact_id(w).len() as int) =~= w.uuid);
}

/// Names are compared in lower case, without the white space around them and
/// without the ending of desktop files.
pub proof fn law_names_are_compared_in_one_form(s: Seq<char>)
    ensures
        normal(s) == lowercase(trimmed(s)),
        ".desktop"@.is_suffix_of(normal(s)) ==> identity(s) + ".desktop"@ == normal(s),
        !".desktop"@.is_suffix_of(normal(s)) ==> identity(s) == normal(s),
{
    let n = normal(s);
    let ending = ".desktop"@;
    if ending.is_suffix_of(n) {
        assert(ending =~= n.subrange(n.len() - ending.len(), n.len() as int));
        assert(identity(s) + ending =~= n);
    }
}

/// The parts of an exact name are what stands before its last at sign and what
/// stands behind it, which is in braces.
pub proof fn law_exact_names_are_taken_apart(who: Seq<char>, uuid: Seq<char>)
    requires
        !uuid.contains('@'),
        uuid.len() > 2,
        uuid[0] == '{',
        uuid.last() == '}',
        trimmed(who).len() > 0,
    ensures
        exact_parts(who.push('@') + uuid) == Ok::<Option<(Seq<char>, Seq<char>)>, FaultView>(
            Some((who, uuid)),
        ),
{
    let value = who.push('@') + uuid;
    let k = who.len() as int;
    assert forall|j: int| k < j < value.len() implies value[j] != '@' by {
        assert(value[j] == uuid[j - k - 1]);
    }
    crate::text::lemma_last_at(value, '@', k);
    assert(value.subrange(0, k) =~= who);
    assert(value.subrange(k + 1, value.len() as int) =~= uuid);
    reveal_strlit("{");
    reveal_strlit("}");
    assert("{"@ =~= uuid.subrange(0, 1));
    assert("}"@ =~= uuid.subrange(uuid.len() - 1, uuid.len() as int));
}

/// A window is found by its UUID where one has it, and the first that does is
/// taken.
pub proof fn law_the_first_window_of_a_uuid_is_found(
    windows: Seq<WindowView>,
    uuid: Seq<char>,
    i: int,
)
    requires
        0 <= i <= windows.len(),
        forall|j: int| 0 <= j < i ==> (#[trigger] windows[j]).uuid != uuid,
        i < windows.len() ==> windows[i].uuid == uuid,
    ensures
        with_uuid(windows, uuid) == (if i < windows.len() {
            Some(windows[i])
        } else {
            None
        }),
    decreases windows.len(),
{
    if windows.len() > 0 {
        let rest = windows.drop_last();
        assert(forall|j: int| 0 <= j < rest.len() ==> #[trigger] windows[j] == rest[j]);
        assert(windows[windows.len() - 1] == windows.last());
        law_the_first_window_of_a_uuid_is_found(
            rest,
            uuid,
            if i < rest.len() {
                i
            } else {
                rest.len() as int
            },
        );
    }
}

/// A property that is reported is found.
pub proof fn lemma_report_is_found(
    m: MetadataView,
    key: Seq<char>,
    value: MetaValue<Seq<char>>,
)
    requires
        reports(m, key, value),
    ensures
        property(m, key) == Ok::<MetaValue<Seq<char>>, FaultView>(value),
{
    lemma_reported(m, key);
    let i = choose|i: int|
        0 <= i < m.len() && #[trigger] m[i] == (key, value) && forall|j: int|
            0 <= j < i ==> (#[trigger] m[j]).0 != key;
    assert(m[i].0 == key);
    if let Ok(v) = property(m, key) {
        let k = choose|k: int|
            0 <= k < m.len() && #[trigger] m[k] == (key, v) && forall|j: int|
                0 <= j < k ==> (#[trigger] m[j]).0 != key;
        assert(m[k].0 == key);
        assert(i == k);
    }
}

/// A window that is reported as it has to be is known by what is reported.
pub proof fn law_good_reports_are_taken(m: MetadataView, r: RecordView)
    requires
        reports(m, "uuid"@, MetaValue::Text(r.info.uuid)),
        trimmed(r.info.uuid).len() > 0,
        r.info.pid <= i32::MAX,
        reports(m, "pid"@, MetaValue::Int32(r.info.pid as i32)),
        reports(m, "caption"@, MetaValue::Text(r.info.caption)),
        reports(m, "resourceClass"@, MetaValue::Text(r.info.resource_class)),
        reports(m, "resourceName"@, MetaValue::Text(r.info.resource_name)),
        reports(m, "desktopFile"@, MetaValue::Text(r.info.desktop_file)),
        reports(m, "x"@, MetaValue::Double(r.info.x)),
        reports(m, "y"@, MetaValue::Double(r.info.y)),
        reports(m, "width"@, MetaValue::Double(r.info.width)),
        reports(m, "height"@, MetaValue::Double(r.info.height)),
        reports(m, "minimized"@, MetaValue::Boolean(r.info.minimized)),
        reports(m, "fullscreen"@, MetaValue::Boolean(r.info.fullscreen)),
        reports(m, "type"@, MetaValue::Int32(r.window_type)),
        reports(m, "skipTaskbar"@, MetaValue::Boolean(r.skip_taskbar)),
    ensures
        reported_window(m) == Ok::<RecordView, FaultView>(r),
{
    lemma_report_is_found(m, "uuid"@, MetaValue::Text(r.info.uuid));
    lemma_report_is_found(m, "pid"@, MetaValue::Int32(r.info.pid as i32));
    lemma_report_is_found(m, "caption"@, MetaValue::Text(r.info.caption));
    lemma_report_is_found(m, "resourceClass"@, MetaValue::Text(r.info.resource_class));
    lemma_report_is_found(m, "resourceName"@, MetaValue::Text(r.info.resource_name));
    lemma_report_is_found(m, "desktopFile"@, MetaValue::Text(r.info.desktop_file));
    lemma_report_is_found(m, "x"@, MetaValue::Double(r.info.x));
    lemma_report_is_found(m, "y"@, MetaValue::Double(r.info.y));
    lemma_report_is_found(m, "width"@, MetaValue::Double(r.info.width));
    lemma_report_is_found(m, "height"@, MetaValue::Double(r.info.height));
    lemma_report_is_found(m, "minimized"@, MetaValue::Boolean(r.info.minimized));
    lemma_report_is_found(m, "fullscreen"@, MetaValue::Boolean(r.info.fullscreen));
    lemma_report_is_found(m, "type"@, MetaValue::Int32(r.window_type));
    lemma_report_is_found(m, "skipTaskbar"@, MetaValue::Boolean(r.skip_taskbar));
}

/// What is known of a window is seen as it is.
pub proof fn law_windows_are_seen_as_they_are(w: WindowInfo, r: WindowRecord)
    ensures
        w@.uuid == w.uuid@,
        w@.caption == w.caption@,
        w@.resource_class == w.resource_class@,
        w@.resource_name == w.resource_name@,
        w@.desktop_file == w.desktop_file@,
        w@.pid == w.pid,
        w@.x == w.x && w@.y == w.y,
        w@.width == w.width && w@.height == w.height,
        w@.minimized == w.minimized,
        w@.fullscreen == w.fullscreen,
        r@.info == r.info@,
        r@.window_type == r.window_type,
        r@.skip_taskbar == r.skip_taskbar,
{
}

} // verus!
