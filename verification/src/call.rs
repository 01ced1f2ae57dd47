//! Calling a tool: what has to be done for it, step by step, and what it gives
//! back.

use crate::arguments::{
    button_check, direction_check, double_arg, element_alone, i64_arg, int_arg, is_left,
    is_left_button, normalize_direction, normalize_mouse_button, number_arg, opt_double_arg,
    opt_int_arg, opt_nat_arg, opt_point_arg, opt_text_arg, optional_coordinate_pair, optional_i64,
    optional_number, optional_string, optional_u64, pages_check, reject_coordinates_with_element,
    string_arg, text_arg, validate_pages,
};
use crate::binary64::{double_of, int_units, lemma_small_doubles, Real};
use crate::engine::{
    offers, AppInfo, AppState, ElementTarget, OfferView, PointView, PreparedPoint, StateView,
    TargetView,
};
use crate::fault::{general, Fault, FaultView};
use crate::input::opt_text;
use crate::json::{
    double, found, int_value, integer, json_string, json_text, law_the_first_member_counts,
    lemma_found_push, opt_text_value,
    opt_value, real_value, text, Items, Json, JsonView, Members, Number,
};
use crate::kwin::{WindowInfo, WindowView};
use crate::text::{bool_text, join, joined, same, show_bool, texts, trimmed};
use crate::tools::{is_tool, no_members};
use crate::tree::{FocusView, FocusedElement};
use base64::Engine as _;
use vstd::prelude::*;

verus! {

/// What has to be done for a call.
#[derive(Debug)]
#[allow(inconsistent_fields)]
pub enum Query<S, J> {
    /// Make sure that there is an engine.
    Engine,
    ListApps,
    Snapshot { app: S, settle_ms: Option<u64> },
    /// Find an element that is to be acted on.
    Target { app: S, index: i64 },
    /// Let an element do one of its actions.
    Act { app: S, index: i64, action: S },
    /// Find the point of the screen for one of the picture.
    Translate { app: S, x: Real, y: Real },
    /// Find the point of the screen for the middle of the picture.
    Center { app: S },
    /// Bring the window of an application to the front.
    Prepare { app: S },
    SetValue { app: S, index: i64, value: S },
    Select {
        app: S,
        index: i64,
        text: S,
        prefix: Option<S>,
        suffix: Option<S>,
        kind: Option<S>,
    },
    /// Find the whole number of pixels nearest to so many pages.
    Pixels { pages: Real },
    /// Have an input command carried out.
    Send { command: S, payload: J },
}

/// What a call waits for.
#[derive(Debug)]
#[allow(inconsistent_fields)]
pub enum Pending<S, J, P> {
    Apps,
    State,
    ClickTarget { app: S, index: i64, button: Option<S>, count: i64 },
    ClickPoint { button: Option<S>, count: i64 },
    DragReady { app: S, args: J },
    DragFrom { app: S, args: J },
    DragTo { from: P },
    ScrollTarget { direction: S, pages: Real },
    ScrollPoint { direction: S, pages: Real },
    ScrollPixels { direction: S, point: P },
    Key { args: J },
    Typing { args: J },
    SetReady { args: J },
    SelectReady { args: J },
    ActReady { args: J },
    /// The last thing to be done.
    Last,
}

/// What came of what had to be done.
#[derive(Debug)]
pub enum Reply<S, L, E, T, P, F> {
    Done,
    Apps(L),
    State(E),
    Target(T),
    Point(P),
    /// The UUID of a window that was brought to the front.
    Window(S),
    Number(Real),
    Failed(F),
}

/// What follows.
#[derive(Debug)]
pub enum Turn<S, J, P, F> {
    Ask(Query<S, J>, Pending<S, J, P>),
    Done(Result<J, F>),
}

/// What has to be done, in the model.
pub type QueryView = Query<Seq<char>, JsonView>;

/// What a call waits for, in the model.
pub type PendingView = Pending<Seq<char>, JsonView, PointView>;

/// What came of what had to be done, in the model.
pub type ReplyView = Reply<Seq<char>, Seq<OfferView>, StateView, TargetView, PointView, FaultView>;

/// What follows, in the model.
pub type TurnView = Turn<Seq<char>, JsonView, PointView, FaultView>;

/// What a call waits for.
pub type CallPending = Pending<String, Json, PreparedPoint>;

/// What came of what had to be done.
pub type CallReply = Reply<String, Vec<AppInfo>, AppState, ElementTarget, PreparedPoint, Fault>;

/// What follows.
pub type CallTurn = Turn<String, Json, PreparedPoint, Fault>;

impl Query<String, Json> {
    pub open spec fn view(self) -> QueryView {
        match self {
            Query::Engine => Query::Engine,
            Query::ListApps => Query::ListApps,
            Query::Snapshot { app, settle_ms } => Query::Snapshot { app: app@, settle_ms },
            Query::Target { app, index } => Query::Target { app: app@, index },
            Query::Act { app, index, action } => Query::Act { app: app@, index, action: action@ },
            Query::Translate { app, x, y } => Query::Translate { app: app@, x, y },
            Query::Center { app } => Query::Center { app: app@ },
            Query::Prepare { app } => Query::Prepare { app: app@ },
            Query::SetValue { app, index, value } => Query::SetValue {
                app: app@,
                index,
                value: value@,
            },
            Query::Select { app, index, text, prefix, suffix, kind } => Query::Select {
                app: app@,
                index,
                text: text@,
                prefix: opt_text(prefix),
                suffix: opt_text(suffix),
                kind: opt_text(kind),
            },
            Query::Pixels { pages } => Query::Pixels { pages },
            Query::Send { command, payload } => Query::Send {
                command: command@,
                payload: payload@,
            },
        }
    }
}

impl Pending<String, Json, PreparedPoint> {
    pub open spec fn view(self) -> PendingView {
        match self {
            Pending::Apps => Pending::Apps,
            Pending::State => Pending::State,
            Pending::ClickTarget { app, index, button, count } => Pending::ClickTarget {
                app: app@,
                index,
                button: opt_text(button),
                count,
            },
            Pending::ClickPoint { button, count } => Pending::ClickPoint {
                button: opt_text(button),
                count,
            },
            Pending::DragReady { app, args } => Pending::DragReady { app: app@, args: args@ },
            Pending::DragFrom { app, args } => Pending::DragFrom { app: app@, args: args@ },
            Pending::DragTo { from } => Pending::DragTo { from: from@ },
            Pending::ScrollTarget { direction, pages } => Pending::ScrollTarget {
                direction: direction@,
                pages,
            },
            Pending::ScrollPoint { direction, pages } => Pending::ScrollPoint {
                direction: direction@,
                pages,
            },
            Pending::ScrollPixels { direction, point } => Pending::ScrollPixels {
                direction: direction@,
                point: point@,
            },
            Pending::Key { args } => Pending::Key { args: args@ },
            Pending::Typing { args } => Pending::Typing { args: args@ },
            Pending::SetReady { args } => Pending::SetReady { args: args@ },
            Pending::SelectReady { args } => Pending::SelectReady { args: args@ },
            Pending::ActReady { args } => Pending::ActReady { args: args@ },
            Pending::Last => Pending::Last,
        }
    }
}

impl Reply<String, Vec<AppInfo>, AppState, ElementTarget, PreparedPoint, Fault> {
    pub open spec fn view(self) -> ReplyView {
        match self {
            Reply::Done => Reply::Done,
            Reply::Apps(apps) => Reply::Apps(offers(apps@)),
            Reply::State(state) => Reply::State(state@),
            Reply::Target(target) => Reply::Target(target@),
            Reply::Point(point) => Reply::Point(point@),
            Reply::Window(uuid) => Reply::Window(uuid@),
            Reply::Number(x) => Reply::Number(x),
            Reply::Failed(fault) => Reply::Failed(fault@),
        }
    }
}

impl Turn<String, Json, PreparedPoint, Fault> {
    pub open spec fn view(self) -> TurnView {
        match self {
            Turn::Ask(query, pending) => Turn::Ask(query@, pending@),
            Turn::Done(Ok(value)) => Turn::Done(Ok(value@)),
            Turn::Done(Err(fault)) => Turn::Done(Err(fault@)),
        }
    }
}

/// A text as the result of a call.
pub open spec fn text_value(s: Seq<char>) -> JsonView {
    JsonView::Object(
        no_members().push(
            (
                "content"@,
                JsonView::Array(
                    Seq::<JsonView>::empty().push(
                        JsonView::Object(
                            no_members().push(("type"@, JsonView::Text("text"@))).push(
                                ("text"@, JsonView::Text(s)),
                            ),
                        ),
                    ),
                ),
            ),
        ),
    )
}

/// Gives a text as the result of a call.
pub fn text_result(s: &str) -> (r: Json)
    ensures
        r@ == text_value(s@),
{
    let line = Members::new().with("type", text("text")).with("text", text(s)).object();
    Members::new().with("content", Items::new().with(line).list()).object()
}

/// The result of a call that did what it had to.
pub fn ok_result() -> (r: Json)
    ensures
        r@ == text_value("ok"@),
{
    text_result("ok")
}

/// An application as it is listed: a JSON object.
pub open spec fn app_text(app: OfferView) -> Seq<char> {
    "{\"id\":"@ + json_string(app.id) + ",\"displayName\":"@ + (match app.display_name {
        Some(name) => json_string(name),
        None => "null"@,
    }) + ",\"isRunning\":"@ + bool_text(app.is_running) + "}"@
}

/// The applications as they are listed: a JSON array.
pub open spec fn apps_text(apps: Seq<OfferView>) -> Seq<char> {
    "["@ + joined(Seq::new(apps.len(), |i: int| app_text(apps[i])), ","@) + "]"@
}

fn write_app(app: &AppInfo) -> (r: String)
    ensures
        r@ == app_text(app@),
{
    let mut line = "{\"id\":".to_owned();
    line.append(json_text(app.id.as_str()).as_str());
    line.append(",\"displayName\":");
    match &app.display_name {
        Some(name) => line.append(json_text(name.as_str()).as_str()),
        None => line.append("null"),
    }
    line.append(",\"isRunning\":");
    line.append(show_bool(app.is_running));
    line.append("}");
    line
}

/// Writes the list of the applications.
pub fn write_apps(apps: &Vec<AppInfo>) -> (r: String)
    ensures
        r@ == apps_text(offers(apps@)),
{
    let ghost all = offers(apps@);
    let ghost wanted = Seq::new(all.len(), |i: int| app_text(all[i]));
    let mut lines: Vec<String> = Vec::new();
    let mut i: usize = 0;
    while i < apps.len()
        invariant
            i <= apps@.len(),
            all == offers(apps@),
            wanted == Seq::new(all.len(), |i: int| app_text(all[i])),
            texts(lines@) == wanted.take(i as int),
        decreases apps@.len() - i,
    {
        let ghost was = lines@;
        let line = write_app(&apps[i]);
        lines.push(line);
        assert(texts(lines@) =~= texts(was).push(line@));
        assert(wanted.take(i + 1) =~= wanted.take(i as int).push(line@));
        i += 1;
    }
    assert(wanted.take(i as int) =~= wanted);
    let mut list = "[".to_owned();
    list.append(join(&lines, ",").as_str());
    list.append("]");
    list
}

/// A window as it is described.
pub open spec fn window_value(w: WindowView) -> JsonView {
    JsonView::Object(
        no_members()
            .push(("uuid"@, JsonView::Text(w.uuid)))
            .push(("caption"@, JsonView::Text(w.caption)))
            .push(("resourceClass"@, JsonView::Text(w.resource_class)))
            .push(("resourceName"@, JsonView::Text(w.resource_name)))
            .push(("desktopFile"@, JsonView::Text(w.desktop_file)))
            .push(("pid"@, int_value(w.pid as int)))
            .push(("x"@, real_value(w.x)))
            .push(("y"@, real_value(w.y)))
            .push(("width"@, real_value(w.width)))
            .push(("height"@, real_value(w.height)))
            .push(("minimized"@, JsonView::Bool(w.minimized)))
            .push(("fullscreen"@, JsonView::Bool(w.fullscreen))),
    )
}

fn describe_window(w: &WindowInfo) -> (r: Json)
    ensures
        r@ == window_value(w@),
{
    Members::new()
        .with("uuid", text(w.uuid.as_str()))
        .with("caption", text(w.caption.as_str()))
        .with("resourceClass", text(w.resource_class.as_str()))
        .with("resourceName", text(w.resource_name.as_str()))
        .with("desktopFile", text(w.desktop_file.as_str()))
        .with("pid", integer(w.pid as i64))
        .with("x", double(w.x))
        .with("y", double(w.y))
        .with("width", double(w.width))
        .with("height", double(w.height))
        .with("minimized", Json::Bool(w.minimized))
        .with("fullscreen", Json::Bool(w.fullscreen))
        .object()
}

/// The element that has the focus as it is described.
pub open spec fn focus_value(f: Option<FocusView>) -> JsonView {
    match f {
        Some(e) => JsonView::Object(
            no_members().push(("index"@, int_value(e.index))).push(
                ("role"@, JsonView::Text(e.role)),
            ).push(("name"@, JsonView::Text(e.name))),
        ),
        None => JsonView::Null,
    }
}

fn describe_focus(f: &Option<FocusedElement>) -> (r: Json)
    ensures
        r@ == focus_value(
            match *f {
                Some(e) => Some(e@),
                None => None,
            },
        ),
{
    match f {
        Some(e) => Members::new().with("index", integer(e.index)).with(
            "role",
            text(e.role.as_str()),
        ).with("name", text(e.name.as_str())).object(),
        None => Json::Null,
    }
}

/// The character that stands for six bits in base 64.
pub open spec fn base64_digit(n: int) -> char {
    "ABCDEFGHIJKLMNOPQRSTUVWXYZabcdefghijklmnopqrstuvwxyz0123456789+/"@[n]
}

/// Bytes as text in base 64: four characters for each three bytes, of six bits
/// each from the highest on, where `=` stands for characters that would hold
/// no bit of the last bytes.
pub open spec fn base64_text(bytes: Seq<u8>) -> Seq<char>
    decreases bytes.len(),
{
    if bytes.len() == 0 {
        Seq::empty()
    } else {
        let a = bytes[0] as int;
        let b = if bytes.len() > 1 {
            bytes[1] as int
        } else {
            0
        };
        let c = if bytes.len() > 2 {
            bytes[2] as int
        } else {
            0
        };
        let group = seq![
            base64_digit(a / 4),
            base64_digit(a % 4 * 16 + b / 16),
            if bytes.len() > 1 {
                base64_digit(b % 16 * 4 + c / 64)
            } else {
                '='
            },
            if bytes.len() > 2 {
                base64_digit(c % 64)
            } else {
                '='
            },
        ];
        if bytes.len() > 3 {
            group + base64_text(bytes.skip(3))
        } else {
            group
        }
    }
}

/// `base64::engine::general_purpose::STANDARD.encode`: the bytes as text in
/// base 64, with the standard alphabet and with padding. It does not return for
/// more bytes than fit the memory as text, so their number is bounded.
#[verifier::external_body]
fn encode_base64(bytes: &[u8]) -> (r: String)
    requires
        bytes@.len() <= usize::MAX / 4,
    ensures
        r@ == base64_text(bytes@),
{
    base64::engine::general_purpose::STANDARD.encode(bytes)
}

/// A captured state as the result of a call, with its picture as text.
pub open spec fn state_value(state: StateView, picture: Seq<char>) -> JsonView {
    let image = JsonView::Object(
        no_members().push(("type"@, JsonView::Text("image"@))).push(
            ("data"@, JsonView::Text(picture)),
        ).push(("mimeType"@, JsonView::Text("image/png"@))),
    );
    let tree = JsonView::Object(
        no_members().push(("type"@, JsonView::Text("text"@))).push(
            ("text"@, JsonView::Text(state.tree)),
        ),
    );
    JsonView::Object(
        no_members()
            .push(
                ("content"@, JsonView::Array(Seq::<JsonView>::empty().push(image).push(tree))),
            )
            .push(("window"@, window_value(state.window)))
            .push(("screenshotWidth"@, int_value(state.screenshot_width as int)))
            .push(("screenshotHeight"@, int_value(state.screenshot_height as int)))
            .push(("screenshotScale"@, real_value(state.screenshot_scale)))
            .push(("coordinateSpace"@, JsonView::Text("screenshot"@)))
            .push(("focusedElement"@, focus_value(state.focused_element)))
            .push(("accessibilityWarning"@, opt_value(state.accessibility_warning))),
    )
}

/// Gives a captured state, with its picture as text, as the result of a call.
pub fn state_result(state: &AppState, picture: &str) -> (r: Json)
    ensures
        r@ == state_value(state@, picture@),
{
    let image = Members::new().with("type", text("image")).with("data", text(picture)).with(
        "mimeType",
        text("image/png"),
    ).object();
    let tree = Members::new().with("type", text("text")).with(
        "text",
        text(state.tree.as_str()),
    ).object();
    Members::new()
        .with("content", Items::new().with(image).with(tree).list())
        .with("window", describe_window(&state.window))
        .with("screenshotWidth", integer(state.screenshot_width as i64))
        .with("screenshotHeight", integer(state.screenshot_height as i64))
        .with("screenshotScale", double(state.screenshot_scale))
        .with("coordinateSpace", text("screenshot"))
        .with("focusedElement", describe_focus(&state.focused_element))
        .with("accessibilityWarning", opt_text_value(&state.accessibility_warning))
        .object()
}

/// A failed call.
pub open spec fn failed(e: FaultView) -> TurnView {
    Turn::Done(Err(e))
}

/// What a click sends.
pub open spec fn click_payload(
    x: Real,
    y: Real,
    count: int,
    uuid: Seq<char>,
    button: Option<Seq<char>>,
) -> JsonView {
    let members = no_members().push(("x"@, real_value(x))).push(("y"@, real_value(y))).push(
        ("click_count"@, int_value(count)),
    ).push(("expected_window_uuid"@, JsonView::Text(uuid)));
    JsonView::Object(
        match button {
            Some(b) => members.push(("mouse_button"@, JsonView::Text(b))),
            None => members,
        },
    )
}

/// What a drag sends.
pub open spec fn drag_payload(from: PointView, to: PointView) -> JsonView {
    JsonView::Object(
        no_members()
            .push(("from_x"@, real_value(from.x)))
            .push(("from_y"@, real_value(from.y)))
            .push(("to_x"@, real_value(to.x)))
            .push(("to_y"@, real_value(to.y)))
            .push(("expected_window_uuid"@, JsonView::Text(from.window_uuid))),
    )
}

/// What a scroll sends.
pub open spec fn scroll_payload(direction: Seq<char>, pixels: Real, point: PointView) -> JsonView {
    JsonView::Object(
        no_members()
            .push(("direction"@, JsonView::Text(direction)))
            .push(("pixels"@, real_value(pixels)))
            .push(("x"@, real_value(point.x)))
            .push(("y"@, real_value(point.y)))
            .push(("expected_window_uuid"@, JsonView::Text(point.window_uuid))),
    )
}

/// What a key press or typing sends.
pub open spec fn keys_payload(field: Seq<char>, value: Seq<char>, uuid: Seq<char>) -> JsonView {
    JsonView::Object(
        no_members().push((field, JsonView::Text(value))).push(
            ("expected_window_uuid"@, JsonView::Text(uuid)),
        ),
    )
}

/// The last thing to be done: an input command.
pub open spec fn sending(command: Seq<char>, payload: JsonView) -> TurnView {
    Turn::Ask(Query::Send { command, payload }, Pending::Last)
}

/// How a call for the state of an application begins.
pub open spec fn state_begun(args: JsonView) -> TurnView {
    match (text_arg(args, "app"@), opt_nat_arg(args, "settle_ms"@)) {
        (Err(e), _) => failed(e),
        (_, Err(e)) => failed(e),
        (Ok(app), Ok(settle_ms)) => Turn::Ask(
            Query::Snapshot { app, settle_ms },
            Pending::State,
        ),
    }
}

/// The button and the number of a click.
pub open spec fn click_kind(args: JsonView) -> Result<(Option<Seq<char>>, i64), FaultView> {
    match opt_text_arg(args, "mouse_button"@) {
        Err(e) => Err(e),
        Ok(given) => match button_check(given) {
            Err(e) => Err(e),
            Ok(button) => match opt_int_arg(args, "click_count"@) {
                Err(e) => Err(e),
                Ok(n) => {
                    let count = match n {
                        Some(n) => n,
                        None => 1,
                    };
                    if 1 <= count <= 3 {
                        Ok((button, count))
                    } else {
                        Err(general("click_count must be between 1 and 3"@))
                    }
                },
            },
        },
    }
}

/// How a call for a click begins.
pub open spec fn click_begun(args: JsonView) -> TurnView {
    match text_arg(args, "app"@) {
        Err(e) => failed(e),
        Ok(app) => match click_kind(args) {
            Err(e) => failed(e),
            Ok((button, count)) => match opt_int_arg(args, "element_index"@) {
                Err(e) => failed(e),
                Ok(Some(index)) => match element_alone(args) {
                    Err(e) => failed(e),
                    Ok(()) => Turn::Ask(
                        Query::Target { app, index },
                        Pending::ClickTarget { app, index, button, count },
                    ),
                },
                Ok(None) => match (double_arg(args, "x"@), double_arg(args, "y"@)) {
                    (Err(e), _) => failed(e),
                    (_, Err(e)) => failed(e),
                    (Ok(x), Ok(y)) => Turn::Ask(
                        Query::Translate { app, x, y },
                        Pending::ClickPoint { button, count },
                    ),
                },
            },
        },
    }
}

/// One page.
pub open spec fn one_page() -> Real {
    double_of(1)
}

/// The direction and the extent of a scroll.
pub open spec fn scroll_kind(args: JsonView) -> Result<(Seq<char>, Real), FaultView> {
    match text_arg(args, "direction"@) {
        Err(e) => Err(e),
        Ok(given) => match direction_check(given) {
            Err(e) => Err(e),
            Ok(direction) => match opt_double_arg(args, "pages"@) {
                Err(e) => Err(e),
                Ok(n) => match pages_check(
                    match n {
                        Some(n) => n,
                        None => one_page(),
                    },
                ) {
                    Err(e) => Err(e),
                    Ok(pages) => Ok((direction, pages)),
                },
            },
        },
    }
}

/// How a call for a scroll begins.
pub open spec fn scroll_begun(args: JsonView) -> TurnView {
    match text_arg(args, "app"@) {
        Err(e) => failed(e),
        Ok(app) => match scroll_kind(args) {
            Err(e) => failed(e),
            Ok((direction, pages)) => match opt_int_arg(args, "element_index"@) {
                Err(e) => failed(e),
                Ok(Some(index)) => match element_alone(args) {
                    Err(e) => failed(e),
                    Ok(()) => Turn::Ask(
                        Query::Target { app, index },
                        Pending::ScrollTarget { direction, pages },
                    ),
                },
                Ok(None) => match opt_point_arg(args) {
                    Err(e) => failed(e),
                    Ok(Some((x, y))) => Turn::Ask(
                        Query::Translate { app, x, y },
                        Pending::ScrollPoint { direction, pages },
                    ),
                    Ok(None) => Turn::Ask(
                        Query::Center { app },
                        Pending::ScrollPoint { direction, pages },
                    ),
                },
            },
        },
    }
}

/// How a call begins.
pub open spec fn begun(name: Seq<char>, args: JsonView) -> TurnView {
    if name == "list_apps"@ {
        Turn::Ask(Query::ListApps, Pending::Apps)
    } else if name == "get_app_state"@ {
        state_begun(args)
    } else if name == "click"@ {
        click_begun(args)
    } else if name == "drag"@ {
        match text_arg(args, "app"@) {
            Err(e) => failed(e),
            Ok(app) => Turn::Ask(Query::Engine, Pending::DragReady { app, args }),
        }
    } else if name == "scroll"@ {
        scroll_begun(args)
    } else if name == "press_key"@ {
        match text_arg(args, "app"@) {
            Err(e) => failed(e),
            Ok(app) => Turn::Ask(Query::Prepare { app }, Pending::Key { args }),
        }
    } else if name == "type_text"@ {
        match text_arg(args, "app"@) {
            Err(e) => failed(e),
            Ok(app) => Turn::Ask(Query::Prepare { app }, Pending::Typing { args }),
        }
    } else if name == "set_value"@ {
        Turn::Ask(Query::Engine, Pending::SetReady { args })
    } else if name == "select_text"@ {
        Turn::Ask(Query::Engine, Pending::SelectReady { args })
    } else if name == "perform_secondary_action"@ {
        Turn::Ask(Query::Engine, Pending::ActReady { args })
    } else {
        failed(general("unknown tool: "@ + name))
    }
}

/// How a drag goes on from one point to the next: the point that the arguments
/// give under two names is looked for.
pub open spec fn drag_point(
    app: Seq<char>,
    args: JsonView,
    x: Seq<char>,
    y: Seq<char>,
    then: PendingView,
) -> TurnView {
    match (double_arg(args, x), double_arg(args, y)) {
        (Err(e), _) => failed(e),
        (_, Err(e)) => failed(e),
        (Ok(x), Ok(y)) => Turn::Ask(Query::Translate { app, x, y }, then),
    }
}

/// How a call to set a value goes on.
pub open spec fn set_value_ready(args: JsonView) -> TurnView {
    match (text_arg(args, "app"@), int_arg(args, "element_index"@), text_arg(args, "value"@)) {
        (Err(e), _, _) => failed(e),
        (_, Err(e), _) => failed(e),
        (_, _, Err(e)) => failed(e),
        (Ok(app), Ok(index), Ok(value)) => Turn::Ask(
            Query::SetValue { app, index, value },
            Pending::Last,
        ),
    }
}

/// How a call to select a text goes on.
pub open spec fn select_ready(args: JsonView) -> TurnView {
    match (text_arg(args, "app"@), int_arg(args, "element_index"@), text_arg(args, "text"@)) {
        (Err(e), _, _) => failed(e),
        (_, Err(e), _) => failed(e),
        (_, _, Err(e)) => failed(e),
        (Ok(app), Ok(index), Ok(text)) => match (
            opt_text_arg(args, "prefix"@),
            opt_text_arg(args, "suffix"@),
            opt_text_arg(args, "selection_type"@),
        ) {
            (Err(e), _, _) => failed(e),
            (_, Err(e), _) => failed(e),
            (_, _, Err(e)) => failed(e),
            (Ok(prefix), Ok(suffix), Ok(kind)) => Turn::Ask(
                Query::Select { app, index, text, prefix, suffix, kind },
                Pending::Last,
            ),
        },
    }
}

/// How a call for an action goes on.
pub open spec fn act_ready(args: JsonView) -> TurnView {
    match (text_arg(args, "app"@), int_arg(args, "element_index"@), text_arg(args, "action"@)) {
        (Err(e), _, _) => failed(e),
        (_, Err(e), _) => failed(e),
        (_, _, Err(e)) => failed(e),
        (Ok(app), Ok(index), Ok(action)) => Turn::Ask(
            Query::Act { app, index, action },
            Pending::Last,
        ),
    }
}

/// How a click on an element goes on: a single click with the left button is
/// the element's own action, where it has one.
pub open spec fn click_target(
    app: Seq<char>,
    index: i64,
    button: Option<Seq<char>>,
    count: i64,
    target: TargetView,
) -> TurnView {
    if is_left(button) && count == 1 && target.click_action is Some {
        Turn::Ask(
            Query::Act { app, index, action: target.click_action->Some_0 },
            Pending::Last,
        )
    } else {
        sending(
            "click"@,
            click_payload(
                target.center_x,
                target.center_y,
                count as int,
                target.window_uuid,
                button,
            ),
        )
    }
}

/// How a key press or typing goes on.
pub open spec fn keys_ready(
    command: Seq<char>,
    field: Seq<char>,
    args: JsonView,
    uuid: Seq<char>,
) -> TurnView {
    match text_arg(args, field) {
        Err(e) => failed(e),
        Ok(value) => sending(command, keys_payload(field, value, uuid)),
    }
}

/// How a call goes on.
pub open spec fn resumed(pending: PendingView, reply: ReplyView) -> TurnView {
    match (pending, reply) {
        (_, Reply::Failed(e)) => failed(e),
        (Pending::Apps, Reply::Apps(apps)) => Turn::Done(Ok(text_value(apps_text(apps)))),
        (Pending::State, Reply::State(state)) => Turn::Done(
            Ok(state_value(state, base64_text(state.screenshot_png))),
        ),
        (Pending::ClickTarget { app, index, button, count }, Reply::Target(t)) => click_target(
            app,
            index,
            button,
            count,
            t,
        ),
        (Pending::ClickPoint { button, count }, Reply::Point(p)) => sending(
            "click"@,
            click_payload(p.x, p.y, count as int, p.window_uuid, button),
        ),
        (Pending::DragReady { app, args }, Reply::Done) => drag_point(
            app,
            args,
            "from_x"@,
            "from_y"@,
            Pending::DragFrom { app, args },
        ),
        (Pending::DragFrom { app, args }, Reply::Point(from)) => drag_point(
            app,
            args,
            "to_x"@,
            "to_y"@,
            Pending::DragTo { from },
        ),
        (Pending::DragTo { from }, Reply::Point(to)) => if from.window_uuid != to.window_uuid {
            failed(
                general("app window changed while preparing drag; call get_app_state again"@),
            )
        } else {
            sending("drag"@, drag_payload(from, to))
        },
        (Pending::ScrollTarget { direction, pages }, Reply::Target(t)) => Turn::Ask(
            Query::Pixels { pages },
            Pending::ScrollPixels {
                direction,
                point: PointView { x: t.center_x, y: t.center_y, window_uuid: t.window_uuid },
            },
        ),
        (Pending::ScrollPoint { direction, pages }, Reply::Point(point)) => Turn::Ask(
            Query::Pixels { pages },
            Pending::ScrollPixels { direction, point },
        ),
        (Pending::ScrollPixels { direction, point }, Reply::Number(pixels)) => sending(
            "scroll"@,
            scroll_payload(direction, pixels, point),
        ),
        (Pending::Key { args }, Reply::Window(uuid)) => keys_ready(
            "press_key"@,
            "key"@,
            args,
            uuid,
        ),
        (Pending::Typing { args }, Reply::Window(uuid)) => keys_ready(
            "type_text"@,
            "text"@,
            args,
            uuid,
        ),
        (Pending::SetReady { args }, Reply::Done) => set_value_ready(args),
        (Pending::SelectReady { args }, Reply::Done) => select_ready(args),
        (Pending::ActReady { args }, Reply::Done) => act_ready(args),
        (Pending::Last, Reply::Done) => Turn::Done(Ok(text_value("ok"@))),
        _ => failed(general("unexpected reply"@)),
    }
}

fn fail(fault: Fault) -> (r: CallTurn)
    ensures
        r@ == failed(fault@),
{
    Turn::Done(Err(fault))
}

fn send(command: &str, payload: Json) -> (r: CallTurn)
    ensures
        r@ == sending(command@, payload@),
{
    Turn::Ask(Query::Send { command: command.to_owned(), payload }, Pending::Last)
}

/// A text that may be given, kept.
fn keep(s: Option<&str>) -> (r: Option<String>)
    ensures
        opt_text(r) == (match s {
            Some(t) => Some(t@),
            None => None,
        }),
{
    match s {
        Some(t) => Some(t.to_owned()),
        None => None,
    }
}

fn begin_state(args: &Json) -> (r: CallTurn)
    ensures
        r@ == state_begun(args@),
{
    let app = match string_arg(args, "app") {
        Ok(app) => app.to_owned(),
        Err(fault) => return fail(fault),
    };
    match optional_u64(args, "settle_ms") {
        Ok(settle_ms) => Turn::Ask(Query::Snapshot { app, settle_ms }, Pending::State),
        Err(fault) => fail(fault),
    }
}

fn read_click_kind(args: &Json) -> (r: Result<(Option<String>, i64), Fault>)
    ensures
        match (r, click_kind(args@)) {
            (Ok((button, count)), Ok((b, c))) => opt_text(button) == b && count == c,
            (Err(f), Err(e)) => f@ == e,
            _ => false,
        },
{
    let given = match optional_string(args, "mouse_button") {
        Ok(given) => given,
        Err(fault) => return Err(fault),
    };
    let button = match normalize_mouse_button(given) {
        Ok(button) => keep(button),
        Err(fault) => return Err(fault),
    };
    let count: i64 = match optional_i64(args, "click_count") {
        Ok(Some(n)) => n,
        Ok(None) => 1,
        Err(fault) => return Err(fault),
    };
    if count < 1 || count > 3 {
        return Err(Fault::of("click_count must be between 1 and 3"));
    }
    Ok((button, count))
}

fn begin_click(args: &Json) -> (r: CallTurn)
    ensures
        r@ == click_begun(args@),
{
    let app = match string_arg(args, "app") {
        Ok(app) => app.to_owned(),
        Err(fault) => return fail(fault),
    };
    let (button, count) = match read_click_kind(args) {
        Ok(kind) => kind,
        Err(fault) => return fail(fault),
    };
    match optional_i64(args, "element_index") {
        Err(fault) => fail(fault),
        Ok(Some(index)) => match reject_coordinates_with_element(args) {
            Err(fault) => fail(fault),
            Ok(()) => {
                let wanted = app.clone();
                Turn::Ask(
                    Query::Target { app: wanted, index },
                    Pending::ClickTarget { app, index, button, count },
                )
            },
        },
        Ok(None) => {
            let x = match number_arg(args, "x") {
                Ok(x) => x,
                Err(fault) => return fail(fault),
            };
            match number_arg(args, "y") {
                Ok(y) => Turn::Ask(
                    Query::Translate { app, x, y },
                    Pending::ClickPoint { button, count },
                ),
                Err(fault) => fail(fault),
            }
        },
    }
}

fn read_scroll_kind(args: &Json) -> (r: Result<(String, Real), Fault>)
    ensures
        match (r, scroll_kind(args@)) {
            (Ok((direction, pages)), Ok((d, p))) => direction@ == d && pages == p,
            (Err(f), Err(e)) => f@ == e,
            _ => false,
        },
{
    let given = match string_arg(args, "direction") {
        Ok(given) => given,
        Err(fault) => return Err(fault),
    };
    let direction = match normalize_direction(given) {
        Ok(direction) => direction.to_owned(),
        Err(fault) => return Err(fault),
    };
    let pages = match optional_number(args, "pages") {
        Ok(Some(pages)) => pages,
        Ok(None) => Real::from_natural(1),
        Err(fault) => return Err(fault),
    };
    match validate_pages(pages) {
        Ok(pages) => Ok((direction, pages)),
        Err(fault) => Err(fault),
    }
}

fn begin_scroll(args: &Json) -> (r: CallTurn)
    ensures
        r@ == scroll_begun(args@),
{
    let app = match string_arg(args, "app") {
        Ok(app) => app.to_owned(),
        Err(fault) => return fail(fault),
    };
    let (direction, pages) = match read_scroll_kind(args) {
        Ok(kind) => kind,
        Err(fault) => return fail(fault),
    };
    match optional_i64(args, "element_index") {
        Err(fault) => fail(fault),
        Ok(Some(index)) => match reject_coordinates_with_element(args) {
            Err(fault) => fail(fault),
            Ok(()) => Turn::Ask(
                Query::Target { app, index },
                Pending::ScrollTarget { direction, pages },
            ),
        },
        Ok(None) => match optional_coordinate_pair(args) {
            Err(fault) => fail(fault),
            Ok(Some((x, y))) => Turn::Ask(
                Query::Translate { app, x, y },
                Pending::ScrollPoint { direction, pages },
            ),
            Ok(None) => Turn::Ask(
                Query::Center { app },
                Pending::ScrollPoint { direction, pages },
            ),
        },
    }
}

/// Begins a call of the tool with a name.
pub fn begin_call(name: &str, args: Json) -> (r: CallTurn)
    ensures
        r@ == begun(name@, args@),
{
    if same(name, "list_apps") {
        Turn::Ask(Query::ListApps, Pending::Apps)
    } else if same(name, "get_app_state") {
        begin_state(&args)
    } else if same(name, "click") {
        begin_click(&args)
    } else if same(name, "drag") {
        let app = match string_arg(&args, "app") {
            Ok(app) => app.to_owned(),
            Err(fault) => return fail(fault),
        };
        Turn::Ask(Query::Engine, Pending::DragReady { app, args })
    } else if same(name, "scroll") {
        begin_scroll(&args)
    } else if same(name, "press_key") {
        let app = match string_arg(&args, "app") {
            Ok(app) => app.to_owned(),
            Err(fault) => return fail(fault),
        };
        Turn::Ask(Query::Prepare { app }, Pending::Key { args })
    } else if same(name, "type_text") {
        let app = match string_arg(&args, "app") {
            Ok(app) => app.to_owned(),
            Err(fault) => return fail(fault),
        };
        Turn::Ask(Query::Prepare { app }, Pending::Typing { args })
    } else if same(name, "set_value") {
        Turn::Ask(Query::Engine, Pending::SetReady { args })
    } else if same(name, "select_text") {
        Turn::Ask(Query::Engine, Pending::SelectReady { args })
    } else if same(name, "perform_secondary_action") {
        Turn::Ask(Query::Engine, Pending::ActReady { args })
    } else {
        let mut message = "unknown tool: ".to_owned();
        message.append(name);
        fail(Fault::new(message))
    }
}

fn make_click_payload(x: Real, y: Real, count: i64, uuid: &str, button: &Option<String>) -> (r: Json)
    ensures
        r@ == click_payload(x, y, count as int, uuid@, opt_text(*button)),
{
    let members = Members::new().with("x", double(x)).with("y", double(y)).with(
        "click_count",
        integer(count),
    ).with("expected_window_uuid", text(uuid));
    match button {
        Some(b) => members.with("mouse_button", text(b.as_str())).object(),
        None => members.object(),
    }
}

fn make_drag_payload(from: &PreparedPoint, to: &PreparedPoint) -> (r: Json)
    ensures
        r@ == drag_payload(from@, to@),
{
    Members::new()
        .with("from_x", double(from.x))
        .with("from_y", double(from.y))
        .with("to_x", double(to.x))
        .with("to_y", double(to.y))
        .with("expected_window_uuid", text(from.window_uuid.as_str()))
        .object()
}

fn make_scroll_payload(direction: &str, pixels: Real, point: &PreparedPoint) -> (r: Json)
    ensures
        r@ == scroll_payload(direction@, pixels, point@),
{
    Members::new()
        .with("direction", text(direction))
        .with("pixels", double(pixels))
        .with("x", double(point.x))
        .with("y", double(point.y))
        .with("expected_window_uuid", text(point.window_uuid.as_str()))
        .object()
}

fn resume_keys(command: &str, field: &str, args: &Json, uuid: &str) -> (r: CallTurn)
    ensures
        r@ == keys_ready(command@, field@, args@, uuid@),
{
    match string_arg(args, field) {
        Err(fault) => fail(fault),
        Ok(value) => {
            let payload = Members::new().with(field, text(value)).with(
                "expected_window_uuid",
                text(uuid),
            ).object();
            send(command, payload)
        },
    }
}

fn resume_target(
    app: String,
    index: i64,
    button: Option<String>,
    count: i64,
    target: ElementTarget,
) -> (r: CallTurn)
    ensures
        r@ == click_target(app@, index, opt_text(button), count, target@),
{
    if is_left_button(&button) && count == 1 {
        if let Some(action) = target.click_action {
            return Turn::Ask(Query::Act { app, index, action }, Pending::Last);
        }
    }
    send(
        "click",
        make_click_payload(
            target.center_x,
            target.center_y,
            count,
            target.window_uuid.as_str(),
            &button,
        ),
    )
}

/// The two coordinates that the arguments give under two names.
fn read_point(args: &Json, x: &str, y: &str) -> (r: Result<(Real, Real), Fault>)
    ensures
        match (r, double_arg(args@, x@), double_arg(args@, y@)) {
            (Ok((a, b)), Ok(c), Ok(d)) => a == c && b == d,
            (Err(f), Err(e), _) => f@ == e,
            (Err(f), Ok(_), Err(e)) => f@ == e,
            _ => false,
        },
{
    let x = match number_arg(args, x) {
        Ok(x) => x,
        Err(fault) => return Err(fault),
    };
    match number_arg(args, y) {
        Ok(y) => Ok((x, y)),
        Err(fault) => Err(fault),
    }
}

/// The application and the element that the arguments name, and a text.
fn read_element(args: &Json, field: &str) -> (r: Result<(String, i64, String), Fault>)
    ensures
        match (
            r,
            text_arg(args@, "app"@),
            int_arg(args@, "element_index"@),
            text_arg(args@, field@),
        ) {
            (Ok((a, i, t)), Ok(b), Ok(j), Ok(u)) => a@ == b && i == j && t@ == u,
            (Err(f), Err(e), _, _) => f@ == e,
            (Err(f), Ok(_), Err(e), _) => f@ == e,
            (Err(f), Ok(_), Ok(_), Err(e)) => f@ == e,
            _ => false,
        },
{
    let app = match string_arg(args, "app") {
        Ok(app) => app.to_owned(),
        Err(fault) => return Err(fault),
    };
    let index = match i64_arg(args, "element_index") {
        Ok(index) => index,
        Err(fault) => return Err(fault),
    };
    match string_arg(args, field) {
        Ok(value) => Ok((app, index, value.to_owned())),
        Err(fault) => Err(fault),
    }
}

fn resume_select(args: &Json) -> (r: CallTurn)
    ensures
        r@ == select_ready(args@),
{
    let (app, index, text) = match read_element(args, "text") {
        Ok(named) => named,
        Err(fault) => return fail(fault),
    };
    let prefix = match optional_string(args, "prefix") {
        Ok(s) => keep(s),
        Err(fault) => return fail(fault),
    };
    let suffix = match optional_string(args, "suffix") {
        Ok(s) => keep(s),
        Err(fault) => return fail(fault),
    };
    match optional_string(args, "selection_type") {
        Ok(s) => {
            let kind = keep(s);
            Turn::Ask(Query::Select { app, index, text, prefix, suffix, kind }, Pending::Last)
        },
        Err(fault) => fail(fault),
    }
}

fn resume_drag(pending: CallPending, reply: CallReply) -> (r: CallTurn)
    requires
        pending is DragReady || pending is DragFrom || pending is DragTo,
        !(reply is Failed),
    ensures
        r@ == resumed(pending@, reply@),
{
    match (pending, reply) {
        (Pending::DragReady { app, args }, Reply::Done) => match read_point(
            &args,
            "from_x",
            "from_y",
        ) {
            Ok((x, y)) => {
                let wanted = app.clone();
                Turn::Ask(
                    Query::Translate { app: wanted, x, y },
                    Pending::DragFrom { app, args },
                )
            },
            Err(fault) => fail(fault),
        },
        (Pending::DragFrom { app, args }, Reply::Point(from)) => match read_point(
            &args,
            "to_x",
            "to_y",
        ) {
            Ok((x, y)) => Turn::Ask(Query::Translate { app, x, y }, Pending::DragTo { from }),
            Err(fault) => fail(fault),
        },
        (Pending::DragTo { from }, Reply::Point(to)) => {
            if !same(from.window_uuid.as_str(), to.window_uuid.as_str()) {
                return fail(
                    Fault::of("app window changed while preparing drag; call get_app_state again"),
                );
            }
            send("drag", make_drag_payload(&from, &to))
        },
        _ => fail(Fault::of("unexpected reply")),
    }
}

fn resume_scroll(pending: CallPending, reply: CallReply) -> (r: CallTurn)
    requires
        pending is ScrollTarget || pending is ScrollPoint || pending is ScrollPixels,
        !(reply is Failed),
    ensures
        r@ == resumed(pending@, reply@),
{
    match (pending, reply) {
        (Pending::ScrollTarget { direction, pages }, Reply::Target(target)) => {
            let point = PreparedPoint {
                x: target.center_x,
                y: target.center_y,
                window_uuid: target.window_uuid,
            };
            Turn::Ask(Query::Pixels { pages }, Pending::ScrollPixels { direction, point })
        },
        (Pending::ScrollPoint { direction, pages }, Reply::Point(point)) => Turn::Ask(
            Query::Pixels { pages },
            Pending::ScrollPixels { direction, point },
        ),
        (Pending::ScrollPixels { direction, point }, Reply::Number(pixels)) => send(
            "scroll",
            make_scroll_payload(direction.as_str(), pixels, &point),
        ),
        _ => fail(Fault::of("unexpected reply")),
    }
}

/// Goes on with a call.
pub fn resume_call(pending: CallPending, reply: CallReply) -> (r: CallTurn)
    requires
        reply matches Reply::State(state) ==> state.screenshot_png@.len() <= usize::MAX / 4,
    ensures
        r@ == resumed(pending@, reply@),
{
    let reply = match reply {
        Reply::Failed(fault) => return fail(fault),
        other => other,
    };
    match pending {
        Pending::DragReady { .. } | Pending::DragFrom { .. } | Pending::DragTo { .. } => {
            return resume_drag(pending, reply);
        },
        Pending::ScrollTarget { .. }
        | Pending::ScrollPoint { .. }
        | Pending::ScrollPixels { .. } => {
            return resume_scroll(pending, reply);
        },
        _ => {},
    }
    match (pending, reply) {
        (Pending::Apps, Reply::Apps(apps)) => Turn::Done(
            Ok(text_result(write_apps(&apps).as_str())),
        ),
        (Pending::State, Reply::State(state)) => {
            let picture = encode_base64(state.screenshot_png.as_slice());
            Turn::Done(Ok(state_result(&state, picture.as_str())))
        },
        (Pending::ClickTarget { app, index, button, count }, Reply::Target(target)) => resume_target(
            app,
            index,
            button,
            count,
            target,
        ),
        (Pending::ClickPoint { button, count }, Reply::Point(p)) => send(
            "click",
            make_click_payload(p.x, p.y, count, p.window_uuid.as_str(), &button),
        ),
        (Pending::Key { args }, Reply::Window(uuid)) => resume_keys(
            "press_key",
            "key",
            &args,
            uuid.as_str(),
        ),
        (Pending::Typing { args }, Reply::Window(uuid)) => resume_keys(
            "type_text",
            "text",
            &args,
            uuid.as_str(),
        ),
        (Pending::SetReady { args }, Reply::Done) => match read_element(&args, "value") {
            Ok((app, index, value)) => Turn::Ask(
                Query::SetValue { app, index, value },
                Pending::Last,
            ),
            Err(fault) => fail(fault),
        },
        (Pending::SelectReady { args }, Reply::Done) => resume_select(&args),
        (Pending::ActReady { args }, Reply::Done) => match read_element(&args, "action") {
            Ok((app, index, action)) => Turn::Ask(
                Query::Act { app, index, action },
                Pending::Last,
            ),
            Err(fault) => fail(fault),
        },
        (Pending::Last, Reply::Done) => Turn::Done(Ok(ok_result())),
        _ => fail(Fault::of("unexpected reply")),
    }
}

/// A name that is not that of a tool is refused.
pub proof fn law_only_tools_are_called(name: Seq<char>, args: JsonView)
    requires
        !is_tool(name),
    ensures
        begun(name, args) == failed(general("unknown tool: "@ + name)),
{
}

/// How many replies a call still waits for, at most.
pub open spec fn remaining(pending: PendingView) -> nat {
    match pending {
        Pending::Apps => 1,
        Pending::State => 1,
        Pending::ClickTarget { .. } => 2,
        Pending::ClickPoint { .. } => 2,
        Pending::DragReady { .. } => 4,
        Pending::DragFrom { .. } => 3,
        Pending::DragTo { .. } => 2,
        Pending::ScrollTarget { .. } => 3,
        Pending::ScrollPoint { .. } => 3,
        Pending::ScrollPixels { .. } => 2,
        Pending::Key { .. } => 2,
        Pending::Typing { .. } => 2,
        Pending::SetReady { .. } => 2,
        Pending::SelectReady { .. } => 2,
        Pending::ActReady { .. } => 2,
        Pending::Last => 1,
    }
}

/// Every call ends: with each reply fewer are left to wait for.
pub proof fn law_calls_end(
    pending: PendingView,
    reply: ReplyView,
    query: QueryView,
    next: PendingView,
)
    requires
        resumed(pending, reply) == (Turn::Ask::<Seq<char>, JsonView, PointView, FaultView>(
            query,
            next,
        )),
    ensures
        remaining(next) < remaining(pending),
{
}

/// The window that was brought to the front before an input command is sent.
pub open spec fn prepared_window(pending: PendingView, reply: ReplyView) -> Option<Seq<char>> {
    match (pending, reply) {
        (Pending::ScrollPixels { point, .. }, _) => Some(point.window_uuid),
        (Pending::DragTo { from }, _) => Some(from.window_uuid),
        (_, Reply::Target(t)) => Some(t.window_uuid),
        (_, Reply::Point(p)) => Some(p.window_uuid),
        (_, Reply::Window(uuid)) => Some(uuid),
        _ => None,
    }
}

proof fn lemma_click_names_window(
    x: Real,
    y: Real,
    count: int,
    uuid: Seq<char>,
    button: Option<Seq<char>>,
)
    ensures
        click_payload(x, y, count, uuid, button).get("expected_window_uuid"@) == Some(
            JsonView::Text(uuid),
        ),
{
    reveal_strlit("x");
    reveal_strlit("y");
    reveal_strlit("click_count");
    reveal_strlit("expected_window_uuid");
    assert("x"@.len() == 1);
    assert("y"@.len() == 1);
    assert("click_count"@.len() == 11);
    assert("expected_window_uuid"@.len() == 20);
    let key = "expected_window_uuid"@;
    let a = no_members();
    let b = a.push(("x"@, real_value(x)));
    let c = b.push(("y"@, real_value(y)));
    let d = c.push(("click_count"@, int_value(count)));
    let e = d.push((key, JsonView::Text(uuid)));
    lemma_found_push(a, "x"@, real_value(x), key);
    lemma_found_push(b, "y"@, real_value(y), key);
    lemma_found_push(c, "click_count"@, int_value(count), key);
    lemma_found_push(d, key, JsonView::Text(uuid), key);
    if let Some(name) = button {
        lemma_found_push(e, "mouse_button"@, JsonView::Text(name), key);
    }
}

proof fn lemma_drag_names_window(from: PointView, to: PointView)
    ensures
        drag_payload(from, to).get("expected_window_uuid"@) == Some(
            JsonView::Text(from.window_uuid),
        ),
{
    reveal_strlit("from_x");
    reveal_strlit("from_y");
    reveal_strlit("to_x");
    reveal_strlit("to_y");
    reveal_strlit("expected_window_uuid");
    assert("from_x"@.len() == 6);
    assert("from_y"@.len() == 6);
    assert("to_x"@.len() == 4);
    assert("to_y"@.len() == 4);
    assert("expected_window_uuid"@.len() == 20);
    let key = "expected_window_uuid"@;
    let a = no_members();
    let b = a.push(("from_x"@, real_value(from.x)));
    let c = b.push(("from_y"@, real_value(from.y)));
    let d = c.push(("to_x"@, real_value(to.x)));
    let e = d.push(("to_y"@, real_value(to.y)));
    lemma_found_push(a, "from_x"@, real_value(from.x), key);
    lemma_found_push(b, "from_y"@, real_value(from.y), key);
    lemma_found_push(c, "to_x"@, real_value(to.x), key);
    lemma_found_push(d, "to_y"@, real_value(to.y), key);
    lemma_found_push(e, key, JsonView::Text(from.window_uuid), key);
}

proof fn lemma_scroll_names_window(direction: Seq<char>, pixels: Real, point: PointView)
    ensures
        scroll_payload(direction, pixels, point).get("expected_window_uuid"@) == Some(
            JsonView::Text(point.window_uuid),
        ),
{
    reveal_strlit("direction");
    reveal_strlit("pixels");
    reveal_strlit("x");
    reveal_strlit("y");
    reveal_strlit("expected_window_uuid");
    assert("direction"@.len() == 9);
    assert("pixels"@.len() == 6);
    assert("x"@.len() == 1);
    assert("y"@.len() == 1);
    assert("expected_window_uuid"@.len() == 20);
    let key = "expected_window_uuid"@;
    let a = no_members();
    let b = a.push(("direction"@, JsonView::Text(direction)));
    let c = b.push(("pixels"@, real_value(pixels)));
    let d = c.push(("x"@, real_value(point.x)));
    let e = d.push(("y"@, real_value(point.y)));
    lemma_found_push(a, "direction"@, JsonView::Text(direction), key);
    lemma_found_push(b, "pixels"@, real_value(pixels), key);
    lemma_found_push(c, "x"@, real_value(point.x), key);
    lemma_found_push(d, "y"@, real_value(point.y), key);
    lemma_found_push(e, key, JsonView::Text(point.window_uuid), key);
}

proof fn lemma_keys_name_window(field: Seq<char>, value: Seq<char>, uuid: Seq<char>)
    requires
        field != "expected_window_uuid"@,
    ensures
        keys_payload(field, value, uuid).get("expected_window_uuid"@) == Some(
            JsonView::Text(uuid),
        ),
{
    let key = "expected_window_uuid"@;
    let a = no_members();
    let b = a.push((field, JsonView::Text(value)));
    lemma_found_push(a, field, JsonView::Text(value), key);
    lemma_found_push(b, key, JsonView::Text(uuid), key);
}

/// Whether an input command goes to a place.
pub open spec fn placed_at(
    payload: JsonView,
    x_name: Seq<char>,
    y_name: Seq<char>,
    x: Real,
    y: Real,
) -> bool {
    payload.get(x_name) == Some(real_value(x)) && payload.get(y_name) == Some(real_value(y))
}

proof fn lemma_click_place(
    x: Real,
    y: Real,
    count: int,
    uuid: Seq<char>,
    button: Option<Seq<char>>,
)
    ensures
        placed_at(click_payload(x, y, count, uuid, button), "x"@, "y"@, x, y),
{
    reveal_strlit("x");
    reveal_strlit("y");
    assert("x"@[0] == 'x');
    assert("y"@[0] == 'y');
    let a = no_members();
    let b = a.push(("x"@, real_value(x)));
    let c = b.push(("y"@, real_value(y)));
    let d = c.push(("click_count"@, int_value(count)));
    let e = d.push(("expected_window_uuid"@, JsonView::Text(uuid)));
    assert forall|key: Seq<char>| key == "x"@ || key == "y"@ implies found(
        click_payload(x, y, count, uuid, button)->Object_0,
        key,
    ) == #[trigger] found(c, key) && found(c, key) is Some by {
        lemma_found_push(a, "x"@, real_value(x), key);
        lemma_found_push(b, "y"@, real_value(y), key);
        lemma_found_push(c, "click_count"@, int_value(count), key);
        lemma_found_push(d, "expected_window_uuid"@, JsonView::Text(uuid), key);
        if let Some(name) = button {
            lemma_found_push(e, "mouse_button"@, JsonView::Text(name), key);
        }
    }
    assert(found(c, "x"@) == Some(real_value(x))) by {
        lemma_found_push(a, "x"@, real_value(x), "x"@);
        lemma_found_push(b, "y"@, real_value(y), "x"@);
    }
    assert(found(c, "y"@) == Some(real_value(y))) by {
        lemma_found_push(a, "x"@, real_value(x), "y"@);
        lemma_found_push(b, "y"@, real_value(y), "y"@);
    }
}

proof fn lemma_drag_places(from: PointView, to: PointView)
    ensures
        placed_at(drag_payload(from, to), "from_x"@, "from_y"@, from.x, from.y),
        placed_at(drag_payload(from, to), "to_x"@, "to_y"@, to.x, to.y),
{
    reveal_strlit("from_x");
    reveal_strlit("from_y");
    reveal_strlit("to_x");
    reveal_strlit("to_y");
    assert("from_x"@[5] == 'x' && "from_x"@.len() == 6);
    assert("from_y"@[5] == 'y' && "from_y"@.len() == 6);
    assert("to_x"@[3] == 'x' && "to_x"@.len() == 4);
    assert("to_y"@[3] == 'y' && "to_y"@.len() == 4);
    let a = no_members();
    let b = a.push(("from_x"@, real_value(from.x)));
    let c = b.push(("from_y"@, real_value(from.y)));
    let d = c.push(("to_x"@, real_value(to.x)));
    let e = d.push(("to_y"@, real_value(to.y)));
    let all = e.push(("expected_window_uuid"@, JsonView::Text(from.window_uuid)));
    assert forall|key: Seq<char>| true implies #[trigger] found(all, key) == (if key == "from_x"@ {
        Some(real_value(from.x))
    } else if key == "from_y"@ {
        Some(real_value(from.y))
    } else if key == "to_x"@ {
        Some(real_value(to.x))
    } else if key == "to_y"@ {
        Some(real_value(to.y))
    } else {
        found(all, key)
    }) by {
        lemma_found_push(a, "from_x"@, real_value(from.x), key);
        lemma_found_push(b, "from_y"@, real_value(from.y), key);
        lemma_found_push(c, "to_x"@, real_value(to.x), key);
        lemma_found_push(d, "to_y"@, real_value(to.y), key);
        lemma_found_push(e, "expected_window_uuid"@, JsonView::Text(from.window_uuid), key);
    }
}

proof fn lemma_scroll_place(direction: Seq<char>, pixels: Real, point: PointView)
    ensures
        placed_at(scroll_payload(direction, pixels, point), "x"@, "y"@, point.x, point.y),
{
    reveal_strlit("direction");
    reveal_strlit("pixels");
    reveal_strlit("x");
    reveal_strlit("y");
    assert("direction"@.len() == 9);
    assert("pixels"@.len() == 6);
    assert("x"@[0] == 'x' && "x"@.len() == 1);
    assert("y"@[0] == 'y' && "y"@.len() == 1);
    let a = no_members();
    let b = a.push(("direction"@, JsonView::Text(direction)));
    let c = b.push(("pixels"@, real_value(pixels)));
    let d = c.push(("x"@, real_value(point.x)));
    let e = d.push(("y"@, real_value(point.y)));
    let all = e.push(("expected_window_uuid"@, JsonView::Text(point.window_uuid)));
    assert forall|key: Seq<char>| true implies #[trigger] found(all, key) == (if key == "x"@ {
        Some(real_value(point.x))
    } else if key == "y"@ {
        Some(real_value(point.y))
    } else {
        found(all, key)
    }) by {
        lemma_found_push(a, "direction"@, JsonView::Text(direction), key);
        lemma_found_push(b, "pixels"@, real_value(pixels), key);
        lemma_found_push(c, "x"@, real_value(point.x), key);
        lemma_found_push(d, "y"@, real_value(point.y), key);
        lemma_found_push(e, "expected_window_uuid"@, JsonView::Text(point.window_uuid), key);
    }
}

/// No place of the caller's is sent as it is: a click, a drag and a scroll go
/// exactly to the places on the screen that were prepared for them.
pub proof fn law_places_are_prepared(
    pending: PendingView,
    reply: ReplyView,
    command: Seq<char>,
    payload: JsonView,
    next: PendingView,
)
    requires
        resumed(pending, reply) == (Turn::Ask::<Seq<char>, JsonView, PointView, FaultView>(
            Query::Send { command, payload },
            next,
        )),
    ensures
        match (pending, reply) {
            (Pending::ScrollPixels { point, .. }, _) => {
                &&& command == "scroll"@
                &&& placed_at(payload, "x"@, "y"@, point.x, point.y)
            },
            (Pending::DragTo { from }, Reply::Point(to)) => {
                &&& command == "drag"@
                &&& placed_at(payload, "from_x"@, "from_y"@, from.x, from.y)
                &&& placed_at(payload, "to_x"@, "to_y"@, to.x, to.y)
            },
            (_, Reply::Target(t)) => {
                &&& command == "click"@
                &&& placed_at(payload, "x"@, "y"@, t.center_x, t.center_y)
            },
            (_, Reply::Point(p)) => {
                &&& command == "click"@
                &&& placed_at(payload, "x"@, "y"@, p.x, p.y)
            },
            _ => command == "press_key"@ || command == "type_text"@,
        },
{
    match (pending, reply) {
        (Pending::ClickTarget { app, index, button, count }, Reply::Target(t)) => {
            lemma_click_place(t.center_x, t.center_y, count as int, t.window_uuid, button);
        },
        (Pending::ClickPoint { button, count }, Reply::Point(p)) => {
            lemma_click_place(p.x, p.y, count as int, p.window_uuid, button);
        },
        (Pending::DragTo { from }, Reply::Point(to)) => {
            lemma_drag_places(from, to);
        },
        (Pending::ScrollPixels { direction, point }, Reply::Number(pixels)) => {
            lemma_scroll_place(direction, pixels, point);
        },
        _ => {},
    }
}

/// A place that is kept for later is the one that was prepared last.
pub proof fn law_kept_places_were_prepared(
    pending: PendingView,
    reply: ReplyView,
    query: QueryView,
    next: PendingView,
)
    requires
        resumed(pending, reply) == (Turn::Ask::<Seq<char>, JsonView, PointView, FaultView>(
            query,
            next,
        )),
    ensures
        match next {
            Pending::DragTo { from } => reply == (Reply::Point::<
                Seq<char>,
                Seq<OfferView>,
                StateView,
                TargetView,
                PointView,
                FaultView,
            >(from)),
            Pending::ScrollPixels { point, .. } => match reply {
                Reply::Point(p) => point == p,
                Reply::Target(t) => point == (PointView {
                    x: t.center_x,
                    y: t.center_y,
                    window_uuid: t.window_uuid,
                }),
                _ => false,
            },
            _ => true,
        },
{
}

/// Every input command names the window that was brought to the front for it.
pub proof fn law_input_names_its_window(
    pending: PendingView,
    reply: ReplyView,
    command: Seq<char>,
    payload: JsonView,
    next: PendingView,
)
    requires
        resumed(pending, reply) == (Turn::Ask::<Seq<char>, JsonView, PointView, FaultView>(
            Query::Send { command, payload },
            next,
        )),
    ensures
        prepared_window(pending, reply) is Some,
        payload.get("expected_window_uuid"@) == Some(
            JsonView::Text(prepared_window(pending, reply)->Some_0),
        ),
{
    match (pending, reply) {
        (Pending::ClickTarget { app, index, button, count }, Reply::Target(t)) => {
            lemma_click_names_window(
                t.center_x,
                t.center_y,
                count as int,
                t.window_uuid,
                button,
            );
        },
        (Pending::ClickPoint { button, count }, Reply::Point(p)) => {
            lemma_click_names_window(p.x, p.y, count as int, p.window_uuid, button);
        },
        (Pending::DragTo { from }, Reply::Point(to)) => {
            lemma_drag_names_window(from, to);
        },
        (Pending::ScrollPixels { direction, point }, Reply::Number(pixels)) => {
            lemma_scroll_names_window(direction, pixels, point);
        },
        (Pending::Key { args }, Reply::Window(uuid)) => {
            reveal_strlit("key");
            reveal_strlit("expected_window_uuid");
            assert("key"@.len() == 3);
            assert("expected_window_uuid"@.len() == 20);
            lemma_keys_name_window("key"@, text_arg(args, "key"@)->Ok_0, uuid);
        },
        (Pending::Typing { args }, Reply::Window(uuid)) => {
            reveal_strlit("text");
            reveal_strlit("expected_window_uuid");
            assert("text"@.len() == 4);
            assert("expected_window_uuid"@.len() == 20);
            lemma_keys_name_window("text"@, text_arg(args, "text"@)->Ok_0, uuid);
        },
        _ => {},
    }
}

/// Whether the arguments give a text under a name.
pub open spec fn gives_text(args: JsonView, name: Seq<char>, s: Seq<char>) -> bool {
    args.get(name) == Some(JsonView::Text(s))
}

/// Whether the arguments give a text under a name, or none.
pub open spec fn may_give_text(args: JsonView, name: Seq<char>, s: Option<Seq<char>>) -> bool {
    match s {
        Some(t) => gives_text(args, name, t),
        None => gives_nothing(args, name),
    }
}

/// Whether the arguments give nothing under a name.
pub open spec fn gives_nothing(args: JsonView, name: Seq<char>) -> bool {
    args.get(name) is None || args.get(name) == Some(JsonView::Null)
}

/// Whether the arguments give a number under a name.
pub open spec fn gives_number(args: JsonView, name: Seq<char>, x: Real) -> bool {
    &&& x.finite()
    &&& args.get(name) matches Some(JsonView::Number(n)) && match n {
        Number::Natural(k) => x == double_of(k as int),
        Number::Negative(k) => x == double_of(k as int),
        Number::Double(y) => x == y,
    }
}

/// Whether the arguments give an integer under a name.
pub open spec fn gives_integer(args: JsonView, name: Seq<char>, n: int) -> bool {
    args.get(name) matches Some(JsonView::Number(given)) && match given {
        Number::Natural(k) => k == n,
        Number::Negative(k) => k == n,
        Number::Double(_) => false,
    }
}

/// Whether the arguments give the application that a call is for.
pub open spec fn gives_app(args: JsonView, app: Seq<char>) -> bool {
    gives_text(args, "app"@, app) && trimmed(app).len() > 0
}

/// Whether the arguments name the button and the number of a click; without a
/// number it is one click.
pub open spec fn gives_click(args: JsonView, button: Option<Seq<char>>, count: i64) -> bool {
    &&& may_give_text(args, "mouse_button"@, button)
    &&& button is None || button == Some("left"@) || button == Some("l"@) || button == Some(
        "right"@,
    ) || button == Some("r"@) || button == Some("middle"@) || button == Some("m"@)
    &&& gives_integer(args, "click_count"@, count as int) || gives_nothing(args, "click_count"@)
        && count == 1
    &&& 1 <= count <= 3
}

/// Whether the arguments name the direction and the extent of a scroll; without
/// an extent it is one page.
pub open spec fn gives_scroll(args: JsonView, direction: Seq<char>, pages: Real) -> bool {
    &&& {
        ||| direction == "up"@ && (gives_text(args, "direction"@, "up"@) || gives_text(
            args,
            "direction"@,
            "u"@,
        ))
        ||| direction == "down"@ && (gives_text(args, "direction"@, "down"@) || gives_text(
            args,
            "direction"@,
            "d"@,
        ))
        ||| direction == "left"@ && (gives_text(args, "direction"@, "left"@) || gives_text(
            args,
            "direction"@,
            "l"@,
        ))
        ||| direction == "right"@ && (gives_text(args, "direction"@, "right"@) || gives_text(
            args,
            "direction"@,
            "r"@,
        ))
    }
    &&& gives_number(args, "pages"@, pages) || gives_nothing(args, "pages"@) && pages.finite()
        && pages.units() == int_units(1)
    &&& 0 < pages.units() <= int_units(20)
}

/// A call asks first for what it was given: for the application, the element or
/// the point that the arguments name, each under its own name. A point is asked
/// for where no element is given, an element only where no point is, and the
/// middle of the picture only for a scroll with neither. What the call keeps
/// for later is what the arguments say too.
pub proof fn law_calls_begin_with_what_is_given(
    name: Seq<char>,
    args: JsonView,
    query: QueryView,
    pending: PendingView,
)
    requires
        begun(name, args) == (Turn::Ask::<Seq<char>, JsonView, PointView, FaultView>(
            query,
            pending,
        )),
    ensures
        match query {
            Query::ListApps => name == "list_apps"@ && pending is Apps,
            Query::Snapshot { app, settle_ms } => {
                &&& name == "get_app_state"@ && pending is State
                &&& gives_app(args, app)
                &&& match settle_ms {
                    Some(n) => gives_integer(args, "settle_ms"@, n as int),
                    None => gives_nothing(args, "settle_ms"@),
                }
            },
            Query::Target { app, index } => {
                &&& gives_app(args, app)
                &&& gives_integer(args, "element_index"@, index as int)
                &&& args.get("x"@) is None && args.get("y"@) is None
                &&& match pending {
                    Pending::ClickTarget { app: kept, index: i, button, count } => {
                        &&& name == "click"@
                        &&& kept == app && i == index
                        &&& gives_click(args, button, count)
                    },
                    Pending::ScrollTarget { direction, pages } => {
                        &&& name == "scroll"@
                        &&& gives_scroll(args, direction, pages)
                    },
                    _ => false,
                }
            },
            Query::Translate { app, x, y } => {
                &&& gives_app(args, app)
                &&& gives_number(args, "x"@, x)
                &&& gives_number(args, "y"@, y)
                &&& gives_nothing(args, "element_index"@)
                &&& match pending {
                    Pending::ClickPoint { button, count } => {
                        &&& name == "click"@
                        &&& gives_click(args, button, count)
                    },
                    Pending::ScrollPoint { direction, pages } => {
                        &&& name == "scroll"@
                        &&& gives_scroll(args, direction, pages)
                    },
                    _ => false,
                }
            },
            Query::Center { app } => {
                &&& name == "scroll"@
                &&& gives_app(args, app)
                &&& gives_nothing(args, "element_index"@)
                &&& gives_nothing(args, "x"@) && gives_nothing(args, "y"@)
                &&& pending matches Pending::ScrollPoint { direction, pages } && gives_scroll(
                    args,
                    direction,
                    pages,
                )
            },
            Query::Prepare { app } => {
                &&& gives_app(args, app)
                &&& match pending {
                    Pending::Key { args: kept } => name == "press_key"@ && kept == args,
                    Pending::Typing { args: kept } => name == "type_text"@ && kept == args,
                    _ => false,
                }
            },
            Query::Engine => match pending {
                Pending::DragReady { app, args: kept } => name == "drag"@ && kept == args
                    && gives_app(args, app),
                Pending::SetReady { args: kept } => name == "set_value"@ && kept == args,
                Pending::SelectReady { args: kept } => name == "select_text"@ && kept == args,
                Pending::ActReady { args: kept } => name == "perform_secondary_action"@ && kept
                    == args,
                _ => false,
            },
            _ => false,
        },
{
    lemma_small_doubles();
}

/// What a call asks for once it goes on is what its arguments say, each under
/// its own name: a drag first for the point where it begins and then for the
/// one where it ends, and the other calls for the element, the value, the text
/// and the action that are given. What it sends are the button, the number of
/// clicks, the direction, the distance, the key and the text that are meant.
pub proof fn law_calls_go_on_with_what_is_given(
    pending: PendingView,
    reply: ReplyView,
    query: QueryView,
    next: PendingView,
)
    requires
        resumed(pending, reply) == (Turn::Ask::<Seq<char>, JsonView, PointView, FaultView>(
            query,
            next,
        )),
    ensures
        match pending {
            Pending::DragReady { app, args } => {
                &&& query matches Query::Translate { app: asked, x, y } && asked == app
                    && gives_number(args, "from_x"@, x) && gives_number(args, "from_y"@, y)
                &&& next matches Pending::DragFrom { app: kept, args: rest } && kept == app
                    && rest == args
            },
            Pending::DragFrom { app, args } => {
                &&& query matches Query::Translate { app: asked, x, y } && asked == app
                    && gives_number(args, "to_x"@, x) && gives_number(args, "to_y"@, y)
                &&& next is DragTo
            },
            Pending::SetReady { args } => {
                &&& query matches Query::SetValue { app, index, value } && gives_app(args, app)
                    && gives_integer(args, "element_index"@, index as int) && gives_text(
                    args,
                    "value"@,
                    value,
                )
                &&& next is Last
            },
            Pending::ActReady { args } => {
                &&& query matches Query::Act { app, index, action } && gives_app(args, app)
                    && gives_integer(args, "element_index"@, index as int) && gives_text(
                    args,
                    "action"@,
                    action,
                )
                &&& next is Last
            },
            Pending::SelectReady { args } => {
                &&& query matches Query::Select { app, index, text, prefix, suffix, kind }
                    && gives_app(args, app) && gives_integer(args, "element_index"@, index as int)
                    && gives_text(args, "text"@, text) && may_give_text(args, "prefix"@, prefix)
                    && may_give_text(args, "suffix"@, suffix) && may_give_text(
                    args,
                    "selection_type"@,
                    kind,
                )
                &&& next is Last
            },
            Pending::ScrollTarget { direction, pages } => query == (Query::Pixels::<
                Seq<char>,
                JsonView,
            > { pages }) && (next matches Pending::ScrollPixels { direction: kept, .. } && kept
                == direction),
            Pending::ScrollPoint { direction, pages } => query == (Query::Pixels::<
                Seq<char>,
                JsonView,
            > { pages }) && (next matches Pending::ScrollPixels { direction: kept, .. } && kept
                == direction),
            Pending::ScrollPixels { direction, .. } => {
                &&& query matches Query::Send { command, payload } && command == "scroll"@
                    && gives_text(payload, "direction"@, direction) && (reply matches Reply::Number(
                    pixels,
                ) && (pixels.finite() ==> gives_number(payload, "pixels"@, pixels)))
                &&& next is Last
            },
            Pending::Key { args } => {
                &&& query matches Query::Send { command, payload } && command == "press_key"@ && (
                exists|key: Seq<char>|
                    gives_text(args, "key"@, key) && gives_text(payload, "key"@, key))
                &&& next is Last
            },
            Pending::Typing { args } => {
                &&& query matches Query::Send { command, payload } && command == "type_text"@ && (
                exists|text: Seq<char>|
                    gives_text(args, "text"@, text) && gives_text(payload, "text"@, text))
                &&& next is Last
            },
            Pending::ClickPoint { button, count } => {
                &&& query matches Query::Send { command, payload } && command == "click"@
                    && sends_click(payload, button, count)
                &&& next is Last
            },
            Pending::ClickTarget { app, index, button, count } => {
                &&& reply matches Reply::Target(target) && match query {
                    Query::Act { app: asked, index: i, action } => {
                        &&& asked == app && i == index
                        &&& target.click_action == Some(action)
                        &&& count == 1
                        &&& button is None || button == Some("left"@) || button == Some("l"@)
                    },
                    Query::Send { command, payload } => {
                        &&& command == "click"@
                        &&& sends_click(payload, button, count)
                        &&& target.click_action is None || count != 1 || !(button is None || button
                            == Some("left"@) || button == Some("l"@))
                    },
                    _ => false,
                }
                &&& next is Last
            },
            Pending::DragTo { from } => {
                &&& query is Send && next is Last
                &&& reply matches Reply::Point(to) && to.window_uuid == from.window_uuid
            },
            _ => false,
        },
{
    match (pending, reply) {
        (Pending::ClickTarget { app, index, button, count }, Reply::Target(t)) => {
            lemma_click_sends(t.center_x, t.center_y, count, t.window_uuid, button);
        },
        (Pending::ClickPoint { button, count }, Reply::Point(p)) => {
            lemma_click_sends(p.x, p.y, count, p.window_uuid, button);
        },
        (Pending::ScrollPixels { direction, point }, Reply::Number(pixels)) => {
            lemma_scroll_sends(direction, pixels, point);
        },
        (Pending::Key { args }, Reply::Window(uuid)) => {
            let key = text_arg(args, "key"@)->Ok_0;
            lemma_keys_send("key"@, key, uuid);
            assert(gives_text(args, "key"@, key));
        },
        (Pending::Typing { args }, Reply::Window(uuid)) => {
            let text = text_arg(args, "text"@)->Ok_0;
            lemma_keys_send("text"@, text, uuid);
            assert(gives_text(args, "text"@, text));
        },
        _ => {},
    }
}

/// Whether an input command names the button and the number of a click.
pub open spec fn sends_click(payload: JsonView, button: Option<Seq<char>>, count: i64) -> bool {
    &&& gives_integer(payload, "click_count"@, count as int)
    &&& match button {
        Some(b) => gives_text(payload, "mouse_button"@, b),
        None => payload.get("mouse_button"@) is None,
    }
}

proof fn lemma_click_sends(
    x: Real,
    y: Real,
    count: i64,
    uuid: Seq<char>,
    button: Option<Seq<char>>,
)
    ensures
        sends_click(click_payload(x, y, count as int, uuid, button), button, count),
{
    reveal_strlit("x");
    reveal_strlit("y");
    reveal_strlit("click_count");
    reveal_strlit("mouse_button");
    reveal_strlit("expected_window_uuid");
    assert("x"@.len() == 1 && "y"@.len() == 1);
    assert("click_count"@.len() == 11);
    assert("mouse_button"@.len() == 12);
    assert("expected_window_uuid"@.len() == 20);
    let a = no_members();
    let b = a.push(("x"@, real_value(x)));
    let c = b.push(("y"@, real_value(y)));
    let d = c.push(("click_count"@, int_value(count as int)));
    let e = d.push(("expected_window_uuid"@, JsonView::Text(uuid)));
    assert forall|key: Seq<char>|
        key == "click_count"@ || key == "mouse_button"@ implies #[trigger] found(e, key) == (if key
        == "click_count"@ {
        Some(int_value(count as int))
    } else {
        None
    }) by {
        lemma_found_push(a, "x"@, real_value(x), key);
        lemma_found_push(b, "y"@, real_value(y), key);
        lemma_found_push(c, "click_count"@, int_value(count as int), key);
        lemma_found_push(d, "expected_window_uuid"@, JsonView::Text(uuid), key);
    }
    if let Some(name) = button {
        lemma_found_push(e, "mouse_button"@, JsonView::Text(name), "click_count"@);
        lemma_found_push(e, "mouse_button"@, JsonView::Text(name), "mouse_button"@);
    }
}

proof fn lemma_scroll_sends(direction: Seq<char>, pixels: Real, point: PointView)
    ensures
        gives_text(scroll_payload(direction, pixels, point), "direction"@, direction),
        scroll_payload(direction, pixels, point).get("pixels"@) == Some(real_value(pixels)),
{
    reveal_strlit("direction");
    reveal_strlit("pixels");
    assert("direction"@.len() == 9);
    assert("pixels"@.len() == 6);
    let a = no_members();
    let b = a.push(("direction"@, JsonView::Text(direction)));
    let c = b.push(("pixels"@, real_value(pixels)));
    let d = c.push(("x"@, real_value(point.x)));
    let e = d.push(("y"@, real_value(point.y)));
    let all = e.push(("expected_window_uuid"@, JsonView::Text(point.window_uuid)));
    assert forall|key: Seq<char>| key == "direction"@ || key == "pixels"@ implies #[trigger] found(
        all,
        key,
    ) == (if key == "direction"@ {
        Some(JsonView::Text(direction))
    } else {
        Some(real_value(pixels))
    }) by {
        lemma_found_push(a, "direction"@, JsonView::Text(direction), key);
        lemma_found_push(b, "pixels"@, real_value(pixels), key);
        lemma_found_push(c, "x"@, real_value(point.x), key);
        lemma_found_push(d, "y"@, real_value(point.y), key);
        lemma_found_push(e, "expected_window_uuid"@, JsonView::Text(point.window_uuid), key);
    }
}

proof fn lemma_keys_send(field: Seq<char>, value: Seq<char>, uuid: Seq<char>)
    ensures
        gives_text(keys_payload(field, value, uuid), field, value),
{
    let a = no_members();
    let b = a.push((field, JsonView::Text(value)));
    lemma_found_push(a, field, JsonView::Text(value), field);
    lemma_found_push(b, "expected_window_uuid"@, JsonView::Text(uuid), field);
}

/// The result of a call for the state of an application holds what was
/// captured: the picture in base 64 and the tree, the window, the size and the
/// scale of the picture, the element that has the focus and the warning.
pub proof fn law_states_are_given_as_captured(state: StateView, picture: Seq<char>)
    ensures
        ({
            let v = state_value(state, picture);
            &&& v.get("content"@) matches Some(JsonView::Array(items)) && items.len() == 2 && {
                &&& gives_text(items[0], "type"@, "image"@)
                &&& gives_text(items[0], "data"@, picture)
                &&& gives_text(items[0], "mimeType"@, "image/png"@)
                &&& gives_text(items[1], "type"@, "text"@)
                &&& gives_text(items[1], "text"@, state.tree)
            }
            &&& v.get("window"@) == Some(window_value(state.window))
            &&& gives_integer(v, "screenshotWidth"@, state.screenshot_width as int)
            &&& gives_integer(v, "screenshotHeight"@, state.screenshot_height as int)
            &&& state.screenshot_scale.finite() ==> gives_number(
                v,
                "screenshotScale"@,
                state.screenshot_scale,
            )
            &&& gives_text(v, "coordinateSpace"@, "screenshot"@)
            &&& v.get("focusedElement"@) == Some(focus_value(state.focused_element))
            &&& may_give_text(v, "accessibilityWarning"@, state.accessibility_warning)
        }),
{
    lemma_state_names();
    let image = no_members().push(("type"@, JsonView::Text("image"@))).push(
        ("data"@, JsonView::Text(picture)),
    ).push(("mimeType"@, JsonView::Text("image/png"@)));
    let tree = no_members().push(("type"@, JsonView::Text("text"@))).push(
        ("text"@, JsonView::Text(state.tree)),
    );
    law_the_first_member_counts(image, "type"@, 0);
    law_the_first_member_counts(image, "data"@, 1);
    law_the_first_member_counts(image, "mimeType"@, 2);
    law_the_first_member_counts(tree, "type"@, 0);
    law_the_first_member_counts(tree, "text"@, 1);
    let items = state_value(state, picture)->Object_0;
    law_the_first_member_counts(items, "content"@, 0);
    law_the_first_member_counts(items, "window"@, 1);
    law_the_first_member_counts(items, "screenshotWidth"@, 2);
    law_the_first_member_counts(items, "screenshotHeight"@, 3);
    law_the_first_member_counts(items, "screenshotScale"@, 4);
    law_the_first_member_counts(items, "coordinateSpace"@, 5);
    law_the_first_member_counts(items, "focusedElement"@, 6);
    law_the_first_member_counts(items, "accessibilityWarning"@, 7);
}

proof fn lemma_state_names()
    ensures
        "type"@.len() == 4 && "data"@.len() == 4 && "text"@.len() == 4 && "mimeType"@.len() == 8,
        "type"@[1] == 'y' && "data"@[1] == 'a' && "text"@[1] == 'e',
        "content"@.len() == 7 && "window"@.len() == 6,
        "screenshotWidth"@.len() == 15 && "screenshotWidth"@[10] == 'W',
        "screenshotHeight"@.len() == 16,
        "screenshotScale"@.len() == 15 && "screenshotScale"@[10] == 'S',
        "coordinateSpace"@.len() == 15 && "coordinateSpace"@[10] == 'S' && "coordinateSpace"@[0]
            == 'c' && "screenshotScale"@[0] == 's' && "screenshotWidth"@[0] == 's',
        "focusedElement"@.len() == 14,
        "accessibilityWarning"@.len() == 20,
{
    reveal_strlit("type");
    reveal_strlit("data");
    reveal_strlit("text");
    reveal_strlit("mimeType");
    reveal_strlit("content");
    reveal_strlit("window");
    reveal_strlit("screenshotWidth");
    reveal_strlit("screenshotHeight");
    reveal_strlit("screenshotScale");
    reveal_strlit("coordinateSpace");
    reveal_strlit("focusedElement");
    reveal_strlit("accessibilityWarning");
}

/// A window is described by what is known of it, each under its own name, and
/// so is the element that has the focus.
pub proof fn law_windows_are_described_as_they_are(w: WindowView, f: FocusView)
    requires
        0 <= f.index <= i64::MAX,
    ensures
        ({
            let v = window_value(w);
            &&& gives_text(v, "uuid"@, w.uuid)
            &&& gives_text(v, "caption"@, w.caption)
            &&& gives_text(v, "resourceClass"@, w.resource_class)
            &&& gives_text(v, "resourceName"@, w.resource_name)
            &&& gives_text(v, "desktopFile"@, w.desktop_file)
            &&& gives_integer(v, "pid"@, w.pid as int)
            &&& w.x.finite() ==> gives_number(v, "x"@, w.x)
            &&& w.y.finite() ==> gives_number(v, "y"@, w.y)
            &&& w.width.finite() ==> gives_number(v, "width"@, w.width)
            &&& w.height.finite() ==> gives_number(v, "height"@, w.height)
            &&& v.get("minimized"@) == Some(JsonView::Bool(w.minimized))
            &&& v.get("fullscreen"@) == Some(JsonView::Bool(w.fullscreen))
        }),
        gives_integer(focus_value(Some(f)), "index"@, f.index),
        gives_text(focus_value(Some(f)), "role"@, f.role),
        gives_text(focus_value(Some(f)), "name"@, f.name),
        focus_value(None) == JsonView::Null,
{
    lemma_window_names();
    let items = window_value(w)->Object_0;
    law_the_first_member_counts(items, "uuid"@, 0);
    law_the_first_member_counts(items, "caption"@, 1);
    law_the_first_member_counts(items, "resourceClass"@, 2);
    law_the_first_member_counts(items, "resourceName"@, 3);
    law_the_first_member_counts(items, "desktopFile"@, 4);
    law_the_first_member_counts(items, "pid"@, 5);
    law_the_first_member_counts(items, "x"@, 6);
    law_the_first_member_counts(items, "y"@, 7);
    law_the_first_member_counts(items, "width"@, 8);
    law_the_first_member_counts(items, "height"@, 9);
    law_the_first_member_counts(items, "minimized"@, 10);
    law_the_first_member_counts(items, "fullscreen"@, 11);
    let focus = focus_value(Some(f))->Object_0;
    law_the_first_member_counts(focus, "index"@, 0);
    law_the_first_member_counts(focus, "role"@, 1);
    law_the_first_member_counts(focus, "name"@, 2);
}

proof fn lemma_window_names()
    ensures
        "uuid"@.len() == 4 && "caption"@.len() == 7,
        "resourceClass"@.len() == 13 && "resourceName"@.len() == 12,
        "desktopFile"@.len() == 11 && "pid"@.len() == 3,
        "x"@.len() == 1 && "x"@[0] == 'x' && "y"@.len() == 1 && "y"@[0] == 'y',
        "width"@.len() == 5 && "height"@.len() == 6,
        "minimized"@.len() == 9 && "fullscreen"@.len() == 10,
        "index"@.len() == 5 && "role"@.len() == 4 && "role"@[0] == 'r',
        "name"@.len() == 4 && "name"@[0] == 'n',
{
    reveal_strlit("uuid");
    reveal_strlit("caption");
    reveal_strlit("resourceClass");
    reveal_strlit("resourceName");
    reveal_strlit("desktopFile");
    reveal_strlit("pid");
    reveal_strlit("x");
    reveal_strlit("y");
    reveal_strlit("width");
    reveal_strlit("height");
    reveal_strlit("minimized");
    reveal_strlit("fullscreen");
    reveal_strlit("index");
    reveal_strlit("role");
    reveal_strlit("name");
}

/// A call ends with what it was for: the list of the applications, the state
/// with its picture, or `ok` once the last thing was done; and where something
/// failed, with that failure.
pub proof fn law_calls_end_with_their_result(pending: PendingView, reply: ReplyView)
    ensures
        reply matches Reply::Failed(e) ==> resumed(pending, reply) == Turn::Done::<
            Seq<char>,
            JsonView,
            PointView,
            FaultView,
        >(Err(e)),
        resumed(pending, reply) matches Turn::Done(Ok(v)) ==> match (pending, reply) {
            (Pending::Apps, Reply::Apps(apps)) => is_text_result(v, apps_text(apps)),
            (Pending::State, Reply::State(state)) => v == state_value(
                state,
                base64_text(state.screenshot_png),
            ),
            (Pending::Last, Reply::Done) => is_text_result(v, "ok"@),
            _ => false,
        },
        pending is Last && reply is Done ==> resumed(pending, reply) is Done && resumed(
            pending,
            reply,
        )->Done_0 is Ok,
        pending is Apps && reply is Apps ==> resumed(pending, reply) is Done && resumed(
            pending,
            reply,
        )->Done_0 is Ok,
        pending is State && reply is State ==> resumed(pending, reply) is Done && resumed(
            pending,
            reply,
        )->Done_0 is Ok,
{
    match (pending, reply) {
        (Pending::Apps, Reply::Apps(apps)) => lemma_text_result(apps_text(apps)),
        (Pending::Last, Reply::Done) => lemma_text_result("ok"@),
        _ => {},
    }
}

/// Whether a result is a text and nothing else.
pub open spec fn is_text_result(v: JsonView, s: Seq<char>) -> bool {
    v.get("content"@) matches Some(JsonView::Array(items)) && items.len() == 1 && gives_text(
        items[0],
        "type"@,
        "text"@,
    ) && gives_text(items[0], "text"@, s)
}

proof fn lemma_text_result(s: Seq<char>)
    ensures
        is_text_result(text_value(s), s),
{
    lemma_state_names();
    let line = no_members().push(("type"@, JsonView::Text("text"@))).push(
        ("text"@, JsonView::Text(s)),
    );
    law_the_first_member_counts(line, "type"@, 0);
    law_the_first_member_counts(line, "text"@, 1);
    law_the_first_member_counts(text_value(s)->Object_0, "content"@, 0);
}

/// The applications are listed in their order, each as an object with its
/// exact name, its name and whether it runs.
pub proof fn law_apps_are_written_in_order(a: Seq<OfferView>, b: Seq<OfferView>, app: OfferView)
    requires
        a.len() > 0,
        b.len() > 0,
    ensures
        apps_text(seq![app]) == "["@ + app_text(app) + "]"@,
        apps_text(a + b) == "["@ + (inner(apps_text(a)) + ","@ + inner(apps_text(b))) + "]"@,
        app.display_name matches Some(name) ==> app_text(app) == "{\"id\":"@ + json_string(app.id)
            + ",\"displayName\":"@ + json_string(name) + ",\"isRunning\":"@ + (if app.is_running {
            "true"@
        } else {
            "false"@
        }) + "}"@,
{
    reveal_strlit("[");
    reveal_strlit("]");
    let ta = Seq::new(a.len(), |i: int| app_text(a[i]));
    let tb = Seq::new(b.len(), |i: int| app_text(b[i]));
    let both = Seq::new((a + b).len(), |i: int| app_text((a + b)[i]));
    assert(both =~= ta + tb);
    crate::text::law_texts_are_joined_in_order(ta, tb, ","@);
    assert(inner(apps_text(a)) =~= joined(ta, ","@));
    assert(inner(apps_text(b)) =~= joined(tb, ","@));
    assert(Seq::new(seq![app].len(), |i: int| app_text(seq![app][i])) =~= seq![app_text(app)]);
}

/// A text without its first and its last character.
pub open spec fn inner(s: Seq<char>) -> Seq<char> {
    s.subrange(1, s.len() - 1)
}

/// A click is taken just where its application, its button and its number of
/// clicks are given as they have to be, together with either an element or a
/// point.
pub proof fn law_good_clicks_are_taken(
    args: JsonView,
    app: Seq<char>,
    button: Option<Seq<char>>,
    count: i64,
    index: i64,
    x: Real,
    y: Real,
)
    requires
        gives_app(args, app),
        gives_click(args, button, count),
    ensures
        gives_integer(args, "element_index"@, index as int) && args.get("x"@) is None && args.get(
            "y"@,
        ) is None ==> begun("click"@, args) is Ask && begun("click"@, args)->Ask_0 is Target,
        gives_nothing(args, "element_index"@) && gives_number(args, "x"@, x) && gives_number(
            args,
            "y"@,
            y,
        ) ==> begun("click"@, args) is Ask && begun("click"@, args)->Ask_0 is Translate,
{
    lemma_tool_names();
}

/// A scroll is taken just where its application, its direction and its extent
/// are given as they have to be, together with an element, a point or neither.
pub proof fn law_good_scrolls_are_taken(
    args: JsonView,
    app: Seq<char>,
    direction: Seq<char>,
    pages: Real,
    index: i64,
    x: Real,
    y: Real,
)
    requires
        gives_app(args, app),
        gives_scroll(args, direction, pages),
    ensures
        gives_integer(args, "element_index"@, index as int) && args.get("x"@) is None && args.get(
            "y"@,
        ) is None ==> begun("scroll"@, args) is Ask && begun("scroll"@, args)->Ask_0 is Target,
        gives_nothing(args, "element_index"@) && gives_number(args, "x"@, x) && gives_number(
            args,
            "y"@,
            y,
        ) ==> begun("scroll"@, args) is Ask && begun("scroll"@, args)->Ask_0 is Translate,
        gives_nothing(args, "element_index"@) && gives_nothing(args, "x"@) && gives_nothing(
            args,
            "y"@,
        ) ==> begun("scroll"@, args) is Ask && begun("scroll"@, args)->Ask_0 is Center,
{
    lemma_tool_names();
    lemma_small_doubles();
}

/// The other tools are taken where the application is given; those that work on
/// an element look at their arguments only once there is an engine.
pub proof fn law_good_calls_are_taken(args: JsonView, app: Seq<char>)
    requires
        gives_app(args, app),
    ensures
        begun("list_apps"@, args) is Ask,
        gives_nothing(args, "settle_ms"@) ==> begun("get_app_state"@, args) is Ask,
        (exists|n: u64| #[trigger] gives_integer(args, "settle_ms"@, n as int)) ==> begun(
            "get_app_state"@,
            args,
        ) is Ask,
        begun("drag"@, args) is Ask,
        begun("press_key"@, args) is Ask,
        begun("type_text"@, args) is Ask,
        begun("set_value"@, args) is Ask,
        begun("select_text"@, args) is Ask,
        begun("perform_secondary_action"@, args) is Ask,
{
    lemma_tool_names();
}

proof fn lemma_tool_names()
    ensures
        "list_apps"@.len() == 9 && "list_apps"@[0] == 'l',
        "get_app_state"@.len() == 13,
        "click"@.len() == 5,
        "drag"@.len() == 4,
        "scroll"@.len() == 6,
        "press_key"@.len() == 9 && "press_key"@[0] == 'p',
        "type_text"@.len() == 9 && "type_text"@[0] == 't',
        "set_value"@.len() == 9 && "set_value"@[0] == 's',
        "select_text"@.len() == 11,
        "perform_secondary_action"@.len() == 24,
        "app"@.len() == 3,
        "direction"@.len() == 9,
{
    reveal_strlit("list_apps");
    reveal_strlit("get_app_state");
    reveal_strlit("click");
    reveal_strlit("drag");
    reveal_strlit("scroll");
    reveal_strlit("press_key");
    reveal_strlit("type_text");
    reveal_strlit("set_value");
    reveal_strlit("select_text");
    reveal_strlit("perform_secondary_action");
    reveal_strlit("app");
    reveal_strlit("direction");
}

/// A call goes on where what it waits for came and its arguments give what is
/// needed next.
pub proof fn law_good_calls_go_on(
    args: JsonView,
    app: Seq<char>,
    index: i64,
    text: Seq<char>,
    p: PointView,
    q: PointView,
    t: TargetView,
    n: Real,
)
    ensures
        (exists|x: Real, y: Real|
            #[trigger] gives_number(args, "from_x"@, x) && #[trigger] gives_number(
                args,
                "from_y"@,
                y,
            )) ==> resumed(Pending::DragReady { app, args }, Reply::Done) is Ask,
        (exists|x: Real, y: Real|
            #[trigger] gives_number(args, "to_x"@, x) && #[trigger] gives_number(args, "to_y"@, y))
            ==> resumed(Pending::DragFrom { app, args }, Reply::Point(p)) is Ask,
        p.window_uuid == q.window_uuid ==> resumed(Pending::DragTo { from: p }, Reply::Point(q)) is Ask,
        p.window_uuid != q.window_uuid ==> !(resumed(
            Pending::DragTo { from: p },
            Reply::Point(q),
        ) is Ask),
        resumed(Pending::ClickPoint { button: None, count: index }, Reply::Point(p)) is Ask,
        resumed(
            Pending::ClickTarget { app, index, button: Some(text), count: index },
            Reply::Target(t),
        ) is Ask,
        resumed(Pending::ScrollTarget { direction: text, pages: n }, Reply::Target(t)) is Ask,
        resumed(Pending::ScrollPoint { direction: text, pages: n }, Reply::Point(p)) is Ask,
        resumed(Pending::ScrollPixels { direction: text, point: p }, Reply::Number(n)) is Ask,
        gives_text(args, "key"@, text) ==> resumed(
            Pending::Key { args },
            Reply::Window(p.window_uuid),
        ) is Ask,
        gives_text(args, "text"@, text) ==> resumed(
            Pending::Typing { args },
            Reply::Window(p.window_uuid),
        ) is Ask,
        gives_app(args, app) && gives_integer(args, "element_index"@, index as int) ==> {
            &&& gives_text(args, "value"@, text) ==> resumed(Pending::SetReady { args }, Reply::Done) is Ask
            &&& gives_text(args, "action"@, text) ==> resumed(
                Pending::ActReady { args },
                Reply::Done,
            ) is Ask
            &&& gives_text(args, "text"@, text) && gives_nothing(args, "prefix"@) && gives_nothing(
                args,
                "suffix"@,
            ) && gives_nothing(args, "selection_type"@) ==> resumed(
                Pending::SelectReady { args },
                Reply::Done,
            ) is Ask
        },
{
    reveal_strlit("app");
    reveal_strlit("key");
    reveal_strlit("text");
    reveal_strlit("value");
    reveal_strlit("action");
    assert("app"@[0] == 'a' && "key"@[0] == 'k');
    assert("app"@.len() == 3 && "text"@.len() == 4 && "value"@.len() == 5 && "action"@.len() == 6);
}

/// What a call asks for, what it waits for and what came of it are seen as they
/// are.
pub proof fn law_steps_of_a_call_are_seen_as_they_are(
    query: Query<String, Json>,
    pending: CallPending,
    reply: CallReply,
)
    ensures
        match (query, query@) {
            (Query::Engine, Query::Engine) => true,
            (Query::ListApps, Query::ListApps) => true,
            (Query::Snapshot { app, settle_ms }, Query::Snapshot { app: a, settle_ms: n }) => a
                == app@ && n == settle_ms,
            (Query::Target { app, index }, Query::Target { app: a, index: i }) => a == app@ && i
                == index,
            (Query::Act { app, index, action }, Query::Act { app: a, index: i, action: s }) => a
                == app@ && i == index && s == action@,
            (Query::Translate { app, x, y }, Query::Translate { app: a, x: u, y: v }) => a == app@
                && u == x && v == y,
            (Query::Center { app }, Query::Center { app: a }) => a == app@,
            (Query::Prepare { app }, Query::Prepare { app: a }) => a == app@,
            (
                Query::SetValue { app, index, value },
                Query::SetValue { app: a, index: i, value: s },
            ) => a == app@ && i == index && s == value@,
            (
                Query::Select { app, index, text, prefix, suffix, kind },
                Query::Select { app: a, index: i, text: s, prefix: p, suffix: q, kind: k },
            ) => a == app@ && i == index && s == text@ && p == opt_text(prefix) && q == opt_text(
                suffix,
            ) && k == opt_text(kind),
            (Query::Pixels { pages }, Query::Pixels { pages: n }) => n == pages,
            (Query::Send { command, payload }, Query::Send { command: c, payload: v }) => c
                == command@ && v == payload@,
            _ => false,
        },
        match (pending, pending@) {
            (
                Pending::ClickTarget { app, index, button, count },
                Pending::ClickTarget { app: a, index: i, button: b, count: n },
            ) => a == app@ && i == index && b == opt_text(button) && n == count,
            (
                Pending::ClickPoint { button, count },
                Pending::ClickPoint { button: b, count: n },
            ) => b == opt_text(button) && n == count,
            (Pending::DragReady { app, args }, Pending::DragReady { app: a, args: v }) => a == app@
                && v == args@,
            (Pending::DragFrom { app, args }, Pending::DragFrom { app: a, args: v }) => a == app@
                && v == args@,
            (Pending::DragTo { from }, Pending::DragTo { from: f }) => f == from@,
            (
                Pending::ScrollTarget { direction, pages },
                Pending::ScrollTarget { direction: d, pages: n },
            ) => d == direction@ && n == pages,
            (
                Pending::ScrollPoint { direction, pages },
                Pending::ScrollPoint { direction: d, pages: n },
            ) => d == direction@ && n == pages,
            (
                Pending::ScrollPixels { direction, point },
                Pending::ScrollPixels { direction: d, point: p },
            ) => d == direction@ && p == point@,
            (Pending::Key { args }, Pending::Key { args: v }) => v == args@,
            (Pending::Typing { args }, Pending::Typing { args: v }) => v == args@,
            (Pending::SetReady { args }, Pending::SetReady { args: v }) => v == args@,
            (Pending::SelectReady { args }, Pending::SelectReady { args: v }) => v == args@,
            (Pending::ActReady { args }, Pending::ActReady { args: v }) => v == args@,
            (Pending::Apps, Pending::Apps) => true,
            (Pending::State, Pending::State) => true,
            (Pending::Last, Pending::Last) => true,
            _ => false,
        },
        match (reply, reply@) {
            (Reply::Done, Reply::Done) => true,
            (Reply::Apps(apps), Reply::Apps(a)) => a == offers(apps@),
            (Reply::State(state), Reply::State(s)) => s == state@,
            (Reply::Target(target), Reply::Target(t)) => t == target@,
            (Reply::Point(point), Reply::Point(p)) => p == point@,
            (Reply::Window(uuid), Reply::Window(u)) => u == uuid@,
            (Reply::Number(x), Reply::Number(y)) => y == x,
            (Reply::Failed(fault), Reply::Failed(e)) => e == fault@,
            _ => false,
        },
{
}

} // verus!
