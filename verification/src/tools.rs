//! The tools that are offered, as they are described to a caller.

use crate::arguments::{direction_check, is_button};
use crate::element::{selection, text_offsets};
use crate::json::{int_value, integer, text, Items, Json, JsonView, Members};
use vstd::prelude::*;

verus! {

/// A member of an object, in the model.
pub type MemberView = (Seq<char>, JsonView);

/// No members.
pub open spec fn no_members() -> Seq<MemberView> {
    Seq::empty()
}

/// No texts.
pub open spec fn no_texts() -> Seq<Seq<char>> {
    Seq::empty()
}

/// Texts as a list of JSON values.
pub open spec fn text_values(all: Seq<Seq<char>>) -> Seq<JsonView> {
    Seq::new(all.len(), |i: int| JsonView::Text(all[i]))
}

/// An argument of a type.
pub open spec fn typed(kind: Seq<char>) -> JsonView {
    JsonView::Object(no_members().push(("type"@, JsonView::Text(kind))))
}

/// An argument of a type, with a description.
pub open spec fn described(kind: Seq<char>, description: Seq<char>) -> JsonView {
    JsonView::Object(
        no_members().push(("type"@, JsonView::Text(kind))).push(
            ("description"@, JsonView::Text(description)),
        ),
    )
}

/// A text that is one of several.
pub open spec fn one_of(values: Seq<Seq<char>>) -> JsonView {
    JsonView::Object(
        no_members().push(("type"@, JsonView::Text("string"@))).push(
            ("enum"@, JsonView::Array(text_values(values))),
        ),
    )
}

/// An integer between two bounds.
pub open spec fn ranged(min: int, max: int) -> JsonView {
    JsonView::Object(
        no_members().push(("type"@, JsonView::Text("integer"@))).push(
            ("minimum"@, int_value(min)),
        ).push(("maximum"@, int_value(max))),
    )
}

/// An integer between two bounds, with a description.
pub open spec fn ranged_described(min: int, max: int, description: Seq<char>) -> JsonView {
    JsonView::Object(
        no_members().push(("type"@, JsonView::Text("integer"@))).push(
            ("minimum"@, int_value(min)),
        ).push(("maximum"@, int_value(max))).push(("description"@, JsonView::Text(description))),
    )
}

/// A number of pages.
pub open spec fn page_count() -> JsonView {
    JsonView::Object(
        no_members().push(("type"@, JsonView::Text("number"@))).push(
            ("exclusiveMinimum"@, int_value(0)),
        ).push(("maximum"@, int_value(20))),
    )
}

/// The schema of arguments: which there are, and which have to be given.
pub open spec fn schema(properties: Seq<MemberView>, required: Seq<Seq<char>>) -> JsonView {
    let open = no_members().push(("type"@, JsonView::Text("object"@))).push(
        ("properties"@, JsonView::Object(properties)),
    );
    let named = if required.len() == 0 {
        open
    } else {
        open.push(("required"@, JsonView::Array(text_values(required))))
    };
    JsonView::Object(named.push(("additionalProperties"@, JsonView::Bool(false))))
}

/// A tool that is offered.
pub struct ToolView {
    pub name: Seq<char>,
    pub description: Seq<char>,
    pub properties: Seq<MemberView>,
    pub required: Seq<Seq<char>>,
}

/// The description of a tool.
pub open spec fn tool_value(t: ToolView) -> JsonView {
    JsonView::Object(
        no_members().push(("name"@, JsonView::Text(t.name))).push(
            ("description"@, JsonView::Text(t.description)),
        ).push(("inputSchema"@, schema(t.properties, t.required))),
    )
}

/// The names of mouse buttons that are offered.
pub open spec fn button_names() -> Seq<Seq<char>> {
    no_texts()
        .push("left"@)
        .push("right"@)
        .push("middle"@)
        .push("l"@)
        .push("r"@)
        .push("m"@)
}

/// The directions of scrolling that are offered.
pub open spec fn direction_names() -> Seq<Seq<char>> {
    no_texts()
        .push("up"@)
        .push("down"@)
        .push("left"@)
        .push("right"@)
        .push("u"@)
        .push("d"@)
        .push("l"@)
        .push("r"@)
}

/// The kinds of selection that are offered.
pub open spec fn selection_names() -> Seq<Seq<char>> {
    no_texts()
        .push("text"@)
        .push("cursor_before"@)
        .push("cursor_after"@)
}

/// The tool `list_apps`.
pub open spec fn list_apps_tool() -> ToolView {
    ToolView {
        name: "list_apps"@,
        description: "List exact actionable KWin app IDs. Pass these IDs as app."@,
        properties: no_members(),
        required: no_texts(),
    }
}

/// The tool `get_app_state`.
pub open spec fn get_app_state_tool() -> ToolView {
    ToolView {
        name: "get_app_state"@,
        description: "Activate one exact app window, wait briefly for rendering, and return its PID-correlated semantic tree plus exact-window PNG. Required before coordinate or element-index actions."@,
        properties: no_members()
            .push(("app"@, described("string"@, "Exact UUID-qualified app ID from list_apps"@)))
            .push(
                (
                    "settle_ms"@,
                    ranged_described(
                        0,
                        2000,
                        "Render settle delay before capture; defaults to 200 ms"@,
                    ),
                ),
            ),
        required: no_texts().push("app"@),
    }
}

/// The tool `click`.
pub open spec fn click_tool() -> ToolView {
    ToolView {
        name: "click"@,
        description: "Click an indexed element or screenshot-relative x/y in the exact app window. Coordinates require get_app_state."@,
        properties: no_members()
            .push(("app"@, described("string"@, "Exact app ID from list_apps"@)))
            .push(("element_index"@, typed("integer"@)))
            .push(("x"@, described("number"@, "X in latest app screenshot pixels"@)))
            .push(("y"@, described("number"@, "Y in latest app screenshot pixels"@)))
            .push(("mouse_button"@, one_of(button_names())))
            .push(("click_count"@, ranged(1, 3))),
        required: no_texts().push("app"@),
    }
}

/// The tool `drag`.
pub open spec fn drag_tool() -> ToolView {
    ToolView {
        name: "drag"@,
        description: "Drag between two screenshot-relative points in the exact app window. Requires get_app_state."@,
        properties: no_members()
            .push(("app"@, described("string"@, "Exact app ID from list_apps"@)))
            .push(("from_x"@, typed("number"@)))
            .push(("from_y"@, typed("number"@)))
            .push(("to_x"@, typed("number"@)))
            .push(("to_y"@, typed("number"@))),
        required: no_texts()
            .push("app"@)
            .push("from_x"@)
            .push("from_y"@)
            .push("to_x"@)
            .push("to_y"@),
    }
}

/// The tool `scroll`.
pub open spec fn scroll_tool() -> ToolView {
    ToolView {
        name: "scroll"@,
        description: "Scroll at an indexed element, screenshot-relative x/y, or latest screenshot center in the exact app. Requires get_app_state."@,
        properties: no_members()
            .push(("app"@, described("string"@, "Exact app ID from list_apps"@)))
            .push(("element_index"@, typed("integer"@)))
            .push(("direction"@, one_of(direction_names())))
            .push(("pages"@, page_count()))
            .push(("x"@, described("number"@, "X in latest app screenshot pixels"@)))
            .push(("y"@, described("number"@, "Y in latest app screenshot pixels"@))),
        required: no_texts().push("app"@).push("direction"@),
    }
}

/// The tool `press_key`.
pub open spec fn press_key_tool() -> ToolView {
    ToolView {
        name: "press_key"@,
        description: "Activate the exact app ID from list_apps, verify its KWin UUID, then press a key or chord."@,
        properties: no_members().push(("app"@, typed("string"@))).push(("key"@, typed("string"@))),
        required: no_texts().push("app"@).push("key"@),
    }
}

/// The tool `type_text`.
pub open spec fn type_text_tool() -> ToolView {
    ToolView {
        name: "type_text"@,
        description: "Activate the exact app ID from list_apps, verify its KWin UUID, then type text."@,
        properties: no_members().push(("app"@, typed("string"@))).push(("text"@, typed("string"@))),
        required: no_texts().push("app"@).push("text"@),
    }
}

/// The tool `set_value`.
pub open spec fn set_value_tool() -> ToolView {
    ToolView {
        name: "set_value"@,
        description: "Activate the exact app and set a current-session EditableText element. Requires get_app_state."@,
        properties: no_members()
            .push(("app"@, typed("string"@)))
            .push(("element_index"@, typed("integer"@)))
            .push(("value"@, typed("string"@))),
        required: no_texts().push("app"@).push("element_index"@).push("value"@),
    }
}

/// The tool `select_text`.
pub open spec fn select_text_tool() -> ToolView {
    ToolView {
        name: "select_text"@,
        description: "Activate the exact app and select text in a current-session element. Requires get_app_state."@,
        properties: no_members()
            .push(("app"@, typed("string"@)))
            .push(("element_index"@, typed("integer"@)))
            .push(("text"@, typed("string"@)))
            .push(("prefix"@, typed("string"@)))
            .push(("suffix"@, typed("string"@)))
            .push(("selection_type"@, one_of(selection_names()))),
        required: no_texts().push("app"@).push("element_index"@).push("text"@),
    }
}

/// The tool `perform_secondary_action`.
pub open spec fn perform_secondary_action_tool() -> ToolView {
    ToolView {
        name: "perform_secondary_action"@,
        description: "Activate the exact app and invoke a named AT-SPI action on a current-session element. Requires get_app_state."@,
        properties: no_members()
            .push(("app"@, typed("string"@)))
            .push(("element_index"@, typed("integer"@)))
            .push(("action"@, typed("string"@))),
        required: no_texts().push("app"@).push("element_index"@).push("action"@),
    }
}

/// The tools that are offered.
pub open spec fn tools() -> Seq<ToolView> {
    Seq::empty()
        .push(list_apps_tool())
        .push(get_app_state_tool())
        .push(click_tool())
        .push(drag_tool())
        .push(scroll_tool())
        .push(press_key_tool())
        .push(type_text_tool())
        .push(set_value_tool())
        .push(select_text_tool())
        .push(perform_secondary_action_tool())
}

/// The descriptions of some tools.
pub open spec fn tool_values(all: Seq<ToolView>) -> Seq<JsonView> {
    Seq::new(all.len(), |i: int| tool_value(all[i]))
}

/// A list of texts that is being put together.
struct Texts {
    items: Items,
    all: Ghost<Seq<Seq<char>>>,
}

impl Texts {
    spec fn wf(self) -> bool {
        self.items@ == text_values(self.all@)
    }

    fn new() -> (r: Texts)
        ensures
            r.wf(),
            r.all@ == no_texts(),
    {
        let r = Texts { items: Items::new(), all: Ghost(no_texts()) };
        assert(r.items@ =~= text_values(r.all@));
        r
    }

    fn with(self, s: &str) -> (r: Texts)
        requires
            self.wf(),
        ensures
            r.wf(),
            r.all@ == self.all@.push(s@),
    {
        let r = Texts { items: self.items.with(text(s)), all: Ghost(self.all@.push(s@)) };
        assert(r.items@ =~= text_values(r.all@));
        r
    }

    fn list(self) -> (r: Json)
        requires
            self.wf(),
        ensures
            r@ == JsonView::Array(text_values(self.all@)),
    {
        self.items.list()
    }
}

fn make_typed(kind: &str) -> (r: Json)
    ensures
        r@ == typed(kind@),
{
    Members::new().with("type", text(kind)).object()
}

fn make_described(kind: &str, description: &str) -> (r: Json)
    ensures
        r@ == described(kind@, description@),
{
    Members::new().with("type", text(kind)).with("description", text(description)).object()
}

fn make_one_of(values: Texts) -> (r: Json)
    requires
        values.wf(),
    ensures
        r@ == one_of(values.all@),
{
    Members::new().with("type", text("string")).with("enum", values.list()).object()
}

fn make_ranged(min: i64, max: i64) -> (r: Json)
    ensures
        r@ == ranged(min as int, max as int),
{
    Members::new().with("type", text("integer")).with("minimum", integer(min)).with(
        "maximum",
        integer(max),
    ).object()
}

fn make_ranged_described(min: i64, max: i64, description: &str) -> (r: Json)
    ensures
        r@ == ranged_described(min as int, max as int, description@),
{
    Members::new().with("type", text("integer")).with("minimum", integer(min)).with(
        "maximum",
        integer(max),
    ).with("description", text(description)).object()
}

fn make_page_count() -> (r: Json)
    ensures
        r@ == page_count(),
{
    Members::new().with("type", text("number")).with("exclusiveMinimum", integer(0)).with(
        "maximum",
        integer(20),
    ).object()
}

fn make_button_names() -> (r: Texts)
    ensures
        r.wf(),
        r.all@ == button_names(),
{
    Texts::new()
        .with("left")
        .with("right")
        .with("middle")
        .with("l")
        .with("r")
        .with("m")
}

fn make_direction_names() -> (r: Texts)
    ensures
        r.wf(),
        r.all@ == direction_names(),
{
    Texts::new()
        .with("up")
        .with("down")
        .with("left")
        .with("right")
        .with("u")
        .with("d")
        .with("l")
        .with("r")
}

fn make_selection_names() -> (r: Texts)
    ensures
        r.wf(),
        r.all@ == selection_names(),
{
    Texts::new()
        .with("text")
        .with("cursor_before")
        .with("cursor_after")
}

fn make_tool(
    name: &str,
    description: &str,
    properties: Members,
    required: Texts,
    any: bool,
) -> (r: Json)
    requires
        required.wf(),
        any == (required.all@.len() > 0),
    ensures
        r@ == tool_value(
            ToolView {
                name: name@,
                description: description@,
                properties: properties@,
                required: required.all@,
            },
        ),
{
    let mut members = Members::new().with("type", text("object")).with(
        "properties",
        properties.object(),
    );
    if any {
        members = members.with("required", required.list());
    }
    let members = members.with("additionalProperties", Json::Bool(false));
    Members::new().with("name", text(name)).with("description", text(description)).with(
        "inputSchema",
        members.object(),
    ).object()
}

fn make_list_apps() -> (r: Json)
    ensures
        r@ == tool_value(list_apps_tool()),
{
    make_tool(
        "list_apps",
        "List exact actionable KWin app IDs. Pass these IDs as app.",
        Members::new(),
        Texts::new(),
        false,
    )
}

fn make_get_app_state() -> (r: Json)
    ensures
        r@ == tool_value(get_app_state_tool()),
{
    make_tool(
        "get_app_state",
        "Activate one exact app window, wait briefly for rendering, and return its PID-correlated semantic tree plus exact-window PNG. Required before coordinate or element-index actions.",
        Members::new()
            .with("app", make_described("string", "Exact UUID-qualified app ID from list_apps"))
            .with(
                "settle_ms",
                make_ranged_described(
                    0,
                    2000,
                    "Render settle delay before capture; defaults to 200 ms",
                ),
            ),
        Texts::new().with("app"),
        true,
    )
}

fn make_click() -> (r: Json)
    ensures
        r@ == tool_value(click_tool()),
{
    make_tool(
        "click",
        "Click an indexed element or screenshot-relative x/y in the exact app window. Coordinates require get_app_state.",
        Members::new()
            .with("app", make_described("string", "Exact app ID from list_apps"))
            .with("element_index", make_typed("integer"))
            .with("x", make_described("number", "X in latest app screenshot pixels"))
            .with("y", make_described("number", "Y in latest app screenshot pixels"))
            .with("mouse_button", make_one_of(make_button_names()))
            .with("click_count", make_ranged(1, 3)),
        Texts::new().with("app"),
        true,
    )
}

fn make_drag() -> (r: Json)
    ensures
        r@ == tool_value(drag_tool()),
{
    make_tool(
        "drag",
        "Drag between two screenshot-relative points in the exact app window. Requires get_app_state.",
        Members::new()
            .with("app", make_described("string", "Exact app ID from list_apps"))
            .with("from_x", make_typed("number"))
            .with("from_y", make_typed("number"))
            .with("to_x", make_typed("number"))
            .with("to_y", make_typed("number")),
        Texts::new().with("app").with("from_x").with("from_y").with("to_x").with("to_y"),
        true,
    )
}

fn make_scroll() -> (r: Json)
    ensures
        r@ == tool_value(scroll_tool()),
{
    make_tool(
        "scroll",
        "Scroll at an indexed element, screenshot-relative x/y, or latest screenshot center in the exact app. Requires get_app_state.",
        Members::new()
            .with("app", make_described("string", "Exact app ID from list_apps"))
            .with("element_index", make_typed("integer"))
            .with("direction", make_one_of(make_direction_names()))
            .with("pages", make_page_count())
            .with("x", make_described("number", "X in latest app screenshot pixels"))
            .with("y", make_described("number", "Y in latest app screenshot pixels")),
        Texts::new().with("app").with("direction"),
        true,
    )
}

fn make_press_key() -> (r: Json)
    ensures
        r@ == tool_value(press_key_tool()),
{
    make_tool(
        "press_key",
        "Activate the exact app ID from list_apps, verify its KWin UUID, then press a key or chord.",
        Members::new().with("app", make_typed("string")).with("key", make_typed("string")),
        Texts::new().with("app").with("key"),
        true,
    )
}

fn make_type_text() -> (r: Json)
    ensures
        r@ == tool_value(type_text_tool()),
{
    make_tool(
        "type_text",
        "Activate the exact app ID from list_apps, verify its KWin UUID, then type text.",
        Members::new().with("app", make_typed("string")).with("text", make_typed("string")),
        Texts::new().with("app").with("text"),
        true,
    )
}

fn make_set_value() -> (r: Json)
    ensures
        r@ == tool_value(set_value_tool()),
{
    make_tool(
        "set_value",
        "Activate the exact app and set a current-session EditableText element. Requires get_app_state.",
        Members::new()
            .with("app", make_typed("string"))
            .with("element_index", make_typed("integer"))
            .with("value", make_typed("string")),
        Texts::new().with("app").with("element_index").with("value"),
        true,
    )
}

fn make_select_text() -> (r: Json)
    ensures
        r@ == tool_value(select_text_tool()),
{
    make_tool(
        "select_text",
        "Activate the exact app and select text in a current-session element. Requires get_app_state.",
        Members::new()
            .with("app", make_typed("string"))
            .with("element_index", make_typed("integer"))
            .with("text", make_typed("string"))
            .with("prefix", make_typed("string"))
            .with("suffix", make_typed("string"))
            .with("selection_type", make_one_of(make_selection_names())),
        Texts::new().with("app").with("element_index").with("text"),
        true,
    )
}

fn make_perform_secondary_action() -> (r: Json)
    ensures
        r@ == tool_value(perform_secondary_action_tool()),
{
    make_tool(
        "perform_secondary_action",
        "Activate the exact app and invoke a named AT-SPI action on a current-session element. Requires get_app_state.",
        Members::new()
            .with("app", make_typed("string"))
            .with("element_index", make_typed("integer"))
            .with("action", make_typed("string")),
        Texts::new().with("app").with("element_index").with("action"),
        true,
    )
}

/// Describes the tools that are offered.
pub fn tool_defs() -> (r: Json)
    ensures
        r@ == JsonView::Array(tool_values(tools())),
{
    let items = Items::new()
        .with(make_list_apps())
        .with(make_get_app_state())
        .with(make_click())
        .with(make_drag())
        .with(make_scroll())
        .with(make_press_key())
        .with(make_type_text())
        .with(make_set_value())
        .with(make_select_text())
        .with(make_perform_secondary_action());
    assert(items@ =~= tool_values(tools()));
    items.list()
}

/// Whether a tool is offered under a name.
pub open spec fn is_offered(name: Seq<char>) -> bool {
    exists|i: int| 0 <= i < tools().len() && (#[trigger] tools()[i]).name == name
}

/// Whether a name is that of a tool that can be called.
pub open spec fn is_tool(name: Seq<char>) -> bool {
    ||| name == "list_apps"@
    ||| name == "get_app_state"@
    ||| name == "click"@
    ||| name == "drag"@
    ||| name == "scroll"@
    ||| name == "press_key"@
    ||| name == "type_text"@
    ||| name == "set_value"@
    ||| name == "select_text"@
    ||| name == "perform_secondary_action"@
}

/// The tools that are offered are exactly those that can be called, and there
/// are ten of them.
pub proof fn law_offered_tools_can_be_called(name: Seq<char>)
    ensures
        tools().len() == 10,
        is_offered(name) <==> is_tool(name),
{
    let all = tools();
    assert(all[0].name == "list_apps"@);
    assert(all[1].name == "get_app_state"@);
    assert(all[2].name == "click"@);
    assert(all[3].name == "drag"@);
    assert(all[4].name == "scroll"@);
    assert(all[5].name == "press_key"@);
    assert(all[6].name == "type_text"@);
    assert(all[7].name == "set_value"@);
    assert(all[8].name == "select_text"@);
    assert(all[9].name == "perform_secondary_action"@);
    if is_offered(name) {
        let i = choose|i: int| 0 <= i < tools().len() && (#[trigger] tools()[i]).name == name;
        assert(all[i].name == name);
    }
}

/// The buttons that are offered are exactly those that are taken.
pub proof fn law_offered_buttons_are_taken(name: Seq<char>)
    ensures
        button_names().contains(name) <==> is_button(name),
{
    let all = button_names();
    assert(all[0] == "left"@ && all[1] == "right"@ && all[2] == "middle"@);
    assert(all[3] == "l"@ && all[4] == "r"@ && all[5] == "m"@);
}

/// The directions that are offered are exactly those that are taken.
pub proof fn law_offered_directions_are_taken(name: Seq<char>)
    ensures
        direction_names().contains(name) <==> direction_check(name) is Ok,
{
    let all = direction_names();
    assert(all[0] == "up"@ && all[1] == "down"@ && all[2] == "left"@ && all[3] == "right"@);
    assert(all[4] == "u"@ && all[5] == "d"@ && all[6] == "l"@ && all[7] == "r"@);
}

/// The kinds of selection that are offered are exactly those that are taken,
/// where the text is found.
pub proof fn law_offered_selections_are_taken(
    full: Seq<char>,
    text: Seq<char>,
    prefix: Option<Seq<char>>,
    suffix: Option<Seq<char>>,
    kind: Seq<char>,
    element_index: int,
)
    requires
        text_offsets(full, text, prefix, suffix) is Some,
    ensures
        selection_names().contains(kind) <==> selection(
            full,
            text,
            prefix,
            suffix,
            Some(kind),
            element_index,
        ) is Ok,
{
    let all = selection_names();
    assert(all[0] == "text"@ && all[1] == "cursor_before"@ && all[2] == "cursor_after"@);
}

} // verus!
