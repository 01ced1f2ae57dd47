//! The accessibility tree of a window as text: walking it, and the lines that
//! describe its elements.

use crate::input::opt_text;
use crate::text::{blank, chars_of, decimal, join, joined, show_i64, string_of, texts, trimmed};
use vstd::prelude::*;

verus! {

/// How many elements are visited at most.
pub const MAX_NODES: usize = 1_500;

/// How deep elements may lie to be visited.
pub const MAX_DEPTH: usize = 40;

/// How many characters of a value are shown at most.
pub const MAX_VALUE_CHARS: usize = 200;

/// The element that has the focus.
#[derive(Debug)]
pub struct FocusedElement {
    pub index: i64,
    pub role: String,
    pub name: String,
}

/// The element that has the focus.
#[verifier::ext_equal]
pub struct FocusView {
    pub index: int,
    pub role: Seq<char>,
    pub name: Seq<char>,
}

impl View for FocusedElement {
    type V = FocusView;

    open spec fn view(&self) -> FocusView {
        FocusView { index: self.index as int, role: self.role@, name: self.name@ }
    }
}

/// An element that is listed. Bounds are left, top, width and height in the
/// picture of the window.
#[derive(Debug)]
pub struct NodeLine {
    pub index: i64,
    pub depth: usize,
    pub role: String,
    pub name: String,
    pub value: Option<String>,
    pub focused: bool,
    pub editable: bool,
    pub selected: bool,
    pub actions: Vec<String>,
    pub bounds: Option<(i32, i32, i32, i32)>,
}

/// An element that is listed.
#[verifier::ext_equal]
pub struct NodeView {
    pub index: int,
    pub depth: nat,
    pub role: Seq<char>,
    pub name: Seq<char>,
    pub value: Option<Seq<char>>,
    pub focused: bool,
    pub editable: bool,
    pub selected: bool,
    pub actions: Seq<Seq<char>>,
    pub bounds: Option<(i32, i32, i32, i32)>,
}

impl View for NodeLine {
    type V = NodeView;

    open spec fn view(&self) -> NodeView {
        NodeView {
            index: self.index as int,
            depth: self.depth as nat,
            role: self.role@,
            name: self.name@,
            value: opt_text(self.value),
            focused: self.focused,
            editable: self.editable,
            selected: self.selected,
            actions: texts(self.actions@),
            bounds: self.bounds,
        }
    }
}

/// The elements that are listed.
pub open spec fn nodes(lines: Seq<NodeLine>) -> Seq<NodeView> {
    Seq::new(lines.len(), |i: int| lines[i]@)
}

/// How a character stands between quotes.
pub open spec fn escaped_char(c: char) -> Seq<char> {
    if c == '\\' {
        "\\\\"@
    } else if c == '"' {
        "\\\""@
    } else if c == '\n' {
        "\\n"@
    } else if c == '\r' {
        "\\r"@
    } else {
        seq![c]
    }
}

/// How a text stands between quotes: on one line, with its own quotes and
/// backslashes marked.
pub open spec fn escaped(s: Seq<char>) -> Seq<char>
    decreases s.len(),
{
    if s.len() == 0 {
        Seq::empty()
    } else {
        escaped(s.drop_last()) + escaped_char(s.last())
    }
}

proof fn lemma_escaped_front(s: Seq<char>)
    requires
        s.len() > 0,
    ensures
        escaped(s) == escaped_char(s[0]) + escaped(s.drop_first()),
    decreases s.len(),
{
    if s.len() == 1 {
        assert(s.drop_last() =~= Seq::empty());
        assert(s.drop_first() =~= Seq::empty());
        assert(escaped(s) =~= escaped_char(s[0]) + escaped(s.drop_first()));
    } else {
        lemma_escaped_front(s.drop_last());
        assert(s.drop_last().drop_first() =~= s.drop_first().drop_last());
        assert(escaped(s) =~= escaped_char(s[0]) + escaped(s.drop_first()));
    }
}

proof fn lemma_escaped_chars(c: char)
    ensures
        1 <= escaped_char(c).len() <= 2,
        escaped_char(c).len() == 1 <==> escaped_char(c)[0] != '\\',
        escaped_char(c).len() == 1 ==> escaped_char(c)[0] == c,
        escaped_char(c).len() == 2 ==> escaped_char(c)[1] == (if c == '\n' {
            'n'
        } else if c == '\r' {
            'r'
        } else {
            c
        }) && (c == '\n' || c == '\r' || c == '"' || c == '\\'),
{
    reveal_strlit("\\\\");
    reveal_strlit("\\\"");
    reveal_strlit("\\n");
    reveal_strlit("\\r");
}

/// Nothing is lost where a text is made to fit between quotes: two texts that
/// are shown alike are the same.
pub proof fn law_escaping_loses_nothing(a: Seq<char>, b: Seq<char>)
    requires
        escaped(a) == escaped(b),
    ensures
        a == b,
    decreases a.len(),
{
    if a.len() > 0 {
        lemma_escaped_front(a);
        lemma_escaped_chars(a[0]);
    }
    if b.len() > 0 {
        lemma_escaped_front(b);
        lemma_escaped_chars(b[0]);
    }
    if a.len() == 0 || b.len() == 0 {
        assert(escaped(a).len() == escaped(b).len());
        assert(a =~= b);
    } else {
        let x = escaped_char(a[0]);
        let y = escaped_char(b[0]);
        let all = escaped(a);
        assert(all[0] == x[0] && all[0] == y[0]);
        assert(x.len() == y.len());
        if x.len() == 2 {
            assert(all[1] == x[1] && all[1] == y[1]);
        }
        assert(a[0] == b[0]);
        assert(escaped(a.drop_first()) =~= all.skip(x.len() as int));
        assert(escaped(b.drop_first()) =~= all.skip(x.len() as int));
        law_escaping_loses_nothing(a.drop_first(), b.drop_first());
        assert(a =~= seq![a[0]] + a.drop_first());
        assert(b =~= seq![b[0]] + b.drop_first());
    }
}

/// Makes a text fit between quotes on one line.
pub fn escape(value: &str) -> (r: String)
    ensures
        r@ == escaped(value@),
{
    let chars = chars_of(value);
    let mut out = String::new();
    let mut i: usize = 0;
    while i < chars.len()
        invariant
            i <= chars@.len(),
            chars@ == value@,
            out@ == escaped(value@.take(i as int)),
        decreases chars@.len() - i,
    {
        assert(value@.take(i + 1).drop_last() =~= value@.take(i as int));
        let c = chars[i];
        if c == '\\' {
            out.append("\\\\");
        } else if c == '"' {
            out.append("\\\"");
        } else if c == '\n' {
            out.append("\\n");
        } else if c == '\r' {
            out.append("\\r");
        } else {
            let ghost was = out@;
            out.push(c);
            assert(out@ =~= was + seq![c]);
        }
        i += 1;
    }
    assert(value@.take(i as int) =~= value@);
    out
}

/// A text cut to so many characters, with a mark where something was cut off.
pub open spec fn shortened(s: Seq<char>, max: int) -> Seq<char> {
    if s.len() <= max {
        s
    } else {
        s.take(max) + "…"@
    }
}

/// Cuts a text to so many characters.
pub fn truncate(value: &str, max_chars: usize) -> (r: String)
    ensures
        r@ == shortened(value@, max_chars as int),
{
    let chars = chars_of(value);
    if chars.len() <= max_chars {
        return value.to_owned();
    }
    let mut out = string_of(&chars, 0, max_chars);
    assert(out@ =~= value@.take(max_chars as int));
    out.append("…");
    out
}

/// A value as it is shown; an empty one is not.
pub open spec fn shown_text(s: Seq<char>) -> Option<Seq<char>> {
    if s.len() == 0 {
        None
    } else {
        Some(shortened(s, MAX_VALUE_CHARS as int))
    }
}

/// The value of an element as it is shown, where it has one that is not empty.
pub fn shown_value(text: &str) -> (r: Option<String>)
    ensures
        opt_text(r) == shown_text(text@),
{
    if text.unicode_len() == 0 {
        None
    } else {
        Some(truncate(text, MAX_VALUE_CHARS))
    }
}

/// What is asked of an element for its value.
#[derive(Clone, Copy, Debug, PartialEq, Eq, Structural)]
pub enum ValueQuery {
    /// The text of its value.
    Text,
    /// Its value as a number.
    Number,
    /// The first characters of its contents.
    Contents,
}

/// How it goes on until the value of an element is known.
#[derive(Debug)]
pub enum ValueTurn<S> {
    Ask(ValueQuery),
    /// What is shown, where anything is.
    Done(Option<S>),
}

impl ValueTurn<String> {
    pub open spec fn view(self) -> ValueTurn<Seq<char>> {
        match self {
            ValueTurn::Ask(query) => ValueTurn::Ask(query),
            ValueTurn::Done(shown) => ValueTurn::Done(opt_text(shown)),
        }
    }
}

/// What is asked first of an element that has a value, or contents, or neither.
pub open spec fn value_begun(has_value: bool, has_text: bool) -> ValueTurn<Seq<char>> {
    if has_value {
        ValueTurn::Ask(ValueQuery::Text)
    } else if has_text {
        ValueTurn::Ask(ValueQuery::Contents)
    } else {
        ValueTurn::Done(None)
    }
}

/// What follows on what came back; a value without a text is shown as a number,
/// which is written out already.
pub open spec fn value_resumed(asked: ValueQuery, reply: Option<Seq<char>>) -> ValueTurn<Seq<char>> {
    let shown = match reply {
        Some(text) => shown_text(text),
        None => None,
    };
    match asked {
        ValueQuery::Text => if shown is Some {
            ValueTurn::Done(shown)
        } else {
            ValueTurn::Ask(ValueQuery::Number)
        },
        ValueQuery::Number => ValueTurn::Done(reply),
        ValueQuery::Contents => ValueTurn::Done(shown),
    }
}

/// Begins to find out what is shown as the value of an element.
pub fn begin_value(has_value: bool, has_text: bool) -> (r: ValueTurn<String>)
    ensures
        r@ == value_begun(has_value, has_text),
{
    if has_value {
        ValueTurn::Ask(ValueQuery::Text)
    } else if has_text {
        ValueTurn::Ask(ValueQuery::Contents)
    } else {
        ValueTurn::Done(None)
    }
}

/// Goes on with what came back, where anything did.
pub fn resume_value(asked: ValueQuery, reply: Option<String>) -> (r: ValueTurn<String>)
    ensures
        r@ == value_resumed(asked, opt_text(reply)),
{
    match asked {
        ValueQuery::Number => ValueTurn::Done(reply),
        ValueQuery::Text => match reply {
            Some(text) => match shown_value(text.as_str()) {
                Some(shown) => ValueTurn::Done(Some(shown)),
                None => ValueTurn::Ask(ValueQuery::Number),
            },
            None => ValueTurn::Ask(ValueQuery::Number),
        },
        ValueQuery::Contents => match reply {
            Some(text) => ValueTurn::Done(shown_value(text.as_str())),
            None => ValueTurn::Done(None),
        },
    }
}

/// How many characters of its contents an element is asked for: no more than
/// tell whether they have to be shortened.
pub fn contents_asked(count: i32) -> (r: i32)
    ensures
        r == (if count <= MAX_VALUE_CHARS {
            count as int
        } else {
            MAX_VALUE_CHARS + 1
        }),
{
    if count <= MAX_VALUE_CHARS as i32 {
        count
    } else {
        MAX_VALUE_CHARS as i32 + 1
    }
}

/// How it stands after so many replies, of which each question has one.
pub open spec fn value_after(
    turn: ValueTurn<Seq<char>>,
    answer: spec_fn(ValueQuery) -> Option<Seq<char>>,
    replies: nat,
) -> ValueTurn<Seq<char>>
    decreases replies,
{
    match turn {
        ValueTurn::Ask(query) => if replies == 0 {
            turn
        } else {
            value_after(value_resumed(query, answer(query)), answer, (replies - 1) as nat)
        },
        ValueTurn::Done(_) => turn,
    }
}

/// What is shown of an element, given everything that could be asked of it.
pub open spec fn value_shown(
    has_value: bool,
    has_text: bool,
    answer: spec_fn(ValueQuery) -> Option<Seq<char>>,
) -> Option<Seq<char>> {
    if has_value {
        match answer(ValueQuery::Text) {
            Some(text) => if text.len() > 0 {
                shown_text(text)
            } else {
                answer(ValueQuery::Number)
            },
            None => answer(ValueQuery::Number),
        }
    } else if has_text {
        match answer(ValueQuery::Contents) {
            Some(text) => shown_text(text),
            None => None,
        }
    } else {
        None
    }
}

/// After two replies it is known what is shown: of an element with a value its
/// text, or its number where the text is empty or missing, and never the
/// contents, which are shown only of an element without a value.
pub proof fn law_values_are_shown_in_order(
    has_value: bool,
    has_text: bool,
    answer: spec_fn(ValueQuery) -> Option<Seq<char>>,
)
    ensures
        value_after(value_begun(has_value, has_text), answer, 2) == ValueTurn::Done(
            value_shown(has_value, has_text, answer),
        ),
{
    reveal_with_fuel(value_after, 3);
}

/// The name by which an element is shown, where it is listed: its name or, for
/// want of one, its description. An element that is gone is not listed, nor one
/// that neither shows nor has a name.
pub open spec fn display_name(
    name: Seq<char>,
    description: Seq<char>,
    defunct: bool,
    showing: bool,
) -> Option<Seq<char>> {
    let shown = if trimmed(name).len() == 0 {
        description
    } else {
        name
    };
    if defunct || (!showing && trimmed(shown).len() == 0) {
        None
    } else {
        Some(shown)
    }
}

/// Decides whether an element is listed and by which name.
pub fn choose_name(name: String, description: String, defunct: bool, showing: bool) -> (r: Option<
    String,
>)
    ensures
        opt_text(r) == display_name(name@, description@, defunct, showing),
{
    let shown = if blank(name.as_str()) {
        description
    } else {
        name
    };
    if defunct || (!showing && blank(shown.as_str())) {
        None
    } else {
        Some(shown)
    }
}

/// The names that are not blank.
pub open spec fn usable_names(names: Seq<Seq<char>>) -> Seq<Seq<char>>
    decreases names.len(),
{
    if names.len() == 0 {
        Seq::empty()
    } else if trimmed(names.last()).len() == 0 {
        usable_names(names.drop_last())
    } else {
        usable_names(names.drop_last()).push(names.last())
    }
}

/// Keeps the names of actions that are not blank.
pub fn usable_actions(names: &Vec<String>) -> (r: Vec<String>)
    ensures
        texts(r@) == usable_names(texts(names@)),
{
    let ghost all = texts(names@);
    let mut out: Vec<String> = Vec::new();
    let mut i: usize = 0;
    assert(texts(out@) =~= Seq::empty());
    while i < names.len()
        invariant
            i <= names@.len(),
            all == texts(names@),
            texts(out@) == usable_names(all.take(i as int)),
        decreases names@.len() - i,
    {
        assert(all.take(i + 1).drop_last() =~= all.take(i as int));
        if !blank(names[i].as_str()) {
            let ghost was = out@;
            let name = names[i].clone();
            out.push(name);
            assert(texts(out@) =~= texts(was).push(name@));
        }
        i += 1;
    }
    assert(all.take(i as int) =~= all);
    out
}

/// Keeps bounds that have an area.
pub fn usable_bounds(bounds: (i32, i32, i32, i32)) -> (r: Option<(i32, i32, i32, i32)>)
    ensures
        r == (if bounds.2 > 0 && bounds.3 > 0 {
            Some(bounds)
        } else {
            None
        }),
{
    if bounds.2 > 0 && bounds.3 > 0 {
        Some(bounds)
    } else {
        None
    }
}

/// Whether an element gives something to work with.
pub open spec fn gives_hold(node: NodeView) -> bool {
    ||| node.actions.len() > 0
    ||| node.editable
    ||| node.value is Some && trimmed(node.value->Some_0).len() > 0
    ||| node.depth >= 2 && node.bounds is Some
}

/// Whether any element gives something to work with.
pub open spec fn actionable(all: Seq<NodeView>) -> bool {
    exists|i: int| 0 <= i < all.len() && gives_hold(#[trigger] all[i])
}

/// Tells whether any element gives something to work with.
pub fn tree_is_actionable(lines: &Vec<NodeLine>) -> (r: bool)
    ensures
        r == actionable(nodes(lines@)),
{
    let ghost all = nodes(lines@);
    let mut i: usize = 0;
    while i < lines.len()
        invariant
            i <= lines@.len(),
            all == nodes(lines@),
            forall|j: int| 0 <= j < i ==> !gives_hold(#[trigger] all[j]),
        decreases lines@.len() - i,
    {
        let line = &lines[i];
        let has_value = match &line.value {
            Some(value) => !blank(value.as_str()),
            None => false,
        };
        if line.actions.len() > 0 || line.editable || has_value || (line.depth >= 2
            && line.bounds.is_some()) {
            assert(gives_hold(all[i as int]));
            return true;
        }
        assert(all[i as int] == line@);
        i += 1;
    }
    false
}

/// The first element that has the focus.
pub open spec fn focus_of(all: Seq<NodeView>) -> Option<FocusView>
    decreases all.len(),
{
    if all.len() == 0 {
        None
    } else {
        match focus_of(all.drop_last()) {
            Some(f) => Some(f),
            None => if all.last().focused {
                Some(
                    FocusView {
                        index: all.last().index,
                        role: all.last().role,
                        name: all.last().name,
                    },
                )
            } else {
                None
            },
        }
    }
}

/// Two spaces for each step of depth.
pub open spec fn indent(depth: nat) -> Seq<char>
    decreases depth,
{
    if depth == 0 {
        Seq::empty()
    } else {
        indent((depth - 1) as nat) + "  "@
    }
}

/// A number of a listed element.
pub open spec fn bounds_text(b: (i32, i32, i32, i32)) -> Seq<char> {
    " @("@ + decimal(b.0 as int) + ","@ + decimal(b.1 as int) + ","@ + decimal(b.2 as int) + "×"@
        + decimal(b.3 as int) + ")"@
}

/// What may follow the name of a listed element.
pub open spec fn traits_text(node: NodeView) -> Seq<char> {
    (match node.value {
        Some(value) => " value:\""@ + escaped(value) + "\""@,
        None => Seq::empty(),
    }) + (if node.focused {
        " *focused*"@
    } else {
        Seq::empty()
    }) + (if node.editable {
        " [editable]"@
    } else {
        Seq::empty()
    }) + (if node.selected {
        " *selected*"@
    } else {
        Seq::empty()
    }) + (if node.actions.len() > 0 {
        " actions:["@ + joined(node.actions, ","@) + "]"@
    } else {
        Seq::empty()
    }) + (match node.bounds {
        Some(b) => bounds_text(b),
        None => Seq::empty(),
    })
}

/// The line of a listed element.
pub open spec fn line_text(node: NodeView) -> Seq<char> {
    indent(node.depth) + "["@ + decimal(node.index) + "] "@ + node.role + " \""@ + escaped(
        node.name,
    ) + "\""@ + traits_text(node)
}

fn write_bounds(b: (i32, i32, i32, i32)) -> (r: String)
    ensures
        r@ == bounds_text(b),
{
    let mut out = " @(".to_owned();
    out.append(show_i64(b.0 as i64).as_str());
    out.append(",");
    out.append(show_i64(b.1 as i64).as_str());
    out.append(",");
    out.append(show_i64(b.2 as i64).as_str());
    out.append("×");
    out.append(show_i64(b.3 as i64).as_str());
    out.append(")");
    out
}

fn write_traits(node: &NodeLine) -> (r: String)
    ensures
        r@ == traits_text(node@),
{
    let mut out = String::new();
    if let Some(value) = &node.value {
        out.append(" value:\"");
        out.append(escape(value.as_str()).as_str());
        out.append("\"");
    }
    let ghost a = match node@.value {
        Some(value) => " value:\""@ + escaped(value) + "\""@,
        None => Seq::empty(),
    };
    assert(out@ =~= a);
    let ghost b = if node.focused {
        " *focused*"@
    } else {
        Seq::empty()
    };
    if node.focused {
        out.append(" *focused*");
    }
    assert(out@ =~= a + b);
    let ghost c = if node.editable {
        " [editable]"@
    } else {
        Seq::empty()
    };
    if node.editable {
        out.append(" [editable]");
    }
    assert(out@ =~= a + b + c);
    let ghost d = if node.selected {
        " *selected*"@
    } else {
        Seq::empty()
    };
    if node.selected {
        out.append(" *selected*");
    }
    assert(out@ =~= a + b + c + d);
    let ghost e = if node@.actions.len() > 0 {
        " actions:["@ + joined(node@.actions, ","@) + "]"@
    } else {
        Seq::empty()
    };
    if node.actions.len() > 0 {
        out.append(" actions:[");
        out.append(join(&node.actions, ",").as_str());
        out.append("]");
    }
    assert(out@ =~= a + b + c + d + e);
    let ghost f = match node@.bounds {
        Some(b) => bounds_text(b),
        None => Seq::empty(),
    };
    if let Some(bounds) = node.bounds {
        out.append(write_bounds(bounds).as_str());
    }
    assert(out@ =~= a + b + c + d + e + f);
    out
}

/// Writes the line of a listed element.
pub fn format_node_line(node: &NodeLine) -> (r: String)
    ensures
        r@ == line_text(node@),
{
    let mut out = String::new();
    let mut i: usize = 0;
    while i < node.depth
        invariant
            i <= node.depth,
            out@ == indent(i as nat),
        decreases node.depth - i,
    {
        out.append("  ");
        i += 1;
    }
    out.append("[");
    out.append(show_i64(node.index).as_str());
    out.append("] ");
    out.append(node.role.as_str());
    out.append(" \"");
    out.append(escape(node.name.as_str()).as_str());
    out.append("\"");
    out.append(write_traits(node).as_str());
    out
}

/// The lines of listed elements.
pub open spec fn line_texts(all: Seq<NodeView>) -> Seq<Seq<char>> {
    Seq::new(all.len(), |i: int| line_text(all[i]))
}

/// The text of a tree: its lines, and a note where something was left out.
pub open spec fn tree_text(all: Seq<NodeView>, truncated: bool) -> Seq<char> {
    let body = joined(line_texts(all), "\n"@);
    if !truncated {
        body
    } else if body.len() == 0 {
        "[accessibility tree truncated]"@
    } else {
        body + "\n"@ + "[accessibility tree truncated]"@
    }
}

/// The state of a walk through a tree: what is still to be visited, the last
/// first, with its depth; how much was visited; whether something was left
/// out; and what is listed, with the objects that stand behind it.
#[verifier::ext_equal]
pub struct WalkView<T> {
    pub stack: Seq<(T, nat)>,
    pub visited: nat,
    pub truncated: bool,
    pub lines: Seq<NodeView>,
    pub objects: Seq<T>,
}

/// A walk that is about to begin.
pub open spec fn fresh_walk<T>(root: T) -> WalkView<T> {
    WalkView {
        stack: seq![(root, 0nat)],
        visited: 0,
        truncated: false,
        lines: Seq::empty(),
        objects: Seq::empty(),
    }
}

/// What is visited next, and the state after that.
pub open spec fn taken<T>(w: WalkView<T>) -> (WalkView<T>, Option<(T, nat)>)
    decreases w.stack.len(),
{
    if w.stack.len() == 0 {
        (w, None)
    } else if w.visited >= MAX_NODES {
        (WalkView { stack: Seq::empty(), truncated: true, ..w }, None)
    } else {
        let rest = WalkView { stack: w.stack.drop_last(), visited: w.visited + 1, ..w };
        if w.stack.last().1 > MAX_DEPTH {
            taken(WalkView { truncated: true, ..rest })
        } else {
            (rest, Some(w.stack.last()))
        }
    }
}

/// The objects that are there.
pub open spec fn present<T>(items: Seq<Option<T>>) -> Seq<T>
    decreases items.len(),
{
    if items.len() == 0 {
        Seq::empty()
    } else {
        match items[0] {
            Some(x) => seq![x] + present(items.drop_first()),
            None => present(items.drop_first()),
        }
    }
}

/// Things to be visited before those that are waiting, the first of them
/// first.
pub open spec fn pushed<T>(stack: Seq<(T, nat)>, items: Seq<T>, depth: nat) -> Seq<(T, nat)> {
    stack + Seq::new(items.len(), |i: int| (items[items.len() - 1 - i], depth))
}

/// What is known of an element that is listed.
#[derive(Debug)]
pub struct NodeDetails {
    pub role: String,
    pub name: String,
    pub value: Option<String>,
    pub focused: bool,
    pub editable: bool,
    pub selected: bool,
    pub actions: Vec<String>,
    pub bounds: Option<(i32, i32, i32, i32)>,
}

/// An element as it is listed at a place and a depth.
pub open spec fn node_at(d: NodeDetails, index: int, depth: nat) -> NodeView {
    NodeView {
        index,
        depth,
        role: d.role@,
        name: d.name@,
        value: opt_text(d.value),
        focused: d.focused,
        editable: d.editable,
        selected: d.selected,
        actions: texts(d.actions@),
        bounds: d.bounds,
    }
}

/// What became of a visit: the children that the object reported, and what it
/// is listed as, where it is.
pub struct Visit<T> {
    pub children: Seq<Option<T>>,
    pub listed: Option<NodeDetails>,
}

/// The state after an object was visited.
pub open spec fn noted<T>(w: WalkView<T>, object: T, depth: nat, visit: Visit<T>) -> WalkView<T> {
    let grown = WalkView { stack: pushed(w.stack, present(visit.children), depth + 1), ..w };
    match visit.listed {
        Some(details) => WalkView {
            lines: grown.lines.push(node_at(details, grown.lines.len() as int, depth)),
            objects: grown.objects.push(object),
            ..grown
        },
        None => grown,
    }
}

/// The state of a walk after some visits.
pub open spec fn walked<T>(root: T, visits: Seq<Visit<T>>) -> WalkView<T>
    decreases visits.len(),
{
    if visits.len() == 0 {
        fresh_walk(root)
    } else {
        match taken(walked(root, visits.drop_last())) {
            (rest, Some((object, depth))) => noted(rest, object, depth, visits.last()),
            (rest, None) => rest,
        }
    }
}

/// The objects that a walk has come upon after some visits, with their depths:
/// the root, and the children of what was visited.
pub open spec fn reached<T>(root: T, visits: Seq<Visit<T>>) -> Seq<(T, nat)>
    decreases visits.len(),
{
    if visits.len() == 0 {
        seq![(root, 0nat)]
    } else {
        let before = reached(root, visits.drop_last());
        match taken(walked(root, visits.drop_last())).1 {
            Some((_, depth)) => before + at_depth(present(visits.last().children), depth + 1),
            None => before,
        }
    }
}

/// Objects at one depth.
pub open spec fn at_depth<T>(items: Seq<T>, depth: nat) -> Seq<(T, nat)> {
    Seq::new(items.len(), |i: int| (items[i], depth))
}

/// A walk through a tree of objects.
#[derive(Debug)]
pub struct TreeWalk<T> {
    stack: Vec<(T, usize)>,
    visited: usize,
    truncated: bool,
    lines: Vec<NodeLine>,
    objects: Vec<T>,
}

/// What is still to be visited.
pub open spec fn waiting<T>(stack: Seq<(T, usize)>) -> Seq<(T, nat)> {
    Seq::new(stack.len(), |i: int| (stack[i].0, stack[i].1 as nat))
}

impl<T> TreeWalk<T> {
    pub closed spec fn view(self) -> WalkView<T> {
        WalkView {
            stack: waiting(self.stack@),
            visited: self.visited as nat,
            truncated: self.truncated,
            lines: nodes(self.lines@),
            objects: self.objects@,
        }
    }
}

/// Whether every listed element bears the number of its place, which is that
/// of the object behind it.
pub open spec fn numbered<T>(w: WalkView<T>) -> bool {
    &&& w.lines.len() == w.objects.len()
    &&& forall|i: int| 0 <= i < w.lines.len() ==> (#[trigger] w.lines[i]).index == i
}

/// Whether a walk keeps its limits and numbers: no more is listed than was
/// visited, and no more was visited than may be.
pub open spec fn in_bounds<T>(w: WalkView<T>) -> bool {
    numbered(w) && w.lines.len() <= w.visited <= MAX_NODES
}

/// What came of a walk.
#[derive(Debug)]
pub struct Tree<T> {
    pub text: String,
    pub objects: Vec<T>,
    pub focused: Option<FocusedElement>,
    pub actionable: bool,
}

impl<T> TreeWalk<T> {
    /// Begins at the root.
    pub fn new(root: T) -> (r: TreeWalk<T>)
        ensures
            r@ == fresh_walk(root),
            in_bounds(r@),
    {
        let mut stack: Vec<(T, usize)> = Vec::new();
        stack.push((root, 0));
        let r = TreeWalk {
            stack,
            visited: 0,
            truncated: false,
            lines: Vec::new(),
            objects: Vec::new(),
        };
        assert(r@.stack =~= seq![(root, 0nat)]);
        assert(r@.lines =~= Seq::empty());
        r
    }

    /// What is visited next, with its depth.
    pub fn next(&mut self) -> (r: Option<(T, usize)>)
        requires
            in_bounds(old(self)@),
        ensures
            final(self)@ == taken(old(self)@).0,
            match r {
                Some((object, depth)) => taken(old(self)@).1 == Some((object, depth as nat))
                    && depth <= MAX_DEPTH,
                None => taken(old(self)@).1 is None,
            },
            final(self)@.lines == old(self)@.lines,
            final(self)@.objects == old(self)@.objects,
            in_bounds(final(self)@),
            r is Some ==> final(self)@.lines.len() < final(self)@.visited,
    {
        loop
            invariant
                taken(self@) == taken(old(self)@),
                self@.lines == old(self)@.lines,
                self@.objects == old(self)@.objects,
                in_bounds(self@),
            decreases self.stack@.len(),
        {
            let ghost before = self@;
            if self.stack.len() == 0 {
                return None;
            }
            if self.visited >= MAX_NODES {
                self.truncated = true;
                self.stack = Vec::new();
                assert(self@ =~= (WalkView { stack: Seq::empty(), truncated: true, ..before }));
                return None;
            }
            let ghost was = self.stack@;
            let (object, depth) = match self.stack.pop() {
                Some(top) => top,
                None => return None,
            };
            assert(waiting(self.stack@) =~= before.stack.drop_last());
            assert(before.stack.last() == (object, depth as nat));
            self.visited = self.visited + 1;
            if depth > MAX_DEPTH {
                self.truncated = true;
                continue;
            }
            return Some((object, depth));
        }
    }

    /// Takes the children of an object that is visited, those that are there.
    pub fn expand(&mut self, depth: usize, children: Vec<Option<T>>)
        requires
            depth <= MAX_DEPTH,
        ensures
            final(self)@ == (WalkView {
                stack: pushed(old(self)@.stack, present(children@), (depth + 1) as nat),
                ..old(self)@
            }),
            in_bounds(old(self)@) ==> in_bounds(final(self)@),
    {
        let ghost all = children@;
        let ghost base = self@;
        let mut rest = children;
        proof {
            assert(all.skip(all.len() as int) =~= Seq::empty());
            assert(pushed(base.stack, Seq::empty(), (depth + 1) as nat) =~= base.stack);
        }
        while rest.len() > 0
            invariant
                depth <= MAX_DEPTH,
                rest@.len() <= all.len(),
                rest@ =~= all.take(rest@.len() as int),
                self@ == (WalkView {
                    stack: pushed(
                        base.stack,
                        present(all.skip(rest@.len() as int)),
                        (depth + 1) as nat,
                    ),
                    ..base
                }),
            decreases rest@.len(),
        {
            let ghost n = rest@.len() as int;
            let ghost before = self@;
            let last = match rest.pop() {
                Some(last) => last,
                None => return,
            };
            assert(all.skip(n - 1).drop_first() =~= all.skip(n));
            assert(all.skip(n - 1)[0] == last);
            if let Some(child) = last {
                let ghost tail = present(all.skip(n));
                self.stack.push((child, depth + 1));
                proof {
                    let d = (depth + 1) as nat;
                    let more = seq![child] + tail;
                    assert(waiting(self.stack@) =~= before.stack.push((child, d)));
                    assert(pushed(base.stack, more, d) =~= pushed(base.stack, tail, d).push(
                        (child, d),
                    ));
                }
            }
        }
        assert(all.skip(0) =~= all);
    }

    /// Lists an element that was visited, with the object behind it.
    pub fn record(&mut self, object: T, depth: usize, details: NodeDetails)
        requires
            in_bounds(old(self)@),
            old(self)@.lines.len() < old(self)@.visited,
        ensures
            final(self)@ == (WalkView {
                lines: old(self)@.lines.push(
                    node_at(details, old(self)@.lines.len() as int, depth as nat),
                ),
                objects: old(self)@.objects.push(object),
                ..old(self)@
            }),
            in_bounds(final(self)@),
    {
        let ghost was = self@;
        let line = NodeLine {
            index: self.lines.len() as i64,
            depth,
            role: details.role,
            name: details.name,
            value: details.value,
            focused: details.focused,
            editable: details.editable,
            selected: details.selected,
            actions: details.actions,
            bounds: details.bounds,
        };
        self.lines.push(line);
        self.objects.push(object);
        proof {
            let node = node_at(details, was.lines.len() as int, depth as nat);
            assert(nodes(self.lines@) =~= was.lines.push(node));
            assert forall|i: int| 0 <= i < self@.lines.len() implies (#[trigger] self@.lines[i]).index
                == i by {
                if i < was.lines.len() {
                    assert(self@.lines[i] == was.lines[i]);
                }
            }
        }
    }

    /// Takes in what became of a visit: the children that the object reported,
    /// and what it is listed as, where it is.
    pub fn note(
        &mut self,
        object: T,
        depth: usize,
        children: Vec<Option<T>>,
        listed: Option<NodeDetails>,
    )
        requires
            in_bounds(old(self)@),
            old(self)@.lines.len() < old(self)@.visited,
            depth <= MAX_DEPTH,
        ensures
            final(self)@ == noted(
                old(self)@,
                object,
                depth as nat,
                Visit { children: children@, listed },
            ),
            forall|root: T, visits: Seq<Visit<T>>|
                taken(walked(root, visits)) == (old(self)@, Some((object, depth as nat)))
                    ==> final(self)@ == #[trigger] walked(
                    root,
                    visits.push(Visit { children: children@, listed }),
                ),
            in_bounds(final(self)@),
    {
        let ghost visit = Visit { children: children@, listed };
        self.expand(depth, children);
        if let Some(details) = listed {
            self.record(object, depth, details);
        }
        proof {
            assert forall|root: T, visits: Seq<Visit<T>>|
                taken(walked(root, visits)) == (old(self)@, Some((object, depth as nat)))
                    implies self@ == #[trigger] walked(root, visits.push(visit)) by {
                assert(visits.push(visit).drop_last() =~= visits);
            }
        }
    }

    /// Ends the walk.
    pub fn finish(self) -> (r: Tree<T>)
        requires
            in_bounds(self@),
        ensures
            r.objects@.len() == self@.lines.len() <= MAX_NODES,
            r.text@ == tree_text(self@.lines, self@.truncated),
            r.objects@ == self@.objects,
            match r.focused {
                Some(f) => focus_of(self@.lines) == Some(f@),
                None => focus_of(self@.lines) is None,
            },
            r.actionable == actionable(self@.lines),
    {
        let actionable = tree_is_actionable(&self.lines);
        let focused = find_focus(&self.lines);
        let mut rows: Vec<String> = Vec::new();
        let ghost all = nodes(self.lines@);
        let mut i: usize = 0;
        while i < self.lines.len()
            invariant
                i <= self.lines@.len(),
                all == nodes(self.lines@),
                texts(rows@) == line_texts(all).take(i as int),
            decreases self.lines@.len() - i,
        {
            let ghost was = rows@;
            let row = format_node_line(&self.lines[i]);
            rows.push(row);
            assert(texts(rows@) =~= texts(was).push(row@));
            assert(line_texts(all).take(i + 1) =~= line_texts(all).take(i as int).push(row@));
            i += 1;
        }
        assert(line_texts(all).take(i as int) =~= line_texts(all));
        let mut text = join(&rows, "\n");
        if self.truncated {
            if text.as_str().unicode_len() > 0 {
                text.append("\n");
                text.append("[accessibility tree truncated]");
            } else {
                text = "[accessibility tree truncated]".to_owned();
            }
        }
        Tree { text, objects: self.objects, focused, actionable }
    }
}

fn find_focus(lines: &Vec<NodeLine>) -> (r: Option<FocusedElement>)
    ensures
        match r {
            Some(f) => focus_of(nodes(lines@)) == Some(f@),
            None => focus_of(nodes(lines@)) is None,
        },
{
    let ghost all = nodes(lines@);
    let mut i: usize = lines.len();
    let mut at: Option<usize> = None;
    assert(all.take(i as int) =~= all);
    while i > 0
        invariant
            i <= lines@.len(),
            all == nodes(lines@),
            match at {
                Some(k) => k < lines@.len(),
                None => true,
            },
            focus_of(all) == (match focus_of(all.take(i as int)) {
                Some(f) => Some(f),
                None => match at {
                    Some(k) => Some(
                        FocusView {
                            index: all[k as int].index,
                            role: all[k as int].role,
                            name: all[k as int].name,
                        },
                    ),
                    None => None,
                },
            }),
        decreases i,
    {
        assert(all.take(i as int).drop_last() =~= all.take(i - 1));
        i -= 1;
        if lines[i].focused {
            at = Some(i);
        }
    }
    match at {
        Some(k) => Some(
            FocusedElement {
                index: lines[k].index,
                role: lines[k].role.clone(),
                name: lines[k].name.clone(),
            },
        ),
        None => None,
    }
}

/// A tree of things.
pub enum Outline<T> {
    Node(T, Seq<Outline<T>>),
}

/// The things of a tree with their depths, each before those below it, and
/// those below it one after another.
pub open spec fn preorder<T>(o: Outline<T>, depth: nat) -> Seq<(T, nat)>
    decreases o,
{
    match o {
        Outline::Node(x, below) => seq![(x, depth)] + preorders(below, depth + 1),
    }
}

/// The things of several trees, tree after tree.
pub open spec fn preorders<T>(trees: Seq<Outline<T>>, depth: nat) -> Seq<(T, nat)>
    decreases trees,
{
    if trees.len() == 0 {
        Seq::empty()
    } else {
        preorder(trees[0], depth) + preorders(trees.drop_first(), depth)
    }
}

/// The things of the trees that are still to be visited, in the order in which
/// they are.
pub open spec fn to_visit<T>(stack: Seq<(Outline<T>, nat)>) -> Seq<(T, nat)>
    decreases stack.len(),
{
    if stack.len() == 0 {
        Seq::empty()
    } else {
        preorder(stack.last().0, stack.last().1) + to_visit(stack.drop_last())
    }
}

proof fn lemma_to_visit_pushed<T>(
    stack: Seq<(Outline<T>, nat)>,
    below: Seq<Outline<T>>,
    depth: nat,
)
    ensures
        to_visit(pushed(stack, below, depth)) == preorders(below, depth) + to_visit(stack),
    decreases below.len(),
{
    let all = pushed(stack, below, depth);
    if below.len() == 0 {
        assert(all =~= stack);
        assert(preorders(below, depth) + to_visit(stack) =~= to_visit(stack));
    } else {
        lemma_to_visit_pushed(stack, below.drop_first(), depth);
        assert(all.last() == (below[0], depth));
        assert(all.drop_last() =~= pushed(stack, below.drop_first(), depth));
        assert(preorder(below[0], depth) + (preorders(below.drop_first(), depth) + to_visit(stack))
            =~= preorders(below, depth) + to_visit(stack));
    }
}

/// A walk visits a tree in order: of what is still to be visited, the element
/// on top comes first, and once its children were taken in, the rest follows
/// as before.
pub proof fn law_walk_keeps_the_order<T>(
    stack: Seq<(Outline<T>, nat)>,
    x: T,
    below: Seq<Outline<T>>,
    depth: nat,
)
    requires
        stack.len() > 0,
        stack.last() == (Outline::Node(x, below), depth),
    ensures
        to_visit(stack) == seq![(x, depth)] + to_visit(
            pushed(stack.drop_last(), below, depth + 1),
        ),
{
    lemma_to_visit_pushed(stack.drop_last(), below, depth + 1);
    assert((seq![(x, depth)] + preorders(below, depth + 1)) + to_visit(stack.drop_last())
        =~= seq![(x, depth)] + (preorders(below, depth + 1) + to_visit(stack.drop_last())));
}

/// No walk visits more than so many elements, nor one that lies deeper than so
/// deep.
pub proof fn law_walks_are_bounded<T>(w: WalkView<T>)
    requires
        w.visited <= MAX_NODES,
    ensures
        taken(w).0.visited <= MAX_NODES,
        taken(w).1 is Some ==> taken(w).0.visited > w.visited && taken(w).1->Some_0.1 <= MAX_DEPTH,
        taken(w).1 is None ==> taken(w).0.stack.len() == 0,
        w.truncated ==> taken(w).0.truncated,
    decreases w.stack.len(),
{
    if w.stack.len() > 0 && w.visited < MAX_NODES && w.stack.last().1 > MAX_DEPTH {
        law_walks_are_bounded(
            WalkView {
                stack: w.stack.drop_last(),
                visited: w.visited + 1,
                truncated: true,
                ..w
            },
        );
    }
}

/// Whether something lies too deep.
pub open spec fn has_deep<T>(items: Seq<(T, nat)>) -> bool {
    exists|i: int| 0 <= i < items.len() && (#[trigger] items[i]).1 > MAX_DEPTH
}

/// Whether the state of a walk accounts for everything that it came upon: all
/// of it was visited or is waiting, and something too deep was among it just
/// where that was noticed or is waiting; or else the walk was cut short.
spec fn accounted<T>(w: WalkView<T>, r: Seq<(T, nat)>) -> bool {
    if w.truncated && w.stack.len() == 0 && r.len() > MAX_NODES {
        true
    } else {
        &&& w.visited + w.stack.len() == r.len()
        &&& w.visited <= MAX_NODES
        &&& has_deep(r) <==> w.truncated || has_deep(w.stack)
    }
}

proof fn lemma_top_is_deep<T>(stack: Seq<(T, nat)>)
    requires
        stack.len() > 0,
    ensures
        has_deep(stack) <==> stack.last().1 > MAX_DEPTH || has_deep(stack.drop_last()),
{
    let rest = stack.drop_last();
    if has_deep(stack) {
        let i = choose|i: int| 0 <= i < stack.len() && (#[trigger] stack[i]).1 > MAX_DEPTH;
        if i < rest.len() {
            assert(rest[i].1 > MAX_DEPTH);
        }
    }
    if has_deep(rest) {
        let i = choose|i: int| 0 <= i < rest.len() && (#[trigger] rest[i]).1 > MAX_DEPTH;
        assert(stack[i].1 > MAX_DEPTH);
    }
    if stack.last().1 > MAX_DEPTH {
        assert(stack[stack.len() - 1].1 > MAX_DEPTH);
    }
}

proof fn lemma_taken_is_accounted<T>(w: WalkView<T>, r: Seq<(T, nat)>)
    requires
        accounted(w, r),
    ensures
        accounted(taken(w).0, r),
        taken(w).1 is Some ==> taken(w).1->Some_0.1 <= MAX_DEPTH && taken(w).0.visited
            + taken(w).0.stack.len() == r.len() && taken(w).0.visited <= MAX_NODES,
        taken(w).1 is None ==> taken(w).0.stack.len() == 0,
    decreases w.stack.len(),
{
    if w.stack.len() > 0 && w.visited < MAX_NODES {
        lemma_top_is_deep(w.stack);
        let rest = WalkView { stack: w.stack.drop_last(), visited: w.visited + 1, ..w };
        if w.stack.last().1 > MAX_DEPTH {
            lemma_taken_is_accounted(WalkView { truncated: true, ..rest }, r);
        }
    }
}

proof fn lemma_deep_children<T>(stack: Seq<(T, nat)>, r: Seq<(T, nat)>, items: Seq<T>, depth: nat)
    ensures
        has_deep(pushed(stack, items, depth)) <==> has_deep(stack) || (items.len() > 0 && depth
            > MAX_DEPTH),
        has_deep(r + at_depth(items, depth)) <==> has_deep(r) || (items.len() > 0 && depth
            > MAX_DEPTH),
{
    let a = pushed(stack, items, depth);
    let b = r + at_depth(items, depth);
    if has_deep(a) {
        let i = choose|i: int| 0 <= i < a.len() && (#[trigger] a[i]).1 > MAX_DEPTH;
        if i < stack.len() {
            assert(stack[i].1 > MAX_DEPTH);
        }
    }
    if has_deep(stack) {
        let i = choose|i: int| 0 <= i < stack.len() && (#[trigger] stack[i]).1 > MAX_DEPTH;
        assert(a[i].1 > MAX_DEPTH);
    }
    if has_deep(b) {
        let i = choose|i: int| 0 <= i < b.len() && (#[trigger] b[i]).1 > MAX_DEPTH;
        if i < r.len() {
            assert(r[i].1 > MAX_DEPTH);
        }
    }
    if has_deep(r) {
        let i = choose|i: int| 0 <= i < r.len() && (#[trigger] r[i]).1 > MAX_DEPTH;
        assert(b[i].1 > MAX_DEPTH);
    }
    if items.len() > 0 && depth > MAX_DEPTH {
        assert(a[stack.len() as int].1 > MAX_DEPTH);
        assert(b[r.len() as int].1 > MAX_DEPTH);
    }
}

proof fn lemma_walked_is_accounted<T>(root: T, visits: Seq<Visit<T>>)
    ensures
        accounted(walked(root, visits), reached(root, visits)),
    decreases visits.len(),
{
    if visits.len() > 0 {
        let w = walked(root, visits.drop_last());
        let r = reached(root, visits.drop_last());
        lemma_walked_is_accounted(root, visits.drop_last());
        lemma_taken_is_accounted(w, r);
        if let Some((_, depth)) = taken(w).1 {
            let items = present(visits.last().children);
            lemma_deep_children(taken(w).0.stack, r, items, depth + 1);
        }
    }
}

/// Whatever the objects report: a walk that is over says that something was
/// left out just where it came upon more objects than may be visited, or upon
/// one that lies too deep.
pub proof fn law_truncation_is_told<T>(root: T, visits: Seq<Visit<T>>)
    requires
        taken(walked(root, visits)).1 is None,
    ensures
        taken(walked(root, visits)).0.truncated <==> reached(root, visits).len() > MAX_NODES
            || has_deep(reached(root, visits)),
{
    lemma_walked_is_accounted(root, visits);
    lemma_taken_is_accounted(walked(root, visits), reached(root, visits));
}

/// An element that is gone is not listed, nor one that neither shows nor has a
/// name or a description; any other is, by its name or, for want of one, by its
/// description.
pub proof fn law_elements_are_listed_by_name(
    name: Seq<char>,
    description: Seq<char>,
    defunct: bool,
    showing: bool,
)
    ensures
        display_name(name, description, defunct, showing) is Some <==> !defunct && (showing
            || trimmed(name).len() > 0 || trimmed(description).len() > 0),
        display_name(name, description, defunct, showing) matches Some(shown) ==> {
            ||| trimmed(name).len() > 0 && shown == name
            ||| trimmed(name).len() == 0 && shown == description
        },
{
}

/// Of the names of actions those that are not blank are kept, in their order.
pub proof fn law_blank_actions_are_left_out(a: Seq<Seq<char>>, b: Seq<Seq<char>>, name: Seq<char>)
    ensures
        usable_names(a + b) == usable_names(a) + usable_names(b),
        usable_names(seq![name]) == (if trimmed(name).len() > 0 {
            seq![name]
        } else {
            Seq::empty()
        }),
    decreases b.len(),
{
    if b.len() == 0 {
        assert(a + b =~= a);
        assert(usable_names(a) + usable_names(b) =~= usable_names(a));
    } else {
        assert((a + b).drop_last() =~= a + b.drop_last());
        law_blank_actions_are_left_out(a, b.drop_last(), name);
        assert(usable_names(a + b) =~= usable_names(a) + usable_names(b));
    }
    let one = seq![name];
    assert(one.drop_last() =~= Seq::<Seq<char>>::empty());
    reveal_with_fuel(usable_names, 2);
    assert(usable_names(one) =~= if trimmed(name).len() > 0 {
        seq![name]
    } else {
        Seq::empty()
    });
}

/// The element that has the focus is the first that says so, under its number,
/// its role and its name.
pub proof fn law_the_first_focused_element_has_the_focus(all: Seq<NodeView>, i: int)
    requires
        0 <= i <= all.len(),
        forall|j: int| 0 <= j < i ==> !(#[trigger] all[j]).focused,
        i < all.len() ==> all[i].focused,
    ensures
        focus_of(all) == (if i < all.len() {
            Some(FocusView { index: all[i].index, role: all[i].role, name: all[i].name })
        } else {
            None
        }),
    decreases all.len(),
{
    if all.len() > 0 {
        let rest = all.drop_last();
        assert(forall|j: int| 0 <= j < rest.len() ==> #[trigger] all[j] == rest[j]);
        assert(all[all.len() - 1] == all.last());
        law_the_first_focused_element_has_the_focus(
            rest,
            if i < rest.len() {
                i
            } else {
                rest.len() as int
            },
        );
    }
}

/// A text that is too long is cut to so many characters, with a mark behind
/// them; any other is shown whole.
pub proof fn law_long_texts_are_cut(s: Seq<char>, max: int)
    requires
        0 <= max,
    ensures
        s.len() <= max ==> shortened(s, max) == s,
        s.len() > max ==> shortened(s, max).len() == max + 1 && shortened(s, max)[max] == '…'
            && forall|i: int| 0 <= i < max ==> shortened(s, max)[i] == s[i],
        s.len() > 0 ==> shown_text(s) == Some(shortened(s, 200)),
        s.len() == 0 ==> shown_text(s) is None,
{
    reveal_strlit("…");
}

/// A text between quotes stays on one line, and each of its quotes has a
/// backslash ahead of it.
pub proof fn law_escaped_texts_stay_between_their_quotes(s: Seq<char>, i: int)
    requires
        0 <= i < escaped(s).len(),
    ensures
        escaped(s)[i] != '\n',
        escaped(s)[i] != '\r',
        escaped(s)[i] == '"' ==> i > 0 && escaped(s)[i - 1] == '\\',
        s.len() <= escaped(s).len() <= 2 * s.len(),
    decreases s.len(),
{
    let before = escaped(s.drop_last());
    let last = escaped_char(s.last());
    reveal_strlit("\\\\");
    reveal_strlit("\\\"");
    reveal_strlit("\\n");
    reveal_strlit("\\r");
    assert(1 <= last.len() <= 2);
    lemma_escaped_len(s.drop_last());
    if i < before.len() {
        law_escaped_texts_stay_between_their_quotes(s.drop_last(), i);
        assert(escaped(s)[i] == before[i]);
        if i > 0 {
            assert(escaped(s)[i - 1] == before[i - 1]);
        }
    } else {
        assert(escaped(s)[i] == last[i - before.len()]);
        if i > before.len() {
            assert(escaped(s)[i - 1] == last[i - before.len() - 1]);
        }
    }
}

proof fn lemma_escaped_len(s: Seq<char>)
    ensures
        s.len() <= escaped(s).len() <= 2 * s.len(),
    decreases s.len(),
{
    if s.len() > 0 {
        reveal_strlit("\\\\");
        reveal_strlit("\\\"");
        reveal_strlit("\\n");
        reveal_strlit("\\r");
        lemma_escaped_len(s.drop_last());
    }
}

/// An ordinary character is shown as it is, and a text part by part.
pub proof fn law_ordinary_texts_are_shown_as_they_are(a: Seq<char>, b: Seq<char>)
    ensures
        escaped(a + b) == escaped(a) + escaped(b),
        (forall|i: int|
            0 <= i < a.len() ==> #[trigger] a[i] != '\\' && a[i] != '"' && a[i] != '\n' && a[i]
                != '\r') ==> escaped(a) == a,
    decreases a.len() + b.len(),
{
    if b.len() == 0 {
        assert(a + b =~= a);
        assert(escaped(a) + escaped(b) =~= escaped(a));
    } else {
        assert((a + b).drop_last() =~= a + b.drop_last());
        law_ordinary_texts_are_shown_as_they_are(a, b.drop_last());
        assert(escaped(a + b) =~= escaped(a) + escaped(b));
    }
    if forall|i: int|
        0 <= i < a.len() ==> #[trigger] a[i] != '\\' && a[i] != '"' && a[i] != '\n' && a[i]
            != '\r' {
        if a.len() > 0 {
            let rest = a.drop_last();
            assert(forall|i: int| 0 <= i < rest.len() ==> #[trigger] rest[i] == a[i]);
            assert(a[a.len() - 1] == a.last());
            law_ordinary_texts_are_shown_as_they_are(rest, Seq::empty());
            assert(escaped(a) =~= a);
        } else {
            assert(escaped(a) =~= a);
        }
    }
}

proof fn lemma_indent(depth: nat)
    ensures
        indent(depth).len() == 2 * depth,
        forall|i: int| 0 <= i < 2 * depth ==> #[trigger] indent(depth)[i] == ' ',
    decreases depth,
{
    reveal_strlit("  ");
    if depth > 0 {
        lemma_indent((depth - 1) as nat);
        let before = indent((depth - 1) as nat);
        assert forall|i: int| 0 <= i < 2 * depth implies #[trigger] indent(depth)[i] == ' ' by {
            if i < before.len() {
                assert(indent(depth)[i] == before[i]);
            }
        }
    }
}

/// The line of an element is indented by two spaces for each step of depth and
/// begins with its number, its role and its name, the name between quotes.
pub proof fn law_lines_begin_with_number_role_and_name(node: NodeView)
    ensures
        ({
            let line = line_text(node);
            let margin = 2 * node.depth as int;
            let head = seq!['['] + decimal(node.index) + seq![']', ' '] + node.role + seq![' ', '"']
                + escaped(node.name) + seq!['"'];
            &&& margin + head.len() <= line.len()
            &&& forall|i: int| 0 <= i < margin ==> line[i] == ' '
            &&& line.subrange(margin, margin + head.len()) == head
            &&& line.subrange(margin + head.len(), line.len() as int) == traits_text(node)
        }),
{
    lemma_indent(node.depth);
    reveal_strlit("[");
    reveal_strlit("] ");
    reveal_strlit(" \"");
    reveal_strlit("\"");
    let line = line_text(node);
    let margin = 2 * node.depth as int;
    let head = seq!['['] + decimal(node.index) + seq![']', ' '] + node.role + seq![' ', '"']
        + escaped(node.name) + seq!['"'];
    let told = "["@ + decimal(node.index) + "] "@ + node.role + " \""@ + escaped(node.name)
        + "\""@;
    assert("["@ =~= seq!['[']);
    assert("] "@ =~= seq![']', ' ']);
    assert(" \""@ =~= seq![' ', '"']);
    assert("\""@ =~= seq!['"']);
    assert(line =~= indent(node.depth) + head + traits_text(node));
    assert(line.subrange(margin, margin + head.len()) =~= head);
    assert(line.subrange(margin + head.len(), line.len() as int) =~= traits_text(node));
}

/// The line of an element tells its value, whether it has the focus, can be
/// edited or is selected, its actions and its place, each just where it is so:
/// an element of which nothing else is to be told has nothing behind its name,
/// and what is added to it adds to its line.
pub proof fn law_lines_tell_what_an_element_is(node: NodeView)
    ensures
        ({
            let plain = NodeView {
                value: None,
                focused: false,
                editable: false,
                selected: false,
                actions: Seq::empty(),
                bounds: None,
                ..node
            };
            &&& traits_text(plain) == Seq::<char>::empty()
            &&& node.value matches Some(v) ==> traits_text(
                NodeView { value: node.value, ..plain },
            ) == " value:\""@ + escaped(v) + "\""@
            &&& traits_text(NodeView { focused: true, ..plain }) == " *focused*"@
            &&& traits_text(NodeView { editable: true, ..plain }) == " [editable]"@
            &&& traits_text(NodeView { selected: true, ..plain }) == " *selected*"@
            &&& node.actions.len() > 0 ==> traits_text(
                NodeView { actions: node.actions, ..plain },
            ) == " actions:["@ + joined(node.actions, ","@) + "]"@
            &&& node.bounds matches Some((x, y, width, height)) ==> traits_text(
                NodeView { bounds: node.bounds, ..plain },
            ) == " @("@ + decimal(x as int) + ","@ + decimal(y as int) + ","@ + decimal(
                width as int,
            ) + "×"@ + decimal(height as int) + ")"@
            &&& traits_text(node) == traits_text(NodeView { value: node.value, ..plain })
                + traits_text(NodeView { focused: node.focused, ..plain }) + traits_text(
                NodeView { editable: node.editable, ..plain },
            ) + traits_text(NodeView { selected: node.selected, ..plain }) + traits_text(
                NodeView { actions: node.actions, ..plain },
            ) + traits_text(NodeView { bounds: node.bounds, ..plain })
        }),
{
    let plain = NodeView {
        value: None,
        focused: false,
        editable: false,
        selected: false,
        actions: Seq::empty(),
        bounds: None,
        ..node
    };
    assert(traits_text(plain) =~= Seq::<char>::empty());
    if let Some(v) = node.value {
        assert(traits_text(NodeView { value: node.value, ..plain }) =~= " value:\""@ + escaped(v)
            + "\""@);
    }
    assert(traits_text(NodeView { focused: true, ..plain }) =~= " *focused*"@);
    assert(traits_text(NodeView { editable: true, ..plain }) =~= " [editable]"@);
    assert(traits_text(NodeView { selected: true, ..plain }) =~= " *selected*"@);
    if node.actions.len() > 0 {
        assert(traits_text(NodeView { actions: node.actions, ..plain }) =~= " actions:["@ + joined(
            node.actions,
            ","@,
        ) + "]"@);
    }
    if let Some(b) = node.bounds {
        assert(traits_text(NodeView { bounds: node.bounds, ..plain }) =~= bounds_text(b));
    }
    assert(traits_text(node) =~= traits_text(NodeView { value: node.value, ..plain }) + traits_text(
        NodeView { focused: node.focused, ..plain },
    ) + traits_text(NodeView { editable: node.editable, ..plain }) + traits_text(
        NodeView { selected: node.selected, ..plain },
    ) + traits_text(NodeView { actions: node.actions, ..plain }) + traits_text(
        NodeView { bounds: node.bounds, ..plain },
    ));
}

/// The text of a tree is the lines of its elements, one below the other and in
/// their order, and where something was left out, a note says so at the end and
/// the lines stay as they are.
pub proof fn law_trees_are_told_line_by_line(a: Seq<NodeView>, b: Seq<NodeView>, node: NodeView)
    requires
        a.len() > 0,
        b.len() > 0,
    ensures
        tree_text(a + b, false) == tree_text(a, false) + "\n"@ + tree_text(b, false),
        tree_text(seq![node], false) == line_text(node),
        tree_text(Seq::empty(), false) == Seq::<char>::empty(),
        tree_text(Seq::empty(), true) == "[accessibility tree truncated]"@,
        tree_text(seq![node], true) == line_text(node) + "\n"@
            + "[accessibility tree truncated]"@,
{
    assert(line_texts(a + b) =~= line_texts(a) + line_texts(b));
    crate::text::law_texts_are_joined_in_order(line_texts(a), line_texts(b), "\n"@);
    assert(line_texts(seq![node]) =~= seq![line_text(node)]);
    lemma_line_not_empty(node);
}

proof fn lemma_line_not_empty(node: NodeView)
    ensures
        line_text(node).len() > 0,
{
    reveal_strlit("[");
}

/// Of the children that an object reports those that are there are kept, in
/// their order.
pub proof fn law_missing_children_are_left_out<T>(a: Seq<Option<T>>, b: Seq<Option<T>>, x: T)
    ensures
        present(a + b) == present(a) + present(b),
        present(seq![Some(x)]) == seq![x],
        present(seq![None::<T>]) == Seq::<T>::empty(),
    decreases a.len(),
{
    if a.len() == 0 {
        assert(a + b =~= b);
        assert(present(a) + present(b) =~= present(b));
    } else {
        assert((a + b).drop_first() =~= a.drop_first() + b);
        law_missing_children_are_left_out(a.drop_first(), b, x);
        assert(present(a + b) =~= present(a) + present(b));
    }
    assert(seq![Some(x)].drop_first() =~= Seq::<Option<T>>::empty());
    assert(seq![None::<T>].drop_first() =~= Seq::<Option<T>>::empty());
    reveal_with_fuel(present, 2);
    assert(present(seq![Some(x)]) =~= seq![x]);
    assert(present(seq![None::<T>]) =~= Seq::<T>::empty());
}

/// What waits on top is visited next, as long as the limits are kept.
pub proof fn law_the_top_is_visited_next<T>(w: WalkView<T>)
    requires
        w.stack.len() > 0,
        w.visited < 1500,
        w.stack.last().1 <= 40,
    ensures
        taken(w).1 == Some(w.stack.last()),
        taken(w).0.stack == w.stack.drop_last(),
        taken(w).0.visited == w.visited + 1,
        taken(w).0.truncated == w.truncated,
{
}

/// The children of what was visited are visited next, the first of them first
/// and one step deeper, before all that waits already; and what is listed is
/// listed last, as it was found, under the next number, at its depth and with
/// the object behind it.
pub proof fn law_visits_are_noted<T>(
    w: WalkView<T>,
    object: T,
    depth: nat,
    visit: Visit<T>,
    i: int,
)
    ensures
        ({
            let t = noted(w, object, depth, visit);
            let children = present(visit.children);
            let top = t.stack.len() - 1;
            &&& t.stack.len() == w.stack.len() + children.len()
            &&& 0 <= i < children.len() ==> t.stack[top - i] == (children[i], depth + 1)
            &&& 0 <= i < w.stack.len() ==> t.stack[i] == w.stack[i]
            &&& t.visited == w.visited && t.truncated == w.truncated
            &&& match visit.listed {
                None => t.lines == w.lines && t.objects == w.objects,
                Some(d) => {
                    &&& t.objects == w.objects.push(object)
                    &&& t.lines.len() == w.lines.len() + 1 && t.lines.drop_last() == w.lines
                    &&& t.lines.last().index == w.lines.len()
                    &&& t.lines.last().depth == depth
                    &&& t.lines.last().role == d.role@ && t.lines.last().name == d.name@
                    &&& t.lines.last().value == opt_text(d.value)
                    &&& t.lines.last().focused == d.focused
                    &&& t.lines.last().editable == d.editable
                    &&& t.lines.last().selected == d.selected
                    &&& t.lines.last().actions == texts(d.actions@)
                    &&& t.lines.last().bounds == d.bounds
                },
            }
        }),
{
    if let Some(d) = visit.listed {
        assert(noted(w, object, depth, visit).lines.drop_last() =~= w.lines);
    }
}

/// A tree gives something to work with where any of its elements has an action,
/// can be edited, has a value, or lies below the window with a place of its own.
pub proof fn law_what_gives_hold_makes_a_tree_actionable(all: Seq<NodeView>, i: int)
    requires
        0 <= i < all.len(),
    ensures
        all[i].actions.len() > 0 ==> actionable(all),
        all[i].editable ==> actionable(all),
        all[i].value matches Some(v) && trimmed(v).len() > 0 ==> actionable(all),
        all[i].depth >= 2 && all[i].bounds is Some ==> actionable(all),
        (forall|j: int|
            0 <= j < all.len() ==> (#[trigger] all[j]).actions.len() == 0 && !all[j].editable
                && (all[j].value is None || trimmed(all[j].value->Some_0).len() == 0) && (
            all[j].depth < 2 || all[j].bounds is None)) ==> !actionable(all),
{
    if gives_hold(all[i]) {
        assert(actionable(all));
    }
}

/// An element of a tree is seen as it is.
pub proof fn law_elements_are_seen_as_they_are(node: NodeLine, f: FocusedElement)
    ensures
        node@.index == node.index && node@.depth == node.depth,
        node@.role == node.role@ && node@.name == node.name@,
        node@.value == opt_text(node.value),
        node@.focused == node.focused,
        node@.editable == node.editable,
        node@.selected == node.selected,
        node@.actions == texts(node.actions@),
        node@.bounds == node.bounds,
        f@.index == f.index && f@.role == f.role@ && f@.name == f.name@,
{
}

} // verus!
