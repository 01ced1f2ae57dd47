//! JSON values.

use crate::binary64::{double_of, Real};
use crate::input::opt_text;
use crate::text::same;
use vstd::prelude::*;

verus! {

/// A number, by the way in which it is written: as a natural number, as a
/// negative integer, or as any other number.
#[derive(Clone, Copy, Debug, PartialEq, Eq)]
pub enum Number {
    Natural(u64),
    Negative(i64),
    Double(Real),
}

/// A JSON value. An object lists its members in the order in which they were
/// put into it.
#[derive(Debug)]
pub enum Json {
    Null,
    Bool(bool),
    Number(Number),
    Text(String),
    Array(Vec<Json>),
    Object(Vec<(String, Json)>),
}

/// What a JSON value is.
#[verifier::ext_equal]
pub enum JsonView {
    Null,
    Bool(bool),
    Number(Number),
    Text(Seq<char>),
    Array(Seq<JsonView>),
    Object(Seq<(Seq<char>, JsonView)>),
}

impl Json {
    pub open spec fn view(self) -> JsonView
        decreases self,
    {
        match self {
            Json::Null => JsonView::Null,
            Json::Bool(b) => JsonView::Bool(b),
            Json::Number(n) => JsonView::Number(n),
            Json::Text(s) => JsonView::Text(s@),
            Json::Array(items) => JsonView::Array(
                Seq::new(
                    items@.len(),
                    |i: int|
                        if 0 <= i < items@.len() {
                            items@[i].view()
                        } else {
                            JsonView::Null
                        },
                ),
            ),
            Json::Object(members) => JsonView::Object(
                Seq::new(
                    members@.len(),
                    |i: int|
                        if 0 <= i < members@.len() {
                            (members@[i].0@, members@[i].1.view())
                        } else {
                            (Seq::empty(), JsonView::Null)
                        },
                ),
            ),
        }
    }
}

/// The values of a list.
pub open spec fn values(items: Seq<Json>) -> Seq<JsonView> {
    Seq::new(items.len(), |i: int| items[i]@)
}

/// The members of an object.
pub open spec fn members(items: Seq<(String, Json)>) -> Seq<(Seq<char>, JsonView)> {
    Seq::new(items.len(), |i: int| (items[i].0@, items[i].1@))
}

/// The value of the first member with a name.
pub open spec fn found(items: Seq<(Seq<char>, JsonView)>, name: Seq<char>) -> Option<JsonView>
    decreases items.len(),
{
    if items.len() == 0 {
        None
    } else {
        match found(items.drop_last(), name) {
            Some(v) => Some(v),
            None => if items.last().0 == name {
                Some(items.last().1)
            } else {
                None
            },
        }
    }
}

impl JsonView {
    /// The value of a member; nothing but an object has any.
    pub open spec fn get(self, name: Seq<char>) -> Option<JsonView> {
        match self {
            JsonView::Object(items) => found(items, name),
            _ => None,
        }
    }

    pub open spec fn text(self) -> Option<Seq<char>> {
        match self {
            JsonView::Text(s) => Some(s),
            _ => None,
        }
    }

    pub open spec fn truth(self) -> Option<bool> {
        match self {
            JsonView::Bool(b) => Some(b),
            _ => None,
        }
    }

    pub open spec fn integer(self) -> Option<int> {
        match self {
            JsonView::Number(Number::Natural(n)) => Some(n as int),
            JsonView::Number(Number::Negative(n)) => Some(n as int),
            _ => None,
        }
    }

    /// The number as a double, rounded where it is none.
    pub open spec fn double(self) -> Option<Real> {
        match self {
            JsonView::Number(Number::Natural(n)) => Some(double_of(n as int)),
            JsonView::Number(Number::Negative(n)) => Some(double_of(n as int)),
            JsonView::Number(Number::Double(x)) => Some(x),
            _ => None,
        }
    }
}

/// An integer that fits, if it is one.
pub open spec fn fitting(i: Option<int>, min: int, max: int) -> Option<int> {
    match i {
        Some(n) => if min <= n <= max {
            Some(n)
        } else {
            None
        },
        None => None,
    }
}

/// The views of a member's value before and after it is looked up.
pub open spec fn looked_up(r: Option<&Json>) -> Option<JsonView> {
    match r {
        Some(v) => Some(v@),
        None => None,
    }
}

impl Json {
    /// Looks up a member by its name.
    pub fn get(&self, name: &str) -> (r: Option<&Json>)
        ensures
            looked_up(r) == self@.get(name@),
    {
        match self {
            Json::Object(items) => {
                let ghost all = members(items@);
                assert(self@ == JsonView::Object(all)) by {
                    assert(self@->Object_0 =~= all);
                }
                let mut i: usize = 0;
                while i < items.len()
                    invariant
                        i <= items@.len(),
                        all == members(items@),
                        self@ == JsonView::Object(all),
                        found(all.take(i as int), name@) is None,
                    decreases items@.len() - i,
                {
                    assert(all.take(i + 1).drop_last() =~= all.take(i as int));
                    if same(items[i].0.as_str(), name) {
                        proof {
                            lemma_found_early(all, name@, i + 1);
                        }
                        return Some(&items[i].1);
                    }
                    i += 1;
                }
                assert(all.take(i as int) =~= all);
                None
            },
            _ => None,
        }
    }

    pub fn as_str(&self) -> (r: Option<&str>)
        ensures
            match r {
                Some(s) => self@.text() == Some(s@),
                None => self@.text() is None,
            },
    {
        match self {
            Json::Text(s) => Some(s.as_str()),
            _ => None,
        }
    }

    pub fn as_bool(&self) -> (r: Option<bool>)
        ensures
            r == self@.truth(),
    {
        match self {
            Json::Bool(b) => Some(*b),
            _ => None,
        }
    }

    pub fn as_i64(&self) -> (r: Option<i64>)
        ensures
            match r {
                Some(n) => fitting(self@.integer(), i64::MIN as int, i64::MAX as int) == Some(
                    n as int,
                ),
                None => fitting(self@.integer(), i64::MIN as int, i64::MAX as int) is None,
            },
    {
        match self {
            Json::Number(Number::Natural(n)) => if *n <= i64::MAX as u64 {
                Some(*n as i64)
            } else {
                None
            },
            Json::Number(Number::Negative(n)) => Some(*n),
            _ => None,
        }
    }

    pub fn as_u64(&self) -> (r: Option<u64>)
        ensures
            match r {
                Some(n) => fitting(self@.integer(), 0, u64::MAX as int) == Some(n as int),
                None => fitting(self@.integer(), 0, u64::MAX as int) is None,
            },
    {
        match self {
            Json::Number(Number::Natural(n)) => Some(*n),
            Json::Number(Number::Negative(n)) => if *n >= 0 {
                Some(*n as u64)
            } else {
                None
            },
            _ => None,
        }
    }

    pub fn as_real(&self) -> (r: Option<Real>)
        ensures
            r == self@.double(),
    {
        match self {
            Json::Number(Number::Natural(n)) => Some(Real::from_natural(*n)),
            Json::Number(Number::Negative(n)) => Some(Real::from_integer(*n)),
            Json::Number(Number::Double(x)) => Some(*x),
            _ => None,
        }
    }

    pub fn is_null(&self) -> (r: bool)
        ensures
            r == (self@ == JsonView::Null),
    {
        matches!(self, Json::Null)
    }
}

proof fn lemma_found_early(items: Seq<(Seq<char>, JsonView)>, name: Seq<char>, i: int)
    requires
        0 <= i <= items.len(),
        found(items.take(i), name) is Some,
    ensures
        found(items, name) == found(items.take(i), name),
    decreases items.len(),
{
    if i < items.len() {
        assert(items.drop_last().take(i) =~= items.take(i));
        lemma_found_early(items.drop_last(), name, i);
    } else {
        assert(items.take(i) =~= items);
    }
}

/// Copies a value.
pub fn dup(v: &Json) -> (r: Json)
    ensures
        r@ == v@,
    decreases v,
{
    match v {
        Json::Null => Json::Null,
        Json::Bool(b) => Json::Bool(*b),
        Json::Number(n) => Json::Number(*n),
        Json::Text(s) => Json::Text(s.clone()),
        Json::Array(items) => {
            let mut out: Vec<Json> = Vec::new();
            let mut i: usize = 0;
            while i < items.len()
                invariant
                    i <= items@.len(),
                    *v == Json::Array(*items),
                    values(out@) == values(items@).take(i as int),
                decreases items@.len() - i,
            {
                let ghost was = out@;
                assert(decreases_to!(*v => v->Array_0));
                assert(decreases_to!(items@ => items@[i as int]));
                let copy = dup(&items[i]);
                out.push(copy);
                assert(values(out@) =~= values(was).push(copy@));
                assert(values(items@).take(i + 1) =~= values(items@).take(i as int).push(copy@));
                i += 1;
            }
            let r = Json::Array(out);
            assert(r@->Array_0 =~= values(out@));
            assert(v@->Array_0 =~= values(items@));
            assert(values(items@).take(i as int) =~= values(items@));
            r
        },
        Json::Object(items) => {
            let mut out: Vec<(String, Json)> = Vec::new();
            let mut i: usize = 0;
            while i < items.len()
                invariant
                    i <= items@.len(),
                    *v == Json::Object(*items),
                    members(out@) == members(items@).take(i as int),
                decreases items@.len() - i,
            {
                let ghost was = out@;
                assert(decreases_to!(*v => v->Object_0));
                assert(decreases_to!(items@ => items@[i as int]));
                let copy = (items[i].0.clone(), dup(&items[i].1));
                out.push(copy);
                assert(members(out@) =~= members(was).push((copy.0@, copy.1@)));
                assert(members(items@).take(i + 1) =~= members(items@).take(i as int).push(
                    (copy.0@, copy.1@),
                ));
                i += 1;
            }
            let r = Json::Object(out);
            assert(r@->Object_0 =~= members(out@));
            assert(v@->Object_0 =~= members(items@));
            assert(members(items@).take(i as int) =~= members(items@));
            r
        },
    }
}

/// A text as a JSON value.
pub fn text(s: &str) -> (r: Json)
    ensures
        r@ == JsonView::Text(s@),
{
    Json::Text(s.to_owned())
}

/// A digit of base sixteen.
pub open spec fn hex_digit(n: int) -> char {
    if n < 10 {
        (n + '0' as int) as char
    } else {
        (n - 10 + 'a' as int) as char
    }
}

/// How a character stands in a JSON string.
pub open spec fn json_escape(c: char) -> Seq<char> {
    if c == '"' || c == '\\' {
        seq!['\\', c]
    } else if c as int == 0x08 {
        seq!['\\', 'b']
    } else if c == '\t' {
        seq!['\\', 't']
    } else if c == '\n' {
        seq!['\\', 'n']
    } else if c as int == 0x0c {
        seq!['\\', 'f']
    } else if c == '\r' {
        seq!['\\', 'r']
    } else if (c as int) < 0x20 {
        seq!['\\', 'u', '0', '0', hex_digit(c as int / 16), hex_digit(c as int % 16)]
    } else {
        seq![c]
    }
}

/// How a text stands between the quotes of a JSON string.
pub open spec fn json_escaped(s: Seq<char>) -> Seq<char>
    decreases s.len(),
{
    if s.len() == 0 {
        Seq::empty()
    } else {
        json_escaped(s.drop_last()) + json_escape(s.last())
    }
}

/// A text as a JSON string.
pub open spec fn json_string(s: Seq<char>) -> Seq<char> {
    seq!['"'] + json_escaped(s) + seq!['"']
}

/// A failure of `serde_json`.
#[verifier::external_type_specification]
#[verifier::external_body]
pub struct ExJsonError(serde_json::Error);

/// `serde_json::to_string` of a string slice: the text between double quotes,
/// with the quote, the backslash and the control characters below 0x20
/// escaped. Writing a string to memory does not fail.
#[verifier::external_body]
fn to_json_string(s: &str) -> (r: Result<String, serde_json::Error>)
    ensures
        r is Ok,
        r->Ok_0@ == json_string(s@),
{
    serde_json::to_string(s)
}

/// Writes a text as a JSON string.
pub(crate) fn json_text(s: &str) -> (r: String)
    ensures
        r@ == json_string(s@),
{
    match to_json_string(s) {
        Ok(t) => t,
        Err(_) => String::new(),
    }
}

/// A list that is being put together.
#[derive(Debug)]
pub struct Items {
    items: Vec<Json>,
}

impl View for Items {
    type V = Seq<JsonView>;

    closed spec fn view(&self) -> Seq<JsonView> {
        values(self.items@)
    }
}

impl Items {
    pub fn new() -> (r: Items)
        ensures
            r@ == Seq::<JsonView>::empty(),
    {
        let r = Items { items: Vec::new() };
        assert(r@ =~= Seq::<JsonView>::empty());
        r
    }

    pub fn with(self, value: Json) -> (r: Items)
        ensures
            r@ == self@.push(value@),
    {
        let mut items = self.items;
        items.push(value);
        let r = Items { items };
        assert(r@ =~= self@.push(value@));
        r
    }

    pub fn list(self) -> (r: Json)
        ensures
            r@ == JsonView::Array(self@),
    {
        let r = Json::Array(self.items);
        assert(r@->Array_0 =~= self@);
        r
    }
}

/// An object that is being put together.
#[derive(Debug)]
pub struct Members {
    items: Vec<(String, Json)>,
}

impl View for Members {
    type V = Seq<(Seq<char>, JsonView)>;

    closed spec fn view(&self) -> Seq<(Seq<char>, JsonView)> {
        members(self.items@)
    }
}

impl Members {
    pub fn new() -> (r: Members)
        ensures
            r@ == Seq::<(Seq<char>, JsonView)>::empty(),
    {
        let r = Members { items: Vec::new() };
        assert(r@ =~= Seq::<(Seq<char>, JsonView)>::empty());
        r
    }

    pub fn with(self, name: &str, value: Json) -> (r: Members)
        ensures
            r@ == self@.push((name@, value@)),
    {
        let mut items = self.items;
        items.push((name.to_owned(), value));
        let r = Members { items };
        assert(r@ =~= self@.push((name@, value@)));
        r
    }

    pub fn object(self) -> (r: Json)
        ensures
            r@ == JsonView::Object(self@),
    {
        let r = Json::Object(self.items);
        assert(r@->Object_0 =~= self@);
        r
    }
}

/// What stands for a double: its value, or nothing where it has none.
pub open spec fn real_value(x: Real) -> JsonView {
    if x.finite() {
        JsonView::Number(Number::Double(x))
    } else {
        JsonView::Null
    }
}

/// A double as a JSON value.
pub fn double(x: Real) -> (r: Json)
    ensures
        r@ == real_value(x),
{
    if x.is_finite() {
        Json::Number(Number::Double(x))
    } else {
        Json::Null
    }
}

/// What stands for an integer.
pub open spec fn int_value(n: int) -> JsonView {
    if n < 0 {
        JsonView::Number(Number::Negative(n as i64))
    } else {
        JsonView::Number(Number::Natural(n as u64))
    }
}

/// A natural number as a JSON value.
pub fn natural(n: u64) -> (r: Json)
    ensures
        r@ == int_value(n as int),
{
    Json::Number(Number::Natural(n))
}

/// An integer as a JSON value.
pub fn integer(n: i64) -> (r: Json)
    ensures
        r@ == int_value(n as int),
{
    if n < 0 {
        Json::Number(Number::Negative(n))
    } else {
        Json::Number(Number::Natural(n as u64))
    }
}

/// What stands for a text that may be missing.
pub open spec fn opt_value(s: Option<Seq<char>>) -> JsonView {
    match s {
        Some(t) => JsonView::Text(t),
        None => JsonView::Null,
    }
}

/// A text that may be missing as a JSON value.
pub fn opt_text_value(s: &Option<String>) -> (r: Json)
    ensures
        r@ == opt_value(opt_text(*s)),
{
    match s {
        Some(t) => text(t.as_str()),
        None => Json::Null,
    }
}

/// A member that is put to an object is found where none of that name was
/// there before, and those of other names are found as before.
pub proof fn lemma_found_push(
    items: Seq<(Seq<char>, JsonView)>,
    name: Seq<char>,
    value: JsonView,
    wanted: Seq<char>,
)
    ensures
        found(items.push((name, value)), wanted) == (match found(items, wanted) {
            Some(v) => Some(v),
            None => if name == wanted {
                Some(value)
            } else {
                None
            },
        }),
{
    assert(items.push((name, value)).drop_last() =~= items);
}

/// A member is looked up by its whole name, and of several with one name the
/// first counts; a name that no member has gives nothing.
pub proof fn law_the_first_member_counts(
    items: Seq<(Seq<char>, JsonView)>,
    name: Seq<char>,
    i: int,
)
    requires
        0 <= i <= items.len(),
        forall|j: int| 0 <= j < i ==> (#[trigger] items[j]).0 != name,
        i < items.len() ==> items[i].0 == name,
    ensures
        JsonView::Object(items).get(name) == (if i < items.len() {
            Some(items[i].1)
        } else {
            None
        }),
    decreases items.len(),
{
    if items.len() > 0 {
        let rest = items.drop_last();
        assert(forall|j: int| 0 <= j < rest.len() ==> rest[j] == items[j]);
        if i < rest.len() {
            law_the_first_member_counts(rest, name, i);
        } else {
            law_the_first_member_counts(rest, name, rest.len() as int);
            assert(items.last() == items[items.len() - 1]);
        }
    }
}

/// A finite double and an integer are kept by the values that stand for them.
pub proof fn law_numbers_are_kept(x: Real, n: i64)
    ensures
        x.finite() ==> real_value(x).double() == Some(x),
        !x.finite() ==> real_value(x) == JsonView::Null,
        int_value(n as int).integer() == Some(n as int),
{
}

} // verus!
