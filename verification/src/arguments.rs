//! The arguments of a tool call.

use crate::binary64::{int_units, Real};
use crate::fault::{agrees, general, Fault, FaultView};
use crate::input::opt_text;
use crate::json::{fitting, looked_up, Json, JsonView};
use crate::text::{blank, quote, quoted, same, trimmed};
use vstd::prelude::*;

verus! {

/// What is said of an argument that is missing or of the wrong kind.
pub open spec fn bad(what: Seq<char>, name: Seq<char>) -> FaultView {
    general(what + quoted(name))
}

fn bad_argument(what: &str, name: &str) -> (r: Fault)
    ensures
        r@ == bad(what@, name@),
{
    let mut message = what.to_owned();
    message.append(quote(name).as_str());
    Fault::new(message)
}

/// A text that has to be given; that of `app` must not be blank.
pub open spec fn text_arg(args: JsonView, name: Seq<char>) -> Result<Seq<char>, FaultView> {
    let given = match args.get(name) {
        Some(v) => v.text(),
        None => None,
    };
    match given {
        None => Err(bad("missing or invalid string argument "@, name)),
        Some(s) => if name == "app"@ && trimmed(s).len() == 0 {
            Err(general("app must not be empty"@))
        } else {
            Ok(s)
        },
    }
}

/// Reads a text that has to be given.
pub fn string_arg<'a>(args: &'a Json, name: &str) -> (r: Result<&'a str, Fault>)
    ensures
        match (r, text_arg(args@, name@)) {
            (Ok(s), Ok(e)) => s@ == e,
            (Err(f), Err(e)) => f@ == e,
            _ => false,
        },
{
    let given = match args.get(name) {
        Some(v) => v.as_str(),
        None => None,
    };
    match given {
        None => Err(bad_argument("missing or invalid string argument ", name)),
        Some(s) => {
            if same(name, "app") && blank(s) {
                return Err(Fault::of("app must not be empty"));
            }
            Ok(s)
        },
    }
}

/// An integer that has to be given.
pub open spec fn int_arg(args: JsonView, name: Seq<char>) -> Result<i64, FaultView> {
    let given = match args.get(name) {
        Some(v) => fitting(v.integer(), i64::MIN as int, i64::MAX as int),
        None => None,
    };
    match given {
        Some(n) => Ok(n as i64),
        None => Err(bad("missing or invalid integer argument "@, name)),
    }
}

/// Reads an integer that has to be given.
pub fn i64_arg(args: &Json, name: &str) -> (r: Result<i64, Fault>)
    ensures
        agrees(r, int_arg(args@, name@)),
{
    let given = match args.get(name) {
        Some(v) => v.as_i64(),
        None => None,
    };
    match given {
        Some(n) => Ok(n),
        None => Err(bad_argument("missing or invalid integer argument ", name)),
    }
}

/// A number that has to be given and to be finite.
pub open spec fn double_arg(args: JsonView, name: Seq<char>) -> Result<Real, FaultView> {
    let given = match args.get(name) {
        Some(v) => v.double(),
        None => None,
    };
    match given {
        None => Err(bad("missing or invalid number argument "@, name)),
        Some(x) => if x.finite() {
            Ok(x)
        } else {
            Err(general(name + " must be finite"@))
        },
    }
}

/// Reads a number that has to be given.
pub fn number_arg(args: &Json, name: &str) -> (r: Result<Real, Fault>)
    ensures
        agrees(r, double_arg(args@, name@)),
{
    let given = match args.get(name) {
        Some(v) => v.as_real(),
        None => None,
    };
    match given {
        None => Err(bad_argument("missing or invalid number argument ", name)),
        Some(x) => {
            if !x.is_finite() {
                let mut message = name.to_owned();
                message.append(" must be finite");
                return Err(Fault::new(message));
            }
            Ok(x)
        },
    }
}

/// What is given under a name; nothing where that is null.
pub open spec fn given(args: JsonView, name: Seq<char>) -> Option<JsonView> {
    match args.get(name) {
        Some(JsonView::Null) => None,
        other => other,
    }
}

fn look_up<'a>(args: &'a Json, name: &str) -> (r: Option<&'a Json>)
    ensures
        looked_up(r) == given(args@, name@),
{
    match args.get(name) {
        Some(v) => if v.is_null() {
            None
        } else {
            Some(v)
        },
        None => None,
    }
}

/// A text that may be given.
pub open spec fn opt_text_arg(args: JsonView, name: Seq<char>) -> Result<
    Option<Seq<char>>,
    FaultView,
> {
    match given(args, name) {
        None => Ok(None),
        Some(v) => match v.text() {
            Some(s) => Ok(Some(s)),
            None => Err(bad("invalid string argument "@, name)),
        },
    }
}

/// Reads a text that may be given.
pub fn optional_string<'a>(args: &'a Json, name: &str) -> (r: Result<Option<&'a str>, Fault>)
    ensures
        match (r, opt_text_arg(args@, name@)) {
            (Ok(Some(s)), Ok(Some(e))) => s@ == e,
            (Ok(None), Ok(None)) => true,
            (Err(f), Err(e)) => f@ == e,
            _ => false,
        },
{
    match look_up(args, name) {
        None => Ok(None),
        Some(v) => match v.as_str() {
            Some(s) => Ok(Some(s)),
            None => Err(bad_argument("invalid string argument ", name)),
        },
    }
}

/// An integer that may be given.
pub open spec fn opt_int_arg(args: JsonView, name: Seq<char>) -> Result<Option<i64>, FaultView> {
    match given(args, name) {
        None => Ok(None),
        Some(v) => match fitting(v.integer(), i64::MIN as int, i64::MAX as int) {
            Some(n) => Ok(Some(n as i64)),
            None => Err(bad("invalid integer argument "@, name)),
        },
    }
}

/// Reads an integer that may be given.
pub fn optional_i64(args: &Json, name: &str) -> (r: Result<Option<i64>, Fault>)
    ensures
        match (r, opt_int_arg(args@, name@)) {
            (Ok(n), Ok(e)) => n == e,
            (Err(f), Err(e)) => f@ == e,
            _ => false,
        },
{
    match look_up(args, name) {
        None => Ok(None),
        Some(v) => match v.as_i64() {
            Some(n) => Ok(Some(n)),
            None => Err(bad_argument("invalid integer argument ", name)),
        },
    }
}

/// An integer that is not negative and may be given.
pub open spec fn opt_nat_arg(args: JsonView, name: Seq<char>) -> Result<Option<u64>, FaultView> {
    match given(args, name) {
        None => Ok(None),
        Some(v) => match fitting(v.integer(), 0, u64::MAX as int) {
            Some(n) => Ok(Some(n as u64)),
            None => Err(bad("invalid non-negative integer argument "@, name)),
        },
    }
}

/// Reads an integer that is not negative and may be given.
pub fn optional_u64(args: &Json, name: &str) -> (r: Result<Option<u64>, Fault>)
    ensures
        match (r, opt_nat_arg(args@, name@)) {
            (Ok(n), Ok(e)) => n == e,
            (Err(f), Err(e)) => f@ == e,
            _ => false,
        },
{
    match look_up(args, name) {
        None => Ok(None),
        Some(v) => match v.as_u64() {
            Some(n) => Ok(Some(n)),
            None => Err(bad_argument("invalid non-negative integer argument ", name)),
        },
    }
}

/// A number that may be given.
pub open spec fn opt_double_arg(args: JsonView, name: Seq<char>) -> Result<Option<Real>, FaultView> {
    match given(args, name) {
        None => Ok(None),
        Some(_) => match double_arg(args, name) {
            Ok(x) => Ok(Some(x)),
            Err(e) => Err(e),
        },
    }
}

/// Reads a number that may be given.
pub fn optional_number(args: &Json, name: &str) -> (r: Result<Option<Real>, Fault>)
    ensures
        match (r, opt_double_arg(args@, name@)) {
            (Ok(x), Ok(e)) => x == e,
            (Err(f), Err(e)) => f@ == e,
            _ => false,
        },
{
    match look_up(args, name) {
        None => Ok(None),
        Some(_) => match number_arg(args, name) {
            Ok(x) => Ok(Some(x)),
            Err(fault) => Err(fault),
        },
    }
}

/// A point that may be given, by both its coordinates.
pub open spec fn opt_point_arg(args: JsonView) -> Result<Option<(Real, Real)>, FaultView> {
    match (opt_double_arg(args, "x"@), opt_double_arg(args, "y"@)) {
        (Err(e), _) => Err(e),
        (_, Err(e)) => Err(e),
        (Ok(None), Ok(None)) => Ok(None),
        (Ok(Some(x)), Ok(Some(y))) => Ok(Some((x, y))),
        _ => Err(general("x and y must be provided together"@)),
    }
}

/// Reads a point that may be given.
pub fn optional_coordinate_pair(args: &Json) -> (r: Result<Option<(Real, Real)>, Fault>)
    ensures
        match (r, opt_point_arg(args@)) {
            (Ok(p), Ok(e)) => p == e,
            (Err(f), Err(e)) => f@ == e,
            _ => false,
        },
{
    let x = match optional_number(args, "x") {
        Ok(x) => x,
        Err(fault) => return Err(fault),
    };
    let y = match optional_number(args, "y") {
        Ok(y) => y,
        Err(fault) => return Err(fault),
    };
    match (x, y) {
        (None, None) => Ok(None),
        (Some(x), Some(y)) => Ok(Some((x, y))),
        _ => Err(Fault::of("x and y must be provided together")),
    }
}

/// Whether no point is given beside an element.
pub open spec fn element_alone(args: JsonView) -> Result<(), FaultView> {
    if args.get("x"@) is Some || args.get("y"@) is Some {
        Err(general("element_index cannot be combined with x/y"@))
    } else {
        Ok(())
    }
}

/// Refuses a point beside an element.
pub fn reject_coordinates_with_element(args: &Json) -> (r: Result<(), Fault>)
    ensures
        agrees(r, element_alone(args@)),
{
    if args.get("x").is_some() || args.get("y").is_some() {
        return Err(Fault::of("element_index cannot be combined with x/y"));
    }
    Ok(())
}

/// A number of pages to scroll by: more than none and at most twenty.
pub open spec fn pages_check(pages: Real) -> Result<Real, FaultView> {
    if pages.finite() && 0 < pages.units() <= int_units(20) {
        Ok(pages)
    } else {
        Err(general("pages must be finite, greater than 0, and at most 20"@))
    }
}

/// Refuses a number of pages that cannot be scrolled by.
pub fn validate_pages(pages: Real) -> (r: Result<Real, Fault>)
    ensures
        agrees(r, pages_check(pages)),
{
    let zero = Real::from_u64(0);
    let most = Real::from_u64(20);
    if !pages.is_finite() || pages.le(zero) || most.lt(pages) {
        return Err(Fault::of("pages must be finite, greater than 0, and at most 20"));
    }
    Ok(pages)
}

/// Whether a text is the name of a mouse button.
pub open spec fn is_button(s: Seq<char>) -> bool {
    ||| s == "left"@
    ||| s == "l"@
    ||| s == "right"@
    ||| s == "r"@
    ||| s == "middle"@
    ||| s == "m"@
}

/// A mouse button that may be given.
pub open spec fn button_check(button: Option<Seq<char>>) -> Result<Option<Seq<char>>, FaultView> {
    match button {
        None => Ok(None),
        Some(s) => if is_button(s) {
            Ok(Some(s))
        } else {
            Err(general("invalid mouse_button "@ + quoted(s)))
        },
    }
}

/// Refuses what is not the name of a mouse button.
pub fn normalize_mouse_button(button: Option<&str>) -> (r: Result<Option<&str>, Fault>)
    ensures
        match (
            r,
            button_check(
                match button {
                    Some(s) => Some(s@),
                    None => None,
                },
            ),
        ) {
            (Ok(Some(s)), Ok(Some(e))) => s@ == e,
            (Ok(None), Ok(None)) => true,
            (Err(f), Err(e)) => f@ == e,
            _ => false,
        },
{
    match button {
        None => Ok(None),
        Some(s) => {
            if same(s, "left") || same(s, "l") || same(s, "right") || same(s, "r") || same(
                s,
                "middle",
            ) || same(s, "m") {
                return Ok(Some(s));
            }
            let mut message = "invalid mouse_button ".to_owned();
            message.append(quote(s).as_str());
            Err(Fault::new(message))
        },
    }
}

/// Whether a button is the left one, which it is where none is given.
pub open spec fn is_left(button: Option<Seq<char>>) -> bool {
    button is None || button == Some("left"@) || button == Some("l"@)
}

/// Tells whether a button is the left one.
pub fn is_left_button(button: &Option<String>) -> (r: bool)
    ensures
        r == is_left(opt_text(*button)),
{
    match button {
        None => true,
        Some(s) => same(s.as_str(), "left") || same(s.as_str(), "l"),
    }
}

/// The direction in which is scrolled.
pub open spec fn direction_check(s: Seq<char>) -> Result<Seq<char>, FaultView> {
    if s == "up"@ || s == "u"@ {
        Ok("up"@)
    } else if s == "down"@ || s == "d"@ {
        Ok("down"@)
    } else if s == "left"@ || s == "l"@ {
        Ok("left"@)
    } else if s == "right"@ || s == "r"@ {
        Ok("right"@)
    } else {
        Err(general("invalid scroll direction: "@ + s))
    }
}

/// Reads the direction in which is scrolled.
pub fn normalize_direction(direction: &str) -> (r: Result<&'static str, Fault>)
    ensures
        match (r, direction_check(direction@)) {
            (Ok(s), Ok(e)) => s@ == e,
            (Err(f), Err(e)) => f@ == e,
            _ => false,
        },
{
    if same(direction, "up") || same(direction, "u") {
        Ok("up")
    } else if same(direction, "down") || same(direction, "d") {
        Ok("down")
    } else if same(direction, "left") || same(direction, "l") {
        Ok("left")
    } else if same(direction, "right") || same(direction, "r") {
        Ok("right")
    } else {
        let mut message = "invalid scroll direction: ".to_owned();
        message.append(direction);
        Err(Fault::new(message))
    }
}

} // verus!
