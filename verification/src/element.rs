//! Acting on an element: finding text in it, its actions, and what is said
//! where it cannot be acted on.

use crate::binary64::Real;
use crate::engine::{DEFAULT_SETTLE_MS, MAX_SETTLE_MS};
use crate::fault::{agrees, general, Fault, FaultView};
use crate::input::opt_text;
use crate::text::{
    chars_of, decimal, eq_ignore_ascii_case, lowercase, occurs_at, quote, quoted, same,
    same_ascii_folded, show_i64, stands_at, texts, to_lowercase,
};
use crate::tree::{escape, escaped, FocusView, FocusedElement};
use vstd::prelude::*;

verus! {

/// Whether a text that stands at a place has the wanted surroundings.
pub open spec fn surrounded(
    s: Seq<char>,
    from: int,
    to: int,
    prefix: Option<Seq<char>>,
    suffix: Option<Seq<char>>,
) -> bool {
    &&& prefix is Some ==> prefix->Some_0.is_suffix_of(s.subrange(0, from))
    &&& suffix is Some ==> suffix->Some_0.is_prefix_of(s.subrange(to, s.len() as int))
}

/// The first place, from `i` on, at which a text stands with the wanted
/// surroundings. The places at which it stands do not overlap: the search goes
/// on behind each of them.
pub open spec fn found_from(
    s: Seq<char>,
    needle: Seq<char>,
    prefix: Option<Seq<char>>,
    suffix: Option<Seq<char>>,
    i: int,
) -> Option<int>
    decreases s.len() - i,
{
    if i < 0 || needle.len() == 0 || i + needle.len() > s.len() {
        None
    } else if !occurs_at(s, needle, i) {
        found_from(s, needle, prefix, suffix, i + 1)
    } else if surrounded(s, i, i + needle.len(), prefix, suffix) {
        Some(i)
    } else {
        found_from(s, needle, prefix, suffix, i + needle.len())
    }
}

/// Where a text stands, from its first character to behind its last, counted
/// in characters; `None` where it does not stand or the numbers are too great.
pub open spec fn text_offsets(
    s: Seq<char>,
    needle: Seq<char>,
    prefix: Option<Seq<char>>,
    suffix: Option<Seq<char>>,
) -> Option<(i32, i32)> {
    match found_from(s, needle, prefix, suffix, 0) {
        Some(i) => if i + needle.len() <= i32::MAX {
            Some((i as i32, (i + needle.len()) as i32))
        } else {
            None
        },
        None => None,
    }
}

/// The contents of a text that may be missing.
pub open spec fn opt_str(s: Option<&str>) -> Option<Seq<char>> {
    match s {
        Some(t) => Some(t@),
        None => None,
    }
}

fn has_surroundings(
    s: &Vec<char>,
    from: usize,
    to: usize,
    prefix: &Option<Vec<char>>,
    suffix: &Option<Vec<char>>,
) -> (r: bool)
    requires
        from <= to <= s@.len(),
    ensures
        r == surrounded(
            s@,
            from as int,
            to as int,
            match *prefix {
                Some(p) => Some(p@),
                None => None,
            },
            match *suffix {
                Some(p) => Some(p@),
                None => None,
            },
        ),
{
    if let Some(p) = prefix {
        let ghost before = s@.subrange(0, from as int);
        let fits = p.len() <= from && stands_at(s, p, from - p.len());
        proof {
            if p@.len() <= from {
                assert(s@.subrange(from - p@.len(), from as int) =~= before.subrange(
                    from - p@.len(),
                    from as int,
                ));
                assert(p@.is_suffix_of(before) <==> p@ =~= before.subrange(
                    from - p@.len(),
                    from as int,
                ));
            }
        }
        if !fits {
            return false;
        }
    }
    if let Some(p) = suffix {
        let ghost behind = s@.subrange(to as int, s@.len() as int);
        let fits = stands_at(s, p, to);
        proof {
            if to + p@.len() <= s@.len() {
                assert(s@.subrange(to as int, to + p@.len()) =~= behind.subrange(
                    0,
                    p@.len() as int,
                ));
                assert(p@.is_prefix_of(behind) <==> p@ =~= behind.subrange(0, p@.len() as int));
            }
        }
        if !fits {
            return false;
        }
    }
    true
}

fn opt_chars(s: Option<&str>) -> (r: Option<Vec<char>>)
    ensures
        match (r, s) {
            (Some(v), Some(t)) => v@ == t@,
            (None, None) => true,
            _ => false,
        },
{
    match s {
        Some(t) => Some(chars_of(t)),
        None => None,
    }
}

/// Finds where a text stands with the wanted surroundings.
pub fn find_text_offsets(
    haystack: &str,
    needle: &str,
    prefix: Option<&str>,
    suffix: Option<&str>,
) -> (r: Option<(i32, i32)>)
    ensures
        r == text_offsets(haystack@, needle@, opt_str(prefix), opt_str(suffix)),
{
    let s = chars_of(haystack);
    let wanted = chars_of(needle);
    let before = opt_chars(prefix);
    let behind = opt_chars(suffix);
    if wanted.len() == 0 {
        return None;
    }
    let mut i: usize = 0;
    while i <= s.len() && wanted.len() <= s.len() - i
        invariant
            s@ == haystack@,
            wanted@ == needle@,
            wanted@.len() > 0,
            i <= s@.len() + wanted@.len(),
            s@.len() == s.len(),
            match (before, prefix) {
                (Some(v), Some(t)) => v@ == t@,
                (None, None) => true,
                _ => false,
            },
            match (behind, suffix) {
                (Some(v), Some(t)) => v@ == t@,
                (None, None) => true,
                _ => false,
            },
            found_from(haystack@, needle@, opt_str(prefix), opt_str(suffix), 0) == found_from(
                haystack@,
                needle@,
                opt_str(prefix),
                opt_str(suffix),
                i as int,
            ),
        decreases s@.len() + wanted@.len() - i,
    {
        if !stands_at(&s, &wanted, i) {
            i += 1;
            continue;
        }
        let to: usize = i + wanted.len();
        if has_surroundings(&s, i, to, &before, &behind) {
            if to as u64 > i32::MAX as u64 {
                return None;
            }
            return Some((i as i32, to as i32));
        }
        i = to;
    }
    None
}

proof fn lemma_found_from(
    s: Seq<char>,
    needle: Seq<char>,
    prefix: Option<Seq<char>>,
    suffix: Option<Seq<char>>,
    i: int,
)
    ensures
        match found_from(s, needle, prefix, suffix, i) {
            Some(k) => i <= k && occurs_at(s, needle, k) && surrounded(
                s,
                k,
                k + needle.len(),
                prefix,
                suffix,
            ),
            None => true,
        },
    decreases s.len() - i,
{
    if 0 <= i && needle.len() > 0 && i + needle.len() <= s.len() {
        lemma_found_from(s, needle, prefix, suffix, i + 1);
        lemma_found_from(s, needle, prefix, suffix, i + needle.len());
    }
}

/// The offsets that are found span exactly the wanted text: the characters from
/// the first offset to the second are that text, those right before it are the
/// prefix, and those right behind it the suffix, where they are asked for.
pub proof fn law_offsets_span_the_text(
    s: Seq<char>,
    needle: Seq<char>,
    prefix: Option<Seq<char>>,
    suffix: Option<Seq<char>>,
)
    requires
        text_offsets(s, needle, prefix, suffix) is Some,
    ensures
        ({
            let (from, to) = text_offsets(s, needle, prefix, suffix)->Some_0;
            &&& 0 <= from < to <= s.len()
            &&& s.subrange(from as int, to as int) == needle
            &&& surrounded(s, from as int, to as int, prefix, suffix)
            &&& prefix matches Some(before) ==> before.len() <= from && s.subrange(
                from - before.len(),
                from as int,
            ) == before
            &&& suffix matches Some(behind) ==> to + behind.len() <= s.len() && s.subrange(
                to as int,
                to + behind.len(),
            ) == behind
        }),
{
    lemma_found_from(s, needle, prefix, suffix, 0);
    let (from, to) = text_offsets(s, needle, prefix, suffix)->Some_0;
    if let Some(before) = prefix {
        let head = s.subrange(0, from as int);
        assert(head.subrange(head.len() - before.len(), head.len() as int) =~= s.subrange(
            from - before.len(),
            from as int,
        ));
        assert(before =~= head.subrange(head.len() - before.len(), head.len() as int));
    }
    if let Some(behind) = suffix {
        let tail = s.subrange(to as int, s.len() as int);
        assert(tail.subrange(0, behind.len() as int) =~= s.subrange(
            to as int,
            to + behind.len(),
        ));
        assert(behind =~= tail.subrange(0, behind.len() as int));
    }
}

/// Whether a text stands at a place with the characters right before it and
/// right behind it that are asked for.
pub open spec fn fits_at(
    s: Seq<char>,
    needle: Seq<char>,
    prefix: Option<Seq<char>>,
    suffix: Option<Seq<char>>,
    k: int,
) -> bool {
    let to = k + needle.len();
    &&& 0 <= k && to <= s.len() && s.subrange(k, to) == needle
    &&& prefix matches Some(before) ==> before.len() <= k && s.subrange(k - before.len(), k)
        == before
    &&& suffix matches Some(behind) ==> to + behind.len() <= s.len() && s.subrange(
        to,
        to + behind.len(),
    ) == behind
}

/// Whether a text stands at a place.
pub open spec fn matches_at(s: Seq<char>, needle: Seq<char>, k: int) -> bool {
    0 <= k && k + needle.len() <= s.len() && s.subrange(k, k + needle.len()) == needle
}

/// Whether a place lies before the match of number `j`, or behind the last one
/// where there is none of that number, and not before the end of the match
/// before it.
pub open spec fn in_gap(s: Seq<char>, needle: Seq<char>, places: Seq<int>, j: int, k: int) -> bool {
    &&& 0 <= j <= places.len()
    &&& 0 <= k <= s.len()
    &&& j > 0 ==> places[j - 1] + needle.len() <= k
    &&& j < places.len() ==> k < places[j]
}

/// Whether these are the places of a text, from the left to the right and
/// without overlapping, each the first behind the one before.
pub open spec fn are_matches(s: Seq<char>, needle: Seq<char>, places: Seq<int>) -> bool {
    &&& forall|j: int| 0 <= j < places.len() ==> matches_at(s, needle, #[trigger] places[j])
    &&& forall|i: int, j: int|
        0 <= i < j < places.len() ==> #[trigger] places[i] + needle.len() <= #[trigger] places[j]
    &&& forall|j: int, k: int|
        #[trigger] in_gap(s, needle, places, j, k) ==> !matches_at(s, needle, k)
}

proof fn lemma_fits_is_surrounded(
    s: Seq<char>,
    needle: Seq<char>,
    prefix: Option<Seq<char>>,
    suffix: Option<Seq<char>>,
    k: int,
)
    requires
        occurs_at(s, needle, k),
    ensures
        fits_at(s, needle, prefix, suffix, k) == surrounded(
            s,
            k,
            k + needle.len(),
            prefix,
            suffix,
        ),
{
    let to = k + needle.len();
    if let Some(before) = prefix {
        let head = s.subrange(0, k);
        if before.len() <= k {
            assert(head.subrange(head.len() - before.len(), head.len() as int) =~= s.subrange(
                k - before.len(),
                k,
            ));
            assert(before.is_suffix_of(head) <==> before =~= head.subrange(
                head.len() - before.len(),
                head.len() as int,
            ));
        }
    }
    if let Some(behind) = suffix {
        let tail = s.subrange(to, s.len() as int);
        if to + behind.len() <= s.len() {
            assert(tail.subrange(0, behind.len() as int) =~= s.subrange(to, to + behind.len()));
            assert(behind.is_prefix_of(tail) <==> behind =~= tail.subrange(
                0,
                behind.len() as int,
            ));
        }
    }
}

/// The search from a place before the match of number `j` finds the first that
/// fits of the matches from that one on.
proof fn lemma_first_match(
    s: Seq<char>,
    needle: Seq<char>,
    prefix: Option<Seq<char>>,
    suffix: Option<Seq<char>>,
    places: Seq<int>,
    j: int,
    i: int,
) -> (m: int)
    requires
        needle.len() > 0,
        are_matches(s, needle, places),
        0 <= j <= places.len(),
        0 <= i,
        j > 0 ==> places[j - 1] + needle.len() <= i,
        j < places.len() ==> i <= places[j],
    ensures
        j <= m <= places.len(),
        m < places.len() ==> fits_at(s, needle, prefix, suffix, places[m]),
        found_from(s, needle, prefix, suffix, i) == (if m < places.len() {
            Some(places[m])
        } else {
            None
        }),
        forall|l: int|
            j <= l < m ==> !fits_at(s, needle, prefix, suffix, #[trigger] places[l]),
    decreases s.len() - i,
{
    if j < places.len() {
        assert(matches_at(s, needle, places[j]));
    }
    if i + needle.len() > s.len() {
        j
    } else if j < places.len() && i == places[j] {
        lemma_fits_is_surrounded(s, needle, prefix, suffix, i);
        if fits_at(s, needle, prefix, suffix, i) {
            j
        } else {
            if j + 1 < places.len() {
                assert(places[j] + needle.len() <= places[j + 1]);
            }
            let m = lemma_first_match(s, needle, prefix, suffix, places, j + 1, i + needle.len());
            m
        }
    } else {
        assert(in_gap(s, needle, places, j, i));
        assert(!occurs_at(s, needle, i));
        let m = lemma_first_match(s, needle, prefix, suffix, places, j, i + 1);
        m
    }
}

/// What is found is the first match: of the places of the text, taken from the
/// left to the right without overlapping, it is the first that has what is
/// asked for before and behind it. Nothing is found only where no such place
/// has it, or where the numbers of the first one are too great.
pub proof fn law_the_first_match_is_found(
    s: Seq<char>,
    needle: Seq<char>,
    prefix: Option<Seq<char>>,
    suffix: Option<Seq<char>>,
    places: Seq<int>,
    m: int,
)
    requires
        needle.len() > 0,
        are_matches(s, needle, places),
        0 <= m <= places.len(),
        forall|l: int| 0 <= l < m ==> !fits_at(s, needle, prefix, suffix, #[trigger] places[l]),
        m < places.len() ==> fits_at(s, needle, prefix, suffix, places[m]),
    ensures
        text_offsets(s, needle, prefix, suffix) == (if m < places.len() && places[m] + needle.len()
            <= i32::MAX {
            Some((places[m] as i32, (places[m] + needle.len()) as i32))
        } else {
            None
        }),
{
    let found = lemma_first_match(s, needle, prefix, suffix, places, 0, 0);
    if found < m {
        assert(!fits_at(s, needle, prefix, suffix, places[found]));
    } else if m < found {
        assert(!fits_at(s, needle, prefix, suffix, places[m]));
    }
}

/// Without a prefix and a suffix, a text is found wherever it stands, as long
/// as the numbers are not too great, and no place before the one that is found
/// has it, overlapping or not.
pub proof fn law_a_text_is_found_where_it_first_stands(s: Seq<char>, needle: Seq<char>, k: int)
    requires
        needle.len() > 0,
        0 <= k,
        k + needle.len() <= s.len(),
        k + needle.len() <= i32::MAX,
        s.subrange(k, k + needle.len()) == needle,
    ensures
        text_offsets(s, needle, None, None) is Some,
        text_offsets(s, needle, None, None)->Some_0.0 <= k,
{
    lemma_found_no_later(s, needle, 0, k);
    lemma_found_from(s, needle, None, None, 0);
}

proof fn lemma_found_no_later(s: Seq<char>, needle: Seq<char>, i: int, k: int)
    requires
        needle.len() > 0,
        0 <= i <= k,
        occurs_at(s, needle, k),
    ensures
        found_from(s, needle, None, None, i) is Some,
        found_from(s, needle, None, None, i)->Some_0 <= k,
    decreases k - i,
{
    if !occurs_at(s, needle, i) {
        lemma_found_no_later(s, needle, i + 1, k);
    }
}

/// The places of a text can always be listed.
pub proof fn law_matches_can_be_listed(s: Seq<char>, needle: Seq<char>)
    requires
        needle.len() > 0,
    ensures
        exists|places: Seq<int>| are_matches(s, needle, places),
{
    let places = matches_from(s, needle, 0);
    lemma_matches_from(s, needle, 0);
    assert(are_matches(s, needle, places));
}

spec fn matches_from(s: Seq<char>, needle: Seq<char>, i: int) -> Seq<int>
    decreases s.len() - i,
{
    if i < 0 || needle.len() == 0 || i + needle.len() > s.len() {
        Seq::empty()
    } else if matches_at(s, needle, i) {
        seq![i] + matches_from(s, needle, i + needle.len())
    } else {
        matches_from(s, needle, i + 1)
    }
}

spec fn matches_listed(s: Seq<char>, needle: Seq<char>, places: Seq<int>, i: int) -> bool {
    &&& forall|j: int|
        0 <= j < places.len() ==> i <= #[trigger] places[j] && matches_at(s, needle, places[j])
    &&& forall|a: int, b: int|
        0 <= a < b < places.len() ==> #[trigger] places[a] + needle.len() <= #[trigger] places[b]
    &&& forall|j: int, k: int|
        i <= k && #[trigger] in_gap(s, needle, places, j, k) ==> !matches_at(s, needle, k)
}

proof fn lemma_listed_behind(s: Seq<char>, needle: Seq<char>, rest: Seq<int>, i: int)
    requires
        needle.len() > 0,
        0 <= i,
        matches_at(s, needle, i),
        matches_listed(s, needle, rest, i + needle.len()),
    ensures
        matches_listed(s, needle, seq![i] + rest, i),
{
    let places = seq![i] + rest;
    assert(places[0] == i);
    assert(forall|j: int| 1 <= j < places.len() ==> #[trigger] places[j] == rest[j - 1]);
    assert forall|a: int, b: int| 0 <= a < b < places.len() implies #[trigger] places[a]
        + needle.len() <= #[trigger] places[b] by {
        assert(places[b] == rest[b - 1]);
        if a > 0 {
            assert(places[a] == rest[a - 1]);
        }
    }
    assert forall|j: int, k: int| i <= k && #[trigger] in_gap(s, needle, places, j, k) implies
        !matches_at(s, needle, k) by {
        if j > 0 {
            if j > 1 {
                assert(places[j - 1] == rest[j - 2]);
            }
            if j < places.len() {
                assert(places[j] == rest[j - 1]);
            }
            assert(i + needle.len() <= k);
            assert(in_gap(s, needle, rest, j - 1, k));
        }
    }
}

proof fn lemma_listed_later(s: Seq<char>, needle: Seq<char>, places: Seq<int>, i: int)
    requires
        !matches_at(s, needle, i),
        matches_listed(s, needle, places, i + 1),
    ensures
        matches_listed(s, needle, places, i),
{
    assert forall|j: int, k: int| i <= k && #[trigger] in_gap(s, needle, places, j, k) implies
        !matches_at(s, needle, k) by {}
}

proof fn lemma_matches_from(s: Seq<char>, needle: Seq<char>, i: int)
    requires
        needle.len() > 0,
        0 <= i,
    ensures
        matches_listed(s, needle, matches_from(s, needle, i), i),
    decreases s.len() - i,
{
    if i + needle.len() <= s.len() {
        if matches_at(s, needle, i) {
            lemma_matches_from(s, needle, i + needle.len());
            lemma_listed_behind(s, needle, matches_from(s, needle, i + needle.len()), i);
        } else {
            lemma_matches_from(s, needle, i + 1);
            lemma_listed_later(s, needle, matches_from(s, needle, i + 1), i);
        }
    }
}

/// What is done to a text.
#[derive(Clone, Copy, Debug, PartialEq, Eq, Structural)]
pub enum Selection {
    /// Select from one offset to another.
    Span(i32, i32),
    /// Put the caret at an offset.
    Caret(i32),
}

impl View for Selection {
    type V = Selection;

    open spec fn view(&self) -> Selection {
        *self
    }
}

/// What is done to select a text in an element.
pub open spec fn selection(
    full: Seq<char>,
    text: Seq<char>,
    prefix: Option<Seq<char>>,
    suffix: Option<Seq<char>>,
    kind: Option<Seq<char>>,
    element_index: int,
) -> Result<Selection, FaultView> {
    let kind = match kind {
        Some(k) => k,
        None => "text"@,
    };
    match text_offsets(full, text, prefix, suffix) {
        None => Err(
            general("text "@ + quoted(text) + " not found in element "@ + decimal(element_index)),
        ),
        Some((from, to)) => if kind == "text"@ {
            Ok(Selection::Span(from, to))
        } else if kind == "cursor_before"@ {
            Ok(Selection::Caret(from))
        } else if kind == "cursor_after"@ {
            Ok(Selection::Caret(to))
        } else {
            Err(
                general(
                    "invalid selection_type "@ + quoted(kind)
                        + "; expected text, cursor_before, or cursor_after"@,
                ),
            )
        },
    }
}

/// Decides what is done to select a text in an element.
pub fn plan_selection(
    full_text: &str,
    text: &str,
    prefix: Option<&str>,
    suffix: Option<&str>,
    selection_type: Option<&str>,
    element_index: i64,
) -> (r: Result<Selection, Fault>)
    ensures
        agrees(
            r,
            selection(
                full_text@,
                text@,
                opt_str(prefix),
                opt_str(suffix),
                opt_str(selection_type),
                element_index as int,
            ),
        ),
{
    let (from, to) = match find_text_offsets(full_text, text, prefix, suffix) {
        Some(span) => span,
        None => {
            let mut message = "text ".to_owned();
            message.append(quote(text).as_str());
            message.append(" not found in element ");
            message.append(show_i64(element_index).as_str());
            return Err(Fault::new(message));
        },
    };
    let kind = match selection_type {
        Some(kind) => kind,
        None => "text",
    };
    if same(kind, "text") {
        Ok(Selection::Span(from, to))
    } else if same(kind, "cursor_before") {
        Ok(Selection::Caret(from))
    } else if same(kind, "cursor_after") {
        Ok(Selection::Caret(to))
    } else {
        let mut message = "invalid selection_type ".to_owned();
        message.append(quote(kind).as_str());
        message.append("; expected text, cursor_before, or cursor_after");
        Err(Fault::new(message))
    }
}

/// Whether the element took what was done to its text.
pub open spec fn selection_check(done: Selection, changed: bool) -> Result<(), FaultView> {
    if changed {
        Ok(())
    } else {
        match done {
            Selection::Span(_, _) => Err(
                general("AT-SPI Text rejected the requested selection"@),
            ),
            Selection::Caret(_) => Err(
                general("AT-SPI Text rejected the requested caret position"@),
            ),
        }
    }
}

/// The call by which a text is changed.
#[derive(Clone, Copy, Debug, PartialEq, Eq, Structural)]
pub enum SelectionCall {
    /// Give the first selection other ends.
    Replace(i32, i32),
    /// Make a selection.
    Insert(i32, i32),
    /// Put the caret at an offset.
    Caret(i32),
}

/// Decides by which call a text is changed, given how many selections it has,
/// where that could be told: one that is there already is given other ends.
pub fn selection_call(wanted: Selection, present: Option<i32>) -> (r: SelectionCall)
    ensures
        r == (match wanted {
            Selection::Span(start, end) => if present is Some && present->Some_0 > 0 {
                SelectionCall::Replace(start, end)
            } else {
                SelectionCall::Insert(start, end)
            },
            Selection::Caret(offset) => SelectionCall::Caret(offset),
        }),
{
    match wanted {
        Selection::Span(start, end) => match present {
            Some(count) => if count > 0 {
                SelectionCall::Replace(start, end)
            } else {
                SelectionCall::Insert(start, end)
            },
            None => SelectionCall::Insert(start, end),
        },
        Selection::Caret(offset) => SelectionCall::Caret(offset),
    }
}

/// Fails where the element did not take what was done to its text.
pub fn check_selection(done: Selection, changed: bool) -> (r: Result<(), Fault>)
    ensures
        agrees(r, selection_check(done, changed)),
{
    if changed {
        return Ok(());
    }
    match done {
        Selection::Span(_, _) => Err(Fault::of("AT-SPI Text rejected the requested selection")),
        Selection::Caret(_) => Err(
            Fault::of("AT-SPI Text rejected the requested caret position"),
        ),
    }
}

/// The place of the first action with a name, regardless of the case of ASCII
/// letters.
pub open spec fn action_place(names: Seq<Seq<char>>, wanted: Seq<char>) -> Option<int>
    decreases names.len(),
{
    if names.len() == 0 {
        None
    } else {
        match action_place(names.drop_last(), wanted) {
            Some(i) => Some(i),
            None => if same_ascii_folded(names.last(), wanted) {
                Some(names.len() - 1)
            } else {
                None
            },
        }
    }
}

/// The number of the action with a name.
pub open spec fn action_number(names: Seq<Seq<char>>, wanted: Seq<char>, element_index: int) -> Result<
    i32,
    FaultView,
> {
    match action_place(names, wanted) {
        None => Err(
            general(
                "action "@ + quoted(wanted) + " is not exposed by element "@ + decimal(
                    element_index,
                ),
            ),
        ),
        Some(i) => if i > i32::MAX {
            Err(
                general(
                    "AT-SPI action index overflow: out of range integral type conversion attempted"@,
                ),
            )
        } else {
            Ok(i as i32)
        },
    }
}

proof fn lemma_action_place_early(names: Seq<Seq<char>>, wanted: Seq<char>, i: int)
    requires
        0 <= i <= names.len(),
        action_place(names.take(i), wanted) is Some,
    ensures
        action_place(names, wanted) == action_place(names.take(i), wanted),
    decreases names.len(),
{
    if i < names.len() {
        assert(names.drop_last().take(i) =~= names.take(i));
        lemma_action_place_early(names.drop_last(), wanted, i);
    } else {
        assert(names.take(i) =~= names);
    }
}

/// Finds the number of the action with a name.
pub fn find_action(names: &Vec<String>, wanted: &str, element_index: i64) -> (r: Result<i32, Fault>)
    ensures
        agrees(r, action_number(texts(names@), wanted@, element_index as int)),
{
    let ghost all = texts(names@);
    let mut i: usize = 0;
    while i < names.len()
        invariant
            i <= names@.len(),
            all == texts(names@),
            action_place(all.take(i as int), wanted@) is None,
        decreases names@.len() - i,
    {
        assert(all.take(i + 1).drop_last() =~= all.take(i as int));
        if eq_ignore_ascii_case(names[i].as_str(), wanted) {
            proof {
                lemma_action_place_early(all, wanted@, i + 1);
            }
            if i as u64 > i32::MAX as u64 {
                return Err(
                    Fault::of(
                        "AT-SPI action index overflow: out of range integral type conversion attempted",
                    ),
                );
            }
            return Ok(i as i32);
        }
        i += 1;
    }
    assert(all.take(i as int) =~= all);
    let mut message = "action ".to_owned();
    message.append(quote(wanted).as_str());
    message.append(" is not exposed by element ");
    message.append(show_i64(element_index).as_str());
    Err(Fault::new(message))
}

/// Fails where an action reported that it failed.
pub fn check_action(wanted: &str, done: bool) -> (r: Result<(), Fault>)
    ensures
        agrees(
            r,
            if done {
                Ok(())
            } else {
                Err(general("AT-SPI action "@ + quoted(wanted@) + " reported failure"@))
            },
        ),
{
    if done {
        return Ok(());
    }
    let mut message = "AT-SPI action ".to_owned();
    message.append(quote(wanted).as_str());
    message.append(" reported failure");
    Err(Fault::new(message))
}

/// Whether an action, in lower case, is what a click does.
pub open spec fn clicks_by_name(lowered: Seq<char>) -> bool {
    ||| lowered == "click"@
    ||| lowered == "press"@
    ||| lowered == "activate"@
    ||| lowered == "jump"@
    ||| lowered == "open"@
    ||| lowered == "toggle"@
}

/// Tells whether an action, in lower case, is what a click does.
pub fn is_click_action(lowered: &str) -> (r: bool)
    ensures
        r == clicks_by_name(lowered@),
{
    same(lowered, "click") || same(lowered, "press") || same(lowered, "activate") || same(
        lowered,
        "jump",
    ) || same(lowered, "open") || same(lowered, "toggle")
}

/// The first action that is what a click does.
pub open spec fn click_action_of(names: Seq<Seq<char>>) -> Option<Seq<char>>
    decreases names.len(),
{
    if names.len() == 0 {
        None
    } else {
        match click_action_of(names.drop_last()) {
            Some(n) => Some(n),
            None => if clicks_by_name(lowercase(names.last())) {
                Some(names.last())
            } else {
                None
            },
        }
    }
}

/// Finds the first action that is what a click does.
pub fn click_action(names: &Vec<String>) -> (r: Option<String>)
    ensures
        opt_text(r) == click_action_of(texts(names@)),
{
    let ghost all = texts(names@);
    let mut i: usize = names.len();
    let mut at: Option<usize> = None;
    assert(all.take(i as int) =~= all);
    while i > 0
        invariant
            i <= names@.len(),
            all == texts(names@),
            match at {
                Some(k) => k < names@.len(),
                None => true,
            },
            click_action_of(all) == (match click_action_of(all.take(i as int)) {
                Some(n) => Some(n),
                None => match at {
                    Some(k) => Some(all[k as int]),
                    None => None,
                },
            }),
        decreases i,
    {
        assert(all.take(i as int).drop_last() =~= all.take(i - 1));
        i -= 1;
        if is_click_action(to_lowercase(names[i].as_str()).as_str()) {
            at = Some(i);
        }
    }
    match at {
        Some(k) => Some(names[k].clone()),
        None => None,
    }
}

/// What is said of an element that lacks something.
pub open spec fn lacks(element_index: int, what: Seq<char>) -> FaultView {
    general("element "@ + decimal(element_index) + what)
}

fn element_fault(element_index: i64, what: &str) -> (r: Fault)
    ensures
        r@ == lacks(element_index as int, what@),
{
    let mut message = "element ".to_owned();
    message.append(show_i64(element_index).as_str());
    message.append(what);
    Fault::new(message)
}

/// Fails for an element that does not lie on the screen.
pub fn require_component(element_index: i64, has: bool) -> (r: Result<(), Fault>)
    ensures
        agrees(
            r,
            if has {
                Ok(())
            } else {
                Err(lacks(element_index as int, " has no screen bounds"@))
            },
        ),
{
    if has {
        return Ok(());
    }
    Err(element_fault(element_index, " has no screen bounds"))
}

/// Fails for an element whose text cannot be edited.
pub fn require_editable(element_index: i64, has: bool) -> (r: Result<(), Fault>)
    ensures
        agrees(
            r,
            if has {
                Ok(())
            } else {
                Err(lacks(element_index as int, " does not implement AT-SPI EditableText"@))
            },
        ),
{
    if has {
        return Ok(());
    }
    Err(element_fault(element_index, " does not implement AT-SPI EditableText"))
}

/// Fails for an element that has no text.
pub fn require_text(element_index: i64, has: bool) -> (r: Result<(), Fault>)
    ensures
        agrees(
            r,
            if has {
                Ok(())
            } else {
                Err(lacks(element_index as int, " does not implement AT-SPI Text"@))
            },
        ),
{
    if has {
        return Ok(());
    }
    Err(element_fault(element_index, " does not implement AT-SPI Text"))
}

/// Fails where an element did not take a new value.
pub fn check_value_taken(taken: bool) -> (r: Result<(), Fault>)
    ensures
        agrees(
            r,
            if taken {
                Ok(())
            } else {
                Err(general("AT-SPI EditableText rejected the new value"@))
            },
        ),
{
    if taken {
        return Ok(());
    }
    Err(Fault::of("AT-SPI EditableText rejected the new value"))
}

/// Whether the place of an element on the screen has an area.
pub open spec fn extents_check(element_index: int, x: int, y: int, width: int, height: int) -> Result<
    (),
    FaultView,
> {
    if width <= 0 || height <= 0 {
        Err(
            general(
                "element "@ + decimal(element_index) + " has invalid screen bounds ("@ + decimal(x)
                    + ","@ + decimal(y) + ","@ + decimal(width) + ","@ + decimal(height) + ")"@,
            ),
        )
    } else {
        Ok(())
    }
}

/// Fails for an element whose place on the screen has no area.
pub fn check_extents(element_index: i64, x: i32, y: i32, width: i32, height: i32) -> (r: Result<
    (),
    Fault,
>)
    ensures
        agrees(
            r,
            extents_check(
                element_index as int,
                x as int,
                y as int,
                width as int,
                height as int,
            ),
        ),
{
    if width <= 0 || height <= 0 {
        let mut message = "element ".to_owned();
        message.append(show_i64(element_index).as_str());
        message.append(" has invalid screen bounds (");
        message.append(show_i64(x as i64).as_str());
        message.append(",");
        message.append(show_i64(y as i64).as_str());
        message.append(",");
        message.append(show_i64(width as i64).as_str());
        message.append(",");
        message.append(show_i64(height as i64).as_str());
        message.append(")");
        return Err(Fault::new(message));
    }
    Ok(())
}

/// Whether the coordinates of a point are numbers.
pub open spec fn point_check(x: Real, y: Real) -> Result<(), FaultView> {
    if x.finite() && y.finite() {
        Ok(())
    } else {
        Err(general("screenshot-relative coordinates must be finite"@))
    }
}

/// Fails for a point whose coordinates are not numbers.
pub fn validate_finite_point(x: Real, y: Real) -> (r: Result<(), Fault>)
    ensures
        agrees(r, point_check(x, y)),
{
    if !x.is_finite() || !y.is_finite() {
        return Err(Fault::of("screenshot-relative coordinates must be finite"));
    }
    Ok(())
}

/// Whether a point lies in a picture of the given size.
pub open spec fn in_picture(x: Real, y: Real, width: u32, height: u32) -> bool {
    &&& 0 <= x.units() < crate::binary64::int_units(width as int)
    &&& 0 <= y.units() < crate::binary64::int_units(height as int)
}

/// Tells whether a point, whose coordinates are numbers, lies in a picture of
/// the given size.
pub fn is_in_picture(x: Real, y: Real, width: u32, height: u32) -> (r: bool)
    requires
        x.finite(),
        y.finite(),
    ensures
        r == in_picture(x, y, width, height),
{
    let zero = Real::from_u64(0);
    zero.le(x) && x.lt(Real::from_u64(width as u64)) && zero.le(y) && y.lt(
        Real::from_u64(height as u64),
    )
}

/// How long to wait for an application to draw itself.
pub open spec fn settle(asked: Option<u64>) -> Result<u64, FaultView> {
    let ms = match asked {
        Some(ms) => ms,
        None => DEFAULT_SETTLE_MS,
    };
    if ms > MAX_SETTLE_MS {
        Err(general("settle_ms must be at most 2000"@))
    } else {
        Ok(ms)
    }
}

/// Decides how long to wait for an application to draw itself.
pub fn settle_time(asked: Option<u64>) -> (r: Result<u64, Fault>)
    ensures
        agrees(r, settle(asked)),
{
    let ms = match asked {
        Some(ms) => ms,
        None => DEFAULT_SETTLE_MS,
    };
    if ms > MAX_SETTLE_MS {
        return Err(Fault::of("settle_ms must be at most 2000"));
    }
    Ok(ms)
}

/// What is said of a tree that gives nothing to work with.
pub open spec fn warning_of(app: Seq<char>, actionable: bool) -> Option<Seq<char>> {
    if actionable {
        None
    } else {
        Some(
            "PID-correlated AT-SPI tree for "@ + quoted(app)
                + " has no bounded or interactive controls; fully quit and relaunch this Electron app with accessibility enabled (ACCESSIBILITY_ENABLED=1). Screenshot-relative coordinate actions remain available."@,
        )
    }
}

/// Says what is to be said of a tree that gives nothing to work with.
pub fn accessibility_warning(app: &str, actionable: bool) -> (r: Option<String>)
    ensures
        opt_text(r) == warning_of(app@, actionable),
{
    if actionable {
        return None;
    }
    let mut message = "PID-correlated AT-SPI tree for ".to_owned();
    message.append(quote(app).as_str());
    message.append(
        " has no bounded or interactive controls; fully quit and relaunch this Electron app with accessibility enabled (ACCESSIBILITY_ENABLED=1). Screenshot-relative coordinate actions remain available.",
    );
    Some(message)
}

/// The text of a captured state: a warning where there is one, the focus, and
/// the tree.
pub open spec fn state_text(
    tree: Seq<char>,
    focused: Option<FocusView>,
    warning: Option<Seq<char>>,
) -> Seq<char> {
    let with_focus = match focused {
        Some(f) => "focus: ["@ + decimal(f.index) + "] "@ + f.role + " \""@ + escaped(f.name)
            + "\"\n"@ + tree,
        None => "focus: none reported\n"@ + tree,
    };
    match warning {
        Some(w) => "accessibility-warning: "@ + w + "\n"@ + with_focus,
        None => with_focus,
    }
}

/// The view of an element that may have the focus.
pub open spec fn opt_focus(f: Option<FocusedElement>) -> Option<FocusView> {
    match f {
        Some(e) => Some(e@),
        None => None,
    }
}

/// Writes the text of a captured state.
pub fn describe_state(tree: &str, focused: &Option<FocusedElement>, warning: &Option<String>) -> (r:
    String)
    ensures
        r@ == state_text(tree@, opt_focus(*focused), opt_text(*warning)),
{
    let mut text = String::new();
    match focused {
        Some(f) => {
            text = "focus: [".to_owned();
            text.append(show_i64(f.index).as_str());
            text.append("] ");
            text.append(f.role.as_str());
            text.append(" \"");
            text.append(escape(f.name.as_str()).as_str());
            text.append("\"\n");
            text.append(tree);
        },
        None => {
            text = "focus: none reported\n".to_owned();
            text.append(tree);
        },
    }
    match warning {
        Some(w) => {
            let mut all = "accessibility-warning: ".to_owned();
            all.append(w.as_str());
            all.append("\n");
            all.append(text.as_str());
            all
        },
        None => text,
    }
}

/// What is done to a text is what is asked for: the text that was found is
/// selected, or the caret is put right before or right behind it. Nothing is
/// done where it was not found or something else is asked for.
pub proof fn law_selections_are_as_asked_for(
    full: Seq<char>,
    text: Seq<char>,
    prefix: Option<Seq<char>>,
    suffix: Option<Seq<char>>,
    kind: Option<Seq<char>>,
    element_index: int,
)
    ensures
        match (
            selection(full, text, prefix, suffix, kind, element_index),
            text_offsets(full, text, prefix, suffix),
        ) {
            (Ok(Selection::Span(a, b)), Some((from, to))) => a == from && b == to && (kind is None
                || kind == Some("text"@)),
            (Ok(Selection::Caret(c)), Some((from, to))) => c == from && kind == Some(
                "cursor_before"@,
            ) || c == to && kind == Some("cursor_after"@),
            (Err(_), Some(_)) => !(kind is None || kind == Some("text"@) || kind == Some(
                "cursor_before"@,
            ) || kind == Some("cursor_after"@)),
            (Err(_), None) => true,
            _ => false,
        },
{
}

proof fn lemma_action_place(names: Seq<Seq<char>>, wanted: Seq<char>)
    ensures
        match action_place(names, wanted) {
            Some(i) => 0 <= i < names.len() && same_ascii_folded(names[i], wanted) && forall|j: int|
                0 <= j < i ==> !same_ascii_folded(#[trigger] names[j], wanted),
            None => forall|j: int|
                0 <= j < names.len() ==> !same_ascii_folded(#[trigger] names[j], wanted),
        },
    decreases names.len(),
{
    if names.len() > 0 {
        let rest = names.drop_last();
        lemma_action_place(rest, wanted);
        assert(forall|j: int| 0 <= j < rest.len() ==> #[trigger] names[j] == rest[j]);
        assert(names[names.len() - 1] == names.last());
    }
}

/// The action that is done is the first that bears the name, whatever the case
/// of its letters; a name that no action bears is refused.
pub proof fn law_the_first_action_of_the_name_is_done(
    names: Seq<Seq<char>>,
    wanted: Seq<char>,
    element_index: int,
)
    ensures
        match action_number(names, wanted, element_index) {
            Ok(i) => 0 <= i < names.len() && same_ascii_folded(names[i as int], wanted) && forall|
                j: int,
            |
                0 <= j < i ==> !same_ascii_folded(#[trigger] names[j], wanted),
            Err(_) => forall|j: int|
                0 <= j < names.len() && j <= i32::MAX ==> !same_ascii_folded(
                    #[trigger] names[j],
                    wanted,
                ),
        },
{
    lemma_action_place(names, wanted);
}

/// Whether an action does what a click does: it is called, in lower case, by
/// one of six names.
pub open spec fn does_a_click(name: Seq<char>) -> bool {
    let n = lowercase(name);
    n == "click"@ || n == "press"@ || n == "activate"@ || n == "jump"@ || n == "open"@ || n
        == "toggle"@
}

/// The action that a click does is the first of the element's own that does
/// what a click does; without such an action there is none.
pub proof fn law_clicks_do_the_first_fitting_action(names: Seq<Seq<char>>) -> (i: int)
    ensures
        0 <= i <= names.len(),
        forall|j: int| 0 <= j < i ==> !does_a_click(#[trigger] names[j]),
        i < names.len() ==> does_a_click(names[i]),
        click_action_of(names) == (if i < names.len() {
            Some(names[i])
        } else {
            None
        }),
    decreases names.len(),
{
    if names.len() == 0 {
        0
    } else {
        let rest = names.drop_last();
        let i = law_clicks_do_the_first_fitting_action(rest);
        assert(forall|j: int| 0 <= j < rest.len() ==> #[trigger] names[j] == rest[j]);
        assert(names[names.len() - 1] == names.last());
        if i < rest.len() || does_a_click(names.last()) {
            i
        } else {
            i + 1
        }
    }
}

/// An application is given 200 milliseconds to draw itself, or as long as is
/// asked for, up to two seconds.
pub proof fn law_waits_are_bounded(ms: u64)
    ensures
        settle(None) == Ok::<u64, FaultView>(200),
        ms <= 2000 ==> settle(Some(ms)) == Ok::<u64, FaultView>(ms),
        ms > 2000 ==> settle(Some(ms)) is Err,
{
}

/// The text of a captured state ends with the tree, and where there is a
/// warning, it is told ahead of everything else.
pub proof fn law_states_tell_the_tree_last(
    tree: Seq<char>,
    focused: Option<FocusView>,
    warning: Option<Seq<char>>,
)
    ensures
        tree.is_suffix_of(state_text(tree, focused, warning)),
        warning matches Some(w) ==> ("accessibility-warning: "@ + w).is_prefix_of(
            state_text(tree, focused, warning),
        ),
        focused matches Some(f) ==> ("focus: ["@ + decimal(f.index) + "] "@ + f.role + " \""@
            + escaped(f.name)).is_prefix_of(state_text(tree, focused, None)),
{
    let all = state_text(tree, focused, warning);
    assert(all.subrange(all.len() - tree.len(), all.len() as int) =~= tree);
    if let Some(w) = warning {
        let head = "accessibility-warning: "@ + w;
        assert(head =~= all.subrange(0, head.len() as int));
    }
    if let Some(f) = focused {
        let plain = state_text(tree, focused, None);
        let head = "focus: ["@ + decimal(f.index) + "] "@ + f.role + " \""@ + escaped(f.name);
        assert(head =~= plain.subrange(0, head.len() as int));
    }
}

/// A point lies in a picture where both its coordinates are from zero on and
/// below the size of the picture.
pub proof fn law_points_lie_in_the_picture(x: Real, y: Real, width: u32, height: u32)
    ensures
        in_picture(x, y, width, height) <==> {
            let one = vstd::arithmetic::power2::pow2(1074) as int;
            &&& 0 <= x.units() < width * one
            &&& 0 <= y.units() < height * one
        },
{
}

/// An element lies on the screen where it has a width and a height, and a point
/// is one where both its coordinates are numbers.
pub proof fn law_areas_and_points_are_checked(
    element_index: int,
    x: int,
    y: int,
    width: int,
    height: int,
    a: Real,
    b: Real,
)
    ensures
        extents_check(element_index, x, y, width, height) is Ok <==> width > 0 && height > 0,
        point_check(a, b) is Ok <==> a.finite() && b.finite(),
{
}

/// A warning is given just where a tree gives nothing to work with.
pub proof fn law_warnings_are_given_where_needed(app: Seq<char>, actionable: bool, changed: bool)
    ensures
        warning_of(app, actionable) is None <==> actionable,
        selection_check(Selection::Caret(0), changed) is Ok <==> changed,
        selection_check(Selection::Span(0, 0), changed) is Ok <==> changed,
{
}

} // verus!
