//! Key names, key chords and characters as X11 keysym numbers.

use crate::fault::{agrees, general, Fault, FaultView};
use crate::text::{chars_of, same, split, split_on, texts, trim, trimmed};
use vstd::prelude::*;

verus! {

/// The keysym of a character: the editing controls have keysyms of their own,
/// Latin-1 maps to itself, and every other character is its code point above
/// the Unicode keysym base.
pub open spec fn keysym_of_char(c: char) -> u32 {
    if c as u32 == 0x08 {
        0xff08
    } else if c as u32 == 0x09 {
        0xff09
    } else if c as u32 == 0x0a || c as u32 == 0x0d {
        0xff0d
    } else if c as u32 == 0x1b {
        0xff1b
    } else if 0x20 <= c as u32 <= 0xff {
        c as u32
    } else {
        (0x0100_0000 + c as u32) as u32
    }
}

/// Convert a character to an X11 keysym.
///
/// The compositor resolves the keysym to the physical key and modifier level,
/// so uppercase and shifted symbols need no explicit Shift handling.
pub fn char_to_keysym(c: char) -> (r: u32)
    ensures
        r == keysym_of_char(c),
{
    let cp: u32 = c as u32;
    if cp == 0x08 {
        0xff08
    } else if cp == 0x09 {
        0xff09
    } else if cp == 0x0a || cp == 0x0d {
        0xff0d
    } else if cp == 0x1b {
        0xff1b
    } else if 0x20 <= cp && cp <= 0xff {
        cp
    } else {
        0x0100_0000 + cp
    }
}

/// Distinct characters have distinct keysyms, except that carriage return and
/// line feed are both the Return key.
pub proof fn law_keysyms_are_distinct(a: char, b: char)
    requires
        a != b,
    ensures
        keysym_of_char(a) == keysym_of_char(b) <==> (a == '\n' || a == '\r') && (b == '\n' || b
            == '\r'),
{
}

/// The keysym that a key name stands for.
pub open spec fn named_keysym(n: Seq<char>) -> Option<u32> {
    if n == "Return"@ || n == "Enter"@ {
        Some(0xff0d)
    } else if n == "KP_Enter"@ {
        Some(0xff8d)
    } else if n == "Tab"@ {
        Some(0xff09)
    } else if n == "space"@ || n == "Space"@ {
        Some(0x20)
    } else if n == "BackSpace"@ || n == "Backspace"@ {
        Some(0xff08)
    } else if n == "Escape"@ || n == "Esc"@ {
        Some(0xff1b)
    } else if n == "Delete"@ || n == "Del"@ {
        Some(0xffff)
    } else if n == "Insert"@ {
        Some(0xff63)
    } else if n == "Home"@ {
        Some(0xff50)
    } else if n == "End"@ {
        Some(0xff57)
    } else if n == "Prior"@ || n == "Page_Up"@ || n == "PageUp"@ {
        Some(0xff55)
    } else if n == "Next"@ || n == "Page_Down"@ || n == "PageDown"@ {
        Some(0xff56)
    } else if n == "Up"@ {
        Some(0xff52)
    } else if n == "Down"@ {
        Some(0xff54)
    } else if n == "Left"@ {
        Some(0xff51)
    } else if n == "Right"@ {
        Some(0xff53)
    } else if n == "Menu"@ {
        Some(0xff67)
    } else if n == "Print"@ {
        Some(0xff61)
    } else if n == "Pause"@ {
        Some(0xff13)
    } else if n == "Caps_Lock"@ || n == "CapsLock"@ {
        Some(0xffe5)
    } else if n == "Num_Lock"@ || n == "NumLock"@ {
        Some(0xff7f)
    } else if n == "Scroll_Lock"@ || n == "ScrollLock"@ {
        Some(0xff14)
    } else if n == "Control"@ || n == "control"@ || n == "Ctrl"@ || n == "ctrl"@ || n == "Control_L"@ {
        Some(0xffe3)
    } else if n == "Control_R"@ {
        Some(0xffe4)
    } else if n == "Shift"@ || n == "shift"@ || n == "Shift_L"@ {
        Some(0xffe1)
    } else if n == "Shift_R"@ {
        Some(0xffe2)
    } else if n == "Alt"@ || n == "alt"@ || n == "Alt_L"@ || n == "Meta"@ || n == "meta"@ || n == "Meta_L"@ {
        Some(0xffe9)
    } else if n == "Alt_R"@ || n == "Meta_R"@ {
        Some(0xffea)
    } else if n == "ISO_Level3_Shift"@ || n == "AltGr"@ {
        Some(0xfe03)
    } else if n == "Super"@ || n == "super"@ || n == "Super_L"@ || n == "Win"@ || n == "win"@ || n == "Windows"@ || n == "Cmd"@ || n == "cmd"@ || n == "Command"@ {
        Some(0xffeb)
    } else if n == "Super_R"@ {
        Some(0xffec)
    } else if n == "F1"@ {
        Some(0xffbe)
    } else if n == "F2"@ {
        Some(0xffbf)
    } else if n == "F3"@ {
        Some(0xffc0)
    } else if n == "F4"@ {
        Some(0xffc1)
    } else if n == "F5"@ {
        Some(0xffc2)
    } else if n == "F6"@ {
        Some(0xffc3)
    } else if n == "F7"@ {
        Some(0xffc4)
    } else if n == "F8"@ {
        Some(0xffc5)
    } else if n == "F9"@ {
        Some(0xffc6)
    } else if n == "F10"@ {
        Some(0xffc7)
    } else if n == "F11"@ {
        Some(0xffc8)
    } else if n == "F12"@ {
        Some(0xffc9)
    } else if n == "KP_0"@ {
        Some(0xffb0)
    } else if n == "KP_1"@ {
        Some(0xffb1)
    } else if n == "KP_2"@ {
        Some(0xffb2)
    } else if n == "KP_3"@ {
        Some(0xffb3)
    } else if n == "KP_4"@ {
        Some(0xffb4)
    } else if n == "KP_5"@ {
        Some(0xffb5)
    } else if n == "KP_6"@ {
        Some(0xffb6)
    } else if n == "KP_7"@ {
        Some(0xffb7)
    } else if n == "KP_8"@ {
        Some(0xffb8)
    } else if n == "KP_9"@ {
        Some(0xffb9)
    } else if n == "KP_Add"@ {
        Some(0xffab)
    } else if n == "KP_Subtract"@ {
        Some(0xffad)
    } else if n == "KP_Multiply"@ {
        Some(0xffaa)
    } else if n == "KP_Divide"@ {
        Some(0xffaf)
    } else if n == "KP_Decimal"@ {
        Some(0xffae)
    } else {
        None
    }
}

fn lookup(n: &str) -> (r: Option<u32>)
    ensures
        r == named_keysym(n@),
{
    if same(n, "Return") || same(n, "Enter") {
        Some(0xff0d)
    } else if same(n, "KP_Enter") {
        Some(0xff8d)
    } else if same(n, "Tab") {
        Some(0xff09)
    } else if same(n, "space") || same(n, "Space") {
        Some(0x20)
    } else if same(n, "BackSpace") || same(n, "Backspace") {
        Some(0xff08)
    } else if same(n, "Escape") || same(n, "Esc") {
        Some(0xff1b)
    } else if same(n, "Delete") || same(n, "Del") {
        Some(0xffff)
    } else if same(n, "Insert") {
        Some(0xff63)
    } else if same(n, "Home") {
        Some(0xff50)
    } else if same(n, "End") {
        Some(0xff57)
    } else if same(n, "Prior") || same(n, "Page_Up") || same(n, "PageUp") {
        Some(0xff55)
    } else if same(n, "Next") || same(n, "Page_Down") || same(n, "PageDown") {
        Some(0xff56)
    } else if same(n, "Up") {
        Some(0xff52)
    } else if same(n, "Down") {
        Some(0xff54)
    } else if same(n, "Left") {
        Some(0xff51)
    } else if same(n, "Right") {
        Some(0xff53)
    } else if same(n, "Menu") {
        Some(0xff67)
    } else if same(n, "Print") {
        Some(0xff61)
    } else if same(n, "Pause") {
        Some(0xff13)
    } else if same(n, "Caps_Lock") || same(n, "CapsLock") {
        Some(0xffe5)
    } else if same(n, "Num_Lock") || same(n, "NumLock") {
        Some(0xff7f)
    } else if same(n, "Scroll_Lock") || same(n, "ScrollLock") {
        Some(0xff14)
    } else if same(n, "Control") || same(n, "control") || same(n, "Ctrl") || same(n, "ctrl") || same(n, "Control_L") {
        Some(0xffe3)
    } else if same(n, "Control_R") {
        Some(0xffe4)
    } else if same(n, "Shift") || same(n, "shift") || same(n, "Shift_L") {
        Some(0xffe1)
    } else if same(n, "Shift_R") {
        Some(0xffe2)
    } else if same(n, "Alt") || same(n, "alt") || same(n, "Alt_L") || same(n, "Meta") || same(n, "meta") || same(n, "Meta_L") {
        Some(0xffe9)
    } else if same(n, "Alt_R") || same(n, "Meta_R") {
        Some(0xffea)
    } else if same(n, "ISO_Level3_Shift") || same(n, "AltGr") {
        Some(0xfe03)
    } else if same(n, "Super") || same(n, "super") || same(n, "Super_L") || same(n, "Win") || same(n, "win") || same(n, "Windows") || same(n, "Cmd") || same(n, "cmd") || same(n, "Command") {
        Some(0xffeb)
    } else if same(n, "Super_R") {
        Some(0xffec)
    } else if same(n, "F1") {
        Some(0xffbe)
    } else if same(n, "F2") {
        Some(0xffbf)
    } else if same(n, "F3") {
        Some(0xffc0)
    } else if same(n, "F4") {
        Some(0xffc1)
    } else if same(n, "F5") {
        Some(0xffc2)
    } else if same(n, "F6") {
        Some(0xffc3)
    } else if same(n, "F7") {
        Some(0xffc4)
    } else if same(n, "F8") {
        Some(0xffc5)
    } else if same(n, "F9") {
        Some(0xffc6)
    } else if same(n, "F10") {
        Some(0xffc7)
    } else if same(n, "F11") {
        Some(0xffc8)
    } else if same(n, "F12") {
        Some(0xffc9)
    } else if same(n, "KP_0") {
        Some(0xffb0)
    } else if same(n, "KP_1") {
        Some(0xffb1)
    } else if same(n, "KP_2") {
        Some(0xffb2)
    } else if same(n, "KP_3") {
        Some(0xffb3)
    } else if same(n, "KP_4") {
        Some(0xffb4)
    } else if same(n, "KP_5") {
        Some(0xffb5)
    } else if same(n, "KP_6") {
        Some(0xffb6)
    } else if same(n, "KP_7") {
        Some(0xffb7)
    } else if same(n, "KP_8") {
        Some(0xffb8)
    } else if same(n, "KP_9") {
        Some(0xffb9)
    } else if same(n, "KP_Add") {
        Some(0xffab)
    } else if same(n, "KP_Subtract") {
        Some(0xffad)
    } else if same(n, "KP_Multiply") {
        Some(0xffaa)
    } else if same(n, "KP_Divide") {
        Some(0xffaf)
    } else if same(n, "KP_Decimal") {
        Some(0xffae)
    } else {
        None
    }
}

/// The keysym of a key name: a single printable character stands for itself,
/// anything longer has to be a known name.
pub open spec fn keysym_of_name(name: Seq<char>) -> Result<u32, FaultView> {
    let n = trimmed(name);
    if n.len() == 0 {
        Err(general("empty key name"@))
    } else if n.len() == 1 && n[0] as u32 >= 0x20 {
        Ok(keysym_of_char(n[0]))
    } else {
        match named_keysym(n) {
            Some(k) => Ok(k),
            None => Err(general("unsupported key name: "@ + n)),
        }
    }
}

/// Resolve a single X keysym-style name to its keysym number.
pub fn name_to_keysym(name: &str) -> (r: Result<u32, Fault>)
    ensures
        agrees(r, keysym_of_name(name@)),
{
    let n = trim(name);
    let chars = chars_of(n);
    if chars.len() == 0 {
        return Err(Fault::of("empty key name"));
    }
    if chars.len() == 1 && (chars[0] as u32) >= 0x20 {
        return Ok(char_to_keysym(chars[0]));
    }
    match lookup(n) {
        Some(k) => Ok(k),
        None => {
            let mut message = "unsupported key name: ".to_owned();
            message.append(n);
            Err(Fault::new(message))
        },
    }
}

/// The keysyms of the parts of a chord, in order: blank parts count for
/// nothing, and the first part that names no key decides the failure.
pub open spec fn keysyms(parts: Seq<Seq<char>>) -> Result<Seq<u32>, FaultView>
    decreases parts.len(),
{
    if parts.len() == 0 {
        Ok(Seq::empty())
    } else {
        match keysyms(parts.drop_last()) {
            Err(e) => Err(e),
            Ok(ks) => {
                let p = trimmed(parts.last());
                if p.len() == 0 {
                    Ok(ks)
                } else {
                    match keysym_of_name(p) {
                        Ok(k) => Ok(ks.push(k)),
                        Err(e) => Err(e),
                    }
                }
            },
        }
    }
}

/// The keysyms of a `+`-separated chord; a chord of no keys is a failure.
pub open spec fn chord(spec: Seq<char>) -> Result<Seq<u32>, FaultView> {
    match keysyms(split_on(spec, '+')) {
        Err(e) => Err(e),
        Ok(ks) => if ks.len() == 0 {
            Err(general("empty key chord: "@ + spec))
        } else {
            Ok(ks)
        },
    }
}

proof fn lemma_first_failure_stands(parts: Seq<Seq<char>>, k: int)
    requires
        0 <= k <= parts.len(),
        keysyms(parts.take(k)) is Err,
    ensures
        keysyms(parts) == keysyms(parts.take(k)),
    decreases parts.len() - k,
{
    if k == parts.len() {
        assert(parts.take(k) =~= parts);
    } else {
        assert(parts.take(k + 1).drop_last() =~= parts.take(k));
        lemma_first_failure_stands(parts, k + 1);
    }
}

/// Parse a `+`-separated chord (for example `Control_L+a`, `super+d`) into an
/// ordered list of keysyms. Whitespace around `+` is ignored.
pub fn parse_chord(spec: &str) -> (r: Result<Vec<u32>, Fault>)
    ensures
        agrees(r, chord(spec@)),
{
    let parts = split(spec, '+');
    let ghost all = texts(parts@);
    let mut out: Vec<u32> = Vec::new();
    let mut i: usize = 0;
    while i < parts.len()
        invariant
            i <= parts@.len(),
            all == texts(parts@),
            all == split_on(spec@, '+'),
            keysyms(all.take(i as int)) == Ok::<Seq<u32>, FaultView>(out@),
        decreases parts@.len() - i,
    {
        assert(all.take(i + 1).drop_last() =~= all.take(i as int));
        let p = trim(parts[i].as_str());
        if !p.is_empty() {
            match name_to_keysym(p) {
                Ok(k) => {
                    out.push(k);
                },
                Err(e) => {
                    proof {
                        lemma_first_failure_stands(all, i + 1);
                    }
                    return Err(e);
                },
            }
        }
        i += 1;
    }
    assert(all.take(i as int) =~= all);
    if out.len() == 0 {
        let mut message = "empty key chord: ".to_owned();
        message.append(spec);
        return Err(Fault::new(message));
    }
    Ok(out)
}

/// White space around the parts of a chord does not matter: chords whose parts
/// are the same once trimmed press the same keys.
pub proof fn law_chord_ignores_spacing(a: Seq<Seq<char>>, b: Seq<Seq<char>>)
    requires
        a.len() == b.len(),
        forall|i: int| 0 <= i < a.len() ==> trimmed(#[trigger] a[i]) == trimmed(b[i]),
    ensures
        keysyms(a) == keysyms(b),
    decreases a.len(),
{
    if a.len() > 0 {
        assert forall|i: int| 0 <= i < a.drop_last().len() implies trimmed(
            #[trigger] a.drop_last()[i],
        ) == trimmed(b.drop_last()[i]) by {
            assert(a.drop_last()[i] == a[i]);
        }
        law_chord_ignores_spacing(a.drop_last(), b.drop_last());
        assert(a[a.len() - 1] == a.last());
    }
}

/// A printable character of Latin-1 is its own keysym, any character beyond
/// Latin-1 is its code point above the Unicode keysym base, and the editing
/// controls are the keys that they come from.
pub proof fn law_keysyms_follow_x11(c: char)
    ensures
        ' ' <= c && c as u32 <= 0xff ==> keysym_of_char(c) == c as u32,
        c as u32 > 0xff ==> keysym_of_char(c) == 0x0100_0000 + c as u32,
        c == '\n' || c == '\r' ==> named_keysym("Return"@) == Some(keysym_of_char(c)),
        c == '\n' || c == '\r' ==> keysym_of_char(c) == 0xff0d,
        c == '\t' ==> keysym_of_char(c) == 0xff09,
        c as u32 == 8 ==> keysym_of_char(c) == 0xff08,
        c as u32 == 27 ==> keysym_of_char(c) == 0xff1b,
{
}

/// A key that is named by a character is that character's, and a longer name is
/// one of the X11 keys, whose number it has: no other name is taken.
pub proof fn law_names_stand_for_x11_keys(n: Seq<char>)
    ensures
        n.len() == 1 && n[0] as u32 > 0x20 && !crate::text::is_space(n[0]) ==> keysym_of_name(n)
            == Ok::<u32, FaultView>(keysym_of_char(n[0])),
        named_keysym(n) matches Some(k) ==> {
            ||| k == 0xff0d && (n == "Return"@ || n == "Enter"@)
            ||| k == 0xff8d && n == "KP_Enter"@
            ||| k == 0xff09 && n == "Tab"@
            ||| k == 0x20 && (n == "space"@ || n == "Space"@)
            ||| k == 0xff08 && (n == "BackSpace"@ || n == "Backspace"@)
            ||| k == 0xff1b && (n == "Escape"@ || n == "Esc"@)
            ||| k == 0xffff && (n == "Delete"@ || n == "Del"@)
            ||| k == 0xff63 && n == "Insert"@
            ||| k == 0xff50 && n == "Home"@
            ||| k == 0xff57 && n == "End"@
            ||| k == 0xff55 && (n == "Prior"@ || n == "Page_Up"@ || n == "PageUp"@)
            ||| k == 0xff56 && (n == "Next"@ || n == "Page_Down"@ || n == "PageDown"@)
            ||| k == 0xff52 && n == "Up"@
            ||| k == 0xff54 && n == "Down"@
            ||| k == 0xff51 && n == "Left"@
            ||| k == 0xff53 && n == "Right"@
            ||| k == 0xff67 && n == "Menu"@
            ||| k == 0xff61 && n == "Print"@
            ||| k == 0xff13 && n == "Pause"@
            ||| k == 0xffe5 && (n == "Caps_Lock"@ || n == "CapsLock"@)
            ||| k == 0xff7f && (n == "Num_Lock"@ || n == "NumLock"@)
            ||| k == 0xff14 && (n == "Scroll_Lock"@ || n == "ScrollLock"@)
            ||| is_modifier_key(n, k)
            ||| is_function_key(n, k)
            ||| is_keypad_key(n, k)
        },
{
    if n.len() == 1 && !crate::text::is_space(n[0]) {
        crate::text::lemma_trimmed_keeps(n);
    }
}

/// Whether a name and a number are those of a modifier key of X11.
pub open spec fn is_modifier_key(n: Seq<char>, k: u32) -> bool {
    ||| k == 0xffe3 && (n == "Control"@ || n == "control"@ || n == "Ctrl"@ || n == "ctrl"@ || n
        == "Control_L"@)
    ||| k == 0xffe4 && n == "Control_R"@
    ||| k == 0xffe1 && (n == "Shift"@ || n == "shift"@ || n == "Shift_L"@)
    ||| k == 0xffe2 && n == "Shift_R"@
    ||| k == 0xffe9 && (n == "Alt"@ || n == "alt"@ || n == "Alt_L"@ || n == "Meta"@ || n == "meta"@
        || n == "Meta_L"@)
    ||| k == 0xffea && (n == "Alt_R"@ || n == "Meta_R"@)
    ||| k == 0xfe03 && (n == "ISO_Level3_Shift"@ || n == "AltGr"@)
    ||| k == 0xffeb && (n == "Super"@ || n == "super"@ || n == "Super_L"@ || n == "Win"@ || n
        == "win"@ || n == "Windows"@ || n == "Cmd"@ || n == "cmd"@ || n == "Command"@)
    ||| k == 0xffec && n == "Super_R"@
}

/// Whether a name and a number are those of a function key of X11.
pub open spec fn is_function_key(n: Seq<char>, k: u32) -> bool {
    ||| k == 0xffbe && n == "F1"@
    ||| k == 0xffbf && n == "F2"@
    ||| k == 0xffc0 && n == "F3"@
    ||| k == 0xffc1 && n == "F4"@
    ||| k == 0xffc2 && n == "F5"@
    ||| k == 0xffc3 && n == "F6"@
    ||| k == 0xffc4 && n == "F7"@
    ||| k == 0xffc5 && n == "F8"@
    ||| k == 0xffc6 && n == "F9"@
    ||| k == 0xffc7 && n == "F10"@
    ||| k == 0xffc8 && n == "F11"@
    ||| k == 0xffc9 && n == "F12"@
}

/// Whether a name and a number are those of a key of the keypad of X11.
pub open spec fn is_keypad_key(n: Seq<char>, k: u32) -> bool {
    ||| k == 0xffb0 && n == "KP_0"@
    ||| k == 0xffb1 && n == "KP_1"@
    ||| k == 0xffb2 && n == "KP_2"@
    ||| k == 0xffb3 && n == "KP_3"@
    ||| k == 0xffb4 && n == "KP_4"@
    ||| k == 0xffb5 && n == "KP_5"@
    ||| k == 0xffb6 && n == "KP_6"@
    ||| k == 0xffb7 && n == "KP_7"@
    ||| k == 0xffb8 && n == "KP_8"@
    ||| k == 0xffb9 && n == "KP_9"@
    ||| k == 0xffab && n == "KP_Add"@
    ||| k == 0xffad && n == "KP_Subtract"@
    ||| k == 0xffaa && n == "KP_Multiply"@
    ||| k == 0xffaf && n == "KP_Divide"@
    ||| k == 0xffae && n == "KP_Decimal"@
}

/// Every one of these names is taken.
pub proof fn law_x11_names_are_taken(n: Seq<char>, k: u32)
    requires
        is_modifier_key(n, k) || is_function_key(n, k) || is_keypad_key(n, k) || n == "Return"@ || n
            == "Enter"@ || n == "KP_Enter"@ || n == "Tab"@ || n == "space"@ || n == "Space"@ || n
            == "BackSpace"@ || n == "Backspace"@ || n == "Escape"@ || n == "Esc"@ || n == "Delete"@
            || n == "Del"@ || n == "Insert"@ || n == "Home"@ || n == "End"@ || n == "Prior"@ || n
            == "Page_Up"@ || n == "PageUp"@ || n == "Next"@ || n == "Page_Down"@ || n
            == "PageDown"@ || n == "Up"@ || n == "Down"@ || n == "Left"@ || n == "Right"@ || n
            == "Menu"@ || n == "Print"@ || n == "Pause"@ || n == "Caps_Lock"@ || n == "CapsLock"@
            || n == "Num_Lock"@ || n == "NumLock"@ || n == "Scroll_Lock"@ || n == "ScrollLock"@,
    ensures
        named_keysym(n) is Some,
{
}

proof fn lemma_keysyms_concat(a: Seq<Seq<char>>, b: Seq<Seq<char>>)
    requires
        keysyms(a) is Ok,
    ensures
        keysyms(a + b) == (match keysyms(b) {
            Ok(ks) => Ok::<Seq<u32>, FaultView>(keysyms(a)->Ok_0 + ks),
            Err(e) => Err(e),
        }),
    decreases b.len(),
{
    if b.len() == 0 {
        assert(a + b =~= a);
        assert(keysyms(a)->Ok_0 + Seq::<u32>::empty() =~= keysyms(a)->Ok_0);
    } else {
        assert((a + b).drop_last() =~= a + b.drop_last());
        lemma_keysyms_concat(a, b.drop_last());
        if let Ok(ks) = keysyms(b.drop_last()) {
            if let Ok(k) = keysym_of_name(trimmed(b.last())) {
                assert((keysyms(a)->Ok_0 + ks).push(k) =~= keysyms(a)->Ok_0 + ks.push(k));
            }
        }
    }
}

/// A chord is the keys on either side of a plus sign, first those on the left;
/// what holds no plus sign is one key, by its name.
pub proof fn law_chords_list_their_keys_in_order(a: Seq<char>, b: Seq<char>)
    requires
        chord(a) is Ok,
        chord(b) is Ok,
    ensures
        chord(a.push('+') + b) == Ok::<Seq<u32>, FaultView>(chord(a)->Ok_0 + chord(b)->Ok_0),
        !a.contains('+') ==> chord(a)->Ok_0 == seq![keysym_of_name(trimmed(a))->Ok_0]
            && keysym_of_name(trimmed(a)) is Ok,
{
    crate::text::law_texts_are_split_at_each_mark(a, b, '+');
    lemma_keysyms_concat(split_on(a, '+'), split_on(b, '+'));
    if !a.contains('+') {
        let one = seq![a];
        assert(one.drop_last() =~= Seq::<Seq<char>>::empty());
        reveal_with_fuel(keysyms, 2);
        assert(chord(a)->Ok_0 =~= seq![keysym_of_name(trimmed(a))->Ok_0]);
    }
}

/// A name that stands for a key is a chord of that key alone.
pub proof fn law_a_key_is_a_chord(name: Seq<char>)
    requires
        !name.contains('+'),
        trimmed(name).len() > 0,
    ensures
        match keysym_of_name(trimmed(name)) {
            Ok(k) => chord(name) == Ok::<Seq<u32>, FaultView>(seq![k]),
            Err(_) => chord(name) is Err,
        },
{
    crate::text::law_texts_are_split_at_each_mark(name, Seq::empty(), '+');
    let one = seq![name];
    assert(one.drop_last() =~= Seq::<Seq<char>>::empty());
    reveal_with_fuel(keysyms, 2);
    if let Ok(k) = keysym_of_name(trimmed(name)) {
        assert(Seq::<u32>::empty().push(k) =~= seq![k]);
    }
}

} // verus!
