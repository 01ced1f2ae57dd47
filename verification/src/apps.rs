//! Installed desktop applications: reading their entries, finding one by its
//! name, and how it is launched.

use crate::fault::{agrees, general, Fault, FaultKind, FaultView};
use crate::input::opt_text;
use crate::order::{law_ranks_sort, ranked, sort_order, sort_texts, sorted_texts, text_le};
use crate::text::{
    bool_text, chars_of, cut, ends_with, eq_ignore_ascii_case, first_at, from_utf8_lossy, is_space,
    join, joined, lowercase, quote, quoted, same, same_ascii_folded, show_bool, space, split,
    split_on, split_once, starts_with, strip_suffix, texts, to_lowercase, trim, trim_front,
    trim_start, trimmed, utf8_lossy, without_suffix,
};
use vstd::prelude::*;

verus! {

/// An installed application.
#[derive(Debug)]
pub struct DesktopApp {
    pub id: String,
    pub name: String,
    pub executable: Option<String>,
    pub hidden: bool,
    pub no_display: bool,
}

/// What is known of an installed application.
#[verifier::ext_equal]
pub struct AppView {
    pub id: Seq<char>,
    pub name: Seq<char>,
    pub executable: Option<Seq<char>>,
    pub hidden: bool,
    pub no_display: bool,
}

impl View for DesktopApp {
    type V = AppView;

    open spec fn view(&self) -> AppView {
        AppView {
            id: self.id@,
            name: self.name@,
            executable: opt_text(self.executable),
            hidden: self.hidden,
            no_display: self.no_display,
        }
    }
}

fn copy_text(s: &Option<String>) -> (r: Option<String>)
    ensures
        opt_text(r) == opt_text(*s),
{
    match s {
        Some(t) => Some(t.clone()),
        None => None,
    }
}

impl Clone for DesktopApp {
    fn clone(&self) -> (r: DesktopApp)
        ensures
            r@ == self@,
    {
        DesktopApp {
            id: self.id.clone(),
            name: self.name.clone(),
            executable: copy_text(&self.executable),
            hidden: self.hidden,
            no_display: self.no_display,
        }
    }
}

/// The views of some applications.
pub open spec fn app_views(apps: Seq<DesktopApp>) -> Seq<AppView> {
    Seq::new(apps.len(), |i: int| apps[i]@)
}

/// What a desktop entry says.
#[derive(Debug)]
pub struct ParsedDesktopEntry {
    pub name: String,
    pub executable: Option<String>,
    pub try_exec: Option<String>,
    pub hidden: bool,
    pub no_display: bool,
    pub dbus_activatable: bool,
}

/// What a desktop entry says.
#[verifier::ext_equal]
pub struct EntryView {
    pub name: Seq<char>,
    pub executable: Option<Seq<char>>,
    pub try_exec: Option<Seq<char>>,
    pub hidden: bool,
    pub no_display: bool,
    pub dbus_activatable: bool,
}

impl View for ParsedDesktopEntry {
    type V = EntryView;

    open spec fn view(&self) -> EntryView {
        EntryView {
            name: self.name@,
            executable: opt_text(self.executable),
            try_exec: opt_text(self.try_exec),
            hidden: self.hidden,
            no_display: self.no_display,
            dbus_activatable: self.dbus_activatable,
        }
    }
}

/// Whether a failure says that no application was found.
pub fn is_desktop_app_not_found(error: &Fault) -> (r: bool)
    ensures
        r == (error@.kind == FaultKind::DesktopAppNotFound),
{
    matches!(error.kind, FaultKind::DesktopAppNotFound)
}

/// Whether a value of a desktop entry means yes.
pub open spec fn means_yes(value: Seq<char>) -> bool {
    same_ascii_folded(trimmed(value), "true"@)
}

/// Reads a truth value of a desktop entry.
pub fn parse_desktop_bool(value: &str) -> (r: bool)
    ensures
        r == means_yes(value@),
{
    eq_ignore_ascii_case(trim(value), "true")
}

/// How the text at hand is quoted.
#[derive(Clone, Copy, Debug, PartialEq, Eq, Structural)]
pub enum Quoting {
    Bare,
    Single,
    Double,
}

/// A word with characters ahead of it.
pub open spec fn ahead(chars: Seq<char>, word: Option<Seq<char>>) -> Option<Seq<char>> {
    match word {
        Some(w) => Some(chars + w),
        None => None,
    }
}

/// The rest of the first word of a command line, without its quotes and
/// escapes; `None` where a quote is not closed, an escape is cut off or no word
/// begins.
pub open spec fn first_word(s: Seq<char>, quoting: Quoting, started: bool) -> Option<Seq<char>>
    decreases s.len(),
{
    if s.len() == 0 {
        if started && quoting == Quoting::Bare {
            Some(Seq::empty())
        } else {
            None
        }
    } else {
        let c = s[0];
        let rest = s.drop_first();
        if c == '\\' && quoting != Quoting::Single {
            if rest.len() == 0 {
                None
            } else {
                ahead(seq![rest[0]], first_word(rest.drop_first(), quoting, true))
            }
        } else if c == '\'' && quoting == Quoting::Bare {
            first_word(rest, Quoting::Single, true)
        } else if c == '"' && quoting == Quoting::Bare {
            first_word(rest, Quoting::Double, true)
        } else if (c == '\'' && quoting == Quoting::Single) || (c == '"' && quoting
            == Quoting::Double) {
            first_word(rest, Quoting::Bare, started)
        } else if is_space(c) && quoting == Quoting::Bare {
            if started {
                Some(Seq::empty())
            } else {
                first_word(rest, quoting, started)
            }
        } else {
            ahead(seq![c], first_word(rest, quoting, true))
        }
    }
}

/// The program that a command line names, where it can be told without
/// expanding anything.
pub open spec fn program(command: Seq<char>) -> Option<Seq<char>> {
    match first_word(trim_front(command), Quoting::Bare, false) {
        Some(w) => if w.len() == 0 || w.contains('%') || w.contains('\0') {
            None
        } else {
            Some(w)
        },
        None => None,
    }
}

proof fn lemma_first_word_ends(s: Seq<char>, tail: Seq<char>, quoting: Quoting, started: bool)
    requires
        first_word(s, quoting, started) is Some,
        tail.len() > 0,
        is_space(tail[0]),
    ensures
        first_word(s + tail, quoting, started) == first_word(s, quoting, started),
    decreases s.len(),
{
    if s.len() == 0 {
        assert(s + tail =~= tail);
    } else {
        let all = s + tail;
        let rest = s.drop_first();
        assert(all[0] == s[0]);
        assert(all.drop_first() =~= rest + tail);
        if s[0] == '\\' && quoting != Quoting::Single {
            assert((rest + tail)[0] == rest[0]);
            assert((rest + tail).drop_first() =~= rest.drop_first() + tail);
            lemma_first_word_ends(rest.drop_first(), tail, quoting, true);
        } else if s[0] == '\'' && quoting == Quoting::Bare {
            lemma_first_word_ends(rest, tail, Quoting::Single, true);
        } else if s[0] == '"' && quoting == Quoting::Bare {
            lemma_first_word_ends(rest, tail, Quoting::Double, true);
        } else if (s[0] == '\'' && quoting == Quoting::Single) || (s[0] == '"' && quoting
            == Quoting::Double) {
            lemma_first_word_ends(rest, tail, Quoting::Bare, started);
        } else if is_space(s[0]) && quoting == Quoting::Bare {
            if !started {
                lemma_first_word_ends(rest, tail, quoting, started);
            }
        } else {
            lemma_first_word_ends(rest, tail, quoting, true);
        }
    }
}

proof fn lemma_trim_front_keeps_the_end(s: Seq<char>, tail: Seq<char>)
    requires
        trim_front(s).len() > 0,
    ensures
        trim_front(s + tail) == trim_front(s) + tail,
    decreases s.len(),
{
    assert((s + tail)[0] == s[0]);
    if is_space(s[0]) {
        assert((s + tail).drop_first() =~= s.drop_first() + tail);
        lemma_trim_front_keeps_the_end(s.drop_first(), tail);
    }
}

/// What follows the first word of a command line has no effect on the program
/// that it names.
pub proof fn law_later_arguments_have_no_effect(command: Seq<char>, tail: Seq<char>)
    requires
        program(command) is Some,
        tail.len() > 0,
        is_space(tail[0]),
    ensures
        program(command + tail) == program(command),
{
    lemma_trim_front_keeps_the_end(command, tail);
    lemma_first_word_ends(trim_front(command), tail, Quoting::Bare, false);
}

fn holds(s: &Vec<char>, c: char) -> (r: bool)
    ensures
        r == s@.contains(c),
{
    let mut i: usize = 0;
    while i < s.len()
        invariant
            i <= s@.len(),
            forall|j: int| 0 <= j < i ==> s@[j] != c,
        decreases s@.len() - i,
    {
        if s[i] == c {
            return true;
        }
        i += 1;
    }
    false
}

/// Reads the program that a command line names.
pub fn parse_first_exec_arg(command: &str) -> (r: Option<String>)
    ensures
        opt_text(r) == program(command@),
{
    let line = chars_of(trim_start(command));
    let ghost whole = first_word(line@, Quoting::Bare, false);
    let mut quoting = Quoting::Bare;
    let mut started = false;
    let mut word: Vec<char> = Vec::new();
    let mut i: usize = 0;
    let mut done = false;
    proof {
        assert(line@.skip(0) =~= line@);
        if let Some(w) = whole {
            assert(Seq::<char>::empty() + w =~= w);
        }
    }
    while i < line.len() && !done
        invariant
            i <= line@.len(),
            whole == first_word(trim_front(command@), Quoting::Bare, false),
            done ==> whole == Some(word@) && started && quoting == Quoting::Bare,
            !done ==> whole == ahead(word@, first_word(line@.skip(i as int), quoting, started)),
        decreases line@.len() - i + if done {
            0int
        } else {
            1int
        },
    {
        let c = line[i];
        let ghost rest = line@.skip(i as int);
        assert(rest.drop_first() =~= line@.skip(i + 1));
        if c == '\\' && !matches!(quoting, Quoting::Single) {
            if i + 1 >= line.len() {
                return None;
            }
            assert(rest.drop_first().drop_first() =~= line@.skip(i + 2));
            let ghost was = word@;
            word.push(line[i + 1]);
            proof {
                if let Some(w) = first_word(line@.skip(i + 2), quoting, true) {
                    assert(was + (seq![line@[i + 1]] + w) =~= word@ + w);
                }
            }
            started = true;
            i += 2;
            continue;
        }
        match (quoting, c) {
            (Quoting::Bare, '\'') => {
                quoting = Quoting::Single;
                started = true;
            },
            (Quoting::Bare, '"') => {
                quoting = Quoting::Double;
                started = true;
            },
            (Quoting::Single, '\'') => {
                quoting = Quoting::Bare;
            },
            (Quoting::Double, '"') => {
                quoting = Quoting::Bare;
            },
            _ => {
                if matches!(quoting, Quoting::Bare) && space(c) {
                    if started {
                        assert(word@ + Seq::<char>::empty() =~= word@);
                        done = true;
                    }
                } else {
                    let ghost was = word@;
                    word.push(c);
                    proof {
                        if let Some(w) = first_word(line@.skip(i + 1), quoting, true) {
                            assert(was + (seq![c] + w) =~= word@ + w);
                        }
                    }
                    started = true;
                }
            },
        }
        i += 1;
    }
    if !started || !matches!(quoting, Quoting::Bare) {
        return None;
    }
    assert(word@ + Seq::<char>::empty() =~= word@);
    if word.len() == 0 || holds(&word, '%') || holds(&word, '\0') {
        None
    } else {
        let n = word.len();
        let r = crate::text::string_of(&word, 0, n);
        assert(r@ =~= word@);
        Some(r)
    }
}

/// What was read of a desktop entry so far.
#[verifier::ext_equal]
pub struct Reading {
    pub inside: bool,
    pub kind: Option<Seq<char>>,
    pub name: Option<Seq<char>>,
    pub command: Option<Seq<char>>,
    pub try_exec: Option<Seq<char>>,
    pub hidden: bool,
    pub no_display: bool,
    pub dbus_activatable: bool,
}

/// Nothing read yet.
pub open spec fn unread() -> Reading {
    Reading {
        inside: false,
        kind: None,
        name: None,
        command: None,
        try_exec: None,
        hidden: false,
        no_display: false,
        dbus_activatable: false,
    }
}

/// A key with its value taken in.
pub open spec fn with_value(r: Reading, key: Seq<char>, value: Seq<char>) -> Reading {
    if key == "Type"@ {
        Reading { kind: Some(trimmed(value)), ..r }
    } else if key == "Name"@ {
        Reading { name: Some(trimmed(value)), ..r }
    } else if key == "Exec"@ {
        Reading { command: Some(trimmed(value)), ..r }
    } else if key == "TryExec"@ {
        Reading { try_exec: Some(trimmed(value)), ..r }
    } else if key == "Hidden"@ {
        Reading { hidden: means_yes(value), ..r }
    } else if key == "NoDisplay"@ {
        Reading { no_display: means_yes(value), ..r }
    } else if key == "DBusActivatable"@ {
        Reading { dbus_activatable: means_yes(value), ..r }
    } else {
        r
    }
}

/// A line taken in, without its surrounding white space.
pub open spec fn with_line(r: Reading, line: Seq<char>) -> Reading {
    if "["@.is_prefix_of(line) && "]"@.is_suffix_of(line) {
        Reading { inside: line == "[Desktop Entry]"@, ..r }
    } else if !r.inside || line.len() == 0 || "#"@.is_prefix_of(line) {
        r
    } else {
        match cut(line, first_at(line, '=')) {
            Some((key, value)) => with_value(r, trimmed(key), value),
            None => r,
        }
    }
}

/// What lines say, one after another.
pub open spec fn read_lines(lines: Seq<Seq<char>>) -> Reading
    decreases lines.len(),
{
    if lines.len() == 0 {
        unread()
    } else {
        with_line(read_lines(lines.drop_last()), trimmed(lines.last()))
    }
}

/// Whether a line begins a group.
pub open spec fn is_heading(line: Seq<char>) -> bool {
    "["@.is_prefix_of(trimmed(line)) && "]"@.is_suffix_of(trimmed(line))
}

/// What stands in other groups of a desktop file has no effect on the entry:
/// nothing has that follows the heading of another group, up to the next heading
/// of the entry's own.
pub proof fn law_other_groups_have_no_effect(
    lines: Seq<Seq<char>>,
    heading: Seq<char>,
    others: Seq<Seq<char>>,
)
    requires
        is_heading(heading),
        trimmed(heading) != "[Desktop Entry]"@,
        forall|i: int|
            0 <= i < others.len() ==> trimmed(#[trigger] others[i]) != "[Desktop Entry]"@,
    ensures
        read_lines(lines.push(heading) + others) == (Reading {
            inside: false,
            ..read_lines(lines)
        }),
        entry_of(read_lines(lines.push(heading) + others)) == entry_of(read_lines(lines)),
    decreases others.len(),
{
    let all = lines.push(heading) + others;
    if others.len() == 0 {
        assert(all =~= lines.push(heading));
        assert(all.drop_last() =~= lines);
    } else {
        let before = others.drop_last();
        assert forall|i: int| 0 <= i < before.len() implies trimmed(#[trigger] before[i])
            != "[Desktop Entry]"@ by {
            assert(before[i] == others[i]);
        }
        assert(all.drop_last() =~= lines.push(heading) + before);
        assert(all.last() == others[others.len() - 1]);
        law_other_groups_have_no_effect(lines, heading, before);
    }
}

/// A text that is not empty.
pub open spec fn if_any(s: Option<Seq<char>>) -> Option<Seq<char>> {
    match s {
        Some(t) => if t.len() > 0 {
            Some(t)
        } else {
            None
        },
        None => None,
    }
}

/// The entry that was read: one of an application that has a name.
pub open spec fn entry_of(r: Reading) -> Option<EntryView> {
    if r.kind != Some("Application"@) {
        None
    } else {
        match if_any(r.name) {
            None => None,
            Some(name) => Some(
                EntryView {
                    name,
                    executable: match r.command {
                        Some(c) => program(c),
                        None => None,
                    },
                    try_exec: if_any(r.try_exec),
                    hidden: r.hidden,
                    no_display: r.no_display,
                    dbus_activatable: r.dbus_activatable,
                },
            ),
        }
    }
}

/// The entry that a desktop file holds.
pub open spec fn desktop_entry(contents: Seq<char>) -> Option<EntryView> {
    entry_of(read_lines(split_on(contents, '\n')))
}

struct Reader {
    inside: bool,
    kind: Option<String>,
    name: Option<String>,
    command: Option<String>,
    try_exec: Option<String>,
    hidden: bool,
    no_display: bool,
    dbus_activatable: bool,
}

impl View for Reader {
    type V = Reading;

    closed spec fn view(&self) -> Reading {
        Reading {
            inside: self.inside,
            kind: opt_text(self.kind),
            name: opt_text(self.name),
            command: opt_text(self.command),
            try_exec: opt_text(self.try_exec),
            hidden: self.hidden,
            no_display: self.no_display,
            dbus_activatable: self.dbus_activatable,
        }
    }
}

impl Reader {
    fn new() -> (r: Reader)
        ensures
            r@ == unread(),
    {
        Reader {
            inside: false,
            kind: None,
            name: None,
            command: None,
            try_exec: None,
            hidden: false,
            no_display: false,
            dbus_activatable: false,
        }
    }

    fn take_value(&mut self, key: &str, value: &str)
        ensures
            final(self)@ == with_value(old(self)@, key@, value@),
    {
        if same(key, "Type") {
            self.kind = Some(trim(value).to_owned());
        } else if same(key, "Name") {
            self.name = Some(trim(value).to_owned());
        } else if same(key, "Exec") {
            self.command = Some(trim(value).to_owned());
        } else if same(key, "TryExec") {
            self.try_exec = Some(trim(value).to_owned());
        } else if same(key, "Hidden") {
            self.hidden = parse_desktop_bool(value);
        } else if same(key, "NoDisplay") {
            self.no_display = parse_desktop_bool(value);
        } else if same(key, "DBusActivatable") {
            self.dbus_activatable = parse_desktop_bool(value);
        }
    }

    fn take_line(&mut self, line: &str)
        ensures
            final(self)@ == with_line(old(self)@, line@),
    {
        if starts_with(line, "[") && ends_with(line, "]") {
            self.inside = same(line, "[Desktop Entry]");
            return;
        }
        if !self.inside || line.unicode_len() == 0 || starts_with(line, "#") {
            return;
        }
        if let Some((key, value)) = split_once(line, '=') {
            self.take_value(trim(key), value);
        }
    }
}

fn non_empty(s: Option<String>) -> (r: Option<String>)
    ensures
        opt_text(r) == if_any(opt_text(s)),
{
    match s {
        Some(t) => if t.as_str().unicode_len() > 0 {
            Some(t)
        } else {
            None
        },
        None => None,
    }
}

/// Reads the entry that a desktop file holds; `None` where it is not one of an
/// application with a name.
pub fn parse_desktop_entry(contents: &str) -> (r: Option<ParsedDesktopEntry>)
    ensures
        match (r, desktop_entry(contents@)) {
            (Some(p), Some(e)) => p@ == e,
            (None, None) => true,
            _ => false,
        },
{
    let lines = split(contents, '\n');
    let ghost all = texts(lines@);
    let mut reader = Reader::new();
    let mut i: usize = 0;
    while i < lines.len()
        invariant
            i <= lines@.len(),
            all == texts(lines@),
            reader@ == read_lines(all.take(i as int)),
        decreases lines@.len() - i,
    {
        assert(all.take(i + 1).drop_last() =~= all.take(i as int));
        reader.take_line(trim(lines[i].as_str()));
        i += 1;
    }
    assert(all.take(i as int) =~= all);
    match &reader.kind {
        Some(kind) => if !same(kind.as_str(), "Application") {
            return None;
        },
        None => return None,
    }
    match non_empty(reader.name) {
        None => None,
        Some(name) => Some(
            ParsedDesktopEntry {
                name,
                executable: match &reader.command {
                    Some(c) => parse_first_exec_arg(c.as_str()),
                    None => None,
                },
                try_exec: non_empty(reader.try_exec),
                hidden: reader.hidden,
                no_display: reader.no_display,
                dbus_activatable: reader.dbus_activatable,
            },
        ),
    }
}

/// A plain text as the bytes of a path.
pub open spec fn ascii(s: Seq<char>) -> Seq<u8> {
    Seq::new(s.len(), |i: int| s[i] as u8)
}

fn ascii_bytes(s: &str) -> (r: Vec<u8>)
    ensures
        r@ == ascii(s@),
{
    let chars = chars_of(s);
    let mut out: Vec<u8> = Vec::new();
    let mut i: usize = 0;
    while i < chars.len()
        invariant
            i <= chars@.len(),
            chars@ == s@,
            out@ == ascii(s@).take(i as int),
        decreases chars@.len() - i,
    {
        let ghost was = out@;
        out.push(#[verifier::truncate] (chars[i] as u8));
        assert(ascii(s@).take(i + 1) =~= was.push(s@[i as int] as u8));
        i += 1;
    }
    assert(ascii(s@).take(i as int) =~= ascii(s@));
    out
}

/// The path of a name below a directory.
pub open spec fn below(dir: Seq<u8>, name: Seq<u8>) -> Seq<u8> {
    if dir.len() == 0 || dir.last() == '/' as u8 {
        dir + name
    } else {
        dir.push('/' as u8) + name
    }
}

fn path_below(dir: &[u8], name: &[u8]) -> (r: Vec<u8>)
    ensures
        r@ == below(dir@, name@),
{
    let mut path: Vec<u8> = Vec::new();
    path.extend_from_slice(dir);
    assert(path@ =~= dir@);
    if dir.len() > 0 && dir[dir.len() - 1] != '/' as u8 {
        path.push('/' as u8);
    }
    let ghost whole = path@;
    path.extend_from_slice(name);
    assert(path@ =~= whole + name@);
    path
}

/// The parts of some bytes, which a mark stands between.
pub open spec fn parts_at(s: Seq<u8>, mark: u8) -> Seq<Seq<u8>>
    decreases s.len(),
{
    if s.len() == 0 {
        seq![Seq::<u8>::empty()]
    } else {
        let parts = parts_at(s.drop_last(), mark);
        if s.last() == mark {
            parts.push(Seq::<u8>::empty())
        } else {
            parts.drop_last().push(parts.last().push(s.last()))
        }
    }
}

/// The directories of applications below the given ones, empty names left out.
pub open spec fn searched(dirs: Seq<Seq<u8>>) -> Seq<Seq<u8>>
    decreases dirs.len(),
{
    if dirs.len() == 0 {
        Seq::empty()
    } else if dirs.last().len() == 0 {
        searched(dirs.drop_last())
    } else {
        searched(dirs.drop_last()).push(below(dirs.last(), ascii("applications"@)))
    }
}

/// The directory of the user's own data: the one that is named, or else the
/// usual one below the user's home.
pub open spec fn data_home_of(data_home: Option<Seq<u8>>, home: Option<Seq<u8>>) -> Seq<u8> {
    match (data_home, home) {
        (Some(dir), _) => dir,
        (None, Some(dir)) => below(dir, ascii(".local/share"@)),
        (None, None) => ascii(".local/share"@),
    }
}

/// The list of the directories of shared data: the one that is given, where it
/// is not empty, or else the usual one.
pub open spec fn data_dirs_of(data_dirs: Option<Seq<u8>>) -> Seq<u8> {
    match data_dirs {
        Some(dirs) => if dirs.len() > 0 {
            dirs
        } else {
            ascii("/usr/local/share:/usr/share"@)
        },
        None => ascii("/usr/local/share:/usr/share"@),
    }
}

/// The directories in which desktop files lie, the first of which counts most:
/// the user's own, and then the shared ones.
pub open spec fn app_dirs(
    data_home: Option<Seq<u8>>,
    home: Option<Seq<u8>>,
    data_dirs: Option<Seq<u8>>,
) -> Seq<Seq<u8>> {
    seq![below(data_home_of(data_home, home), ascii("applications"@))] + searched(
        parts_at(data_dirs_of(data_dirs), ':' as u8),
    )
}

/// Some bytes that may be missing.
pub open spec fn opt_bytes(s: Option<&[u8]>) -> Option<Seq<u8>> {
    match s {
        Some(b) => Some(b@),
        None => None,
    }
}

/// The bytes of some paths.
pub open spec fn paths(all: Seq<Vec<u8>>) -> Seq<Seq<u8>> {
    Seq::new(all.len(), |i: int| all[i]@)
}

fn split_at(s: &[u8], mark: u8) -> (r: Vec<Vec<u8>>)
    ensures
        paths(r@) == parts_at(s@, mark),
{
    let mut parts: Vec<Vec<u8>> = Vec::new();
    let mut part: Vec<u8> = Vec::new();
    let mut i: usize = 0;
    assert(paths(parts@).push(part@) =~= parts_at(s@.take(0), mark));
    while i < s.len()
        invariant
            i <= s@.len(),
            paths(parts@).push(part@) == parts_at(s@.take(i as int), mark),
        decreases s@.len() - i,
    {
        let ghost before = paths(parts@).push(part@);
        assert(s@.take(i + 1).drop_last() =~= s@.take(i as int));
        assert(before.drop_last() =~= paths(parts@));
        if s[i] == mark {
            parts.push(part);
            part = Vec::new();
            assert(paths(parts@) =~= before);
        } else {
            part.push(s[i]);
        }
        i += 1;
    }
    assert(s@.take(i as int) =~= s@);
    let ghost was = parts@;
    parts.push(part);
    assert(paths(parts@) =~= paths(was).push(part@));
    parts
}

/// Tells in which directories desktop files lie, given the variables
/// `XDG_DATA_HOME`, `HOME` and `XDG_DATA_DIRS` of the environment. Paths are
/// bytes, which need not be text.
pub fn application_dirs(
    data_home: Option<&[u8]>,
    home: Option<&[u8]>,
    data_dirs: Option<&[u8]>,
) -> (r: Vec<Vec<u8>>)
    ensures
        paths(r@) == app_dirs(opt_bytes(data_home), opt_bytes(home), opt_bytes(data_dirs)),
{
    let name = ascii_bytes("applications");
    let usual = ascii_bytes(".local/share");
    let own = match (data_home, home) {
        (Some(dir), _) => path_below(dir, name.as_slice()),
        (None, Some(dir)) => path_below(
            path_below(dir, usual.as_slice()).as_slice(),
            name.as_slice(),
        ),
        (None, None) => path_below(usual.as_slice(), name.as_slice()),
    };
    let shared = match data_dirs {
        Some(dirs) => if dirs.len() > 0 {
            split_at(dirs, ':' as u8)
        } else {
            split_at(ascii_bytes("/usr/local/share:/usr/share").as_slice(), ':' as u8)
        },
        None => split_at(ascii_bytes("/usr/local/share:/usr/share").as_slice(), ':' as u8),
    };
    let ghost all = paths(shared@);
    let ghost first = below(
        data_home_of(opt_bytes(data_home), opt_bytes(home)),
        ascii("applications"@),
    );
    let mut out: Vec<Vec<u8>> = Vec::new();
    out.push(own);
    let mut i: usize = 0;
    assert(paths(out@) =~= seq![first] + searched(all.take(0)));
    while i < shared.len()
        invariant
            i <= shared@.len(),
            all == paths(shared@),
            name@ == ascii("applications"@),
            paths(out@) == seq![first] + searched(all.take(i as int)),
        decreases shared@.len() - i,
    {
        let ghost was = out@;
        assert(all.take(i + 1).drop_last() =~= all.take(i as int));
        if shared[i].len() > 0 {
            let dir = path_below(shared[i].as_slice(), name.as_slice());
            out.push(dir);
            assert(paths(out@) =~= paths(was).push(dir@));
            assert(paths(out@) =~= seq![first] + searched(all.take(i + 1)));
        }
        i += 1;
    }
    assert(all.take(i as int) =~= all);
    out
}

/// Whether a program is given by the path of a file: by an absolute one, or by
/// one of several names. A slash at the end, or a dot behind the first name, is
/// no further name.
pub open spec fn is_path(program: Seq<u8>) -> bool {
    let names = parts_at(program, '/' as u8);
    ||| program.len() > 0 && program[0] == '/' as u8
    ||| exists|i: int|
        1 <= i < names.len() && #[trigger] names[i].len() > 0 && names[i] != seq!['.' as u8]
}

/// The files that a program can be, in the order in which they count: the one
/// at its path, or one of its name in each directory of the search path.
pub open spec fn programs(program: Seq<u8>, search: Option<Seq<u8>>) -> Seq<Seq<u8>> {
    if is_path(program) {
        seq![program]
    } else {
        match search {
            Some(dirs) => parts_at(dirs, ':' as u8).map_values(
                |dir: Seq<u8>| below(dir, program),
            ),
            None => Seq::empty(),
        }
    }
}

fn given_by_path(program: &[u8]) -> (r: bool)
    ensures
        r == is_path(program@),
{
    let names = split_at(program, '/' as u8);
    let ghost all = parts_at(program@, '/' as u8);
    if program.len() > 0 && program[0] == '/' as u8 {
        return true;
    }
    let mut i: usize = 1;
    while i < names.len()
        invariant
            1 <= i,
            all == paths(names@),
            all == parts_at(program@, '/' as u8),
            !(program@.len() > 0 && program@[0] == '/' as u8),
            forall|k: int|
                1 <= k < i && k < all.len() ==> (#[trigger] all[k]).len() == 0 || all[k]
                    == seq!['.' as u8],
        decreases names@.len() - i,
    {
        let name = &names[i];
        assert(all[i as int] == name@);
        if name.len() > 1 || (name.len() == 1 && name[0] != '.' as u8) {
            assert(all[i as int] != seq!['.' as u8]);
            return true;
        }
        assert(name@.len() == 1 ==> name@ =~= seq!['.' as u8]);
        i += 1;
    }
    false
}

/// Tells which files a program can be, given the variable `PATH` of the
/// environment: the first of them that can be run is it.
pub fn program_files(program: &[u8], search: Option<&[u8]>) -> (r: Vec<Vec<u8>>)
    ensures
        paths(r@) == programs(program@, opt_bytes(search)),
{
    let mut out: Vec<Vec<u8>> = Vec::new();
    if given_by_path(program) {
        let mut file: Vec<u8> = Vec::new();
        file.extend_from_slice(program);
        assert(file@ =~= program@);
        out.push(file);
        assert(paths(out@) =~= seq![program@]);
        return out;
    }
    if let Some(dirs) = search {
        let names = split_at(dirs, ':' as u8);
        let ghost all = programs(program@, Some(dirs@));
        let mut i: usize = 0;
        assert(paths(out@) =~= all.take(0));
        while i < names.len()
            invariant
                i <= names@.len(),
                paths(names@) == parts_at(dirs@, ':' as u8),
                all == paths(names@).map_values(|dir: Seq<u8>| below(dir, program@)),
                paths(out@) == all.take(i as int),
            decreases names@.len() - i,
        {
            let ghost was = out@;
            let file = path_below(names[i].as_slice(), program);
            out.push(file);
            assert(paths(out@) =~= paths(was).push(file@));
            assert(all.take(i + 1) =~= all.take(i as int).push(file@));
            i += 1;
        }
        assert(all.take(i as int) =~= all);
    } else {
        assert(paths(out@) =~= Seq::<Seq<u8>>::empty());
    }
    out
}

/// Whether a file is a desktop file, by its name: it ends as one does and does
/// not consist of that ending alone.
pub open spec fn names_desktop_file(name: Seq<char>) -> bool {
    ".desktop"@.is_suffix_of(name) && name.len() > ".desktop"@.len()
}

/// Tells whether a file is a desktop file.
pub fn is_desktop_file(name: &str) -> (r: bool)
    ensures
        r == names_desktop_file(name@),
{
    ends_with(name, ".desktop") && name.unicode_len() > ".desktop".unicode_len()
}

/// The name of a desktop file below its root: the parts of its path, joined by
/// hyphens. It ends as the last part does.
pub fn desktop_id(components: &Vec<String>) -> (r: String)
    ensures
        r@ == joined(texts(components@), "-"@),
        components@.len() > 0 && ".desktop"@.is_suffix_of(components@.last()@)
            ==> ".desktop"@.is_suffix_of(r@),
{
    proof {
        if components@.len() > 0 && ".desktop"@.is_suffix_of(components@.last()@) {
            lemma_joined_ends(texts(components@), "-"@, ".desktop"@);
        }
    }
    join(components, "-")
}

proof fn lemma_joined_ends(parts: Seq<Seq<char>>, sep: Seq<char>, end: Seq<char>)
    requires
        parts.len() > 0,
        end.is_suffix_of(parts.last()),
    ensures
        end.is_suffix_of(joined(parts, sep)),
{
    let all = joined(parts, sep);
    let last = parts.last();
    assert(all.subrange(all.len() - last.len(), all.len() as int) =~= last);
    assert(end =~= all.subrange(all.len() - end.len(), all.len() as int)) by {
        assert(end =~= last.subrange(last.len() - end.len(), last.len() as int));
    }
}

/// What becomes of a desktop file.
#[derive(Debug)]
pub enum Candidate<S, A> {
    /// It is not listed.
    Skip,
    Accept(A),
    /// It is listed where this program can be run.
    IfAvailable(S, A),
}

impl Candidate<String, DesktopApp> {
    pub open spec fn view(self) -> Candidate<Seq<char>, AppView> {
        match self {
            Candidate::Skip => Candidate::Skip,
            Candidate::Accept(app) => Candidate::Accept(app@),
            Candidate::IfAvailable(program, app) => Candidate::IfAvailable(program@, app@),
        }
    }
}

/// What becomes of a desktop file with a name and a text.
pub open spec fn candidate(id: Seq<char>, contents: Seq<char>) -> Candidate<Seq<char>, AppView> {
    match desktop_entry(contents) {
        None => Candidate::Skip,
        Some(entry) => {
            let app = AppView {
                id,
                name: entry.name,
                executable: entry.executable,
                hidden: false,
                no_display: entry.no_display,
            };
            if entry.hidden {
                Candidate::Skip
            } else {
                match entry.try_exec {
                    Some(program) => Candidate::IfAvailable(program, app),
                    None => Candidate::Accept(app),
                }
            }
        },
    }
}

/// Decides what becomes of a desktop file whose text was decoded.
pub fn judge_entry(id: &str, contents: &str) -> (r: Candidate<String, DesktopApp>)
    ensures
        r@ == candidate(id@, contents@),
{
    match parse_desktop_entry(contents) {
        None => Candidate::Skip,
        Some(entry) => {
            if entry.hidden {
                return Candidate::Skip;
            }
            let app = DesktopApp {
                id: id.to_owned(),
                name: entry.name,
                executable: entry.executable,
                hidden: false,
                no_display: entry.no_display,
            };
            match entry.try_exec {
                Some(program) => Candidate::IfAvailable(program, app),
                None => Candidate::Accept(app),
            }
        },
    }
}

/// Decides what becomes of a desktop file.
pub fn judge_file(id: &str, contents: &[u8]) -> (r: Candidate<String, DesktopApp>)
    ensures
        r@ == candidate(id@, utf8_lossy(contents@)),
{
    let text = from_utf8_lossy(contents);
    judge_entry(id, text.as_str())
}

/// The applications that were found so far. Of several files with one name the
/// first counts, whether or not it is listed.
#[derive(Debug)]
pub struct Discovery {
    seen: Vec<String>,
    apps: Vec<DesktopApp>,
}

/// What was found so far.
#[verifier::ext_equal]
pub struct FoundView {
    pub seen: Seq<Seq<char>>,
    pub apps: Seq<AppView>,
}

impl View for Discovery {
    type V = FoundView;

    closed spec fn view(&self) -> FoundView {
        FoundView { seen: texts(self.seen@), apps: app_views(self.apps@) }
    }
}

/// Whether an application can be listed: it is not hidden, has a name and the
/// name of a desktop file, and names a program only where that can be told.
pub open spec fn listable(app: AppView) -> bool {
    &&& !app.hidden
    &&& app.name.len() > 0
    &&& ".desktop"@.is_suffix_of(app.id)
    &&& match app.executable {
        Some(program) => program.len() > 0 && !program.contains('%'),
        None => true,
    }
}

/// Whether what was found hangs together: what is listed can be, and bears a
/// name that was taken and that nothing else listed bears.
pub open spec fn consistent(found: FoundView) -> bool {
    &&& forall|i: int|
        0 <= i < found.apps.len() ==> listable(#[trigger] found.apps[i]) && found.seen.contains(
            found.apps[i].id,
        )
    &&& forall|i: int, j: int|
        0 <= i < j < found.apps.len() ==> (#[trigger] found.apps[i]).id != (
        #[trigger] found.apps[j]).id
}

impl Discovery {
    /// What is found hangs together.
    pub open spec fn wf(&self) -> bool {
        consistent(self@)
    }

    pub fn new() -> (r: Discovery)
        ensures
            r@ == nothing_found(),
            r.wf(),
    {
        let r = Discovery { seen: Vec::new(), apps: Vec::new() };
        assert(r@ =~= nothing_found());
        r
    }

    /// Whether a file with this name was there before.
    pub fn is_claimed(&self, id: &str) -> (r: bool)
        ensures
            r == self@.seen.contains(id@),
    {
        let mut i: usize = 0;
        while i < self.seen.len()
            invariant
                i <= self.seen@.len(),
                forall|j: int| 0 <= j < i ==> texts(self.seen@)[j] != id@,
            decreases self.seen@.len() - i,
        {
            if same(self.seen[i].as_str(), id) {
                assert(self@.seen[i as int] == id@);
                return true;
            }
            i += 1;
        }
        false
    }

    /// Takes the name of a file; whether the file has to be read: the first one
    /// of a name has.
    pub fn claim(&mut self, id: &str) -> (r: bool)
        requires
            old(self).wf(),
        ensures
            r == !old(self)@.seen.contains(id@),
            final(self)@ == claimed(old(self)@, id@),
            final(self).wf(),
    {
        if self.is_claimed(id) {
            return false;
        }
        let name = id.to_owned();
        self.seen.push(name);
        proof {
            assert(texts(self.seen@) =~= old(self)@.seen.push(id@));
            lemma_claimed(old(self)@, id@);
        }
        true
    }

    /// Lists an application under a name that was taken.
    pub fn accept(&mut self, app: DesktopApp)
        requires
            old(self).wf(),
            listable(app@),
            old(self)@.seen.contains(app@.id),
            forall|i: int|
                0 <= i < old(self)@.apps.len() ==> (#[trigger] old(self)@.apps[i]).id != app@.id,
        ensures
            final(self)@ == (FoundView { apps: old(self)@.apps.push(app@), ..old(self)@ }),
            final(self).wf(),
    {
        self.apps.push(app);
        assert(app_views(self.apps@) =~= old(self)@.apps.push(app@));
    }

    /// Takes in a desktop file, given whether the program that it is to be
    /// listed for can be run.
    pub fn take_file(&mut self, id: &str, contents: &[u8], available: bool)
        requires
            old(self).wf(),
            ".desktop"@.is_suffix_of(id@),
        ensures
            final(self)@ == with_file(
                old(self)@,
                DesktopFile { id: id@, contents: utf8_lossy(contents@), available },
            ),
            forall|files: Seq<DesktopFile>|
                old(self)@ == discovered(files) ==> final(self)@ == #[trigger] discovered(
                    files.push(DesktopFile { id: id@, contents: utf8_lossy(contents@), available }),
                ),
            final(self).wf(),
    {
        let ghost file = DesktopFile { id: id@, contents: utf8_lossy(contents@), available };
        proof {
            assert forall|files: Seq<DesktopFile>| true implies #[trigger] discovered(
                files.push(file),
            ) == with_file(discovered(files), file) by {
                assert(files.push(file).drop_last() =~= files);
            }
            lemma_claimed(self@, id@);
            lemma_candidate(id@, file.contents);
        }
        if !self.claim(id) {
            return;
        }
        match judge_file(id, contents) {
            Candidate::Skip => {},
            Candidate::Accept(app) => self.accept(app),
            Candidate::IfAvailable(_, app) => if available {
                self.accept(app);
            },
        }
    }
}

/// A name that is taken leaves what was found as it was.
proof fn lemma_claimed(found: FoundView, id: Seq<char>)
    requires
        consistent(found),
    ensures
        consistent(claimed(found, id)),
        claimed(found, id).seen.contains(id),
        !found.seen.contains(id) ==> forall|i: int|
            0 <= i < found.apps.len() ==> (#[trigger] found.apps[i]).id != id,
{
    let after = claimed(found, id);
    if !found.seen.contains(id) {
        assert(after.seen[found.seen.len() as int] == id);
        assert forall|i: int| 0 <= i < after.apps.len() implies listable(#[trigger] after.apps[i])
            && after.seen.contains(after.apps[i].id) by {
            assert(found.seen.contains(found.apps[i].id));
            let k = choose|k: int|
                0 <= k < found.seen.len() && found.seen[k] == found.apps[i].id;
            assert(after.seen[k] == after.apps[i].id);
        }
    }
}

/// What a desktop file is listed as can be listed, under the name of the file.
proof fn lemma_candidate(id: Seq<char>, contents: Seq<char>)
    requires
        ".desktop"@.is_suffix_of(id),
    ensures
        match candidate(id, contents) {
            Candidate::Skip => true,
            Candidate::Accept(app) => listable(app) && app.id == id,
            Candidate::IfAvailable(_, app) => listable(app) && app.id == id,
        },
{
}

/// Nothing found yet.
pub open spec fn nothing_found() -> FoundView {
    FoundView { seen: Seq::empty(), apps: Seq::empty() }
}

/// A name taken, where it was not yet.
pub open spec fn claimed(found: FoundView, id: Seq<char>) -> FoundView {
    if found.seen.contains(id) {
        found
    } else {
        FoundView { seen: found.seen.push(id), ..found }
    }
}

/// The names of applications.
pub open spec fn app_ids(apps: Seq<AppView>) -> Seq<Seq<char>> {
    Seq::new(apps.len(), |i: int| apps[i].id)
}

/// Applications in the order of their names.
pub open spec fn by_id(apps: Seq<AppView>) -> Seq<AppView> {
    Seq::new(apps.len(), |i: int| apps[ranked(app_ids(apps))[i]])
}

/// Whether applications stand in the order of their names and no two have the
/// same.
pub open spec fn strictly_by_id(apps: Seq<AppView>) -> bool {
    forall|i: int, j: int|
        0 <= i < j < apps.len() ==> text_le((#[trigger] apps[i]).id, (#[trigger] apps[j]).id)
            && apps[i].id != apps[j].id
}

proof fn lemma_by_id(found: FoundView)
    requires
        consistent(found),
    ensures
        strictly_by_id(by_id(found.apps)),
        forall|i: int|
            0 <= i < by_id(found.apps).len() ==> listable(#[trigger] by_id(found.apps)[i]),
{
    let apps = found.apps;
    let ids = app_ids(apps);
    law_ranks_sort(ids);
    assert forall|i: int, j: int| 0 <= i < j < apps.len() implies text_le(
        (#[trigger] by_id(apps)[i]).id,
        (#[trigger] by_id(apps)[j]).id,
    ) && by_id(apps)[i].id != by_id(apps)[j].id by {
        let a = ranked(ids)[i];
        let b = ranked(ids)[j];
        assert(a != b);
        assert(text_le(ids[a], ids[b]));
        if a < b {
            assert(apps[a].id != apps[b].id);
        } else {
            assert(apps[b].id != apps[a].id);
        }
    }
    assert forall|i: int| 0 <= i < apps.len() implies listable(#[trigger] by_id(apps)[i]) by {
        assert(0 <= ranked(ids)[i] < apps.len());
    }
}

/// The applications that were found, strictly in the order of their names. None
/// is hidden, and each has a name.
pub fn installed_apps(found: &Discovery) -> (r: Vec<DesktopApp>)
    requires
        found.wf(),
    ensures
        app_views(r@) == by_id(found@.apps),
        strictly_by_id(app_views(r@)),
        forall|i: int| 0 <= i < r@.len() ==> listable((#[trigger] r@[i])@),
{
    let ghost all = found@.apps;
    let mut ids: Vec<String> = Vec::new();
    let mut i: usize = 0;
    while i < found.apps.len()
        invariant
            i <= found.apps@.len(),
            all == app_views(found.apps@),
            texts(ids@) == app_ids(all).take(i as int),
        decreases found.apps@.len() - i,
    {
        let ghost was = ids@;
        let id = found.apps[i].id.clone();
        ids.push(id);
        assert(texts(ids@) =~= texts(was).push(id@));
        assert(app_ids(all).take(i + 1) =~= app_ids(all).take(i as int).push(id@));
        i += 1;
    }
    assert(app_ids(all).take(i as int) =~= app_ids(all));
    let order = sort_order(&ids);
    let mut out: Vec<DesktopApp> = Vec::new();
    let mut k: usize = 0;
    while k < order.len()
        invariant
            k <= order@.len() == found.apps@.len(),
            all == app_views(found.apps@),
            forall|j: int|
                0 <= j < order@.len() ==> #[trigger] order@[j] == ranked(app_ids(all))[j]
                    && order@[j] < found.apps@.len(),
            app_views(out@) == by_id(all).take(k as int),
        decreases order@.len() - k,
    {
        let ghost was = out@;
        let app = found.apps[order[k]].clone();
        out.push(app);
        assert(app_views(out@) =~= app_views(was).push(app@));
        assert(by_id(all).take(k + 1) =~= by_id(all).take(k as int).push(app@));
        k += 1;
    }
    assert(by_id(all).take(k as int) =~= by_id(all));
    proof {
        lemma_by_id(found@);
        assert forall|i: int| 0 <= i < out@.len() implies listable((#[trigger] out@[i])@) by {
            assert(app_views(out@)[i] == by_id(all)[i]);
        }
    }
    out
}

/// A desktop file: its name, its text, and whether the program that it is to
/// be listed for can be run.
pub struct DesktopFile {
    pub id: Seq<char>,
    pub contents: Seq<char>,
    pub available: bool,
}

/// The application that a file stands for, where it is listed.
pub open spec fn kept(file: DesktopFile) -> Option<AppView> {
    match candidate(file.id, file.contents) {
        Candidate::Skip => None,
        Candidate::Accept(app) => Some(app),
        Candidate::IfAvailable(_, app) => if file.available {
            Some(app)
        } else {
            None
        },
    }
}

/// What is found once one more file was taken in: where its name was not taken
/// yet, it is taken, and the file is listed or not.
pub open spec fn with_file(found: FoundView, file: DesktopFile) -> FoundView {
    let now = claimed(found, file.id);
    if found.seen.contains(file.id) {
        now
    } else {
        match kept(file) {
            Some(app) => FoundView { apps: now.apps.push(app), ..now },
            None => now,
        }
    }
}

/// What is found in files, one after another.
pub open spec fn discovered(files: Seq<DesktopFile>) -> FoundView
    decreases files.len(),
{
    if files.len() == 0 {
        nothing_found()
    } else {
        with_file(discovered(files.drop_last()), files.last())
    }
}

/// Whether no file before this one has its name.
pub open spec fn comes_first(files: Seq<DesktopFile>, i: int) -> bool {
    0 <= i < files.len() && forall|j: int| 0 <= j < i ==> (#[trigger] files[j]).id != files[i].id
}

proof fn lemma_discovered(files: Seq<DesktopFile>)
    ensures
        forall|k: int| 0 <= k < files.len() ==> discovered(files).seen.contains(
            (#[trigger] files[k]).id,
        ),
        forall|k: int|
            0 <= k < discovered(files).seen.len() ==> exists|j: int|
                0 <= j < files.len() && (#[trigger] files[j]).id
                    == #[trigger] discovered(files).seen[k],
        forall|k: int|
            0 <= k < discovered(files).apps.len() ==> discovered(files).seen.contains(
                (#[trigger] discovered(files).apps[k]).id,
            ),
        forall|i: int| #[trigger]
            comes_first(files, i) && kept(files[i]) is Some ==> discovered(files).apps.contains(
                kept(files[i])->Some_0,
            ),
        forall|i: int, k: int| #[trigger]
            comes_first(files, i) && 0 <= k < discovered(files).apps.len()
                && (#[trigger] discovered(files).apps[k]).id == files[i].id ==> kept(files[i])
                == Some(discovered(files).apps[k]),
    decreases files.len(),
{
    if files.len() > 0 {
        let front = files.drop_last();
        let last = files.len() - 1;
        let before = discovered(front);
        let after = discovered(files);
        lemma_discovered(front);
        assert forall|k: int| 0 <= k < files.len() implies after.seen.contains(
            (#[trigger] files[k]).id,
        ) by {
            if k < last {
                assert(front[k] == files[k]);
                let m = choose|m: int|
                    0 <= m < before.seen.len() && before.seen[m] == files[k].id;
                assert(after.seen[m] == files[k].id);
            } else if !before.seen.contains(files[last].id) {
                assert(after.seen[before.seen.len() as int] == files[last].id);
            }
        }
        assert forall|k: int| 0 <= k < after.seen.len() implies exists|j: int|
            0 <= j < files.len() && (#[trigger] files[j]).id == #[trigger] after.seen[k] by {
            if k < before.seen.len() {
                assert(after.seen[k] == before.seen[k]);
                let j = choose|j: int|
                    0 <= j < front.len() && (#[trigger] front[j]).id == before.seen[k];
                assert(files[j].id == after.seen[k]);
            } else {
                assert(files[last].id == after.seen[k]);
            }
        }
        assert forall|k: int| 0 <= k < after.apps.len() implies after.seen.contains(
            (#[trigger] after.apps[k]).id,
        ) by {
            if k < before.apps.len() {
                assert(before.seen.contains(before.apps[k].id));
                let m = choose|m: int|
                    0 <= m < before.seen.len() && before.seen[m] == before.apps[k].id;
                assert(after.seen[m] == after.apps[k].id);
            } else {
                assert(after.seen[before.seen.len() as int] == files[last].id);
            }
        }
        assert forall|i: int| #[trigger]
            comes_first(files, i) && kept(files[i]) is Some implies after.apps.contains(
            kept(files[i])->Some_0,
        ) by {
            if i < last {
                lemma_first_in_front(files, i);
                let m = choose|m: int|
                    0 <= m < before.apps.len() && before.apps[m] == kept(files[i])->Some_0;
                assert(after.apps[m] == kept(files[i])->Some_0);
            } else {
                lemma_last_is_new(files);
                assert(after.apps[before.apps.len() as int] == kept(files[i])->Some_0);
            }
        }
        assert forall|i: int, k: int| #[trigger]
            comes_first(files, i) && 0 <= k < after.apps.len() && (#[trigger] after.apps[k]).id
                == files[i].id implies kept(files[i]) == Some(after.apps[k]) by {
            if i < last {
                lemma_first_in_front(files, i);
                if k < before.apps.len() {
                    assert(before.apps[k].id == front[i].id);
                } else {
                    assert(before.seen.contains(front[i].id));
                }
            } else {
                lemma_last_is_new(files);
                if k < before.apps.len() {
                    assert(before.seen.contains(before.apps[k].id));
                }
            }
        }
    }
}

proof fn lemma_first_in_front(files: Seq<DesktopFile>, i: int)
    requires
        comes_first(files, i),
        i < files.len() - 1,
    ensures
        comes_first(files.drop_last(), i),
        files.drop_last()[i] == files[i],
{
    let front = files.drop_last();
    assert forall|j: int| 0 <= j < i implies (#[trigger] front[j]).id != front[i].id by {
        assert(files[j].id != files[i].id);
    }
}

proof fn lemma_last_is_new(files: Seq<DesktopFile>)
    requires
        comes_first(files, files.len() - 1),
    ensures
        !discovered(files.drop_last()).seen.contains(files.last().id),
{
    let front = files.drop_last();
    lemma_discovered_names(front);
    if discovered(front).seen.contains(files.last().id) {
        let k = choose|k: int|
            0 <= k < discovered(front).seen.len() && discovered(front).seen[k] == files.last().id;
        let j = choose|j: int|
            0 <= j < front.len() && (#[trigger] front[j]).id == discovered(front).seen[k];
        assert(files[j].id == files[files.len() - 1].id);
    }
}

proof fn lemma_discovered_names(files: Seq<DesktopFile>)
    ensures
        forall|k: int|
            0 <= k < discovered(files).seen.len() ==> exists|j: int|
                0 <= j < files.len() && (#[trigger] files[j]).id
                    == #[trigger] discovered(files).seen[k],
    decreases files.len(),
{
    if files.len() > 0 {
        let front = files.drop_last();
        lemma_discovered_names(front);
        let before = discovered(front);
        let after = discovered(files);
        assert forall|k: int| 0 <= k < after.seen.len() implies exists|j: int|
            0 <= j < files.len() && (#[trigger] files[j]).id == #[trigger] after.seen[k] by {
            if k < before.seen.len() {
                assert(after.seen[k] == before.seen[k]);
                let j = choose|j: int|
                    0 <= j < front.len() && (#[trigger] front[j]).id == before.seen[k];
                assert(files[j].id == after.seen[k]);
            } else {
                assert(files[files.len() - 1].id == after.seen[k]);
            }
        }
    }
}

/// Of the files with one name, the first decides: the application is listed
/// just as that file says, and where that file hides it, no later file brings
/// it back.
pub proof fn law_first_file_decides(files: Seq<DesktopFile>, i: int, k: int)
    requires
        comes_first(files, i),
    ensures
        kept(files[i]) is Some ==> discovered(files).apps.contains(kept(files[i])->Some_0),
        0 <= k < discovered(files).apps.len() && discovered(files).apps[k].id == files[i].id
            ==> kept(files[i]) == Some(discovered(files).apps[k]),
{
    lemma_discovered(files);
}

/// Whatever the desktop files are: those that are listed stand strictly in the
/// order of their names, none is hidden, each has a name, and a program is
/// named only where that can be told.
pub proof fn law_listed_apps_are_in_order(files: Seq<DesktopFile>)
    requires
        forall|i: int|
            0 <= i < files.len() ==> ".desktop"@.is_suffix_of((#[trigger] files[i]).id),
    ensures
        consistent(discovered(files)),
        strictly_by_id(by_id(discovered(files).apps)),
        forall|i: int|
            0 <= i < by_id(discovered(files).apps).len() ==> listable(
                #[trigger] by_id(discovered(files).apps)[i],
            ),
    decreases files.len(),
{
    if files.len() > 0 {
        let front = files.drop_last();
        let file = files.last();
        assert(files[files.len() - 1] == file);
        assert forall|i: int| 0 <= i < front.len() implies ".desktop"@.is_suffix_of(
            (#[trigger] front[i]).id,
        ) by {
            assert(files[i] == front[i]);
        }
        law_listed_apps_are_in_order(front);
        lemma_claimed(discovered(front), file.id);
        lemma_candidate(file.id, file.contents);
    }
    lemma_by_id(discovered(files));
}

/// The name of the desktop file that a query stands for.
pub open spec fn file_name(query: Seq<char>) -> Seq<char> {
    if ".desktop"@.is_suffix_of(query) {
        query
    } else {
        query + ".desktop"@
    }
}

/// The first application with a name.
pub open spec fn with_id(apps: Seq<AppView>, id: Seq<char>) -> Option<AppView>
    decreases apps.len(),
{
    if apps.len() == 0 {
        None
    } else {
        match with_id(apps.drop_last(), id) {
            Some(app) => Some(app),
            None => if apps.last().id == id {
                Some(apps.last())
            } else {
                None
            },
        }
    }
}

/// The applications whose folded name, listed beside them, is the wanted one.
pub open spec fn with_name(apps: Seq<AppView>, folded: Seq<Seq<char>>, wanted: Seq<char>) -> Seq<
    AppView,
>
    decreases apps.len(),
{
    if apps.len() == 0 {
        Seq::empty()
    } else {
        let before = with_name(apps.drop_last(), folded, wanted);
        if folded[apps.len() - 1] == wanted {
            before.push(apps.last())
        } else {
            before
        }
    }
}

/// The one application that a folded name stands for.
pub open spec fn named_app(
    query: Seq<char>,
    wanted: Seq<char>,
    apps: Seq<AppView>,
    folded: Seq<Seq<char>>,
) -> Result<AppView, FaultView> {
    let matches = with_name(apps, folded, wanted);
    if matches.len() == 0 {
        Err(
            FaultView {
                kind: FaultKind::DesktopAppNotFound,
                message: "no desktop application exactly matches "@ + quoted(query),
            },
        )
    } else if matches.len() == 1 {
        Ok(matches[0])
    } else {
        Err(
            general(
                "desktop application name "@ + quoted(query) + " is ambiguous; matching IDs: "@
                    + joined(sorted_texts(app_ids(matches)), ", "@),
            ),
        )
    }
}

/// The names of applications in lower case.
pub open spec fn folded_names(apps: Seq<AppView>) -> Seq<Seq<char>> {
    Seq::new(apps.len(), |i: int| lowercase(apps[i].name))
}

/// The application that a query stands for: by the name of its file, or else
/// by its whole name, regardless of case.
pub open spec fn resolved_app(query: Seq<char>, apps: Seq<AppView>) -> Result<AppView, FaultView> {
    let q = trimmed(query);
    if q.len() == 0 {
        Err(general("desktop application query must not be empty"@))
    } else {
        match with_id(apps, file_name(q)) {
            Some(app) => Ok(app),
            None => named_app(q, lowercase(q), apps, folded_names(apps)),
        }
    }
}

fn find_id(apps: &Vec<DesktopApp>, id: &str) -> (r: Option<usize>)
    ensures
        match r {
            Some(i) => i < apps@.len() && with_id(app_views(apps@), id@) == Some(apps@[i as int]@),
            None => with_id(app_views(apps@), id@) is None,
        },
{
    let ghost all = app_views(apps@);
    let mut i: usize = apps.len();
    let mut at: Option<usize> = None;
    assert(all.take(i as int) =~= all);
    while i > 0
        invariant
            i <= apps@.len(),
            all == app_views(apps@),
            match at {
                Some(k) => k < apps@.len(),
                None => true,
            },
            with_id(all, id@) == (match with_id(all.take(i as int), id@) {
                Some(app) => Some(app),
                None => match at {
                    Some(k) => Some(all[k as int]),
                    None => None,
                },
            }),
        decreases i,
    {
        assert(all.take(i as int).drop_last() =~= all.take(i - 1));
        i -= 1;
        if same(apps[i].id.as_str(), id) {
            at = Some(i);
        }
    }
    at
}

fn find_named(apps: &Vec<DesktopApp>, folded: &Vec<String>, wanted: &str) -> (r: Vec<usize>)
    requires
        folded@.len() == apps@.len(),
    ensures
        with_name(app_views(apps@), texts(folded@), wanted@).len() == r@.len(),
        forall|i: int|
            0 <= i < r@.len() ==> #[trigger] r@[i] < apps@.len() && apps@[r@[i] as int]@
                == with_name(app_views(apps@), texts(folded@), wanted@)[i],
{
    let ghost all = app_views(apps@);
    let mut found: Vec<usize> = Vec::new();
    let mut i: usize = 0;
    while i < apps.len()
        invariant
            i <= apps@.len() == folded@.len(),
            all == app_views(apps@),
            with_name(all.take(i as int), texts(folded@), wanted@).len() == found@.len(),
            forall|k: int|
                0 <= k < found@.len() ==> #[trigger] found@[k] < apps@.len()
                    && apps@[found@[k] as int]@ == with_name(
                    all.take(i as int),
                    texts(folded@),
                    wanted@,
                )[k],
        decreases apps@.len() - i,
    {
        assert(all.take(i + 1).drop_last() =~= all.take(i as int));
        if same(folded[i].as_str(), wanted) {
            found.push(i);
        }
        i += 1;
    }
    assert(all.take(i as int) =~= all);
    found
}

/// Finds the one application that a folded name stands for, given the folded
/// names of all.
pub fn resolve_by_name(
    query: &str,
    wanted: &str,
    apps: &Vec<DesktopApp>,
    folded: &Vec<String>,
) -> (r: Result<DesktopApp, Fault>)
    requires
        folded@.len() == apps@.len(),
    ensures
        agrees(r, named_app(query@, wanted@, app_views(apps@), texts(folded@))),
{
    let found = find_named(apps, folded, wanted);
    if found.len() == 0 {
        let mut message = "no desktop application exactly matches ".to_owned();
        message.append(quote(query).as_str());
        return Err(Fault { kind: FaultKind::DesktopAppNotFound, message });
    }
    if found.len() == 1 {
        return Ok(apps[found[0]].clone());
    }
    let ghost matches = with_name(app_views(apps@), texts(folded@), wanted@);
    let mut ids: Vec<String> = Vec::new();
    let mut i: usize = 0;
    while i < found.len()
        invariant
            i <= found@.len() == matches.len(),
            forall|k: int|
                0 <= k < found@.len() ==> #[trigger] found@[k] < apps@.len()
                    && apps@[found@[k] as int]@ == matches[k],
            texts(ids@) == app_ids(matches).take(i as int),
        decreases found@.len() - i,
    {
        let ghost was = ids@;
        let id = apps[found[i]].id.clone();
        ids.push(id);
        assert(texts(ids@) =~= texts(was).push(id@));
        assert(app_ids(matches).take(i + 1) =~= app_ids(matches).take(i as int).push(id@));
        i += 1;
    }
    assert(app_ids(matches).take(i as int) =~= app_ids(matches));
    let sorted = sort_texts(&ids);
    let mut message = "desktop application name ".to_owned();
    message.append(quote(query).as_str());
    message.append(" is ambiguous; matching IDs: ");
    message.append(join(&sorted, ", ").as_str());
    Err(Fault::new(message))
}

fn fold_names(apps: &Vec<DesktopApp>) -> (r: Vec<String>)
    ensures
        texts(r@) == folded_names(app_views(apps@)),
        r@.len() == apps@.len(),
{
    let ghost wanted = folded_names(app_views(apps@));
    let mut out: Vec<String> = Vec::new();
    let mut i: usize = 0;
    while i < apps.len()
        invariant
            i <= apps@.len(),
            out@.len() == i,
            wanted == folded_names(app_views(apps@)),
            texts(out@) == wanted.take(i as int),
        decreases apps@.len() - i,
    {
        let ghost was = out@;
        let name = to_lowercase(apps[i].name.as_str());
        out.push(name);
        assert(texts(out@) =~= texts(was).push(name@));
        assert(wanted.take(i + 1) =~= wanted.take(i as int).push(name@));
        i += 1;
    }
    assert(wanted.take(i as int) =~= wanted);
    out
}

/// Finds the application that a query stands for among the given ones.
pub fn resolve_from_apps(query: &str, apps: &Vec<DesktopApp>) -> (r: Result<DesktopApp, Fault>)
    ensures
        agrees(r, resolved_app(query@, app_views(apps@))),
{
    let query = trim(query);
    if query.unicode_len() == 0 {
        return Err(Fault::of("desktop application query must not be empty"));
    }
    let mut exact = query.to_owned();
    if !ends_with(query, ".desktop") {
        exact.append(".desktop");
    }
    if let Some(at) = find_id(apps, exact.as_str()) {
        return Ok(apps[at].clone());
    }
    let folded = fold_names(apps);
    let wanted = to_lowercase(query);
    resolve_by_name(query, wanted.as_str(), apps, &folded)
}

/// Finds the application that a query stands for among those that were found.
pub fn resolve_desktop_app(query: &str, found: &Discovery) -> (r: Result<DesktopApp, Fault>)
    requires
        found.wf(),
    ensures
        agrees(r, resolved_app(query@, by_id(found@.apps))),
{
    let apps = installed_apps(found);
    resolve_from_apps(query, &apps)
}

/// A query resolves only to a listed application: one whose file has that
/// name, or else the only one of that name.
pub proof fn law_app_resolution_is_exact(query: Seq<char>, apps: Seq<AppView>)
    requires
        resolved_app(query, apps) is Ok,
    ensures
        ({
            let app = resolved_app(query, apps)->Ok_0;
            &&& apps.contains(app)
            &&& app.id == file_name(trimmed(query)) || (lowercase(app.name) == lowercase(
                trimmed(query),
            ) && forall|i: int|
                0 <= i < apps.len() && lowercase((#[trigger] apps[i]).name) == lowercase(
                    trimmed(query),
                ) ==> apps[i] == app)
        }),
{
    let q = trimmed(query);
    let app = resolved_app(query, apps)->Ok_0;
    lemma_with_id(apps, file_name(q));
    if with_id(apps, file_name(q)) is None {
        let folded = folded_names(apps);
        let all = with_name(apps, folded, lowercase(q));
        lemma_with_name(apps, folded, lowercase(q));
        let k = choose|k: int|
            0 <= k < apps.len() && #[trigger] apps[k] == all[0] && folded[k] == lowercase(q);
        assert(apps[k] == app && folded[k] == lowercase(app.name));
        assert forall|i: int|
            0 <= i < apps.len() && lowercase((#[trigger] apps[i]).name) == lowercase(q) implies apps[i]
            == app by {
            assert(folded[i] == lowercase(q));
            assert(all.contains(apps[i]));
        }
    }
}

proof fn lemma_with_id(apps: Seq<AppView>, id: Seq<char>)
    ensures
        match with_id(apps, id) {
            Some(app) => apps.contains(app) && app.id == id,
            None => true,
        },
    decreases apps.len(),
{
    if apps.len() > 0 {
        let front = apps.drop_last();
        lemma_with_id(front, id);
        match with_id(front, id) {
            Some(app) => {
                let i = choose|i: int| 0 <= i < front.len() && front[i] == app;
                assert(apps[i] == app);
            },
            None => {
                assert(apps[apps.len() - 1] == apps.last());
            },
        }
    }
}

proof fn lemma_with_name(apps: Seq<AppView>, folded: Seq<Seq<char>>, wanted: Seq<char>)
    requires
        folded.len() >= apps.len(),
    ensures
        forall|k: int|
            0 <= k < with_name(apps, folded, wanted).len() ==> exists|i: int|
                0 <= i < apps.len() && #[trigger] apps[i] == #[trigger] with_name(
                    apps,
                    folded,
                    wanted,
                )[k] && folded[i] == wanted,
        forall|i: int|
            0 <= i < apps.len() && #[trigger] folded[i] == wanted ==> with_name(
                apps,
                folded,
                wanted,
            ).contains(apps[i]),
    decreases apps.len(),
{
    if apps.len() > 0 {
        let front = apps.drop_last();
        let before = with_name(front, folded, wanted);
        let all = with_name(apps, folded, wanted);
        lemma_with_name(front, folded, wanted);
        assert forall|k: int| 0 <= k < all.len() implies exists|i: int|
            0 <= i < apps.len() && #[trigger] apps[i] == #[trigger] all[k] && folded[i]
                == wanted by {
            if k < before.len() {
                assert(all[k] == before[k]);
                let i = choose|i: int|
                    0 <= i < front.len() && #[trigger] front[i] == before[k] && folded[i] == wanted;
                assert(apps[i] == all[k]);
            } else {
                assert(apps[apps.len() - 1] == all[k]);
            }
        }
        assert forall|i: int| 0 <= i < apps.len() && #[trigger] folded[i] == wanted implies all.contains(
            apps[i],
        ) by {
            if i < front.len() {
                assert(before.contains(front[i]));
                let k = choose|k: int| 0 <= k < before.len() && before[k] == front[i];
                assert(all[k] == apps[i]);
            } else {
                assert(all[all.len() - 1] == apps[i]);
            }
        }
    }
}

/// How an application is launched.
#[derive(Debug)]
pub enum Launch<S> {
    /// Steam, by its own program, which the entry may name.
    Steam(Option<S>),
    /// Any other, through `gtk-launch`.
    Desktop,
}

impl Launch<String> {
    pub open spec fn view(self) -> Launch<Seq<char>> {
        match self {
            Launch::Steam(program) => Launch::Steam(opt_text(program)),
            Launch::Desktop => Launch::Desktop,
        }
    }
}

/// How an application is launched; a hidden one is not.
pub open spec fn launch_of(app: AppView) -> Result<Launch<Seq<char>>, FaultView> {
    if app.hidden {
        Err(
            general("hidden desktop application "@ + app.id + " cannot be launched"@),
        )
    } else if app.id == "steam.desktop"@ {
        Ok(Launch::Steam(if_any(app.executable)))
    } else {
        Ok(Launch::Desktop)
    }
}

/// Decides how an application is launched.
pub fn plan_launch(app: &DesktopApp) -> (r: Result<Launch<String>, Fault>)
    ensures
        match (r, launch_of(app@)) {
            (Ok(launch), Ok(e)) => launch@ == e,
            (Err(f), Err(e)) => f@ == e,
            _ => false,
        },
{
    if app.hidden {
        let mut message = "hidden desktop application ".to_owned();
        message.append(app.id.as_str());
        message.append(" cannot be launched");
        return Err(Fault::new(message));
    }
    if same(app.id.as_str(), "steam.desktop") {
        Ok(Launch::Steam(non_empty(copy_text(&app.executable))))
    } else {
        Ok(Launch::Desktop)
    }
}

/// The name under which `gtk-launch` knows an application.
pub open spec fn gtk_name(id: Seq<char>) -> Result<Seq<char>, FaultView> {
    if ".desktop"@.is_suffix_of(id) {
        Ok(without_suffix(id, ".desktop"@))
    } else {
        Err(general("desktop ID "@ + quoted(id) + " does not end in .desktop"@))
    }
}

/// Finds the name under which `gtk-launch` knows an application.
pub fn gtk_launch_name(id: &str) -> (r: Result<String, Fault>)
    ensures
        agrees(r, gtk_name(id@)),
{
    if !ends_with(id, ".desktop") {
        let mut message = "desktop ID ".to_owned();
        message.append(quote(id).as_str());
        message.append(" does not end in .desktop");
        return Err(Fault::new(message));
    }
    Ok(strip_suffix(id, ".desktop").to_owned())
}

/// Whether a program is Steam itself, going by the last part of its path and,
/// for the failure, by the path as it is shown.
pub open spec fn steam_check(basename: Option<Seq<char>>, shown: Seq<char>) -> Result<
    (),
    FaultView,
> {
    if basename == Some("steam"@) || basename == Some("steam-runtime"@) {
        Ok(())
    } else {
        Err(
            general(
                "unsupported Steam desktop Exec executable "@ + quoted(shown)
                    + "; expected direct steam or steam-runtime"@,
            ),
        )
    }
}

/// Refuses a program that is not Steam itself.
pub fn check_steam_program(basename: Option<&str>, shown: &str) -> (r: Result<(), Fault>)
    ensures
        agrees(
            r,
            steam_check(
                match basename {
                    Some(s) => Some(s@),
                    None => None,
                },
                shown@,
            ),
        ),
{
    if let Some(name) = basename {
        if same(name, "steam") || same(name, "steam-runtime") {
            return Ok(());
        }
    }
    let mut message = "unsupported Steam desktop Exec executable ".to_owned();
    message.append(quote(shown).as_str());
    message.append("; expected direct steam or steam-runtime");
    Err(Fault::new(message))
}

/// The program that Steam is run by: the one that its entry names, or else the
/// usual one.
pub fn steam_program(named: Option<&str>) -> (r: &str)
    ensures
        r@ == (match named {
            Some(program) => program@,
            None => "/usr/bin/steam"@,
        }),
{
    match named {
        Some(program) => program,
        None => "/usr/bin/steam",
    }
}

/// What is said where the program that Steam is run by cannot be run.
pub fn steam_program_missing(named: Option<&str>) -> (r: Fault)
    ensures
        r@ == general(
            match named {
                Some(program) => "Steam desktop Exec executable "@ + quoted(program@)
                    + " is not an executable file or was not found in PATH"@,
                None => "steam.desktop has no safely parseable Exec executable and /usr/bin/steam is not executable"@,
            },
        ),
{
    match named {
        Some(program) => {
            let mut message = "Steam desktop Exec executable ".to_owned();
            message.append(quote(program).as_str());
            message.append(" is not an executable file or was not found in PATH");
            Fault::new(message)
        },
        None => Fault::of(
            "steam.desktop has no safely parseable Exec executable and /usr/bin/steam is not executable",
        ),
    }
}

/// Whether the value that an environment variable has would switch
/// accessibility off in a launched application.
pub open spec fn switches_off(key: Seq<char>, value: Seq<char>) -> bool {
    ||| key == "NO_AT_BRIDGE"@
    ||| key == "GTK_A11Y"@ && same_ascii_folded(value, "none"@)
    ||| key == "ACCESSIBILITY_ENABLED"@ && value == "0"@
    ||| key == "GNOME_ACCESSIBILITY"@ && value == "0"@
    ||| key == "QT_ACCESSIBILITY"@ && value == "0"@
}

/// Tells whether an environment variable is withheld from a launched
/// application.
pub fn is_withheld(key: &str, value: &str) -> (r: bool)
    ensures
        r == switches_off(key@, value@),
{
    same(key, "NO_AT_BRIDGE") || (same(key, "GTK_A11Y") && eq_ignore_ascii_case(value, "none"))
        || (same(value, "0") && (same(key, "ACCESSIBILITY_ENABLED") || same(
        key,
        "GNOME_ACCESSIBILITY",
    ) || same(key, "QT_ACCESSIBILITY")))
}

/// Whether the accessibility status took, as it was read back.
pub open spec fn status_check(screen_reader: bool, enabled: bool) -> Result<(), FaultView> {
    if screen_reader && enabled {
        Ok(())
    } else {
        Err(
            general(
                "AT-SPI status verification failed: ScreenReaderEnabled="@ + bool_text(
                    screen_reader,
                ) + ", IsEnabled="@ + bool_text(enabled),
            ),
        )
    }
}

/// Fails where the accessibility status did not take.
pub fn check_accessibility_status(screen_reader: bool, enabled: bool) -> (r: Result<(), Fault>)
    ensures
        agrees(r, status_check(screen_reader, enabled)),
{
    if screen_reader && enabled {
        return Ok(());
    }
    let mut message = "AT-SPI status verification failed: ScreenReaderEnabled=".to_owned();
    message.append(show_bool(screen_reader));
    message.append(", IsEnabled=");
    message.append(show_bool(enabled));
    Err(Fault::new(message))
}

proof fn lemma_ahead(a: Seq<char>, b: Seq<char>, word: Option<Seq<char>>)
    ensures
        ahead(a, ahead(b, word)) == ahead(a + b, word),
{
    if let Some(w) = word {
        assert(a + (b + w) =~= a + b + w);
    }
}

/// Whether a character means nothing special in a command line.
pub open spec fn is_plain(c: char) -> bool {
    !is_space(c) && c != '\\' && c != '\'' && c != '"'
}

/// Whether a program can be told from its characters: it has some, and none
/// that would have to be expanded.
pub open spec fn can_be_told(w: Seq<char>) -> bool {
    w.len() > 0 && !w.contains('%') && !w.contains('\0')
}

/// Whether the first word of a command line is over where this follows.
pub open spec fn ends_the_word(tail: Seq<char>) -> bool {
    tail.len() == 0 || is_space(tail[0])
}

proof fn lemma_plain_word(w: Seq<char>, tail: Seq<char>, started: bool)
    requires
        forall|i: int| 0 <= i < w.len() ==> is_plain(#[trigger] w[i]),
    ensures
        first_word(w + tail, Quoting::Bare, started) == ahead(
            w,
            first_word(tail, Quoting::Bare, started || w.len() > 0),
        ),
    decreases w.len(),
{
    if w.len() == 0 {
        assert(w + tail =~= tail);
        if let Some(x) = first_word(tail, Quoting::Bare, started) {
            assert(w + x =~= x);
        }
    } else {
        let rest = w.drop_first();
        assert(is_plain(w[0]));
        assert forall|i: int| 0 <= i < rest.len() implies is_plain(#[trigger] rest[i]) by {
            assert(rest[i] == w[i + 1]);
        }
        assert((w + tail).drop_first() =~= rest + tail);
        lemma_plain_word(rest, tail, true);
        lemma_ahead(seq![w[0]], rest, first_word(tail, Quoting::Bare, true));
        assert(seq![w[0]] + rest =~= w);
    }
}

proof fn lemma_quoted_word(w: Seq<char>, mark: char, quoting: Quoting, tail: Seq<char>)
    requires
        mark == '"' && quoting == Quoting::Double || mark == '\'' && quoting == Quoting::Single,
        forall|i: int|
            0 <= i < w.len() ==> #[trigger] w[i] != mark && (mark == '"' ==> w[i] != '\\'),
    ensures
        first_word(w.push(mark) + tail, quoting, true) == ahead(
            w,
            first_word(tail, Quoting::Bare, true),
        ),
    decreases w.len(),
{
    let whole = w.push(mark) + tail;
    if w.len() == 0 {
        assert(whole[0] == mark);
        assert(whole.drop_first() =~= tail);
        if let Some(x) = first_word(tail, Quoting::Bare, true) {
            assert(w + x =~= x);
        }
    } else {
        let rest = w.drop_first();
        assert(whole[0] == w[0]);
        assert(w[0] != mark);
        assert forall|i: int| 0 <= i < rest.len() implies #[trigger] rest[i] != mark && (mark == '"'
            ==> rest[i] != '\\') by {
            assert(rest[i] == w[i + 1]);
        }
        assert(whole.drop_first() =~= rest.push(mark) + tail);
        lemma_quoted_word(rest, mark, quoting, tail);
        lemma_ahead(seq![w[0]], rest, first_word(tail, Quoting::Bare, true));
        assert(seq![w[0]] + rest =~= w);
    }
}

proof fn lemma_word_ends(tail: Seq<char>)
    requires
        ends_the_word(tail),
    ensures
        first_word(tail, Quoting::Bare, true) == Some(Seq::<char>::empty()),
{
    if tail.len() > 0 {
        assert(is_space(tail[0]));
    }
}

/// A command line names its first word: as it is where nothing in it is
/// special, what stands between quotes without the quotes, and a character
/// behind a backslash as that character. What would have to be expanded names
/// no program.
pub proof fn law_programs_are_named_by_the_first_word(
    w: Seq<char>,
    v: Seq<char>,
    c: char,
    tail: Seq<char>,
)
    requires
        ends_the_word(tail),
        forall|i: int| 0 <= i < w.len() ==> is_plain(#[trigger] w[i]),
        forall|i: int| 0 <= i < v.len() ==> is_plain(#[trigger] v[i]),
    ensures
        w.len() > 0 ==> program(w + tail) == (if can_be_told(w) {
            Some(w)
        } else {
            None
        }),
        w.len() > 0 ==> program(w + (seq!['\\', c] + (v + tail))) == (if can_be_told(
            w.push(c) + v,
        ) {
            Some(w.push(c) + v)
        } else {
            None
        }),
{
    lemma_word_ends(tail);
    if w.len() > 0 {
        assert(is_plain(w[0]));
        let one = w + tail;
        assert(one[0] == w[0]);
        assert(trim_front(one) == one);
        lemma_plain_word(w, tail, false);
        assert(w + Seq::<char>::empty() =~= w);
        let rest = seq!['\\', c] + (v + tail);
        let two = w + rest;
        assert(two[0] == w[0]);
        assert(trim_front(two) == two);
        lemma_plain_word(w, rest, false);
        assert(rest[0] == '\\');
        assert(rest.drop_first()[0] == c);
        assert(rest.drop_first().drop_first() =~= v + tail);
        lemma_plain_word(v, tail, true);
        assert(v + Seq::<char>::empty() =~= v);
        lemma_ahead(w, seq![c], Some(v));
        assert(w + seq![c] + v =~= w.push(c) + v);
    }
}

/// What stands between quotes is one word, with its white space and all else
/// that is special elsewhere.
pub proof fn law_quoted_programs_are_whole(w: Seq<char>, mark: char, tail: Seq<char>)
    requires
        mark == '"' || mark == '\'',
        ends_the_word(tail),
        forall|i: int|
            0 <= i < w.len() ==> #[trigger] w[i] != mark && (mark == '"' ==> w[i] != '\\'),
    ensures
        program(seq![mark] + (w.push(mark) + tail)) == (if can_be_told(w) {
            Some(w)
        } else {
            None
        }),
{
    let quoting = if mark == '"' {
        Quoting::Double
    } else {
        Quoting::Single
    };
    let line = seq![mark] + (w.push(mark) + tail);
    assert(line[0] == mark);
    assert(trim_front(line) == line);
    assert(line.drop_first() =~= w.push(mark) + tail);
    lemma_quoted_word(w, mark, quoting, tail);
    lemma_word_ends(tail);
    assert(w + Seq::<char>::empty() =~= w);
}

/// A line of the entry's own group that gives a value under a key is taken in
/// under that key alone: the white space around both does not matter, and a
/// later value takes the place of an earlier one.
pub proof fn law_values_are_taken_in_under_their_keys(
    r: Reading,
    key: Seq<char>,
    value: Seq<char>,
)
    requires
        r.inside,
        !key.contains('='),
        key.len() > 0,
        key[0] != '[',
        key[0] != '#',
    ensures
        ({
            let t = with_line(r, key.push('=') + value);
            let k = trimmed(key);
            let v = trimmed(value);
            ||| k == "Type"@ && t == (Reading { kind: Some(v), ..r })
            ||| k == "Name"@ && t == (Reading { name: Some(v), ..r })
            ||| k == "Exec"@ && t == (Reading { command: Some(v), ..r })
            ||| k == "TryExec"@ && t == (Reading { try_exec: Some(v), ..r })
            ||| k == "Hidden"@ && t == (Reading { hidden: same_ascii_folded(v, "true"@), ..r })
            ||| k == "NoDisplay"@ && t == (Reading {
                no_display: same_ascii_folded(v, "true"@),
                ..r
            })
            ||| k == "DBusActivatable"@ && t == (Reading {
                dbus_activatable: same_ascii_folded(v, "true"@),
                ..r
            })
            ||| t == r && k != "Type"@ && k != "Name"@ && k != "Exec"@ && k != "TryExec"@ && k
                != "Hidden"@ && k != "NoDisplay"@ && k != "DBusActivatable"@
        }),
{
    let line = key.push('=') + value;
    let n = key.len() as int;
    reveal_strlit("[");
    reveal_strlit("#");
    assert(line[0] == key[0]);
    assert("["@[0] == '[' && "#"@[0] == '#');
    crate::text::law_first_occurrences_are_first(line, '=');
    let f = crate::text::first_at(line, '=');
    assert(line[n] == '=');
    if f < 0 {
        assert(line.contains('='));
    }
    if f < n {
        assert(line[f] == key[f]);
        assert(key.contains('='));
    }
    assert(f == n);
    assert(line.subrange(0, n) =~= key);
    assert(line.subrange(n + 1, line.len() as int) =~= value);
}

/// Lines are read one after another, each without the white space around it; a
/// heading decides whether those behind it count, and nothing counts before
/// the first.
pub proof fn law_lines_are_read_in_order(lines: Seq<Seq<char>>, line: Seq<char>)
    ensures
        read_lines(lines.push(line)) == with_line(read_lines(lines), trimmed(line)),
        !read_lines(Seq::empty()).inside,
        entry_of(read_lines(Seq::empty())) is None,
        trimmed(line) == "[Desktop Entry]"@ ==> read_lines(lines.push(line)) == (Reading {
            inside: true,
            ..read_lines(lines)
        }),
{
    assert(lines.push(line).drop_last() =~= lines);
    if trimmed(line) == "[Desktop Entry]"@ {
        reveal_strlit("[Desktop Entry]");
        reveal_strlit("[");
        reveal_strlit("]");
        let t = trimmed(line);
        assert(t.len() == 15);
        assert("["@ =~= t.subrange(0, 1));
        assert("]"@ =~= t.subrange(14, 15));
    }
}

/// An entry is one of an application that has a name, and says what was read:
/// its name, its program, the program that has to be there, and its flags.
pub proof fn law_entries_say_what_was_read(r: Reading)
    ensures
        entry_of(r) is Some <==> r.kind == Some("Application"@) && r.name is Some
            && r.name->Some_0.len() > 0,
        entry_of(r) matches Some(e) ==> {
            &&& Some(e.name) == r.name
            &&& r.command is None ==> e.executable is None
            &&& r.command matches Some(c) ==> e.executable == program(c)
            &&& e.try_exec == (if r.try_exec is Some && r.try_exec->Some_0.len() > 0 {
                r.try_exec
            } else {
                None
            })
            &&& e.hidden == r.hidden && e.no_display == r.no_display && e.dbus_activatable
                == r.dbus_activatable
        },
{
}

/// A desktop file is listed where it holds an entry that is not hidden, and the
/// program that the entry asks for, where it asks for one, can be run.
pub proof fn law_files_are_listed_as_they_say(file: DesktopFile)
    ensures
        match desktop_entry(file.contents) {
            None => kept(file) is None,
            Some(e) => {
                &&& kept(file) is Some <==> !e.hidden && (e.try_exec is None || file.available)
                &&& kept(file) matches Some(app) ==> app == (AppView {
                    id: file.id,
                    name: e.name,
                    executable: e.executable,
                    hidden: false,
                    no_display: e.no_display,
                })
                &&& candidate(file.id, file.contents) matches Candidate::IfAvailable(program, _)
                    ==> e.try_exec == Some(program)
            },
        },
{
}

/// A query stands for the application whose file has that name, with or without
/// its ending, before any that is merely called so.
pub proof fn law_files_go_before_names(query: Seq<char>, apps: Seq<AppView>, i: int)
    requires
        0 <= i < apps.len(),
        trimmed(query).len() > 0,
        apps[i].id == trimmed(query) && ".desktop"@.is_suffix_of(trimmed(query)) || apps[i].id
            == trimmed(query) + ".desktop"@ && !".desktop"@.is_suffix_of(trimmed(query)),
        forall|j: int| 0 <= j < i ==> (#[trigger] apps[j]).id != apps[i].id,
    ensures
        resolved_app(query, apps) == Ok::<AppView, FaultView>(apps[i]),
{
    lemma_first_with_id(apps, apps[i].id, i);
}

proof fn lemma_first_with_id(apps: Seq<AppView>, id: Seq<char>, i: int)
    requires
        0 <= i <= apps.len(),
        forall|j: int| 0 <= j < i ==> (#[trigger] apps[j]).id != id,
        i < apps.len() ==> apps[i].id == id,
    ensures
        with_id(apps, id) == (if i < apps.len() {
            Some(apps[i])
        } else {
            None
        }),
    decreases apps.len(),
{
    if apps.len() > 0 {
        let rest = apps.drop_last();
        assert(forall|j: int| 0 <= j < rest.len() ==> #[trigger] apps[j] == rest[j]);
        assert(apps[apps.len() - 1] == apps.last());
        lemma_first_with_id(
            rest,
            id,
            if i < rest.len() {
                i
            } else {
                rest.len() as int
            },
        );
    }
}

/// Where no file has the name, a query stands for the one application that is
/// called so, whatever the case; where there is none, that is told apart from
/// other failures.
pub proof fn law_the_only_app_of_a_name_is_found(query: Seq<char>, apps: Seq<AppView>, i: int)
    requires
        0 <= i <= apps.len(),
        trimmed(query).len() > 0,
        forall|j: int|
            0 <= j < apps.len() ==> (#[trigger] apps[j]).id != trimmed(query) && apps[j].id
                != trimmed(query) + ".desktop"@,
        forall|j: int|
            0 <= j < apps.len() ==> (lowercase((#[trigger] apps[j]).name) == lowercase(
                trimmed(query),
            ) <==> j == i),
    ensures
        i < apps.len() ==> resolved_app(query, apps) == Ok::<AppView, FaultView>(apps[i]),
        i == apps.len() ==> resolved_app(query, apps) is Err && resolved_app(query, apps)->Err_0.kind
            == FaultKind::DesktopAppNotFound,
{
    let q = trimmed(query);
    assert forall|j: int| 0 <= j < apps.len() implies (#[trigger] apps[j]).id != file_name(q) by {}
    lemma_first_with_id(apps, file_name(q), apps.len() as int);
    lemma_only_with_name(apps, folded_names(apps), lowercase(q), i);
}

proof fn lemma_only_with_name(apps: Seq<AppView>, folded: Seq<Seq<char>>, wanted: Seq<char>, i: int)
    requires
        0 <= i,
        folded.len() >= apps.len(),
        forall|j: int| 0 <= j < apps.len() ==> (#[trigger] folded[j] == wanted <==> j == i),
    ensures
        with_name(apps, folded, wanted) == (if i < apps.len() {
            seq![apps[i]]
        } else {
            Seq::empty()
        }),
    decreases apps.len(),
{
    if apps.len() > 0 {
        lemma_only_with_name(apps.drop_last(), folded, wanted, i);
        assert(folded[apps.len() - 1] == wanted <==> apps.len() - 1 == i);
        assert(with_name(apps, folded, wanted) =~= if i < apps.len() {
            seq![apps[i]]
        } else {
            Seq::empty()
        });
    }
}

/// An application that is hidden is not launched, Steam is launched by its own
/// program, and any other by the name of its file without the ending.
pub proof fn law_apps_are_launched_by_their_files(app: AppView, name: Seq<char>)
    ensures
        launch_of(app) is Err <==> app.hidden,
        launch_of(app) matches Ok(Launch::Steam(program)) ==> app.id == "steam.desktop"@ && (
        program is Some ==> program == app.executable) && (program is None ==> app.executable
            is None || app.executable->Some_0.len() == 0),
        launch_of(app) matches Ok(Launch::Desktop) ==> app.id != "steam.desktop"@,
        gtk_name(name + ".desktop"@) == Ok::<Seq<char>, FaultView>(name),
{
    let id = name + ".desktop"@;
    let ending = ".desktop"@;
    assert(ending =~= id.subrange(id.len() - ending.len(), id.len() as int));
    assert(id.subrange(0, id.len() - ending.len()) =~= name);
}

/// The path of a name below a directory is the directory, one slash, and the
/// name; without a directory it is the name.
pub proof fn law_paths_lie_below_their_directories(dir: Seq<u8>, name: Seq<u8>)
    ensures
        dir.len() == 0 ==> below(dir, name) == name,
        dir.len() > 0 && dir.last() == 47 ==> below(dir, name) == dir + name,
        dir.len() > 0 && dir.last() != 47 ==> below(dir, name) == dir + seq![47u8] + name,
{
    assert(dir.push(47u8) =~= dir + seq![47u8]);
    if dir.len() == 0 {
        assert(dir + name =~= name);
    }
}

/// Bytes are taken apart at every occurrence of a mark and nowhere else.
pub proof fn law_bytes_are_split_at_each_mark(a: Seq<u8>, b: Seq<u8>, mark: u8)
    ensures
        parts_at(a.push(mark) + b, mark) == parts_at(a, mark) + parts_at(b, mark),
        !a.contains(mark) ==> parts_at(a, mark) == seq![a],
        parts_at(b, mark).len() > 0,
    decreases a.len() + b.len(),
{
    if !a.contains(mark) && a.len() > 0 {
        assert(a.last() == a[a.len() - 1]);
        assert(!a.drop_last().contains(mark)) by {
            if a.drop_last().contains(mark) {
                let i = choose|i: int| 0 <= i < a.drop_last().len() && a.drop_last()[i] == mark;
                assert(a[i] == mark);
            }
        }
        law_bytes_are_split_at_each_mark(a.drop_last(), Seq::empty(), mark);
        assert(a.drop_last().push(a.last()) =~= a);
        assert(parts_at(a, mark) =~= seq![a]);
    } else if a.len() == 0 {
        assert(a =~= Seq::<u8>::empty());
        assert(parts_at(a, mark) =~= seq![a]);
    }
    let whole = a.push(mark) + b;
    if b.len() == 0 {
        assert(whole =~= a.push(mark));
        assert(a.push(mark).drop_last() =~= a);
        assert(parts_at(whole, mark) =~= parts_at(a, mark) + parts_at(b, mark));
    } else {
        assert(whole.drop_last() =~= a.push(mark) + b.drop_last());
        law_bytes_are_split_at_each_mark(a, b.drop_last(), mark);
        assert(parts_at(whole, mark) =~= parts_at(a, mark) + parts_at(b, mark));
    }
}

proof fn lemma_searched(a: Seq<Seq<u8>>, b: Seq<Seq<u8>>)
    ensures
        searched(a + b) == searched(a) + searched(b),
    decreases b.len(),
{
    if b.len() == 0 {
        assert(a + b =~= a);
        assert(searched(a) + searched(b) =~= searched(a));
    } else {
        assert((a + b).drop_last() =~= a + b.drop_last());
        lemma_searched(a, b.drop_last());
        assert(searched(a + b) =~= searched(a) + searched(b));
    }
}

/// Desktop files lie below the directory of the user's own data first, and then
/// below each directory of shared data that is named, in their order: the one
/// of the user is the one that is named, or the usual one below the home.
pub proof fn law_directories_are_searched_in_order(
    data_home: Option<Seq<u8>>,
    home: Option<Seq<u8>>,
    a: Seq<u8>,
    b: Seq<u8>,
)
    requires
        a.len() > 0,
        b.len() > 0,
    ensures
        ({
            let first = app_dirs(data_home, home, None)[0];
            let ending = ascii("applications"@);
            &&& data_home matches Some(dir) ==> first == below(dir, ending)
            &&& data_home is None && home is Some ==> first == below(
                below(home->Some_0, ascii(".local/share"@)),
                ending,
            )
            &&& data_home is None && home is None ==> first == below(
                ascii(".local/share"@),
                ending,
            )
            &&& app_dirs(data_home, home, Some(a))[0] == first
            &&& app_dirs(data_home, home, Some(a.push(58) + b)) == app_dirs(
                data_home,
                home,
                Some(a),
            ) + app_dirs(data_home, home, Some(b)).drop_first()
            &&& !a.contains(58) ==> app_dirs(data_home, home, Some(a)) == seq![
                first,
                below(a, ending),
            ]
            &&& app_dirs(data_home, home, None) == app_dirs(
                data_home,
                home,
                Some(ascii("/usr/local/share:/usr/share"@)),
            )
            &&& app_dirs(data_home, home, Some(Seq::empty())) == app_dirs(data_home, home, None)
        }),
{
    let ending = ascii("applications"@);
    law_bytes_are_split_at_each_mark(a, b, 58);
    lemma_searched(parts_at(a, 58), parts_at(b, 58));
    let whole = app_dirs(data_home, home, Some(a.push(58) + b));
    assert(whole =~= app_dirs(data_home, home, Some(a)) + app_dirs(
        data_home,
        home,
        Some(b),
    ).drop_first());
    if !a.contains(58) {
        let one = seq![a];
        assert(one.drop_last() =~= Seq::<Seq<u8>>::empty());
        reveal_with_fuel(searched, 2);
        assert(searched(one) =~= seq![below(a, ending)]);
        assert(app_dirs(data_home, home, Some(a)) =~= seq![
            app_dirs(data_home, home, None)[0],
            below(a, ending),
        ]);
    }
    reveal_strlit("/usr/local/share:/usr/share");
}

/// A program without a slash in its name is looked for in every directory of
/// the search path, in their order; one that is given by its path is that file.
pub proof fn law_programs_are_searched_in_order(name: Seq<u8>, a: Seq<u8>, b: Seq<u8>)
    requires
        !name.contains(47),
    ensures
        programs(name, Some(a.push(58) + b)) == programs(name, Some(a)) + programs(name, Some(b)),
        !a.contains(58) ==> programs(name, Some(a)) == seq![below(a, name)],
        programs(name, None) == Seq::<Seq<u8>>::empty(),
        programs(seq![47u8] + name, Some(a)) == seq![seq![47u8] + name],
        name.len() > 0 && name != seq![46u8] ==> programs(a.push(47) + name, Some(b)) == seq![
            a.push(47) + name,
        ],
{
    law_bytes_are_split_at_each_mark(name, Seq::empty(), 47);
    assert(!is_path(name)) by {
        if name.len() > 0 && name[0] == 47 {
            assert(name.contains(47));
        }
    }
    law_bytes_are_split_at_each_mark(a, b, 58);
    assert(programs(name, Some(a.push(58) + b)) =~= programs(name, Some(a)) + programs(
        name,
        Some(b),
    ));
    if !a.contains(58) {
        assert(programs(name, Some(a)) =~= seq![below(a, name)]);
    }
    assert((seq![47u8] + name)[0] == 47);
    if name.len() > 0 && name != seq![46u8] {
        let whole = a.push(47) + name;
        law_bytes_are_split_at_each_mark(a, name, 47);
        law_bytes_are_split_at_each_mark(Seq::empty(), a, 47);
        let names = parts_at(whole, 47);
        assert(names[names.len() - 1] == name);
        assert(is_path(whole)) by {
            assert(names.len() >= 2);
        }
    }
}

/// A desktop file is a file whose name has something ahead of the ending.
pub proof fn law_desktop_files_have_a_name(stem: Seq<char>, name: Seq<char>)
    ensures
        names_desktop_file(stem + ".desktop"@) <==> stem.len() > 0,
        names_desktop_file(name) ==> exists|s: Seq<char>|
            s.len() > 0 && #[trigger] (s + ".desktop"@) == name,
{
    let ending = ".desktop"@;
    let whole = stem + ending;
    assert(ending =~= whole.subrange(whole.len() - ending.len(), whole.len() as int));
    if names_desktop_file(name) {
        let s = name.subrange(0, name.len() - ending.len());
        assert(ending =~= name.subrange(name.len() - ending.len(), name.len() as int));
        assert(s + ending =~= name);
    }
}

/// A variable is kept from a launched application just where it would switch
/// accessibility off: the one that does so whatever its value, one that is
/// `none` whatever the case, and one of three that is zero.
pub proof fn law_what_switches_accessibility_off_is_withheld(key: Seq<char>, value: Seq<char>)
    ensures
        key == "NO_AT_BRIDGE"@ ==> switches_off(key, value),
        switches_off(key, value) ==> key == "NO_AT_BRIDGE"@ || key == "GTK_A11Y"@
            && same_ascii_folded(value, "none"@) || value == "0"@ && (key
            == "ACCESSIBILITY_ENABLED"@ || key == "GNOME_ACCESSIBILITY"@ || key
            == "QT_ACCESSIBILITY"@),
        key == "GTK_A11Y"@ && same_ascii_folded(value, "none"@) ==> switches_off(key, value),
        value == "0"@ && (key == "ACCESSIBILITY_ENABLED"@ || key == "GNOME_ACCESSIBILITY"@ || key
            == "QT_ACCESSIBILITY"@) ==> switches_off(key, value),
{
}

/// Steam is run by a program of one of two names alone, and the accessibility
/// status took just where both of its parts did.
pub proof fn law_steam_and_status_are_checked(
    name: Option<Seq<char>>,
    shown: Seq<char>,
    screen_reader: bool,
    enabled: bool,
)
    ensures
        steam_check(name, shown) is Ok <==> name == Some("steam"@) || name == Some(
            "steam-runtime"@,
        ),
        status_check(screen_reader, enabled) is Ok <==> screen_reader && enabled,
{
}

/// A value means yes where it is `true`, whatever the case and the white space
/// around it, and a desktop file is read line by line.
pub proof fn law_files_are_read_line_by_line(value: Seq<char>, contents: Seq<char>)
    ensures
        means_yes(value) <==> same_ascii_folded(trimmed(value), "true"@),
        desktop_entry(contents) == entry_of(read_lines(split_on(contents, '\n'))),
{
}

/// An application and an entry are seen as they are.
pub proof fn law_apps_are_seen_as_they_are(app: DesktopApp, entry: ParsedDesktopEntry)
    ensures
        app@.id == app.id@ && app@.name == app.name@,
        app@.executable == opt_text(app.executable),
        app@.hidden == app.hidden && app@.no_display == app.no_display,
        entry@.name == entry.name@,
        entry@.executable == opt_text(entry.executable),
        entry@.try_exec == opt_text(entry.try_exec),
        entry@.hidden == entry.hidden && entry@.no_display == entry.no_display,
        entry@.dbus_activatable == entry.dbus_activatable,
{
}

} // verus!
