//! Text as sequences of characters: the handful of string operations that the
//! other modules are built from, each stated over `Seq<char>`.

use vstd::prelude::*;

verus! {

/// `String::push` appends one character.
pub assume_specification[ String::push ](s: &mut String, c: char)
    ensures
        final(s)@ == old(s)@.push(c),
;

/// The lowercase form of a text, as `str::to_lowercase` gives it.
pub uninterp spec fn lowercase(s: Seq<char>) -> Seq<char>;

/// `str::to_lowercase`: Unicode lower-casing of the whole text. What it gives
/// for a particular text is not stated beyond its name.
#[verifier::external_body]
pub(crate) fn to_lowercase(s: &str) -> (r: String)
    ensures
        r@ == lowercase(s@),
{
    s.to_lowercase()
}

/// The quoted, escaped form of a text, as `{:?}` prints it.
pub uninterp spec fn quoted(s: Seq<char>) -> Seq<char>;

/// `Debug` formatting of a string slice: the text between double quotes, with
/// escapes. What it gives for a particular text is not stated beyond its name.
#[verifier::external_body]
pub(crate) fn quote(s: &str) -> (r: String)
    ensures
        r@ == quoted(s@),
{
    format!("{:?}", s)
}

/// The text that bytes stand for when every ill-formed UTF-8 sequence is
/// replaced, as `String::from_utf8_lossy` reads them.
pub uninterp spec fn utf8_lossy(bytes: Seq<u8>) -> Seq<char>;

/// `String::from_utf8_lossy`: decoding that replaces what is not UTF-8. What
/// it gives for particular bytes is not stated beyond its name.
#[verifier::external_body]
pub(crate) fn from_utf8_lossy(bytes: &[u8]) -> (r: String)
    ensures
        r@ == utf8_lossy(bytes@),
{
    String::from_utf8_lossy(bytes).into_owned()
}

/// The characters with the Unicode `White_Space` property.
pub open spec fn is_space(c: char) -> bool {
    ||| 0x09 <= c as u32 <= 0x0d
    ||| c as u32 == 0x20
    ||| c as u32 == 0x85
    ||| c as u32 == 0xa0
    ||| c as u32 == 0x1680
    ||| 0x2000 <= c as u32 <= 0x200a
    ||| c as u32 == 0x2028
    ||| c as u32 == 0x2029
    ||| c as u32 == 0x202f
    ||| c as u32 == 0x205f
    ||| c as u32 == 0x3000
}

/// Whether `c` is white space.
pub fn space(c: char) -> (r: bool)
    ensures
        r == is_space(c),
{
    let u: u32 = c as u32;
    (0x09 <= u && u <= 0x0d) || u == 0x20 || u == 0x85 || u == 0xa0 || u == 0x1680 || (0x2000 <= u
        && u <= 0x200a) || u == 0x2028 || u == 0x2029 || u == 0x202f || u == 0x205f || u == 0x3000
}

/// The characters of a text, in order.
pub fn chars_of(s: &str) -> (r: Vec<char>)
    ensures
        r@ == s@,
{
    let mut out: Vec<char> = Vec::new();
    for c in it: s.chars()
        invariant
            out@ == s@.take(it.index()),
            it.seq() == s@,
    {
        out.push(c);
    }
    out
}

/// The text that consists of the characters `from..to` of `chars`.
pub fn string_of(chars: &Vec<char>, from: usize, to: usize) -> (r: String)
    requires
        from <= to <= chars@.len(),
    ensures
        r@ == chars@.subrange(from as int, to as int),
{
    let mut out = String::new();
    let mut i: usize = from;
    while i < to
        invariant
            from <= i <= to <= chars@.len(),
            out@ == chars@.subrange(from as int, i as int),
        decreases to - i,
    {
        out.push(chars[i]);
        i += 1;
        assert(chars@.subrange(from as int, i as int) =~= chars@.subrange(
            from as int,
            i - 1,
        ).push(chars@[i - 1]));
    }
    out
}

/// Whether two texts are the same.
pub fn same(a: &str, b: &str) -> (r: bool)
    ensures
        r == (a@ == b@),
{
    let x = chars_of(a);
    let y = chars_of(b);
    if x.len() != y.len() {
        return false;
    }
    let mut i: usize = 0;
    while i < x.len()
        invariant
            i <= x@.len(),
            x@.len() == y@.len(),
            x@ == a@,
            y@ == b@,
            forall|j: int| 0 <= j < i ==> x@[j] == y@[j],
        decreases x@.len() - i,
    {
        if x[i] != y[i] {
            return false;
        }
        i += 1;
    }
    assert(a@ =~= b@);
    true
}

/// A text without its leading white space.
pub open spec fn trim_front(s: Seq<char>) -> Seq<char>
    decreases s.len(),
{
    if s.len() > 0 && is_space(s[0]) {
        trim_front(s.drop_first())
    } else {
        s
    }
}

/// A text without its trailing white space.
pub open spec fn trim_back(s: Seq<char>) -> Seq<char>
    decreases s.len(),
{
    if s.len() > 0 && is_space(s.last()) {
        trim_back(s.drop_last())
    } else {
        s
    }
}

/// A text without the white space at either end.
pub open spec fn trimmed(s: Seq<char>) -> Seq<char> {
    trim_back(trim_front(s))
}

proof fn lemma_trim_front(s: Seq<char>) -> (i: int)
    ensures
        0 <= i <= s.len(),
        trim_front(s) == s.subrange(i, s.len() as int),
        forall|k: int| 0 <= k < i ==> is_space(#[trigger] s[k]),
        i < s.len() ==> !is_space(s[i]),
    decreases s.len(),
{
    if s.len() > 0 && is_space(s[0]) {
        let rest = s.drop_first();
        let i = lemma_trim_front(rest);
        assert(rest.subrange(i, rest.len() as int) =~= s.subrange(i + 1, s.len() as int));
        assert forall|k: int| 0 <= k < i + 1 implies is_space(#[trigger] s[k]) by {
            if k > 0 {
                assert(s[k] == rest[k - 1]);
            }
        }
        if i < rest.len() {
            assert(rest[i] == s[i + 1]);
        }
        i + 1
    } else {
        assert(s =~= s.subrange(0, s.len() as int));
        0
    }
}

proof fn lemma_trim_back(s: Seq<char>) -> (j: int)
    ensures
        0 <= j <= s.len(),
        trim_back(s) == s.subrange(0, j),
        forall|k: int| j <= k < s.len() ==> is_space(#[trigger] s[k]),
        0 < j ==> !is_space(s[j - 1]),
    decreases s.len(),
{
    if s.len() > 0 && is_space(s.last()) {
        let rest = s.drop_last();
        let j = lemma_trim_back(rest);
        assert(rest.subrange(0, j) =~= s.subrange(0, j));
        assert forall|k: int| j <= k < s.len() implies is_space(#[trigger] s[k]) by {
            if k < rest.len() {
                assert(s[k] == rest[k]);
            }
        }
        j
    } else {
        assert(s =~= s.subrange(0, s.len() as int));
        s.len() as int
    }
}

/// Trimming takes white space off both ends and nothing else: what is left
/// stands in the text, nothing but white space stands before and behind it,
/// and it neither begins nor ends with white space.
pub proof fn law_trimming_takes_white_space(s: Seq<char>) -> (r: (int, int))
    ensures
        0 <= r.0 <= r.1 <= s.len(),
        trimmed(s) == s.subrange(r.0, r.1),
        forall|k: int| 0 <= k < r.0 ==> is_space(#[trigger] s[k]),
        forall|k: int| r.1 <= k < s.len() ==> is_space(#[trigger] s[k]),
        r.0 < r.1 ==> !is_space(s[r.0]) && !is_space(s[r.1 - 1]),
{
    let i = lemma_trim_front(s);
    let t = s.subrange(i, s.len() as int);
    let j = lemma_trim_back(t);
    assert(t.subrange(0, j) =~= s.subrange(i, i + j));
    assert forall|k: int| i + j <= k < s.len() implies is_space(#[trigger] s[k]) by {
        assert(s[k] == t[k - i]);
    }
    if j > 0 {
        assert(t[j - 1] == s[i + j - 1]);
    }
    (i, i + j)
}

/// A text that neither begins nor ends with white space is left as it is.
pub proof fn lemma_trimmed_keeps(s: Seq<char>)
    requires
        s.len() > 0,
        !is_space(s[0]),
        !is_space(s.last()),
    ensures
        trimmed(s) == s,
{
}

fn front_of(chars: &Vec<char>) -> (r: usize)
    ensures
        r <= chars@.len(),
        chars@.skip(r as int) == trim_front(chars@),
{
    let mut i: usize = 0;
    assert(chars@.skip(0) =~= chars@);
    while i < chars.len() && space(chars[i])
        invariant
            i <= chars@.len(),
            trim_front(chars@.skip(i as int)) == trim_front(chars@),
        decreases chars@.len() - i,
    {
        assert(chars@.skip(i as int).drop_first() =~= chars@.skip(i + 1));
        i += 1;
    }
    i
}

/// The text without its leading white space.
pub fn trim_start(s: &str) -> (r: &str)
    ensures
        r@ == trim_front(s@),
{
    let chars = chars_of(s);
    let i = front_of(&chars);
    assert(chars@.skip(i as int) =~= s@.subrange(i as int, chars@.len() as int));
    s.substring_char(i, chars.len())
}

/// The text without the white space at either end.
pub fn trim(s: &str) -> (r: &str)
    ensures
        r@ == trimmed(s@),
{
    let chars = chars_of(s);
    let i = front_of(&chars);
    let mut j: usize = chars.len();
    assert(chars@.skip(i as int) =~= chars@.subrange(i as int, chars@.len() as int));
    while j > i && space(chars[j - 1])
        invariant
            i <= j <= chars@.len(),
            trim_back(chars@.subrange(i as int, j as int)) == trimmed(chars@),
        decreases j,
    {
        assert(chars@.subrange(i as int, j as int).drop_last() =~= chars@.subrange(
            i as int,
            j - 1,
        ));
        j -= 1;
    }
    s.substring_char(i, j)
}

/// Whether nothing but white space is in the text.
pub fn blank(s: &str) -> (r: bool)
    ensures
        r == (trimmed(s@).len() == 0),
{
    trim(s).is_empty()
}

/// Whether `prefix` occurs at the start of the text.
pub fn starts_with(s: &str, prefix: &str) -> (r: bool)
    ensures
        r == prefix@.is_prefix_of(s@),
{
    let n = s.unicode_len();
    let m = prefix.unicode_len();
    if n < m {
        return false;
    }
    let r = same(s.substring_char(0, m), prefix);
    assert(prefix@ =~= s@.subrange(0, m as int) <==> prefix@.is_prefix_of(s@));
    r
}

/// Whether `suffix` occurs at the end of the text.
pub fn ends_with(s: &str, suffix: &str) -> (r: bool)
    ensures
        r == suffix@.is_suffix_of(s@),
{
    let n = s.unicode_len();
    let m = suffix.unicode_len();
    if n < m {
        return false;
    }
    let r = same(s.substring_char(n - m, n), suffix);
    assert(suffix@ =~= s@.subrange(n - m, n as int) <==> suffix@.is_suffix_of(s@));
    r
}

/// Whether a text stands at a place in another.
pub open spec fn occurs_at(s: Seq<char>, part: Seq<char>, i: int) -> bool {
    0 <= i && i + part.len() <= s.len() && s.subrange(i, i + part.len()) == part
}

/// Whether a text stands anywhere in another.
pub open spec fn occurs(s: Seq<char>, part: Seq<char>) -> bool {
    exists|i: int| occurs_at(s, part, i)
}

/// Whether `part` stands at place `i` of `s`.
pub fn stands_at(s: &Vec<char>, part: &Vec<char>, i: usize) -> (r: bool)
    ensures
        r == occurs_at(s@, part@, i as int),
{
    if i > s.len() || part.len() > s.len() - i {
        return false;
    }
    let mut k: usize = 0;
    while k < part.len()
        invariant
            i + part@.len() <= s.len(),
            k <= part@.len(),
            forall|j: int| 0 <= j < k ==> s@[i + j] == part@[j],
        decreases part@.len() - k,
    {
        if s[i + k] != part[k] {
            assert(s@.subrange(i as int, i + part@.len())[k as int] != part@[k as int]);
            return false;
        }
        k += 1;
    }
    assert(s@.subrange(i as int, i + part@.len()) =~= part@);
    true
}

/// Whether `part` stands anywhere in `s`.
pub fn contains(s: &str, part: &str) -> (r: bool)
    ensures
        r == occurs(s@, part@),
{
    let chars = chars_of(s);
    let wanted = chars_of(part);
    let mut i: usize = 0;
    while i < chars.len()
        invariant
            i <= chars@.len(),
            chars@ == s@,
            wanted@ == part@,
            forall|j: int| 0 <= j < i ==> !occurs_at(s@, part@, j),
        decreases chars@.len() - i,
    {
        if stands_at(&chars, &wanted, i) {
            return true;
        }
        i += 1;
    }
    stands_at(&chars, &wanted, i)
}

/// The text without `suffix`, where it ends with it.
pub open spec fn without_suffix(s: Seq<char>, suffix: Seq<char>) -> Seq<char> {
    if suffix.is_suffix_of(s) {
        s.subrange(0, s.len() - suffix.len())
    } else {
        s
    }
}

/// Removes `suffix` where the text ends with it.
pub fn strip_suffix<'a>(s: &'a str, suffix: &str) -> (r: &'a str)
    ensures
        r@ == without_suffix(s@, suffix@),
{
    if ends_with(s, suffix) {
        let n = s.unicode_len();
        let m = suffix.unicode_len();
        s.substring_char(0, n - m)
    } else {
        s
    }
}

/// The position of the first `c` in the text, or -1.
pub open spec fn first_at(s: Seq<char>, c: char) -> int
    decreases s.len(),
{
    if s.len() == 0 {
        -1
    } else if s[0] == c {
        0
    } else {
        let rest = first_at(s.drop_first(), c);
        if rest < 0 {
            -1
        } else {
            rest + 1
        }
    }
}

/// The position of the last `c` in the text, or -1.
pub open spec fn last_at(s: Seq<char>, c: char) -> int
    decreases s.len(),
{
    if s.len() == 0 {
        -1
    } else if s.last() == c {
        s.len() - 1
    } else {
        last_at(s.drop_last(), c)
    }
}

proof fn lemma_first_at_hit(s: Seq<char>, c: char, i: int)
    requires
        0 <= i < s.len(),
        s[i] == c,
        forall|j: int| 0 <= j < i ==> s[j] != c,
    ensures
        first_at(s, c) == i,
    decreases s.len(),
{
    if i > 0 {
        lemma_first_at_hit(s.drop_first(), c, i - 1);
    }
}

proof fn lemma_first_at_miss(s: Seq<char>, c: char)
    requires
        forall|j: int| 0 <= j < s.len() ==> s[j] != c,
    ensures
        first_at(s, c) == -1,
    decreases s.len(),
{
    if s.len() > 0 {
        lemma_first_at_miss(s.drop_first(), c);
    }
}

/// The last occurrence is the one after which there is no other.
pub proof fn lemma_last_at(s: Seq<char>, c: char, i: int)
    requires
        0 <= i < s.len(),
        s[i] == c,
        forall|j: int| i < j < s.len() ==> s[j] != c,
    ensures
        last_at(s, c) == i,
    decreases s.len(),
{
    if i < s.len() - 1 {
        lemma_last_at(s.drop_last(), c, i);
    }
}

/// A text cut in two at a character, which belongs to neither part.
pub open spec fn cut(s: Seq<char>, at: int) -> Option<(Seq<char>, Seq<char>)> {
    if at < 0 {
        None
    } else {
        Some((s.subrange(0, at), s.subrange(at + 1, s.len() as int)))
    }
}

/// The text before and after the first `c`.
pub fn split_once(s: &str, c: char) -> (r: Option<(&str, &str)>)
    ensures
        match r {
            Some((a, b)) => cut(s@, first_at(s@, c)) == Some((a@, b@)),
            None => first_at(s@, c) < 0,
        },
{
    let chars = chars_of(s);
    let n = chars.len();
    let mut i: usize = 0;
    while i < n
        invariant
            i <= n == chars@.len(),
            chars@ == s@,
            forall|j: int| 0 <= j < i ==> s@[j] != c,
        decreases n - i,
    {
        if chars[i] == c {
            proof {
                lemma_first_at_hit(s@, c, i as int);
            }
            return Some((s.substring_char(0, i), s.substring_char(i + 1, n)));
        }
        i += 1;
    }
    proof {
        lemma_first_at_miss(s@, c);
    }
    None
}

/// The text before and after the last `c`.
pub fn rsplit_once(s: &str, c: char) -> (r: Option<(&str, &str)>)
    ensures
        match r {
            Some((a, b)) => cut(s@, last_at(s@, c)) == Some((a@, b@)),
            None => last_at(s@, c) < 0,
        },
{
    let chars = chars_of(s);
    let n = chars.len();
    let mut i: usize = n;
    assert(s@.take(n as int) =~= s@);
    while i > 0
        invariant
            i <= n == chars@.len(),
            chars@ == s@,
            last_at(s@, c) == last_at(s@.take(i as int), c),
        decreases i,
    {
        assert(s@.take(i as int).drop_last() =~= s@.take(i - 1));
        if chars[i - 1] == c {
            return Some((s.substring_char(0, i - 1), s.substring_char(i, n)));
        }
        i -= 1;
    }
    None
}

/// The parts of a text between the occurrences of `c`, one more than there are
/// occurrences.
pub open spec fn split_on(s: Seq<char>, c: char) -> Seq<Seq<char>>
    decreases s.len(),
{
    if s.len() == 0 {
        seq![Seq::<char>::empty()]
    } else {
        let parts = split_on(s.drop_last(), c);
        if s.last() == c {
            parts.push(Seq::<char>::empty())
        } else {
            parts.drop_last().push(parts.last().push(s.last()))
        }
    }
}

/// The contents of the strings of a vector.
pub open spec fn texts(v: Seq<String>) -> Seq<Seq<char>> {
    v.map_values(|s: String| s@)
}

/// The parts of a text between the occurrences of `c`.
pub fn split(s: &str, c: char) -> (r: Vec<String>)
    ensures
        texts(r@) == split_on(s@, c),
{
    let chars = chars_of(s);
    let mut parts: Vec<String> = Vec::new();
    let mut part = String::new();
    let mut i: usize = 0;
    assert(texts(parts@).push(part@) =~= split_on(s@.take(0), c));
    while i < chars.len()
        invariant
            i <= chars@.len(),
            chars@ == s@,
            texts(parts@).push(part@) == split_on(s@.take(i as int), c),
        decreases chars@.len() - i,
    {
        let ghost before = texts(parts@).push(part@);
        assert(s@.take(i + 1).drop_last() =~= s@.take(i as int));
        assert(before.drop_last() =~= texts(parts@));
        if chars[i] == c {
            let ghost was = parts@;
            parts.push(part);
            part = String::new();
            assert(texts(parts@) =~= before);
        } else {
            part.push(chars[i]);
        }
        i += 1;
    }
    assert(s@.take(i as int) =~= s@);
    let ghost was = parts@;
    parts.push(part);
    assert(texts(parts@) =~= texts(was).push(part@));
    parts
}

/// The parts of a text between its white-space characters.
pub open spec fn split_spaces(s: Seq<char>) -> Seq<Seq<char>>
    decreases s.len(),
{
    if s.len() == 0 {
        seq![Seq::<char>::empty()]
    } else {
        let parts = split_spaces(s.drop_last());
        if is_space(s.last()) {
            parts.push(Seq::<char>::empty())
        } else {
            parts.drop_last().push(parts.last().push(s.last()))
        }
    }
}

/// The parts that are not empty.
pub open spec fn filled(parts: Seq<Seq<char>>) -> Seq<Seq<char>>
    decreases parts.len(),
{
    if parts.len() == 0 {
        Seq::empty()
    } else if parts.last().len() > 0 {
        filled(parts.drop_last()).push(parts.last())
    } else {
        filled(parts.drop_last())
    }
}

/// The words of a text: what stands between white space.
pub open spec fn words_of(s: Seq<char>) -> Seq<Seq<char>> {
    filled(split_spaces(s))
}

/// The words of a text.
pub fn words(s: &str) -> (r: Vec<String>)
    ensures
        texts(r@) == words_of(s@),
{
    let chars = chars_of(s);
    let mut parts: Vec<String> = Vec::new();
    let mut part = String::new();
    let mut i: usize = 0;
    let ghost mut pieces = split_spaces(s@.take(0));
    proof {
        assert(pieces.drop_last() =~= Seq::empty());
        assert(texts(parts@) =~= Seq::empty());
    }
    while i < chars.len()
        invariant
            i <= chars@.len(),
            chars@ == s@,
            pieces == split_spaces(s@.take(i as int)),
            pieces.len() > 0,
            part@ == pieces.last(),
            texts(parts@) == filled(pieces.drop_last()),
        decreases chars@.len() - i,
    {
        let ghost before = pieces;
        assert(s@.take(i + 1).drop_last() =~= s@.take(i as int));
        proof {
            pieces = split_spaces(s@.take(i + 1));
        }
        if space(chars[i]) {
            assert(pieces.drop_last() =~= before);
            if part.as_str().unicode_len() > 0 {
                let ghost was = parts@;
                parts.push(part);
                assert(texts(parts@) =~= texts(was).push(before.last()));
            }
            part = String::new();
        } else {
            assert(pieces.drop_last() =~= before.drop_last());
            part.push(chars[i]);
        }
        i += 1;
    }
    assert(s@.take(i as int) =~= s@);
    if part.as_str().unicode_len() > 0 {
        let ghost was = parts@;
        parts.push(part);
        assert(texts(parts@) =~= texts(was).push(part@));
    }
    parts
}

/// Texts put one after another with `sep` between them.
pub open spec fn joined(parts: Seq<Seq<char>>, sep: Seq<char>) -> Seq<char>
    decreases parts.len(),
{
    if parts.len() == 0 {
        Seq::empty()
    } else if parts.len() == 1 {
        parts[0]
    } else {
        joined(parts.drop_last(), sep) + sep + parts.last()
    }
}

/// Puts the texts one after another with `sep` between them.
pub fn join(parts: &Vec<String>, sep: &str) -> (r: String)
    ensures
        r@ == joined(texts(parts@), sep@),
{
    let mut out = String::new();
    let mut i: usize = 0;
    while i < parts.len()
        invariant
            i <= parts@.len(),
            out@ == joined(texts(parts@).take(i as int), sep@),
        decreases parts@.len() - i,
    {
        assert(texts(parts@).take(i + 1).drop_last() =~= texts(parts@).take(i as int));
        if i > 0 {
            out.append(sep);
        }
        out.append(parts[i].as_str());
        proof {
            if i == 0 {
                assert(out@ =~= texts(parts@)[0]);
            }
        }
        i += 1;
    }
    assert(texts(parts@).take(i as int) =~= texts(parts@));
    out
}

/// A letter of the ASCII alphabet in lower case, any other character as it is.
pub open spec fn ascii_lower(c: char) -> char {
    if 'A' <= c && c <= 'Z' {
        ((c as u32) + 32) as char
    } else {
        c
    }
}

/// Whether two texts differ at most in the case of ASCII letters.
pub open spec fn same_ascii_folded(a: Seq<char>, b: Seq<char>) -> bool {
    a.map_values(|c: char| ascii_lower(c)) == b.map_values(|c: char| ascii_lower(c))
}

fn lower(c: char) -> (r: char)
    ensures
        r == ascii_lower(c),
{
    if 'A' <= c && c <= 'Z' {
        let u: u8 = c as u8;
        (u + 32) as char
    } else {
        c
    }
}

/// Whether the texts differ at most in the case of ASCII letters.
pub fn eq_ignore_ascii_case(a: &str, b: &str) -> (r: bool)
    ensures
        r == same_ascii_folded(a@, b@),
{
    let x = chars_of(a);
    let y = chars_of(b);
    let ghost fa = a@.map_values(|c: char| ascii_lower(c));
    let ghost fb = b@.map_values(|c: char| ascii_lower(c));
    if x.len() != y.len() {
        assert(fa.len() != fb.len());
        return false;
    }
    let mut i: usize = 0;
    while i < x.len()
        invariant
            i <= x@.len(),
            x@.len() == y@.len(),
            x@ == a@,
            y@ == b@,
            fa == a@.map_values(|c: char| ascii_lower(c)),
            fb == b@.map_values(|c: char| ascii_lower(c)),
            forall|j: int| 0 <= j < i ==> fa[j] == fb[j],
        decreases x@.len() - i,
    {
        if lower(x[i]) != lower(y[i]) {
            assert(fa[i as int] != fb[i as int]);
            return false;
        }
        i += 1;
    }
    assert(fa =~= fb);
    true
}

/// The decimal digits of a natural number, without leading zeros.
pub open spec fn digits(n: nat) -> Seq<char>
    decreases n,
{
    if n < 10 {
        seq![(48 + n) as char]
    } else {
        digits(n / 10).push((48 + n % 10) as char)
    }
}

/// An integer in decimal notation.
pub open spec fn decimal(n: int) -> Seq<char> {
    if n < 0 {
        seq!['-'] + digits((-n) as nat)
    } else {
        digits(n as nat)
    }
}

fn push_digits(out: &mut String, n: u64)
    ensures
        final(out)@ == old(out)@ + digits(n as nat),
    decreases n,
{
    if n < 10 {
        let d: u8 = n as u8;
        out.push((48 + d) as char);
    } else {
        push_digits(out, n / 10);
        let d: u8 = (n % 10) as u8;
        out.push((48 + d) as char);
    }
    assert(out@ =~= old(out)@ + digits(n as nat));
}

/// A natural number in decimal notation.
pub fn show_u64(n: u64) -> (r: String)
    ensures
        r@ == decimal(n as int),
{
    let mut out = String::new();
    push_digits(&mut out, n);
    assert(out@ =~= digits(n as nat));
    out
}

/// An integer in decimal notation.
pub fn show_i64(n: i64) -> (r: String)
    ensures
        r@ == decimal(n as int),
{
    let mut out = String::new();
    if n < 0 {
        out.push('-');
        if n == i64::MIN {
            push_digits(&mut out, 0x8000_0000_0000_0000);
        } else {
            push_digits(&mut out, (-n) as u64);
        }
        assert(out@ =~= decimal(n as int));
    } else {
        push_digits(&mut out, n as u64);
        assert(out@ =~= decimal(n as int));
    }
    out
}

/// `true` or `false`.
pub open spec fn bool_text(b: bool) -> Seq<char> {
    if b {
        "true"@
    } else {
        "false"@
    }
}

/// `true` or `false`.
pub fn show_bool(b: bool) -> (r: &'static str)
    ensures
        r@ == bool_text(b),
{
    if b {
        "true"
    } else {
        "false"
    }
}

/// Whether `c` is one of the ten decimal digits.
pub open spec fn is_digit(c: char) -> bool {
    '0' <= c && c <= '9'
}

/// The number that a sequence of decimal digits denotes.
pub open spec fn digits_value(s: Seq<char>) -> nat
    decreases s.len(),
{
    if s.len() == 0 {
        0
    } else {
        digits_value(s.drop_last()) * 10 + ((s.last() as int - 48) as nat)
    }
}

/// A text without one leading plus sign.
pub open spec fn unsigned_digits(s: Seq<char>) -> Seq<char> {
    if s.len() > 0 && s[0] == '+' {
        s.drop_first()
    } else {
        s
    }
}

/// The natural number up to `max` that a text denotes: an optional plus sign
/// and at least one digit, nothing else.
pub open spec fn parsed_unsigned(s: Seq<char>, max: nat) -> Option<nat> {
    let d = unsigned_digits(s);
    if d.len() > 0 && (forall|i: int| 0 <= i < d.len() ==> is_digit(#[trigger] d[i]))
        && digits_value(d) <= max {
        Some(digits_value(d))
    } else {
        None
    }
}

proof fn lemma_digits_value_grows(s: Seq<char>, k: int)
    requires
        0 <= k <= s.len(),
        forall|i: int| 0 <= i < s.len() ==> is_digit(#[trigger] s[i]),
    ensures
        digits_value(s.take(k)) <= digits_value(s),
    decreases s.len(),
{
    if k == s.len() {
        assert(s.take(k) =~= s);
    } else {
        lemma_digits_value_grows(s.drop_last(), k);
        assert(s.drop_last().take(k) =~= s.take(k));
    }
}

/// Reads a natural number up to `max`.
pub fn parse_unsigned(s: &str, max: u64) -> (r: Option<u64>)
    ensures
        match r {
            Some(n) => parsed_unsigned(s@, max as nat) == Some(n as nat),
            None => parsed_unsigned(s@, max as nat) is None,
        },
{
    let chars = chars_of(s);
    let n = chars.len();
    let start: usize = if n > 0 && chars[0] == '+' {
        1
    } else {
        0
    };
    let ghost d = unsigned_digits(s@);
    assert(d =~= s@.skip(start as int));
    if start == n {
        return None;
    }
    let mut value: u64 = 0;
    let mut i: usize = start;
    assert(d.take(0) =~= Seq::<char>::empty());
    while i < n
        invariant
            start <= i <= n == chars@.len(),
            start < n,
            chars@ == s@,
            d == unsigned_digits(s@),
            d == s@.skip(start as int),
            forall|j: int| 0 <= j < i - start ==> is_digit(#[trigger] d[j]),
            value == digits_value(d.take(i - start)),
            value <= max,
        decreases n - i,
    {
        let c = chars[i];
        assert(c == d[i - start]);
        if !('0' <= c && c <= '9') {
            assert(!is_digit(d[i - start]));
            return None;
        }
        let digit: u64 = c as u64 - 48;
        let ghost up_to = i - start + 1;
        assert(d.take(up_to).drop_last() =~= d.take(i - start));
        proof {
            if forall|j: int| 0 <= j < d.len() ==> is_digit(#[trigger] d[j]) {
                lemma_digits_value_grows(d, up_to);
            }
        }
        let wide: u128 = value as u128 * 10 + digit as u128;
        assert(wide == digits_value(d.take(up_to)));
        if wide > max as u128 {
            return None;
        }
        value = wide as u64;
        i += 1;
    }
    assert(d.take(i - start) =~= d);
    Some(value)
}

/// Why a text cannot be read as a number of 64 bits, as the standard library
/// says it; nothing where it can.
pub uninterp spec fn u64_error(s: Seq<char>) -> Seq<char>;

/// The message of the failure of `str::parse::<u64>`. Which message it is, is
/// not stated beyond its name.
#[verifier::external_body]
pub(crate) fn explain_u64(s: &str) -> (r: String)
    ensures
        r@ == u64_error(s@),
{
    match s.parse::<u64>() {
        Ok(_) => String::new(),
        Err(error) => error.to_string(),
    }
}

/// Why a text cannot be read as a number of 32 bits, as the standard library
/// says it; nothing where it can.
pub uninterp spec fn u32_error(s: Seq<char>) -> Seq<char>;

/// The message of the failure of `str::parse::<u32>`. Which message it is, is
/// not stated beyond its name.
#[verifier::external_body]
pub(crate) fn explain_u32(s: &str) -> (r: String)
    ensures
        r@ == u32_error(s@),
{
    match s.parse::<u32>() {
        Ok(_) => String::new(),
        Err(error) => error.to_string(),
    }
}

proof fn lemma_split_not_empty(s: Seq<char>, c: char)
    ensures
        split_on(s, c).len() > 0,
{
}

/// Splitting takes a text apart at every occurrence of a character and nowhere
/// else: what stands on either side of one is split on its own, and a text
/// without the character stays whole.
pub proof fn law_texts_are_split_at_each_mark(a: Seq<char>, b: Seq<char>, c: char)
    ensures
        split_on(a.push(c) + b, c) == split_on(a, c) + split_on(b, c),
        !a.contains(c) ==> split_on(a, c) == seq![a],
    decreases a.len() + b.len(),
{
    if !a.contains(c) && a.len() > 0 {
        assert(a.last() == a[a.len() - 1]);
        assert(!a.drop_last().contains(c)) by {
            if a.drop_last().contains(c) {
                let i = choose|i: int| 0 <= i < a.drop_last().len() && a.drop_last()[i] == c;
                assert(a[i] == c);
            }
        }
        law_texts_are_split_at_each_mark(a.drop_last(), Seq::empty(), c);
        assert(a.drop_last().push(a.last()) =~= a);
        assert(split_on(a, c) =~= seq![a]);
    } else if a.len() == 0 {
        assert(a =~= Seq::<char>::empty());
        assert(split_on(a, c) =~= seq![a]);
    }
    let whole = a.push(c) + b;
    if b.len() == 0 {
        assert(whole =~= a.push(c));
        assert(a.push(c).drop_last() =~= a);
        assert(split_on(whole, c) =~= split_on(a, c) + split_on(b, c));
    } else {
        assert(whole.drop_last() =~= a.push(c) + b.drop_last());
        law_texts_are_split_at_each_mark(a, b.drop_last(), c);
        lemma_split_not_empty(b.drop_last(), c);
        assert(split_on(whole, c) =~= split_on(a, c) + split_on(b, c));
    }
}

/// Texts are put together in their order, with the separator between each two
/// of them and nowhere else.
pub proof fn law_texts_are_joined_in_order(a: Seq<Seq<char>>, b: Seq<Seq<char>>, sep: Seq<char>)
    requires
        a.len() > 0,
        b.len() > 0,
    ensures
        joined(a + b, sep) == joined(a, sep) + sep + joined(b, sep),
        a.len() == 1 ==> joined(a, sep) == a[0],
    decreases b.len(),
{
    assert((a + b).drop_last() =~= a + b.drop_last());
    if b.len() == 1 {
        assert(a + b.drop_last() =~= a);
    } else {
        law_texts_are_joined_in_order(a, b.drop_last(), sep);
        assert(joined(a + b, sep) =~= joined(a, sep) + sep + joined(b, sep));
    }
}

proof fn lemma_digits(n: nat)
    ensures
        digits(n).len() > 0,
        forall|i: int| 0 <= i < digits(n).len() ==> is_digit(#[trigger] digits(n)[i]),
        digits_value(digits(n)) == n,
        digits(n)[0] == '0' ==> n == 0,
    decreases n,
{
    if n < 10 {
        let d = (48 + n) as char;
        assert(d as int == 48 + n);
        assert(digits(n) =~= seq![d]);
        assert(digits(n).drop_last() =~= Seq::<char>::empty());
        reveal_with_fuel(digits_value, 2);
    } else {
        let d = (48 + n % 10) as char;
        assert(d as int == 48 + n % 10);
        lemma_digits(n / 10);
        assert(digits(n).drop_last() =~= digits(n / 10));
        assert(digits(n)[0] == digits(n / 10)[0]);
        assert forall|i: int| 0 <= i < digits(n).len() implies is_digit(#[trigger] digits(n)[i]) by {
            if i < digits(n / 10).len() {
                assert(digits(n)[i] == digits(n / 10)[i]);
            }
        }
    }
}

/// A number is written in decimal digits, the lowest last and without zeros
/// ahead of it, and is read back as it was; one below zero has a sign ahead.
pub proof fn law_numbers_are_read_back(n: nat, d: nat, max: nat)
    requires
        n <= max,
        d < 10,
    ensures
        parsed_unsigned(decimal(n as int), max) == Some(n),
        decimal(n as int)[0] == '0' ==> n == 0,
        decimal(10 * (n as int) + d) == (if n == 0 {
            seq![(48 + d) as char]
        } else {
            decimal(n as int).push((48 + d) as char)
        }),
        n > 0 ==> decimal(-(n as int)) == seq!['-'] + decimal(n as int),
{
    lemma_digits(n);
    let all = digits(n);
    assert(is_digit(all[0]));
    assert(unsigned_digits(all) == all);
    let m = (10 * n + d) as nat;
    if n > 0 {
        assert(m / 10 == n && m % 10 == d);
    }
}

/// A digit counts ten times what it counts one place further right.
pub proof fn law_digits_count_by_tens(s: Seq<char>, c: char)
    requires
        is_digit(c),
    ensures
        digits_value(s.push(c)) == 10 * digits_value(s) + (c as int - '0' as int),
        digits_value(Seq::<char>::empty()) == 0,
{
    assert(s.push(c).drop_last() =~= s);
}

/// Two texts are the same but for the case of ASCII letters just where they
/// have as many characters, each the same in both or the same letter in the
/// other case.
pub proof fn law_only_ascii_letters_are_folded(a: Seq<char>, b: Seq<char>)
    ensures
        same_ascii_folded(a, b) <==> a.len() == b.len() && forall|i: int|
            0 <= i < a.len() ==> {
                let (x, y) = (#[trigger] a[i] as int, b[i] as int);
                ||| x == y
                ||| 65 <= x <= 90 && y == x + 32
                ||| 65 <= y <= 90 && x == y + 32
            },
{
    let fa = a.map_values(|c: char| ascii_lower(c));
    let fb = b.map_values(|c: char| ascii_lower(c));
    if same_ascii_folded(a, b) {
        assert(fa.len() == a.len() && fb.len() == b.len());
        assert forall|i: int| 0 <= i < a.len() implies {
            let (x, y) = (#[trigger] a[i] as int, b[i] as int);
            ||| x == y
            ||| 65 <= x <= 90 && y == x + 32
            ||| 65 <= y <= 90 && x == y + 32
        } by {
            assert(fa[i] == fb[i]);
            lemma_folded(a[i]);
            lemma_folded(b[i]);
        }
    }
    if a.len() == b.len() && forall|i: int|
        0 <= i < a.len() ==> {
            let (x, y) = (#[trigger] a[i] as int, b[i] as int);
            ||| x == y
            ||| 65 <= x <= 90 && y == x + 32
            ||| 65 <= y <= 90 && x == y + 32
        } {
        assert forall|i: int| 0 <= i < a.len() implies fa[i] == fb[i] by {
            let (x, y) = (a[i] as int, b[i] as int);
            lemma_folded(a[i]);
            lemma_folded(b[i]);
        }
        assert(fa =~= fb);
    }
}

proof fn lemma_folded(c: char)
    ensures
        ascii_lower(c) as int == (if 65 <= c as int <= 90 {
            c as int + 32
        } else {
            c as int
        }),
{
}

/// What is found as the first occurrence of a character is one, with none
/// before it; where nothing is found, there is none.
pub proof fn law_first_occurrences_are_first(s: Seq<char>, c: char)
    ensures
        -1 <= first_at(s, c) < s.len(),
        first_at(s, c) >= 0 ==> s[first_at(s, c)] == c,
        forall|j: int| 0 <= j < first_at(s, c) ==> s[j] != c,
        first_at(s, c) < 0 ==> !s.contains(c),
    decreases s.len(),
{
    if s.len() > 0 && s[0] != c {
        let rest = s.drop_first();
        law_first_occurrences_are_first(rest, c);
        assert(forall|j: int| 0 < j < s.len() ==> s[j] == rest[j - 1]);
        if first_at(s, c) < 0 && s.contains(c) {
            let i = choose|i: int| 0 <= i < s.len() && s[i] == c;
            assert(rest[i - 1] == c);
        }
    }
}

/// What is found as the last occurrence of a character is one, with none behind
/// it; where nothing is found, there is none.
pub proof fn law_last_occurrences_are_last(s: Seq<char>, c: char)
    ensures
        -1 <= last_at(s, c) < s.len(),
        last_at(s, c) >= 0 ==> s[last_at(s, c)] == c,
        forall|j: int| 0 <= last_at(s, c) < j < s.len() ==> s[j] != c,
        last_at(s, c) < 0 ==> !s.contains(c),
    decreases s.len(),
{
    if s.len() > 0 && s.last() != c {
        let rest = s.drop_last();
        law_last_occurrences_are_last(rest, c);
        assert(forall|j: int| 0 <= j < rest.len() ==> s[j] == rest[j]);
        if last_at(s, c) < 0 && s.contains(c) {
            let i = choose|i: int| 0 <= i < s.len() && s[i] == c;
            assert(rest[i] == c);
        }
    }
}

proof fn lemma_filled_concat(a: Seq<Seq<char>>, b: Seq<Seq<char>>)
    ensures
        filled(a + b) == filled(a) + filled(b),
    decreases b.len(),
{
    if b.len() == 0 {
        assert(a + b =~= a);
        assert(filled(a) + filled(b) =~= filled(a));
    } else {
        assert((a + b).drop_last() =~= a + b.drop_last());
        lemma_filled_concat(a, b.drop_last());
        assert(filled(a + b) =~= filled(a) + filled(b));
    }
}

proof fn lemma_split_at_space(a: Seq<char>, c: char, b: Seq<char>)
    requires
        is_space(c),
    ensures
        split_spaces(a.push(c) + b) == split_spaces(a) + split_spaces(b),
        split_spaces(b).len() > 0,
    decreases b.len(),
{
    let whole = a.push(c) + b;
    if b.len() == 0 {
        assert(whole =~= a.push(c));
        assert(a.push(c).drop_last() =~= a);
        assert(split_spaces(whole) =~= split_spaces(a) + split_spaces(b));
    } else {
        assert(whole.drop_last() =~= a.push(c) + b.drop_last());
        lemma_split_at_space(a, c, b.drop_last());
        assert(split_spaces(whole) =~= split_spaces(a) + split_spaces(b));
    }
}

proof fn lemma_one_word(w: Seq<char>)
    requires
        forall|i: int| 0 <= i < w.len() ==> !is_space(#[trigger] w[i]),
    ensures
        split_spaces(w) == seq![w],
    decreases w.len(),
{
    if w.len() > 0 {
        assert(!is_space(w[w.len() - 1]));
        assert forall|i: int| 0 <= i < w.drop_last().len() implies !is_space(
            #[trigger] w.drop_last()[i],
        ) by {
            assert(w.drop_last()[i] == w[i]);
        }
        lemma_one_word(w.drop_last());
        assert(w.drop_last().push(w.last()) =~= w);
    } else {
        assert(w =~= Seq::<char>::empty());
    }
    assert(split_spaces(w) =~= seq![w]);
}

/// The words of a text are what white space stands between: those before a
/// white-space character and those behind it follow one another, and what holds
/// none is one word, or no word where it is empty.
pub proof fn law_words_lie_between_white_space(a: Seq<char>, c: char, b: Seq<char>)
    requires
        is_space(c),
    ensures
        words_of(a.push(c) + b) == words_of(a) + words_of(b),
        (forall|i: int| 0 <= i < a.len() ==> !is_space(#[trigger] a[i])) ==> words_of(a) == (
        if a.len() == 0 {
            Seq::empty()
        } else {
            seq![a]
        }),
{
    lemma_split_at_space(a, c, b);
    lemma_filled_concat(split_spaces(a), split_spaces(b));
    if forall|i: int| 0 <= i < a.len() ==> !is_space(#[trigger] a[i]) {
        lemma_one_word(a);
        let one = seq![a];
        assert(one.drop_last() =~= Seq::<Seq<char>>::empty());
        reveal_with_fuel(filled, 2);
        assert(words_of(a) =~= if a.len() == 0 {
            Seq::empty()
        } else {
            seq![a]
        });
    }
}

} // verus!
