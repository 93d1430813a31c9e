//! Text as the protocols use it: comparing, trimming, splitting and searching,
//! over sequences of characters.

use vstd::prelude::*;

verus! {

/// `String::push` appends one character.
pub assume_specification[ String::push ](s: &mut String, c: char)
    ensures
        final(s)@ == old(s)@.push(c),
;

/// The characters of a string.
pub fn chars_of(s: &str) -> (chars: Vec<char>)
    ensures
        chars@ == s@,
{
    let mut chars: Vec<char> = Vec::new();
    for c in it: s.chars()
        invariant
            chars@ == it.seq().take(it.index()),
            it.seq() == s@,
    {
        chars.push(c);
        assert(it.seq().take(it.index() + 1) =~= it.seq().take(it.index()).push(c));
    }
    assert(s@.take(s@.len() as int) =~= s@);
    chars
}

/// The string of some characters.
pub fn string_of(chars: &[char]) -> (s: String)
    ensures
        s@ == chars@,
{
    let mut s = String::new();
    let mut i: usize = 0;
    while i < chars.len()
        invariant
            i <= chars@.len(),
            s@ == chars@.take(i as int),
        decreases chars@.len() - i,
    {
        s.push(chars[i]);
        assert(chars@.take(i + 1) =~= chars@.take(i as int).push(chars@[i as int]));
        i += 1;
    }
    assert(chars@.take(chars@.len() as int) =~= chars@);
    s
}

/// Whether two runs of characters are the same.
pub fn same_chars(a: &[char], b: &[char]) -> (same: bool)
    ensures
        same == (a@ == b@),
{
    if a.len() != b.len() {
        return false;
    }
    let mut i: usize = 0;
    while i < a.len()
        invariant
            a@.len() == b@.len(),
            i <= a@.len(),
            forall|j: int| 0 <= j < i ==> a@[j] == b@[j],
        decreases a@.len() - i,
    {
        if a[i] != b[i] {
            assert(a@[i as int] != b@[i as int]);
            return false;
        }
        i += 1;
    }
    assert(a@ =~= b@);
    true
}

/// Whether two strings are the same.
pub fn same(a: &str, b: &str) -> (same: bool)
    ensures
        same == (a@ == b@),
{
    same_chars(chars_of(a).as_slice(), chars_of(b).as_slice())
}

/// The ASCII lower case of a character; any other character is its own.
pub open spec fn ascii_lower(c: char) -> char {
    if 'A' <= c <= 'Z' {
        (c as u32 + 32) as char
    } else {
        c
    }
}

/// Equality up to the case of ASCII letters.
pub open spec fn same_ignoring_case(a: Seq<char>, b: Seq<char>) -> bool {
    a.len() == b.len() && forall|i: int|
        0 <= i < a.len() ==> ascii_lower(a[i]) == ascii_lower(#[trigger] b[i])
}

fn lower(c: char) -> (l: char)
    ensures
        l == ascii_lower(c),
{
    if 'A' <= c && c <= 'Z' {
        ((c as u8) + 32) as char
    } else {
        c
    }
}

/// Whether two runs of characters are the same up to the case of ASCII letters.
pub fn eq_ignoring_case(a: &[char], b: &[char]) -> (same: bool)
    ensures
        same == same_ignoring_case(a@, b@),
{
    if a.len() != b.len() {
        return false;
    }
    let mut i: usize = 0;
    while i < a.len()
        invariant
            a@.len() == b@.len(),
            i <= a@.len(),
            forall|j: int| 0 <= j < i ==> ascii_lower(a@[j]) == ascii_lower(#[trigger] b@[j]),
        decreases a@.len() - i,
    {
        if lower(a[i]) != lower(b[i]) {
            assert(ascii_lower(a@[i as int]) != ascii_lower(b@[i as int]));
            return false;
        }
        i += 1;
    }
    true
}

/// Whether `s` begins with `prefix`.
pub open spec fn has_prefix(s: Seq<char>, prefix: Seq<char>) -> bool {
    prefix.len() <= s.len() && s.take(prefix.len() as int) == prefix
}

/// What follows `prefix` in `s`, if `s` begins with it.
pub fn strip_prefix<'a>(s: &'a [char], prefix: &[char]) -> (rest: Option<&'a [char]>)
    ensures
        rest is Some <==> has_prefix(s@, prefix@),
        rest is Some ==> rest->0@ == s@.skip(prefix@.len() as int),
{
    if s.len() < prefix.len() {
        return None;
    }
    let head = vstd::slice::slice_subrange(s, 0, prefix.len());
    assert(head@ =~= s@.take(prefix@.len() as int));
    if same_chars(head, prefix) {
        let rest = vstd::slice::slice_subrange(s, prefix.len(), s.len());
        assert(rest@ =~= s@.skip(prefix@.len() as int));
        Some(rest)
    } else {
        None
    }
}

/// The characters with Unicode's `White_Space` property.
pub open spec fn is_space(c: char) -> bool {
    ||| '\u{9}' <= c <= '\u{d}'
    ||| c == '\u{20}'
    ||| c == '\u{85}'
    ||| c == '\u{a0}'
    ||| c == '\u{1680}'
    ||| '\u{2000}' <= c <= '\u{200a}'
    ||| c == '\u{2028}'
    ||| c == '\u{2029}'
    ||| c == '\u{202f}'
    ||| c == '\u{205f}'
    ||| c == '\u{3000}'
}

/// Whether a character is white space.
pub fn is_whitespace(c: char) -> (space: bool)
    ensures
        space == is_space(c),
{
    ('\u{9}' <= c && c <= '\u{d}') || c == '\u{20}' || c == '\u{85}' || c == '\u{a0}' || c
        == '\u{1680}' || ('\u{2000}' <= c && c <= '\u{200a}') || c == '\u{2028}' || c == '\u{2029}'
        || c == '\u{202f}' || c == '\u{205f}' || c == '\u{3000}'
}

/// `s` without the white space at its start.
pub open spec fn trim_start_of(s: Seq<char>) -> Seq<char>
    decreases s.len(),
{
    if s.len() > 0 && is_space(s[0]) {
        trim_start_of(s.skip(1))
    } else {
        s
    }
}

/// `s` without the white space at its end.
pub open spec fn trim_end_of(s: Seq<char>) -> Seq<char>
    decreases s.len(),
{
    if s.len() > 0 && is_space(s.last()) {
        trim_end_of(s.drop_last())
    } else {
        s
    }
}

/// `s` without the white space at either end.
pub open spec fn trimmed(s: Seq<char>) -> Seq<char> {
    trim_end_of(trim_start_of(s))
}

/// A run of characters without the white space at its start.
pub fn trim_start<'a>(s: &'a [char]) -> (t: &'a [char])
    ensures
        t@ == trim_start_of(s@),
{
    let mut i: usize = 0;
    assert(s@.skip(0) =~= s@);
    while i < s.len() && is_whitespace(s[i])
        invariant
            i <= s@.len(),
            trim_start_of(s@) == trim_start_of(s@.skip(i as int)),
        decreases s@.len() - i,
    {
        assert(s@.skip(i as int).skip(1) =~= s@.skip(i + 1));
        i += 1;
    }
    assert(s@.skip(i as int) =~= s@.subrange(i as int, s@.len() as int));
    vstd::slice::slice_subrange(s, i, s.len())
}

/// A run of characters without the white space at its end.
pub fn trim_end<'a>(s: &'a [char]) -> (t: &'a [char])
    ensures
        t@ == trim_end_of(s@),
{
    let mut n: usize = s.len();
    assert(s@.take(s@.len() as int) =~= s@);
    while n > 0 && is_whitespace(s[n - 1])
        invariant
            n <= s@.len(),
            trim_end_of(s@) == trim_end_of(s@.take(n as int)),
        decreases n,
    {
        assert(s@.take(n as int).drop_last() =~= s@.take(n - 1));
        n -= 1;
    }
    assert(s@.take(n as int) =~= s@.subrange(0, n as int));
    vstd::slice::slice_subrange(s, 0, n)
}

/// A run of characters without the white space at either end.
pub fn trim<'a>(s: &'a [char]) -> (t: &'a [char])
    ensures
        t@ == trimmed(s@),
{
    trim_end(trim_start(s))
}

/// `s` without the `c`s at its end.
pub open spec fn trim_end_matches_of(s: Seq<char>, c: char) -> Seq<char>
    decreases s.len(),
{
    if s.len() > 0 && s.last() == c {
        trim_end_matches_of(s.drop_last(), c)
    } else {
        s
    }
}

/// A run of characters without the `c`s at its end.
pub fn trim_end_matches<'a>(s: &'a [char], c: char) -> (t: &'a [char])
    ensures
        t@ == trim_end_matches_of(s@, c),
{
    let mut n: usize = s.len();
    assert(s@.take(s@.len() as int) =~= s@);
    while n > 0 && s[n - 1] == c
        invariant
            n <= s@.len(),
            trim_end_matches_of(s@, c) == trim_end_matches_of(s@.take(n as int), c),
        decreases n,
    {
        assert(s@.take(n as int).drop_last() =~= s@.take(n - 1));
        n -= 1;
    }
    assert(s@.take(n as int) =~= s@.subrange(0, n as int));
    vstd::slice::slice_subrange(s, 0, n)
}

/// Where `c` first occurs in `s`; the length of `s` if it does not.
pub open spec fn position(s: Seq<char>, c: char) -> int
    decreases s.len(),
{
    if s.len() == 0 || s[0] == c {
        0
    } else {
        1 + position(s.skip(1), c)
    }
}

/// What [`position`] says: no `c` before it, and `c` there unless it is the end.
pub proof fn lemma_position(s: Seq<char>, c: char)
    ensures
        0 <= position(s, c) <= s.len(),
        position(s, c) < s.len() ==> s[position(s, c)] == c,
        forall|i: int| 0 <= i < position(s, c) ==> #[trigger] s[i] != c,
    decreases s.len(),
{
    if s.len() > 0 && s[0] != c {
        lemma_position(s.skip(1), c);
        assert forall|i: int| 0 <= i < position(s, c) implies #[trigger] s[i] != c by {
            if i > 0 {
                assert(s[i] == s.skip(1)[i - 1]);
            }
        }
    }
}

/// Where `c` first occurs, or the length if it does not.
pub fn find(s: &[char], c: char) -> (at: usize)
    ensures
        at == position(s@, c),
        at <= s@.len(),
        at < s@.len() ==> s@[at as int] == c,
{
    let mut i: usize = 0;
    assert(s@.skip(0) =~= s@);
    while i < s.len() && s[i] != c
        invariant
            i <= s@.len(),
            position(s@, c) == i + position(s@.skip(i as int), c),
        decreases s@.len() - i,
    {
        assert(s@.skip(i as int).skip(1) =~= s@.skip(i + 1));
        i += 1;
    }
    i
}

/// What is before and after the first `c`, if there is one.
pub open spec fn split_once_of(s: Seq<char>, c: char) -> Option<(Seq<char>, Seq<char>)> {
    if position(s, c) < s.len() {
        Some((s.take(position(s, c)), s.skip(position(s, c) + 1)))
    } else {
        None
    }
}

/// Split at the first `c`.
pub fn split_once<'a>(s: &'a [char], c: char) -> (parts: Option<(&'a [char], &'a [char])>)
    ensures
        parts is Some <==> split_once_of(s@, c) is Some,
        parts is Some ==> (parts->0).0@ == (split_once_of(s@, c)->0).0 && (parts->0).1@ == (
        split_once_of(s@, c)->0).1,
{
    let at: usize = find(s, c);
    if at == s.len() {
        return None;
    }
    let before = vstd::slice::slice_subrange(s, 0, at);
    let after = vstd::slice::slice_subrange(s, at + 1, s.len());
    assert(before@ =~= s@.take(at as int));
    assert(after@ =~= s@.skip(at + 1));
    Some((before, after))
}

/// The pieces of `s` between the `c`s.
pub open spec fn split_of(s: Seq<char>, c: char) -> Seq<Seq<char>>
    decreases s.len(),
{
    if 0 <= position(s, c) < s.len() {
        seq![s.take(position(s, c))] + split_of(s.skip(position(s, c) + 1), c)
    } else {
        seq![s]
    }
}

/// The text that an optional string holds.
pub open spec fn optional_text(s: Option<String>) -> Option<Seq<char>> {
    match s {
        Some(s) => Some(s@),
        None => None,
    }
}

/// A copy of an optional text.
pub(crate) fn copy_text(s: &Option<String>) -> (copy: Option<String>)
    ensures
        optional_text(copy) == optional_text(*s),
{
    match s {
        Some(s) => Some(s.clone()),
        None => None,
    }
}

/// The texts of some strings.
pub open spec fn texts(strings: Seq<String>) -> Seq<Seq<char>> {
    strings.map_values(|s: String| s@)
}

/// The contents of some runs of characters.
pub open spec fn contents(pieces: Seq<&[char]>) -> Seq<Seq<char>> {
    pieces.map_values(|p: &[char]| p@)
}

/// The pieces between the `c`s.
pub fn split<'a>(s: &'a [char], c: char) -> (pieces: Vec<&'a [char]>)
    ensures
        contents(pieces@) == split_of(s@, c),
{
    let mut pieces: Vec<&'a [char]> = Vec::new();
    let mut rest = s;
    assert(contents(pieces@) + split_of(s@, c) =~= split_of(s@, c));
    loop
        invariant
            contents(pieces@) + split_of(rest@, c) == split_of(s@, c),
        decreases rest@.len(),
    {
        match split_once(rest, c) {
            Some((before, after)) => {
                let ghost was = pieces@;
                pieces.push(before);
                proof {
                    lemma_position(rest@, c);
                    assert(contents(pieces@) =~= contents(was).push(before@));
                    assert(contents(was) + split_of(rest@, c) =~= contents(pieces@) + split_of(
                        after@,
                        c,
                    ));
                }
                rest = after;
            },
            None => {
                let ghost was = pieces@;
                pieces.push(rest);
                proof {
                    lemma_position(rest@, c);
                    assert(contents(pieces@) =~= contents(was) + seq![rest@]);
                }
                return pieces;
            },
        }
    }
}

/// The lines of `s`: a line ends with a line feed, or with a carriage return
/// and a line feed; the last one may end with the text.
pub open spec fn lines_of(s: Seq<char>) -> Seq<Seq<char>>
    decreases s.len(),
{
    if s.len() == 0 {
        Seq::empty()
    } else if 0 <= position(s, '\n') < s.len() {
        seq![without_return(s.take(position(s, '\n')))] + lines_of(s.skip(position(s, '\n') + 1))
    } else {
        seq![s]
    }
}

/// `s` without one carriage return at its end.
pub open spec fn without_return(s: Seq<char>) -> Seq<char> {
    if s.len() > 0 && s.last() == '\r' {
        s.drop_last()
    } else {
        s
    }
}

/// The lines of a text.
pub fn lines<'a>(s: &'a [char]) -> (out: Vec<&'a [char]>)
    ensures
        contents(out@) == lines_of(s@),
{
    let mut out: Vec<&'a [char]> = Vec::new();
    let mut rest = s;
    assert(contents(out@) + lines_of(s@) =~= lines_of(s@));
    while rest.len() > 0
        invariant
            contents(out@) + lines_of(rest@) == lines_of(s@),
        decreases rest@.len(),
    {
        let ghost was = out@;
        proof {
            lemma_position(rest@, '\n');
        }
        match split_once(rest, '\n') {
            Some((line, after)) => {
                let n: usize = line.len();
                let bare = if n > 0 && line[n - 1] == '\r' {
                    vstd::slice::slice_subrange(line, 0, n - 1)
                } else {
                    line
                };
                assert(bare@ =~= without_return(line@));
                out.push(bare);
                proof {
                    assert(contents(out@) =~= contents(was).push(bare@));
                    assert(contents(was) + lines_of(rest@) =~= contents(out@) + lines_of(after@));
                }
                rest = after;
            },
            None => {
                out.push(rest);
                assert(contents(out@) =~= contents(was) + seq![rest@]);
                return out;
            },
        }
    }
    assert(contents(out@) + lines_of(rest@) =~= contents(out@));
    out
}

/// How many characters come before the first white space.
pub open spec fn word_len(s: Seq<char>) -> int
    decreases s.len(),
{
    if s.len() == 0 || is_space(s[0]) {
        0
    } else {
        1 + word_len(s.skip(1))
    }
}

/// The runs of `s` that hold no white space.
pub open spec fn words_of(s: Seq<char>) -> Seq<Seq<char>>
    decreases trim_start_of(s).len(),
{
    let t = trim_start_of(s);
    if t.len() == 0 || !(0 < word_len(t) <= t.len()) {
        Seq::empty()
    } else {
        proof {
            lemma_trim_start_shrinks(t.skip(word_len(t)));
        }
        seq![t.take(word_len(t))] + words_of(t.skip(word_len(t)))
    }
}

/// Trimming the start leaves nothing longer, and no white space in front.
pub proof fn lemma_trim_start_shrinks(s: Seq<char>)
    ensures
        trim_start_of(s).len() <= s.len(),
        trim_start_of(s).len() > 0 ==> !is_space(trim_start_of(s)[0]),
    decreases s.len(),
{
    if s.len() > 0 && is_space(s[0]) {
        lemma_trim_start_shrinks(s.skip(1));
    }
}

/// The words of a text: its runs without white space.
pub fn split_whitespace<'a>(s: &'a [char]) -> (words: Vec<&'a [char]>)
    ensures
        contents(words@) == words_of(s@),
{
    let mut words: Vec<&'a [char]> = Vec::new();
    let mut rest = s;
    assert(contents(words@) + words_of(s@) =~= words_of(s@));
    loop
        invariant
            contents(words@) + words_of(rest@) == words_of(s@),
        decreases trim_start_of(rest@).len(),
    {
        let t = trim_start(rest);
        proof {
            lemma_trim_start_shrinks(rest@);
        }
        if t.len() == 0 {
            assert(contents(words@) + words_of(rest@) =~= contents(words@));
            return words;
        }
        let mut n: usize = 0;
        assert(t@.skip(0) =~= t@);
        while n < t.len() && !is_whitespace(t[n])
            invariant
                n <= t@.len(),
                word_len(t@) == n + word_len(t@.skip(n as int)),
            decreases t@.len() - n,
        {
            assert(t@.skip(n as int).skip(1) =~= t@.skip(n + 1));
            n += 1;
        }
        let word = vstd::slice::slice_subrange(t, 0, n);
        let after = vstd::slice::slice_subrange(t, n, t.len());
        assert(word@ =~= t@.take(n as int));
        assert(after@ =~= t@.skip(n as int));
        let ghost was = words@;
        words.push(word);
        proof {
            lemma_trim_start_shrinks(after@);
            assert(contents(words@) =~= contents(was).push(word@));
            assert(contents(was) + words_of(rest@) =~= contents(words@) + words_of(after@));
        }
        rest = after;
    }
}

/// Where `needle` first occurs in `s`, if it does.
pub open spec fn text_position(s: Seq<char>, needle: Seq<char>) -> Option<int>
    decreases s.len(),
{
    if has_prefix(s, needle) {
        Some(0)
    } else if s.len() == 0 {
        None
    } else {
        match text_position(s.skip(1), needle) {
            Some(i) => Some(i + 1),
            None => None,
        }
    }
}

/// What follows the first `needle`, if there is one.
pub open spec fn text_after(s: Seq<char>, needle: Seq<char>) -> Option<Seq<char>> {
    match text_position(s, needle) {
        Some(i) => Some(s.skip(i + needle.len())),
        None => None,
    }
}

/// What follows the first `needle`.
pub fn after_text<'a>(s: &'a [char], needle: &[char]) -> (rest: Option<&'a [char]>)
    ensures
        rest is Some <==> text_after(s@, needle@) is Some,
        rest is Some ==> rest->0@ == text_after(s@, needle@)->0,
{
    let mut i: usize = 0;
    assert(s@.skip(0) =~= s@);
    while i < s.len()
        invariant
            i <= s@.len(),
            text_position(s@, needle@) == (match text_position(s@.skip(i as int), needle@) {
                Some(k) => Some(i + k),
                None => None,
            }),
        decreases s@.len() - i,
    {
        let here = vstd::slice::slice_subrange(s, i, s.len());
        assert(here@ =~= s@.skip(i as int));
        if let Some(rest) = strip_prefix(here, needle) {
            assert(rest@ =~= s@.skip(i + needle@.len()));
            return Some(rest);
        }
        assert(s@.skip(i as int).skip(1) =~= s@.skip(i + 1));
        i += 1;
    }
    let end = vstd::slice::slice_subrange(s, i, s.len());
    assert(end@ =~= s@.skip(i as int));
    match strip_prefix(end, needle) {
        Some(rest) => {
            assert(rest@ =~= s@.skip(i + needle@.len()));
            Some(rest)
        },
        None => None,
    }
}

/// Blanks, tabs and line ends are white space; letters, digits and the signs of
/// a header are not.
pub proof fn law_what_white_space_is(c: char)
    ensures
        is_space(' ') && is_space('\t') && is_space('\n') && is_space('\r'),
        '!' <= c <= '~' ==> !is_space(c),
{
}

/// Case is ignored for the 26 letters and for nothing else: two texts are the
/// same where each character is the same, or a capital stands for its small
/// letter.
pub proof fn law_case_is_ignored_letter_by_letter(a: Seq<char>, b: Seq<char>)
    ensures
        same_ignoring_case(a, b) <==> a.len() == b.len() && forall|i: int|
            0 <= i < a.len() ==> {
                ||| #[trigger] a[i] == b[i]
                ||| 'A' <= a[i] <= 'Z' && b[i] as int == a[i] as int + 32
                ||| 'A' <= b[i] <= 'Z' && a[i] as int == b[i] as int + 32
            },
{
    assert forall|x: char, y: char|
        #![trigger ascii_lower(x), ascii_lower(y)]
        ascii_lower(x) == ascii_lower(y) <==> {
            ||| x == y
            ||| 'A' <= x <= 'Z' && y as int == x as int + 32
            ||| 'A' <= y <= 'Z' && x as int == y as int + 32
        } by {}
    if same_ignoring_case(a, b) {
        assert forall|i: int| 0 <= i < a.len() implies {
            ||| #[trigger] a[i] == b[i]
            ||| 'A' <= a[i] <= 'Z' && b[i] as int == a[i] as int + 32
            ||| 'A' <= b[i] <= 'Z' && a[i] as int == b[i] as int + 32
        } by {
            assert(ascii_lower(a[i]) == ascii_lower(b[i]));
        }
    } else if a.len() == b.len() {
        let i = choose|i: int|
            0 <= i < a.len() && ascii_lower(a[i]) != ascii_lower(#[trigger] b[i]);
        assert(!({
            ||| a[i] == b[i]
            ||| 'A' <= a[i] <= 'Z' && b[i] as int == a[i] as int + 32
            ||| 'A' <= b[i] <= 'Z' && a[i] as int == b[i] as int + 32
        }));
    }
}

/// A text begins with each of its beginnings, and with nothing else.
pub proof fn law_a_prefix_is_a_beginning(prefix: Seq<char>, rest: Seq<char>, s: Seq<char>)
    ensures
        has_prefix(prefix + rest, prefix),
        has_prefix(s, prefix) ==> s == prefix + s.skip(prefix.len() as int),
{
    assert((prefix + rest).take(prefix.len() as int) =~= prefix);
    if has_prefix(s, prefix) {
        assert(s =~= s.take(prefix.len() as int) + s.skip(prefix.len() as int));
    }
}

/// Trimming takes white space off both ends, all of it, and nothing else.
pub proof fn law_trimming_takes_the_blanks_off_the_ends(
    lead: Seq<char>,
    s: Seq<char>,
    tail: Seq<char>,
)
    requires
        forall|i: int| 0 <= i < lead.len() ==> is_space(#[trigger] lead[i]),
        forall|i: int| 0 <= i < tail.len() ==> is_space(#[trigger] tail[i]),
        s.len() > 0 ==> !is_space(s[0]) && !is_space(s.last()),
    ensures
        trimmed(lead + s + tail) == s,
        trimmed(s) == s,
{
    lemma_trim_start_takes(lead, s + tail);
    assert(lead + s + tail =~= lead + (s + tail));
    if s.len() > 0 {
        assert((s + tail)[0] == s[0]);
        assert(trim_start_of(s + tail) == s + tail);
        lemma_trim_end_takes(s, tail);
        assert(trim_end_of(s) == s);
    } else {
        assert(s + tail =~= tail);
        lemma_trim_start_takes(tail, Seq::empty());
        assert(tail + Seq::<char>::empty() =~= tail);
        assert(s =~= Seq::<char>::empty());
    }
}

proof fn lemma_trim_start_takes(lead: Seq<char>, s: Seq<char>)
    requires
        forall|i: int| 0 <= i < lead.len() ==> is_space(#[trigger] lead[i]),
    ensures
        trim_start_of(lead + s) == trim_start_of(s),
    decreases lead.len(),
{
    if lead.len() == 0 {
        assert(lead + s =~= s);
    } else {
        assert((lead + s)[0] == lead[0]);
        assert((lead + s).skip(1) =~= lead.skip(1) + s);
        lemma_trim_start_takes(lead.skip(1), s);
    }
}

proof fn lemma_trim_end_takes(s: Seq<char>, tail: Seq<char>)
    requires
        forall|i: int| 0 <= i < tail.len() ==> is_space(#[trigger] tail[i]),
    ensures
        trim_end_of(s + tail) == trim_end_of(s),
    decreases tail.len(),
{
    if tail.len() == 0 {
        assert(s + tail =~= s);
    } else {
        assert((s + tail).last() == tail.last());
        assert((s + tail).drop_last() =~= s + tail.drop_last());
        assert forall|i: int| 0 <= i < tail.drop_last().len() implies is_space(
            #[trigger] tail.drop_last()[i],
        ) by {
            assert(tail.drop_last()[i] == tail[i]);
        }
        lemma_trim_end_takes(s, tail.drop_last());
    }
}

/// Where a character stands first, in a text that is put together: after what
/// comes before it, or nowhere.
pub proof fn law_a_character_is_found_where_it_stands_first(
    before: Seq<char>,
    c: char,
    after: Seq<char>,
)
    requires
        forall|i: int| 0 <= i < before.len() ==> #[trigger] before[i] != c,
    ensures
        position(before + seq![c] + after, c) == before.len(),
        position(before, c) == before.len(),
        split_once_of(before + seq![c] + after, c) == Some((before, after)),
        split_once_of(before, c) is None,
{
    let s = before + seq![c] + after;
    lemma_position(s, c);
    lemma_position(before, c);
    assert(s[before.len() as int] == c);
    if position(s, c) < before.len() {
        assert(s[position(s, c)] == before[position(s, c)]);
    }
    assert(s.take(before.len() as int) =~= before);
    assert(s.skip(before.len() as int + 1) =~= after);
}

/// A text is cut at every separator and nowhere else.
pub proof fn law_a_text_is_cut_at_its_separators(piece: Seq<char>, c: char, rest: Seq<char>)
    requires
        forall|i: int| 0 <= i < piece.len() ==> #[trigger] piece[i] != c,
    ensures
        split_of(piece + seq![c] + rest, c) == seq![piece] + split_of(rest, c),
        split_of(piece, c) == seq![piece],
{
    law_a_character_is_found_where_it_stands_first(piece, c, rest);
    let s = piece + seq![c] + rest;
    assert(s.take(piece.len() as int) =~= piece);
    assert(s.skip(piece.len() as int + 1) =~= rest);
}

/// The pieces that a text is cut into, put together again, are the text, and
/// none of them holds a separator.
pub proof fn law_the_pieces_make_up_the_text(s: Seq<char>, c: char)
    ensures
        joined(split_of(s, c), c) == s,
        split_of(s, c).len() > 0,
        forall|i: int, j: int|
            0 <= i < split_of(s, c).len() && 0 <= j < split_of(s, c)[i].len()
                ==> #[trigger] split_of(s, c)[i][j] != c,
    decreases s.len(),
{
    lemma_position(s, c);
    let at = position(s, c);
    if at < s.len() {
        let rest = s.skip(at + 1);
        law_the_pieces_make_up_the_text(rest, c);
        let pieces = split_of(s, c);
        assert(pieces.skip(1) =~= split_of(rest, c));
        assert(pieces[0] == s.take(at));
        assert(s =~= s.take(at) + seq![c] + rest);
        assert forall|i: int, j: int| 0 <= i < pieces.len() && 0 <= j < pieces[i].len() implies
            #[trigger] pieces[i][j] != c by {
            if i > 0 {
                assert(pieces[i] == split_of(rest, c)[i - 1]);
            }
        }
    } else {
        assert(split_of(s, c)[0] == s);
    }
}

/// Some pieces, with a separator between them.
pub open spec fn joined(pieces: Seq<Seq<char>>, c: char) -> Seq<char>
    decreases pieces.len(),
{
    if pieces.len() == 0 {
        Seq::empty()
    } else if pieces.len() == 1 {
        pieces[0]
    } else {
        pieces[0] + seq![c] + joined(pieces.skip(1), c)
    }
}

/// A line ends at its line feed; a carriage return before that is no part of
/// it. The last line needs neither.
pub proof fn law_a_text_is_cut_into_its_lines(line: Seq<char>, rest: Seq<char>)
    requires
        forall|i: int| 0 <= i < line.len() ==> #[trigger] line[i] != '\n',
        line.len() > 0 ==> line.last() != '\r',
    ensures
        lines_of(line + seq!['\n'] + rest) == seq![line] + lines_of(rest),
        lines_of(line + seq!['\r', '\n'] + rest) == seq![line] + lines_of(rest),
        line.len() > 0 ==> lines_of(line) == seq![line],
        lines_of(Seq::empty()) == Seq::<Seq<char>>::empty(),
{
    law_a_character_is_found_where_it_stands_first(line, '\n', rest);
    let s = line + seq!['\n'] + rest;
    assert(s.take(line.len() as int) =~= line);
    assert(s.skip(line.len() as int + 1) =~= rest);
    let returned = line + seq!['\r'];
    assert forall|i: int| 0 <= i < returned.len() implies #[trigger] returned[i] != '\n' by {
        if i < line.len() {
            assert(returned[i] == line[i]);
        }
    }
    law_a_character_is_found_where_it_stands_first(returned, '\n', rest);
    let r = line + seq!['\r', '\n'] + rest;
    assert(r =~= returned + seq!['\n'] + rest);
    assert(r.take(returned.len() as int) =~= returned);
    assert(r.skip(returned.len() as int + 1) =~= rest);
    assert(returned.drop_last() =~= line);
}

/// A text is cut into its words at white space, however much of it there is.
pub proof fn law_a_text_is_cut_into_its_words(
    lead: Seq<char>,
    word: Seq<char>,
    rest: Seq<char>,
)
    requires
        forall|i: int| 0 <= i < lead.len() ==> is_space(#[trigger] lead[i]),
        word.len() > 0,
        forall|i: int| 0 <= i < word.len() ==> !is_space(#[trigger] word[i]),
        rest.len() > 0 ==> is_space(rest[0]),
    ensures
        words_of(lead + word + rest) == seq![word] + words_of(rest),
        words_of(lead) == Seq::<Seq<char>>::empty(),
{
    let s = lead + word + rest;
    assert(s =~= lead + (word + rest));
    lemma_trim_start_takes(lead, word + rest);
    let t = word + rest;
    assert(t[0] == word[0]);
    assert(trim_start_of(t) == t);
    lemma_word_len(word, rest);
    assert(t.take(word.len() as int) =~= word);
    assert(t.skip(word.len() as int) =~= rest);
    lemma_trim_start_shrinks(rest);
    assert(words_of(s) == seq![word] + words_of(rest));
    lemma_trim_start_takes(lead, Seq::empty());
    assert(lead + Seq::<char>::empty() =~= lead);
}

proof fn lemma_word_len(word: Seq<char>, rest: Seq<char>)
    requires
        forall|i: int| 0 <= i < word.len() ==> !is_space(#[trigger] word[i]),
        rest.len() > 0 ==> is_space(rest[0]),
    ensures
        word_len(word + rest) == word.len(),
    decreases word.len(),
{
    if word.len() > 0 {
        assert((word + rest)[0] == word[0]);
        assert((word + rest).skip(1) =~= word.skip(1) + rest);
        lemma_word_len(word.skip(1), rest);
    } else {
        assert(word + rest =~= rest);
    }
}

/// What follows a text's first occurrence of another: it stands right behind
/// it, and no earlier place matches; where there is none, no place does.
pub proof fn law_a_text_is_found_where_it_stands_first(s: Seq<char>, needle: Seq<char>)
    ensures
        text_after(s, needle) matches Some(rest) ==> exists|at: int| {
            &&& 0 <= at
            &&& at + needle.len() + rest.len() == s.len()
            &&& #[trigger] s.subrange(at, at + needle.len()) == needle
            &&& rest == s.skip(at + needle.len())
            &&& forall|j: int| 0 <= j < at ==> #[trigger] s.subrange(j, j + needle.len()) != needle
        },
        text_after(s, needle) is None ==> forall|j: int|
            0 <= j && j + needle.len() <= s.len() ==> #[trigger] s.subrange(j, j + needle.len())
                != needle,
{
    lemma_text_position(s, needle);
    if let Some(at) = text_position(s, needle) {
        assert(s.subrange(at, at + needle.len()) == needle);
        assert(s.skip(at + needle.len()).len() == s.len() - at - needle.len());
    }
}

proof fn lemma_text_position(s: Seq<char>, needle: Seq<char>)
    ensures
        text_position(s, needle) matches Some(at) ==> {
            &&& 0 <= at <= s.len() - needle.len()
            &&& s.subrange(at, at + needle.len()) == needle
            &&& forall|j: int| 0 <= j < at ==> #[trigger] s.subrange(j, j + needle.len()) != needle
        },
        text_position(s, needle) is None ==> forall|j: int|
            0 <= j && j + needle.len() <= s.len() ==> #[trigger] s.subrange(j, j + needle.len())
                != needle,
    decreases s.len(),
{
    let n = needle.len() as int;
    if n <= s.len() {
        assert(s.take(n) =~= s.subrange(0, n));
    }
    if !has_prefix(s, needle) && s.len() > 0 {
        let rest = s.skip(1);
        lemma_text_position(rest, needle);
        assert forall|j: int| 1 <= j && j + n <= s.len() implies #[trigger] s.subrange(j, j + n)
            == rest.subrange(j - 1, j - 1 + n) by {
            assert(s.subrange(j, j + n) =~= rest.subrange(j - 1, j - 1 + n));
        }
    }
}

/// What is trimmed off the end is every one of that character, and nothing else.
pub proof fn law_only_that_character_is_trimmed_off(s: Seq<char>, c: char, n: nat)
    requires
        s.len() > 0 ==> s.last() != c,
    ensures
        trim_end_matches_of(s + Seq::new(n, |i: int| c), c) == s,
    decreases n,
{
    let all = s + Seq::new(n, |i: int| c);
    if n > 0 {
        law_only_that_character_is_trimmed_off(s, c, (n - 1) as nat);
        assert(all.drop_last() =~= s + Seq::new((n - 1) as nat, |i: int| c));
    } else {
        assert(all =~= s);
    }
}

/// Pieces without a separator, put together, are cut into the same pieces.
pub proof fn law_pieces_are_cut_apart_again(pieces: Seq<Seq<char>>, c: char)
    requires
        pieces.len() > 0,
        forall|i: int, j: int|
            0 <= i < pieces.len() && 0 <= j < pieces[i].len() ==> #[trigger] pieces[i][j] != c,
    ensures
        split_of(joined(pieces, c), c) == pieces,
    decreases pieces.len(),
{
    let first = pieces[0];
    assert forall|j: int| 0 <= j < first.len() implies #[trigger] first[j] != c by {
        assert(pieces[0][j] != c);
    }
    let rest = pieces.skip(1);
    law_a_text_is_cut_at_its_separators(first, c, joined(rest, c));
    if pieces.len() == 1 {
        assert(seq![first] =~= pieces);
    } else {
        assert forall|i: int, j: int| 0 <= i < rest.len() && 0 <= j < rest[i].len() implies
            #[trigger] rest[i][j] != c by {
            assert(pieces[i + 1][j] != c);
        }
        law_pieces_are_cut_apart_again(rest, c);
        assert(seq![first] + rest =~= pieces);
    }
}

/// Words, with a blank between them, are cut into the same words.
pub proof fn law_words_are_cut_apart_again(words: Seq<Seq<char>>)
    requires
        forall|i: int| 0 <= i < words.len() ==> (#[trigger] words[i]).len() > 0,
        forall|i: int, j: int|
            0 <= i < words.len() && 0 <= j < words[i].len() ==> !is_space(#[trigger] words[i][j]),
    ensures
        words_of(joined(words, ' ')) == words,
    decreases words.len(),
{
    let none = Seq::<char>::empty();
    if words.len() == 0 {
        assert(words_of(none) =~= words);
    } else {
        let first = words[0];
        let rest = words.skip(1);
        assert forall|j: int| 0 <= j < first.len() implies !is_space(#[trigger] first[j]) by {
            assert(!is_space(words[0][j]));
        }
        if words.len() == 1 {
            law_a_text_is_cut_into_its_words(none, first, none);
            assert(none + first + none =~= first);
            assert(seq![first] + Seq::<Seq<char>>::empty() =~= words);
        } else {
            assert forall|i: int| 0 <= i < rest.len() implies (#[trigger] rest[i]).len() > 0 by {
                assert(words[i + 1].len() > 0);
            }
            assert forall|i: int, j: int| 0 <= i < rest.len() && 0 <= j < rest[i].len() implies
                !is_space(#[trigger] rest[i][j]) by {
                assert(!is_space(words[i + 1][j]));
            }
            law_words_are_cut_apart_again(rest);
            let more = joined(rest, ' ');
            let blank = seq![' '];
            law_a_text_is_cut_into_its_words(none, first, blank + more);
            assert(none + first + (blank + more) =~= first + blank + more);
            lemma_trim_start_takes(blank, more);
            assert(words_of(blank + more) == words_of(more));
            assert(seq![first] + rest =~= words);
        }
    }
}

} // verus!
