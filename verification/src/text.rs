//! Character sequences: the searching, splitting and trimming that the diff
//! reader and the pull-request builder are made of.
//!
//! Every contract here speaks of `Seq<char>`, the view of a `str`; the
//! executable functions work on `&[char]`.

use vstd::prelude::*;

verus! {

/// `String::push` appends the given character to the end of the string.
pub assume_specification[ String::push ](s: &mut String, c: char)
    ensures
        final(s)@ == old(s)@.push(c),
;

/// The characters of `s`, in order.
pub fn chars_of(s: &str) -> (v: Vec<char>)
    ensures
        v@ == s@,
{
    let mut v: Vec<char> = Vec::new();
    for c in it: s.chars()
        invariant
            it.seq() == s@,
            v@ == s@.take(it.index()),
    {
        v.push(c);
    }
    v
}

/// The string made of the characters of `v`, in order.
pub fn string_of(v: &[char]) -> (s: String)
    ensures
        s@ == v@,
{
    let mut s = String::new();
    let mut i: usize = 0;
    while i < v.len()
        invariant
            i <= v.len(),
            s@ == v@.take(i as int),
        decreases v.len() - i,
    {
        s.push(v[i]);
        i += 1;
    }
    s
}

/// A set of characters that can be stripped from the ends of a text.
#[derive(Clone, Copy, Debug)]
pub enum CharClass {
    /// The characters with the Unicode property `White_Space`.
    Whitespace,
    /// One character.
    Only(char),
}

/// Unicode `White_Space`: U+0009..=U+000D, U+0020, U+0085, U+00A0, U+1680,
/// U+2000..=U+200A, U+2028, U+2029, U+202F, U+205F and U+3000.
pub open spec fn white(c: char) -> bool {
    let n = c as u32;
    ||| 0x09 <= n <= 0x0d
    ||| n == 0x20
    ||| n == 0x85
    ||| n == 0xa0
    ||| n == 0x1680
    ||| 0x2000 <= n <= 0x200a
    ||| n == 0x2028
    ||| n == 0x2029
    ||| n == 0x202f
    ||| n == 0x205f
    ||| n == 0x3000
}

pub fn is_whitespace(c: char) -> (b: bool)
    ensures
        b == white(c),
{
    let n: u32 = c as u32;
    (0x09 <= n && n <= 0x0d) || n == 0x20 || n == 0x85 || n == 0xa0 || n == 0x1680 || (0x2000 <= n
        && n <= 0x200a) || n == 0x2028 || n == 0x2029 || n == 0x202f || n == 0x205f || n == 0x3000
}

impl CharClass {
    pub open spec fn has(self, c: char) -> bool {
        match self {
            CharClass::Whitespace => white(c),
            CharClass::Only(m) => c == m,
        }
    }

    pub fn contains(&self, c: char) -> (b: bool)
        ensures
            b == self.has(c),
    {
        match self {
            CharClass::Whitespace => is_whitespace(c),
            CharClass::Only(m) => c == *m,
        }
    }
}

/// `s` without its longest prefix of characters of `class`.
pub open spec fn without_leading(s: Seq<char>, class: CharClass) -> Seq<char>
    decreases s.len(),
{
    if s.len() > 0 && class.has(s[0]) {
        without_leading(s.drop_first(), class)
    } else {
        s
    }
}

/// `s` without its longest suffix of characters of `class`.
pub open spec fn without_trailing(s: Seq<char>, class: CharClass) -> Seq<char>
    decreases s.len(),
{
    if s.len() > 0 && class.has(s.last()) {
        without_trailing(s.drop_last(), class)
    } else {
        s
    }
}

/// `s` without the characters of `class` at either end.
pub open spec fn strip(s: Seq<char>, class: CharClass) -> Seq<char> {
    without_trailing(without_leading(s, class), class)
}

/// `s` without the white space at either end.
pub open spec fn trimmed(s: Seq<char>) -> Seq<char> {
    strip(s, CharClass::Whitespace)
}

/// Neither end of `s` is a character of `class`.
pub open spec fn is_stripped(s: Seq<char>, class: CharClass) -> bool {
    s.len() > 0 ==> !class.has(s[0]) && !class.has(s.last())
}

/// The part of `s` that is left when the characters of `class` are taken
/// from both ends.
pub fn strip_class<'a>(s: &'a [char], class: CharClass) -> (r: &'a [char])
    ensures
        r@ == strip(s@, class),
{
    let mut start: usize = 0;
    assert(s@.skip(0) == s@);
    while start < s.len() && class.contains(s[start])
        invariant
            start <= s.len(),
            without_leading(s@, class) == without_leading(s@.skip(start as int), class),
        decreases s.len() - start,
    {
        assert(s@.skip(start as int).drop_first() == s@.skip(start + 1));
        start += 1;
    }
    assert(without_leading(s@, class) == s@.skip(start as int));
    let mut end: usize = s.len();
    while end > start && class.contains(s[end - 1])
        invariant
            start <= end <= s.len(),
            strip(s@, class) == without_trailing(s@.subrange(start as int, end as int), class),
        decreases end,
    {
        assert(s@.subrange(start as int, end as int).drop_last() == s@.subrange(
            start as int,
            end - 1,
        ));
        end -= 1;
    }
    &s[start..end]
}

/// The part of `s` between the white space at its ends.
pub fn trim<'a>(s: &'a [char]) -> (r: &'a [char])
    ensures
        r@ == trimmed(s@),
{
    strip_class(s, CharClass::Whitespace)
}

/// The part of `s` that is left when every `m` is taken from both ends.
pub fn trim_matches<'a>(s: &'a [char], m: char) -> (r: &'a [char])
    ensures
        r@ == strip(s@, CharClass::Only(m)),
{
    strip_class(s, CharClass::Only(m))
}

/// `pat` stands in `s` at position `i`.
pub open spec fn occurs_at(s: Seq<char>, pat: Seq<char>, i: int) -> bool {
    &&& 0 <= i
    &&& i + pat.len() <= s.len()
    &&& s.subrange(i, i + pat.len()) == pat
}

/// The first position at or after `from` at which `pat` stands in `s`.
pub open spec fn first_match(s: Seq<char>, pat: Seq<char>, from: int) -> Option<int>
    decreases s.len() - from + 1,
{
    if from < 0 || from + pat.len() > s.len() {
        None
    } else if occurs_at(s, pat, from) {
        Some(from)
    } else {
        first_match(s, pat, from + 1)
    }
}

/// The text before and the text after the first occurrence of `pat` in `s`.
pub open spec fn split_at_first(s: Seq<char>, pat: Seq<char>) -> Option<(Seq<char>, Seq<char>)> {
    match first_match(s, pat, 0) {
        Some(i) => Some((s.take(i), s.skip(i + pat.len()))),
        None => None,
    }
}

/// Whether `s` begins with `p`.
pub fn starts_with(s: &[char], p: &[char]) -> (b: bool)
    ensures
        b == p@.is_prefix_of(s@),
{
    if p.len() > s.len() {
        return false;
    }
    let mut i: usize = 0;
    while i < p.len()
        invariant
            i <= p.len() <= s.len(),
            forall|j: int| 0 <= j < i ==> s@[j] == p@[j],
        decreases p.len() - i,
    {
        if s[i] != p[i] {
            return false;
        }
        i += 1;
    }
    true
}

/// Whether `pat` stands in `s` at position `i`.
fn matches_at(s: &[char], pat: &[char], i: usize) -> (b: bool)
    requires
        i + pat.len() <= s.len(),
    ensures
        b == occurs_at(s@, pat@, i as int),
{
    let mut k: usize = 0;
    while k < pat.len()
        invariant
            k <= pat.len(),
            i + pat.len() <= s.len(),
            forall|j: int| 0 <= j < k ==> s@[i + j] == pat@[j],
        decreases pat.len() - k,
    {
        if s[i + k] != pat[k] {
            assert(s@.subrange(i as int, i + pat.len())[k as int] != pat@[k as int]);
            return false;
        }
        k += 1;
    }
    assert(s@.subrange(i as int, i + pat.len()) =~= pat@);
    true
}

/// The first position at which `pat` stands in `s`.
pub fn find(s: &[char], pat: &[char]) -> (r: Option<usize>)
    ensures
        match r {
            Some(i) => first_match(s@, pat@, 0) == Some(i as int) && i + pat.len() <= s.len(),
            None => first_match(s@, pat@, 0) is None,
        },
{
    if pat.len() > s.len() {
        return None;
    }
    let last: usize = s.len() - pat.len();
    let mut i: usize = 0;
    loop
        invariant
            last == s.len() - pat.len(),
            i <= last,
            first_match(s@, pat@, 0) == first_match(s@, pat@, i as int),
        decreases last - i,
    {
        if matches_at(s, pat, i) {
            return Some(i);
        }
        if i == last {
            return None;
        }
        i += 1;
    }
}

/// The text before and the text after the first occurrence of `pat` in `s`.
pub fn split_once<'a>(s: &'a [char], pat: &[char]) -> (r: Option<(&'a [char], &'a [char])>)
    ensures
        match r {
            Some((before, after)) => split_at_first(s@, pat@) == Some((before@, after@)),
            None => split_at_first(s@, pat@) is None,
        },
{
    match find(s, pat) {
        Some(i) => {
            let before = &s[0..i];
            let after = &s[i + pat.len()..s.len()];
            assert(before@ == s@.take(i as int));
            assert(after@ == s@.skip(i + pat.len()));
            Some((before, after))
        },
        None => None,
    }
}

/// What `first_match` finds is an occurrence with none before it; where it
/// finds nothing there is none.
pub proof fn lemma_first_match(s: Seq<char>, pat: Seq<char>, from: int)
    requires
        0 <= from,
    ensures
        match first_match(s, pat, from) {
            Some(i) => from <= i && occurs_at(s, pat, i) && forall|j: int|
                from <= j < i ==> !occurs_at(s, pat, j),
            None => forall|j: int| from <= j ==> !occurs_at(s, pat, j),
        },
    decreases s.len() - from + 1,
{
    if from + pat.len() > s.len() {
    } else if occurs_at(s, pat, from) {
    } else {
        lemma_first_match(s, pat, from + 1);
    }
}

/// An occurrence with none before it is what `first_match` finds.
pub proof fn lemma_first_match_is(s: Seq<char>, pat: Seq<char>, from: int, i: int)
    requires
        0 <= from <= i,
        occurs_at(s, pat, i),
        forall|j: int| from <= j < i ==> !occurs_at(s, pat, j),
    ensures
        first_match(s, pat, from) == Some(i),
    decreases i - from,
{
    if from < i {
        lemma_first_match_is(s, pat, from + 1, i);
    }
}

/// Where the characters before `a` are of `class` and the one at `a` is not,
/// `s` without its leading characters of `class` begins at `a`.
pub proof fn lemma_without_leading(s: Seq<char>, class: CharClass, a: int)
    requires
        0 <= a <= s.len(),
        forall|j: int| 0 <= j < a ==> class.has(#[trigger] s[j]),
        a < s.len() ==> !class.has(s[a]),
    ensures
        without_leading(s, class) == s.skip(a),
    decreases a,
{
    if a == 0 {
        assert(s.skip(0) == s);
    } else {
        assert(class.has(s[0]));
        let rest = s.drop_first();
        assert forall|j: int| 0 <= j < a - 1 implies class.has(#[trigger] rest[j]) by {
            assert(rest[j] == s[j + 1]);
        }
        lemma_without_leading(rest, class, a - 1);
        assert(rest.skip(a - 1) == s.skip(a));
    }
}

/// Where the characters from `b` on are of `class` and the one before `b` is
/// not, `s` without its trailing characters of `class` ends at `b`.
pub proof fn lemma_without_trailing(s: Seq<char>, class: CharClass, b: int)
    requires
        0 <= b <= s.len(),
        forall|j: int| b <= j < s.len() ==> class.has(#[trigger] s[j]),
        b > 0 ==> !class.has(s[b - 1]),
    ensures
        without_trailing(s, class) == s.take(b),
    decreases s.len() - b,
{
    if b == s.len() {
        assert(s.take(b) == s);
    } else {
        assert(class.has(s.last()));
        let rest = s.drop_last();
        assert forall|j: int| b <= j < rest.len() implies class.has(#[trigger] rest[j]) by {
            assert(rest[j] == s[j]);
        }
        lemma_without_trailing(rest, class, b);
        assert(rest.take(b) == s.take(b));
    }
}

/// Where `s` is made of characters of `class`, then a part that neither
/// begins nor ends with one, then characters of `class` again, that part is
/// what is left of `s` without the characters of `class` at its ends.
pub proof fn lemma_strip(s: Seq<char>, class: CharClass, a: int, b: int)
    requires
        0 <= a <= b <= s.len(),
        forall|j: int| 0 <= j < a ==> class.has(#[trigger] s[j]),
        forall|j: int| b <= j < s.len() ==> class.has(#[trigger] s[j]),
        a < b ==> !class.has(s[a]) && !class.has(s[b - 1]),
    ensures
        strip(s, class) == s.subrange(a, b),
{
    if a < b {
        lemma_without_leading(s, class, a);
        let rest = s.skip(a);
        assert forall|j: int| b - a <= j < rest.len() implies class.has(#[trigger] rest[j]) by {
            assert(rest[j] == s[j + a]);
        }
        lemma_without_trailing(rest, class, b - a);
        assert(rest.take(b - a) == s.subrange(a, b));
    } else {
        lemma_without_leading(s, class, s.len() as int);
        assert(s.skip(s.len() as int) == s.subrange(a, b));
    }
}

/// What is left of `s` without the characters of `class` at its ends is a
/// part of `s` that neither begins nor ends with one.
pub proof fn lemma_strip_is_part(s: Seq<char>, class: CharClass) -> (part: (int, int))
    ensures
        0 <= part.0 <= part.1 <= s.len(),
        strip(s, class) == s.subrange(part.0, part.1),
        is_stripped(strip(s, class), class),
    decreases s.len(),
{
    if s.len() > 0 && class.has(s[0]) {
        let (a, b) = lemma_strip_is_part(s.drop_first(), class);
        assert(s.drop_first().subrange(a, b) == s.subrange(a + 1, b + 1));
        (a + 1, b + 1)
    } else {
        let b = lemma_without_trailing_is_prefix(s, class);
        assert(s.take(b) == s.subrange(0, b));
        (0, b)
    }
}

/// `s` without its trailing characters of `class` is a prefix of `s` that
/// does not end with one.
pub proof fn lemma_without_trailing_is_prefix(s: Seq<char>, class: CharClass) -> (b: int)
    ensures
        0 <= b <= s.len(),
        without_trailing(s, class) == s.take(b),
        b > 0 ==> !class.has(s[b - 1]),
    decreases s.len(),
{
    if s.len() > 0 && class.has(s.last()) {
        let b = lemma_without_trailing_is_prefix(s.drop_last(), class);
        assert(s.drop_last().take(b) == s.take(b));
        b
    } else {
        assert(s.take(s.len() as int) == s);
        s.len() as int
    }
}

/// A text that is put together from `before`, `pat` and `after` splits at
/// its first `pat` into `before` and `after`, where the first character of
/// `pat` does not occur in `before`.
pub proof fn lemma_split_at_first(before: Seq<char>, pat: Seq<char>, after: Seq<char>)
    requires
        pat.len() > 0,
        forall|j: int| 0 <= j < before.len() ==> #[trigger] before[j] != pat[0],
    ensures
        split_at_first(before + pat + after, pat) == Some((before, after)),
{
    let s = before + pat + after;
    let n = before.len() as int;
    assert(s.subrange(n, n + pat.len()) == pat);
    assert forall|j: int| 0 <= j < n implies !occurs_at(s, pat, j) by {
        assert(s[j] == before[j]);
        if occurs_at(s, pat, j) {
            assert(s.subrange(j, j + pat.len())[0] == pat[0]);
        }
    }
    lemma_first_match_is(s, pat, 0, n);
    assert(s.take(n) == before);
    assert(s.skip(n + pat.len()) == after);
}

/// Characters of `class` before a text that neither begins nor ends with
/// one, and characters of `class` after it, are stripped from it.
pub proof fn lemma_strip_around(
    leading: Seq<char>,
    s: Seq<char>,
    trailing: Seq<char>,
    class: CharClass,
)
    requires
        is_stripped(s, class),
        forall|j: int| 0 <= j < leading.len() ==> class.has(#[trigger] leading[j]),
        forall|j: int| 0 <= j < trailing.len() ==> class.has(#[trigger] trailing[j]),
    ensures
        strip(leading + s + trailing, class) == s,
{
    let all = leading + s + trailing;
    let a = leading.len() as int;
    let b = a + s.len();
    assert forall|j: int| 0 <= j < a implies class.has(#[trigger] all[j]) by {
        assert(all[j] == leading[j]);
    }
    assert forall|j: int| b <= j < all.len() implies class.has(#[trigger] all[j]) by {
        assert(all[j] == trailing[j - b]);
    }
    if a < b {
        assert(all[a] == s[0]);
        assert(all[b - 1] == s.last());
    }
    lemma_strip(all, class, a, b);
    assert(all.subrange(a, b) == s);
}

/// No character of `s` is a line feed.
pub open spec fn no_newline(s: Seq<char>) -> bool {
    forall|i: int| 0 <= i < s.len() ==> #[trigger] s[i] != '\n'
}

/// The lines of `lines`, each with a line feed after it.
pub open spec fn joined(lines: Seq<Seq<char>>) -> Seq<char>
    decreases lines.len(),
{
    if lines.len() == 0 {
        seq![]
    } else {
        lines[0] + seq!['\n'] + joined(lines.drop_first())
    }
}

/// Joining two lists of lines one after the other joins their texts.
pub proof fn lemma_joined_concat(a: Seq<Seq<char>>, b: Seq<Seq<char>>)
    ensures
        joined(a + b) == joined(a) + joined(b),
    decreases a.len(),
{
    if a.len() == 0 {
        assert(a + b == b);
        assert(joined(a) + joined(b) == joined(b));
    } else {
        lemma_joined_concat(a.drop_first(), b);
        assert((a + b).drop_first() == a.drop_first() + b);
        assert(joined(a + b) == a[0] + seq!['\n'] + (joined(a.drop_first()) + joined(b)));
        assert(joined(a + b) == joined(a) + joined(b));
    }
}

/// The lines of a text hold no line feed.
pub proof fn lemma_lines_hold_no_newline(s: Seq<char>)
    ensures
        forall|i: int| 0 <= i < lines_of(s).len() ==> no_newline(#[trigger] lines_of(s)[i]),
    decreases s.len(),
{
    if s.len() > 0 {
        let newline = seq!['\n'];
        lemma_first_match(s, newline, 0);
        assert forall|j: int| 0 <= j < s.len() && s[j] == '\n' implies occurs_at(
            s,
            newline,
            j,
        ) by {
            assert(s.subrange(j, j + 1) == newline);
        }
        match first_match(s, newline, 0) {
            Some(i) => {
                let rest = lines_of(s.skip(i + 1));
                lemma_lines_hold_no_newline(s.skip(i + 1));
                assert(no_newline(s.take(i)));
                assert forall|k: int| 0 <= k < lines_of(s).len() implies no_newline(
                    #[trigger] lines_of(s)[k],
                ) by {
                    if k > 0 {
                        assert(lines_of(s)[k] == rest[k - 1]);
                    }
                }
            },
            None => {
                assert(no_newline(s));
            },
        }
    }
}

/// Lines without a line feed are the lines of their joined text.
pub proof fn lemma_lines_of_joined(lines: Seq<Seq<char>>)
    requires
        forall|i: int| 0 <= i < lines.len() ==> no_newline(#[trigger] lines[i]),
    ensures
        lines_of(joined(lines)) == lines,
    decreases lines.len(),
{
    if lines.len() > 0 {
        let newline = seq!['\n'];
        let text = joined(lines);
        let n = lines[0].len() as int;
        let rest = lines.drop_first();
        assert(text.subrange(n, n + 1) == newline);
        assert forall|j: int| 0 <= j < n implies !occurs_at(text, newline, j) by {
            assert(text[j] == lines[0][j]);
            if occurs_at(text, newline, j) {
                assert(text.subrange(j, j + 1)[0] == '\n');
            }
        }
        lemma_first_match_is(text, newline, 0, n);
        assert(text.take(n) == lines[0]);
        assert(text.skip(n + 1) == joined(rest));
        lemma_lines_of_joined(rest);
        assert(seq![lines[0]] + rest == lines);
    }
}

/// The `n`-th of the pieces into which the occurrences of `sep` part `s`,
/// counted from 0. A text without `sep` is one piece.
pub open spec fn segment(s: Seq<char>, sep: char, n: nat) -> Option<Seq<char>>
    decreases n,
{
    match first_match(s, seq![sep], 0) {
        Some(i) => if n == 0 {
            Some(s.take(i))
        } else {
            segment(s.skip(i + 1), sep, (n - 1) as nat)
        },
        None => if n == 0 {
            Some(s)
        } else {
            None
        },
    }
}

/// The `n`-th of the pieces into which the occurrences of `sep` part `s`,
/// counted from 0.
pub fn nth_segment<'a>(s: &'a [char], sep: char, n: usize) -> (r: Option<&'a [char]>)
    ensures
        match r {
            Some(piece) => segment(s@, sep, n as nat) == Some(piece@),
            None => segment(s@, sep, n as nat) is None,
        },
{
    let pat: [char; 1] = [sep];
    assert(pat@ == seq![sep]);
    let mut rest: &'a [char] = s;
    let mut k: usize = n;
    while k > 0
        invariant
            pat@ == seq![sep],
            segment(s@, sep, n as nat) == segment(rest@, sep, k as nat),
        decreases k,
    {
        match split_once(rest, pat.as_slice()) {
            Some((_, after)) => {
                rest = after;
            },
            None => {
                return None;
            },
        }
        k -= 1;
    }
    match split_once(rest, pat.as_slice()) {
        Some((before, _)) => Some(before),
        None => Some(rest),
    }
}

/// The lines of a text. Each `'\n'` ends a line and is not part of it; what
/// follows the last `'\n'` is a line too unless it is empty.
pub open spec fn lines_of(s: Seq<char>) -> Seq<Seq<char>>
    decreases s.len(),
{
    if s.len() == 0 {
        seq![]
    } else {
        match first_match(s, seq!['\n'], 0) {
            Some(i) => if 0 <= i < s.len() {
                seq![s.take(i)] + lines_of(s.skip(i + 1))
            } else {
                seq![s]
            },
            None => seq![s],
        }
    }
}

/// The view of a list of lines.
pub open spec fn lines_view(lines: Seq<Vec<char>>) -> Seq<Seq<char>> {
    lines.map_values(|l: Vec<char>| l@)
}

/// The lines of `s`.
pub fn split_lines(s: &[char]) -> (lines: Vec<Vec<char>>)
    ensures
        lines_view(lines@) == lines_of(s@),
{
    let mut lines: Vec<Vec<char>> = Vec::new();
    let mut start: usize = 0;
    let newline: [char; 1] = ['\n'];
    assert(s@.skip(0) == s@);
    assert(lines_view(lines@) == Seq::<Seq<char>>::empty());
    while start < s.len()
        invariant
            start <= s.len(),
            newline@ == seq!['\n'],
            lines_of(s@) == lines_view(lines@) + lines_of(s@.skip(start as int)),
        decreases s.len() - start,
    {
        let rest = &s[start..s.len()];
        assert(rest@ == s@.skip(start as int));
        let ghost before = lines_view(lines@);
        match find(rest, newline.as_slice()) {
            Some(i) => {
                proof {
                    lemma_first_match(rest@, newline@, 0);
                }
                let line = vstd::slice::slice_to_vec(&rest[0..i]);
                lines.push(line);
                assert(rest@.skip(i + 1) == s@.skip(start + i + 1));
                assert(lines_view(lines@) == before + seq![rest@.take(i as int)]);
                start = start + i + 1;
            },
            None => {
                let line = vstd::slice::slice_to_vec(rest);
                lines.push(line);
                assert(lines_view(lines@) == before + seq![rest@]);
                start = s.len();
                assert(s@.skip(start as int).len() == 0);
            },
        }
    }
    assert(s@.skip(start as int).len() == 0);
    lines
}

} // verus!
