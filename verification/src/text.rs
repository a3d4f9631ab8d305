//! Character-level text handling: lines, trimming, whitespace-separated
//! words, prefixes, searching, unsigned decimal numbers.
//!
//! Everything here works on sequences of `char`s, the way `str` methods
//! see a string. Each operation is specified by a spec function and
//! proved against it.
use vstd::prelude::*;
use vstd::string::StringExecFns;

verus! {

// ---------------------------------------------------------------------------
// Characters
// ---------------------------------------------------------------------------

/// A character with the Unicode `White_Space` property (what
/// `char::is_whitespace` accepts).
pub open spec fn is_ws(c: char) -> bool {
    let u = c as u32;
    ||| 0x09 <= u <= 0x0D
    ||| u == 0x20
    ||| u == 0x85
    ||| u == 0xA0
    ||| u == 0x1680
    ||| 0x2000 <= u <= 0x200A
    ||| u == 0x2028
    ||| u == 0x2029
    ||| u == 0x202F
    ||| u == 0x205F
    ||| u == 0x3000
}

/// Whether `c` is a whitespace character.
pub fn is_whitespace(c: char) -> (r: bool)
    ensures
        r == is_ws(c),
{
    let u = c as u32;
    (0x09 <= u && u <= 0x0D) || u == 0x20 || u == 0x85 || u == 0xA0 || u == 0x1680 || (0x2000
        <= u && u <= 0x200A) || u == 0x2028 || u == 0x2029 || u == 0x202F || u == 0x205F || u
        == 0x3000
}

/// An ASCII decimal digit.
pub open spec fn is_digit(c: char) -> bool {
    0x30 <= (c as u32) <= 0x39
}

/// The value of an ASCII decimal digit.
pub open spec fn digit_value(c: char) -> nat {
    ((c as u32) - 0x30) as nat
}

/// The digit character for `d < 10`.
pub open spec fn digit_char(d: nat) -> char {
    if d == 0 {
        '0'
    } else if d == 1 {
        '1'
    } else if d == 2 {
        '2'
    } else if d == 3 {
        '3'
    } else if d == 4 {
        '4'
    } else if d == 5 {
        '5'
    } else if d == 6 {
        '6'
    } else if d == 7 {
        '7'
    } else if d == 8 {
        '8'
    } else {
        '9'
    }
}

// ---------------------------------------------------------------------------
// Trimming
// ---------------------------------------------------------------------------

/// A class of characters that trimming removes.
pub enum CharClass {
    /// Unicode whitespace, as `str::trim` removes.
    Whitespace,
    /// One given character, as `str::trim_matches(c)` removes.
    Exactly(char),
}

pub open spec fn in_class(k: CharClass, c: char) -> bool {
    match k {
        CharClass::Whitespace => is_ws(c),
        CharClass::Exactly(x) => c == x,
    }
}

/// `s` without its leading characters of class `k`.
pub open spec fn trim_start_by(s: Seq<char>, k: CharClass) -> Seq<char>
    decreases s.len(),
{
    if s.len() > 0 && in_class(k, s[0]) {
        trim_start_by(s.drop_first(), k)
    } else {
        s
    }
}

/// `s` without its trailing characters of class `k`.
pub open spec fn trim_end_by(s: Seq<char>, k: CharClass) -> Seq<char>
    decreases s.len(),
{
    if s.len() > 0 && in_class(k, s.last()) {
        trim_end_by(s.drop_last(), k)
    } else {
        s
    }
}

/// `s` without leading and trailing characters of class `k`.
pub open spec fn trim_by(s: Seq<char>, k: CharClass) -> Seq<char> {
    trim_end_by(trim_start_by(s, k), k)
}

/// What `str::trim` gives: `s` without leading and trailing whitespace.
pub open spec fn trim_spec(s: Seq<char>) -> Seq<char> {
    trim_by(s, CharClass::Whitespace)
}

fn in_class_exec(k: &CharClass, c: char) -> (r: bool)
    ensures
        r == in_class(*k, c),
{
    match k {
        CharClass::Whitespace => is_whitespace(c),
        CharClass::Exactly(x) => c == *x,
    }
}

/// `s` without leading and trailing characters of class `k`.
pub fn trim_class(s: &[char], k: CharClass) -> (r: &[char])
    ensures
        r@ == trim_by(s@, k),
{
    let n = s.len();
    let mut a: usize = 0;
    assert(s@.skip(0) =~= s@);
    while a < n && in_class_exec(&k, s[a])
        invariant
            n == s@.len(),
            a <= n,
            trim_start_by(s@, k) == trim_start_by(s@.skip(a as int), k),
        decreases n - a,
    {
        assert(s@.skip(a as int).drop_first() =~= s@.skip(a + 1));
        a = a + 1;
    }
    assert(trim_start_by(s@, k) == s@.subrange(a as int, n as int)) by {
        assert(s@.skip(a as int) =~= s@.subrange(a as int, n as int));
    }
    let mut b: usize = n;
    while b > a && in_class_exec(&k, s[b - 1])
        invariant
            n == s@.len(),
            a <= b <= n,
            trim_by(s@, k) == trim_end_by(s@.subrange(a as int, b as int), k),
        decreases b - a,
    {
        assert(s@.subrange(a as int, b as int).drop_last() =~= s@.subrange(
            a as int,
            b - 1 as int,
        ));
        b = b - 1;
    }
    &s[a..b]
}

/// Trimming the end keeps every character up to a non-whitespace one.
pub proof fn lemma_trim_end_keeps(s: Seq<char>, j: int)
    requires
        0 <= j < s.len(),
        !is_ws(s[j]),
    ensures
        j < trim_end_by(s, CharClass::Whitespace).len() <= s.len(),
        trim_end_by(s, CharClass::Whitespace) == s.take(
            trim_end_by(s, CharClass::Whitespace).len() as int,
        ),
    decreases s.len(),
{
    if in_class(CharClass::Whitespace, s.last()) {
        assert(j < s.len() - 1);
        assert(s.drop_last()[j] == s[j]);
        lemma_trim_end_keeps(s.drop_last(), j);
        let t = trim_end_by(s.drop_last(), CharClass::Whitespace);
        assert(s.drop_last().take(t.len() as int) =~= s.take(t.len() as int));
    } else {
        assert(s.take(s.len() as int) =~= s);
    }
}

/// Trimming text that begins with a non-whitespace character keeps its
/// start, up to any later non-whitespace character.
pub proof fn lemma_trim_keeps_prefix(s: Seq<char>, k: int)
    requires
        0 < k <= s.len(),
        !is_ws(s[0]),
        !is_ws(s[k - 1]),
    ensures
        k <= trim_spec(s).len() <= s.len(),
        trim_spec(s) == s.take(trim_spec(s).len() as int),
{
    assert(trim_start_by(s, CharClass::Whitespace) == s);
    lemma_trim_end_keeps(s, k - 1);
}

/// Text already without whitespace at either end trims to itself, also
/// after one leading space.
pub proof fn lemma_trim_of_trimmed(x: Seq<char>)
    requires
        x.len() > 0,
        !is_ws(x[0]),
        !is_ws(x.last()),
    ensures
        trim_spec(x) == x,
        trim_spec(seq![' '] + x) == x,
{
    assert(trim_start_by(x, CharClass::Whitespace) == x);
    assert(trim_end_by(x, CharClass::Whitespace) == x);
    let sx = seq![' '] + x;
    assert(is_ws(' '));
    assert(sx.drop_first() =~= x);
    assert(trim_start_by(sx, CharClass::Whitespace) == trim_start_by(x, CharClass::Whitespace));
}

/// `str::trim`: `s` without leading and trailing whitespace.
pub fn trim(s: &[char]) -> (r: &[char])
    ensures
        r@ == trim_spec(s@),
{
    trim_class(s, CharClass::Whitespace)
}

// ---------------------------------------------------------------------------
// Prefixes and searching
// ---------------------------------------------------------------------------

/// Whether `s` begins with `p`.
pub open spec fn starts_with_spec(s: Seq<char>, p: Seq<char>) -> bool {
    p.len() <= s.len() && s.take(p.len() as int) == p
}

/// Whether `s` begins with `p`.
pub fn starts_with(s: &[char], p: &[char]) -> (r: bool)
    ensures
        r == starts_with_spec(s@, p@),
{
    if p.len() > s.len() {
        return false;
    }
    let mut i: usize = 0;
    while i < p.len()
        invariant
            p@.len() <= s@.len(),
            i <= p@.len(),
            forall|j: int| 0 <= j < i ==> s@[j] == p@[j],
        decreases p@.len() - i,
    {
        if s[i] != p[i] {
            assert(s@.take(p@.len() as int)[i as int] != p@[i as int]);
            return false;
        }
        i = i + 1;
    }
    assert(s@.take(p@.len() as int) =~= p@);
    true
}

/// Whether `a` and `b` hold the same characters.
pub fn equals(a: &[char], b: &[char]) -> (r: bool)
    ensures
        r == (a@ == b@),
{
    if a.len() != b.len() {
        return false;
    }
    let r = starts_with(a, b);
    assert(a@.take(b@.len() as int) =~= a@);
    r
}

/// What `str::strip_prefix` gives.
pub open spec fn strip_prefix_spec(s: Seq<char>, p: Seq<char>) -> Option<Seq<char>> {
    if starts_with_spec(s, p) {
        Some(s.skip(p.len() as int))
    } else {
        None
    }
}

/// `s` without the prefix `p`, if it begins with it.
pub fn strip_prefix<'a>(s: &'a [char], p: &[char]) -> (r: Option<&'a [char]>)
    ensures
        r matches Some(t) ==> strip_prefix_spec(s@, p@) == Some(t@),
        r is None ==> strip_prefix_spec(s@, p@) is None,
{
    if starts_with(s, p) {
        let t = &s[p.len()..s.len()];
        assert(t@ =~= s@.skip(p@.len() as int));
        Some(t)
    } else {
        None
    }
}

/// The first position at which `p` occurs in `s`.
pub open spec fn find_spec(s: Seq<char>, p: Seq<char>) -> Option<int>
    decreases s.len(),
{
    if s.len() < p.len() {
        None
    } else if s.take(p.len() as int) == p {
        Some(0)
    } else if s.len() == 0 {
        None
    } else {
        match find_spec(s.drop_first(), p) {
            Some(i) => Some(i + 1),
            None => None,
        }
    }
}

/// Whether `p` occurs in `s` (`str::contains` with a string pattern).
pub open spec fn contains_spec(s: Seq<char>, p: Seq<char>) -> bool {
    find_spec(s, p) is Some
}

/// Text holding `p` at some place contains it.
pub proof fn lemma_contains_occurrence(a: Seq<char>, p: Seq<char>, b: Seq<char>)
    ensures
        contains_spec(a + p + b, p),
    decreases a.len(),
{
    let s = a + p + b;
    if a.len() == 0 {
        assert(s.take(p.len() as int) =~= p);
    } else if s.take(p.len() as int) != p {
        assert(s.drop_first() =~= a.drop_first() + p + b);
        lemma_contains_occurrence(a.drop_first(), p, b);
    }
}

/// Text holding `p` at no place does not contain it.
pub proof fn lemma_no_occurrence(s: Seq<char>, p: Seq<char>)
    requires
        forall|i: int| 0 <= i <= s.len() - p.len() ==> #[trigger] s.subrange(i, i + p.len()) != p,
    ensures
        !contains_spec(s, p),
    decreases s.len(),
{
    if s.len() >= p.len() {
        let z: int = 0;
        assert(s.subrange(z, z + p.len()) != p);
        assert(s.take(p.len() as int) =~= s.subrange(z, z + p.len()));
        if s.len() > 0 {
            assert forall|i: int| 0 <= i <= s.drop_first().len() - p.len() implies
                #[trigger] s.drop_first().subrange(i, i + p.len()) != p by {
                assert(s.drop_first().subrange(i, i + p.len()) =~= s.subrange(
                    i + 1,
                    i + 1 + p.len(),
                ));
            }
            lemma_no_occurrence(s.drop_first(), p);
        }
    }
}

pub proof fn lemma_find_skip(s: Seq<char>, p: Seq<char>, k: int)
    requires
        0 <= k <= s.len(),
        forall|j: int| 0 <= j < k ==> !starts_with_spec(#[trigger] s.skip(j), p),
    ensures
        find_spec(s, p) == match find_spec(s.skip(k), p) {
            Some(i) => Some(i + k),
            None => None::<int>,
        },
    decreases k,
{
    if k > 0 {
        assert(s.skip(0) =~= s);
        assert(!starts_with_spec(s.skip(0), p));
        assert forall|j: int| 0 <= j < k - 1 implies !starts_with_spec(
            #[trigger] s.drop_first().skip(j),
            p,
        ) by {
            assert(s.drop_first().skip(j) =~= s.skip(j + 1));
        }
        lemma_find_skip(s.drop_first(), p, k - 1);
        assert(s.drop_first().skip(k - 1) =~= s.skip(k));
        if s.len() >= p.len() {
            assert(s.take(p.len() as int) != p);
        }
    } else {
        assert(s.skip(0) =~= s);
    }
}

/// `str::find` with a string pattern: the first position of `p` in `s`.
pub fn find(s: &[char], p: &[char]) -> (r: Option<usize>)
    ensures
        r matches Some(i) ==> find_spec(s@, p@) == Some(i as int),
        r is None ==> find_spec(s@, p@) is None,
{
    let n = s.len();
    let m = p.len();
    if m == 0 {
        assert(s@.take(0) =~= p@);
        return Some(0);
    }
    if m > n {
        proof {
            assert(s@.skip(0) =~= s@);
            lemma_find_skip(s@, p@, 0);
        }
        return None;
    }
    let mut i: usize = 0;
    while i <= n - m
        invariant
            n == s@.len(),
            m == p@.len(),
            1 <= m <= n,
            i <= n - m + 1,
            forall|j: int| 0 <= j < i ==> !starts_with_spec(#[trigger] s@.skip(j), p@),
        decreases n - m + 1 - i,
    {
        let t = &s[i..n];
        assert(t@ =~= s@.skip(i as int));
        if starts_with(t, p) {
            proof {
                lemma_find_skip(s@, p@, i as int);
            }
            return Some(i);
        }
        i = i + 1;
    }
    proof {
        lemma_find_skip(s@, p@, i as int);
        assert(s@.skip(i as int).len() < m);
    }
    None
}

/// Whether `p` occurs in `s`.
pub fn contains(s: &[char], p: &[char]) -> (r: bool)
    ensures
        r == contains_spec(s@, p@),
{
    find(s, p).is_some()
}

/// What `str::split_once` gives with a string separator: the parts
/// before and after its first occurrence.
pub open spec fn split_once_spec(s: Seq<char>, p: Seq<char>) -> Option<(Seq<char>, Seq<char>)> {
    match find_spec(s, p) {
        Some(i) => Some((s.take(i), s.skip(i + p.len()))),
        None => None,
    }
}

proof fn lemma_find_in_bounds(s: Seq<char>, p: Seq<char>)
    ensures
        find_spec(s, p) matches Some(i) ==> 0 <= i && i + p.len() <= s.len(),
    decreases s.len(),
{
    if s.len() >= p.len() && s.take(p.len() as int) != p && s.len() > 0 {
        lemma_find_in_bounds(s.drop_first(), p);
    }
}

/// The parts of `s` before and after the first occurrence of `p`.
pub fn split_once<'a>(s: &'a [char], p: &[char]) -> (r: Option<(&'a [char], &'a [char])>)
    ensures
        r matches Some((a, b)) ==> split_once_spec(s@, p@) == Some((a@, b@)),
        r is None ==> split_once_spec(s@, p@) is None,
{
    proof {
        lemma_find_in_bounds(s@, p@);
    }
    match find(s, p) {
        Some(i) => {
            assert(i + p@.len() <= s@.len());
            let n = s.len();
            let m = p.len();
            assert(i + m <= n);
            let j: usize = i + m;
            let a = &s[0..i];
            let b = &s[j..s.len()];
            assert(a@ =~= s@.take(i as int));
            assert(b@ =~= s@.skip(i + p@.len()));
            Some((a, b))
        },
        None => None,
    }
}

// ---------------------------------------------------------------------------
// Lines
// ---------------------------------------------------------------------------

/// The pieces of `s` between occurrences of `sep` (always at least one).
pub open spec fn split_on(s: Seq<char>, sep: char) -> Seq<Seq<char>>
    decreases s.len(),
{
    if s.len() == 0 {
        seq![Seq::<char>::empty()]
    } else {
        let init = split_on(s.drop_last(), sep);
        if s.last() == sep {
            init.push(Seq::<char>::empty())
        } else {
            init.update(init.len() - 1, init.last().push(s.last()))
        }
    }
}

pub proof fn lemma_split_on_len(s: Seq<char>, sep: char)
    ensures
        split_on(s, sep).len() >= 1,
    decreases s.len(),
{
    if s.len() > 0 {
        lemma_split_on_len(s.drop_last(), sep);
    }
}

/// A line without one trailing carriage return.
pub open spec fn strip_cr(l: Seq<char>) -> Seq<char> {
    if l.len() > 0 && l.last() == '\r' {
        l.drop_last()
    } else {
        l
    }
}

/// What `str::lines` gives: the pieces between `'\n'`s, each that ended
/// in `"\r\n"` without its `'\r'`; a final empty piece is not a line.
pub open spec fn lines_spec(s: Seq<char>) -> Seq<Seq<char>> {
    let parts = split_on(s, '\n');
    let body = parts.drop_last().map_values(|l: Seq<char>| strip_cr(l));
    if parts.last().len() == 0 {
        body
    } else {
        body.push(parts.last())
    }
}

/// The characters of `s`, in order.
pub fn chars_of(s: &str) -> (r: Vec<char>)
    ensures
        r@ == s@,
{
    let mut r: Vec<char> = Vec::new();
    for c in it: s.chars()
        invariant
            r@ == it.seq().take(it.index() as int),
            it.seq() == s@,
    {
        r.push(c);
    }
    r
}

/// The character sequences held by a list of character vectors.
pub open spec fn views(v: Seq<Vec<char>>) -> Seq<Seq<char>> {
    v.map_values(|x: Vec<char>| x@)
}

/// `str::lines` on characters.
pub fn lines_of_chars(v: &[char]) -> (r: Vec<Vec<char>>)
    ensures
        views(r@) == lines_spec(v@),
{
    let n = v.len();
    let mut done: Vec<Vec<char>> = Vec::new();
    let mut cur: Vec<char> = Vec::new();
    let mut i: usize = 0;
    assert(v@.take(0) =~= Seq::<char>::empty());
    while i < n
        invariant
            n == v@.len(),
            i <= n,
            split_on(v@.take(i as int), '\n').len() == done@.len() + 1,
            forall|j: int|
                0 <= j < done@.len() ==> #[trigger] done@[j]@ == strip_cr(
                    split_on(v@.take(i as int), '\n')[j],
                ),
            cur@ == split_on(v@.take(i as int), '\n').last(),
        decreases n - i,
    {
        let c = v[i];
        proof {
            assert(v@.take(i + 1).drop_last() =~= v@.take(i as int));
            lemma_split_on_len(v@.take(i as int), '\n');
        }
        if c == '\n' {
            let mut line = cur;
            let len = line.len();
            if len > 0 && line[len - 1] == '\r' {
                line.pop();
                assert(line@ =~= strip_cr(split_on(v@.take(i as int), '\n').last()));
            }
            done.push(line);
            cur = Vec::new();
        } else {
            cur.push(c);
        }
        i = i + 1;
    }
    assert(v@.take(n as int) =~= v@);
    let ghost parts = split_on(v@, '\n');
    let ghost body = parts.drop_last().map_values(|l: Seq<char>| strip_cr(l));
    assert(views(done@) =~= body);
    if cur.len() > 0 {
        done.push(cur);
        assert(views(done@) =~= body.push(parts.last()));
    }
    done
}

/// `str::lines`: the lines of `s`.
pub fn lines(s: &str) -> (r: Vec<Vec<char>>)
    ensures
        views(r@) == lines_spec(s@),
{
    let v = chars_of(s);
    lines_of_chars(v.as_slice())
}

// ---------------------------------------------------------------------------
// Words
// ---------------------------------------------------------------------------

/// What `str::split_whitespace` gives: the maximal runs of
/// non-whitespace characters.
pub open spec fn words(s: Seq<char>) -> Seq<Seq<char>>
    decreases s.len(),
{
    if s.len() == 0 {
        Seq::empty()
    } else {
        let w = words(s.drop_last());
        let c = s.last();
        if is_ws(c) {
            w
        } else if s.len() == 1 || is_ws(s[s.len() - 2]) {
            w.push(seq![c])
        } else {
            w.update(w.len() - 1, w.last().push(c))
        }
    }
}

pub proof fn lemma_words_nonempty(s: Seq<char>)
    requires
        s.len() > 0,
        !is_ws(s.last()),
    ensures
        words(s).len() >= 1,
    decreases s.len(),
{
    if s.len() > 1 && !is_ws(s[s.len() - 2]) {
        lemma_words_nonempty(s.drop_last());
    }
}

/// Every character of `s` is whitespace (`s` may be empty).
pub open spec fn all_ws(s: Seq<char>) -> bool {
    forall|i: int| 0 <= i < s.len() ==> is_ws(#[trigger] s[i])
}

/// `s` is one word: not empty, with no whitespace in it.
pub open spec fn is_word(s: Seq<char>) -> bool {
    s.len() > 0 && forall|i: int| 0 <= i < s.len() ==> !is_ws(#[trigger] s[i])
}

/// The text made of `fields` with `gaps[i]` before field `i` and the last
/// gap after the last field.
pub open spec fn spaced(fields: Seq<Seq<char>>, gaps: Seq<Seq<char>>) -> Seq<char>
    decreases fields.len(),
{
    if fields.len() == 0 {
        gaps[0]
    } else {
        spaced(fields.drop_last(), gaps.drop_last()) + fields.last() + gaps.last()
    }
}

/// The gaps lay out the fields as separate words: one gap more than there
/// are fields, each gap all whitespace, and every gap between two fields
/// non-empty.
pub open spec fn well_spaced(fields: Seq<Seq<char>>, gaps: Seq<Seq<char>>) -> bool {
    &&& gaps.len() == fields.len() + 1
    &&& forall|i: int| 0 <= i < fields.len() ==> is_word(#[trigger] fields[i])
    &&& forall|i: int| 0 <= i < gaps.len() ==> all_ws(#[trigger] gaps[i])
    &&& forall|i: int| 0 < i < fields.len() ==> (#[trigger] gaps[i]).len() > 0
}

/// Text after whitespace (or after nothing) splits on its own.
pub proof fn lemma_words_concat(a: Seq<char>, b: Seq<char>)
    requires
        a.len() == 0 || is_ws(a.last()),
    ensures
        words(a + b) == words(a) + words(b),
    decreases b.len(),
{
    if b.len() == 0 {
        assert(a + b =~= a);
        assert(words(a) + words(b) =~= words(a));
    } else {
        let ab = a + b;
        assert(ab.drop_last() =~= a + b.drop_last());
        lemma_words_concat(a, b.drop_last());
        let c = b.last();
        assert(ab.last() == c);
        if is_ws(c) {
            assert(words(a) + words(b) =~= words(a) + words(b.drop_last()));
        } else if ab.len() == 1 || is_ws(ab[ab.len() - 2]) {
            if b.len() >= 2 {
                assert(ab[ab.len() - 2] == b[b.len() - 2]);
            } else {
                assert(b.drop_last() =~= Seq::<char>::empty());
            }
            assert(words(a + b) =~= words(a) + words(b));
        } else {
            assert(b.len() >= 2) by {
                if b.len() == 1 {
                    assert(ab[ab.len() - 2] == a.last());
                }
            }
            assert(ab[ab.len() - 2] == b[b.len() - 2]);
            assert(b.drop_last().last() == b[b.len() - 2]);
            lemma_words_nonempty(b.drop_last());
            assert(words(a + b) =~= words(a) + words(b));
        }
    }
}

/// Whitespace alone holds no word.
pub proof fn lemma_words_all_ws(s: Seq<char>)
    requires
        all_ws(s),
    ensures
        words(s) == Seq::<Seq<char>>::empty(),
    decreases s.len(),
{
    if s.len() > 0 {
        assert(is_ws(s[s.len() - 1]));
        assert(all_ws(s.drop_last())) by {
            assert forall|i: int| 0 <= i < s.drop_last().len() implies is_ws(
                #[trigger] s.drop_last()[i],
            ) by {
                assert(s.drop_last()[i] == s[i]);
            }
        }
        lemma_words_all_ws(s.drop_last());
    }
}

/// A word is its own only word.
pub proof fn lemma_words_of_word(w: Seq<char>)
    requires
        is_word(w),
    ensures
        words(w) == seq![w],
    decreases w.len(),
{
    assert(!is_ws(w[w.len() - 1]));
    if w.len() == 1 {
        assert(w.drop_last() =~= Seq::<char>::empty());
        assert(words(w.drop_last()) =~= Seq::<Seq<char>>::empty());
        assert(seq![w.last()] =~= w);
        assert(words(w) =~= seq![w]);
    } else {
        assert(is_word(w.drop_last())) by {
            assert forall|i: int| 0 <= i < w.drop_last().len() implies !is_ws(
                #[trigger] w.drop_last()[i],
            ) by {
                assert(w.drop_last()[i] == w[i]);
            }
        }
        lemma_words_of_word(w.drop_last());
        assert(!is_ws(w[w.len() - 2]));
        assert(w.drop_last().push(w.last()) =~= w);
        assert(words(w) =~= seq![w]);
    }
}

/// Fields laid out with any well-formed gaps split back into exactly those
/// fields: how much whitespace separates them makes no difference.
pub proof fn lemma_words_of_spaced(fields: Seq<Seq<char>>, gaps: Seq<Seq<char>>)
    requires
        well_spaced(fields, gaps),
    ensures
        words(spaced(fields, gaps)) == fields,
    decreases fields.len(),
{
    if fields.len() == 0 {
        lemma_words_all_ws(gaps[0]);
        assert(words(spaced(fields, gaps)) =~= fields);
    } else {
        let f = fields.drop_last();
        let g = gaps.drop_last();
        assert(well_spaced(f, g)) by {
            assert forall|i: int| 0 <= i < f.len() implies is_word(#[trigger] f[i]) by {
                assert(f[i] == fields[i]);
            }
            assert forall|i: int| 0 <= i < g.len() implies all_ws(#[trigger] g[i]) by {
                assert(g[i] == gaps[i]);
            }
            assert forall|i: int| 0 < i < f.len() implies (#[trigger] g[i]).len() > 0 by {
                assert(g[i] == gaps[i]);
            }
        }
        lemma_words_of_spaced(f, g);
        let x = spaced(f, g);
        let w = fields.last();
        let last_gap = gaps.last();
        assert(is_word(w)) by {
            assert(w == fields[fields.len() - 1]);
        }
        assert(all_ws(last_gap)) by {
            assert(last_gap == gaps[gaps.len() - 1]);
        }
        // What comes before the last field ends in whitespace, or is empty.
        assert(x.len() == 0 || is_ws(x.last())) by {
            let n = fields.len();
            assert(all_ws(gaps[n - 1]));
            if f.len() == 0 {
                assert(x == gaps[0]);
                if x.len() > 0 {
                    assert(is_ws(x[x.len() - 1]));
                }
            } else {
                assert(gaps[n - 1].len() > 0);
                assert(x == spaced(f.drop_last(), g.drop_last()) + f.last() + g.last());
                assert(g.last() == gaps[n - 1]);
                let gl = g.last();
                assert(x.last() == gl[gl.len() - 1]);
            }
        }
        lemma_words_concat(x, w);
        lemma_words_of_word(w);
        let xw = x + w;
        assert(xw.len() > 0 && !is_ws(xw.last())) by {
            assert(xw.last() == w[w.len() - 1]);
        }
        lemma_words_trailing_ws(xw, last_gap);
        assert(spaced(fields, gaps) == xw + last_gap);
        assert(words(spaced(fields, gaps)) =~= f.push(w));
        assert(f.push(w) =~= fields);
    }
}

/// Whitespace after the text adds no word.
pub proof fn lemma_words_trailing_ws(s: Seq<char>, t: Seq<char>)
    requires
        all_ws(t),
    ensures
        words(s + t) == words(s),
    decreases t.len(),
{
    if t.len() == 0 {
        assert(s + t =~= s);
    } else {
        assert((s + t).drop_last() =~= s + t.drop_last());
        assert((s + t).last() == t[t.len() - 1]);
        assert(all_ws(t.drop_last())) by {
            assert forall|i: int| 0 <= i < t.drop_last().len() implies is_ws(
                #[trigger] t.drop_last()[i],
            ) by {
                assert(t.drop_last()[i] == t[i]);
            }
        }
        lemma_words_trailing_ws(s, t.drop_last());
    }
}

/// `str::split_whitespace`: the words of `s`.
pub fn split_whitespace(s: &[char]) -> (r: Vec<Vec<char>>)
    ensures
        views(r@) == words(s@),
{
    let n = s.len();
    let mut done: Vec<Vec<char>> = Vec::new();
    let mut cur: Vec<char> = Vec::new();
    let mut in_word = false;
    let mut i: usize = 0;
    assert(s@.take(0) =~= Seq::<char>::empty());
    while i < n
        invariant
            n == s@.len(),
            i <= n,
            in_word == (i > 0 && !is_ws(s@[i - 1])),
            !in_word ==> cur@.len() == 0,
            in_word ==> words(s@.take(i as int)) =~= views(done@).push(cur@),
            !in_word ==> words(s@.take(i as int)) =~= views(done@),
        decreases n - i,
    {
        let c = s[i];
        proof {
            assert(s@.take(i + 1).drop_last() =~= s@.take(i as int));
            assert(s@.take(i + 1).last() == c);
            if i > 0 {
                assert(s@.take(i + 1)[i - 1] == s@[i - 1]);
            }
        }
        if is_whitespace(c) {
            if in_word {
                done.push(cur);
                assert(views(done@) =~= words(s@.take(i as int)));
                cur = Vec::new();
            }
            in_word = false;
        } else {
            let ghost old_cur = cur@;
            cur.push(c);
            if in_word {
                proof {
                    lemma_words_nonempty(s@.take(i as int));
                    assert(words(s@.take(i + 1)) =~= views(done@).push(old_cur).update(
                        done@.len() as int,
                        old_cur.push(c),
                    ));
                }
            } else {
                assert(cur@ =~= seq![c]);
                assert(words(s@.take(i + 1)) =~= views(done@).push(seq![c]));
            }
            in_word = true;
        }
        i = i + 1;
    }
    assert(s@.take(n as int) =~= s@);
    if in_word {
        done.push(cur);
        assert(views(done@) =~= words(s@));
    }
    done
}

// ---------------------------------------------------------------------------
// Unsigned decimal numbers
// ---------------------------------------------------------------------------

/// Every character of `s` is a decimal digit.
pub open spec fn all_digits(s: Seq<char>) -> bool {
    forall|i: int| 0 <= i < s.len() ==> is_digit(#[trigger] s[i])
}

/// The number that the decimal digits `s` spell.
pub open spec fn digits_value(s: Seq<char>) -> nat
    decreases s.len(),
{
    if s.len() == 0 {
        0
    } else {
        digits_value(s.drop_last()) * 10 + digit_value(s.last())
    }
}

/// `s` without a leading `'+'` that more characters follow.
pub open spec fn unsigned_digits_part(s: Seq<char>) -> Seq<char> {
    if s.len() > 1 && s[0] == '+' {
        s.drop_first()
    } else {
        s
    }
}

/// What `str::parse::<u64>` gives: an optional `'+'` followed by at least
/// one decimal digit and nothing else, of a value that fits in 64 bits.
pub open spec fn parse_u64_spec(s: Seq<char>) -> Option<u64> {
    let d = unsigned_digits_part(s);
    if d.len() > 0 && all_digits(d) && digits_value(d) <= u64::MAX {
        Some(digits_value(d) as u64)
    } else {
        None
    }
}

proof fn lemma_digits_value_prefix(s: Seq<char>, k: int)
    requires
        0 <= k <= s.len(),
    ensures
        digits_value(s) >= digits_value(s.take(k)),
    decreases s.len(),
{
    if k < s.len() {
        assert(s.drop_last().take(k) =~= s.take(k));
        lemma_digits_value_prefix(s.drop_last(), k);
    } else {
        assert(s.take(k) =~= s);
    }
}

/// `str::parse::<u64>`.
pub fn parse_u64(s: &[char]) -> (r: Option<u64>)
    ensures
        r == parse_u64_spec(s@),
{
    let n = s.len();
    let start: usize = if n > 1 && s[0] == '+' {
        1
    } else {
        0
    };
    let d = &s[start..n];
    let ghost dd = unsigned_digits_part(s@);
    assert(d@ =~= dd);
    let m = d.len();
    if m == 0 {
        return None;
    }
    let mut acc: u64 = 0;
    let mut i: usize = 0;
    assert(d@.take(0) =~= Seq::<char>::empty());
    while i < m
        invariant
            m == d@.len(),
            d@ == dd,
            dd == unsigned_digits_part(s@),
            i <= m,
            all_digits(d@.take(i as int)),
            acc as nat == digits_value(d@.take(i as int)),
        decreases m - i,
    {
        let c = d[i];
        let cu = c as u32;
        if cu < 0x30 || cu > 0x39 {
            assert(!is_digit(d@[i as int]));
            assert(!all_digits(dd));
            return None;
        }
        proof {
            assert(d@.take(i + 1).drop_last() =~= d@.take(i as int));
        }
        let dv = (cu - 0x30) as u64;
        if acc > (u64::MAX - dv) / 10 {
            proof {
                assert(digits_value(d@.take(i + 1)) == acc * 10 + dv);
                assert(acc * 10 + dv > u64::MAX) by (nonlinear_arith)
                    requires
                        acc > (u64::MAX - dv) / 10,
                        dv <= 9,
                ;
                lemma_digits_value_prefix(d@, i + 1);
                assert(digits_value(dd) > u64::MAX);
            }
            return None;
        }
        assert(acc * 10 + dv <= u64::MAX) by (nonlinear_arith)
            requires
                acc <= (u64::MAX - dv) / 10,
                dv <= 9,
        ;
        acc = acc * 10 + dv;
        i = i + 1;
    }
    assert(d@.take(m as int) =~= d@);
    Some(acc)
}

/// The decimal digits of `n`.
pub open spec fn decimal(n: nat) -> Seq<char>
    decreases n,
{
    if n < 10 {
        seq![digit_char(n)]
    } else {
        decimal(n / 10).push(digit_char(n % 10))
    }
}

/// `n` in decimal, with a leading zero below ten (`{:02}`).
pub open spec fn decimal2(n: nat) -> Seq<char> {
    if n < 10 {
        seq!['0'] + decimal(n)
    } else {
        decimal(n)
    }
}

fn digit_to_char(d: u64) -> (c: char)
    requires
        d < 10,
    ensures
        c == digit_char(d as nat),
{
    if d == 0 {
        '0'
    } else if d == 1 {
        '1'
    } else if d == 2 {
        '2'
    } else if d == 3 {
        '3'
    } else if d == 4 {
        '4'
    } else if d == 5 {
        '5'
    } else if d == 6 {
        '6'
    } else if d == 7 {
        '7'
    } else if d == 8 {
        '8'
    } else {
        '9'
    }
}

/// Appends the decimal digits of `n` to `s`.
pub fn push_decimal(s: &mut String, n: u64)
    ensures
        final(s)@ == old(s)@ + decimal(n as nat),
    decreases n,
{
    if n >= 10 {
        push_decimal(s, n / 10);
    }
    push_char(s, digit_to_char(n % 10));
}

/// Appends `n` to `s`, with a leading zero below ten.
pub fn push_decimal2(s: &mut String, n: u64)
    ensures
        final(s)@ == old(s)@ + decimal2(n as nat),
{
    if n < 10 {
        push_char(s, '0');
    }
    push_decimal(s, n);
    proof {
        if n < 10 {
            assert(old(s)@.push('0') + decimal(n as nat) =~= old(s)@ + (seq!['0'] + decimal(
                n as nat,
            )));
        }
    }
}

// ---------------------------------------------------------------------------
// Building strings
// ---------------------------------------------------------------------------

/// `String::push`: appends one character.
#[verifier::external_body]
pub(crate) fn push_char(s: &mut String, c: char)
    ensures
        final(s)@ == old(s)@.push(c),
{
    s.push(c)
}

/// Appends the characters `t` to `s`.
pub fn push_chars(s: &mut String, t: &[char])
    ensures
        final(s)@ == old(s)@ + t@,
{
    let ghost s0 = s@;
    let mut i: usize = 0;
    while i < t.len()
        invariant
            i <= t@.len(),
            s@ == s0 + t@.take(i as int),
        decreases t@.len() - i,
    {
        push_char(s, t[i]);
        assert(t@.take(i + 1) =~= t@.take(i as int).push(t@[i as int]));
        i = i + 1;
    }
    assert(t@.take(t@.len() as int) =~= t@);
}

/// A `String` of the characters `t`.
pub fn string_of(t: &[char]) -> (r: String)
    ensures
        r@ == t@,
{
    let mut r = String::new();
    push_chars(&mut r, t);
    assert(Seq::<char>::empty() + t@ =~= t@);
    r
}

/// Appends the string `t` to `s`.
pub fn push_str(s: &mut String, t: &str)
    ensures
        final(s)@ == old(s)@ + t@,
{
    s.append(t);
}

// ---------------------------------------------------------------------------
// Case
// ---------------------------------------------------------------------------

/// What `str::to_lowercase` gives: the Unicode lowercase mapping of `s`.
pub uninterp spec fn lowercase(s: Seq<char>) -> Seq<char>;

/// `str::to_lowercase`: claims the answer is the named lowercase form of
/// `s`, a function of `s` alone; nothing is claimed of what that form is.
#[verifier::external_body]
pub(crate) fn to_lowercase(s: &str) -> (r: String)
    ensures
        r@ == lowercase(s@),
{
    s.to_lowercase()
}

} // verus!
