//! Text primitives: searching, cutting and trimming sequences of characters.
//!
//! Every executable function here is stated against a specification over
//! `Seq<char>`, the view of `str` and `String`.

use vstd::prelude::*;
use vstd::std_specs::iter::IteratorSpec;
use vstd::string::StringExecFns;
use vstd::string::StrSliceExecFns;

verus! {

/// The views of the items of a sequence.
pub open spec fn views<T: View>(s: Seq<T>) -> Seq<T::V> {
    s.map_values(|x: T| x@)
}

/// The views of a sequence of strings.
pub open spec fn names(v: Seq<String>) -> Seq<Seq<char>> {
    views(v)
}

/// The views of a sequence with one more item are the views with one more
/// view.
pub proof fn lemma_views_push<T: View>(s: Seq<T>, x: T)
    ensures
        views(s.push(x)) == views(s).push(x@),
{
}

/// The views of the first `i + 1` items are those of the first `i` with the
/// view of item `i`.
pub proof fn lemma_views_take_next<T: View>(s: Seq<T>, i: int)
    requires
        0 <= i < s.len(),
    ensures
        views(s.take(i + 1)) == views(s.take(i)).push(s[i]@),
        s.take(i + 1) == s.take(i).push(s[i]),
{
}

/// A sequence with one more item holds that item, and what it held before.
pub proof fn lemma_push_keeps<T>(s: Seq<T>, x: T)
    ensures
        s.push(x).contains(x),
        forall|y: T| s.contains(y) ==> #[trigger] s.push(x).contains(y),
        forall|y: T| #[trigger] s.push(x).contains(y) ==> y == x || s.contains(y),
{
    assert(s.push(x)[s.len() as int] == x);
    assert forall|y: T| s.contains(y) implies #[trigger] s.push(x).contains(y) by {
        let i = choose|i: int| 0 <= i < s.len() && s[i] == y;
        assert(s.push(x)[i] == y);
    }
}

/// The views of two sequences in a row are their views in a row.
pub proof fn lemma_views_add<T: View>(a: Seq<T>, b: Seq<T>)
    ensures
        views(a + b) == views(a) + views(b),
{
}

/// `needle` stands in `hay` at offset `i`.
pub open spec fn occurs_at(hay: Seq<char>, needle: Seq<char>, i: int) -> bool {
    0 <= i && i + needle.len() <= hay.len() && hay.subrange(i, i + needle.len()) == needle
}

/// `needle` stands somewhere in `hay`.
pub open spec fn contains_text(hay: Seq<char>, needle: Seq<char>) -> bool {
    exists|i: int| occurs_at(hay, needle, i)
}

/// `s` begins with `prefix`.
pub open spec fn starts_with_text(s: Seq<char>, prefix: Seq<char>) -> bool {
    occurs_at(s, prefix, 0)
}

/// `s` ends with `suffix`.
pub open spec fn ends_with_text(s: Seq<char>, suffix: Seq<char>) -> bool {
    occurs_at(s, suffix, s.len() - suffix.len())
}

/// The least index at or after `i` that holds `c`, or the length of `s`.
pub open spec fn first_index_from(s: Seq<char>, c: char, i: int) -> int
    decreases s.len() - i,
{
    if i < 0 || i >= s.len() {
        s.len() as int
    } else if s[i] == c {
        i
    } else {
        first_index_from(s, c, i + 1)
    }
}

/// The least index that holds `c`, or the length of `s` where `c` is absent.
pub open spec fn first_index(s: Seq<char>, c: char) -> int {
    first_index_from(s, c, 0)
}

/// The index just behind the last `c` before `j`, or 0.
pub open spec fn last_cut(s: Seq<char>, c: char, j: int) -> int
    decreases j,
{
    if j <= 0 || j > s.len() {
        0
    } else if s[j - 1] == c {
        j
    } else {
        last_cut(s, c, j - 1)
    }
}

/// What follows the last `c` in `s`; all of `s` where `c` is absent.
pub open spec fn after_last(s: Seq<char>, c: char) -> Seq<char> {
    s.subrange(last_cut(s, c, s.len() as int), s.len() as int)
}

/// Whether `c` has the Unicode property White_Space: the tab, the line
/// feed, the vertical tab, the form feed and the carriage return; the space;
/// the next-line mark; the no-break space; the Ogham space mark; the spaces
/// from the en quad to the hair space; the line and the paragraph
/// separator; the narrow no-break space; the medium mathematical space; the
/// ideographic space.
pub open spec fn white_space(c: char) -> bool {
    let n = c as u32;
    (0x09 <= n <= 0x0d) || n == 0x20 || n == 0x85 || n == 0xa0 || n == 0x1680 || (0x2000 <= n
        <= 0x200a) || n == 0x2028 || n == 0x2029 || n == 0x202f || n == 0x205f || n == 0x3000
}

/// Whether `c` has the Unicode property Alphabetic or one of the general
/// categories Nd, Nl, No.
pub uninterp spec fn alphanumeric(c: char) -> bool;

/// Whether `c` has one of the Unicode general categories Nd, Nl, No.
pub uninterp spec fn numeric(c: char) -> bool;

/// `char::is_whitespace` of std: true exactly of the characters with the
/// Unicode property White_Space, which `white_space` lists.
#[verifier::external_body]
pub(crate) fn is_white_space(c: char) -> (r: bool)
    ensures
        r == white_space(c),
{
    c.is_whitespace()
}

/// `char::is_alphanumeric` of std: the answer is a property of the character
/// alone, here called `alphanumeric`.
#[verifier::external_body]
pub(crate) fn is_alphanumeric(c: char) -> (r: bool)
    ensures
        r == alphanumeric(c),
{
    c.is_alphanumeric()
}

/// `char::is_numeric` of std: the answer is a property of the character
/// alone, here called `numeric`.
#[verifier::external_body]
pub(crate) fn is_numeric(c: char) -> (r: bool)
    ensures
        r == numeric(c),
{
    c.is_numeric()
}

/// The sets of characters that trimming strips.
#[derive(Clone, Copy, PartialEq, Eq, Structural)]
pub enum CharClass {
    /// Unicode white space.
    Space,
    /// A single or a double quote.
    Quote,
    /// The letter `f`.
    LetterF,
}

/// Whether `c` is of `class`.
pub open spec fn in_class(class: CharClass, c: char) -> bool {
    match class {
        CharClass::Space => white_space(c),
        CharClass::Quote => c == '"' || c == '\'',
        CharClass::LetterF => c == 'f',
    }
}

/// A character of an identifier: alphanumeric or an underscore.
pub open spec fn word_char(c: char) -> bool {
    alphanumeric(c) || c == '_'
}

/// The least index at or after `i` whose character is outside `class`.
pub open spec fn skip_class(s: Seq<char>, class: CharClass, i: int) -> int
    decreases s.len() - i,
{
    if 0 <= i < s.len() && in_class(class, s[i]) {
        skip_class(s, class, i + 1)
    } else {
        i
    }
}

/// The greatest index at or before `j`, not under `lo`, whose preceding
/// character is outside `class`.
pub open spec fn back_class(s: Seq<char>, class: CharClass, lo: int, j: int) -> int
    decreases j,
{
    if 0 <= lo < j <= s.len() && in_class(class, s[j - 1]) {
        back_class(s, class, lo, j - 1)
    } else {
        j
    }
}

/// `s` without its leading characters of `class`.
pub open spec fn trim_start_of(s: Seq<char>, class: CharClass) -> Seq<char> {
    s.subrange(skip_class(s, class, 0), s.len() as int)
}

/// `s` without its leading and trailing characters of `class`.
pub open spec fn trim_of(s: Seq<char>, class: CharClass) -> Seq<char> {
    let a = skip_class(s, class, 0);
    s.subrange(a, back_class(s, class, a, s.len() as int))
}

/// `s` without leading and trailing white space.
pub open spec fn trimmed(s: Seq<char>) -> Seq<char> {
    trim_of(s, CharClass::Space)
}

/// The pieces between the occurrences of `c`, the piece in progress having
/// begun at `start` and the scan standing at `i`.
pub open spec fn pieces_from(s: Seq<char>, c: char, start: int, i: int) -> Seq<Seq<char>>
    decreases s.len() - i,
{
    if i < 0 || i >= s.len() {
        seq![s.subrange(start, s.len() as int)]
    } else if s[i] == c {
        seq![s.subrange(start, i)] + pieces_from(s, c, i + 1, i + 1)
    } else {
        pieces_from(s, c, start, i + 1)
    }
}

/// The pieces of `s` between the occurrences of `c`: one more than there are
/// occurrences.
pub open spec fn pieces_of(s: Seq<char>, c: char) -> Seq<Seq<char>> {
    pieces_from(s, c, 0, 0)
}

/// The maximal runs of word characters, the run in progress having begun at
/// `start` and the scan standing at `i`.
pub open spec fn words_from(s: Seq<char>, start: int, i: int) -> Seq<Seq<char>>
    decreases s.len() - i,
{
    if i < 0 || i >= s.len() {
        if start < s.len() {
            seq![s.subrange(start, s.len() as int)]
        } else {
            Seq::empty()
        }
    } else if word_char(s[i]) {
        words_from(s, start, i + 1)
    } else if start < i {
        seq![s.subrange(start, i)] + words_from(s, i + 1, i + 1)
    } else {
        words_from(s, i + 1, i + 1)
    }
}

/// The maximal runs of word characters in `s`, in order.
pub open spec fn words_of(s: Seq<char>) -> Seq<Seq<char>> {
    words_from(s, 0, 0)
}

/// Line `k` (from 0) of `s` cut at line feeds, scanning from `start`; empty
/// where `s` has no such line.
pub open spec fn line_from(s: Seq<char>, k: nat, start: int) -> Seq<char>
    decreases k,
{
    let e = first_index_from(s, '\n', start);
    if k == 0 {
        if 0 <= start <= e {
            s.subrange(start, e)
        } else {
            Seq::empty()
        }
    } else if e >= s.len() {
        Seq::empty()
    } else {
        line_from(s, (k - 1) as nat, e + 1)
    }
}

/// Line `k` (from 0) of `s`, trimmed; empty where `s` has no such line.
pub open spec fn trimmed_line(s: Seq<char>, k: nat) -> Seq<char> {
    trimmed(line_from(s, k, 0))
}

/// The digit for `d`, which is under ten.
pub open spec fn digit_char(d: int) -> char {
    if d == 0 {
        '0'
    } else if d == 1 {
        '1'
    } else if d == 2 {
        '2'
    } else if d == 3 {
        '3'
    } else if d == 4 {
        '4'
    } else if d == 5 {
        '5'
    } else if d == 6 {
        '6'
    } else if d == 7 {
        '7'
    } else if d == 8 {
        '8'
    } else {
        '9'
    }
}

/// The decimal digits of `n`, most significant first.
pub open spec fn decimal(n: nat) -> Seq<char>
    decreases n,
{
    if n < 10 {
        seq![digit_char(n as int)]
    } else {
        decimal(n / 10).push(digit_char((n % 10) as int))
    }
}

/// What `first_index_from` gives lies between its start and the length,
/// holds `c` unless it is the length, and no `c` stands between the start and
/// it.
pub proof fn lemma_first_index_bounds(s: Seq<char>, c: char, i: int)
    requires
        0 <= i <= s.len(),
    ensures
        i <= first_index_from(s, c, i) <= s.len(),
        first_index_from(s, c, i) < s.len() ==> s[first_index_from(s, c, i)] == c,
        forall|j: int| i <= j < first_index_from(s, c, i) ==> s[j] != c,
    decreases s.len() - i,
{
    if i < s.len() && s[i] != c {
        lemma_first_index_bounds(s, c, i + 1);
    }
}

/// `last_cut` stays between 0 and its start, stands behind a `c` unless it is
/// 0, and no `c` follows it.
pub proof fn lemma_last_cut_bounds(s: Seq<char>, c: char, j: int)
    requires
        0 <= j <= s.len(),
    ensures
        0 <= last_cut(s, c, j) <= j,
        last_cut(s, c, j) > 0 ==> s[last_cut(s, c, j) - 1] == c,
        forall|k: int| last_cut(s, c, j) <= k < j ==> s[k] != c,
    decreases j,
{
    if j > 0 && s[j - 1] != c {
        lemma_last_cut_bounds(s, c, j - 1);
    }
}

/// What `skip_class` gives lies between its start and the length, holds a
/// character outside the class unless it is the length, and only characters
/// of the class stand between the start and it.
pub proof fn lemma_skip_class_bounds(s: Seq<char>, class: CharClass, i: int)
    requires
        0 <= i <= s.len(),
    ensures
        i <= skip_class(s, class, i) <= s.len(),
        skip_class(s, class, i) < s.len() ==> !in_class(class, s[skip_class(s, class, i)]),
        forall|j: int| i <= j < skip_class(s, class, i) ==> in_class(class, #[trigger] s[j]),
    decreases s.len() - i,
{
    if i < s.len() && in_class(class, s[i]) {
        lemma_skip_class_bounds(s, class, i + 1);
    }
}

/// What `back_class` gives lies between the floor and its start, stands
/// behind a character outside the class unless it is the floor, and only
/// characters of the class stand between it and the start.
pub proof fn lemma_back_class_bounds(s: Seq<char>, class: CharClass, lo: int, j: int)
    requires
        0 <= lo <= j <= s.len(),
    ensures
        lo <= back_class(s, class, lo, j) <= j,
        back_class(s, class, lo, j) > lo ==> !in_class(
            class,
            s[back_class(s, class, lo, j) - 1],
        ),
        forall|k: int| back_class(s, class, lo, j) <= k < j ==> in_class(class, #[trigger] s[k]),
    decreases j,
{
    if lo < j && in_class(class, s[j - 1]) {
        lemma_back_class_bounds(s, class, lo, j - 1);
    }
}

/// The characters of `s`, for indexing in constant time.
pub fn chars_of(s: &str) -> (r: Vec<char>)
    ensures
        r@ == s@,
{
    let mut out: Vec<char> = Vec::new();
    for c in it: s.chars()
        invariant
            out@ == it.seq().take(it.index() as int),
            it.seq() == s@,
    {
        out.push(c);
    }
    out
}

/// Whether two strings hold the same characters.
pub fn same_text(a: &str, b: &str) -> (r: bool)
    ensures
        r == (a@ == b@),
{
    let x = a.to_owned();
    let y = b.to_owned();
    x == y
}

/// Whether `name` is one of `list`.
pub fn is_one_of(name: &str, list: &Vec<String>) -> (r: bool)
    ensures
        r == names(list@).contains(name@),
{
    let mut i: usize = 0;
    while i < list.len()
        invariant
            i <= list.len(),
            forall|k: int| 0 <= k < i ==> list@[k]@ != name@,
        decreases list.len() - i,
    {
        if same_text(list[i].as_str(), name) {
            assert(names(list@)[i as int] == name@);
            return true;
        }
        i += 1;
    }
    false
}

fn matches_at(hay: &Vec<char>, needle: &Vec<char>, i: usize) -> (r: bool)
    requires
        i + needle.len() <= hay.len(),
    ensures
        r == occurs_at(hay@, needle@, i as int),
{
    let mut j: usize = 0;
    while j < needle.len()
        invariant
            j <= needle.len(),
            i + needle.len() <= hay.len(),
            forall|k: int| 0 <= k < j ==> hay@[i + k] == needle@[k],
        decreases needle.len() - j,
    {
        if hay[i + j] != needle[j] {
            return false;
        }
        j += 1;
    }
    assert(hay@.subrange(i as int, i + needle.len()) =~= needle@);
    true
}

/// Whether `needle` stands somewhere in `hay`, both given by their characters.
pub fn contains_chars(hay: &Vec<char>, needle: &Vec<char>) -> (r: bool)
    ensures
        r == contains_text(hay@, needle@),
{
    if needle.len() > hay.len() {
        return false;
    }
    let last = hay.len() - needle.len();
    let mut i: usize = 0;
    while i < last
        invariant
            i <= last,
            last == hay.len() - needle.len(),
            forall|k: int| 0 <= k < i ==> !occurs_at(hay@, needle@, k),
        decreases last - i,
    {
        if matches_at(hay, needle, i) {
            return true;
        }
        i += 1;
    }
    if matches_at(hay, needle, last) {
        return true;
    }
    false
}

/// Whether `needle` stands somewhere in `hay`.
pub fn contains(hay: &str, needle: &str) -> (r: bool)
    ensures
        r == contains_text(hay@, needle@),
{
    let h = chars_of(hay);
    let n = chars_of(needle);
    contains_chars(&h, &n)
}

/// Whether `s` begins with `prefix`.
pub fn starts_with(s: &str, prefix: &str) -> (r: bool)
    ensures
        r == starts_with_text(s@, prefix@),
{
    let h = chars_of(s);
    let n = chars_of(prefix);
    if n.len() > h.len() {
        return false;
    }
    matches_at(&h, &n, 0)
}

/// Whether `s` ends with `suffix`.
pub fn ends_with(s: &str, suffix: &str) -> (r: bool)
    ensures
        r == ends_with_text(s@, suffix@),
{
    let h = chars_of(s);
    let n = chars_of(suffix);
    if n.len() > h.len() {
        return false;
    }
    matches_at(&h, &n, h.len() - n.len())
}

/// The least index at or after `from` that holds `c`, or the length.
fn find_char(s: &Vec<char>, c: char, from: usize) -> (r: usize)
    requires
        from <= s.len(),
    ensures
        r == first_index_from(s@, c, from as int),
        from <= r <= s.len(),
        r < s.len() ==> s@[r as int] == c,
        forall|j: int| from <= j < r ==> s@[j] != c,
{
    proof {
        lemma_first_index_bounds(s@, c, from as int);
    }
    let mut i: usize = from;
    while i < s.len() && s[i] != c
        invariant
            from <= i <= s.len(),
            first_index_from(s@, c, from as int) == first_index_from(s@, c, i as int),
        decreases s.len() - i,
    {
        i += 1;
    }
    i
}

/// Whether `c` occurs in `s`.
pub fn has_char(s: &str, c: char) -> (r: bool)
    ensures
        r == (first_index(s@, c) < s@.len()),
{
    let v = chars_of(s);
    find_char(&v, c, 0) < v.len()
}

/// What follows the last `c` in `s`.
pub fn last_segment(s: &str, c: char) -> (r: &str)
    ensures
        r@ == after_last(s@, c),
        ends_with_text(s@, r@),
        forall|k: int| 0 <= k < r@.len() ==> r@[k] != c,
        r@.len() == s@.len() || s@[s@.len() - r@.len() - 1] == c,
{
    proof {
        lemma_last_cut_bounds(s@, c, s@.len() as int);
    }
    let v = chars_of(s);
    let mut j: usize = v.len();
    while j > 0 && v[j - 1] != c
        invariant
            j <= v.len(),
            last_cut(v@, c, v.len() as int) == last_cut(v@, c, j as int),
        decreases j,
    {
        j -= 1;
    }
    s.substring_char(j, v.len())
}

fn class_has(class: CharClass, c: char) -> (r: bool)
    ensures
        r == in_class(class, c),
{
    match class {
        CharClass::Space => is_white_space(c),
        CharClass::Quote => c == '"' || c == '\'',
        CharClass::LetterF => c == 'f',
    }
}

fn skip_in(v: &Vec<char>, class: CharClass) -> (r: usize)
    ensures
        r == skip_class(v@, class, 0),
        r <= v.len(),
{
    let mut i: usize = 0;
    while i < v.len() && class_has(class, v[i])
        invariant
            i <= v.len(),
            skip_class(v@, class, 0) == skip_class(v@, class, i as int),
        decreases v.len() - i,
    {
        i += 1;
    }
    i
}

fn back_in(v: &Vec<char>, class: CharClass, lo: usize) -> (r: usize)
    requires
        lo <= v.len(),
    ensures
        r == back_class(v@, class, lo as int, v.len() as int),
        lo <= r <= v.len(),
{
    let mut j: usize = v.len();
    while j > lo && class_has(class, v[j - 1])
        invariant
            lo <= j <= v.len(),
            back_class(v@, class, lo as int, v.len() as int) == back_class(
                v@,
                class,
                lo as int,
                j as int,
            ),
        decreases j,
    {
        j -= 1;
    }
    j
}

/// `s` without its leading and trailing characters of `class`.
pub fn trim_by(s: &str, class: CharClass) -> (r: &str)
    ensures
        r@ == trim_of(s@, class),
        r@.len() > 0 ==> !in_class(class, r@[0]) && !in_class(class, r@.last()),
{
    proof {
        lemma_skip_class_bounds(s@, class, 0);
        lemma_back_class_bounds(s@, class, skip_class(s@, class, 0), s@.len() as int);
    }
    let v = chars_of(s);
    let a = skip_in(&v, class);
    let b = back_in(&v, class, a);
    s.substring_char(a, b)
}

/// `s` without its leading characters of `class`.
pub fn trim_start_by(s: &str, class: CharClass) -> (r: &str)
    ensures
        r@ == trim_start_of(s@, class),
{
    let v = chars_of(s);
    let a = skip_in(&v, class);
    s.substring_char(a, v.len())
}

/// `s` without leading and trailing white space.
pub fn trim(s: &str) -> (r: &str)
    ensures
        r@ == trimmed(s@),
        r@.len() > 0 ==> !white_space(r@[0]) && !white_space(r@.last()),
{
    trim_by(s, CharClass::Space)
}

/// The pieces of `s` between the occurrences of `c`.
pub fn split(s: &str, c: char) -> (r: Vec<String>)
    ensures
        names(r@) == pieces_of(s@, c),
{
    let v = chars_of(s);
    let mut out: Vec<String> = Vec::new();
    let mut start: usize = 0;
    let mut i: usize = 0;
    while i < v.len()
        invariant
            start <= i <= v.len(),
            v@ == s@,
            pieces_of(s@, c) == names(out@) + pieces_from(s@, c, start as int, i as int),
        decreases v.len() - i,
    {
        if v[i] == c {
            let piece = s.substring_char(start, i).to_owned();
            out.push(piece);
            start = i + 1;
        }
        i += 1;
    }
    let piece = s.substring_char(start, v.len()).to_owned();
    out.push(piece);
    out
}

/// The maximal runs of word characters in `s`, in order.
pub fn words(s: &str) -> (r: Vec<String>)
    ensures
        names(r@) == words_of(s@),
{
    let v = chars_of(s);
    let mut out: Vec<String> = Vec::new();
    let mut start: usize = 0;
    let mut i: usize = 0;
    while i < v.len()
        invariant
            start <= i <= v.len(),
            v@ == s@,
            words_of(s@) == names(out@) + words_from(s@, start as int, i as int),
        decreases v.len() - i,
    {
        let c = v[i];
        if !(is_alphanumeric(c) || c == '_') {
            if start < i {
                let piece = s.substring_char(start, i).to_owned();
                out.push(piece);
            }
            start = i + 1;
        }
        i += 1;
    }
    if start < v.len() {
        let piece = s.substring_char(start, v.len()).to_owned();
        out.push(piece);
    }
    out
}

/// Line `k` (from 0) of `s`, trimmed; empty where `s` has no such line.
pub fn line_at(s: &str, k: usize) -> (r: String)
    ensures
        r@ == trimmed_line(s@, k as nat),
{
    let v = chars_of(s);
    let mut start: usize = 0;
    let mut left: usize = k;
    loop
        invariant
            start <= v.len(),
            v@ == s@,
            line_from(s@, k as nat, 0) == line_from(s@, left as nat, start as int),
        decreases left,
    {
        let e = find_char(&v, '\n', start);
        if left == 0 {
            let line = s.substring_char(start, e);
            return trim(line).to_owned();
        }
        if e >= v.len() {
            proof {
                reveal_strlit("");
            }
            return "".to_owned();
        }
        start = e + 1;
        left -= 1;
    }
}

fn digit_text(d: usize) -> (r: &'static str)
    requires
        d < 10,
    ensures
        r@ == seq![digit_char(d as int)],
{
    proof {
        reveal_strlit("0");
        reveal_strlit("1");
        reveal_strlit("2");
        reveal_strlit("3");
        reveal_strlit("4");
        reveal_strlit("5");
        reveal_strlit("6");
        reveal_strlit("7");
        reveal_strlit("8");
        reveal_strlit("9");
    }
    let r = if d == 0 {
        "0"
    } else if d == 1 {
        "1"
    } else if d == 2 {
        "2"
    } else if d == 3 {
        "3"
    } else if d == 4 {
        "4"
    } else if d == 5 {
        "5"
    } else if d == 6 {
        "6"
    } else if d == 7 {
        "7"
    } else if d == 8 {
        "8"
    } else {
        "9"
    };
    r
}

/// `n` in decimal notation.
pub fn decimal_text(n: usize) -> (r: String)
    ensures
        r@ == decimal(n as nat),
    decreases n,
{
    if n < 10 {
        digit_text(n).to_owned()
    } else {
        let mut s = decimal_text(n / 10);
        s.append(digit_text(n % 10));
        s
    }
}

/// `a` followed by `b`.
pub fn join2(a: &str, b: &str) -> (r: String)
    ensures
        r@ == a@ + b@,
{
    let mut s = a.to_owned();
    s.append(b);
    s
}

/// `a`, `b` and `c` in a row.
pub fn join3(a: &str, b: &str, c: &str) -> (r: String)
    ensures
        r@ == a@ + b@ + c@,
{
    let mut s = a.to_owned();
    s.append(b);
    s.append(c);
    s
}

/// `s` cut at its first `c`: what stands before it and what stands behind
/// it; none where `c` is absent.
pub open spec fn cut_at(s: Seq<char>, c: char) -> Option<(Seq<char>, Seq<char>)> {
    let i = first_index(s, c);
    if 0 <= i < s.len() {
        Some((s.subrange(0, i), s.subrange(i + 1, s.len() as int)))
    } else {
        None
    }
}

/// `s` cut at its first `c`.
pub fn split_once(s: &str, c: char) -> (r: Option<(&str, &str)>)
    ensures
        match r {
            Some(p) => cut_at(s@, c) == Some((p.0@, p.1@)),
            None => cut_at(s@, c) is None,
        },
{
    let v = chars_of(s);
    let i = find_char(&v, c, 0);
    if i < v.len() {
        Some((s.substring_char(0, i), s.substring_char(i + 1, v.len())))
    } else {
        None
    }
}

/// The first character of `s`, if it has one.
pub fn first_char(s: &str) -> (r: Option<char>)
    ensures
        match r {
            Some(c) => s@.len() > 0 && s@[0] == c,
            None => s@.len() == 0,
        },
{
    if s.unicode_len() > 0 {
        Some(s.get_char(0))
    } else {
        None
    }
}

/// Appends `a`, `b` and `c` to `out`.
pub fn append3(out: &mut String, a: &str, b: &str, c: &str)
    ensures
        final(out)@ == old(out)@ + (a@ + b@ + c@),
{
    out.append(a);
    out.append(b);
    out.append(c);
}

/// `lines` in a row, with `sep` between one and the next.
pub open spec fn joined(lines: Seq<Seq<char>>, sep: Seq<char>) -> Seq<char>
    decreases lines.len(),
{
    if lines.len() == 0 {
        Seq::empty()
    } else if lines.len() == 1 {
        lines[0]
    } else {
        joined(lines.drop_last(), sep) + sep + lines.last()
    }
}

/// `line` without one carriage return at its end.
pub open spec fn without_return(line: Seq<char>) -> Seq<char> {
    if line.len() > 0 && line.last() == '\r' {
        line.drop_last()
    } else {
        line
    }
}

/// The first `n` of `pieces` as lines: each piece is a line that a line feed
/// ended, and loses the carriage return before it; the last piece of all is
/// a line only where it is not empty, and is kept as it is.
pub open spec fn lines_among(pieces: Seq<Seq<char>>, n: int) -> Seq<Seq<char>>
    decreases n,
{
    if n <= 0 {
        Seq::empty()
    } else if n == pieces.len() {
        if pieces[n - 1].len() > 0 {
            lines_among(pieces, n - 1).push(pieces[n - 1])
        } else {
            lines_among(pieces, n - 1)
        }
    } else {
        lines_among(pieces, n - 1).push(without_return(pieces[n - 1]))
    }
}

/// The lines of `s`: it is cut at line feeds, a carriage return before a line
/// feed goes with it, and what follows the last line feed is a line unless
/// it is empty.
pub open spec fn lines_of(s: Seq<char>) -> Seq<Seq<char>> {
    lines_among(pieces_of(s, '\n'), pieces_of(s, '\n').len() as int)
}

/// The lines of `s`.
pub fn lines(s: &str) -> (r: Vec<String>)
    ensures
        names(r@) == lines_of(s@),
{
    let pieces = split(s, '\n');
    let mut out: Vec<String> = Vec::new();
    let mut n: usize = 0;
    while n < pieces.len()
        invariant
            n <= pieces.len(),
            names(pieces@) == pieces_of(s@, '\n'),
            names(out@) == lines_among(names(pieces@), n as int),
        decreases pieces.len() - n,
    {
        let piece = pieces[n].as_str();
        let v = chars_of(piece);
        if n + 1 == pieces.len() {
            if v.len() > 0 {
                let line = piece.to_owned();
                out.push(line);
            }
        } else {
            let line = if v.len() > 0 && v[v.len() - 1] == '\r' {
                piece.substring_char(0, v.len() - 1).to_owned()
            } else {
                piece.to_owned()
            };
            out.push(line);
        }
        n += 1;
    }
    out
}

/// `lines` from the `from`-th on; none where there are not so many.
pub open spec fn rest_from(lines: Seq<Seq<char>>, from: int) -> Seq<Seq<char>> {
    if 0 <= from <= lines.len() {
        lines.skip(from)
    } else {
        Seq::empty()
    }
}

/// `lines` from the `from`-th on, in a row, with `sep` between one and the
/// next.
pub fn join_from(lines: &Vec<String>, from: usize, sep: &str) -> (r: String)
    ensures
        r@ == joined(rest_from(names(lines@), from as int), sep@),
{
    let mut out = String::new();
    if from >= lines.len() {
        return out;
    }
    let ghost rest = names(lines@).skip(from as int);
    out.append(lines[from].as_str());
    let mut n: usize = from + 1;
    while n < lines.len()
        invariant
            from < n <= lines.len(),
            rest == names(lines@).skip(from as int),
            out@ == joined(rest.take(n - from), sep@),
        decreases lines.len() - n,
    {
        proof {
            let now = rest.take(n - from + 1);
            assert(now.drop_last() =~= rest.take(n - from));
        }
        out.append(sep);
        out.append(lines[n].as_str());
        n += 1;
    }
    assert(rest.take(n - from) =~= rest);
    out
}

} // verus!
