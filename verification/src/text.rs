//! Character-level text primitives: their mathematical meaning over `Seq<char>`,
//! and executable versions proved against it.

use vstd::prelude::*;

verus! {

// ---------------------------------------------------------------------------
// Specifications
// ---------------------------------------------------------------------------

/// Unicode `White_Space`, the property that `char::is_whitespace` and
/// `str::trim` go by.
pub open spec fn is_space_char(c: char) -> bool {
    ||| ('\t' <= c && c <= '\r')
    ||| c == ' '
    ||| c == '\u{85}'
    ||| c == '\u{a0}'
    ||| c == '\u{1680}'
    ||| ('\u{2000}' <= c && c <= '\u{200a}')
    ||| c == '\u{2028}'
    ||| c == '\u{2029}'
    ||| c == '\u{202f}'
    ||| c == '\u{205f}'
    ||| c == '\u{3000}'
}

/// The index of the first non-whitespace character of `s` at or after `i`,
/// or `s.len()` when there is none.
pub open spec fn skip_space_from(s: Seq<char>, i: int) -> int
    decreases s.len() - i,
{
    if i < 0 || i >= s.len() {
        s.len() as int
    } else if !is_space_char(s[i]) {
        i
    } else {
        skip_space_from(s, i + 1)
    }
}

/// The index of the first whitespace character of `s` at or after `i`,
/// or `s.len()` when there is none.
pub open spec fn find_space_from(s: Seq<char>, i: int) -> int
    decreases s.len() - i,
{
    if i < 0 || i >= s.len() {
        s.len() as int
    } else if is_space_char(s[i]) {
        i
    } else {
        find_space_from(s, i + 1)
    }
}

/// The end of `s.take(j)` once trailing whitespace is removed, never below `lo`.
pub open spec fn trailing_space_cut(s: Seq<char>, lo: int, j: int) -> int
    decreases j - lo,
{
    if j <= lo {
        lo
    } else if !is_space_char(s[j - 1]) {
        j
    } else {
        trailing_space_cut(s, lo, j - 1)
    }
}

/// `str::trim_start`: `s` without its leading whitespace.
pub open spec fn trim_start(s: Seq<char>) -> Seq<char> {
    s.skip(skip_space_from(s, 0))
}

/// `str::trim`: `s` without its leading and trailing whitespace.
pub open spec fn trim(s: Seq<char>) -> Seq<char> {
    let a = skip_space_from(s, 0);
    s.subrange(a, trailing_space_cut(s, a, s.len() as int))
}

/// `split_whitespace().next().unwrap_or("")`: the first maximal run of
/// non-whitespace characters, or the empty text.
pub open spec fn first_word(s: Seq<char>) -> Seq<char> {
    let a = skip_space_from(s, 0);
    s.subrange(a, find_space_from(s, a))
}

/// `p` occurs in `s` at index `i`.
pub open spec fn occurs_at(s: Seq<char>, p: Seq<char>, i: int) -> bool {
    0 <= i && i + p.len() <= s.len() && s.subrange(i, i + p.len()) == p
}

/// The first index at or after `i` at which `p` occurs in `s`.
pub open spec fn find_from(s: Seq<char>, p: Seq<char>, i: int) -> Option<int>
    decreases s.len() + 1 - i,
{
    if i < 0 || i + p.len() > s.len() {
        None
    } else if s.subrange(i, i + p.len()) == p {
        Some(i)
    } else {
        find_from(s, p, i + 1)
    }
}

/// `str::find`, counted in characters: the first index at which `p` occurs in `s`.
pub open spec fn find(s: Seq<char>, p: Seq<char>) -> Option<int> {
    find_from(s, p, 0)
}

/// `str::contains`.
pub open spec fn contains(s: Seq<char>, p: Seq<char>) -> bool {
    find(s, p) is Some
}

/// `str::starts_with`.
pub open spec fn starts_with(s: Seq<char>, p: Seq<char>) -> bool {
    p.len() <= s.len() && s.take(p.len() as int) == p
}

/// `s.splitn(2, p).nth(1)`: what follows the first occurrence of `p`.
pub open spec fn after_first(s: Seq<char>, p: Seq<char>) -> Option<Seq<char>> {
    match find(s, p) {
        Some(i) => Some(s.skip(i + p.len())),
        None => None,
    }
}

/// A line without the carriage return that ended it.
pub open spec fn strip_cr(line: Seq<char>) -> Seq<char> {
    if line.len() > 0 && line.last() == '\r' {
        line.drop_last()
    } else {
        line
    }
}

/// `str::lines`: the text cut at each `'\n'`, a `'\r'` right before it
/// dropped, and no empty line after a final `'\n'`.
pub open spec fn lines(s: Seq<char>) -> Seq<Seq<char>>
    decreases s.len(),
{
    if s.len() == 0 {
        Seq::empty()
    } else {
        match find(s, seq!['\n']) {
            Some(k) => if 0 <= k < s.len() {
                seq![strip_cr(s.take(k))] + lines(s.skip(k + 1))
            } else {
                seq![s]
            },
            None => seq![s],
        }
    }
}

/// The first of `ls` that contains `key`.
pub open spec fn first_line_with(ls: Seq<Seq<char>>, key: Seq<char>) -> Option<Seq<char>>
    decreases ls.len(),
{
    if ls.len() == 0 {
        None
    } else if contains(ls[0], key) {
        Some(ls[0])
    } else {
        first_line_with(ls.drop_first(), key)
    }
}

/// A decimal digit.
pub open spec fn is_digit(c: char) -> bool {
    '0' <= c && c <= '9'
}

/// The number that a string of decimal digits denotes.
pub open spec fn digits_value(s: Seq<char>) -> nat
    decreases s.len(),
{
    if s.len() == 0 {
        0
    } else {
        digits_value(s.drop_last()) * 10 + ((s.last() as u32) - ('0' as u32)) as nat
    }
}

/// `s` without the `'+'` that may lead it.
pub open spec fn unsigned_part(s: Seq<char>) -> Seq<char> {
    if s.len() > 0 && s[0] == '+' {
        s.drop_first()
    } else {
        s
    }
}

/// One or more decimal digits and nothing else.
pub open spec fn is_digit_string(d: Seq<char>) -> bool {
    d.len() > 0 && forall|i: int| 0 <= i < d.len() ==> is_digit(#[trigger] d[i])
}

/// `str::parse::<u32>`: an optional `'+'`, then one or more decimal digits whose
/// value fits in a `u32`.
pub open spec fn parse_u32(s: Seq<char>) -> Option<u32> {
    if is_digit_string(unsigned_part(s)) && digits_value(unsigned_part(s)) <= u32::MAX {
        Some(digits_value(unsigned_part(s)) as u32)
    } else {
        None
    }
}

/// `char::is_ascii_uppercase`.
pub open spec fn is_ascii_upper(c: char) -> bool {
    'A' <= c && c <= 'Z'
}

/// `char::len_utf8`: how many bytes UTF-8 gives `c`.
pub open spec fn utf8_width(c: char) -> nat {
    if (c as u32) < 0x80 {
        1
    } else if (c as u32) < 0x800 {
        2
    } else if (c as u32) < 0x10000 {
        3
    } else {
        4
    }
}

/// The length in UTF-8 bytes of `s`: what `str::len` returns.
pub open spec fn utf8_len(s: Seq<char>) -> nat
    decreases s.len(),
{
    if s.len() == 0 {
        0
    } else {
        utf8_len(s.drop_last()) + utf8_width(s.last())
    }
}

/// The character index of byte offset `b` in `s`, when `b` falls on a
/// character boundary of `s` (where `&s[b..]` does not panic).
pub open spec fn char_index_of_byte(s: Seq<char>, b: int) -> Option<int> {
    if exists|k: int| 0 <= k <= s.len() && utf8_len(s.take(k)) == b {
        Some(choose|k: int| 0 <= k <= s.len() && utf8_len(s.take(k)) == b)
    } else {
        None
    }
}

/// The name for what `str::to_lowercase` returns on a text: full Unicode case
/// mapping, which takes tables to state.
pub uninterp spec fn str_to_lowercase(s: Seq<char>) -> Seq<char>;

// ---------------------------------------------------------------------------
// Lemmas
// ---------------------------------------------------------------------------

/// A match found at or after `i` lies inside `s`, at or after `i`.
pub proof fn lemma_find_from_bounds(s: Seq<char>, p: Seq<char>, i: int)
    ensures
        find_from(s, p, i) matches Some(k) ==> i <= k && occurs_at(s, p, k),
    decreases s.len() + 1 - i,
{
    if !(i < 0 || i + p.len() > s.len()) && s.subrange(i, i + p.len()) != p {
        lemma_find_from_bounds(s, p, i + 1);
    }
}

/// The search from `i` stops at the first occurrence at or after `i`.
pub proof fn lemma_find_from_at(s: Seq<char>, p: Seq<char>, i: int, m: int)
    requires
        0 <= i <= m,
        occurs_at(s, p, m),
        forall|j: int| i <= j < m ==> !occurs_at(s, p, j),
    ensures
        find_from(s, p, i) == Some(m),
    decreases m - i,
{
    if i < m {
        assert(!occurs_at(s, p, i));
        lemma_find_from_at(s, p, i + 1, m);
    }
}

/// A text that holds `p` somewhere contains it.
pub proof fn lemma_contains_at(s: Seq<char>, p: Seq<char>, i: int, m: int)
    requires
        0 <= i <= m,
        occurs_at(s, p, m),
    ensures
        find_from(s, p, i) is Some,
    decreases m - i,
{
    if i < m && s.subrange(i, i + p.len()) != p {
        lemma_contains_at(s, p, i + 1, m);
    }
}

/// `a + b` contains `a`.
pub proof fn lemma_contains_prefix(a: Seq<char>, b: Seq<char>)
    ensures
        contains(a + b, a),
{
    assert((a + b).subrange(0, a.len() as int) =~= a);
    lemma_contains_at(a + b, a, 0, 0);
}

/// In `k + [c] + rest`, with no `c` in `k`, what follows the first `c` is `rest`.
pub proof fn lemma_after_first_char(k: Seq<char>, c: char, rest: Seq<char>)
    requires
        !k.contains(c),
    ensures
        after_first(k + seq![c] + rest, seq![c]) == Some(rest),
{
    let s = k + seq![c] + rest;
    let m = k.len() as int;
    assert(s.subrange(m, m + 1) =~= seq![c]);
    assert forall|j: int| 0 <= j < m implies !occurs_at(s, seq![c], j) by {
        if occurs_at(s, seq![c], j) {
            assert(s.subrange(j, j + 1)[0] == k[j]);
        }
    }
    lemma_find_from_at(s, seq![c], 0, m);
    assert(s.skip(m + 1) =~= rest);
}

/// A text without whitespace at either end keeps that shape behind a leading
/// space: trimming `' ' + v` gives `v`.
pub proof fn lemma_trim_space_before(v: Seq<char>)
    requires
        v.len() > 0,
        !is_space_char(v[0]),
        !is_space_char(v.last()),
    ensures
        trim(seq![' '] + v) == v,
{
    let s = seq![' '] + v;
    assert(skip_space_from(s, 1) == 1);
    assert(skip_space_from(s, 0) == 1);
    assert(trailing_space_cut(s, 1, s.len() as int) == s.len());
    assert(s.subrange(1, s.len() as int) =~= v);
}

/// The first line that holds `key` is the one at `i` when no line before it does.
pub proof fn lemma_first_line_with_at(ls: Seq<Seq<char>>, key: Seq<char>, i: int)
    requires
        0 <= i < ls.len(),
        contains(ls[i], key),
        forall|j: int| 0 <= j < i ==> !contains(#[trigger] ls[j], key),
    ensures
        first_line_with(ls, key) == Some(ls[i]),
    decreases i,
{
    if i > 0 {
        let t = ls.drop_first();
        assert(!contains(ls[0], key));
        assert forall|j: int| 0 <= j < i - 1 implies !contains(#[trigger] t[j], key) by {
            assert(t[j] == ls[j + 1]);
        }
        lemma_first_line_with_at(t, key, i - 1);
    }
}

/// No occurrence comes before the one found.
pub proof fn lemma_find_from_before(s: Seq<char>, p: Seq<char>, i: int, j: int)
    requires
        0 <= i <= j,
        find_from(s, p, i) matches Some(m) ==> j < m,
    ensures
        !occurs_at(s, p, j),
    decreases s.len() + 1 - i,
{
    if i + p.len() <= s.len() && s.subrange(i, i + p.len()) != p && i < j {
        lemma_find_from_before(s, p, i + 1, j);
    }
}

/// With no line holding `key`, no line is found.
pub proof fn lemma_no_line_with(ls: Seq<Seq<char>>, key: Seq<char>)
    requires
        forall|j: int| 0 <= j < ls.len() ==> !contains(#[trigger] ls[j], key),
    ensures
        first_line_with(ls, key) is None,
    decreases ls.len(),
{
    if ls.len() > 0 {
        let t = ls.drop_first();
        assert(!contains(ls[0], key));
        assert forall|j: int| 0 <= j < t.len() implies !contains(#[trigger] t[j], key) by {
            assert(t[j] == ls[j + 1]);
        }
        lemma_no_line_with(t, key);
    }
}

/// UTF-8 length adds up over concatenation.
pub proof fn lemma_utf8_len_append(a: Seq<char>, b: Seq<char>)
    ensures
        utf8_len(a + b) == utf8_len(a) + utf8_len(b),
    decreases b.len(),
{
    if b.len() == 0 {
        assert(a + b =~= a);
    } else {
        assert((a + b).drop_last() =~= a + b.drop_last());
        lemma_utf8_len_append(a, b.drop_last());
    }
}

/// ASCII text takes one byte a character.
pub proof fn lemma_utf8_len_ascii(s: Seq<char>)
    requires
        forall|i: int| 0 <= i < s.len() ==> (#[trigger] s[i] as u32) < 0x80,
    ensures
        utf8_len(s) == s.len(),
    decreases s.len(),
{
    if s.len() > 0 {
        assert((s.last() as u32) < 0x80);
        lemma_utf8_len_ascii(s.drop_last());
    }
}

/// The byte offset of a character index maps back to it.
pub proof fn lemma_char_index_of_byte_at(s: Seq<char>, k: int)
    requires
        0 <= k <= s.len(),
    ensures
        char_index_of_byte(s, utf8_len(s.take(k)) as int) == Some(k),
{
    let b = utf8_len(s.take(k)) as int;
    assert(0 <= k <= s.len() && utf8_len(s.take(k)) == b);
    let w = choose|j: int| 0 <= j <= s.len() && utf8_len(s.take(j)) == b;
    if w < k {
        lemma_utf8_len_strict(s, w, k);
    } else if w > k {
        lemma_utf8_len_strict(s, k, w);
    }
}

/// UTF-8 length adds up over a one-character extension.
pub proof fn lemma_utf8_len_take(s: Seq<char>, k: int)
    requires
        0 <= k < s.len(),
    ensures
        utf8_len(s.take(k + 1)) == utf8_len(s.take(k)) + utf8_width(s[k]),
{
    assert(s.take(k + 1).drop_last() =~= s.take(k));
}

/// UTF-8 length is at most four bytes a character.
pub proof fn lemma_utf8_len_bound(s: Seq<char>)
    ensures
        utf8_len(s) <= 4 * s.len(),
    decreases s.len(),
{
    if s.len() > 0 {
        lemma_utf8_len_bound(s.drop_last());
    }
}

// ---------------------------------------------------------------------------
// Trusted access to std
// ---------------------------------------------------------------------------

/// `String::push`: the string gains `c` at its end.
#[verifier::external_body]
fn push_char(s: &mut String, c: char)
    ensures
        final(s)@ == old(s)@.push(c),
{
    s.push(c);
}

/// `str::to_lowercase`: its result is named by `str_to_lowercase`; it depends on
/// the text alone. Nothing else is stated of the Unicode case mapping.
#[verifier::external_body]
fn str_lowercase(s: &str) -> (res: String)
    ensures
        res@ == str_to_lowercase(s@),
{
    s.to_lowercase()
}

// ---------------------------------------------------------------------------
// Executable versions
// ---------------------------------------------------------------------------

/// The characters of `s`, in order.
pub fn chars_of(s: &str) -> (res: Vec<char>)
    ensures
        res@ == s@,
{
    let mut res: Vec<char> = Vec::new();
    for c in it: s.chars()
        invariant
            res@ == it.seq().take(it.index() as int),
    {
        res.push(c);
    }
    res
}

/// A `String` holding the characters of `v`.
pub fn string_of(v: &[char]) -> (res: String)
    ensures
        res@ == v@,
{
    let mut res = String::new();
    let mut i: usize = 0;
    while i < v.len()
        invariant
            i <= v@.len(),
            res@ == v@.take(i as int),
        decreases v.len() - i,
    {
        push_char(&mut res, v[i]);
        i = i + 1;
        assert(v@.take(i as int) =~= v@.take(i - 1).push(v@[i - 1]));
    }
    assert(v@.take(v@.len() as int) =~= v@);
    res
}

/// The characters of `v`, lowercased by `str::to_lowercase`.
pub fn lowercase(v: &[char]) -> (res: Vec<char>)
    ensures
        res@ == str_to_lowercase(v@),
{
    let s = string_of(v);
    let lower = str_lowercase(s.as_str());
    chars_of(lower.as_str())
}

/// `char::is_whitespace`.
pub fn is_space(c: char) -> (res: bool)
    ensures
        res == is_space_char(c),
{
    ('\t' <= c && c <= '\r') || c == ' ' || c == '\u{85}' || c == '\u{a0}' || c == '\u{1680}'
        || ('\u{2000}' <= c && c <= '\u{200a}') || c == '\u{2028}' || c == '\u{2029}'
        || c == '\u{202f}' || c == '\u{205f}' || c == '\u{3000}'
}

/// The index of the first non-whitespace character of `v` at or after `i`.
fn skip_space(v: &[char], i: usize) -> (res: usize)
    requires
        i <= v@.len(),
    ensures
        res == skip_space_from(v@, i as int),
        i <= res <= v@.len(),
{
    let mut j = i;
    while j < v.len() && is_space(v[j])
        invariant
            i <= j <= v@.len(),
            skip_space_from(v@, i as int) == skip_space_from(v@, j as int),
        decreases v.len() - j,
    {
        j = j + 1;
    }
    j
}

/// The index of the first whitespace character of `v` at or after `i`.
fn find_space(v: &[char], i: usize) -> (res: usize)
    requires
        i <= v@.len(),
    ensures
        res == find_space_from(v@, i as int),
        i <= res <= v@.len(),
{
    let mut j = i;
    while j < v.len() && !is_space(v[j])
        invariant
            i <= j <= v@.len(),
            find_space_from(v@, i as int) == find_space_from(v@, j as int),
        decreases v.len() - j,
    {
        j = j + 1;
    }
    j
}

/// `str::trim`.
pub fn trim_chars(v: &[char]) -> (res: Vec<char>)
    ensures
        res@ == trim(v@),
{
    let a = skip_space(v, 0);
    let mut b = v.len();
    while b > a && is_space(v[b - 1])
        invariant
            a <= b <= v@.len(),
            trailing_space_cut(v@, a as int, v@.len() as int) == trailing_space_cut(
                v@,
                a as int,
                b as int,
            ),
        decreases b,
    {
        b = b - 1;
    }
    vstd::slice::slice_to_vec(vstd::slice::slice_subrange(v, a, b))
}

/// `str::trim_start`.
pub fn trim_start_chars(v: &[char]) -> (res: Vec<char>)
    ensures
        res@ == trim_start(v@),
{
    let a = skip_space(v, 0);
    vstd::slice::slice_to_vec(vstd::slice::slice_subrange(v, a, v.len()))
}

/// `split_whitespace().next().unwrap_or("")`.
pub fn first_word_chars(v: &[char]) -> (res: Vec<char>)
    ensures
        res@ == first_word(v@),
{
    let a = skip_space(v, 0);
    let b = find_space(v, a);
    vstd::slice::slice_to_vec(vstd::slice::slice_subrange(v, a, b))
}

/// Whether `p` occurs in `s` at `i`, where there is room for it.
fn occurs_at_exec(s: &[char], p: &[char], i: usize) -> (res: bool)
    requires
        i <= s@.len(),
        p@.len() <= s@.len() - i,
    ensures
        res == (s@.subrange(i as int, i + p@.len()) == p@),
{
    let n = s.len();
    let mut j: usize = 0;
    while j < p.len()
        invariant
            n == s@.len(),
            i <= s@.len(),
            p@.len() <= s@.len() - i,
            j <= p@.len(),
            forall|k: int| 0 <= k < j ==> s@[i + k] == p@[k],
        decreases p.len() - j,
    {
        if s[i + j] != p[j] {
            assert(s@.subrange(i as int, i + p@.len())[j as int] != p@[j as int]);
            return false;
        }
        j = j + 1;
    }
    assert(s@.subrange(i as int, i + p@.len()) =~= p@);
    true
}

/// `str::find`, counted in characters.
pub fn find_chars(s: &[char], p: &[char]) -> (res: Option<usize>)
    ensures
        match res {
            Some(i) => find(s@, p@) == Some(i as int),
            None => find(s@, p@) is None,
        },
{
    if p.len() == 0 {
        assert(s@.subrange(0, 0) =~= p@);
        return Some(0);
    }
    let mut i: usize = 0;
    while i <= s.len() && p.len() <= s.len() - i
        invariant
            p@.len() > 0,
            find(s@, p@) == find_from(s@, p@, i as int),
        decreases s.len() + 1 - i,
    {
        if occurs_at_exec(s, p, i) {
            return Some(i);
        }
        i = i + 1;
    }
    None
}

/// `str::contains`.
pub fn contains_chars(s: &[char], p: &[char]) -> (res: bool)
    ensures
        res == contains(s@, p@),
{
    find_chars(s, p).is_some()
}

/// `str::starts_with`.
pub fn starts_with_chars(s: &[char], p: &[char]) -> (res: bool)
    ensures
        res == starts_with(s@, p@),
{
    if p.len() > s.len() {
        return false;
    }
    let r = occurs_at_exec(s, p, 0);
    assert(s@.subrange(0, p@.len() as int) =~= s@.take(p@.len() as int));
    r
}

/// `s.splitn(2, p).nth(1)`.
pub fn after_first_chars(s: &[char], p: &[char]) -> (res: Option<Vec<char>>)
    ensures
        match res {
            Some(r) => after_first(s@, p@) == Some(r@),
            None => after_first(s@, p@) is None,
        },
{
    let n = s.len();
    match find_chars(s, p) {
        Some(i) => {
            proof {
                lemma_find_from_bounds(s@, p@, 0);
            }
            Some(vstd::slice::slice_to_vec(vstd::slice::slice_subrange(s, i + p.len(), n)))
        },
        None => None,
    }
}

/// `str::lines`.
pub fn lines_of(v: &[char]) -> (res: Vec<Vec<char>>)
    ensures
        res.deep_view() == lines(v@),
{
    let mut res: Vec<Vec<char>> = Vec::new();
    let mut rest: &[char] = v;
    let nl = ['\n'];
    let nl: &[char] = &nl;
    assert(nl@ =~= seq!['\n']);
    while rest.len() > 0
        invariant
            nl@ == seq!['\n'],
            lines(v@) == res.deep_view() + lines(rest@),
        decreases rest.len(),
    {
        match find_chars(rest, nl) {
            Some(k) => {
                proof {
                    lemma_find_from_bounds(rest@, nl@, 0);
                }
                let mut line = vstd::slice::slice_to_vec(vstd::slice::slice_subrange(rest, 0, k));
                if k > 0 && line[k - 1] == '\r' {
                    line.pop();
                }
                assert(line@ == strip_cr(rest@.take(k as int)));
                let ghost old_res = res.deep_view();
                let ghost old_rest = rest@;
                assert(line.deep_view() =~= line@);
                res.push(line);
                rest = vstd::slice::slice_subrange(rest, k + 1, rest.len());
                assert(res.deep_view() =~= old_res.push(line@));
                assert(rest@ =~= old_rest.skip(k + 1));
                assert(lines(old_rest) == seq![line@] + lines(rest@));
                assert(old_res.push(line@) + lines(rest@) =~= old_res + (seq![line@] + lines(
                    rest@,
                )));
            },
            None => {
                let ghost old_res = res.deep_view();
                let line = vstd::slice::slice_to_vec(rest);
                assert(line.deep_view() =~= line@);
                res.push(line);
                assert(res.deep_view() =~= old_res.push(rest@));
                let ghost old_rest = rest@;
                rest = vstd::slice::slice_subrange(rest, rest.len(), rest.len());
                assert(lines(rest@) =~= Seq::<Seq<char>>::empty());
                assert(old_res.push(old_rest) =~= old_res + lines(old_rest));
            },
        }
    }
    assert(lines(rest@) =~= Seq::<Seq<char>>::empty());
    assert(res.deep_view() + lines(rest@) =~= res.deep_view());
    res
}


/// UTF-8 length grows strictly with the prefix taken.
pub proof fn lemma_utf8_len_strict(s: Seq<char>, k1: int, k2: int)
    requires
        0 <= k1 < k2 <= s.len(),
    ensures
        utf8_len(s.take(k1)) < utf8_len(s.take(k2)),
    decreases k2 - k1,
{
    lemma_utf8_len_take(s, k2 - 1);
    if k1 < k2 - 1 {
        lemma_utf8_len_strict(s, k1, k2 - 1);
    }
}

/// `char::len_utf8`.
fn char_width(c: char) -> (res: u128)
    ensures
        res == utf8_width(c),
{
    let u = c as u32;
    if u < 0x80 {
        1
    } else if u < 0x800 {
        2
    } else if u < 0x10000 {
        3
    } else {
        4
    }
}

/// The UTF-8 length of `v[..k]`.
pub fn utf8_len_prefix(v: &[char], k: usize) -> (res: u128)
    requires
        k <= v@.len(),
    ensures
        res == utf8_len(v@.take(k as int)),
        res <= 4 * k,
{
    proof {
        lemma_utf8_len_bound(v@.take(k as int));
    }
    let mut acc: u128 = 0;
    let mut i: usize = 0;
    assert(v@.take(0) =~= Seq::<char>::empty());
    while i < k
        invariant
            i <= k <= v@.len(),
            acc == utf8_len(v@.take(i as int)),
        decreases k - i,
    {
        proof {
            lemma_utf8_len_take(v@, i as int);
            lemma_utf8_len_bound(v@.take(i as int));
        }
        acc = acc + char_width(v[i]);
        i = i + 1;
    }
    acc
}

/// The character index at which byte offset `b` falls in `v`, when `b` is a
/// character boundary of `v`.
pub fn char_index_at_byte(v: &[char], b: u128) -> (res: Option<usize>)
    ensures
        match res {
            Some(k) => char_index_of_byte(v@, b as int) == Some(k as int),
            None => char_index_of_byte(v@, b as int) is None,
        },
{
    let n = v.len();
    let mut acc: u128 = 0;
    let mut k: usize = 0;
    assert(v@.take(0) =~= Seq::<char>::empty());
    while k < n && acc < b
        invariant
            n == v@.len(),
            k <= n,
            acc == utf8_len(v@.take(k as int)),
            forall|j: int| 0 <= j < k ==> utf8_len(v@.take(j)) < b,
        decreases n - k,
    {
        proof {
            lemma_utf8_len_take(v@, k as int);
            lemma_utf8_len_bound(v@.take(k as int));
        }
        acc = acc + char_width(v[k]);
        k = k + 1;
    }
    if acc == b {
        proof {
            let w = choose|j: int| 0 <= j <= v@.len() && utf8_len(v@.take(j)) == b;
            if w < k {
                lemma_utf8_len_strict(v@, w, k as int);
            } else if w > k {
                lemma_utf8_len_strict(v@, k as int, w);
            }
        }
        Some(k)
    } else {
        proof {
            assert forall|j: int| 0 <= j <= v@.len() implies utf8_len(v@.take(j)) != b by {
                if j > k {
                    lemma_utf8_len_strict(v@, k as int, j);
                }
            }
        }
        None
    }
}

/// The `i`th of a list of lines.
pub fn line_at(ls: &Vec<Vec<char>>, i: usize) -> (res: Vec<char>)
    requires
        i < ls.deep_view().len(),
    ensures
        res@ == ls.deep_view()[i as int],
{
    assert(ls@[i as int].deep_view() =~= ls@[i as int]@);
    vstd::slice::slice_to_vec(ls[i].as_slice())
}


/// A digit string's value is at least that of any of its prefixes.
pub proof fn lemma_digits_value_prefix(s: Seq<char>, j: int)
    requires
        0 <= j <= s.len(),
    ensures
        digits_value(s.take(j)) <= digits_value(s),
    decreases s.len(),
{
    if j < s.len() {
        lemma_digits_value_prefix(s.drop_last(), j);
        assert(s.drop_last().take(j) =~= s.take(j));
    } else {
        assert(s.take(j) =~= s);
    }
}

/// `str::parse::<u32>`.
pub fn parse_u32_chars(s: &[char]) -> (res: Option<u32>)
    ensures
        res == parse_u32(s@),
{
    let d: &[char] = if s.len() > 0 && s[0] == '+' {
        vstd::slice::slice_subrange(s, 1, s.len())
    } else {
        s
    };
    assert(d@ =~= unsigned_part(s@));
    let n = d.len();
    if n == 0 {
        return None;
    }
    let mut acc: u64 = 0;
    let mut i: usize = 0;
    assert(d@.take(0) =~= Seq::<char>::empty());
    while i < n
        invariant
            n == d@.len(),
            d@ == unsigned_part(s@),
            i <= n,
            acc == digits_value(d@.take(i as int)),
            acc <= u32::MAX,
            forall|k: int| 0 <= k < i ==> is_digit(#[trigger] d@[k]),
        decreases n - i,
    {
        let c = d[i];
        if !('0' <= c && c <= '9') {
            assert(!is_digit(d@[i as int]));
            return None;
        }
        let dv = ((c as u32) - ('0' as u32)) as u64;
        acc = acc * 10 + dv;
        i = i + 1;
        assert(d@.take(i as int).drop_last() =~= d@.take(i - 1));
        if acc > 0xffff_ffff {
            proof {
                if is_digit_string(d@) {
                    lemma_digits_value_prefix(d@, i as int);
                    assert(digits_value(d@) > u32::MAX);
                }
            }
            return None;
        }
    }
    assert(d@.take(n as int) =~= d@);
    Some(acc as u32)
}


/// The index of the first of `ls` that contains `key`.
pub fn find_line_with(ls: &Vec<Vec<char>>, key: &[char]) -> (res: Option<usize>)
    ensures
        match res {
            Some(i) => i < ls.deep_view().len() && first_line_with(ls.deep_view(), key@) == Some(
                ls.deep_view()[i as int],
            ),
            None => first_line_with(ls.deep_view(), key@) is None,
        },
{
    let ghost all = ls.deep_view();
    let n = ls.len();
    let mut i: usize = 0;
    assert(all.skip(0) =~= all);
    while i < n
        invariant
            n == all.len(),
            all == ls.deep_view(),
            i <= n,
            first_line_with(all, key@) == first_line_with(all.skip(i as int), key@),
        decreases n - i,
    {
        let line = line_at(ls, i);
        if contains_chars(&line, key) {
            assert(all.skip(i as int)[0] == all[i as int]);
            return Some(i);
        }
        assert(all.skip(i as int).drop_first() =~= all.skip(i + 1));
        i = i + 1;
    }
    assert(all.skip(i as int) =~= Seq::<Seq<char>>::empty());
    None
}

} // verus!
