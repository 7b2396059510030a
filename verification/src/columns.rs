//! Splitting a table row into columns at runs of two or more spaces.

use vstd::prelude::*;
use crate::text::{
    chars_of, is_space_char, skip_space_from, string_of, trailing_space_cut, trim, trim_chars,
};

verus! {

/// The end of the run of spaces in `s` that goes on at `i`: the first index at
/// or after `i` that does not hold a space, or `s.len()`.
pub open spec fn space_run_end(s: Seq<char>, i: int) -> int
    decreases s.len() - i,
{
    if i < 0 || i >= s.len() || s[i] != ' ' {
        if i < 0 {
            0
        } else if i > s.len() {
            s.len() as int
        } else {
            i
        }
    } else {
        space_run_end(s, i + 1)
    }
}

/// The first gap of `s` at or after `i`: a maximal run `s[a..b]` of two or more
/// spaces after which the line goes on (`b < s.len()`). `i` is `0` or follows a
/// character other than a space.
pub open spec fn next_gap(s: Seq<char>, i: int) -> Option<(int, int)>
    decreases s.len() - i,
{
    if i < 0 || i >= s.len() {
        None
    } else if s[i] == ' ' {
        let e = space_run_end(s, i);
        if e - i >= 2 && e < s.len() {
            Some((i, e))
        } else if i < e <= s.len() {
            next_gap(s, e)
        } else {
            None
        }
    } else {
        next_gap(s, i + 1)
    }
}

/// The one-element sequence of `t`, or nothing when `t` is empty.
pub open spec fn keep_nonempty(t: Seq<char>) -> Seq<Seq<char>> {
    if t.len() > 0 {
        seq![t]
    } else {
        Seq::empty()
    }
}

/// The columns of a line: the pieces between its gaps, trimmed, empty ones left out.
pub open spec fn columns(s: Seq<char>) -> Seq<Seq<char>>
    decreases s.len(),
{
    match next_gap(s, 0) {
        Some(g) => if 0 <= g.0 < g.1 <= s.len() {
            keep_nonempty(trim(s.take(g.0))) + columns(s.skip(g.1))
        } else {
            keep_nonempty(trim(s))
        },
        None => keep_nonempty(trim(s)),
    }
}

/// Two spaces side by side at `k`.
pub open spec fn double_space_at(s: Seq<char>, k: int) -> bool {
    0 <= k && k + 1 < s.len() && s[k] == ' ' && s[k + 1] == ' '
}

/// A well-formed column: not empty, no whitespace at either end, and no two
/// spaces side by side.
pub open spec fn column_shaped(c: Seq<char>) -> bool {
    &&& c.len() > 0
    &&& !is_space_char(c[0])
    &&& !is_space_char(c.last())
    &&& forall|k: int| !double_space_at(c, k)
}

/// The run of spaces at `i` ends inside `s`, after `i`, and holds only spaces.
pub proof fn lemma_space_run_end(s: Seq<char>, i: int)
    requires
        0 <= i <= s.len(),
    ensures
        i <= space_run_end(s, i) <= s.len(),
        forall|k: int| i <= k < space_run_end(s, i) ==> s[k] == ' ',
        space_run_end(s, i) < s.len() ==> s[space_run_end(s, i)] != ' ',
    decreases s.len() - i,
{
    if i < s.len() && s[i] == ' ' {
        lemma_space_run_end(s, i + 1);
    }
}

/// A gap found at or after `i` is a run of at least two spaces inside the line,
/// followed by another character.
pub proof fn lemma_next_gap_bounds(s: Seq<char>, i: int)
    requires
        0 <= i,
    ensures
        next_gap(s, i) matches Some(g) ==> {
            &&& i <= g.0
            &&& g.0 + 2 <= g.1 < s.len()
            &&& forall|k: int| g.0 <= k < g.1 ==> s[k] == ' '
            &&& s[g.1] != ' '
        },
    decreases s.len() - i,
{
    if i < s.len() {
        if s[i] == ' ' {
            lemma_space_run_end(s, i);
            let e = space_run_end(s, i);
            if !(e - i >= 2 && e < s.len()) && e > i {
                lemma_next_gap_bounds(s, e);
            }
        } else {
            lemma_next_gap_bounds(s, i + 1);
        }
    }
}

/// Two spaces side by side at `k`, at or after `i` and before any gap found
/// from `i`, mean that there is no gap from `i` at all and that spaces run from
/// `k` to the end of the line.
pub proof fn lemma_no_gap_before(s: Seq<char>, i: int, k: int)
    requires
        0 <= i <= k,
        double_space_at(s, k),
        match next_gap(s, i) {
            Some(g) => k + 1 < g.0,
            None => true,
        },
    ensures
        next_gap(s, i) is None,
        forall|j: int| k <= j < s.len() ==> s[j] == ' ',
    decreases s.len() - i,
{
    if s[i] == ' ' {
        lemma_space_run_end(s, i);
        let e = space_run_end(s, i);
        if e - i >= 2 && e < s.len() {
            // the gap at `i` would have to start after `k + 1`
            assert(false);
        } else if k < e {
            // `k` lies in the run at `i`, which then reaches the end
            assert(e - i >= 2);
            assert(e == s.len());
            // no gap starts at the end of the line
            assert(next_gap(s, e) is None);
        } else {
            lemma_no_gap_before(s, e, k);
        }
    } else {
        lemma_no_gap_before(s, i + 1, k);
    }
}

/// `s.take(a)`, with `a` the start of the first gap, holds no two spaces side by side.
pub proof fn lemma_piece_before_gap(s: Seq<char>, a: int, b: int, k: int)
    requires
        next_gap(s, 0) == Some((a, b)),
    ensures
        !double_space_at(s.take(a), k),
{
    lemma_next_gap_bounds(s, 0);
    if double_space_at(s.take(a), k) {
        assert(double_space_at(s, k));
        lemma_no_gap_before(s, 0, k);
    }
}

/// A trimmed text holds whitespace neither at its start nor at its end, and it
/// is a piece of the text.
pub proof fn lemma_trim_shape(t: Seq<char>)
    ensures
        trim(t).len() > 0 ==> !is_space_char(trim(t)[0]) && !is_space_char(trim(t).last()),
        0 <= skip_space_from(t, 0) <= trailing_space_cut(t, skip_space_from(t, 0), t.len() as int)
            <= t.len(),
        trim(t) == t.subrange(
            skip_space_from(t, 0),
            trailing_space_cut(t, skip_space_from(t, 0), t.len() as int),
        ),
        forall|j: int|
            trailing_space_cut(t, skip_space_from(t, 0), t.len() as int) <= j < t.len()
                ==> is_space_char(#[trigger] t[j]),
{
    lemma_skip_space_from(t, 0);
    let a = skip_space_from(t, 0);
    lemma_trailing_space_cut(t, a, t.len() as int);
}

/// `skip_space_from` stays inside the text and stops at a non-whitespace character.
pub proof fn lemma_skip_space_from(s: Seq<char>, i: int)
    requires
        0 <= i <= s.len(),
    ensures
        i <= skip_space_from(s, i) <= s.len(),
        skip_space_from(s, i) < s.len() ==> !is_space_char(s[skip_space_from(s, i)]),
    decreases s.len() - i,
{
    if i < s.len() && is_space_char(s[i]) {
        lemma_skip_space_from(s, i + 1);
    }
}

/// `trailing_space_cut` lies between `lo` and `j`, after a non-whitespace
/// character (unless it is `lo`), with only whitespace from it to `j`.
pub proof fn lemma_trailing_space_cut(s: Seq<char>, lo: int, j: int)
    requires
        0 <= lo <= j <= s.len(),
        lo < s.len() ==> !is_space_char(s[lo]),
    ensures
        lo <= trailing_space_cut(s, lo, j) <= j,
        trailing_space_cut(s, lo, j) > lo ==> !is_space_char(s[trailing_space_cut(s, lo, j) - 1]),
        forall|m: int| trailing_space_cut(s, lo, j) <= m < j ==> is_space_char(#[trigger] s[m]),
    decreases j - lo,
{
    if j > lo && is_space_char(s[j - 1]) {
        lemma_trailing_space_cut(s, lo, j - 1);
    }
}

/// Every column is non-empty, has no whitespace at either end, and holds no two
/// spaces side by side: a column is never cut at a single space, and never holds
/// a gap.
pub proof fn lemma_columns_shape(s: Seq<char>)
    ensures
        forall|i: int| 0 <= i < columns(s).len() ==> column_shaped(#[trigger] columns(s)[i]),
    decreases s.len(),
{
    lemma_next_gap_bounds(s, 0);
    match next_gap(s, 0) {
        Some(g) => {
            let piece = s.take(g.0);
            lemma_trim_shape(piece);
            lemma_columns_shape(s.skip(g.1));
            assert forall|k: int| !double_space_at(trim(piece), k) by {
                if double_space_at(trim(piece), k) {
                    let a = skip_space_from(piece, 0);
                    assert(double_space_at(piece, a + k));
                    lemma_piece_before_gap(s, g.0, g.1, a + k);
                }
            }
            let head = keep_nonempty(trim(piece));
            let tail = columns(s.skip(g.1));
            assert(columns(s) == head + tail);
            assert forall|i: int| 0 <= i < columns(s).len() implies column_shaped(
                #[trigger] columns(s)[i],
            ) by {
                if i < head.len() {
                    assert(columns(s)[i] == trim(piece));
                } else {
                    assert(columns(s)[i] == tail[i - head.len()]);
                }
            }
        },
        None => {
            lemma_trim_shape(s);
            assert forall|k: int| !double_space_at(trim(s), k) by {
                if double_space_at(trim(s), k) {
                    let a = skip_space_from(s, 0);
                    let z = trailing_space_cut(s, a, s.len() as int);
                    assert(double_space_at(s, a + k));
                    lemma_no_gap_before(s, 0, a + k);
                    // the run at `a + k` reaches the end, yet `trim` keeps `a + k + 1`
                    assert(z > a);
                    assert(s[z - 1] == ' ');
                }
            }
        },
    }
}

/// A text whose first two characters are not whitespace has a first column, which starts with those two characters.
pub proof fn lemma_first_column_prefix(t: Seq<char>)
    requires
        t.len() >= 2,
        !is_space_char(t[0]),
        !is_space_char(t[1]),
    ensures
        columns(t).len() > 0,
        columns(t)[0].len() >= 2,
        columns(t)[0][0] == t[0],
        columns(t)[0][1] == t[1],
{
    lemma_next_gap_bounds(t, 0);
    let piece = match next_gap(t, 0) {
        Some(g) => t.take(g.0),
        None => t,
    };
    assert(piece.len() >= 2 && piece[0] == t[0] && piece[1] == t[1]);
    assert(skip_space_from(piece, 0) == 0);
    lemma_trailing_space_cut(piece, 0, piece.len() as int);
    let z = trailing_space_cut(piece, 0, piece.len() as int);
    assert(z >= 2);
    assert(trim(piece) == piece.subrange(0, z));
    match next_gap(t, 0) {
        Some(g) => {
            assert(columns(t) == keep_nonempty(trim(piece)) + columns(t.skip(g.1)));
            assert(columns(t)[0] == trim(piece));
        },
        None => {
            assert(columns(t)[0] == trim(piece));
        },
    }
}

/// Columns laid out on one line, two spaces apart.
pub open spec fn join_columns(cols: Seq<Seq<char>>) -> Seq<char>
    decreases cols.len(),
{
    if cols.len() == 0 {
        Seq::empty()
    } else if cols.len() == 1 {
        cols[0]
    } else {
        cols[0] + seq![' ', ' '] + join_columns(cols.drop_first())
    }
}

/// A text without whitespace at either end is its own trim.
pub proof fn lemma_trim_of_trimmed(c: Seq<char>)
    requires
        c.len() > 0,
        !is_space_char(c[0]),
        !is_space_char(c.last()),
    ensures
        trim(c) == c,
{
    assert(skip_space_from(c, 0) == 0);
    assert(trailing_space_cut(c, 0, c.len() as int) == c.len());
    assert(c.subrange(0, c.len() as int) =~= c);
}

/// Scanning for a gap passes over a stretch without two spaces side by side
/// that ends with a character other than a space.
pub proof fn lemma_next_gap_passes(s: Seq<char>, i: int, a: int)
    requires
        0 <= i <= a <= s.len(),
        a == i || s[a - 1] != ' ',
        forall|k: int| i <= k && k + 1 < a ==> !double_space_at(s, k),
    ensures
        next_gap(s, i) == next_gap(s, a),
    decreases a - i,
{
    if i < a {
        if s[i] == ' ' {
            assert(i + 1 < a);
            assert(!double_space_at(s, i));
            assert(space_run_end(s, i + 1) == i + 1);
            lemma_next_gap_passes(s, i + 1, a);
        } else {
            lemma_next_gap_passes(s, i + 1, a);
        }
    }
}

/// The columns laid out start the line.
pub proof fn lemma_join_columns_start(cols: Seq<Seq<char>>)
    requires
        cols.len() > 0,
    ensures
        join_columns(cols).len() >= cols[0].len(),
        join_columns(cols).take(cols[0].len() as int) == cols[0],
{
    if cols.len() > 1 {
        let j = cols[0] + seq![' ', ' '] + join_columns(cols.drop_first());
        assert(j.take(cols[0].len() as int) =~= cols[0]);
    }
}

/// Laying well-formed columns out two spaces apart and splitting the line gives
/// the columns back.
pub proof fn law_split_join_columns(cols: Seq<Seq<char>>)
    requires
        forall|i: int| 0 <= i < cols.len() ==> column_shaped(#[trigger] cols[i]),
    ensures
        columns(join_columns(cols)) == cols,
    decreases cols.len(),
{
    if cols.len() == 0 {
        let e = Seq::<char>::empty();
        assert(next_gap(e, 0) is None);
        assert(skip_space_from(e, 0) == 0);
        assert(trim(e) =~= e);
        assert(columns(e) =~= cols);
    } else if cols.len() == 1 {
        let c = cols[0];
        assert(column_shaped(c));
        lemma_next_gap_bounds(c, 0);
        if next_gap(c, 0) is Some {
            let g = next_gap(c, 0).unwrap();
            assert(double_space_at(c, g.0));
        }
        lemma_trim_of_trimmed(c);
        assert(columns(c) =~= cols);
    } else {
        let c = cols[0];
        let rest = cols.drop_first();
        assert forall|i: int| 0 <= i < rest.len() implies column_shaped(#[trigger] rest[i]) by {
            assert(rest[i] == cols[i + 1]);
        }
        law_split_join_columns(rest);
        lemma_join_columns_start(rest);
        assert(column_shaped(c));
        assert(column_shaped(rest[0]));
        let r = join_columns(rest);
        let s = c + seq![' ', ' '] + r;
        assert(s == join_columns(cols));
        let a = c.len() as int;
        assert(r[0] == rest[0][0]);
        assert(s[a] == ' ' && s[a + 1] == ' ' && s[a + 2] == r[0]);
        assert forall|k: int| 0 <= k && k + 1 < a implies !double_space_at(s, k) by {
            assert(!double_space_at(c, k));
        }
        lemma_next_gap_passes(s, 0, a);
        assert(space_run_end(s, a + 2) == a + 2);
        assert(space_run_end(s, a + 1) == a + 2);
        assert(space_run_end(s, a) == a + 2);
        assert(next_gap(s, 0) == Some((a, a + 2)));
        assert(s.take(a) =~= c);
        assert(s.skip(a + 2) =~= r);
        lemma_trim_of_trimmed(c);
        assert(columns(s) == seq![c] + rest);
        assert(seq![c] + rest =~= cols);
    }
}

/// The first gap of `v`, as `(a, b)` with `v[a..b]` the run of spaces.
fn find_gap(v: &[char]) -> (res: Option<(usize, usize)>)
    ensures
        match res {
            Some(g) => next_gap(v@, 0) == Some((g.0 as int, g.1 as int)),
            None => next_gap(v@, 0) is None,
        },
{
    let n = v.len();
    let mut i: usize = 0;
    while i < n
        invariant
            n == v@.len(),
            i <= n,
            next_gap(v@, 0) == next_gap(v@, i as int),
        decreases n - i,
    {
        if v[i] == ' ' {
            let mut e = i;
            while e < n && v[e] == ' '
                invariant
                    n == v@.len(),
                    i <= e <= n,
                    space_run_end(v@, i as int) == space_run_end(v@, e as int),
                decreases n - e,
            {
                e = e + 1;
            }
            proof {
                lemma_space_run_end(v@, i as int + 1);
            }
            if e - i >= 2 && e < n {
                return Some((i, e));
            }
            i = e;
        } else {
            i = i + 1;
        }
    }
    None
}

/// Splits a line into columns using runs of two or more spaces as delimiters.
/// A single space stays inside its column ("United Kingdom", "São Paulo").
pub fn split_columns(line: &str) -> (res: Vec<String>)
    ensures
        res.deep_view() == columns(line@),
        forall|i: int| 0 <= i < res@.len() ==> column_shaped(#[trigger] res@[i]@),
        (forall|k: int| !double_space_at(line@, k)) ==> res.deep_view() == keep_nonempty(
            trim(line@),
        ),
{
    let v = chars_of(line);
    let mut res: Vec<String> = Vec::new();
    let mut rest: &[char] = v.as_slice();
    assert(res.deep_view() + columns(rest@) =~= columns(v@));
    loop
        invariant_except_break
            columns(v@) == res.deep_view() + columns(rest@),
        ensures
            columns(v@) == res.deep_view(),
        decreases rest@.len(),
    {
        proof {
            lemma_next_gap_bounds(rest@, 0);
        }
        let ghost old_res = res.deep_view();
        let ghost old_rest = rest@;
        match find_gap(rest) {
            Some(g) => {
                let col = trim_chars(vstd::slice::slice_subrange(rest, 0, g.0));
                if col.len() > 0 {
                    res.push(string_of(&col));
                }
                rest = vstd::slice::slice_subrange(rest, g.1, rest.len());
                assert(res.deep_view() =~= old_res + keep_nonempty(trim(old_rest.take(g.0 as int))));
                assert(rest@ =~= old_rest.skip(g.1 as int));
            },
            None => {
                let col = trim_chars(rest);
                if col.len() > 0 {
                    res.push(string_of(&col));
                }
                assert(res.deep_view() =~= old_res + keep_nonempty(trim(old_rest)));
                assert(columns(v@) =~= res.deep_view());
                break;
            },
        }
    }
    proof {
        assert(v@ == line@);
        lemma_columns_shape(line@);
        assert forall|i: int| 0 <= i < res@.len() implies column_shaped(#[trigger] res@[i]@) by {
            assert(res.deep_view()[i] == res@[i]@);
            assert(res@[i]@ == columns(line@)[i]);
        }
        if forall|k: int| !double_space_at(line@, k) {
            lemma_next_gap_bounds(line@, 0);
            if next_gap(line@, 0) is Some {
                let g = next_gap(line@, 0).unwrap();
                assert(double_space_at(line@, g.0));
            }
        }
    }
    res
}

} // verus!
