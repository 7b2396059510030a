//! Removal of the ANSI colour sequences (`ESC [ ... m`) that the client prints.

use vstd::prelude::*;
use crate::text::{chars_of, string_of};

verus! {

/// The text that `s` shows once its colour sequences are removed. `inside` says
/// that an `ESC [` was read and its closing `'m'` not yet.
pub open spec fn strip_ansi_from(s: Seq<char>, inside: bool) -> Seq<char>
    decreases s.len(),
{
    if s.len() == 0 {
        Seq::empty()
    } else if inside {
        strip_ansi_from(s.drop_first(), s[0] != 'm')
    } else if s[0] == '\x1b' && s.len() >= 2 && s[1] == '[' {
        strip_ansi_from(s.skip(2), true)
    } else {
        seq![s[0]] + strip_ansi_from(s.drop_first(), false)
    }
}

/// `s` without its colour sequences: each `ESC [` is dropped together with what
/// follows it up to and including the next `'m'` (or to the end of the text).
pub open spec fn spec_strip_ansi(s: Seq<char>) -> Seq<char> {
    strip_ansi_from(s, false)
}

/// Removing sequences never lengthens the text.
pub proof fn lemma_strip_ansi_shorter(s: Seq<char>, inside: bool)
    ensures
        strip_ansi_from(s, inside).len() <= s.len(),
    decreases s.len(),
{
    if s.len() > 0 {
        if inside {
            lemma_strip_ansi_shorter(s.drop_first(), s[0] != 'm');
        } else if s[0] == '\x1b' && s.len() >= 2 && s[1] == '[' {
            lemma_strip_ansi_shorter(s.skip(2), true);
        } else {
            lemma_strip_ansi_shorter(s.drop_first(), false);
        }
    }
}

/// Text without an escape character is left as it is.
pub proof fn lemma_strip_ansi_plain(s: Seq<char>)
    requires
        !s.contains('\x1b'),
    ensures
        spec_strip_ansi(s) == s,
    decreases s.len(),
{
    if s.len() > 0 {
        assert(s[0] != '\x1b');
        assert(!s.drop_first().contains('\x1b')) by {
            if s.drop_first().contains('\x1b') {
                let k = choose|k: int| 0 <= k < s.drop_first().len() && s.drop_first()[k] == '\x1b';
                assert(s[k + 1] == '\x1b');
            }
        }
        lemma_strip_ansi_plain(s.drop_first());
        assert(s =~= seq![s[0]] + s.drop_first());
    }
}

/// A colour sequence `ESC [ p m` (no `'m'` in `p`) disappears, and what follows
/// it is stripped on its own.
pub proof fn law_strip_sequence(p: Seq<char>, rest: Seq<char>)
    requires
        !p.contains('m'),
    ensures
        spec_strip_ansi(seq!['\x1b', '['] + p + seq!['m'] + rest) == spec_strip_ansi(rest),
{
    let s = seq!['\x1b', '['] + p + seq!['m'] + rest;
    assert(s.skip(2) =~= p + seq!['m'] + rest);
    lemma_strip_inside(p, rest);
}

/// Inside a sequence, everything up to and including the first `'m'` goes.
proof fn lemma_strip_inside(p: Seq<char>, rest: Seq<char>)
    requires
        !p.contains('m'),
    ensures
        strip_ansi_from(p + seq!['m'] + rest, true) == strip_ansi_from(rest, false),
    decreases p.len(),
{
    let s = p + seq!['m'] + rest;
    if p.len() == 0 {
        assert(s.drop_first() =~= rest);
    } else {
        assert(p[0] != 'm');
        assert(!p.drop_first().contains('m')) by {
            if p.drop_first().contains('m') {
                let k = choose|k: int| 0 <= k < p.drop_first().len() && p.drop_first()[k] == 'm';
                assert(p[k + 1] == 'm');
            }
        }
        assert(s.drop_first() =~= p.drop_first() + seq!['m'] + rest);
        lemma_strip_inside(p.drop_first(), rest);
    }
}

/// A character that does not open a sequence is kept, in front of the rest
/// stripped on its own.
pub proof fn law_strip_keeps_char(c: char, rest: Seq<char>)
    requires
        c != '\x1b' || rest.len() == 0 || rest[0] != '[',
    ensures
        spec_strip_ansi(seq![c] + rest) == seq![c] + spec_strip_ansi(rest),
{
    assert((seq![c] + rest).drop_first() =~= rest);
}

/// Removes ANSI colour sequences from the client's output.
pub fn strip_ansi(s: &str) -> (res: String)
    ensures
        res@ == spec_strip_ansi(s@),
        res@.len() <= s@.len(),
        !s@.contains('\x1b') ==> res@ == s@,
{
    let v = chars_of(s);
    let n = v.len();
    let mut out: Vec<char> = Vec::new();
    let mut inside = false;
    let mut i: usize = 0;
    assert(v@.skip(0) =~= v@);
    assert(out@ + strip_ansi_from(v@, false) =~= strip_ansi_from(v@, false));
    while i < n
        invariant
            n == v@.len(),
            i <= n,
            spec_strip_ansi(v@) == out@ + strip_ansi_from(v@.skip(i as int), inside),
        decreases n - i,
    {
        let ghost rest = v@.skip(i as int);
        let c = v[i];
        if inside {
            inside = c != 'm';
            i = i + 1;
            assert(rest.drop_first() =~= v@.skip(i as int));
        } else if c == '\x1b' && i + 1 < n && v[i + 1] == '[' {
            inside = true;
            i = i + 2;
            assert(rest.skip(2) =~= v@.skip(i as int));
        } else {
            let ghost old_out = out@;
            out.push(c);
            i = i + 1;
            assert(rest.drop_first() =~= v@.skip(i as int));
            assert(old_out + (seq![c] + strip_ansi_from(v@.skip(i as int), false)) =~= out@
                + strip_ansi_from(v@.skip(i as int), false));
        }
    }
    assert(v@.skip(i as int) =~= Seq::<char>::empty());
    assert(out@ + Seq::<char>::empty() =~= out@);
    proof {
        lemma_strip_ansi_shorter(s@, false);
        if !s@.contains('\x1b') {
            lemma_strip_ansi_plain(s@);
        }
    }
    string_of(&out)
}

} // verus!
