//! The reply of `adguardvpn-cli license`.

use vstd::prelude::*;
use crate::ansi::{spec_strip_ansi, strip_ansi};
use crate::text::{
    after_first, after_first_chars, chars_of, contains, contains_chars, find_line_with,
    first_line_with, first_word, first_word_chars, line_at, lines, lines_of, lowercase,
    str_to_lowercase, string_of, trim, trim_chars, lemma_first_line_with_at, is_space_char,
    lemma_contains_prefix, lemma_find_from_at, lemma_trim_space_before,
};
use crate::types::{LicenseInfo, LicenseInfoView};

verus! {

/// The output, lowercased, asks the user to log in.
pub open spec fn asks_to_log_in(clean: Seq<char>) -> bool {
    let lo = str_to_lowercase(clean);
    contains(lo, "not logged in"@) || contains(lo, "log in"@)
}

/// What follows `key` on the first line that holds it, trimmed.
pub open spec fn text_after_key(ls: Seq<Seq<char>>, key: Seq<char>) -> Option<Seq<char>> {
    match first_line_with(ls, key) {
        Some(l) => match after_first(l, key) {
            Some(r) => Some(trim(r)),
            None => None,
        },
        None => None,
    }
}

/// The plan named on the first line that says "You are using".
pub open spec fn plan_of(ls: Seq<Seq<char>>) -> Option<Seq<char>> {
    match first_line_with(ls, "You are using"@) {
        Some(l) => if contains(l, "PREMIUM"@) || contains(l, "premium"@) {
            Some("PREMIUM"@)
        } else {
            Some("FREE"@)
        },
        None => None,
    }
}

/// The licence that the output of `adguardvpn-cli license` describes.
pub open spec fn spec_parse_license(output: Seq<char>) -> LicenseInfoView {
    let clean = spec_strip_ansi(output);
    let ls = lines(clean);
    if asks_to_log_in(clean) {
        LicenseInfoView {
            logged_in: false,
            email: None,
            plan: None,
            devices: None,
            valid_until: None,
        }
    } else {
        LicenseInfoView {
            logged_in: true,
            email: text_after_key(ls, "Logged in as"@),
            plan: plan_of(ls),
            devices: match text_after_key(ls, "Up to"@) {
                Some(r) => Some(first_word(r)),
                None => None,
            },
            valid_until: text_after_key(ls, "valid until"@),
        }
    }
}

/// A licence read while logged out carries no account details, and a plan, when
/// there is one, is "PREMIUM" or "FREE".
pub proof fn law_license_shape(output: Seq<char>)
    ensures
        !spec_parse_license(output).logged_in ==> {
            let l = spec_parse_license(output);
            l.email is None && l.plan is None && l.devices is None && l.valid_until is None
        },
        spec_parse_license(output).plan matches Some(p) ==> p == "PREMIUM"@ || p == "FREE"@,
{
}

/// Logged in, the plan is "PREMIUM" when the first line that says "You are
/// using" holds "PREMIUM" or "premium", and "FREE" when it holds neither; with
/// no such line there is no plan.
pub proof fn law_license_plan(output: Seq<char>, i: int)
    requires
        ({
            let lo = str_to_lowercase(spec_strip_ansi(output));
            !contains(lo, "not logged in"@) && !contains(lo, "log in"@)
        }),
        0 <= i < lines(spec_strip_ansi(output)).len(),
        contains(lines(spec_strip_ansi(output))[i], "You are using"@),
        forall|j: int|
            0 <= j < i ==> !contains(
                #[trigger] lines(spec_strip_ansi(output))[j],
                "You are using"@,
            ),
    ensures
        spec_parse_license(output).logged_in,
        contains(lines(spec_strip_ansi(output))[i], "PREMIUM"@) ==> spec_parse_license(output).plan
            == Some("PREMIUM"@),
        contains(lines(spec_strip_ansi(output))[i], "premium"@) ==> spec_parse_license(output).plan
            == Some("PREMIUM"@),
        !contains(lines(spec_strip_ansi(output))[i], "PREMIUM"@) && !contains(
            lines(spec_strip_ansi(output))[i],
            "premium"@,
        ) ==> spec_parse_license(output).plan == Some("FREE"@),
{
    lemma_first_line_with_at(lines(spec_strip_ansi(output)), "You are using"@, i);
}

/// Logged in, with no line that says "You are using", there is no plan.
pub proof fn law_license_no_plan(output: Seq<char>)
    requires
        ({
            let lo = str_to_lowercase(spec_strip_ansi(output));
            !contains(lo, "not logged in"@) && !contains(lo, "log in"@)
        }),
        forall|j: int|
            0 <= j < lines(spec_strip_ansi(output)).len() ==> !contains(
                #[trigger] lines(spec_strip_ansi(output))[j],
                "You are using"@,
            ),
    ensures
        spec_parse_license(output).logged_in,
        spec_parse_license(output).plan is None,
{
    crate::text::lemma_no_line_with(lines(spec_strip_ansi(output)), "You are using"@);
}

/// When the lowercased output says "not logged in" or "log in", the licence is
/// the logged-out one.
pub proof fn law_license_logged_out(output: Seq<char>)
    requires
        ({
            let lo = str_to_lowercase(spec_strip_ansi(output));
            contains(lo, "not logged in"@) || contains(lo, "log in"@)
        }),
    ensures
        !spec_parse_license(output).logged_in,
        spec_parse_license(output).email is None,
        spec_parse_license(output).plan is None,
{
}

/// Logged in, a line `key v` (`v` trimmed and non-empty), the first that holds
/// `key`, gives the e-mail as `v` for "Logged in as", the expiry as `v` for
/// "valid until", and the device count as the first word of `v` for "Up to".
pub proof fn law_license_fields(output: Seq<char>, key: Seq<char>, i: int, v: Seq<char>)
    requires
        ({
            let lo = str_to_lowercase(spec_strip_ansi(output));
            !contains(lo, "not logged in"@) && !contains(lo, "log in"@)
        }),
        0 <= i < lines(spec_strip_ansi(output)).len(),
        lines(spec_strip_ansi(output))[i] == key + seq![' '] + v,
        forall|j: int|
            0 <= j < i ==> !contains(#[trigger] lines(spec_strip_ansi(output))[j], key),
        v.len() > 0,
        !is_space_char(v[0]),
        !is_space_char(v.last()),
    ensures
        key == "Logged in as"@ ==> spec_parse_license(output).email == Some(v),
        key == "valid until"@ ==> spec_parse_license(output).valid_until == Some(v),
        key == "Up to"@ ==> spec_parse_license(output).devices == Some(first_word(v)),
{
    let ls = lines(spec_strip_ansi(output));
    let line = key + seq![' '] + v;
    lemma_contains_prefix(key, seq![' '] + v);
    assert(key + (seq![' '] + v) =~= line);
    lemma_first_line_with_at(ls, key, i);
    assert(line.subrange(0, key.len() as int) =~= key);
    lemma_find_from_at(line, key, 0, 0);
    assert(line.skip(key.len() as int) =~= seq![' '] + v);
    lemma_trim_space_before(v);
    assert(text_after_key(ls, key) == Some(v));
}

/// What follows `key` on the first of `ls` that holds it, trimmed.
fn text_after_key_exec(ls: &Vec<Vec<char>>, key: &str) -> (res: Option<Vec<char>>)
    ensures
        match res {
            Some(r) => text_after_key(ls.deep_view(), key@) == Some(r@),
            None => text_after_key(ls.deep_view(), key@) is None,
        },
{
    let k = chars_of(key);
    match find_line_with(ls, &k) {
        Some(i) => {
            let line = line_at(ls, i);
            match after_first_chars(&line, &k) {
                Some(r) => Some(trim_chars(&r)),
                None => None,
            }
        },
        None => None,
    }
}

/// An optional text as an optional `String`.
fn opt_string(o: Option<Vec<char>>) -> (res: Option<String>)
    ensures
        match o {
            Some(v) => res matches Some(s) && s@ == v@,
            None => res is None,
        },
{
    match o {
        Some(v) => Some(string_of(&v)),
        None => None,
    }
}

/// Reads the licence from the output of `adguardvpn-cli license`.
pub fn parse_license(output: &str) -> (res: LicenseInfo)
    ensures
        res@ == spec_parse_license(output@),
{
    let clean_s = strip_ansi(output);
    let clean = chars_of(clean_s.as_str());
    let lower = lowercase(&clean);
    if contains_chars(&lower, &chars_of("not logged in")) || contains_chars(
        &lower,
        &chars_of("log in"),
    ) {
        return LicenseInfo {
            logged_in: false,
            email: None,
            plan: None,
            devices: None,
            valid_until: None,
        };
    }
    let ls = lines_of(&clean);
    let email = opt_string(text_after_key_exec(&ls, "Logged in as"));
    let using = chars_of("You are using");
    let plan = match find_line_with(&ls, &using) {
        Some(i) => {
            let line = line_at(&ls, i);
            if contains_chars(&line, &chars_of("PREMIUM")) || contains_chars(
                &line,
                &chars_of("premium"),
            ) {
                Some(string_of(&chars_of("PREMIUM")))
            } else {
                Some(string_of(&chars_of("FREE")))
            }
        },
        None => None,
    };
    let devices = match text_after_key_exec(&ls, "Up to") {
        Some(r) => Some(string_of(&first_word_chars(&r))),
        None => None,
    };
    let valid_until = opt_string(text_after_key_exec(&ls, "valid until"));
    LicenseInfo { logged_in: true, email, plan, devices, valid_until }
}

} // verus!
