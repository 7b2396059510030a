//! The reply of `adguardvpn-cli status`.

use vstd::prelude::*;
use crate::ansi::{spec_strip_ansi, strip_ansi};
use crate::text::{
    after_first, after_first_chars, char_index_at_byte, char_index_of_byte, chars_of,
    contains, contains_chars, find, find_chars, lines, lines_of, line_at, lowercase,
    str_to_lowercase, string_of, trim, trim_chars, utf8_len, utf8_len_prefix,
    lemma_find_from_bounds, lemma_find_from_before, is_space_char, lemma_utf8_len_ascii,
    lemma_utf8_len_append, lemma_char_index_of_byte_at,
};
use crate::types::{VpnStatus, VpnStatusView};

verus! {

/// The first line of a text, or the empty text.
pub open spec fn first_line(clean: Seq<char>) -> Seq<char> {
    if lines(clean).len() > 0 {
        lines(clean)[0]
    } else {
        Seq::empty()
    }
}

/// The first line, lowercased, says "connected" and not "disconnected".
pub open spec fn reports_connected(clean: Seq<char>) -> bool {
    let first = str_to_lowercase(first_line(clean));
    contains(first, "connected"@) && !contains(first, "disconnected"@)
}

/// The byte offset just after the first "connected to " of the lowercased text,
/// which the location is read from.
pub open spec fn location_start_byte(clean: Seq<char>) -> Option<int> {
    let lower = str_to_lowercase(clean);
    match find(lower, "connected to "@) {
        Some(q) => Some((utf8_len(lower.take(q)) + utf8_len("connected to "@)) as int),
        None => None,
    }
}

/// Where the location starts, counted in characters of the text itself;
/// `None` when the text says no "connected to " or the offset does not fall on
/// one of its character boundaries.
pub open spec fn location_start(clean: Seq<char>) -> Option<int> {
    match location_start_byte(clean) {
        Some(b) => char_index_of_byte(clean, b),
        None => None,
    }
}

/// Reading the location cuts the text at a character boundary (or there is no
/// location to read).
pub open spec fn location_cut_ok(clean: Seq<char>) -> bool {
    location_start_byte(clean) is Some ==> location_start(clean) is Some
}

/// The rest of the line that the location starts on, trimmed.
pub open spec fn status_location(clean: Seq<char>) -> Option<Seq<char>> {
    match location_start(clean) {
        Some(k) => {
            let rest = clean.skip(k);
            let end = match find(rest, seq!['\n']) {
                Some(e) => e,
                None => rest.len() as int,
            };
            Some(trim(rest.take(end)))
        },
        None => None,
    }
}

/// A line that, lowercased, speaks of an IP address.
pub open spec fn is_ip_line(l: Seq<char>) -> bool {
    let lo = str_to_lowercase(l);
    contains(lo, "outbound ip"@) || contains(lo, "ip address"@) || contains(lo, "ip:"@)
}

/// The first of `ls` that speaks of an IP address.
pub open spec fn first_ip_line(ls: Seq<Seq<char>>) -> Option<Seq<char>>
    decreases ls.len(),
{
    if ls.len() == 0 {
        None
    } else if is_ip_line(ls[0]) {
        Some(ls[0])
    } else {
        first_ip_line(ls.drop_first())
    }
}

/// What follows the first `':'` of the first IP line, trimmed.
pub open spec fn status_ip(clean: Seq<char>) -> Option<Seq<char>> {
    match first_ip_line(lines(clean)) {
        Some(l) => match after_first(l, seq![':']) {
            Some(r) => Some(trim(r)),
            None => None,
        },
        None => None,
    }
}

/// The status that the output of `adguardvpn-cli status` reports.
pub open spec fn spec_parse_status(output: Seq<char>) -> VpnStatusView {
    let clean = spec_strip_ansi(output);
    if reports_connected(clean) {
        VpnStatusView { connected: true, location: status_location(clean), ip: status_ip(clean) }
    } else {
        VpnStatusView { connected: false, location: None, ip: None }
    }
}

/// The output can be read without cutting inside a character.
pub open spec fn status_readable(output: Seq<char>) -> bool {
    let clean = spec_strip_ansi(output);
    reports_connected(clean) ==> location_cut_ok(clean)
}

/// A status whose first line says "disconnected" (in any case) is never
/// connected, and then carries neither location nor IP address; nor does any
/// status that is not connected.
pub proof fn law_disconnected_status(output: Seq<char>)
    ensures
        contains(str_to_lowercase(first_line(spec_strip_ansi(output))), "disconnected"@)
            ==> !spec_parse_status(output).connected,
        !spec_parse_status(output).connected ==> spec_parse_status(output).location is None
            && spec_parse_status(output).ip is None,
{
}

/// Of a connected status, the IP address is read from the first line whose
/// lowercased text holds "outbound ip", "ip address" or "ip:" (whatever the
/// case of the line itself): what follows its first `':'`, trimmed.
pub proof fn law_status_ip(output: Seq<char>, i: int, key: Seq<char>, rest: Seq<char>)
    requires
        reports_connected(spec_strip_ansi(output)),
        0 <= i < lines(spec_strip_ansi(output)).len(),
        lines(spec_strip_ansi(output))[i] == key + seq![':'] + rest,
        !key.contains(':'),
        ({
            let lo = str_to_lowercase(lines(spec_strip_ansi(output))[i]);
            contains(lo, "outbound ip"@) || contains(lo, "ip address"@) || contains(lo, "ip:"@)
        }),
        forall|j: int|
            0 <= j < i ==> {
                let lo = str_to_lowercase(#[trigger] lines(spec_strip_ansi(output))[j]);
                !contains(lo, "outbound ip"@) && !contains(lo, "ip address"@) && !contains(
                    lo,
                    "ip:"@,
                )
            },
    ensures
        spec_parse_status(output).connected,
        spec_parse_status(output).ip == Some(trim(rest)),
{
    let ls = lines(spec_strip_ansi(output));
    lemma_first_ip_line_at(ls, i);
    crate::text::lemma_after_first_char(key, ':', rest);
}

/// A status is connected exactly when its first line, lowercased, says
/// "connected" and not "disconnected".
pub proof fn law_status_connected(output: Seq<char>)
    ensures
        spec_parse_status(output).connected == ({
            let ls = lines(spec_strip_ansi(output));
            let lo = str_to_lowercase(
                if ls.len() > 0 {
                    ls[0]
                } else {
                    Seq::empty()
                },
            );
            contains(lo, "connected"@) && !contains(lo, "disconnected"@)
        }),
{
}

/// A location holds no line break and no whitespace at either end.
pub proof fn law_location_shape(output: Seq<char>)
    ensures
        spec_parse_status(output).location matches Some(x) ==> {
            &&& !x.contains('\n')
            &&& x.len() > 0 ==> !is_space_char(x[0]) && !is_space_char(x.last())
        },
{
    let clean = spec_strip_ansi(output);
    if reports_connected(clean) && location_start(clean) is Some {
        let k = location_start(clean).unwrap();
        let rest = clean.skip(k);
        let end = match find(rest, seq!['\n']) {
            Some(e) => e,
            None => rest.len() as int,
        };
        lemma_find_from_bounds(rest, seq!['\n'], 0);
        let t = rest.take(end);
        assert forall|j: int| 0 <= j < t.len() implies t[j] != '\n' by {
            lemma_find_from_before(rest, seq!['\n'], 0, j);
            if t[j] == '\n' {
                assert(rest.subrange(j, j + 1) =~= seq!['\n']);
            }
        }
        crate::columns::lemma_trim_shape(t);
        let x = trim(t);
        assert forall|j: int| 0 <= j < x.len() implies x[j] != '\n' by {
            assert(x[j] == t[j + crate::text::skip_space_from(t, 0)]);
        }
    }
}

/// Where lowercasing keeps the text before "connected to " the same length in
/// bytes and the marker itself is ASCII in the output, the location is what
/// follows the marker up to the line's end, trimmed.
pub proof fn law_status_location(output: Seq<char>, q: int, line: Seq<char>, more: Option<Seq<char>>)
    requires
        reports_connected(spec_strip_ansi(output)),
        find(str_to_lowercase(spec_strip_ansi(output)), "connected to "@) == Some(q),
        q + 13 <= spec_strip_ansi(output).len(),
        utf8_len(str_to_lowercase(spec_strip_ansi(output)).take(q)) == utf8_len(
            spec_strip_ansi(output).take(q),
        ),
        forall|j: int| q <= j < q + 13 ==> (#[trigger] spec_strip_ansi(output)[j] as u32) < 0x80,
        !line.contains('\n'),
        spec_strip_ansi(output).skip(q + 13) == match more {
            Some(m) => line + seq!['\n'] + m,
            None => line,
        },
    ensures
        spec_parse_status(output).location == Some(trim(line)),
{
    let clean = spec_strip_ansi(output);
    lemma_find_from_bounds(str_to_lowercase(clean), "connected to "@, 0);
    reveal_strlit("connected to ");
    let marker = "connected to "@;
    assert(marker.len() == 13);
    assert forall|i: int| 0 <= i < marker.len() implies (#[trigger] marker[i] as u32) < 0x80 by {}
    lemma_utf8_len_ascii(marker);
    let mid = clean.subrange(q, q + 13);
    assert forall|i: int| 0 <= i < mid.len() implies (#[trigger] mid[i] as u32) < 0x80 by {
        assert(mid[i] == clean[q + i]);
    }
    lemma_utf8_len_ascii(mid);
    assert(clean.take(q + 13) =~= clean.take(q) + mid);
    lemma_utf8_len_append(clean.take(q), mid);
    lemma_char_index_of_byte_at(clean, q + 13);
    assert(location_start(clean) == Some(q + 13));
    let rest = clean.skip(q + 13);
    match more {
        Some(m) => {
            let s = line + seq!['\n'] + m;
            assert forall|j: int| 0 <= j < line.len() implies !crate::text::occurs_at(
                s,
                seq!['\n'],
                j,
            ) by {
                if crate::text::occurs_at(s, seq!['\n'], j) {
                    assert(s.subrange(j, j + 1)[0] == line[j]);
                }
            }
            assert(s.subrange(line.len() as int, line.len() + 1int) =~= seq!['\n']);
            crate::text::lemma_find_from_at(s, seq!['\n'], 0, line.len() as int);
            assert(s.take(line.len() as int) =~= line);
        },
        None => {
            lemma_find_from_bounds(line, seq!['\n'], 0);
            if find(line, seq!['\n']) is Some {
                let e = find(line, seq!['\n']).unwrap();
                assert(line.subrange(e, e + 1)[0] == line[e]);
            }
            assert(line.take(line.len() as int) =~= line);
        },
    }
}

/// The first IP line is the one at `i` when no line before it is one.
proof fn lemma_first_ip_line_at(ls: Seq<Seq<char>>, i: int)
    requires
        0 <= i < ls.len(),
        is_ip_line(ls[i]),
        forall|j: int| 0 <= j < i ==> !is_ip_line(#[trigger] ls[j]),
    ensures
        first_ip_line(ls) == Some(ls[i]),
    decreases i,
{
    if i > 0 {
        let t = ls.drop_first();
        assert(!is_ip_line(ls[0]));
        assert forall|j: int| 0 <= j < i - 1 implies !is_ip_line(#[trigger] t[j]) by {
            assert(t[j] == ls[j + 1]);
        }
        lemma_first_ip_line_at(t, i - 1);
    }
}

/// Whether the first line reports a connection.
fn reports_connected_exec(ls: &Vec<Vec<char>>) -> (res: bool)
    ensures
        res == {
            let first = str_to_lowercase(
                if ls.deep_view().len() > 0 {
                    ls.deep_view()[0]
                } else {
                    Seq::empty()
                },
            );
            contains(first, "connected"@) && !contains(first, "disconnected"@)
        },
{
    let first: Vec<char> = if ls.len() > 0 {
        line_at(ls, 0)
    } else {
        Vec::new()
    };
    let lower = lowercase(&first);
    contains_chars(&lower, &chars_of("connected")) && !contains_chars(
        &lower,
        &chars_of("disconnected"),
    )
}

/// Where the location starts in `clean`: `Err` where the byte offset falls
/// inside a character, `Ok(None)` where the text says no "connected to ".
fn find_location_start(clean: &[char]) -> (res: Result<Option<usize>, ()>)
    ensures
        match res {
            Ok(Some(k)) => location_start(clean@) == Some(k as int),
            Ok(None) => location_start_byte(clean@) is None,
            Err(_) => !location_cut_ok(clean@),
        },
{
    let lower = lowercase(clean);
    let marker = chars_of("connected to ");
    match find_chars(&lower, &marker) {
        Some(q) => {
            proof {
                lemma_find_from_bounds(lower@, marker@, 0);
            }
            let start = utf8_len_prefix(&lower, q) + utf8_len_prefix(&marker, marker.len());
            proof {
                assert(marker@.take(marker@.len() as int) =~= marker@);
            }
            match char_index_at_byte(clean, start) {
                Some(k) => Ok(Some(k)),
                None => Err(()),
            }
        },
        None => Ok(None),
    }
}

/// The first line of `ls` that speaks of an IP address, by its index.
fn find_ip_line(ls: &Vec<Vec<char>>) -> (res: Option<usize>)
    ensures
        match res {
            Some(i) => i < ls.deep_view().len() && first_ip_line(ls.deep_view()) == Some(
                ls.deep_view()[i as int],
            ),
            None => first_ip_line(ls.deep_view()) is None,
        },
{
    let ghost all = ls.deep_view();
    let n = ls.len();
    let mut i: usize = 0;
    assert(all.skip(0) =~= all);
    while i < n
        invariant
            n == all.len(),
            all == ls.deep_view(),
            i <= n,
            first_ip_line(all) == first_ip_line(all.skip(i as int)),
        decreases n - i,
    {
        let line = line_at(ls, i);
        let lo = lowercase(&line);
        if contains_chars(&lo, &chars_of("outbound ip")) || contains_chars(
            &lo,
            &chars_of("ip address"),
        ) || contains_chars(&lo, &chars_of("ip:")) {
            assert(all.skip(i as int)[0] == all[i as int]);
            return Some(i);
        }
        assert(all.skip(i as int).drop_first() =~= all.skip(i + 1));
        i = i + 1;
    }
    assert(all.skip(i as int) =~= Seq::<Seq<char>>::empty());
    None
}

/// Reads the status from the output of `adguardvpn-cli status`.
pub fn parse_status(output: &str) -> (res: VpnStatus)
    requires
        status_readable(output@),
    ensures
        res@ == spec_parse_status(output@),
{
    let clean_s = strip_ansi(output);
    let clean = chars_of(clean_s.as_str());
    let ls = lines_of(&clean);
    if reports_connected_exec(&ls) {
        let location = match find_location_start(&clean) {
            Ok(Some(k)) => {
                let rest = vstd::slice::slice_subrange(clean.as_slice(), k, clean.len());
                let nl = ['\n'];
                let nl: &[char] = &nl;
                assert(nl@ =~= seq!['\n']);
                let end = match find_chars(rest, nl) {
                    Some(e) => {
                        proof {
                            lemma_find_from_bounds(rest@, nl@, 0);
                        }
                        e
                    },
                    None => rest.len(),
                };
                let piece = trim_chars(vstd::slice::slice_subrange(rest, 0, end));
                assert(rest@.subrange(0, end as int) =~= rest@.take(end as int));
                Some(string_of(&piece))
            },
            Ok(None) => None,
            Err(_) => {
                proof {
                    assert(false);
                }
                None
            },
        };
        let ip = match find_ip_line(&ls) {
            Some(i) => {
                let line = line_at(&ls, i);
                let colon = [':'];
                let colon: &[char] = &colon;
                assert(colon@ =~= seq![':']);
                match after_first_chars(&line, colon) {
                    Some(r) => Some(string_of(&trim_chars(&r))),
                    None => None,
                }
            },
            None => None,
        };
        VpnStatus { connected: true, location, ip }
    } else {
        VpnStatus { connected: false, location: None, ip: None }
    }
}

/// Reads the status where the output allows it: `None` exactly where reading the
/// location would cut the text inside a character.
pub fn try_parse_status(output: &str) -> (res: Option<VpnStatus>)
    ensures
        match res {
            Some(st) => status_readable(output@) && st@ == spec_parse_status(output@),
            None => !status_readable(output@),
        },
{
    let clean_s = strip_ansi(output);
    let clean = chars_of(clean_s.as_str());
    let ls = lines_of(&clean);
    if reports_connected_exec(&ls) {
        if let Err(_) = find_location_start(&clean) {
            return None;
        }
    }
    Some(parse_status(output))
}

} // verus!
