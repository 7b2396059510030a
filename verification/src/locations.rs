//! The reply of `adguardvpn-cli list-locations`.

use vstd::prelude::*;
use crate::ansi::{spec_strip_ansi, strip_ansi};
use crate::columns::{
    column_shaped, columns, join_columns, lemma_columns_shape, lemma_first_column_prefix,
    lemma_trim_of_trimmed, law_split_join_columns, split_columns,
};
use crate::text::{
    chars_of, is_ascii_upper, line_at, lines, lines_of, parse_u32, parse_u32_chars, string_of,
    trim, trim_chars,
};
use crate::types::{Location, LocationView};

verus! {

/// The character at `i`, or a space past the end.
pub open spec fn char_or_space(t: Seq<char>, i: int) -> char {
    if 0 <= i < t.len() {
        t[i]
    } else {
        ' '
    }
}

/// A row of the table starts with a two-letter upper-case country code and a space.
pub open spec fn starts_like_row(t: Seq<char>) -> bool {
    is_ascii_upper(char_or_space(t, 0)) && is_ascii_upper(char_or_space(t, 1)) && char_or_space(
        t,
        2,
    ) == ' '
}

/// The location that one line of the list gives: its trimmed text starts like a
/// row and has three columns or more (code, country, city, and ping when there
/// is a fourth column that reads as a `u32`).
pub open spec fn location_of_line(line: Seq<char>) -> Option<LocationView> {
    let t = trim(line);
    if t.len() == 0 || !starts_like_row(t) {
        None
    } else {
        let parts = columns(t);
        if parts.len() >= 3 {
            Some(
                LocationView {
                    iso: parts[0],
                    country: parts[1],
                    city: parts[2],
                    ping: if parts.len() > 3 {
                        parse_u32(parts[3])
                    } else {
                        None
                    },
                },
            )
        } else {
            None
        }
    }
}

/// The locations of a list of lines, in their order.
pub open spec fn locations_of(ls: Seq<Seq<char>>) -> Seq<LocationView>
    decreases ls.len(),
{
    if ls.len() == 0 {
        Seq::empty()
    } else {
        match location_of_line(ls[0]) {
            Some(l) => seq![l] + locations_of(ls.drop_first()),
            None => locations_of(ls.drop_first()),
        }
    }
}

/// The locations that the output of `adguardvpn-cli list-locations` lists.
pub open spec fn spec_parse_locations(output: Seq<char>) -> Seq<LocationView> {
    locations_of(lines(spec_strip_ansi(output)))
}

/// The values of a list of locations.
pub open spec fn location_views(v: Seq<Location>) -> Seq<LocationView> {
    v.map_values(|l: Location| l@)
}

/// A location whose code, country and city are well-formed columns, and whose
/// code starts with two upper-case ASCII letters (a country code).
pub open spec fn location_shaped(l: LocationView) -> bool {
    &&& column_shaped(l.iso)
    &&& column_shaped(l.country)
    &&& column_shaped(l.city)
    &&& l.iso.len() >= 2
    &&& is_ascii_upper(l.iso[0])
    &&& is_ascii_upper(l.iso[1])
}

/// A location read from one line is well formed.
pub proof fn lemma_location_of_line_shaped(line: Seq<char>)
    ensures
        location_of_line(line) matches Some(l) ==> location_shaped(l),
{
    let t = trim(line);
    if t.len() > 0 && starts_like_row(t) {
        lemma_columns_shape(t);
        if t.len() >= 2 {
            lemma_first_column_prefix(t);
        }
        if columns(t).len() >= 3 {
            assert(column_shaped(columns(t)[0]));
            assert(column_shaped(columns(t)[1]));
            assert(column_shaped(columns(t)[2]));
            if t.len() < 2 {
                // a single character makes a single column
                assert(t.len() == 1);
                assert(!is_ascii_upper(char_or_space(t, 1)));
            }
        }
    }
}

/// Every location of a list of lines is well formed.
pub proof fn lemma_locations_of_shaped(ls: Seq<Seq<char>>)
    ensures
        forall|i: int| 0 <= i < locations_of(ls).len() ==> location_shaped(#[trigger] locations_of(ls)[i]),
    decreases ls.len(),
{
    if ls.len() > 0 {
        lemma_location_of_line_shaped(ls[0]);
        lemma_locations_of_shaped(ls.drop_first());
        let tail = locations_of(ls.drop_first());
        match location_of_line(ls[0]) {
            Some(l) => {
                assert forall|i: int| 0 <= i < locations_of(ls).len() implies location_shaped(
                    #[trigger] locations_of(ls)[i],
                ) by {
                    if i > 0 {
                        assert(locations_of(ls)[i] == tail[i - 1]);
                    }
                }
            },
            None => {},
        }
    }
}

/// Each location that the list gives has a country code of two upper-case
/// letters at the start of its first column, and a code, country and city that
/// are non-empty, trimmed, and never hold two spaces side by side.
pub proof fn law_locations_well_formed(output: Seq<char>)
    ensures
        forall|i: int|
            0 <= i < spec_parse_locations(output).len() ==> location_shaped(
                #[trigger] spec_parse_locations(output)[i],
            ),
{
    lemma_locations_of_shaped(lines(spec_strip_ansi(output)));
}

/// A table row: a two-letter upper-case code, then country, city and ping
/// columns, two spaces apart.
pub open spec fn table_row(
    a: char,
    b: char,
    country: Seq<char>,
    city: Seq<char>,
    ping: Seq<char>,
) -> Seq<char> {
    seq![a, b] + seq![' ', ' '] + country + seq![' ', ' '] + city + seq![' ', ' '] + ping
}

/// Every row whose code is two letters from 'A' to 'Z' and whose other columns
/// are well formed is read as one location: that code, country and city, and
/// the ping column read as a `u32`.
pub proof fn law_row_recognised(
    a: char,
    b: char,
    country: Seq<char>,
    city: Seq<char>,
    ping: Seq<char>,
)
    requires
        'A' <= a <= 'Z',
        'A' <= b <= 'Z',
        column_shaped(country),
        column_shaped(city),
        column_shaped(ping),
    ensures
        location_of_line(table_row(a, b, country, city, ping)) == Some(
            LocationView {
                iso: seq![a, b],
                country: country,
                city: city,
                ping: parse_u32(ping),
            },
        ),
{
    let code = seq![a, b];
    let cols = seq![code, country, city, ping];
    let line = table_row(a, b, country, city, ping);
    assert forall|k: int| !crate::columns::double_space_at(code, k) by {}
    assert(column_shaped(code));
    assert forall|i: int| 0 <= i < cols.len() implies column_shaped(#[trigger] cols[i]) by {}
    law_split_join_columns(cols);
    assert(cols.drop_first().drop_first().drop_first() =~= seq![ping]);
    assert(join_columns(cols.drop_first().drop_first().drop_first()) == ping);
    assert(join_columns(cols.drop_first().drop_first()) == city + seq![' ', ' '] + ping);
    assert(join_columns(cols.drop_first()) == country + seq![' ', ' '] + (city + seq![' ', ' ']
        + ping));
    assert(join_columns(cols) =~= line);
    assert(line.last() == ping.last());
    lemma_trim_of_trimmed(line);
    assert(starts_like_row(line));
}

/// The output that is one such row alone (without escape characters or line
/// breaks) lists exactly that location.
pub proof fn law_single_row_listed(
    a: char,
    b: char,
    country: Seq<char>,
    city: Seq<char>,
    ping: Seq<char>,
)
    requires
        'A' <= a <= 'Z',
        'A' <= b <= 'Z',
        column_shaped(country),
        column_shaped(city),
        column_shaped(ping),
        !table_row(a, b, country, city, ping).contains('\x1b'),
        !table_row(a, b, country, city, ping).contains('\n'),
    ensures
        spec_parse_locations(table_row(a, b, country, city, ping)) == seq![
            LocationView {
                iso: seq![a, b],
                country: country,
                city: city,
                ping: parse_u32(ping),
            },
        ],
{
    let line = table_row(a, b, country, city, ping);
    law_row_recognised(a, b, country, city, ping);
    crate::ansi::lemma_strip_ansi_plain(line);
    crate::text::lemma_find_from_bounds(line, seq!['\n'], 0);
    if crate::text::find(line, seq!['\n']) is Some {
        let k = crate::text::find(line, seq!['\n']).unwrap();
        assert(line.subrange(k, k + 1)[0] == line[k]);
    }
    assert(lines(line) == seq![line]);
    assert(seq![line].drop_first() =~= Seq::<Seq<char>>::empty());
    assert(locations_of(seq![line].drop_first()) == Seq::<LocationView>::empty());
}

/// A row with code, country and city but no ping column is read with no ping.
pub proof fn law_row_without_ping(a: char, b: char, country: Seq<char>, city: Seq<char>)
    requires
        'A' <= a <= 'Z',
        'A' <= b <= 'Z',
        column_shaped(country),
        column_shaped(city),
    ensures
        location_of_line(seq![a, b] + seq![' ', ' '] + country + seq![' ', ' '] + city) == Some(
            LocationView { iso: seq![a, b], country: country, city: city, ping: None },
        ),
{
    let code = seq![a, b];
    let cols = seq![code, country, city];
    let line = seq![a, b] + seq![' ', ' '] + country + seq![' ', ' '] + city;
    assert forall|k: int| !crate::columns::double_space_at(code, k) by {}
    assert forall|i: int| 0 <= i < cols.len() implies column_shaped(#[trigger] cols[i]) by {}
    law_split_join_columns(cols);
    assert(cols.drop_first().drop_first() =~= seq![city]);
    assert(join_columns(cols.drop_first().drop_first()) == city);
    assert(join_columns(cols.drop_first()) == country + seq![' ', ' '] + city);
    assert(join_columns(cols) =~= line);
    assert(line.last() == city.last());
    lemma_trim_of_trimmed(line);
    assert(starts_like_row(line));
}

/// A line whose trimmed text does not start with two upper-case ASCII letters
/// and a space is no location.
pub proof fn law_non_row_skipped(line: Seq<char>)
    requires
        !(trim(line).len() >= 3 && 'A' <= trim(line)[0] <= 'Z' && 'A' <= trim(line)[1] <= 'Z'
            && trim(line)[2] == ' '),
    ensures
        location_of_line(line) is None,
{
    let t = trim(line);
    if t.len() > 0 && t.len() < 3 && starts_like_row(t) {
        // two letters and nothing more make a single column
        assert(t.len() == 2);
        crate::columns::lemma_next_gap_bounds(t, 0);
        if crate::columns::next_gap(t, 0) is Some {
            let g = crate::columns::next_gap(t, 0).unwrap();
            assert(t[g.0] == ' ');
        }
        assert(columns(t).len() <= 1);
    }
}

/// The locations of two stretches of lines are those of the first, then those
/// of the second.
pub proof fn law_locations_append(a: Seq<Seq<char>>, b: Seq<Seq<char>>)
    ensures
        locations_of(a + b) == locations_of(a) + locations_of(b),
    decreases a.len(),
{
    if a.len() == 0 {
        assert(a + b =~= b);
        assert(locations_of(a) + locations_of(b) =~= locations_of(b));
    } else {
        assert((a + b)[0] == a[0]);
        assert((a + b).drop_first() =~= a.drop_first() + b);
        law_locations_append(a.drop_first(), b);
        match location_of_line(a[0]) {
            Some(l) => {
                assert(seq![l] + (locations_of(a.drop_first()) + locations_of(b)) =~= seq![l]
                    + locations_of(a.drop_first()) + locations_of(b));
            },
            None => {},
        }
    }
}

/// The location of one line, if it is a row of the table.
fn location_from_line(line: &[char]) -> (res: Option<Location>)
    ensures
        match res {
            Some(l) => location_of_line(line@) == Some(l@),
            None => location_of_line(line@) is None,
        },
{
    let t = trim_chars(line);
    if t.len() == 0 {
        return None;
    }
    let c0 = if t.len() > 0 {
        t[0]
    } else {
        ' '
    };
    let c1 = if t.len() > 1 {
        t[1]
    } else {
        ' '
    };
    let c2 = if t.len() > 2 {
        t[2]
    } else {
        ' '
    };
    if !('A' <= c0 && c0 <= 'Z') || !('A' <= c1 && c1 <= 'Z') || c2 != ' ' {
        return None;
    }
    let row = string_of(&t);
    let parts = split_columns(row.as_str());
    let ghost pv = parts.deep_view();
    if parts.len() >= 3 {
        assert(pv[0] == parts@[0]@ && pv[1] == parts@[1]@ && pv[2] == parts@[2]@);
        let ping = if parts.len() > 3 {
            assert(pv[3] == parts@[3]@);
            parse_u32_chars(&chars_of(parts[3].as_str()))
        } else {
            None
        };
        Some(
            Location {
                iso: parts[0].clone(),
                country: parts[1].clone(),
                city: parts[2].clone(),
                ping,
            },
        )
    } else {
        None
    }
}

/// Reads the location list from the output of `adguardvpn-cli list-locations`.
pub fn parse_locations(output: &str) -> (res: Vec<Location>)
    ensures
        location_views(res@) == spec_parse_locations(output@),
{
    let clean_s = strip_ansi(output);
    let clean = chars_of(clean_s.as_str());
    let ls = lines_of(&clean);
    let ghost all = ls.deep_view();
    let n = ls.len();
    let mut res: Vec<Location> = Vec::new();
    let mut i: usize = 0;
    assert(all.skip(0) =~= all);
    assert(location_views(res@) =~= Seq::<LocationView>::empty());
    while i < n
        invariant
            n == all.len(),
            all == ls.deep_view(),
            all == lines(spec_strip_ansi(output@)),
            i <= n,
            locations_of(all) == location_views(res@) + locations_of(all.skip(i as int)),
        decreases n - i,
    {
        let line = line_at(&ls, i);
        let ghost rest = all.skip(i as int);
        assert(rest[0] == all[i as int]);
        assert(rest.drop_first() =~= all.skip(i + 1));
        let ghost before = location_views(res@);
        match location_from_line(&line) {
            Some(l) => {
                res.push(l);
                assert(location_views(res@) =~= before.push(l@));
                assert(before.push(l@) + locations_of(all.skip(i + 1)) =~= before + (seq![l@]
                    + locations_of(all.skip(i + 1))));
            },
            None => {},
        }
        i = i + 1;
    }
    assert(all.skip(i as int) =~= Seq::<Seq<char>>::empty());
    assert(location_views(res@) + Seq::<LocationView>::empty() =~= location_views(res@));
    res
}

} // verus!
