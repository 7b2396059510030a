use adguard_vpn_gui::text::{
    after_first_chars, char_index_at_byte, chars_of, contains_chars, find_chars,
    first_word_chars, is_space, lines_of, lowercase, parse_u32_chars, starts_with_chars,
    string_of, trim_chars, trim_start_chars, utf8_len_prefix,
};

fn v(s: &str) -> Vec<char> {
    s.chars().collect()
}

fn st(c: &[char]) -> String {
    c.iter().collect()
}

const SAMPLES: [&str; 12] = [
    "",
    "   ",
    " a ",
    "\t\u{a0}São Paulo\u{3000}\n",
    "line one\r\nline two\n\nlast\r",
    "x\r\r\n",
    "\n",
    "Up to 10 devices",
    "a:b:c",
    "  +42 ",
    "İstanbul ΣΑΣ",
    "\u{2028}mid\u{85}",
];

#[test]
fn is_space_matches_std_everywhere() {
    for u in 0u32..0x11_0000 {
        if let Some(c) = char::from_u32(u) {
            assert_eq!(is_space(c), c.is_whitespace(), "{u:x}");
        }
    }
}

#[test]
fn trims_match_std() {
    for s in SAMPLES {
        assert_eq!(st(&trim_chars(&v(s))), s.trim());
        assert_eq!(st(&trim_start_chars(&v(s))), s.trim_start());
        assert_eq!(st(&first_word_chars(&v(s))), s.split_whitespace().next().unwrap_or(""));
    }
}

#[test]
fn lines_match_std() {
    for s in SAMPLES {
        let ours: Vec<String> = lines_of(&v(s)).iter().map(|l| st(l)).collect();
        let std_lines: Vec<String> = s.lines().map(|l| l.to_string()).collect();
        assert_eq!(ours, std_lines, "{s:?}");
    }
}

#[test]
fn find_and_contains_match_std() {
    for s in SAMPLES {
        for p in ["a", "o", " ", "Up to", ":", "ΣΑ", "zz"] {
            let ours = find_chars(&v(s), &v(p)).map(|i| s.char_indices().nth(i).map(|x| x.0).unwrap_or(s.len()));
            assert_eq!(ours, s.find(p));
            assert_eq!(contains_chars(&v(s), &v(p)), s.contains(p));
            assert_eq!(starts_with_chars(&v(s), &v(p)), s.starts_with(p));
            assert_eq!(
                after_first_chars(&v(s), &v(p)).map(|r| st(&r)),
                s.splitn(2, p).nth(1).map(|r| r.to_string())
            );
        }
    }
}

#[test]
fn parse_u32_matches_std() {
    for s in ["", "+", "-", "-0", "0", "+0", "42", "+42", " 42", "42 ", "4294967295",
        "4294967296", "00000000004294967295", "99999999999999999999", "1_000", "٣"] {
        assert_eq!(parse_u32_chars(&v(s)), s.parse::<u32>().ok(), "{s:?}");
    }
}

#[test]
fn utf8_lengths_match_std() {
    for s in SAMPLES {
        let c = v(s);
        assert_eq!(utf8_len_prefix(&c, c.len()), s.len() as u128);
        for (k, (b, _)) in s.char_indices().enumerate() {
            assert_eq!(utf8_len_prefix(&c, k), b as u128);
            assert_eq!(char_index_at_byte(&c, b as u128), Some(k));
        }
        assert_eq!(char_index_at_byte(&c, s.len() as u128), Some(c.len()));
        assert_eq!(char_index_at_byte(&c, s.len() as u128 + 1), None);
    }
    // inside a two-byte character
    assert_eq!(char_index_at_byte(&v("ão"), 1), None);
}

#[test]
fn lowercase_uses_unicode_mapping() {
    assert_eq!(st(&lowercase(&v("CONNECTED To"))), "connected to");
    assert_eq!(st(&lowercase(&v("İ"))), "i\u{307}");
    assert_eq!(st(&lowercase(&v("ΣΑΣ"))), "ΣΑΣ".to_lowercase());
}

#[test]
fn round_trips_through_strings() {
    for s in SAMPLES {
        assert_eq!(string_of(&chars_of(s)), s);
    }
}
