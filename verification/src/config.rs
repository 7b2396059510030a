//! The reply of `adguardvpn-cli config show`.

use vstd::prelude::*;
use crate::ansi::{spec_strip_ansi, strip_ansi};
use crate::text::{
    after_first, after_first_chars, chars_of, contains, contains_chars, find_line_with,
    first_line_with, line_at, lines, lines_of, lowercase, starts_with, starts_with_chars,
    str_to_lowercase, string_of, trim, trim_chars, is_space_char, lemma_contains_prefix,
    lemma_first_line_with_at, lemma_after_first_char, lemma_trim_space_before,
};
use crate::types::{ConfigInfo, ConfigInfoView};

verus! {

/// The value of setting `key`: what follows the first `':'` on the first line
/// that holds `key`, trimmed; the empty text when there is no such line or it
/// holds no `':'`.
pub open spec fn setting_value(ls: Seq<Seq<char>>, key: Seq<char>) -> Seq<char> {
    match first_line_with(ls, key) {
        Some(l) => match after_first(l, seq![':']) {
            Some(r) => trim(r),
            None => Seq::empty(),
        },
        None => Seq::empty(),
    }
}

/// Setting `key` is on: its value, lowercased, starts with "on".
pub open spec fn setting_on(ls: Seq<Seq<char>>, key: Seq<char>) -> bool {
    starts_with(str_to_lowercase(setting_value(ls, key)), "on"@)
}

/// The settings that the output of `adguardvpn-cli config show` lists.
pub open spec fn spec_parse_config(output: Seq<char>) -> ConfigInfoView {
    let ls = lines(spec_strip_ansi(output));
    ConfigInfoView {
        mode: setting_value(ls, "Mode"@),
        dns: setting_value(ls, "DNS upstream"@),
        protocol: setting_value(ls, "Protocol"@),
        tunnel_routing_mode: setting_value(ls, "Tunnel routing mode"@),
        update_channel: setting_value(ls, "Update channel"@),
        change_system_dns: setting_on(ls, "Change system DNS"@),
        post_quantum: contains(
            str_to_lowercase(setting_value(ls, "Post-quantum cryptography"@)),
            "on"@,
        ),
        crash_reporting: setting_on(ls, "Crash reporting"@),
        telemetry: setting_on(ls, "Send anonymized usage data"@),
        debug_logging: setting_on(ls, "Debug logging"@),
        show_notifications: setting_on(ls, "Show notifications"@),
    }
}

/// A setting line `key: v`, the first line that holds `key`, gives the value
/// `v` (trimmed, non-empty, and possibly holding more `':'`), whichever of the
/// text settings `key` names.
pub proof fn law_config_value(output: Seq<char>, key: Seq<char>, i: int, v: Seq<char>)
    requires
        !key.contains(':'),
        0 <= i < lines(spec_strip_ansi(output)).len(),
        lines(spec_strip_ansi(output))[i] == key + seq![':', ' '] + v,
        forall|j: int|
            0 <= j < i ==> !contains(#[trigger] lines(spec_strip_ansi(output))[j], key),
        v.len() > 0,
        !is_space_char(v[0]),
        !is_space_char(v.last()),
    ensures
        key == "Mode"@ ==> spec_parse_config(output).mode == v,
        key == "DNS upstream"@ ==> spec_parse_config(output).dns == v,
        key == "Protocol"@ ==> spec_parse_config(output).protocol == v,
        key == "Tunnel routing mode"@ ==> spec_parse_config(output).tunnel_routing_mode == v,
        key == "Update channel"@ ==> spec_parse_config(output).update_channel == v,
        key == "Change system DNS"@ ==> spec_parse_config(output).change_system_dns == starts_with(
            str_to_lowercase(v),
            "on"@,
        ),
        key == "Crash reporting"@ ==> spec_parse_config(output).crash_reporting == starts_with(
            str_to_lowercase(v),
            "on"@,
        ),
        key == "Send anonymized usage data"@ ==> spec_parse_config(output).telemetry == starts_with(
            str_to_lowercase(v),
            "on"@,
        ),
        key == "Debug logging"@ ==> spec_parse_config(output).debug_logging == starts_with(
            str_to_lowercase(v),
            "on"@,
        ),
        key == "Show notifications"@ ==> spec_parse_config(output).show_notifications
            == starts_with(str_to_lowercase(v), "on"@),
        key == "Post-quantum cryptography"@ ==> spec_parse_config(output).post_quantum == contains(
            str_to_lowercase(v),
            "on"@,
        ),
{
    let ls = lines(spec_strip_ansi(output));
    let line = key + seq![':', ' '] + v;
    lemma_contains_prefix(key, seq![':', ' '] + v);
    assert(key + (seq![':', ' '] + v) =~= line);
    lemma_first_line_with_at(ls, key, i);
    assert(line =~= key + seq![':'] + (seq![' '] + v));
    lemma_after_first_char(key, ':', seq![' '] + v);
    lemma_trim_space_before(v);
    assert(setting_value(ls, key) == v);
}

/// A text setting that no line names is empty.
pub proof fn law_config_missing(output: Seq<char>, key: Seq<char>)
    requires
        forall|j: int|
            0 <= j < lines(spec_strip_ansi(output)).len() ==> !contains(
                #[trigger] lines(spec_strip_ansi(output))[j],
                key,
            ),
    ensures
        key == "Mode"@ ==> spec_parse_config(output).mode == Seq::<char>::empty(),
        key == "DNS upstream"@ ==> spec_parse_config(output).dns == Seq::<char>::empty(),
        key == "Protocol"@ ==> spec_parse_config(output).protocol == Seq::<char>::empty(),
        key == "Tunnel routing mode"@ ==> spec_parse_config(output).tunnel_routing_mode
            == Seq::<char>::empty(),
        key == "Update channel"@ ==> spec_parse_config(output).update_channel == Seq::<
            char,
        >::empty(),
{
    crate::text::lemma_no_line_with(lines(spec_strip_ansi(output)), key);
}

/// The value of setting `key` in `ls`.
fn setting_value_exec(ls: &Vec<Vec<char>>, key: &str) -> (res: Vec<char>)
    ensures
        res@ == setting_value(ls.deep_view(), key@),
{
    let k = chars_of(key);
    match find_line_with(ls, &k) {
        Some(i) => {
            let line = line_at(ls, i);
            let colon = [':'];
            let colon: &[char] = &colon;
            assert(colon@ =~= seq![':']);
            match after_first_chars(&line, colon) {
                Some(r) => trim_chars(&r),
                None => Vec::new(),
            }
        },
        None => Vec::new(),
    }
}

/// Whether setting `key` in `ls` is on.
fn setting_on_exec(ls: &Vec<Vec<char>>, key: &str) -> (res: bool)
    ensures
        res == setting_on(ls.deep_view(), key@),
{
    let v = lowercase(&setting_value_exec(ls, key));
    starts_with_chars(&v, &chars_of("on"))
}

/// Reads the settings from the output of `adguardvpn-cli config show`.
pub fn parse_config(output: &str) -> (res: ConfigInfo)
    ensures
        res@ == spec_parse_config(output@),
{
    let clean_s = strip_ansi(output);
    let clean = chars_of(clean_s.as_str());
    let ls = lines_of(&clean);
    let pq = lowercase(&setting_value_exec(&ls, "Post-quantum cryptography"));
    ConfigInfo {
        mode: string_of(&setting_value_exec(&ls, "Mode")),
        dns: string_of(&setting_value_exec(&ls, "DNS upstream")),
        protocol: string_of(&setting_value_exec(&ls, "Protocol")),
        tunnel_routing_mode: string_of(&setting_value_exec(&ls, "Tunnel routing mode")),
        update_channel: string_of(&setting_value_exec(&ls, "Update channel")),
        change_system_dns: setting_on_exec(&ls, "Change system DNS"),
        post_quantum: contains_chars(&pq, &chars_of("on")),
        crash_reporting: setting_on_exec(&ls, "Crash reporting"),
        telemetry: setting_on_exec(&ls, "Send anonymized usage data"),
        debug_logging: setting_on_exec(&ls, "Debug logging"),
        show_notifications: setting_on_exec(&ls, "Show notifications"),
    }
}

} // verus!
