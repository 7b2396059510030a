use adguard_vpn_gui::ansi::strip_ansi;
use adguard_vpn_gui::columns::split_columns;
use adguard_vpn_gui::config::parse_config;
use adguard_vpn_gui::license::parse_license;
use adguard_vpn_gui::locations::parse_locations;
use adguard_vpn_gui::status::{parse_status, try_parse_status};
use adguard_vpn_gui::types::{ConfigInfo, LicenseInfo, Location, VpnStatus};

#[test]
fn strip_ansi_removes_colour_sequences() {
    assert_eq!(strip_ansi("\x1b[32mConnected\x1b[0m to Paris"), "Connected to Paris");
    assert_eq!(strip_ansi("\x1b[1;31mError\x1b[0m"), "Error");
}

#[test]
fn strip_ansi_keeps_plain_text() {
    assert_eq!(strip_ansi("plain text, São Paulo"), "plain text, São Paulo");
    assert_eq!(strip_ansi(""), "");
}

#[test]
fn strip_ansi_edge_cases() {
    // an escape not followed by '[' stays
    assert_eq!(strip_ansi("a\x1bb"), "a\x1bb");
    // an unterminated sequence swallows the rest
    assert_eq!(strip_ansi("ok\x1b[12;3"), "ok");
    // a lone escape at the end stays
    assert_eq!(strip_ansi("end\x1b"), "end\x1b");
    // the result is never longer than the input
    let input = "\x1b[0m\x1b[0mxy";
    assert!(strip_ansi(input).chars().count() <= input.chars().count());
}

#[test]
fn split_columns_on_double_spaces() {
    assert_eq!(
        split_columns("US    United States        New York             45"),
        vec!["US", "United States", "New York", "45"]
    );
}

#[test]
fn split_columns_keeps_single_space_words() {
    assert_eq!(split_columns("United Kingdom"), vec!["United Kingdom"]);
    assert_eq!(split_columns("  São Paulo   BR  "), vec!["São Paulo", "BR"]);
    assert_eq!(split_columns(" a b c "), vec!["a b c"]);
}

#[test]
fn split_columns_empty_and_blank() {
    assert!(split_columns("").is_empty());
    assert!(split_columns("     ").is_empty());
    // a tab is not a delimiter but is trimmed
    assert_eq!(split_columns("\tX  Y\t"), vec!["X", "Y"]);
}

#[test]
fn split_columns_columns_are_well_formed() {
    for col in split_columns("  A  B C   D    E F  ") {
        assert!(!col.is_empty());
        assert_eq!(col.trim(), col);
        assert!(!col.contains("  "));
    }
}

#[test]
fn parse_status_connected() {
    let out = "\x1b[32mConnected to FRANKFURT in TUN mode\x1b[0m\nOutbound IP: 1.2.3.4\n";
    let st = parse_status(out);
    assert_eq!(
        st,
        VpnStatus {
            connected: true,
            location: Some("FRANKFURT in TUN mode".to_string()),
            ip: Some("1.2.3.4".to_string()),
        }
    );
}

#[test]
fn parse_status_uppercase_first_line() {
    // the first line is compared lowercased
    let st = parse_status("VPN is CONNECTED\nIP address: 10.0.0.1\n");
    assert!(st.connected);
    assert_eq!(st.location, None);
    assert_eq!(st.ip, Some("10.0.0.1".to_string()));
}

#[test]
fn parse_status_disconnected() {
    let st = parse_status("Disconnected\nConnected to nowhere\nIP: 1.1.1.1\n");
    assert_eq!(st, VpnStatus { connected: false, location: None, ip: None });
    let st = parse_status("");
    assert_eq!(st, VpnStatus { connected: false, location: None, ip: None });
}

#[test]
fn parse_status_ip_line_without_colon() {
    // the first line that speaks of an IP decides, even without a ':'
    let st = parse_status("Connected to Tokyo\nYour outbound IP is hidden\nIP: 9.9.9.9\n");
    assert_eq!(st.location, Some("Tokyo".to_string()));
    assert_eq!(st.ip, None);
}

#[test]
fn parse_status_location_with_crlf() {
    let st = parse_status("Connected to Oslo  \r\nip: 5.6.7.8\r\n");
    assert_eq!(st.location, Some("Oslo".to_string()));
    assert_eq!(st.ip, Some("5.6.7.8".to_string()));
}

#[test]
fn try_parse_status_agrees() {
    let out = "Connected to Paris\nOutbound IP: 2.2.2.2";
    assert_eq!(try_parse_status(out), Some(parse_status(out)));
    // lowercasing 'İ' lengthens the text: the offset still falls on a boundary here
    let st = try_parse_status("İ connected to X").unwrap();
    assert!(st.connected);
    assert_eq!(st.location, Some("".to_string()));
}

#[test]
fn try_parse_status_refuses_cut_inside_char() {
    // the lowercased text is three bytes longer before the marker: the cut
    // would fall inside 'Ω'
    assert_eq!(try_parse_status("İİİ connected to ΩΩ"), None);
}

#[test]
fn parse_locations_table() {
    let out = "\x1b[1mISO   COUNTRY              CITY                 PING ESTIMATE\x1b[0m\n\
               US    United States        New York             45\n\
               GB    United Kingdom       London               120\n\
               \n\
               BR    Brazil               São Paulo\n\
               FR    France               Paris                fast\n\
               xx    lower                case                 1\n\
               DE  Germany\n";
    let locs = parse_locations(out);
    assert_eq!(
        locs,
        vec![
            Location {
                iso: "US".to_string(),
                country: "United States".to_string(),
                city: "New York".to_string(),
                ping: Some(45),
            },
            Location {
                iso: "GB".to_string(),
                country: "United Kingdom".to_string(),
                city: "London".to_string(),
                ping: Some(120),
            },
            Location {
                iso: "BR".to_string(),
                country: "Brazil".to_string(),
                city: "São Paulo".to_string(),
                ping: None,
            },
            Location {
                iso: "FR".to_string(),
                country: "France".to_string(),
                city: "Paris".to_string(),
                ping: None,
            },
        ]
    );
}

#[test]
fn parse_locations_ping_forms() {
    let locs = parse_locations("JP  Japan  Tokyo  +7\nKR  Korea  Seoul  4294967296\nCN  China  Beijing  0042\n");
    assert_eq!(locs.len(), 3);
    assert_eq!(locs[0].ping, Some(7));
    assert_eq!(locs[1].ping, None);
    assert_eq!(locs[2].ping, Some(42));
}

#[test]
fn parse_locations_fields_are_well_formed() {
    let locs = parse_locations("  NL   Netherlands   Amsterdam  \nSE Sweden  Stockholm  3\n");
    assert_eq!(locs.len(), 2);
    assert_eq!(locs[1].iso, "SE Sweden");
    for l in locs {
        let c: Vec<char> = l.iso.chars().collect();
        assert!(c[0].is_ascii_uppercase() && c[1].is_ascii_uppercase());
        for f in [&l.iso, &l.country, &l.city] {
            assert!(!f.is_empty());
            assert_eq!(f.trim(), f.as_str());
            assert!(!f.contains("  "));
        }
    }
}

#[test]
fn parse_license_premium() {
    let out = "Logged in as  user@example.com \n\
               You are using AdGuard VPN PREMIUM\n\
               Up to 10 devices simultaneously\n\
               Your subscription is valid until 2025-12-31\n";
    assert_eq!(
        parse_license(out),
        LicenseInfo {
            logged_in: true,
            email: Some("user@example.com".to_string()),
            plan: Some("PREMIUM".to_string()),
            devices: Some("10".to_string()),
            valid_until: Some("2025-12-31".to_string()),
        }
    );
}

#[test]
fn parse_license_free_and_missing() {
    let l = parse_license("You are using the free plan\n");
    assert!(l.logged_in);
    assert_eq!(l.plan, Some("FREE".to_string()));
    assert_eq!(l.email, None);
    assert_eq!(l.devices, None);
    assert_eq!(l.valid_until, None);
    let l = parse_license("Up to\n");
    assert_eq!(l.devices, Some("".to_string()));
}

#[test]
fn parse_license_logged_out() {
    let expected = LicenseInfo {
        logged_in: false,
        email: None,
        plan: None,
        devices: None,
        valid_until: None,
    };
    assert_eq!(parse_license("You are NOT LOGGED IN.\nLogged in as x"), expected);
    assert_eq!(parse_license("Please log in first"), expected);
}

#[test]
fn parse_config_settings() {
    let out = "Mode: TUN\n\
               DNS upstream: default\n\
               Protocol: auto\n\
               Tunnel routing mode: NONE\n\
               Update channel: release\n\
               Change system DNS: on\n\
               Post-quantum cryptography: Off\n\
               Crash reporting: ON\n\
               Send anonymized usage data: off\n\
               Debug logging: off\n\
               Show notifications: On (default)\n";
    assert_eq!(
        parse_config(out),
        ConfigInfo {
            mode: "TUN".to_string(),
            dns: "default".to_string(),
            protocol: "auto".to_string(),
            tunnel_routing_mode: "NONE".to_string(),
            update_channel: "release".to_string(),
            change_system_dns: true,
            post_quantum: false,
            crash_reporting: true,
            telemetry: false,
            debug_logging: false,
            show_notifications: true,
        }
    );
}

#[test]
fn parse_config_missing_and_odd_values() {
    let c = parse_config("Post-quantum cryptography: enabled (ON)\nProtocol http2\n");
    assert!(c.post_quantum);
    assert_eq!(c.protocol, "");
    assert_eq!(c.mode, "");
    assert!(!c.crash_reporting);
    let c = parse_config("");
    assert_eq!(c.dns, "");
    assert!(!c.show_notifications);
}

#[test]
fn split_columns_gives_back_joined_columns() {
    let cols = vec!["US", "United States", "New York", "a b c", "São Paulo", "x\ty"];
    assert_eq!(split_columns(&cols.join("  ")), cols);
    assert_eq!(split_columns("solo"), vec!["solo"]);
}
