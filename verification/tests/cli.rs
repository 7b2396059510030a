use adguard_vpn_gui::cli::{
    cli_outcome, connect_args, parse_exclusions, privileged_outcome, sudo_args, switch_arg,
};

fn s(x: &str) -> String {
    x.to_string()
}

#[test]
fn cli_outcome_cases() {
    assert_eq!(cli_outcome(true, s("out"), s("err")), Ok(s("out")));
    assert_eq!(cli_outcome(false, s("out"), s("err")), Err(s("err")));
    assert_eq!(cli_outcome(false, s("out"), s("")), Err(s("out")));
}

#[test]
fn privileged_success_gives_output() {
    assert_eq!(privileged_outcome(false, true, s("done"), s("sudo: x")), Ok(s("done")));
    assert_eq!(privileged_outcome(true, true, s("done"), s("Sorry")), Ok(s("done")));
}

#[test]
fn privileged_password_required() {
    assert_eq!(
        privileged_outcome(false, false, s(""), s("  sudo: a password is required\n")),
        Err(s("SUDO_PASSWORD_REQUIRED"))
    );
    // not starting with "sudo:": the plain failure text
    assert_eq!(
        privileged_outcome(false, false, s("out"), s("error: sudo: nope")),
        Err(s("error: sudo: nope"))
    );
    assert_eq!(privileged_outcome(false, false, s("out"), s("")), Err(s("out")));
}

#[test]
fn privileged_auth_failed() {
    assert_eq!(
        privileged_outcome(true, false, s(""), s("Sorry, try again.\n")),
        Err(s("SUDO_AUTH_FAILED"))
    );
    // compared lowercased, over output and error output together
    assert_eq!(
        privileged_outcome(true, false, s("INCORRECT PASSWORD"), s("")),
        Err(s("SUDO_AUTH_FAILED"))
    );
    assert_eq!(
        privileged_outcome(true, false, s("Passwort FALSCH"), s("")),
        Err(s("SUDO_AUTH_FAILED"))
    );
    assert_eq!(
        privileged_outcome(true, false, s("Authentifizierung "), s("fehlgeschlagen")),
        Err(s("SUDO_AUTH_FAILED"))
    );
    // the words may straddle the two outputs
    assert_eq!(
        privileged_outcome(true, false, s("try "), s("again")),
        Err(s("SUDO_AUTH_FAILED"))
    );
    assert_eq!(
        privileged_outcome(true, false, s("out"), s("network down")),
        Err(s("network down"))
    );
}

#[test]
fn sudo_args_forms() {
    let args = vec![s("connect"), s("--yes")];
    assert_eq!(
        sudo_args(&args, false),
        vec![s("-n"), s("-E"), s("adguardvpn-cli"), s("connect"), s("--yes")]
    );
    assert_eq!(
        sudo_args(&args, true),
        vec![s("-S"), s("-E"), s("-p"), s(""), s("adguardvpn-cli"), s("connect"), s("--yes")]
    );
}

#[test]
fn connect_args_forms() {
    assert_eq!(connect_args(Some(s("Paris")), true), vec![s("connect"), s("--yes"), s("--fastest")]);
    assert_eq!(
        connect_args(Some(s("Paris")), false),
        vec![s("connect"), s("--yes"), s("-l"), s("Paris")]
    );
    assert_eq!(connect_args(None, false), vec![s("connect"), s("--yes")]);
}

#[test]
fn switch_arg_values() {
    assert_eq!(switch_arg(true), "true");
    assert_eq!(switch_arg(false), "false");
}

#[test]
fn parse_exclusions_lists() {
    let (mode, list) = parse_exclusions(
        "\x1b[1m GENERAL \x1b[0m\n",
        "example.com\n  test.org  \n\n\x1b[33mNo Exclusions found\x1b[0m\nsite.net",
    );
    assert_eq!(mode, "GENERAL");
    assert_eq!(list, vec![s("example.com"), s("test.org"), s("site.net")]);
    let (mode, list) = parse_exclusions("", "");
    assert_eq!(mode, "");
    assert!(list.is_empty());
}
