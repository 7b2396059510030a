//! The decisions taken on a run of the client: the arguments it is run with,
//! and what its exit status and output mean.

use vstd::prelude::*;
use crate::ansi::{spec_strip_ansi, strip_ansi};
use crate::text::{
    chars_of, contains, contains_chars, line_at, lines, lines_of, lowercase, starts_with,
    starts_with_chars, str_to_lowercase, string_of, trim, trim_chars, trim_start,
    trim_start_chars, is_space_char,
};

verus! {

/// The text of a result of texts.
pub open spec fn result_text(r: Result<String, String>) -> Result<Seq<char>, Seq<char>> {
    match r {
        Ok(s) => Ok(s@),
        Err(e) => Err(e@),
    }
}

/// The error text of a failed run: its error output, or its output where the
/// error output is empty.
pub open spec fn failure_text(stdout: Seq<char>, stderr: Seq<char>) -> Seq<char> {
    if stderr.len() > 0 {
        stderr
    } else {
        stdout
    }
}

/// What a run of the client as the current user comes to.
pub open spec fn spec_cli_outcome(success: bool, stdout: Seq<char>, stderr: Seq<char>) -> Result<
    Seq<char>,
    Seq<char>,
> {
    if success {
        Ok(stdout)
    } else {
        Err(failure_text(stdout, stderr))
    }
}

/// `sudo` refused to run without a password: its error output starts, after
/// whitespace, with "sudo:".
pub open spec fn sudo_needs_password(stderr: Seq<char>) -> bool {
    starts_with(trim_start(stderr), "sudo:"@)
}

/// The combined output, lowercased, tells of a wrong password (in English or German).
pub open spec fn sudo_rejected_password(stdout: Seq<char>, stderr: Seq<char>) -> bool {
    let c = str_to_lowercase(stdout + stderr);
    ||| contains(c, "incorrect"@)
    ||| contains(c, "sorry"@)
    ||| contains(c, "authentication failure"@)
    ||| contains(c, "try again"@)
    ||| contains(c, "falsch"@)
    ||| contains(c, "fehlgeschlagen"@)
}

/// What a run of the client through `sudo` comes to: with cached credentials
/// (`with_password` false) or with a password on standard input.
pub open spec fn spec_privileged_outcome(
    with_password: bool,
    success: bool,
    stdout: Seq<char>,
    stderr: Seq<char>,
) -> Result<Seq<char>, Seq<char>> {
    if success {
        Ok(stdout)
    } else if !with_password {
        if sudo_needs_password(stderr) {
            Err("SUDO_PASSWORD_REQUIRED"@)
        } else {
            Err(failure_text(stdout, stderr))
        }
    } else if sudo_rejected_password(stdout, stderr) {
        Err("SUDO_AUTH_FAILED"@)
    } else {
        Err(failure_text(stdout, stderr))
    }
}

/// The `sudo` arguments that run the client with `args`.
pub open spec fn spec_sudo_args(args: Seq<Seq<char>>, with_password: bool) -> Seq<Seq<char>> {
    if with_password {
        seq!["-S"@, "-E"@, "-p"@, ""@, "adguardvpn-cli"@] + args
    } else {
        seq!["-n"@, "-E"@, "adguardvpn-cli"@] + args
    }
}

/// The client arguments that connect: to the fastest location, to `location`,
/// or to the one the client picks.
pub open spec fn spec_connect_args(location: Option<Seq<char>>, fastest: bool) -> Seq<Seq<char>> {
    if fastest {
        seq!["connect"@, "--yes"@, "--fastest"@]
    } else {
        match location {
            Some(l) => seq!["connect"@, "--yes"@, "-l"@, l],
            None => seq!["connect"@, "--yes"@],
        }
    }
}

/// A site exclusion line is kept when, trimmed, it is not empty and does not
/// say "no exclusions".
pub open spec fn is_exclusion(t: Seq<char>) -> bool {
    t.len() > 0 && !contains(str_to_lowercase(t), "no exclusions"@)
}

/// The trimmed lines of `ls` that are exclusions, in order.
pub open spec fn exclusions_of(ls: Seq<Seq<char>>) -> Seq<Seq<char>>
    decreases ls.len(),
{
    if ls.len() == 0 {
        Seq::empty()
    } else if is_exclusion(trim(ls[0])) {
        seq![trim(ls[0])] + exclusions_of(ls.drop_first())
    } else {
        exclusions_of(ls.drop_first())
    }
}

/// A run that succeeded gives its output, whether the client ran as the
/// current user or through `sudo`, with or without a password.
pub proof fn law_success_gives_output(with_password: bool, stdout: Seq<char>, stderr: Seq<char>)
    ensures
        spec_cli_outcome(true, stdout, stderr) == Ok::<Seq<char>, Seq<char>>(stdout),
        spec_privileged_outcome(with_password, true, stdout, stderr) == Ok::<Seq<char>, Seq<char>>(
            stdout,
        ),
{
}

/// Where `sudo` did not ask for a password, a run through `sudo` on cached
/// credentials comes to what a run as the current user comes to.
pub proof fn law_cached_sudo_as_plain_run(success: bool, stdout: Seq<char>, stderr: Seq<char>)
    requires
        !sudo_needs_password(stderr),
    ensures
        spec_privileged_outcome(false, success, stdout, stderr) == spec_cli_outcome(
            success,
            stdout,
            stderr,
        ),
{
}

/// A failed run through `sudo` never comes to `Ok`; on cached credentials it
/// asks for the password whenever `sudo`'s error output starts with "sudo:".
pub proof fn law_password_prompt(stdout: Seq<char>, stderr: Seq<char>)
    ensures
        spec_privileged_outcome(false, false, stdout, stderr) is Err,
        spec_privileged_outcome(true, false, stdout, stderr) is Err,
        (spec_privileged_outcome(false, false, stdout, stderr) == Err::<Seq<char>, Seq<char>>(
            "SUDO_PASSWORD_REQUIRED"@,
        )) <== sudo_needs_password(stderr),
{
}

/// Connecting to the fastest location passes `--fastest` whatever location is
/// chosen; otherwise a chosen location is passed after `-l`, and with none the
/// client connects to the location it picks.
pub proof fn law_connect_args(location: Option<Seq<char>>)
    ensures
        spec_connect_args(location, true) == seq!["connect"@, "--yes"@, "--fastest"@],
        location matches Some(l) ==> spec_connect_args(location, false) == seq![
            "connect"@,
            "--yes"@,
            "-l"@,
            l,
        ],
        location is None ==> spec_connect_args(location, false) == seq!["connect"@, "--yes"@],
{
}

/// A failed run as the current user reports its error output, or its output
/// when the error output is empty.
pub proof fn law_cli_failure(stdout: Seq<char>, stderr: Seq<char>)
    ensures
        stderr.len() > 0 ==> spec_cli_outcome(false, stdout, stderr) == Err::<Seq<char>, Seq<char>>(
            stderr,
        ),
        stderr.len() == 0 ==> spec_cli_outcome(false, stdout, stderr) == Err::<Seq<char>, Seq<
            char,
        >>(stdout),
{
}

/// A failed run with a password is an authentication failure when the output
/// and error output together, lowercased, tell of a wrong password in any of
/// the known words; otherwise it reports as a failed plain run.
pub proof fn law_auth_failure(stdout: Seq<char>, stderr: Seq<char>)
    ensures
        ({
            let c = str_to_lowercase(stdout + stderr);
            contains(c, "incorrect"@) || contains(c, "sorry"@) || contains(
                c,
                "authentication failure"@,
            ) || contains(c, "try again"@) || contains(c, "falsch"@) || contains(
                c,
                "fehlgeschlagen"@,
            )
        }) ==> spec_privileged_outcome(true, false, stdout, stderr) == Err::<Seq<char>, Seq<char>>(
            "SUDO_AUTH_FAILED"@,
        ),
        !({
            let c = str_to_lowercase(stdout + stderr);
            contains(c, "incorrect"@) || contains(c, "sorry"@) || contains(
                c,
                "authentication failure"@,
            ) || contains(c, "try again"@) || contains(c, "falsch"@) || contains(
                c,
                "fehlgeschlagen"@,
            )
        }) ==> spec_privileged_outcome(true, false, stdout, stderr) == spec_cli_outcome(
            false,
            stdout,
            stderr,
        ),
{
}

/// On cached credentials, an error output that starts with "sudo:" once its
/// leading whitespace is skipped asks for the password.
pub proof fn law_password_required(stdout: Seq<char>, ws: Seq<char>, rest: Seq<char>)
    requires
        forall|i: int| 0 <= i < ws.len() ==> is_space_char(#[trigger] ws[i]),
    ensures
        spec_privileged_outcome(false, false, stdout, ws + "sudo:"@ + rest) == Err::<
            Seq<char>,
            Seq<char>,
        >("SUDO_PASSWORD_REQUIRED"@),
{
    let e = ws + "sudo:"@ + rest;
    reveal_strlit("sudo:");
    assert(e.take(ws.len() as int) =~= ws);
    assert(e[ws.len() as int] == 's');
    lemma_skip_leading(e, ws, 0);
    assert(trim_start(e) =~= "sudo:"@ + rest);
    assert(trim_start(e).take(("sudo:"@).len() as int) =~= "sudo:"@);
}

/// Whitespace at the start of `e` is passed over up to the first character of
/// `"sudo:"`.
proof fn lemma_skip_leading(e: Seq<char>, ws: Seq<char>, i: int)
    requires
        0 <= i <= ws.len(),
        ws.len() < e.len(),
        e.take(ws.len() as int) == ws,
        e[ws.len() as int] == 's',
        forall|k: int| 0 <= k < ws.len() ==> is_space_char(#[trigger] ws[k]),
    ensures
        crate::text::skip_space_from(e, i) == ws.len(),
    decreases ws.len() - i,
{
    if i < ws.len() {
        assert(e[i] == ws[i]);
        lemma_skip_leading(e, ws, i + 1);
    }
}

/// The `sudo` arguments are the client's arguments behind `-n -E
/// adguardvpn-cli` on cached credentials, and behind `-S -E -p "" adguardvpn-cli`
/// with a password.
pub proof fn law_sudo_args(args: Seq<Seq<char>>)
    ensures
        spec_sudo_args(args, false).take(3) == seq!["-n"@, "-E"@, "adguardvpn-cli"@],
        spec_sudo_args(args, false).skip(3) == args,
        spec_sudo_args(args, true).take(5) == seq!["-S"@, "-E"@, "-p"@, ""@, "adguardvpn-cli"@],
        spec_sudo_args(args, true).skip(5) == args,
{
    assert(spec_sudo_args(args, false).take(3) =~= seq!["-n"@, "-E"@, "adguardvpn-cli"@]);
    assert(spec_sudo_args(args, false).skip(3) =~= args);
    assert(spec_sudo_args(args, true).take(5) =~= seq!["-S"@, "-E"@, "-p"@, ""@, "adguardvpn-cli"@]);
    assert(spec_sudo_args(args, true).skip(5) =~= args);
}

/// The exclusions of two stretches of lines are those of the first, then those
/// of the second: each line counts on its own and order is kept.
pub proof fn law_exclusions_append(a: Seq<Seq<char>>, b: Seq<Seq<char>>)
    ensures
        exclusions_of(a + b) == exclusions_of(a) + exclusions_of(b),
    decreases a.len(),
{
    if a.len() == 0 {
        assert(a + b =~= b);
        assert(exclusions_of(a) + exclusions_of(b) =~= exclusions_of(b));
    } else {
        assert((a + b)[0] == a[0]);
        assert((a + b).drop_first() =~= a.drop_first() + b);
        law_exclusions_append(a.drop_first(), b);
        if is_exclusion(trim(a[0])) {
            assert(seq![trim(a[0])] + (exclusions_of(a.drop_first()) + exclusions_of(b))
                =~= seq![trim(a[0])] + exclusions_of(a.drop_first()) + exclusions_of(b));
        }
    }
}

/// One line gives its trimmed text as an exclusion when that is not empty and,
/// lowercased, does not say "no exclusions"; otherwise it gives nothing.
pub proof fn law_exclusion_line(l: Seq<char>)
    ensures
        trim(l).len() > 0 && !contains(str_to_lowercase(trim(l)), "no exclusions"@)
            ==> exclusions_of(seq![l]) == seq![trim(l)],
        trim(l).len() == 0 || contains(str_to_lowercase(trim(l)), "no exclusions"@)
            ==> exclusions_of(seq![l]) == Seq::<Seq<char>>::empty(),
{
    assert(seq![l].drop_first() =~= Seq::<Seq<char>>::empty());
    assert(exclusions_of(Seq::<Seq<char>>::empty()) == Seq::<Seq<char>>::empty());
    assert(seq![trim(l)] + Seq::<Seq<char>>::empty() =~= seq![trim(l)]);
}

/// A text of `s`.
fn text(s: &str) -> (res: String)
    ensures
        res@ == s@,
{
    s.to_owned()
}

/// Reads what a run of the client as the current user comes to.
pub fn cli_outcome(success: bool, stdout: String, stderr: String) -> (res: Result<String, String>)
    ensures
        result_text(res) == spec_cli_outcome(success, stdout@, stderr@),
{
    if success {
        Ok(stdout)
    } else if !stderr.as_str().is_empty() {
        Err(stderr)
    } else {
        Err(stdout)
    }
}

/// Reads what a run of the client through `sudo` comes to; `with_password`
/// says that a password was handed to `sudo` on standard input.
pub fn privileged_outcome(with_password: bool, success: bool, stdout: String, stderr: String) -> (res:
    Result<String, String>)
    ensures
        result_text(res) == spec_privileged_outcome(with_password, success, stdout@, stderr@),
{
    if success {
        return Ok(stdout);
    }
    if !with_password {
        let e = chars_of(stderr.as_str());
        if starts_with_chars(&trim_start_chars(&e), &chars_of("sudo:")) {
            Err(text("SUDO_PASSWORD_REQUIRED"))
        } else {
            cli_outcome(false, stdout, stderr)
        }
    } else {
        let mut both = chars_of(stdout.as_str());
        let mut e = chars_of(stderr.as_str());
        both.append(&mut e);
        let c = lowercase(&both);
        if contains_chars(&c, &chars_of("incorrect")) || contains_chars(&c, &chars_of("sorry"))
            || contains_chars(&c, &chars_of("authentication failure")) || contains_chars(
            &c,
            &chars_of("try again"),
        ) || contains_chars(&c, &chars_of("falsch")) || contains_chars(
            &c,
            &chars_of("fehlgeschlagen"),
        ) {
            Err(text("SUDO_AUTH_FAILED"))
        } else {
            cli_outcome(false, stdout, stderr)
        }
    }
}

/// The `sudo` arguments that run the client with `args`: `-n -E` to rely on
/// cached credentials, `-S -E -p ""` to read a password from standard input.
pub fn sudo_args(args: &Vec<String>, with_password: bool) -> (res: Vec<String>)
    ensures
        res.deep_view() == spec_sudo_args(args.deep_view(), with_password),
{
    let mut res: Vec<String> = Vec::new();
    if with_password {
        res.push(text("-S"));
        res.push(text("-E"));
        res.push(text("-p"));
        res.push(text(""));
    } else {
        res.push(text("-n"));
        res.push(text("-E"));
    }
    res.push(text("adguardvpn-cli"));
    let ghost head = res.deep_view();
    assert(head =~= (if with_password {
        seq!["-S"@, "-E"@, "-p"@, ""@, "adguardvpn-cli"@]
    } else {
        seq!["-n"@, "-E"@, "adguardvpn-cli"@]
    }));
    let n = args.len();
    let mut i: usize = 0;
    while i < n
        invariant
            n == args.deep_view().len(),
            i <= n,
            res.deep_view() == head + args.deep_view().take(i as int),
        decreases n - i,
    {
        let ghost before = res.deep_view();
        res.push(args[i].clone());
        assert(args.deep_view().take(i + 1) =~= args.deep_view().take(i as int).push(
            args.deep_view()[i as int],
        ));
        assert(res.deep_view() =~= before.push(args.deep_view()[i as int]));
        i = i + 1;
    }
    assert(args.deep_view().take(n as int) =~= args.deep_view());
    res
}

/// The client arguments that connect: `--fastest` wins over a location.
pub fn connect_args(location: Option<String>, fastest: bool) -> (res: Vec<String>)
    ensures
        res.deep_view() == spec_connect_args(
            match location {
                Some(l) => Some(l@),
                None => None,
            },
            fastest,
        ),
{
    let mut res: Vec<String> = Vec::new();
    res.push(text("connect"));
    res.push(text("--yes"));
    if fastest {
        res.push(text("--fastest"));
    } else {
        match location {
            Some(l) => {
                res.push(text("-l"));
                res.push(l);
            },
            None => {},
        }
    }
    assert(res.deep_view() =~= spec_connect_args(
        match location {
            Some(l) => Some(l@),
            None => None,
        },
        fastest,
    ));
    res
}

/// The value of an on/off setting as the client takes it: "true" or "false".
pub fn switch_arg(enabled: bool) -> (res: String)
    ensures
        res@ == (if enabled {
            "true"@
        } else {
            "false"@
        }),
{
    if enabled {
        text("true")
    } else {
        text("false")
    }
}

/// Reads the site-exclusion mode and the list of excluded sites from the
/// outputs of `site-exclusions mode` and `site-exclusions show`.
pub fn parse_exclusions(mode_out: &str, list_out: &str) -> (res: (String, Vec<String>))
    ensures
        res.0@ == trim(spec_strip_ansi(mode_out@)),
        res.1.deep_view() == exclusions_of(lines(spec_strip_ansi(list_out@))),
{
    let mode_clean = strip_ansi(mode_out);
    let mode = string_of(&trim_chars(&chars_of(mode_clean.as_str())));
    let list_clean = strip_ansi(list_out);
    let ls = lines_of(&chars_of(list_clean.as_str()));
    let ghost all = ls.deep_view();
    let n = ls.len();
    let mut out: Vec<String> = Vec::new();
    let mut i: usize = 0;
    assert(all.skip(0) =~= all);
    assert(out.deep_view() =~= Seq::<Seq<char>>::empty());
    while i < n
        invariant
            n == all.len(),
            all == ls.deep_view(),
            i <= n,
            exclusions_of(all) == out.deep_view() + exclusions_of(all.skip(i as int)),
        decreases n - i,
    {
        let ghost rest = all.skip(i as int);
        assert(rest[0] == all[i as int]);
        assert(rest.drop_first() =~= all.skip(i + 1));
        let ghost before = out.deep_view();
        let t = trim_chars(&line_at(&ls, i));
        if t.len() > 0 && !contains_chars(&lowercase(&t), &chars_of("no exclusions")) {
            out.push(string_of(&t));
            assert(out.deep_view() =~= before.push(t@));
            assert(before.push(t@) + exclusions_of(all.skip(i + 1)) =~= before + (seq![t@]
                + exclusions_of(all.skip(i + 1))));
        }
        i = i + 1;
    }
    assert(all.skip(i as int) =~= Seq::<Seq<char>>::empty());
    assert(out.deep_view() + Seq::<Seq<char>>::empty() =~= out.deep_view());
    (mode, out)
}

} // verus!
