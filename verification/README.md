# adguard_vpn_gui

The logic of a desktop front end for `adguardvpn-cli`, verified with Verus.

- `src/` — the verified library: ANSI colour stripping (`ansi`), table rows split
  at runs of two or more spaces (`columns`), the readers of the client's
  `status`, `list-locations`, `license`, `config show` and `site-exclusions`
  replies (`status`, `locations`, `license`, `config`, `cli`), the meaning of a
  finished client run, plain or through `sudo` (`cli`), and the text primitives
  they stand on, each specified over `Seq<char>` (`text`).
- `tests/` — tests on concrete inputs, among them comparisons of the text
  primitives with the standard library.
- `app/` — the Tauri program: it runs the client and `sudo`, and hands their
  output to the library.
