# auximap

auximap shows IMAP mail as files. A file manager hands it paths such as
`aux://S_auximap/account/folder/[uid] name.eml`, and it lists, shows, saves,
copies, moves and deletes the messages behind them.

- `src/` is the library: paths, configuration, account rules, mailbox names,
  header words, listings, templates, deletion and everything else that can be
  decided without the network, the disk or the clock. It is written in Verus;
  each function states its behaviour in a contract, and the properties that
  span functions are proved as `law_*`.
- `app/` is the program around it: it reads files and the environment, talks to
  the server and writes what the library decided.
- `tests/` runs the library.

What the proofs rest on is declared next to its use: the text functions of the
standard library in `text/unicode.rs`, the Japanese character sets of
`encoding_rs` in `charset.rs`, the configuration syntax of `ini` in
`sections.rs`, the dates of `chrono` in `date.rs`, and the message format of
`mailparse` in `message.rs`.

## Which setting counts

The host, the port, the encryption and the trash folder of an account are each
taken from the first of these that has it:

1. the account's own section,
2. the `[RULE:pattern]` section for the domain of its address: one that names
   the domain, else one whose pattern covers it, else `[RULE:DEFAULT]`,
3. for the trash folder, the section `[DEFAULT]`,
4. the built-in rules, port 993, encryption and the folder `Trash`.

How much is listed and how dates are shown is taken from the account's own
section, else from `[DEFAULT]`.

A user or a password in the configuration goes before one that is given with
the call; a password that is given with the call goes before `AUXIMAP_PASS_*`
and `AUXIMAP_PASS` in the environment.
