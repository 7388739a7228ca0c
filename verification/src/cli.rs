//! Options on the command line.

use vstd::prelude::*;
use crate::config;
use crate::text::{chars, number, search, trim};

verus! {

/// The texts of a list of option names.
pub open spec fn names_of(names: Seq<&str>) -> Seq<Seq<char>> {
    Seq::new(names.len(), |i: int| names[i]@)
}

/// What stands behind the mark of an option: two hyphens, one, or a slash.
/// `None` where the argument is no option.
pub open spec fn option_body(arg: Seq<char>) -> Option<Seq<char>> {
    let s = trim::trim(arg);
    if search::starts_with(s, seq!['-', '-']) {
        Some(s.skip(2))
    } else if search::starts_with(s, seq!['-']) || search::starts_with(s, seq!['/']) {
        Some(s.skip(1))
    } else {
        None
    }
}

/// The argument is the option of one of the names.
pub open spec fn is_option(arg: Seq<char>, names: Seq<Seq<char>>) -> bool {
    option_body(arg) matches Some(body) && exists|i: int|
        0 <= i < names.len() && chars::same_ignoring_case(body, #[trigger] names[i])
}

/// What stands behind the name and an equals sign or a colon.
pub open spec fn value_behind(body: Seq<char>, name: Seq<char>) -> Option<Seq<char>> {
    let n = name.len() as int;
    if n < body.len() && chars::same_ignoring_case(body.take(n), name) && (body[n] == '='
        || body[n] == ':') {
        Some(body.skip(n + 1))
    } else {
        None
    }
}

/// What stands behind the first of the names that fits, and an equals sign or
/// a colon.
pub open spec fn value_behind_any(body: Seq<char>, names: Seq<Seq<char>>) -> Option<Seq<char>>
    decreases names.len(),
{
    if names.len() == 0 {
        None
    } else if value_behind(body, names[0]) is Some {
        value_behind(body, names[0])
    } else {
        value_behind_any(body, names.drop_first())
    }
}

/// The value that the argument gives to the option of one of the names.
pub open spec fn option_value(arg: Seq<char>, names: Seq<Seq<char>>) -> Option<Seq<char>> {
    match option_body(arg) {
        Some(body) => value_behind_any(body, names),
        None => None,
    }
}

/// What stands behind the mark of the option `arg`.
pub fn body_of(arg: &str) -> (r: Option<String>)
    ensures
        chars::opt_text(r) == option_body(arg@),
{
    proof {
        reveal_strlit("--");
        reveal_strlit("-");
        reveal_strlit("/");
        assert("--"@ =~= seq!['-', '-']);
        assert("-"@ =~= seq!['-']);
        assert("/"@ =~= seq!['/']);
    }
    let s = trim::trim_text(arg);
    let n: usize = s.as_str().unicode_len();
    if search::text_starts_with(&s, "--") {
        let body = s.as_str().substring_char(2, n).to_owned();
        assert(body@ =~= s@.skip(2));
        Some(body)
    } else if search::text_starts_with(&s, "-") || search::text_starts_with(&s, "/") {
        let body = s.as_str().substring_char(1, n).to_owned();
        assert(body@ =~= s@.skip(1));
        Some(body)
    } else {
        None
    }
}

/// Whether `arg` is the option of one of the names.
pub fn is_opt(arg: &str, names: &[&str]) -> (b: bool)
    ensures
        b == is_option(arg@, names_of(names@)),
{
    let body = match body_of(arg) {
        Some(body) => body,
        None => {
            return false;
        },
    };
    let ghost all = names_of(names@);
    let mut i: usize = 0;
    while i < names.len()
        invariant
            all == names_of(names@),
            option_body(arg@) == Some(body@),
            i <= names.len(),
            forall|j: int| 0 <= j < i ==> !chars::same_ignoring_case(body@, #[trigger] all[j]),
        decreases names.len() - i,
    {
        let name: &str = names[i];
        assert(all[i as int] == name@);
        if chars::eq_ignore_case(&body, name) {
            return true;
        }
        i += 1;
    }
    false
}

/// What stands behind `name` and an equals sign or a colon in `body`.
fn value_after(body: &str, name: &str) -> (r: Option<String>)
    ensures
        chars::opt_text(r) == value_behind(body@, name@),
{
    let n: usize = name.unicode_len();
    let len: usize = body.unicode_len();
    if n < len {
        let front = body.substring_char(0, n);
        assert(front@ =~= body@.take(n as int));
        if chars::eq_ignore_case(front, name) {
            let c: char = body.get_char(n);
            if c == '=' || c == ':' {
                let value = body.substring_char(n + 1, len).to_owned();
                assert(value@ =~= body@.skip(n + 1));
                return Some(value);
            }
        }
    }
    None
}

/// The value that `arg` gives to the option of one of the names.
pub fn strip_opt_val(arg: &str, names: &[&str]) -> (r: Option<String>)
    ensures
        chars::opt_text(r) == option_value(arg@, names_of(names@)),
{
    let body = match body_of(arg) {
        Some(body) => body,
        None => {
            return None;
        },
    };
    let ghost all = names_of(names@);
    let mut i: usize = 0;
    assert(all.skip(0) =~= all);
    while i < names.len()
        invariant
            all == names_of(names@),
            option_body(arg@) == Some(body@),
            i <= names.len(),
            value_behind_any(body@, all) == value_behind_any(body@, all.skip(i as int)),
        decreases names.len() - i,
    {
        let name: &str = names[i];
        assert(all.skip(i as int)[0] == name@);
        let value = value_after(&body, name);
        if value.is_some() {
            return value;
        }
        assert(all.skip(i as int).drop_first() =~= all.skip(i + 1));
        i += 1;
    }
    None
}

// ---------------------------------------------------------------------------
// Credentials
// ---------------------------------------------------------------------------

/// What an argument means among those that every command takes.
pub enum ArgumentView {
    /// The next argument is the password.
    PassNext,
    /// This is the password.
    Pass(Seq<char>),
    /// The next argument is the user.
    UserNext,
    /// This is the user.
    User(Seq<char>),
    /// A log is to be kept.
    Debug,
    /// Something else.
    Plain,
}

/// What an argument means.
pub open spec fn argument(arg: Seq<char>) -> ArgumentView {
    if is_option(arg, seq!["pass"@]) {
        ArgumentView::PassNext
    } else if option_value(arg, seq!["pass"@]) is Some {
        ArgumentView::Pass(option_value(arg, seq!["pass"@])->0)
    } else if is_option(arg, seq!["user"@]) {
        ArgumentView::UserNext
    } else if option_value(arg, seq!["user"@]) is Some {
        ArgumentView::User(option_value(arg, seq!["user"@])->0)
    } else if is_option(arg, seq!["debug"@, "d"@]) {
        ArgumentView::Debug
    } else {
        ArgumentView::Plain
    }
}

/// What an argument means.
enum Argument {
    PassNext,
    Pass(String),
    UserNext,
    User(String),
    Debug,
    Plain,
}

impl View for Argument {
    type V = ArgumentView;

    closed spec fn view(&self) -> ArgumentView {
        match *self {
            Argument::PassNext => ArgumentView::PassNext,
            Argument::Pass(s) => ArgumentView::Pass(s@),
            Argument::UserNext => ArgumentView::UserNext,
            Argument::User(s) => ArgumentView::User(s@),
            Argument::Debug => ArgumentView::Debug,
            Argument::Plain => ArgumentView::Plain,
        }
    }
}

/// What the argument `arg` means.
fn read_argument(arg: &str) -> (r: Argument)
    ensures
        r@ == argument(arg@),
{
    let pass: [&str; 1] = ["pass"];
    let user: [&str; 1] = ["user"];
    let debug: [&str; 2] = ["debug", "d"];
    assert(names_of(pass@) =~= seq!["pass"@]);
    assert(names_of(user@) =~= seq!["user"@]);
    assert(names_of(debug@) =~= seq!["debug"@, "d"@]);
    if is_opt(arg, &pass) {
        return Argument::PassNext;
    }
    if let Some(value) = strip_opt_val(arg, &pass) {
        return Argument::Pass(value);
    }
    if is_opt(arg, &user) {
        return Argument::UserNext;
    }
    if let Some(value) = strip_opt_val(arg, &user) {
        return Argument::User(value);
    }
    if is_opt(arg, &debug) {
        return Argument::Debug;
    }
    Argument::Plain
}

/// A command line with the options that every command takes set apart.
#[derive(Debug)]
pub struct CliArgs {
    pub args: Vec<String>,
    pub pass: Option<String>,
    pub user: Option<String>,
    pub debug: bool,
}

/// The contents of a command line.
pub struct CliView {
    pub args: Seq<Seq<char>>,
    pub pass: Option<Seq<char>>,
    pub user: Option<Seq<char>>,
    pub debug: bool,
}

impl View for CliArgs {
    type V = CliView;

    open spec fn view(&self) -> CliView {
        CliView {
            args: chars::texts(self.args@),
            pass: chars::opt_text(self.pass),
            user: chars::opt_text(self.user),
            debug: self.debug,
        }
    }
}

/// A value that is not blank goes before an earlier one.
pub open spec fn newer(value: Seq<char>, earlier: Option<Seq<char>>) -> Option<Seq<char>> {
    config::either(config::filled(Some(value)), earlier)
}

/// A command line read to its end, where `so_far` is what has been read. An
/// option that lacks its value is an argument like any other.
pub open spec fn scanned(rest: Seq<Seq<char>>, so_far: CliView) -> CliView
    decreases rest.len(),
{
    if rest.len() == 0 {
        so_far
    } else {
        let kept = CliView { args: so_far.args.push(rest[0]), ..so_far };
        match argument(rest[0]) {
            ArgumentView::PassNext => if rest.len() > 1 {
                scanned(rest.skip(2), CliView { pass: newer(rest[1], so_far.pass), ..so_far })
            } else {
                kept
            },
            ArgumentView::Pass(v) => scanned(
                rest.skip(1),
                CliView { pass: newer(v, so_far.pass), ..so_far },
            ),
            ArgumentView::UserNext => if rest.len() > 1 {
                scanned(rest.skip(2), CliView { user: newer(rest[1], so_far.user), ..so_far })
            } else {
                kept
            },
            ArgumentView::User(v) => scanned(
                rest.skip(1),
                CliView { user: newer(v, so_far.user), ..so_far },
            ),
            ArgumentView::Debug => scanned(rest.skip(1), CliView { debug: true, ..so_far }),
            ArgumentView::Plain => scanned(rest.skip(1), kept),
        }
    }
}

/// A command line of which nothing has been read.
pub open spec fn nothing_read() -> CliView {
    CliView { args: seq![], pass: None, user: None, debug: false }
}

/// The first of a new value, unless it is blank, and an earlier one.
fn take_newer(value: &str, earlier: Option<String>) -> (r: Option<String>)
    ensures
        chars::opt_text(r) == newer(value@, chars::opt_text(earlier)),
{
    match config::filled_text(Some(value.to_owned())) {
        Some(v) => Some(v),
        None => earlier,
    }
}

/// The command line `raw_args` with the options that every command takes set
/// apart.
pub fn scan_cli_args(raw_args: &Vec<String>) -> (r: CliArgs)
    ensures
        r@ == scanned(chars::texts(raw_args@), nothing_read()),
{
    let ghost all = chars::texts(raw_args@);
    let mut out = CliArgs { args: Vec::new(), pass: None, user: None, debug: false };
    assert(chars::texts(out.args@) =~= seq![]);
    let mut i: usize = 0;
    assert(all.skip(0) =~= all);
    while i < raw_args.len()
        invariant
            all == chars::texts(raw_args@),
            i <= raw_args.len(),
            scanned(all, nothing_read()) == scanned(all.skip(i as int), out@),
        decreases raw_args.len() - i,
    {
        let ghost rest = all.skip(i as int);
        let ghost before = out@;
        assert(rest[0] == raw_args@[i as int]@);
        let has_next: bool = raw_args.len() - i > 1;
        if has_next {
            assert(rest[1] == raw_args@[i + 1]@);
            assert(rest.skip(2) =~= all.skip(i + 2));
        }
        assert(rest.skip(1) =~= all.skip(i + 1));
        let mut keep = false;
        let mut used: usize = 1;
        match read_argument(&raw_args[i]) {
            Argument::PassNext => {
                if has_next {
                    out.pass = take_newer(&raw_args[i + 1], out.pass);
                    used = 2;
                } else {
                    keep = true;
                }
            },
            Argument::Pass(v) => {
                out.pass = take_newer(&v, out.pass);
            },
            Argument::UserNext => {
                if has_next {
                    out.user = take_newer(&raw_args[i + 1], out.user);
                    used = 2;
                } else {
                    keep = true;
                }
            },
            Argument::User(v) => {
                out.user = take_newer(&v, out.user);
            },
            Argument::Debug => {
                out.debug = true;
            },
            Argument::Plain => {
                keep = true;
            },
        }
        if keep {
            out.args.push(raw_args[i].clone());
            assert(chars::texts(out.args@) =~= before.args.push(rest[0]));
            if !has_next {
                assert(all.skip(i + 1) =~= seq![]);
                assert(scanned(all.skip(i + 1), out@) == out@);
            }
        }
        i += used;
    }
    assert(all.skip(i as int) =~= seq![]);
    out
}

/// The arguments, the password and the user of the command line `raw_args`.
pub fn parse_cli_args(raw_args: &Vec<String>) -> (r: (Vec<String>, Option<String>, Option<String>))
    ensures
        ({
            let read = scanned(chars::texts(raw_args@), nothing_read());
            &&& chars::texts(r.0@) == read.args
            &&& chars::opt_text(r.1) == read.pass
            &&& chars::opt_text(r.2) == read.user
        }),
{
    let read = scan_cli_args(raw_args);
    (read.args, read.pass, read.user)
}

// ---------------------------------------------------------------------------
// Hiding passwords
// ---------------------------------------------------------------------------

/// The argument at this place is hidden because a password option stands in
/// front of it.
pub open spec fn is_behind_pass(args: Seq<Seq<char>>, i: int) -> bool
    decreases i,
{
    0 < i <= args.len() && !is_behind_pass(args, i - 1) && argument(args[i - 1]) is PassNext
}

/// The mark that an argument with a hidden password keeps.
pub open spec fn masked_option(arg: Seq<char>) -> Seq<char> {
    (if search::starts_with(arg, seq!['-', '-']) {
        "--pass="@
    } else if search::starts_with(arg, seq!['/']) {
        "/pass="@
    } else {
        "-pass="@
    }) + "********"@
}

/// The argument at this place as it may be shown.
pub open spec fn masked_at(args: Seq<Seq<char>>, i: int) -> Seq<char> {
    if is_behind_pass(args, i) {
        "********"@
    } else if argument(args[i]) is Pass {
        masked_option(args[i])
    } else {
        args[i]
    }
}

/// The arguments as they may be shown.
pub open spec fn masked(args: Seq<Seq<char>>) -> Seq<Seq<char>> {
    Seq::new(args.len(), |i: int| masked_at(args, i))
}

/// The arguments `args` as they may be shown: without passwords.
pub fn mask_args(args: &Vec<String>) -> (r: Vec<String>)
    ensures
        chars::texts(r@) == masked(chars::texts(args@)),
{
    proof {
        reveal_strlit("--");
        reveal_strlit("/");
        assert("--"@ =~= seq!['-', '-']);
        assert("/"@ =~= seq!['/']);
    }
    let ghost all = chars::texts(args@);
    let mut out: Vec<String> = Vec::new();
    let mut hide_next = false;
    let mut i: usize = 0;
    while i < args.len()
        invariant
            all == chars::texts(args@),
            i <= args.len(),
            out.len() == i,
            hide_next == is_behind_pass(all, i as int),
            "--"@ == seq!['-', '-'],
            "/"@ == seq!['/'],
            forall|j: int| 0 <= j < i ==> (#[trigger] out@[j])@ == masked_at(all, j),
        decreases args.len() - i,
    {
        let arg = &args[i];
        assert(all[i as int] == arg@);
        let meaning = read_argument(arg);
        if hide_next {
            out.push("********".to_owned());
            hide_next = false;
        } else {
            match meaning {
                Argument::PassNext => {
                    out.push(arg.clone());
                    hide_next = true;
                },
                Argument::Pass(_) => {
                    let prefix = if search::text_starts_with(arg, "--") {
                        "--pass="
                    } else if search::text_starts_with(arg, "/") {
                        "/pass="
                    } else {
                        "-pass="
                    };
                    out.push(chars::concat2(prefix, "********"));
                },
                _ => {
                    out.push(arg.clone());
                },
            }
        }
        i += 1;
    }
    assert(chars::texts(out@) =~= masked(all));
    out
}

/// Reading the command line from place `i` on takes a password from the
/// argument at place `k`.
pub open spec fn takes_password(args: Seq<Seq<char>>, i: int, k: int) -> bool
    decreases args.len() - i,
{
    0 <= i < args.len() && match argument(args[i]) {
        ArgumentView::PassNext => i + 1 < args.len() && (k == i + 1 || takes_password(
            args,
            i + 2,
            k,
        )),
        ArgumentView::UserNext => i + 1 < args.len() && takes_password(args, i + 2, k),
        ArgumentView::Pass(_) => k == i || takes_password(args, i + 1, k),
        _ => takes_password(args, i + 1, k),
    }
}

/// An argument that a password is taken from is not shown as it is, unless the
/// option in front of it is hidden itself, which takes a user in the shape of a
/// password option.
pub proof fn law_passwords_are_hidden(args: Seq<Seq<char>>, k: int)
    requires
        takes_password(args, 0, k),
        is_behind_pass(args, k - 1) ==> argument(args[k]) is Pass,
    ensures
        0 <= k < args.len(),
        masked(args)[k] == "********"@ || masked(args)[k] == masked_option(args[k]),
{
    lemma_password_is_announced(args, 0, k);
}

/// A password is taken from an argument that gives one, or that stands behind
/// a password option.
proof fn lemma_password_is_announced(args: Seq<Seq<char>>, i: int, k: int)
    requires
        takes_password(args, i, k),
    ensures
        i <= k < args.len(),
        argument(args[k]) is Pass || k > 0 && argument(args[k - 1]) is PassNext,
    decreases args.len() - i,
{
    match argument(args[i]) {
        ArgumentView::PassNext => {
            if k != i + 1 {
                lemma_password_is_announced(args, i + 2, k);
            }
        },
        ArgumentView::UserNext => {
            lemma_password_is_announced(args, i + 2, k);
        },
        ArgumentView::Pass(_) => {
            if k != i {
                lemma_password_is_announced(args, i + 1, k);
            }
        },
        _ => {
            lemma_password_is_announced(args, i + 1, k);
        },
    }
}

/// Nothing but passwords is hidden: an argument that neither gives a password
/// nor stands behind a password option is shown as it is.
pub proof fn law_other_arguments_are_shown(args: Seq<Seq<char>>, k: int)
    requires
        0 <= k < args.len(),
        !(argument(args[k]) is Pass),
        k > 0 ==> !(argument(args[k - 1]) is PassNext),
    ensures
        masked(args)[k] == args[k],
{
}

/// No argument that gives a password is left among the arguments, where none
/// was before.
proof fn lemma_no_password_is_left_over(rest: Seq<Seq<char>>, so_far: CliView, k: int)
    requires
        0 <= k < scanned(rest, so_far).args.len(),
        forall|j: int|
            0 <= j < so_far.args.len() ==> !(argument(#[trigger] so_far.args[j]) is Pass),
    ensures
        !(argument(scanned(rest, so_far).args[k]) is Pass),
    decreases rest.len(),
{
    if rest.len() > 0 {
        let kept = CliView { args: so_far.args.push(rest[0]), ..so_far };
        match argument(rest[0]) {
            ArgumentView::PassNext => {
                if rest.len() > 1 {
                    lemma_no_password_is_left_over(
                        rest.skip(2),
                        CliView { pass: newer(rest[1], so_far.pass), ..so_far },
                        k,
                    );
                }
            },
            ArgumentView::Pass(v) => {
                lemma_no_password_is_left_over(
                    rest.skip(1),
                    CliView { pass: newer(v, so_far.pass), ..so_far },
                    k,
                );
            },
            ArgumentView::UserNext => {
                if rest.len() > 1 {
                    lemma_no_password_is_left_over(
                        rest.skip(2),
                        CliView { user: newer(rest[1], so_far.user), ..so_far },
                        k,
                    );
                }
            },
            ArgumentView::User(v) => {
                lemma_no_password_is_left_over(
                    rest.skip(1),
                    CliView { user: newer(v, so_far.user), ..so_far },
                    k,
                );
            },
            ArgumentView::Debug => {
                lemma_no_password_is_left_over(
                    rest.skip(1),
                    CliView { debug: true, ..so_far },
                    k,
                );
            },
            ArgumentView::Plain => {
                lemma_no_password_is_left_over(rest.skip(1), kept, k);
            },
        }
    }
}

/// No argument that gives a password is left among the arguments of the
/// command.
pub proof fn law_no_password_is_left_over(args: Seq<Seq<char>>, k: int)
    requires
        0 <= k < scanned(args, nothing_read()).args.len(),
    ensures
        !(argument(scanned(args, nothing_read()).args[k]) is Pass),
{
    lemma_no_password_is_left_over(args, nothing_read(), k);
}

/// The password in an argument: what it gives, or the argument itself.
pub open spec fn password_in(arg: Seq<char>, pass: Seq<char>) -> bool {
    pass == trim::trim(arg) || (argument(arg) matches ArgumentView::Pass(v) && pass == trim::trim(
        v,
    ))
}

/// A password that is read, and was not known before, is taken from an
/// argument.
proof fn lemma_password_is_taken(args: Seq<Seq<char>>, i: int, so_far: CliView, pass: Seq<char>)
    requires
        0 <= i <= args.len(),
        scanned(args.skip(i), so_far).pass == Some(pass),
        so_far.pass != Some(pass),
    ensures
        exists|k: int| #[trigger] takes_password(args, i, k) && password_in(args[k], pass),
    decreases args.len() - i,
{
    let rest = args.skip(i);
    if i < args.len() {
        let kept = CliView { args: so_far.args.push(rest[0]), ..so_far };
        assert(rest[0] == args[i]);
        assert(rest.skip(1) =~= args.skip(i + 1));
        if i + 1 < args.len() {
            assert(rest[1] == args[i + 1]);
            assert(rest.skip(2) =~= args.skip(i + 2));
        }
        match argument(args[i]) {
            ArgumentView::PassNext => {
                if i + 1 < args.len() {
                    let next = CliView { pass: newer(rest[1], so_far.pass), ..so_far };
                    if next.pass == Some(pass) {
                        assert(takes_password(args, i, i + 1));
                        assert(password_in(args[i + 1], pass));
                    } else {
                        lemma_password_is_taken(args, i + 2, next, pass);
                        let k = choose|k: int| #[trigger]
                            takes_password(args, i + 2, k) && password_in(args[k], pass);
                        assert(takes_password(args, i, k));
                    }
                }
            },
            ArgumentView::Pass(v) => {
                let next = CliView { pass: newer(v, so_far.pass), ..so_far };
                if next.pass == Some(pass) {
                    assert(takes_password(args, i, i));
                    assert(password_in(args[i], pass));
                } else {
                    lemma_password_is_taken(args, i + 1, next, pass);
                    let k = choose|k: int| #[trigger]
                        takes_password(args, i + 1, k) && password_in(args[k], pass);
                    assert(takes_password(args, i, k));
                }
            },
            ArgumentView::UserNext => {
                if i + 1 < args.len() {
                    let next = CliView { user: newer(rest[1], so_far.user), ..so_far };
                    lemma_password_is_taken(args, i + 2, next, pass);
                    let k = choose|k: int| #[trigger]
                        takes_password(args, i + 2, k) && password_in(args[k], pass);
                    assert(takes_password(args, i, k));
                }
            },
            ArgumentView::User(v) => {
                let next = CliView { user: newer(v, so_far.user), ..so_far };
                lemma_password_is_taken(args, i + 1, next, pass);
                let k = choose|k: int| #[trigger]
                    takes_password(args, i + 1, k) && password_in(args[k], pass);
                assert(takes_password(args, i, k));
            },
            ArgumentView::Debug => {
                let next = CliView { debug: true, ..so_far };
                lemma_password_is_taken(args, i + 1, next, pass);
                let k = choose|k: int| #[trigger]
                    takes_password(args, i + 1, k) && password_in(args[k], pass);
                assert(takes_password(args, i, k));
            },
            ArgumentView::Plain => {
                lemma_password_is_taken(args, i + 1, kept, pass);
                let k = choose|k: int| #[trigger]
                    takes_password(args, i + 1, k) && password_in(args[k], pass);
                assert(takes_password(args, i, k));
            },
        }
    }
}

/// The password of a command line is taken from one of its arguments.
pub proof fn law_password_is_taken_from_an_argument(args: Seq<Seq<char>>, pass: Seq<char>)
    requires
        scanned(args, nothing_read()).pass == Some(pass),
    ensures
        exists|k: int| #[trigger] takes_password(args, 0, k) && password_in(args[k], pass),
{
    assert(args.skip(0) =~= args);
    lemma_password_is_taken(args, 0, nothing_read(), pass);
}

/// No option at the end of a command line waits for its value.
pub open spec fn is_complete(rest: Seq<Seq<char>>) -> bool
    decreases rest.len(),
{
    if rest.len() == 0 {
        true
    } else {
        match argument(rest[0]) {
            ArgumentView::PassNext | ArgumentView::UserNext => rest.len() > 1 && is_complete(
                rest.skip(2),
            ),
            _ => is_complete(rest.skip(1)),
        }
    }
}

/// Two command lines put together are read one after the other, where no
/// option at the end of the first waits for its value.
pub proof fn law_command_lines_are_read_in_turn(
    a: Seq<Seq<char>>,
    b: Seq<Seq<char>>,
    so_far: CliView,
)
    requires
        is_complete(a),
    ensures
        scanned(a + b, so_far) == scanned(b, scanned(a, so_far)),
    decreases a.len(),
{
    if a.len() == 0 {
        assert(a + b =~= b);
    } else {
        let all = a + b;
        let kept = CliView { args: so_far.args.push(a[0]), ..so_far };
        assert(all[0] == a[0]);
        assert(all.skip(1) =~= a.skip(1) + b);
        match argument(a[0]) {
            ArgumentView::PassNext => {
                assert(all[1] == a[1]);
                assert(all.skip(2) =~= a.skip(2) + b);
                law_command_lines_are_read_in_turn(
                    a.skip(2),
                    b,
                    CliView { pass: newer(a[1], so_far.pass), ..so_far },
                );
            },
            ArgumentView::Pass(v) => {
                law_command_lines_are_read_in_turn(
                    a.skip(1),
                    b,
                    CliView { pass: newer(v, so_far.pass), ..so_far },
                );
            },
            ArgumentView::UserNext => {
                assert(all[1] == a[1]);
                assert(all.skip(2) =~= a.skip(2) + b);
                law_command_lines_are_read_in_turn(
                    a.skip(2),
                    b,
                    CliView { user: newer(a[1], so_far.user), ..so_far },
                );
            },
            ArgumentView::User(v) => {
                law_command_lines_are_read_in_turn(
                    a.skip(1),
                    b,
                    CliView { user: newer(v, so_far.user), ..so_far },
                );
            },
            ArgumentView::Debug => {
                law_command_lines_are_read_in_turn(
                    a.skip(1),
                    b,
                    CliView { debug: true, ..so_far },
                );
            },
            ArgumentView::Plain => {
                law_command_lines_are_read_in_turn(a.skip(1), b, kept);
            },
        }
    }
}

// ---------------------------------------------------------------------------
// Listing options
// ---------------------------------------------------------------------------

/// How much of a folder a call wants to be listed.
#[derive(Debug, Clone, Copy, PartialEq, Eq, Structural)]
pub struct ListOptions {
    pub chunk: Option<u32>,
    pub offset: Option<u32>,
    pub limit: Option<u32>,
}

/// The number that an argument is.
pub open spec fn number_arg(arg: Seq<char>) -> Option<u32> {
    match number::unsigned(arg, u32::MAX as nat) {
        Some(n) => Some(n as u32),
        None => None,
    }
}

/// The number that the next argument is.
pub open spec fn next_number(rest: Seq<Seq<char>>) -> Option<u32> {
    if rest.len() > 1 {
        number_arg(rest[1])
    } else {
        None
    }
}

/// The options read to their end, where `so_far` is what has been read. A
/// chunk without a size is one of 250 messages, and other options without a
/// number say nothing.
pub open spec fn list_options(rest: Seq<Seq<char>>, so_far: ListOptions) -> ListOptions
    decreases rest.len(),
{
    if rest.len() == 0 {
        so_far
    } else if is_option(rest[0], seq!["chunk"@, "c"@]) {
        match next_number(rest) {
            Some(n) => list_options(rest.skip(2), ListOptions { chunk: Some(n), ..so_far }),
            None => list_options(rest.skip(1), ListOptions { chunk: Some(250), ..so_far }),
        }
    } else if option_value(rest[0], seq!["chunk"@, "c"@]) is Some {
        let n = match number_arg(option_value(rest[0], seq!["chunk"@, "c"@])->0) {
            Some(n) => n,
            None => 250,
        };
        list_options(rest.skip(1), ListOptions { chunk: Some(n), ..so_far })
    } else if is_option(rest[0], seq!["offset"@, "o"@]) {
        match next_number(rest) {
            Some(n) => list_options(rest.skip(2), ListOptions { offset: Some(n), ..so_far }),
            None => list_options(rest.skip(1), so_far),
        }
    } else if option_value(rest[0], seq!["offset"@, "o"@]) is Some {
        let n = number_arg(option_value(rest[0], seq!["offset"@, "o"@])->0);
        list_options(
            rest.skip(1),
            ListOptions { offset: config::either(n, so_far.offset), ..so_far },
        )
    } else if is_option(rest[0], seq!["limit"@, "l"@]) {
        match next_number(rest) {
            Some(n) => list_options(rest.skip(2), ListOptions { limit: Some(n), ..so_far }),
            None => list_options(rest.skip(1), so_far),
        }
    } else if option_value(rest[0], seq!["limit"@, "l"@]) is Some {
        let n = number_arg(option_value(rest[0], seq!["limit"@, "l"@])->0);
        list_options(
            rest.skip(1),
            ListOptions { limit: config::either(n, so_far.limit), ..so_far },
        )
    } else {
        list_options(rest.skip(1), so_far)
    }
}

/// Options that say nothing.
pub open spec fn no_options() -> ListOptions {
    ListOptions { chunk: None, offset: None, limit: None }
}

/// The number that `args[i]` is, where there is one.
fn number_at(args: &Vec<String>, i: usize) -> (r: Option<u32>)
    ensures
        r == if i < args.len() {
            number_arg(args@[i as int]@)
        } else {
            None
        },
{
    if i < args.len() {
        number::parse_u32(&args[i])
    } else {
        None
    }
}

/// The listing options among `args`, from the place `from` on.
pub fn parse_list_options(args: &Vec<String>, from: usize) -> (r: ListOptions)
    ensures
        from <= args.len() ==> r == list_options(
            chars::texts(args@).skip(from as int),
            no_options(),
        ),
        from > args.len() ==> r == no_options(),
{
    let chunk: [&str; 2] = ["chunk", "c"];
    let offset: [&str; 2] = ["offset", "o"];
    let limit: [&str; 2] = ["limit", "l"];
    assert(names_of(chunk@) =~= seq!["chunk"@, "c"@]);
    assert(names_of(offset@) =~= seq!["offset"@, "o"@]);
    assert(names_of(limit@) =~= seq!["limit"@, "l"@]);
    let ghost all = chars::texts(args@);
    let mut out = ListOptions { chunk: None, offset: None, limit: None };
    if from > args.len() {
        return out;
    }
    let mut i: usize = from;
    while i < args.len()
        invariant
            all == chars::texts(args@),
            from <= i <= args.len(),
            names_of(chunk@) == seq!["chunk"@, "c"@],
            names_of(offset@) == seq!["offset"@, "o"@],
            names_of(limit@) == seq!["limit"@, "l"@],
            list_options(all.skip(from as int), no_options()) == list_options(
                all.skip(i as int),
                out,
            ),
        decreases args.len() - i,
    {
        let ghost rest = all.skip(i as int);
        assert(rest[0] == args@[i as int]@);
        assert(rest.skip(1) =~= all.skip(i + 1));
        if args.len() - i > 1 {
            assert(rest[1] == args@[i + 1]@);
            assert(rest.skip(2) =~= all.skip(i + 2));
        }
        let mut used: usize = 1;
        let arg = &args[i];
        if is_opt(arg, &chunk) {
            match number_at(args, i + 1) {
                Some(n) => {
                    out.chunk = Some(n);
                    used = 2;
                },
                None => {
                    out.chunk = Some(250);
                },
            }
        } else if let Some(v) = strip_opt_val(arg, &chunk) {
            out.chunk =
            match number::parse_u32(&v) {
                Some(n) => Some(n),
                None => Some(250),
            };
        } else if is_opt(arg, &offset) {
            if let Some(n) = number_at(args, i + 1) {
                out.offset = Some(n);
                used = 2;
            }
        } else if let Some(v) = strip_opt_val(arg, &offset) {
            if let Some(n) = number::parse_u32(&v) {
                out.offset = Some(n);
            }
        } else if is_opt(arg, &limit) {
            if let Some(n) = number_at(args, i + 1) {
                out.limit = Some(n);
                used = 2;
            }
        } else if let Some(v) = strip_opt_val(arg, &limit) {
            if let Some(n) = number::parse_u32(&v) {
                out.limit = Some(n);
            }
        }
        i += used;
    }
    assert(all.skip(i as int) =~= seq![]);
    out
}

} // verus!
