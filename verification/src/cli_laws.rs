//! What options look like, and what each of them says.

use vstd::prelude::*;
use crate::cli;
use crate::cli::{ArgumentView, CliView, ListOptions};
use crate::text::{chars, number, search, trim, unicode};

verus! {

/// The marks of options: two hyphens, one, or a slash.
pub open spec fn is_mark(mark: Seq<char>, body: Seq<char>) -> bool {
    ||| mark == seq!['-', '-']
    ||| mark == seq!['-'] && body.len() > 0 && body[0] != '-'
    ||| mark == seq!['/']
}

/// What stands behind the mark of an option is its body: behind two hyphens,
/// behind one, or behind a slash. White space around an option does not count.
/// An argument that begins with none of these marks is no option.
pub proof fn law_options_have_marks(mark: Seq<char>, body: Seq<char>, other: Seq<char>)
    requires
        mark == seq!['-', '-'] || mark == seq!['-'] && body.len() > 0 && body[0] != '-' || mark
            == seq!['/'],
        body.len() > 0 ==> !chars::white_space(body.last()),
        other.len() > 0 ==> other[0] != '-' && other[0] != '/' && !chars::white_space(other[0]),
    ensures
        cli::option_body(mark + body) == Some(body),
        cli::option_body(other) is None,
{
    let s = mark + body;
    assert(s[0] == mark[0]);
    if body.len() > 0 {
        assert(s.last() == body.last());
    } else {
        assert(s =~= mark);
    }
    trim::lemma_trim_is_same(s);
    if s.len() >= 2 {
        assert(s.take(2)[1] == s[1]);
        assert(s.take(2)[0] == s[0]);
    }
    assert(s.take(1)[0] == s[0]);
    if mark == seq!['-', '-'] {
        assert(s.take(2) =~= mark);
        assert(s.skip(2) =~= body);
    } else if mark == seq!['-'] {
        assert(s.take(1) =~= mark);
        assert(s.skip(1) =~= body);
        assert(s[1] == body[0]);
    } else {
        assert(s.take(1) =~= mark);
        assert(s.skip(1) =~= body);
    }
    let t = trim::trim(other);
    trim::lemma_trim_end(other);
    assert(trim::trim_start(other) == other);
    if t.len() > 0 {
        assert(t[0] == other[0]);
        assert(t.take(1)[0] == t[0]);
        if t.len() >= 2 {
            assert(t.take(2)[0] == t[0]);
        }
    }
}

/// The words of the options.
proof fn lemma_option_words()
    ensures
        "pass"@.len() == 4 && "pass"@[0] == 'p' && unicode::ascii_lower("pass"@) == "pass"@,
        "user"@.len() == 4 && "user"@[0] == 'u' && unicode::ascii_lower("user"@) == "user"@,
        "debug"@.len() == 5 && "debug"@[0] == 'd' && unicode::ascii_lower("debug"@) == "debug"@,
        "d"@.len() == 1 && "d"@[0] == 'd' && unicode::ascii_lower("d"@) == "d"@,
        "chunk"@.len() == 5 && "chunk"@[0] == 'c' && unicode::ascii_lower("chunk"@) == "chunk"@,
        "c"@.len() == 1 && "c"@[0] == 'c' && unicode::ascii_lower("c"@) == "c"@,
        "offset"@.len() == 6 && "offset"@[0] == 'o' && unicode::ascii_lower("offset"@)
            == "offset"@,
        "o"@.len() == 1 && "o"@[0] == 'o' && unicode::ascii_lower("o"@) == "o"@,
        "limit"@.len() == 5 && "limit"@[0] == 'l' && unicode::ascii_lower("limit"@) == "limit"@,
        "l"@.len() == 1 && "l"@[0] == 'l' && unicode::ascii_lower("l"@) == "l"@,
{
    reveal_strlit("pass");
    reveal_strlit("user");
    reveal_strlit("debug");
    reveal_strlit("d");
    reveal_strlit("chunk");
    reveal_strlit("c");
    reveal_strlit("offset");
    reveal_strlit("o");
    reveal_strlit("limit");
    reveal_strlit("l");
    assert(unicode::ascii_lower("pass"@) =~= "pass"@);
    assert(unicode::ascii_lower("user"@) =~= "user"@);
    assert(unicode::ascii_lower("debug"@) =~= "debug"@);
    assert(unicode::ascii_lower("d"@) =~= "d"@);
    assert(unicode::ascii_lower("chunk"@) =~= "chunk"@);
    assert(unicode::ascii_lower("c"@) =~= "c"@);
    assert(unicode::ascii_lower("offset"@) =~= "offset"@);
    assert(unicode::ascii_lower("o"@) =~= "o"@);
    assert(unicode::ascii_lower("limit"@) =~= "limit"@);
    assert(unicode::ascii_lower("l"@) =~= "l"@);
}

/// A word that ends in no white space, with a letter at its front, is not
/// changed by what options are stripped of.
proof fn lemma_letter(word: Seq<char>, name: Seq<char>)
    requires
        unicode::ascii_lower(word) == name,
        name.len() > 0,
        'a' <= name[0] <= 'z',
    ensures
        word.len() == name.len(),
        word[0] != '-' && word[0] != '/',
        !chars::white_space(word[0]),
{
    assert(unicode::ascii_lower(word).len() == word.len());
    assert(unicode::ascii_lower(word)[0] == unicode::ascii_lower_char(word[0]));
}

/// An option is the one of its name, and of no name that begins otherwise.
proof fn lemma_bare_option(mark: Seq<char>, word: Seq<char>, name: Seq<char>, other: Seq<char>)
    requires
        is_mark(mark, word),
        unicode::ascii_lower(word) == name,
        unicode::ascii_lower(name) == name,
        name.len() > 0,
        'a' <= name[0] <= 'z',
        !chars::white_space(word.last()),
        other.len() > 0,
        unicode::ascii_lower(other) == other,
        other[0] != name[0],
    ensures
        cli::option_body(mark + word) == Some(word),
        chars::same_ignoring_case(word, name),
        !chars::same_ignoring_case(word, other),
        cli::value_behind(word, other) is None,
        cli::value_behind(word, name) is None,
{
    lemma_letter(word, name);
    law_options_have_marks(mark, word, seq![]);
    assert(unicode::ascii_lower(word)[0] == name[0]);
    let n = other.len() as int;
    if n < word.len() {
        let front = word.take(n);
        assert(unicode::ascii_lower(front)[0] == unicode::ascii_lower_char(word[0]));
        assert(unicode::ascii_lower(word)[0] == unicode::ascii_lower_char(word[0]));
    }
}

/// An option with a value is the one of its name, and of no name that begins
/// otherwise.
proof fn lemma_valued_option(
    mark: Seq<char>,
    word: Seq<char>,
    separator: char,
    value: Seq<char>,
    name: Seq<char>,
    other: Seq<char>,
)
    requires
        is_mark(mark, word),
        separator == '=' || separator == ':',
        value.len() > 0 ==> !chars::white_space(value.last()),
        unicode::ascii_lower(word) == name,
        unicode::ascii_lower(name) == name,
        name.len() > 0,
        'a' <= name[0] <= 'z',
        other.len() > 0,
        unicode::ascii_lower(other) == other,
        other[0] != name[0],
    ensures
        ({
            let body = word + seq![separator] + value;
            &&& cli::option_body(mark + body) == Some(body)
            &&& cli::value_behind(body, name) == Some(value)
            &&& !chars::same_ignoring_case(body, name)
            &&& !chars::same_ignoring_case(body, other)
            &&& cli::value_behind(body, other) is None
        }),
{
    lemma_letter(word, name);
    let body = word + seq![separator] + value;
    assert(body[0] == word[0]);
    assert(body.last() == if value.len() > 0 {
        value.last()
    } else {
        separator
    });
    law_options_have_marks(mark, body, seq![]);
    let n = name.len() as int;
    assert(body.take(n) =~= word);
    assert(body.skip(n + 1) =~= value);
    assert(body[n] == separator);
    assert(unicode::ascii_lower(body).len() == body.len());
    assert(unicode::ascii_lower(body)[0] == unicode::ascii_lower_char(word[0]));
    assert(unicode::ascii_lower(word)[0] == unicode::ascii_lower_char(word[0]));
    let m = other.len() as int;
    if m < body.len() {
        let front = body.take(m);
        assert(unicode::ascii_lower(front)[0] == unicode::ascii_lower_char(body[0]));
    }
}

/// A value without the white space around it, unless it is blank, and then an
/// earlier one.
pub open spec fn newest(value: Seq<char>, earlier: Option<Seq<char>>) -> Option<Seq<char>> {
    if trim::trim(value).len() > 0 {
        Some(trim::trim(value))
    } else {
        earlier
    }
}

/// The option `pass`, in capitals or not, gives the password: in the next
/// argument, or behind an equals sign or a colon. White space around it is left
/// out, and one that is blank says nothing. Neither the option nor its value is
/// left among the arguments.
pub proof fn law_password_option_is_read(
    mark: Seq<char>,
    word: Seq<char>,
    separator: char,
    value: Seq<char>,
    rest: Seq<Seq<char>>,
    so_far: CliView,
)
    requires
        is_mark(mark, word),
        unicode::ascii_lower(word) == "pass"@,
        separator == '=' || separator == ':',
    ensures
        cli::scanned(seq![mark + word, value] + rest, so_far) == cli::scanned(
            rest,
            (CliView { pass: newest(value, so_far.pass), ..so_far }),
        ),
        (value.len() > 0 ==> !chars::white_space(value.last())) ==> cli::scanned(
            seq![mark + (word + seq![separator] + value)] + rest,
            so_far,
        ) == cli::scanned(rest, (CliView { pass: newest(value, so_far.pass), ..so_far })),
{
    lemma_option_words();
    reveal_strlit("pass");
    assert(unicode::ascii_lower(word)[3] == unicode::ascii_lower_char(word[3]));
    lemma_bare_option(mark, word, "pass"@, "user"@);
    let names = seq!["pass"@];
    assert(names[0] == "pass"@);
    let two = seq![mark + word, value] + rest;
    assert(two[0] == mark + word && two[1] == value);
    assert(two.skip(2) =~= rest);
    assert(cli::is_option(mark + word, names));
    if value.len() > 0 ==> !chars::white_space(value.last()) {
        lemma_valued_option(mark, word, separator, value, "pass"@, "user"@);
        let arg = mark + (word + seq![separator] + value);
        let one = seq![arg] + rest;
        assert(one[0] == arg);
        assert(one.skip(1) =~= rest);
        assert(!cli::is_option(arg, names));
        assert(cli::argument(arg) == ArgumentView::Pass(value));
    }
}

/// The option `user`, in capitals or not, gives the user in the same way.
pub proof fn law_user_option_is_read(
    mark: Seq<char>,
    word: Seq<char>,
    separator: char,
    value: Seq<char>,
    rest: Seq<Seq<char>>,
    so_far: CliView,
)
    requires
        is_mark(mark, word),
        unicode::ascii_lower(word) == "user"@,
        separator == '=' || separator == ':',
    ensures
        cli::scanned(seq![mark + word, value] + rest, so_far) == cli::scanned(
            rest,
            (CliView { user: newest(value, so_far.user), ..so_far }),
        ),
        (value.len() > 0 ==> !chars::white_space(value.last())) ==> cli::scanned(
            seq![mark + (word + seq![separator] + value)] + rest,
            so_far,
        ) == cli::scanned(rest, (CliView { user: newest(value, so_far.user), ..so_far })),
{
    lemma_option_words();
    reveal_strlit("user");
    assert(unicode::ascii_lower(word)[3] == unicode::ascii_lower_char(word[3]));
    lemma_bare_option(mark, word, "user"@, "pass"@);
    let names = seq!["user"@];
    let pass = seq!["pass"@];
    assert(names[0] == "user"@);
    assert(pass[0] == "pass"@);
    let two = seq![mark + word, value] + rest;
    assert(two[0] == mark + word && two[1] == value);
    assert(two.skip(2) =~= rest);
    assert(cli::is_option(mark + word, names));
    assert(!cli::is_option(mark + word, pass));
    assert(cli::option_value(mark + word, pass) is None) by {
        reveal_with_fuel(cli::value_behind_any, 2);
    }
    if value.len() > 0 ==> !chars::white_space(value.last()) {
        lemma_valued_option(mark, word, separator, value, "user"@, "pass"@);
        let arg = mark + (word + seq![separator] + value);
        let one = seq![arg] + rest;
        assert(one[0] == arg);
        assert(one.skip(1) =~= rest);
        assert(!cli::is_option(arg, names));
        assert(!cli::is_option(arg, pass));
        assert(cli::option_value(arg, pass) is None) by {
            reveal_with_fuel(cli::value_behind_any, 2);
        }
        assert(cli::argument(arg) == ArgumentView::User(value));
    }
}

/// The options `debug` and `d`, in capitals or not, ask for a log, and are not
/// left among the arguments.
pub proof fn law_log_option_is_read(
    mark: Seq<char>,
    word: Seq<char>,
    rest: Seq<Seq<char>>,
    so_far: CliView,
)
    requires
        is_mark(mark, word),
        unicode::ascii_lower(word) == "debug"@ || unicode::ascii_lower(word) == "d"@,
    ensures
        cli::scanned(seq![mark + word] + rest, so_far) == cli::scanned(
            rest,
            (CliView { debug: true, ..so_far }),
        ),
{
    lemma_option_words();
    reveal_strlit("debug");
    reveal_strlit("d");
    let name = unicode::ascii_lower(word);
    assert(name.last() == unicode::ascii_lower_char(word.last()));
    lemma_bare_option(mark, word, name, "pass"@);
    lemma_bare_option(mark, word, name, "user"@);
    let arg = mark + word;
    let pass = seq!["pass"@];
    let user = seq!["user"@];
    let names = seq!["debug"@, "d"@];
    assert(pass[0] == "pass"@ && user[0] == "user"@);
    assert(names[0] == "debug"@ && names[1] == "d"@);
    assert(!cli::is_option(arg, pass) && !cli::is_option(arg, user));
    assert(cli::option_value(arg, pass) is None) by {
        reveal_with_fuel(cli::value_behind_any, 2);
    }
    assert(cli::option_value(arg, user) is None) by {
        reveal_with_fuel(cli::value_behind_any, 2);
    }
    assert(cli::is_option(arg, names)) by {
        if name == "debug"@ {
            assert(chars::same_ignoring_case(word, names[0]));
        } else {
            assert(chars::same_ignoring_case(word, names[1]));
        }
    }
    let one = seq![arg] + rest;
    assert(one[0] == arg);
    assert(one.skip(1) =~= rest);
}

/// An argument that is no option is left among the arguments, and so is an
/// option at the end of the command line that lacks its value.
pub proof fn law_other_arguments_are_left(
    arg: Seq<char>,
    rest: Seq<Seq<char>>,
    so_far: CliView,
)
    ensures
        cli::option_body(arg) is None ==> cli::scanned(seq![arg] + rest, so_far) == cli::scanned(
            rest,
            (CliView { args: so_far.args.push(arg), ..so_far }),
        ),
        cli::is_option(arg, seq!["pass"@]) || cli::is_option(arg, seq!["user"@]) ==> cli::scanned(
            seq![arg],
            so_far,
        ) == (CliView { args: so_far.args.push(arg), ..so_far }),
        cli::scanned(seq![], so_far) == so_far,
{
    let one = seq![arg] + rest;
    assert(one[0] == arg);
    assert(one.skip(1) =~= rest);
    assert(seq![arg][0] == arg);
    if cli::is_option(arg, seq!["user"@]) && !cli::is_option(arg, seq!["pass"@]) {
        lemma_option_words();
        let body = cli::option_body(arg)->0;
        let i = choose|i: int|
            0 <= i < 1 && chars::same_ignoring_case(body, #[trigger] seq!["user"@][i]);
        assert(seq!["user"@][0] == "user"@);
        assert(unicode::ascii_lower(body).len() == body.len());
        reveal_with_fuel(cli::value_behind_any, 2);
        assert(seq!["pass"@][0] == "pass"@);
        assert(cli::option_value(arg, seq!["pass"@]) is None);
    }
}

/// Passwords are shown as eight asterisks: one that stands behind its option
/// is replaced, and one in the same argument loses everything but the mark and
/// the name of the option.
pub proof fn law_passwords_are_shown_as_asterisks(arg: Seq<char>)
    ensures
        search::starts_with(arg, seq!['-', '-']) ==> cli::masked_option(arg) == "--pass=********"@,
        search::starts_with(arg, seq!['/']) ==> cli::masked_option(arg) == "/pass=********"@,
        !search::starts_with(arg, seq!['-', '-']) && !search::starts_with(arg, seq!['/'])
            ==> cli::masked_option(arg) == "-pass=********"@,
{
    reveal_strlit("--pass=");
    reveal_strlit("/pass=");
    reveal_strlit("-pass=");
    reveal_strlit("********");
    reveal_strlit("--pass=********");
    reveal_strlit("/pass=********");
    reveal_strlit("-pass=********");
    if search::starts_with(arg, seq!['/']) {
        assert(arg.take(1)[0] == arg[0]);
        if arg.len() >= 2 {
            assert(arg.take(2)[0] == arg[0]);
        }
    }
    assert("--pass="@ + "********"@ =~= "--pass=********"@);
    assert("/pass="@ + "********"@ =~= "/pass=********"@);
    assert("-pass="@ + "********"@ =~= "-pass=********"@);
}

/// What is shown of a password behind its option, and of one in the same
/// argument.
pub proof fn law_given_password_is_not_shown(
    program: Seq<char>,
    mark: Seq<char>,
    word: Seq<char>,
    separator: char,
    value: Seq<char>,
)
    requires
        is_mark(mark, word),
        unicode::ascii_lower(word) == "pass"@,
        separator == '=' || separator == ':',
        cli::option_body(program) is None,
    ensures
        cli::masked(seq![program, mark + word, value]) == seq![
            program,
            mark + word,
            "********"@,
        ],
        (value.len() > 0 ==> !chars::white_space(value.last())) ==> cli::masked(
            seq![program, mark + (word + seq![separator] + value)],
        ) == seq![program, mark + "pass="@ + "********"@],
{
    lemma_option_words();
    reveal_strlit("pass");
    reveal_strlit("pass=");
    assert(unicode::ascii_lower(word)[3] == unicode::ascii_lower_char(word[3]));
    lemma_bare_option(mark, word, "pass"@, "user"@);
    let names = seq!["pass"@];
    assert(names[0] == "pass"@);
    let args = seq![program, mark + word, value];
    assert(args[0] == program && args[1] == mark + word && args[2] == value);
    assert(cli::is_option(mark + word, names));
    reveal_with_fuel(cli::is_behind_pass, 3);
    assert(cli::masked(args) =~= seq![program, mark + word, "********"@]);
    if value.len() > 0 ==> !chars::white_space(value.last()) {
        lemma_valued_option(mark, word, separator, value, "pass"@, "user"@);
        let arg = mark + (word + seq![separator] + value);
        let line = seq![program, arg];
        assert(line[0] == program && line[1] == arg);
        assert(!cli::is_option(arg, names));
        assert(cli::argument(arg) == ArgumentView::Pass(value));
        lemma_letter(word, "pass"@);
        assert(arg[0] == mark[0]);
        assert(arg.take(1)[0] == arg[0]);
        assert(arg.take(2)[0] == arg[0]);
        assert(arg.take(2)[1] == arg[1]);
        if mark == seq!['-', '-'] {
            assert(arg.take(2) =~= mark);
        } else if mark == seq!['-'] {
            assert(arg[1] == word[0]);
        } else {
            assert(arg.take(1) =~= mark);
        }
        law_passwords_are_shown_as_asterisks(arg);
        reveal_strlit("********");
        reveal_strlit("--pass=********");
        reveal_strlit("/pass=********");
        reveal_strlit("-pass=********");
        assert(mark + "pass="@ + "********"@ =~= cli::masked_option(arg));
        assert(cli::masked(line) =~= seq![program, mark + "pass="@ + "********"@]);
    }
}

// ---------------------------------------------------------------------------
// Listing options
// ---------------------------------------------------------------------------

/// The options of a listing are read one after another. `chunk` or `c`,
/// `offset` or `o`, and `limit` or `l`, in capitals or not, take the number in
/// the next argument.
pub proof fn law_listing_options_take_the_next_number(
    mark: Seq<char>,
    word: Seq<char>,
    n: u32,
    rest: Seq<Seq<char>>,
    so_far: ListOptions,
)
    requires
        is_mark(mark, word),
    ensures
        ({
            let name = unicode::ascii_lower(word);
            let line = seq![mark + word, number::decimal(n as nat)] + rest;
            &&& name == "chunk"@ || name == "c"@ ==> cli::list_options(line, so_far)
                == cli::list_options(rest, (ListOptions { chunk: Some(n), ..so_far }))
            &&& name == "offset"@ || name == "o"@ ==> cli::list_options(line, so_far)
                == cli::list_options(rest, (ListOptions { offset: Some(n), ..so_far }))
            &&& name == "limit"@ || name == "l"@ ==> cli::list_options(line, so_far)
                == cli::list_options(rest, (ListOptions { limit: Some(n), ..so_far }))
        }),
{
    let digits = number::decimal(n as nat);
    let line = seq![mark + word, digits] + rest;
    assert(line[0] == mark + word && line[1] == digits);
    assert(line.skip(2) =~= rest);
    number::lemma_unsigned_decimal(n as nat, u32::MAX as nat);
    lemma_listing_option(mark, word);
}

/// Which listing option a bare option is.
proof fn lemma_listing_option(mark: Seq<char>, word: Seq<char>)
    requires
        is_mark(mark, word),
    ensures
        ({
            let name = unicode::ascii_lower(word);
            let arg = mark + word;
            &&& name == "chunk"@ || name == "c"@ ==> cli::is_option(arg, seq!["chunk"@, "c"@])
            &&& name == "offset"@ || name == "o"@ ==> {
                &&& !cli::is_option(arg, seq!["chunk"@, "c"@])
                &&& cli::option_value(arg, seq!["chunk"@, "c"@]) is None
                &&& cli::is_option(arg, seq!["offset"@, "o"@])
            }
            &&& name == "limit"@ || name == "l"@ ==> {
                &&& !cli::is_option(arg, seq!["chunk"@, "c"@])
                &&& cli::option_value(arg, seq!["chunk"@, "c"@]) is None
                &&& !cli::is_option(arg, seq!["offset"@, "o"@])
                &&& cli::option_value(arg, seq!["offset"@, "o"@]) is None
                &&& cli::is_option(arg, seq!["limit"@, "l"@])
            }
        }),
{
    lemma_option_words();
    reveal_strlit("chunk");
    reveal_strlit("offset");
    reveal_strlit("limit");
    let name = unicode::ascii_lower(word);
    let arg = mark + word;
    let chunk = seq!["chunk"@, "c"@];
    let offset = seq!["offset"@, "o"@];
    let limit = seq!["limit"@, "l"@];
    assert(chunk[0] == "chunk"@ && chunk[1] == "c"@);
    assert(offset[0] == "offset"@ && offset[1] == "o"@);
    assert(limit[0] == "limit"@ && limit[1] == "l"@);
    assert(chunk.drop_first()[0] == "c"@);
    assert(offset.drop_first()[0] == "o"@);
    reveal_with_fuel(cli::value_behind_any, 3);
    assert(name.len() == word.len());
    if name.len() > 0 {
        assert(name.last() == unicode::ascii_lower_char(word.last()));
    }
    if name == "chunk"@ || name == "c"@ {
        lemma_bare_option(mark, word, name, "offset"@);
        if name == "chunk"@ {
            assert(chars::same_ignoring_case(word, chunk[0]));
        } else {
            assert(chars::same_ignoring_case(word, chunk[1]));
        }
    } else if name == "offset"@ || name == "o"@ {
        lemma_bare_option(mark, word, name, "chunk"@);
        lemma_bare_option(mark, word, name, "c"@);
        if name == "offset"@ {
            assert(chars::same_ignoring_case(word, offset[0]));
        } else {
            assert(chars::same_ignoring_case(word, offset[1]));
        }
    } else if name == "limit"@ || name == "l"@ {
        lemma_bare_option(mark, word, name, "chunk"@);
        lemma_bare_option(mark, word, name, "c"@);
        lemma_bare_option(mark, word, name, "offset"@);
        lemma_bare_option(mark, word, name, "o"@);
        if name == "limit"@ {
            assert(chars::same_ignoring_case(word, limit[0]));
        } else {
            assert(chars::same_ignoring_case(word, limit[1]));
        }
    }
}

/// Where no number follows, `chunk` asks for 250 messages at a time, and the
/// other options say nothing.
pub proof fn law_listing_options_without_a_number(
    mark: Seq<char>,
    word: Seq<char>,
    rest: Seq<Seq<char>>,
    so_far: ListOptions,
)
    requires
        is_mark(mark, word),
        rest.len() > 0 ==> number::unsigned(rest[0], u32::MAX as nat) is None,
    ensures
        ({
            let name = unicode::ascii_lower(word);
            let line = seq![mark + word] + rest;
            &&& name == "chunk"@ || name == "c"@ ==> cli::list_options(line, so_far)
                == cli::list_options(rest, (ListOptions { chunk: Some(250), ..so_far }))
            &&& name == "offset"@ || name == "o"@ || name == "limit"@ || name == "l"@
                ==> cli::list_options(line, so_far) == cli::list_options(rest, so_far)
        }),
{
    let line = seq![mark + word] + rest;
    assert(line[0] == mark + word);
    if rest.len() > 0 {
        assert(line[1] == rest[0]);
    }
    assert(line.skip(1) =~= rest);
    lemma_listing_option(mark, word);
}

/// The options of a listing take the number behind an equals sign or a colon
/// as well. What is no number there asks for 250 messages at a time behind
/// `chunk`, and says nothing behind the others.
pub proof fn law_listing_options_take_a_value(
    mark: Seq<char>,
    word: Seq<char>,
    separator: char,
    value: Seq<char>,
    rest: Seq<Seq<char>>,
    so_far: ListOptions,
)
    requires
        is_mark(mark, word),
        separator == '=' || separator == ':',
        value.len() > 0 ==> !chars::white_space(value.last()),
    ensures
        ({
            let name = unicode::ascii_lower(word);
            let line = seq![mark + (word + seq![separator] + value)] + rest;
            let n = number::unsigned(value, u32::MAX as nat);
            &&& name == "chunk"@ || name == "c"@ ==> {
                &&& n matches Some(k) ==> cli::list_options(line, so_far) == cli::list_options(
                    rest,
                    (ListOptions { chunk: Some(k as u32), ..so_far }),
                )
                &&& n is None ==> cli::list_options(line, so_far) == cli::list_options(
                    rest,
                    (ListOptions { chunk: Some(250), ..so_far }),
                )
            }
            &&& name == "offset"@ || name == "o"@ ==> {
                &&& n matches Some(k) ==> cli::list_options(line, so_far) == cli::list_options(
                    rest,
                    (ListOptions { offset: Some(k as u32), ..so_far }),
                )
                &&& n is None ==> cli::list_options(line, so_far) == cli::list_options(rest, so_far)
            }
            &&& name == "limit"@ || name == "l"@ ==> {
                &&& n matches Some(k) ==> cli::list_options(line, so_far) == cli::list_options(
                    rest,
                    (ListOptions { limit: Some(k as u32), ..so_far }),
                )
                &&& n is None ==> cli::list_options(line, so_far) == cli::list_options(rest, so_far)
            }
        }),
{
    lemma_option_words();
    reveal_strlit("chunk");
    reveal_strlit("offset");
    reveal_strlit("limit");
    let name = unicode::ascii_lower(word);
    let body = word + seq![separator] + value;
    let arg = mark + body;
    let line = seq![arg] + rest;
    assert(line[0] == arg);
    assert(line.skip(1) =~= rest);
    let chunk = seq!["chunk"@, "c"@];
    let offset = seq!["offset"@, "o"@];
    let limit = seq!["limit"@, "l"@];
    assert(chunk[0] == "chunk"@ && chunk[1] == "c"@);
    assert(offset[0] == "offset"@ && offset[1] == "o"@);
    assert(limit[0] == "limit"@ && limit[1] == "l"@);
    assert(chunk.drop_first()[0] == "c"@);
    assert(offset.drop_first()[0] == "o"@);
    assert(limit.drop_first()[0] == "l"@);
    reveal_with_fuel(cli::value_behind_any, 3);
    assert(name.len() == word.len());
    if name == "chunk"@ || name == "c"@ {
        lemma_valued_option(mark, word, separator, value, name, "offset"@);
        lemma_longer_name(word, separator, value, name, "chunk"@, "c"@);
    } else if name == "offset"@ || name == "o"@ {
        lemma_valued_option(mark, word, separator, value, name, "chunk"@);
        lemma_valued_option(mark, word, separator, value, name, "c"@);
        lemma_longer_name(word, separator, value, name, "offset"@, "o"@);
    } else if name == "limit"@ || name == "l"@ {
        lemma_valued_option(mark, word, separator, value, name, "chunk"@);
        lemma_valued_option(mark, word, separator, value, name, "c"@);
        lemma_valued_option(mark, word, separator, value, name, "offset"@);
        lemma_valued_option(mark, word, separator, value, name, "o"@);
        lemma_longer_name(word, separator, value, name, "limit"@, "l"@);
    }
}

/// Of the long and the short name of an option, only the one that is written
/// fits.
proof fn lemma_longer_name(
    word: Seq<char>,
    separator: char,
    value: Seq<char>,
    name: Seq<char>,
    long: Seq<char>,
    short: Seq<char>,
)
    requires
        separator == '=' || separator == ':',
        unicode::ascii_lower(word) == name,
        name == long || name == short,
        unicode::ascii_lower(long) == long,
        unicode::ascii_lower(short) == short,
        short.len() == 1,
        long.len() > 1,
        forall|i: int| 0 <= i < long.len() ==> 'a' <= #[trigger] long[i] <= 'z',
    ensures
        ({
            let body = word + seq![separator] + value;
            &&& name == long ==> cli::value_behind(body, short) is None
                && !chars::same_ignoring_case(body, short)
            &&& name == short ==> cli::value_behind(body, long) is None
                && !chars::same_ignoring_case(body, long)
        }),
{
    let body = word + seq![separator] + value;
    assert(name.len() == word.len());
    assert(unicode::ascii_lower(body).len() == body.len());
    if name == long {
        assert(body[1] == word[1]);
        assert(unicode::ascii_lower(word)[1] == unicode::ascii_lower_char(word[1]));
        assert(long[1] == unicode::ascii_lower_char(word[1]));
    } else {
        assert(body[1] == separator);
        assert(unicode::ascii_lower(body)[1] == separator);
        assert('a' <= long[1] <= 'z');
        let n = long.len() as int;
        if n < body.len() {
            let front = body.take(n);
            assert(unicode::ascii_lower(front)[1] == separator);
        }
    }
}

/// An argument that is no option says nothing about a listing.
pub proof fn law_other_arguments_say_nothing_of_a_listing(
    arg: Seq<char>,
    rest: Seq<Seq<char>>,
    so_far: ListOptions,
)
    ensures
        cli::option_body(arg) is None ==> cli::list_options(seq![arg] + rest, so_far)
            == cli::list_options(rest, so_far),
        cli::list_options(seq![], so_far) == so_far,
        cli::no_options() == (ListOptions { chunk: None, offset: None, limit: None }),
{
    let line = seq![arg] + rest;
    assert(line[0] == arg);
    assert(line.skip(1) =~= rest);
}

} // verus!
