//! What the program says about itself.

use vstd::prelude::*;
use crate::text::chars;

verus! {

/// The lines of the explanation of the program.
pub open spec fn help_lines() -> Seq<Seq<char>> {
    seq![
        "auximap v0.3.1 - PPx aux: path IMAP bridge"@,
        "A lightweight CLI bridge between Paper Plane xUI (PPx) aux: path and IMAP mail."@,
        ""@,
        "Copyright (c) 2026 auximap contributors"@,
        ""@,
        "Usage:"@,
        "  auximap <command> [arguments...] [-debug] [--pass <password>] [--user <user_or_email>]"@,
        ""@,
        "Commands:"@,
        "  list   <account/folder> <output_file> [--chunk [N]] [--offset N] [--limit N]"@,
        "         Fetch email headers and generate PPx aux list format."@,
        "  read   <account/folder> <uid> [dest_file]"@,
        "         Fetch and format email body (text/markdown)."@,
        "  get    <src_file> <dest_file>"@,
        "         Export raw .eml file to destination."@,
        "  copy   <src_file> <dest_folder>"@,
        "         Copy email between folders/accounts."@,
        "  move   <src_file> <dest_folder>"@,
        "         Move email between folders/accounts."@,
        "  delete <src_file> | <account/folder> <uid1> [uid2...]"@,
        "         Delete email(s) or move to Trash."@,
        "  makedir <account/folder>"@,
        "         Create a mailbox / IMAP folder."@,
        "  deldir  <account/folder>"@,
        "         Delete a mailbox / IMAP folder."@,
        "  rename  <src_folder> <dest_folder>"@,
        "         Rename a mailbox / IMAP folder."@,
        ""@,
        "Password Configuration:"@,
        "  Method 1: Direct in auximap.ini (pass = your_password)"@,
        "  Method 2: Via CLI option --pass (e.g. PPx %*pass dialog, highest priority)"@,
        "  Method 3: Environment variable AUXIMAP_PASS_<ACCOUNT> or AUXIMAP_PASS"@,
        ""@,
        "User Configuration:"@,
        "  Method 1: Direct in auximap.ini (user = your_email@example.com)"@,
        "  Method 2: Via CLI option --user (e.g. PPx %*user dialog, domain auto-configured)"@,
        ""@,
        "Options:"@,
        "  -d, -debug, --debug   Enable debug logging (stderr + auximap.log)."@,
        "  -o, --offset <count>  Skip count of newest messages (e.g. --offset 3000)."@,
        "  -l, --limit <count>   Maximum messages to fetch (e.g. --limit 100)."@,
        "  -c, --chunk <size>    Batch fetch chunk size (default: 250)."@,
        "  --pass <password>     Provide mail password directly (highest priority, e.g. PPx %*pass)."@,
        "  --user <email>        Provide user / email address directly (e.g. PPx %*user)."@,
        "  -h, -help, --help     Show this help message."@,
    ]
}

/// The lines of the explanation of the program.
pub fn help_text() -> (r: Vec<String>)
    ensures
        chars::texts(r@) == help_lines(),
{
    let mut r: Vec<String> = Vec::new();
    r.push("auximap v0.3.1 - PPx aux: path IMAP bridge".to_owned());
    r.push("A lightweight CLI bridge between Paper Plane xUI (PPx) aux: path and IMAP mail.".to_owned());
    r.push("".to_owned());
    r.push("Copyright (c) 2026 auximap contributors".to_owned());
    r.push("".to_owned());
    r.push("Usage:".to_owned());
    r.push("  auximap <command> [arguments...] [-debug] [--pass <password>] [--user <user_or_email>]".to_owned());
    r.push("".to_owned());
    r.push("Commands:".to_owned());
    r.push("  list   <account/folder> <output_file> [--chunk [N]] [--offset N] [--limit N]".to_owned());
    r.push("         Fetch email headers and generate PPx aux list format.".to_owned());
    r.push("  read   <account/folder> <uid> [dest_file]".to_owned());
    r.push("         Fetch and format email body (text/markdown).".to_owned());
    r.push("  get    <src_file> <dest_file>".to_owned());
    r.push("         Export raw .eml file to destination.".to_owned());
    r.push("  copy   <src_file> <dest_folder>".to_owned());
    r.push("         Copy email between folders/accounts.".to_owned());
    r.push("  move   <src_file> <dest_folder>".to_owned());
    r.push("         Move email between folders/accounts.".to_owned());
    r.push("  delete <src_file> | <account/folder> <uid1> [uid2...]".to_owned());
    r.push("         Delete email(s) or move to Trash.".to_owned());
    r.push("  makedir <account/folder>".to_owned());
    r.push("         Create a mailbox / IMAP folder.".to_owned());
    r.push("  deldir  <account/folder>".to_owned());
    r.push("         Delete a mailbox / IMAP folder.".to_owned());
    r.push("  rename  <src_folder> <dest_folder>".to_owned());
    r.push("         Rename a mailbox / IMAP folder.".to_owned());
    r.push("".to_owned());
    r.push("Password Configuration:".to_owned());
    r.push("  Method 1: Direct in auximap.ini (pass = your_password)".to_owned());
    r.push("  Method 2: Via CLI option --pass (e.g. PPx %*pass dialog, highest priority)".to_owned());
    r.push("  Method 3: Environment variable AUXIMAP_PASS_<ACCOUNT> or AUXIMAP_PASS".to_owned());
    r.push("".to_owned());
    r.push("User Configuration:".to_owned());
    r.push("  Method 1: Direct in auximap.ini (user = your_email@example.com)".to_owned());
    r.push("  Method 2: Via CLI option --user (e.g. PPx %*user dialog, domain auto-configured)".to_owned());
    r.push("".to_owned());
    r.push("Options:".to_owned());
    r.push("  -d, -debug, --debug   Enable debug logging (stderr + auximap.log).".to_owned());
    r.push("  -o, --offset <count>  Skip count of newest messages (e.g. --offset 3000).".to_owned());
    r.push("  -l, --limit <count>   Maximum messages to fetch (e.g. --limit 100).".to_owned());
    r.push("  -c, --chunk <size>    Batch fetch chunk size (default: 250).".to_owned());
    r.push("  --pass <password>     Provide mail password directly (highest priority, e.g. PPx %*pass).".to_owned());
    r.push("  --user <email>        Provide user / email address directly (e.g. PPx %*user).".to_owned());
    r.push("  -h, -help, --help     Show this help message.".to_owned());
    assert(chars::texts(r@) =~= help_lines());
    r
}

} // verus!
