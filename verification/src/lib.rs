//! A bridge between a file manager's `aux:` paths and an IMAP mail store:
//! everything that can be decided without touching the network, the disk or
//! the clock, with its behaviour stated in contracts and proved.

pub mod text;
pub mod base64;
pub mod text_laws;
pub mod error;
pub mod utf16;
pub mod utf7;
pub mod coding_laws;
pub mod charset;
pub mod rfc2047;
pub mod word_laws;
pub mod rules;
pub mod sections;
pub mod config;
pub mod rule_laws;
pub mod account_laws;
pub mod accounts;
pub mod resolve;
pub mod resolve_laws;
pub mod names;
pub mod mailpath;
pub mod path_laws;
pub mod shape_laws;
pub mod html;
pub mod template;
pub mod date;
pub mod size;
pub mod message;
pub mod message_laws;
pub mod entry;
pub mod entry_laws;
pub mod listing;
pub mod listing_laws;
pub mod trash;
pub mod trash_laws;
pub mod folder_laws;
pub mod folders;
pub mod cli;
pub mod cli_laws;
pub mod command;
pub mod command_laws;
pub mod report;
pub mod help;
pub mod attempts;
pub mod places;
pub mod answer_laws;
