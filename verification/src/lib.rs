//! Generation of Salesforce `package.xml` manifests: the selection state of the
//! interactive picker, the rules for inherited and non-interactive selections,
//! the manifest format, and the interpretation of `sf` CLI replies.
#![allow(unused_imports)]

pub mod text;
pub mod wildcard;
pub mod strmap;
pub mod error;
pub mod xml;
pub mod xmlread;
pub mod inherit;
pub mod ansi;
pub mod sf_client;
pub mod non_interactive;
pub mod tui;
pub mod output;
pub mod signal;
pub mod cli;
pub mod generate;
