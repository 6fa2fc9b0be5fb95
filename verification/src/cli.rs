//! The operator's command line, as plain values, and its conversion into
//! the configuration sent to the receiver.

use vstd::prelude::*;

use crate::messages::ClientServerOpts;
use crate::messages::clone_strings;

verus! {

/// The operator's choices: run as the receiver, the two roots, the
/// transport port, the exclude fragments, and the behaviour toggles.
#[derive(Debug, Clone)]
pub struct Cli {
    pub server: bool,
    pub from: Option<String>,
    pub to: Option<String>,
    pub port: u16,
    pub exclude: Option<Vec<String>>,
    pub dry_run: bool,
    pub verbose: bool,
    pub delete: bool,
    pub recursive: bool,
}

impl ClientServerOpts {
    /// The configuration the command line asks for: the destination root
    /// (empty when absent), the toggles as given, and the exclude list
    /// (empty when absent).
    pub fn from_cli(cli: &Cli) -> (r: ClientServerOpts)
        ensures
            (match cli.to {
                Some(t) => r@.to == t@,
                None => r@.to.len() == 0,
            }),
            r@.delete == cli.delete,
            r@.recursive == cli.recursive,
            r@.dry_run == cli.dry_run,
            r@.verbose == cli.verbose,
            (match cli.exclude {
                Some(ex) => r@.exclude.len() == ex@.len() && (forall|k: int|
                    0 <= k < ex@.len() ==> r@.exclude[k] == ex@[k]@),
                None => r@.exclude.len() == 0,
            }),
    {
        let to = match &cli.to {
            Some(t) => t.clone(),
            None => String::new(),
        };
        let exclude = match &cli.exclude {
            Some(ex) => clone_strings(ex),
            None => Vec::new(),
        };
        let r = ClientServerOpts {
            to,
            delete: cli.delete,
            recursive: cli.recursive,
            dry_run: cli.dry_run,
            verbose: cli.verbose,
            exclude,
        };
        r
    }
}

} // verus!
