//! The command line: `watch [BASE_URL]` follows the request feed,
//! `tui [BASE_URL]` opens the terminal UI, and anything else serves the
//! router with the configuration at the given path.

use vstd::prelude::*;

use crate::text::str_eq;

verus! {

/// What the program was asked to do.
#[derive(Debug, Clone, PartialEq)]
pub enum Command {
    Watch { base_url: String },
    Tui { base_url: String },
    Serve { config_path: String },
}

pub const DEFAULT_BASE_URL: &'static str = "http://localhost:8090";

pub const DEFAULT_CONFIG: &'static str = "config.toml";

/// The command the arguments (without the program name) ask for: `watch`
/// or `tui` with an optional base URL (`http://localhost:8090` by
/// default), else serving with the configuration path given first
/// (`config.toml` by default).
pub fn parse_args(args: &Vec<String>) -> (r: Command)
    ensures
        if args@.len() > 0 && args@[0]@ == "watch"@ {
            r matches Command::Watch { base_url } && base_url@ == if args@.len() > 1 {
                args@[1]@
            } else {
                DEFAULT_BASE_URL@
            }
        } else if args@.len() > 0 && args@[0]@ == "tui"@ {
            r matches Command::Tui { base_url } && base_url@ == if args@.len() > 1 {
                args@[1]@
            } else {
                DEFAULT_BASE_URL@
            }
        } else {
            r matches Command::Serve { config_path } && config_path@ == if args@.len() > 0 {
                args@[0]@
            } else {
                DEFAULT_CONFIG@
            }
        },
{
    if args.len() == 0 {
        return Command::Serve { config_path: String::from_str(DEFAULT_CONFIG) };
    }
    let url = if args.len() > 1 {
        args[1].clone()
    } else {
        String::from_str(DEFAULT_BASE_URL)
    };
    if str_eq(args[0].as_str(), "watch") {
        Command::Watch { base_url: url }
    } else if str_eq(args[0].as_str(), "tui") {
        Command::Tui { base_url: url }
    } else {
        Command::Serve { config_path: args[0].clone() }
    }
}

} // verus!
