//! What the arguments of the program say.

use vstd::prelude::*;
use crate::bytes::same_text;
use crate::shell::optional_str;
use crate::text::copy_of;
use crate::theme::{HelixTheme, optional_text};
use crate::theme_picker::theme_name_list;

verus! {

/// How much is logged.
#[derive(Clone, Copy, Debug, PartialEq, Eq, Structural)]
pub enum LogLevel {
    Error,
    Warn,
    Info,
    Debug,
    Trace,
}

/// The level with a name, or `None` where there is no such level.
pub open spec fn level_named(name: Seq<char>) -> Option<LogLevel> {
    if name == "error"@ {
        Some(LogLevel::Error)
    } else if name == "warn"@ {
        Some(LogLevel::Warn)
    } else if name == "info"@ {
        Some(LogLevel::Info)
    } else if name == "debug"@ {
        Some(LogLevel::Debug)
    } else if name == "trace"@ {
        Some(LogLevel::Trace)
    } else {
        None
    }
}

/// The level that an argument asks for, and whether its name is known. The level is `Debug` where
/// it is not, and where there is no argument.
pub fn parse_log_level(name: Option<&str>) -> (r: (LogLevel, bool))
    ensures
        r == match optional_str(name) {
            None => (LogLevel::Debug, true),
            Some(name) => match level_named(name) {
                Some(level) => (level, true),
                None => (LogLevel::Debug, false),
            },
        },
{
    match name {
        None => (LogLevel::Debug, true),
        Some(name) => if same_text(name, "error") {
            (LogLevel::Error, true)
        } else if same_text(name, "warn") {
            (LogLevel::Warn, true)
        } else if same_text(name, "info") {
            (LogLevel::Info, true)
        } else if same_text(name, "debug") {
            (LogLevel::Debug, true)
        } else if same_text(name, "trace") {
            (LogLevel::Trace, true)
        } else {
            (LogLevel::Debug, false)
        },
    }
}

/// The name of the theme to start with: that of an argument, else that of the configuration, else
/// the first there is.
pub open spec fn first_theme(
    argument: Option<Seq<char>>,
    configured: Option<Seq<char>>,
) -> Seq<char> {
    match argument {
        Some(name) => name,
        None => match configured {
            Some(name) => name,
            None => if theme_name_list().len() > 0 {
                theme_name_list()[0]
            } else {
                "catppuccin_mocha"@
            },
        },
    }
}

/// The name of the theme to start with.
pub fn starting_theme(argument: Option<String>, configured: Option<String>) -> (r: String)
    ensures
        r@ == first_theme(optional_text(argument), optional_text(configured)),
{
    match argument {
        Some(name) => name,
        None => match configured {
            Some(name) => name,
            None => {
                let names = HelixTheme::theme_names();
                if names.len() > 0 {
                    copy_of(names[0])
                } else {
                    copy_of("catppuccin_mocha")
                }
            },
        },
    }
}

} // verus!
