//! The cursor theme and size the desktop reports as current.

use vstd::prelude::*;

use crate::config::DEFAULT_SIZE;
use crate::text::{parse_u32, parse_unsigned, trim_matches_char, trim_seq};

verus! {

/// A cursor theme name and size.
#[derive(Debug, Clone, PartialEq, Eq)]
pub struct CursorState {
    pub theme: String,
    pub size: u32,
}

/// The theme named by the text `gsettings get ... cursor-theme` printed:
/// the text without surrounding single quotes, or `unknown` where nothing
/// was printed or nothing is left.
pub open spec fn spec_reported_theme(output: Option<Seq<char>>) -> Seq<char> {
    match output {
        Some(o) => if trim_seq(o, Some('\'')).len() > 0 {
            trim_seq(o, Some('\''))
        } else {
            "unknown"@
        },
        None => "unknown"@,
    }
}

/// The size named by the text `gsettings get ... cursor-size` printed: that
/// text read as a `u32`, or `DEFAULT_SIZE` where it is missing or not a number.
pub open spec fn spec_reported_size(output: Option<Seq<char>>) -> u32 {
    match output {
        Some(o) => match parse_unsigned(o, u32::MAX as nat) {
            Some(v) => v as u32,
            None => DEFAULT_SIZE,
        },
        None => DEFAULT_SIZE,
    }
}

/// The current cursor state from what `gsettings` printed for the theme and
/// for the size (`None` where it printed nothing or could not be run).
pub fn state_from_outputs(theme_output: Option<String>, size_output: Option<String>) -> (st: CursorState)
    ensures
        st.theme@ == spec_reported_theme(match theme_output {
            Some(o) => Some(o@),
            None => None,
        }),
        st.size == spec_reported_size(match size_output {
            Some(o) => Some(o@),
            None => None,
        }),
{
    let theme = match &theme_output {
        Some(o) => {
            let t = trim_matches_char(o.as_str(), '\'');
            if t.unicode_len() > 0 {
                t
            } else {
                String::from_str("unknown")
            }
        },
        None => String::from_str("unknown"),
    };
    let size = match &size_output {
        Some(o) => match parse_u32(o.as_str()) {
            Some(v) => v,
            None => DEFAULT_SIZE,
        },
        None => DEFAULT_SIZE,
    };
    CursorState { theme, size }
}

} // verus!
