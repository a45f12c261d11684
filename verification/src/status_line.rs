//! The status-line display mode: which representation of the selected
//! candidate the footer shows, if any.

use vstd::prelude::*;

verus! {

/// Which path representation the status line shows.
#[derive(Debug, Clone, Copy, PartialEq, Eq, Structural)]
pub enum StatusLine {
    Absolute,
    Relative,
    Hidden,
}

impl StatusLine {
    /// Parses a display-mode name. Exactly `"absolute"`, `"relative"` and
    /// `"none"` are accepted; anything else is returned alongside a
    /// message naming the possible values.
    pub fn try_from(value: String) -> (r: Result<StatusLine, (String, String)>)
        ensures
            value@ == "absolute"@ ==> r == Result::<StatusLine, (String, String)>::Ok(
                StatusLine::Absolute,
            ),
            value@ == "relative"@ ==> r == Result::<StatusLine, (String, String)>::Ok(
                StatusLine::Relative,
            ),
            value@ == "none"@ ==> r == Result::<StatusLine, (String, String)>::Ok(
                StatusLine::Hidden,
            ),
            (r is Err) == (value@ != "absolute"@ && value@ != "relative"@ && value@ != "none"@),
            r matches Err(e) ==> e.0@
                == "The possible value is one of \"absolute\", \"relative\", or \"none\""@ && e.1
                == value,
    {
        proof {
            broadcast use vstd::string::group_string_axioms;

            reveal_strlit("absolute");
            reveal_strlit("relative");
            reveal_strlit("none");
            assert("absolute"@[0] == 'a');
            assert("relative"@[0] == 'r');
            assert("absolute"@ != "relative"@);
            assert("absolute"@ != "none"@);
            assert("relative"@ != "none"@);
        }
        if value == "absolute".to_owned() {
            Ok(StatusLine::Absolute)
        } else if value == "relative".to_owned() {
            Ok(StatusLine::Relative)
        } else if value == "none".to_owned() {
            Ok(StatusLine::Hidden)
        } else {
            Err(
                (
                    "The possible value is one of \"absolute\", \"relative\", or \"none\"".to_owned(),
                    value,
                ),
            )
        }
    }
}

} // verus!
