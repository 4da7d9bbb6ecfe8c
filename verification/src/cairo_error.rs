//! Errors of the Cairo backend.

use vstd::prelude::*;

verus! {

/// Why drawing to a Cairo context failed.
#[derive(Debug)]
pub enum CairoError {
    /// The fonts could not be loaded or parsed.
    Font(String),
    /// Cairo itself reported an error.
    Cairo(String),
}

/// The text each error displays as.
pub open spec fn cairo_error_text(e: &CairoError) -> Seq<char> {
    match e {
        CairoError::Font(m) => "font error: "@ + m@,
        CairoError::Cairo(m) => "cairo error: "@ + m@,
    }
}

impl CairoError {
    /// The error's text: `font error: ...` or `cairo error: ...`.
    pub fn message(&self) -> (r: String)
        ensures
            r@ == cairo_error_text(self),
    {
        let mut out = String::new();
        match self {
            CairoError::Font(m) => {
                out.append("font error: ");
                out.append(m.as_str());
            },
            CairoError::Cairo(m) => {
                out.append("cairo error: ");
                out.append(m.as_str());
            },
        }
        out
    }
}

} // verus!
