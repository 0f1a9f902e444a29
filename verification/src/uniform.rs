//! Uniforms: the record and the validation rule for its color code.

use vstd::prelude::*;
use vstd::string::StringExecFns;

use crate::error::Error;

verus! {

/// A uniform's descriptive record.
#[derive(Debug, PartialEq, Eq, Clone)]
pub struct Uniform {
    pub id: i32,
    pub name: String,
    pub color: Option<String>,
    pub description: Option<String>,
}

/// The fields a caller submits to create or update a uniform.
#[derive(Debug, PartialEq, Eq, Clone)]
pub struct NewUniform {
    pub name: String,
    pub color: Option<String>,
    pub description: Option<String>,
}

/// Whether a character belongs to the word class (`\w`) of the regex crate.
pub uninterp spec fn word_char(c: char) -> bool;

/// The accepted color shape: `#` followed by exactly three word characters.
pub open spec fn color_code_matches(s: Seq<char>) -> bool {
    &&& s.len() == 4
    &&& s[0] == '#'
    &&& forall|i: int| 1 <= i < 4 ==> word_char(#[trigger] s[i])
}

/// Relies on regex's `Regex::is_match` with the anchored pattern `^#\w{3}$`:
/// it accepts exactly the four-character strings that start with `#` and
/// continue with three word characters, `\w` being the crate's Unicode word
/// class.
#[verifier::external_body]
fn color_pattern_matches(color: &str) -> (r: bool)
    ensures
        r == (color@.len() == 4 && color@[0] == '#' && (forall|i: int|
            1 <= i < 4 ==> word_char(#[trigger] color@[i]))),
{
    let pattern = regex::Regex::new(r"^#\w{3}$").unwrap();
    pattern.is_match(color)
}

impl Uniform {
    /// A color is valid when absent, or shaped `#XXX` with `X` a word
    /// character.
    pub fn validate_color(color: &Option<String>) -> (r: Result<(), Error>)
        ensures
            r is Ok <==> match *color {
                Some(c) => color_code_matches(c@),
                None => true,
            },
            r matches Err(e) ==> e is BadRequest,
    {
        match color {
            Some(c) => {
                if color_pattern_matches(c.as_str()) {
                    Ok(())
                } else {
                    Err(
                        Error::BadRequest(
                            String::from_str(
                                "uniform colors must be in the format '#XXX', where X is a hexadecimal number",
                            ),
                        ),
                    )
                }
            },
            None => Ok(()),
        }
    }
}

} // verus!
