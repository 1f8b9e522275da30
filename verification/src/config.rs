//! What a run is asked to work on, and the check that it was said.

use vstd::prelude::*;
use vstd::string::*;

verus! {

/// Whether `c` is white space: one of the characters with the Unicode
/// property `White_Space`.
pub open spec fn white_space(c: char) -> bool {
    ||| '\u{9}' <= c && c <= '\u{d}'
    ||| c == ' '
    ||| c == '\u{85}'
    ||| c == '\u{a0}'
    ||| c == '\u{1680}'
    ||| '\u{2000}' <= c && c <= '\u{200a}'
    ||| c == '\u{2028}'
    ||| c == '\u{2029}'
    ||| c == '\u{202f}'
    ||| c == '\u{205f}'
    ||| c == '\u{3000}'
}

/// Whether `c` is white space.
pub fn is_whitespace(c: char) -> (yes: bool)
    ensures
        yes == white_space(c),
{
    ('\u{9}' <= c && c <= '\u{d}') || c == ' ' || c == '\u{85}' || c == '\u{a0}' || c
        == '\u{1680}' || ('\u{2000}' <= c && c <= '\u{200a}') || c == '\u{2028}' || c
        == '\u{2029}' || c == '\u{202f}' || c == '\u{205f}' || c == '\u{3000}'
}

/// Whether nothing is left of `text` once the white space at its ends is
/// taken away: it holds white space only.
pub open spec fn blank(text: Seq<char>) -> bool {
    forall|i: int| 0 <= i < text.len() ==> white_space(#[trigger] text[i])
}

/// Whether `text` holds white space only.
pub fn is_blank(text: &str) -> (yes: bool)
    ensures
        yes == blank(text@),
{
    let len = text.unicode_len();
    let mut i: usize = 0;
    while i < len
        invariant
            i <= len,
            len == text@.len(),
            forall|j: int| 0 <= j < i ==> white_space(#[trigger] text@[j]),
        decreases len - i,
    {
        if !is_whitespace(text.get_char(i)) {
            assert(!white_space(text@[i as int]));
            return false;
        }
        i += 1;
    }
    true
}

/// The two directories of a run.
#[derive(Clone, Debug)]
pub struct Directories {
    /// Where the images are read from.
    pub input: String,
    /// Where the variants are written to.
    pub output: String,
}

/// The complaint about the directories that were not given.
pub open spec fn missing_message(input_missing: bool, output_missing: bool) -> Seq<char>
    recommends
        input_missing || output_missing,
{
    "Directories "@ + (if input_missing && output_missing {
        "input, output"@
    } else if input_missing {
        "input"@
    } else {
        "output"@
    }) + " aren't set."@
}

/// Checks that both directories were given. A directory that is empty or
/// white space only was not given, and the error names each such directory.
pub fn check_missing_directories(directories: &Directories) -> (checked: Result<(), String>)
    ensures
        checked is Ok <==> !blank(directories.input@) && !blank(directories.output@),
        checked matches Err(message) ==> message@ == missing_message(
            blank(directories.input@),
            blank(directories.output@),
        ),
{
    let input_missing = is_blank(directories.input.as_str());
    let output_missing = is_blank(directories.output.as_str());
    if !input_missing && !output_missing {
        return Ok(());
    }
    let mut message = "Directories ".to_owned();
    if input_missing && output_missing {
        message.append("input, output");
    } else if input_missing {
        message.append("input");
    } else {
        message.append("output");
    }
    message.append(" aren't set.");
    Err(message)
}

} // verus!
