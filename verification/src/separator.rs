//! The continuation separator: a space, a backslash, a line break and four
//! spaces of indentation. Put between the arguments of a command, it shows
//! one argument per line in a form that a shell reads as a single command.

use vstd::prelude::*;
use vstd::string::is_ascii;

verus! {

/// The separator as text.
pub const SEPARATOR: &'static str = " \\\n    ";

/// The characters of the separator.
pub open spec fn separator() -> Seq<char> {
    seq![' ', '\\', '\n', ' ', ' ', ' ', ' ']
}

/// The bytes of the separator.
pub open spec fn separator_bytes() -> Seq<u8> {
    seq![0x20u8, 0x5cu8, 0x0au8, 0x20u8, 0x20u8, 0x20u8, 0x20u8]
}

/// [`SEPARATOR`] holds the characters of [`separator`], all of them ASCII.
pub proof fn lemma_separator_text()
    ensures
        SEPARATOR@ == separator(),
        is_ascii(SEPARATOR),
{
    reveal_strlit(" \\\n    ");
    assert(SEPARATOR@ =~= separator());
}

/// The separator as bytes.
pub fn separator_as_bytes() -> (bytes: &'static [u8])
    ensures
        bytes@ == separator_bytes(),
{
    let bytes = SEPARATOR.as_bytes();
    proof {
        broadcast use vstd::string::is_ascii_spec_bytes;

        lemma_separator_text();
        assert(bytes@ =~= separator_bytes());
    }
    bytes
}

} // verus!
