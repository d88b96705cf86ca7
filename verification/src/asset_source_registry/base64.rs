//! The stand-in encoding of basic credentials.
use vstd::prelude::*;

verus! {

/// The text that the stand-in encoding gives: `base64(` and the input and `)`.
pub open spec fn encoded(input: Seq<char>) -> Seq<char> {
    "base64("@ + input + ")"@
}

/// Marks the text to be encoded (a stand-in for a real base64 encoding).
pub fn encode(input: String) -> (r: String)
    ensures
        r@ == encoded(input@),
{
    let mut r = "base64(".to_string();
    r.append(input.as_str());
    r.append(")");
    r
}

} // verus!
