use vstd::prelude::*;
use vstd::string::StringExecFns;

verus! {

/// The standard Base64 encoding, with padding, of the UTF-8 bytes of a text.
pub uninterp spec fn base64_of(s: Seq<char>) -> Seq<char>;

/// Relies on `base64::encode` (standard alphabet, padded) for the encoding of the text's bytes;
/// an empty text encodes to an empty one.
#[verifier::external_body]
fn encode_base64(s: &str) -> (r: String)
    ensures
        r@ == base64_of(s@),
        s@.len() == 0 ==> r@.len() == 0,
{
    base64::encode(s)
}

/// The escape sequence that asks the terminal to put `encoded` (Base64 text) on the clipboard.
pub open spec fn osc52_frame(encoded: Seq<char>) -> Seq<char> {
    seq!['\u{1b}', ']', '5', '2', ';', 'c', ';'] + encoded + seq!['\u{1b}', '\\']
}

/// Frames already encoded text as a clipboard escape sequence.
pub fn frame_for_clipboard(encoded: &str) -> (r: String)
    ensures
        r@ == osc52_frame(encoded@),
{
    proof {
        reveal_strlit("\u{1b}]52;c;");
        reveal_strlit("\u{1b}\\");
    }
    let mut out = String::from_str("\u{1b}]52;c;");
    out.append(encoded);
    out.append("\u{1b}\\");
    assert(out@ =~= osc52_frame(encoded@));
    out
}

/// The escape sequence that puts `selection` on the terminal's clipboard.
pub fn clipboard_sequence(selection: &str) -> (r: String)
    ensures
        r@ == osc52_frame(base64_of(selection@)),
{
    let encoded = encode_base64(selection);
    frame_for_clipboard(encoded.as_str())
}

} // verus!
