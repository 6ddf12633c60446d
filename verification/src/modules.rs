//! The text of the modules of an object model.

use crate::text::joined;
use vstd::prelude::*;
use vstd::utf8::{decode_utf8, valid_utf8};

verus! {

/// What `Display` of std writes for the error that `std::str::from_utf8` returns
/// for bytes.
pub uninterp spec fn utf8_fault(bytes: Seq<u8>) -> Seq<char>;

/// What `Debug` of std writes for a text: the text in quotation marks, with escapes.
pub uninterp spec fn quoted_text(s: Seq<char>) -> Seq<char>;

/// `std::str::from_utf8` returns the text that bytes encode, if they are valid
/// UTF-8, and otherwise an error. The wrapper copies the text, and gives the error
/// as `Display` writes it, which rests on the bytes alone.
#[verifier::external_body]
fn read_utf8(bytes: &[u8]) -> (r: Result<String, String>)
    ensures
        match r {
            Ok(s) => valid_utf8(bytes@) && s@ == decode_utf8(bytes@),
            Err(t) => !valid_utf8(bytes@) && t@ == utf8_fault(bytes@),
        },
{
    match std::str::from_utf8(bytes) {
        Ok(s) => Ok(s.to_owned()),
        Err(e) => Err(format!("{e}")),
    }
}

/// `Debug` of std for `str`, which rests on the text alone.
#[verifier::external_body]
fn quoted(s: &str) -> (r: String)
    ensures
        r@ == quoted_text(s@),
{
    format!("{s:?}")
}

/// The word that the content of a module is no text, from its name in quotation
/// marks and the reason.
pub open spec fn not_utf8(quoted_name: Seq<char>, why: Seq<char>) -> Seq<char> {
    "FOM module "@ + quoted_name + " content is not UTF-8: "@ + why
}

/// The word that the content of a module is no text, from its name in quotation
/// marks and the reason.
pub fn not_utf8_text(quoted_name: &str, why: &str) -> (r: String)
    ensures
        r@ == not_utf8(quoted_name@, why@),
{
    let mut r = joined("FOM module ", quoted_name);
    r.append(" content is not UTF-8: ");
    r.append(why);
    r
}

/// The text of a module, or why its content is none.
pub fn module_text(name: &str, content: &[u8]) -> (r: Result<String, String>)
    ensures
        match r {
            Ok(s) => valid_utf8(content@) && s@ == decode_utf8(content@),
            Err(t) => !valid_utf8(content@) && t@ == not_utf8(
                quoted_text(name@),
                utf8_fault(content@),
            ),
        },
{
    match read_utf8(content) {
        Ok(s) => Ok(s),
        Err(why) => Err(not_utf8_text(quoted(name).as_str(), why.as_str())),
    }
}

/// The word that the text of a module cannot be parsed, from its name and the
/// reason.
pub fn parse_fault(name: &str, why: &str) -> (r: String)
    ensures
        r@ == name@ + ": "@ + why@,
{
    let mut r = joined(name, ": ");
    r.append(why);
    r
}

} // verus!
