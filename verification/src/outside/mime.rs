//! MIME types by file name, from `mime_guess`.
use vstd::prelude::*;

verus! {

/// The MIME type that `mime_guess` gives a path.
pub uninterp spec fn guessed_mime(path: Seq<char>) -> Seq<char>;

/// `mime_guess::from_path`, its first guess or `application/octet-stream`,
/// without parameters. The table behind it is fixed, so the answer depends on
/// the path alone.
#[verifier::external_body]
pub(crate) fn guess_mime(path: &str) -> (r: String)
    ensures
        r@ == guessed_mime(path@),
{
    mime_guess::from_path(path).first_or_octet_stream().essence_str().to_owned()
}

} // verus!
