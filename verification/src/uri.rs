use vstd::prelude::*;
use vstd::string::StrSliceExecFns;

use crate::text::{has_prefix, lacks_char, spec_has_prefix};

verus! {

/// What percent-decoding yields for a given input, `None` where the
/// decoded bytes are not valid text.  The result depends on the input
/// characters alone.
pub uninterp spec fn url_decoded(s: Seq<char>) -> Option<Seq<char>>;

/// Relies on urlencoding::decode: percent-decoding, a function of the
/// input characters alone, failing exactly when the decoded bytes are
/// not valid UTF-8; an input without any `%` is returned unchanged.
#[verifier::external_body]
fn url_decode(s: &str) -> (r: Option<String>)
    ensures
        r.deep_view() == url_decoded(s@),
        lacks_char(s@, '%') ==> r.deep_view() == Some(s@),
{
    match urlencoding::decode(s) {
        Ok(c) => Some(c.into_owned()),
        Err(_) => None,
    }
}

/// Turn a `file://` URI into a filesystem path: strip the scheme and
/// percent-decode the remainder.  `None` when the scheme is missing or
/// the decoded bytes are not valid text.
pub fn parse_file_uri(uri: &str) -> (r: Option<String>)
    ensures
        r.deep_view() == (if spec_has_prefix(uri@, "file://"@) {
            url_decoded(uri@.skip("file://"@.len() as int))
        } else {
            None
        }),
        spec_has_prefix(uri@, "file://"@) && lacks_char(
            uri@.skip("file://"@.len() as int),
            '%',
        ) ==> r.deep_view() == Some(uri@.skip("file://"@.len() as int)),
{
    let scheme = "file://";
    if has_prefix(uri, scheme) {
        let l = scheme.unicode_len();
        let n = uri.unicode_len();
        let rest = uri.substring_char(l, n);
        proof {
            assert(rest@ =~= uri@.skip("file://"@.len() as int));
        }
        url_decode(rest)
    } else {
        None
    }
}

} // verus!
