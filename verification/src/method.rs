//! Recognition of HTTP request lines: a line counts as a request-line
//! candidate exactly when its first space-separated token is one of the
//! six supported method names.
use crate::text::{find_first, find_str, split_pat, substr_copy};
use vstd::prelude::*;

verus! {

/// The first space-separated token of `s`.
pub open spec fn first_token(s: Seq<char>) -> Seq<char> {
    split_pat(s, " "@)[0]
}

/// The first space-separated token of `s` is exactly one of the six
/// supported HTTP method names.
pub open spec fn spec_is_method(s: Seq<char>) -> bool {
    ||| first_token(s) == "GET"@
    ||| first_token(s) == "POST"@
    ||| first_token(s) == "PUT"@
    ||| first_token(s) == "PATCH"@
    ||| first_token(s) == "DELETE"@
    ||| first_token(s) == "OPTIONS"@
}

/// Whether the first space-separated token of `s` is exactly one of the
/// supported HTTP method names, which marks `s` as a request line
/// during parsing. A line that merely mentions a method name elsewhere
/// is not a request line.
pub fn is_method(s: String) -> (r: bool)
    ensures
        r == spec_is_method(s@),
{
    proof {
        reveal_strlit(" ");
    }
    let len = s.as_str().unicode_len();
    let tok = match find_str(s.as_str(), " ") {
        None => {
            proof {
                assert(s@.subrange(0, s@.len() as int) =~= s@);
            }
            substr_copy(s.as_str(), 0, len)
        },
        Some(i) => {
            proof {
                crate::text::lemma_find_from_some(s@, " "@, 0, i as int);
            }
            substr_copy(s.as_str(), 0, i)
        },
    };
    proof {
        assert(tok@ == first_token(s@));
    }
    tok == String::from_str("GET") || tok == String::from_str("POST") || tok == String::from_str(
        "PUT",
    ) || tok == String::from_str("PATCH") || tok == String::from_str("DELETE") || tok
        == String::from_str("OPTIONS")
}

} // verus!
