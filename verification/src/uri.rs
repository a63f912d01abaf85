//! Joining a base URI with a path, never doubling and never dropping the
//! separating slash.

use vstd::prelude::*;

verus! {

/// What joining `base_uri` and `rest` yields: one `'/'` stands between the
/// two parts, whichever side supplied it.
pub open spec fn spec_join_uri(base_uri: Seq<char>, rest: Seq<char>) -> Seq<char> {
    if base_uri.len() > 0 && base_uri.last() == '/' {
        if rest.len() > 0 && rest.first() == '/' {
            base_uri + rest.skip(1)
        } else {
            base_uri + rest
        }
    } else {
        if rest.len() > 0 && rest.first() == '/' {
            base_uri + rest
        } else {
            base_uri + seq!['/'] + rest
        }
    }
}

/// Joins a base URI and a path with exactly one `'/'` between them.
pub fn join_uri(base_uri: &str, rest: &str) -> (r: String)
    ensures
        r@ == spec_join_uri(base_uri@, rest@),
{
    let base_len = base_uri.unicode_len();
    let rest_len = rest.unicode_len();
    let base_slash = base_len > 0 && base_uri.get_char(base_len - 1) == '/';
    let rest_slash = rest_len > 0 && rest.get_char(0) == '/';
    if base_slash {
        if rest_slash {
            let stripped = rest.substring_char(1, rest_len);
            let r = base_uri.to_owned().concat(stripped);
            assert(r@ =~= spec_join_uri(base_uri@, rest@));
            r
        } else {
            let r = base_uri.to_owned().concat(rest);
            assert(r@ =~= spec_join_uri(base_uri@, rest@));
            r
        }
    } else if rest_slash {
        let r = base_uri.to_owned().concat(rest);
        assert(r@ =~= spec_join_uri(base_uri@, rest@));
        r
    } else {
        let r = base_uri.to_owned().concat("/").concat(rest);
        proof {
            reveal_strlit("/");
        }
        assert(r@ =~= spec_join_uri(base_uri@, rest@));
        r
    }
}

} // verus!
