//! What the service reads from the `Authorization` header of a request.

use vstd::prelude::*;
use vstd::string::StrSliceExecFns;

verus! {

/// The word and the space that stand before a bearer token.
pub open spec fn bearer_prefix() -> Seq<char> {
    "Bearer "@
}

/// The token that a header value carries: what follows `Bearer `, where the
/// value starts with it.
pub open spec fn bearer_token_of(header: Seq<char>) -> Option<Seq<char>> {
    if header.len() >= 7 && header.take(7) == bearer_prefix() {
        Some(header.skip(7))
    } else {
        None
    }
}

/// The token that the value of an `Authorization` header carries; `None`
/// where the value does not start with `Bearer `. A value that is just
/// `Bearer ` carries the empty token.
pub fn bearer_token(header: &str) -> (r: Option<&str>)
    ensures
        match r {
            Some(token) => bearer_token_of(header@) == Some(token@),
            None => bearer_token_of(header@) is None,
        },
{
    proof {
        reveal_strlit("Bearer ");
    }
    let prefix = "Bearer ";
    let len = header.unicode_len();
    if len < 7 {
        return None;
    }
    let mut i: usize = 0;
    while i < 7
        invariant
            i <= 7,
            len == header@.len(),
            len >= 7,
            prefix@ == bearer_prefix(),
            prefix@.len() == 7,
            forall|j: int| 0 <= j < i ==> header@[j] == prefix@[j],
        decreases 7 - i,
    {
        if header.get_char(i) != prefix.get_char(i) {
            proof {
                assert(header@.take(7)[i as int] == header@[i as int]);
            }
            return None;
        }
        i += 1;
    }
    proof {
        assert(header@.take(7) =~= bearer_prefix());
        assert(header@.subrange(7, len as int) =~= header@.skip(7));
    }
    Some(header.substring_char(7, len))
}

} // verus!
