//! The access model: one shared bearer token.
//!
//! A request proves itself either with the cookie `token=<v>` or with the
//! header `Authorization: Bearer <v>`; the value, trimmed of surrounding
//! whitespace, must equal the configured token character for character.

use vstd::prelude::*;

verus! {

use vstd::string::StrSliceExecFns;

/// The whitespace the token comparison ignores at either end.
pub open spec fn is_ascii_space(c: char) -> bool {
    c == ' ' || c == '\t' || c == '\n' || c == '\r'
}

/// The characters left after dropping leading whitespace.
pub open spec fn spec_trim_front(s: Seq<char>) -> Seq<char>
    decreases s.len(),
{
    if s.len() > 0 && is_ascii_space(s[0]) {
        spec_trim_front(s.skip(1))
    } else {
        s
    }
}

/// The characters left after dropping trailing whitespace.
pub open spec fn spec_trim_back(s: Seq<char>) -> Seq<char>
    decreases s.len(),
{
    if s.len() > 0 && is_ascii_space(s.last()) {
        spec_trim_back(s.drop_last())
    } else {
        s
    }
}

/// The characters left after dropping whitespace at both ends.
pub open spec fn spec_trim(s: Seq<char>) -> Seq<char> {
    spec_trim_back(spec_trim_front(s))
}

proof fn lemma_trim_front_skip(s: Seq<char>, i: int)
    requires
        0 <= i <= s.len(),
        forall|j: int| 0 <= j < i ==> is_ascii_space(#[trigger] s[j]),
        i == s.len() || !is_ascii_space(s[i]),
    ensures
        spec_trim_front(s) == s.skip(i),
    decreases i,
{
    if i == 0 {
        assert(s.skip(0) =~= s);
    } else {
        assert(is_ascii_space(s[0]));
        lemma_trim_front_skip(s.skip(1), i - 1);
        assert(s.skip(1).skip(i - 1) =~= s.skip(i));
    }
}

proof fn lemma_trim_back_take(s: Seq<char>, i: int)
    requires
        0 <= i <= s.len(),
        forall|j: int| i <= j < s.len() ==> is_ascii_space(#[trigger] s[j]),
        i == 0 || !is_ascii_space(s[i - 1]),
    ensures
        spec_trim_back(s) == s.take(i),
    decreases s.len() - i,
{
    if i == s.len() {
        assert(s.take(i) =~= s);
    } else {
        assert(is_ascii_space(s.last()));
        lemma_trim_back_take(s.drop_last(), i);
    }
}

/// Whether the character at `i` is whitespace.
fn is_space_at(s: &str, i: usize) -> (r: bool)
    requires
        i < s@.len(),
    ensures
        r == is_ascii_space(s@[i as int]),
{
    let c = s.get_char(i);
    c == ' ' || c == '\t' || c == '\n' || c == '\r'
}

/// Drop whitespace from both ends of a string.
pub fn trim_chars(s: &str) -> (r: String)
    ensures
        r@ == spec_trim(s@),
{
    let n = s.unicode_len();
    let mut a: usize = 0;
    while a < n && is_space_at(s, a)
        invariant
            n == s@.len(),
            a <= n,
            forall|j: int| 0 <= j < a ==> is_ascii_space(#[trigger] s@[j]),
        decreases n - a,
    {
        a = a + 1;
    }
    let mut b: usize = n;
    while b > a && is_space_at(s, b - 1)
        invariant
            n == s@.len(),
            a <= b <= n,
            forall|j: int| 0 <= j < a ==> is_ascii_space(#[trigger] s@[j]),
            forall|j: int| b <= j < n ==> is_ascii_space(#[trigger] s@[j]),
        decreases b,
    {
        b = b - 1;
    }
    let out = s.substring_char(a, b).to_owned();
    proof {
        lemma_trim_front_skip(s@, a as int);
        if b == a {
            lemma_trim_back_take(s@.skip(a as int), 0);
        } else {
            lemma_trim_back_take(s@.skip(a as int), b - a);
        }
        assert(s@.skip(a as int).take(b - a) =~= s@.subrange(a as int, b as int));
    }
    out
}

/// The header value with every leading `"Bearer "` marker dropped.
pub open spec fn spec_strip_bearer(s: Seq<char>) -> Seq<char>
    decreases s.len(),
{
    if s.len() >= 7 && s.take(7) == seq!['B', 'e', 'a', 'r', 'e', 'r', ' '] {
        spec_strip_bearer(s.skip(7))
    } else {
        s
    }
}

/// Drop every leading `"Bearer "` marker from a header value.
pub fn strip_bearer(s: &str) -> (r: String)
    ensures
        r@ == spec_strip_bearer(s@),
{
    let mut rest = s.to_owned();
    loop
        invariant
            spec_strip_bearer(rest@) == spec_strip_bearer(s@),
        decreases rest@.len(),
    {
        let n = rest.as_str().unicode_len();
        if n >= 7 && crate::text::str_starts_with(rest.as_str(), "Bearer ") {
            proof {
                reveal_strlit("Bearer ");
                assert("Bearer "@ =~= seq!['B', 'e', 'a', 'r', 'e', 'r', ' ']);
                assert(rest@.take(7) == seq!['B', 'e', 'a', 'r', 'e', 'r', ' ']);
            }
            let next = rest.as_str().substring_char(7, n).to_owned();
            proof {
                assert(next@ =~= rest@.skip(7));
            }
            rest = next;
        } else {
            proof {
                reveal_strlit("Bearer ");
                assert("Bearer "@ =~= seq!['B', 'e', 'a', 'r', 'e', 'r', ' ']);
                if rest@.len() >= 7 && rest@.take(7) == seq!['B', 'e', 'a', 'r', 'e', 'r', ' '] {
                    assert(rest@.take(7) == "Bearer "@);
                }
            }
            return rest;
        }
    }
}

/// Whether a request's credentials match the configured token: the cookie
/// value when one is present, otherwise the Authorization header stripped
/// of its `"Bearer "` marker; either is trimmed and compared character for
/// character.
pub open spec fn spec_standalone_auth(
    cookie_token: Option<Seq<char>>,
    auth_header: Option<Seq<char>>,
    actual_token: Seq<char>,
) -> bool {
    match cookie_token {
        Some(c) => spec_trim(c) == actual_token,
        None => match auth_header {
            Some(h) => spec_trim(spec_strip_bearer(h)) == actual_token,
            None => false,
        },
    }
}

/// The token gate: cookie first, else bearer header, trimmed, compared
/// byte-equal to the configured token.
pub fn standalone_auth(
    cookie_token: Option<&str>,
    auth_header: Option<&str>,
    actual_token: &str,
) -> (r: bool)
    ensures
        r == spec_standalone_auth(
            match cookie_token {
                Some(c) => Some(c@),
                None => None,
            },
            match auth_header {
                Some(h) => Some(h@),
                None => None,
            },
            actual_token@,
        ),
{
    let presented: String = match cookie_token {
        Some(c) => trim_chars(c),
        None => match auth_header {
            Some(h) => {
                let stripped = strip_bearer(h);
                trim_chars(stripped.as_str())
            },
            None => {
                return false;
            },
        },
    };
    crate::text::str_eq(presented.as_str(), actual_token)
}

/// Logging in: the posted token must equal the configured token exactly.
pub fn authenticate(given_token: &str, actual_token: &str) -> (r: Result<(), crate::error::ServiceError>)
    ensures
        r is Ok <==> given_token@ == actual_token@,
        r is Err ==> r == Err::<(), crate::error::ServiceError>(
            crate::error::ServiceError::Unauthorized,
        ),
{
    if crate::text::str_eq(given_token, actual_token) {
        Ok(())
    } else {
        Err(crate::error::ServiceError::Unauthorized)
    }
}

} // verus!
