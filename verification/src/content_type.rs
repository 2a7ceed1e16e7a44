//! Validated content types. Input content types follow the catalog's own
//! little grammar (`*/*`, `type/*`, `type/subtype`); output content types are
//! whatever fits in an HTTP header value, which the `http` crate decides.

use crate::schema::{ContentTypePattern, InputContentType};
use vstd::prelude::*;

verus! {

/// A character the `http` crate accepts inside a header value. Bytes 32..=255
/// are accepted except DEL, plus horizontal tab; every byte of a non-ASCII
/// character is at least 128, so at character level this means: tab, or any
/// character other than DEL whose code is at least 32.
pub open spec fn header_value_char_ok(c: char) -> bool {
    c == '\t' || (c as u32 >= 32 && c as u32 != 127)
}

/// Whether `http` accepts this string as a header value.
pub open spec fn header_value_ok(s: Seq<char>) -> bool {
    forall|i: int| 0 <= i < s.len() ==> header_value_char_ok(#[trigger] s[i])
}

/// Relies on `http::HeaderValue::from_str`, which succeeds exactly when every
/// byte of the string is 32..=255 but not DEL (127), or horizontal tab.
#[verifier::external_body]
pub(crate) fn accepted_header_value(s: &String) -> (r: bool)
    ensures
        r == header_value_ok(s@),
{
    http::HeaderValue::from_str(s.as_str()).is_ok()
}

/// First position at or after `from` holding `'/'`, or the length if none.
pub open spec fn find_slash(s: Seq<char>, from: int) -> int
    decreases s.len() - from when 0 <= from <= s.len()
{
    if from >= s.len() {
        s.len() as int
    } else if s[from] == '/' {
        from
    } else {
        find_slash(s, from + 1)
    }
}

/// A one-character wildcard segment.
pub open spec fn is_star(s: Seq<char>) -> bool {
    s.len() == 1 && s[0] == '*'
}

/// The content-type pattern a string denotes, if any: the string must hold
/// exactly one slash with nonempty segments on both sides; a wildcard type
/// demands a wildcard subtype.
pub open spec fn parsed_content_type(s: Seq<char>) -> Option<ContentTypePattern> {
    let p = find_slash(s, 0);
    if p == s.len() {
        None
    } else if find_slash(s, p + 1) != s.len() {
        None
    } else if p == 0 || p + 1 == s.len() {
        None
    } else {
        let t = s.subrange(0, p);
        let sub = s.subrange(p + 1, s.len() as int);
        if is_star(t) {
            if is_star(sub) {
                Some(ContentTypePattern::Any)
            } else {
                None
            }
        } else if is_star(sub) {
            Some(ContentTypePattern::MimeType(t))
        } else {
            Some(ContentTypePattern::MimeTypeAndSubtype(t, sub))
        }
    }
}

/// First position at or after `from` holding `'/'`, or the length if none.
fn find_slash_from(s: &str, from: usize) -> (r: usize)
    requires
        from <= s@.len(),
    ensures
        r == find_slash(s@, from as int),
        from <= r <= s@.len(),
{
    let n = s.unicode_len();
    let mut i = from;
    while i < n
        invariant
            from <= i <= n,
            n == s@.len(),
            find_slash(s@, from as int) == find_slash(s@, i as int),
        decreases n - i,
    {
        if s.get_char(i) == '/' {
            return i;
        }
        i += 1;
    }
    n
}

/// Parse a content-type pattern, as [`parsed_content_type`] describes.
pub fn parse_input_content_type(s: &String) -> (r: Option<InputContentType>)
    ensures
        r is Some <==> parsed_content_type(s@) is Some,
        r matches Some(ct) ==> Some(ct@) == parsed_content_type(s@),
{
    let st = s.as_str();
    let n = st.unicode_len();
    let p = find_slash_from(st, 0);
    if p == n {
        return None;
    }
    let p2 = find_slash_from(st, p + 1);
    if p2 != n {
        return None;
    }
    if p == 0 || p + 1 == n {
        return None;
    }
    let t_star = p == 1 && st.get_char(0) == '*';
    let sub_star = n - (p + 1) == 1 && st.get_char(p + 1) == '*';
    proof {
        assert(is_star(s@.subrange(0, p as int)) == t_star);
        assert(is_star(s@.subrange(p as int + 1, s@.len() as int)) == sub_star);
    }
    if t_star {
        if sub_star {
            Some(InputContentType::Any)
        } else {
            None
        }
    } else {
        let t = String::from_str(st.substring_char(0, p));
        if sub_star {
            Some(InputContentType::MimeType(t))
        } else {
            let sub = String::from_str(st.substring_char(p + 1, n));
            Some(InputContentType::MimeTypeAndSubtype(t, sub))
        }
    }
}

} // verus!
