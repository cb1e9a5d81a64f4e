//! Validation of bucket names, object keys and endpoints.

use vstd::prelude::*;
use vstd::utf8::encode_utf8;
use crate::text::{chars_of, find_char, first_index_of, has_prefix, replace_all, replace_chars, slice_chars, starts_with, string_of};

verus! {

/// Characters allowed in a bucket name.
pub open spec fn is_bucket_char(c: char) -> bool {
    ('a' <= c && c <= 'z') || ('0' <= c && c <= '9') || c == '-'
}

/// Bucket naming rules: 3 to 63 bytes; only lowercase letters, digits and
/// hyphens; neither first nor last character a hyphen.
pub open spec fn is_valid_bucket_name(name: Seq<char>) -> bool {
    &&& 3 <= encode_utf8(name).len() <= 63
    &&& !(name.len() > 0 && name[0] == '-')
    &&& !(name.len() > 0 && name.last() == '-')
    &&& forall|i: int| 0 <= i < name.len() ==> is_bucket_char(#[trigger] name[i])
}

/// Object key rules: non-empty, at most 1023 characters, and neither starting
/// nor ending with `/` or `\`.
pub open spec fn is_valid_object_key(key: Seq<char>) -> bool {
    &&& key.len() > 0
    &&& key.len() <= 1023
    &&& key[0] != '/' && key[0] != '\\'
    &&& key.last() != '/' && key.last() != '\\'
}

/// Validates a bucket name.
pub fn validate_bucket_name(name: &str) -> (r: bool)
    ensures
        r == is_valid_bucket_name(name@),
{
    let n = name.as_bytes().len();
    if n < 3 || n > 63 {
        return false;
    }
    let cs = chars_of(name);
    if cs.len() > 0 && (cs[0] == '-' || cs[cs.len() - 1] == '-') {
        return false;
    }
    let mut i: usize = 0;
    while i < cs.len()
        invariant
            cs@ == name@,
            i <= cs.len(),
            forall|j: int| 0 <= j < i ==> is_bucket_char(#[trigger] cs@[j]),
        decreases cs.len() - i,
    {
        let c = cs[i];
        if !(('a' <= c && c <= 'z') || ('0' <= c && c <= '9') || c == '-') {
            assert(!is_bucket_char(cs@[i as int]));
            return false;
        }
        i = i + 1;
    }
    true
}

/// Validates an object key.
pub fn validate_object_key(key: &str) -> (r: bool)
    ensures
        r == is_valid_object_key(key@),
{
    let cs = chars_of(key);
    if cs.len() == 0 || cs.len() > 1023 {
        return false;
    }
    let first = cs[0];
    let last = cs[cs.len() - 1];
    first != '/' && first != '\\' && last != '/' && last != '\\'
}

/// An endpoint with a leading `http://` or, failing that, `https://` removed.
pub open spec fn strip_scheme(endpoint: Seq<char>) -> Seq<char> {
    if has_prefix(endpoint, "http://"@) {
        endpoint.skip(7)
    } else if has_prefix(endpoint, "https://"@) {
        endpoint.skip(8)
    } else {
        endpoint
    }
}

/// The region named by an endpoint: the text before its first `.` (after the
/// scheme), with every `oss-` removed; none when there is no `.`.
pub open spec fn region_of_endpoint(endpoint: Seq<char>) -> Option<Seq<char>> {
    let clean = strip_scheme(endpoint);
    match first_index_of(clean, '.') {
        Some(i) => Some(replace_all(clean.take(i), "oss-"@, Seq::empty())),
        None => None,
    }
}

/// Endpoint rules: after the scheme, non-empty, containing a `.`, and neither
/// starting nor ending with one.
pub open spec fn is_valid_endpoint(endpoint: Seq<char>) -> bool {
    let clean = strip_scheme(endpoint);
    &&& clean.len() > 0
    &&& clean.contains('.')
    &&& clean[0] != '.'
    &&& clean.last() != '.'
}

/// Removes the scheme of an endpoint.
pub fn strip_endpoint_scheme(endpoint: &str) -> (r: Vec<char>)
    ensures
        r@ == strip_scheme(endpoint@),
{
    let cs = chars_of(endpoint);
    let http = chars_of("http://");
    let https = chars_of("https://");
    proof {
        reveal_strlit("http://");
        reveal_strlit("https://");
    }
    if starts_with(&cs, &http) {
        slice_chars(&cs, 7, cs.len())
    } else if starts_with(&cs, &https) {
        slice_chars(&cs, 8, cs.len())
    } else {
        cs
    }
}

/// Extracts the region from an endpoint such as `oss-cn-hangzhou.aliyuncs.com`.
pub fn get_region_from_endpoint(endpoint: &str) -> (r: Option<String>)
    ensures
        match r {
            Some(s) => region_of_endpoint(endpoint@) == Some(s@),
            None => region_of_endpoint(endpoint@) is None,
        },
{
    let clean = strip_endpoint_scheme(endpoint);
    match find_char(&clean, '.') {
        Some(idx) => {
            let head = slice_chars(&clean, 0, idx);
            let pat = chars_of("oss-");
            let empty: Vec<char> = Vec::new();
            let replaced = replace_chars(&head, &pat, &empty);
            assert(head@ == clean@.take(idx as int));
            Some(string_of(&replaced))
        },
        None => None,
    }
}

/// Checks the shape of an endpoint.
pub fn validate_endpoint(endpoint: &str) -> (r: bool)
    ensures
        r == is_valid_endpoint(endpoint@),
{
    let clean = strip_endpoint_scheme(endpoint);
    if clean.len() == 0 {
        return false;
    }
    let dot = find_char(&clean, '.');
    proof {
        if dot is None {
            assert(!clean@.contains('.'));
        }
    }
    dot.is_some() && clean[0] != '.' && clean[clean.len() - 1] != '.'
}

} // verus!

verus! {

/// Characters up to `0x7F` take one byte each in UTF-8.
proof fn lemma_ascii_utf8_len(s: Seq<char>)
    requires
        forall|i: int| 0 <= i < s.len() ==> (s[i] as u32) <= 0x7F,
    ensures
        encode_utf8(s).len() == s.len(),
    decreases s.len(),
{
    if s.len() > 0 {
        assert forall|i: int| 0 <= i < s.drop_first().len() implies (s.drop_first()[i] as u32) <= 0x7F by {
            assert(s.drop_first()[i] == s[i + 1]);
        }
        lemma_ascii_utf8_len(s.drop_first());
        assert((s[0] as u32) <= 0x7F);
    }
}

/// The bucket naming rule in full: a name is accepted exactly when it has 3
/// to 63 characters, each a lowercase ASCII letter, a digit or `-`, and both
/// its first and its last character are a letter or a digit (so names such as
/// `2024-backup` are accepted).
pub proof fn lemma_bucket_name_rule(name: Seq<char>)
    ensures
        is_valid_bucket_name(name) <==> {
            &&& 3 <= name.len() <= 63
            &&& forall|i: int|
                0 <= i < name.len() ==> ('a' <= #[trigger] name[i] && name[i] <= 'z') || ('0' <= name[i] && name[i]
                    <= '9') || name[i] == '-'
            &&& ('a' <= name[0] && name[0] <= 'z') || ('0' <= name[0] && name[0] <= '9')
            &&& ('a' <= name.last() && name.last() <= 'z') || ('0' <= name.last() && name.last() <= '9')
        },
{
    if forall|i: int| 0 <= i < name.len() ==> is_bucket_char(#[trigger] name[i]) {
        assert forall|i: int| 0 <= i < name.len() implies (name[i] as u32) <= 0x7F by {
            assert(is_bucket_char(name[i]));
        }
        lemma_ascii_utf8_len(name);
        if name.len() > 0 {
            assert(is_bucket_char(name[0]));
            assert(is_bucket_char(name[name.len() - 1]));
        }
    } else {
        let i = choose|i: int| 0 <= i < name.len() && !is_bucket_char(#[trigger] name[i]);
        assert(!(('a' <= name[i] && name[i] <= 'z') || ('0' <= name[i] && name[i] <= '9') || name[i] == '-'));
    }
}

} // verus!
