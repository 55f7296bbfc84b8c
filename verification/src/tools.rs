//! Request-level helpers of the HTTP server.

use vstd::prelude::*;
use vstd::utf8::*;
use vstd::string::StringSliceAdditionalSpecFns;
use vstd::string::StringExecFns;
use crate::text::{is_field, is_field_at, is_split_field};

verus! {

broadcast use {
    vstd::utf8::encode_utf8_valid_utf8,
    vstd::utf8::encode_utf8_decode_utf8,
    vstd::utf8::is_char_boundary_start_end_of_seq,
};

/// Longest byte length a span label may have.
pub const MAX_LABEL_BYTES: usize = 256;

/// `k` is the cut point of a label of UTF-8 bytes `b`: the largest char
/// boundary that is at most `MAX_LABEL_BYTES`, or the whole label when it
/// already fits.
pub open spec fn is_label_cut(b: Seq<u8>, k: int) -> bool {
    if b.len() <= MAX_LABEL_BYTES {
        k == b.len()
    } else {
        &&& 0 <= k <= MAX_LABEL_BYTES
        &&& is_char_boundary(b, k)
        &&& forall|j: int| k < j <= MAX_LABEL_BYTES ==> !is_char_boundary(b, j)
    }
}

/// A label has exactly one cut point.
pub proof fn lemma_label_cut_unique(b: Seq<u8>, k1: int, k2: int)
    requires
        is_label_cut(b, k1),
        is_label_cut(b, k2),
    ensures
        k1 == k2,
{
}

/// A cut label fits, so cutting it again keeps all of it: truncation is
/// idempotent.
pub proof fn lemma_label_cut_idempotent(b: Seq<u8>, k: int)
    requires
        is_label_cut(b, k),
    ensures
        b.take(k).len() <= MAX_LABEL_BYTES,
        forall|k2: int| #[trigger] is_label_cut(b.take(k), k2) ==> b.take(k).take(k2) == b.take(k),
{
    assert forall|k2: int| #[trigger] is_label_cut(b.take(k), k2) implies b.take(k).take(k2)
        == b.take(k) by {
        assert(b.take(k).take(k2) =~= b.take(k));
    }
}

/// Clamp a label value to a byte length the APM server accepts: a label of at
/// most `MAX_LABEL_BYTES` bytes is returned whole; a longer one is cut at the
/// last char boundary at or before that length.
pub fn trunc(s: &str) -> (r: &str)
    ensures
        exists|k: int| is_label_cut(s.spec_bytes(), k) && r.spec_bytes() == s.spec_bytes().take(k),
        r@ == s@.take(r@.len() as int),
        r.spec_bytes().len() <= MAX_LABEL_BYTES || r@ == s@,
{
    let ghost b = s.spec_bytes();
    let byte_len = s.as_bytes().len();
    if byte_len <= MAX_LABEL_BYTES {
        proof {
            assert(b.take(b.len() as int) =~= b);
            assert(is_label_cut(b, b.len() as int));
        }
        return s;
    }
    let mut end: usize = MAX_LABEL_BYTES;
    while end > 0 && !s.is_char_boundary(end)
        invariant
            b == s.spec_bytes(),
            b.len() > MAX_LABEL_BYTES,
            end <= MAX_LABEL_BYTES,
            forall|j: int| end < j <= MAX_LABEL_BYTES ==> !is_char_boundary(b, j),
        decreases end,
    {
        end = end - 1;
    }
    proof {
        assert(is_char_boundary(b, 0));
    }
    let (head, _tail) = s.split_at(end);
    proof {
        let k = end as int;
        assert(is_label_cut(b, k));
        decode_utf8_split(b, k);
        assert(b.subrange(0, k) =~= head.spec_bytes());
        assert(decode_utf8(head.spec_bytes()) == head@);
        assert(s@ =~= head@ + decode_utf8(b.subrange(k, b.len() as int)));
        assert(head@ =~= s@.take(head@.len() as int));
        assert(head.spec_bytes() =~= b.take(k));
    }
    head
}

/// Separator of the configured API keys.
pub const API_KEY_SEPARATOR: char = ',';

/// What the API-key check answers: `None` lets the request through, `Some(m)`
/// refuses it with message `m`.
///
/// With no configured keys (unset or empty) every request passes; otherwise
/// the request needs an `X-Api-Key` header whose value is non-empty and one
/// of the comma-separated configured keys.
pub open spec fn api_key_verdict(keys: Option<Seq<char>>, header: Option<Seq<char>>) -> Option<
    Seq<char>,
> {
    match keys {
        None => None,
        Some(k) => if k.len() == 0 {
            None
        } else {
            match header {
                None => Some("Missing X-Api-Key in header"@),
                Some(v) => if v.len() == 0 || !is_field(k, API_KEY_SEPARATOR, v) {
                    Some("Invalid X-Api-Key"@)
                } else {
                    None
                },
            }
        },
    }
}

/// A header naming one of the configured keys passes, wherever that key
/// stands in the comma-separated list: alone, first, last or in between.
pub proof fn lemma_listed_key_passes(before: Seq<char>, v: Seq<char>, after: Seq<char>)
    requires
        v.len() > 0,
        !v.contains(API_KEY_SEPARATOR),
    ensures
        api_key_verdict(Some(v), Some(v)) is None,
        api_key_verdict(Some(v + seq![API_KEY_SEPARATOR] + after), Some(v)) is None,
        api_key_verdict(Some(before + seq![API_KEY_SEPARATOR] + v), Some(v)) is None,
        api_key_verdict(
            Some(before + seq![API_KEY_SEPARATOR] + v + seq![API_KEY_SEPARATOR] + after),
            Some(v),
        ) is None,
{
    let sep = seq![API_KEY_SEPARATOR];
    let b = before.len() as int;
    let n = v.len() as int;
    assert(v.subrange(0, n) =~= v);
    assert(is_field_at(v, API_KEY_SEPARATOR, 0, n));
    let k1 = v + sep + after;
    assert(k1.subrange(0, n) =~= v);
    assert(is_field_at(k1, API_KEY_SEPARATOR, 0, n));
    let k2 = before + sep + v;
    assert(k2.subrange(b + 1, b + 1 + n) =~= v);
    assert(is_field_at(k2, API_KEY_SEPARATOR, b + 1, b + 1 + n));
    let k3 = before + sep + v + sep + after;
    assert(k3.subrange(b + 1, b + 1 + n) =~= v);
    assert(is_field_at(k3, API_KEY_SEPARATOR, b + 1, b + 1 + n));
}

/// A header that passes names a whole configured key: it is non-empty, holds
/// no comma, and occurs in the key list between commas or the list's ends.
pub proof fn lemma_passing_key_is_listed(k: Seq<char>, v: Seq<char>)
    requires
        k.len() > 0,
        api_key_verdict(Some(k), Some(v)) is None,
    ensures
        v.len() > 0,
        !v.contains(API_KEY_SEPARATOR),
        exists|i: int|
            {
                &&& 0 <= i && i + v.len() <= k.len()
                &&& #[trigger] k.subrange(i, i + v.len()) == v
                &&& (i == 0 || k[i - 1] == API_KEY_SEPARATOR)
                &&& (i + v.len() == k.len() || k[i + v.len()] == API_KEY_SEPARATOR)
            },
{
    let (i, j) = choose|i: int, j: int|
        is_field_at(k, API_KEY_SEPARATOR, i, j) && #[trigger] k.subrange(i, j) == v;
    assert(k.subrange(i, i + v.len()) == v);
}

/// With keys configured, an empty header or one holding a comma never names
/// a configured key, so it is refused; a missing header is refused too.
pub proof fn lemma_unlisted_key_refused(k: Seq<char>, v: Seq<char>)
    requires
        k.len() > 0,
    ensures
        api_key_verdict(Some(k), None) == Some("Missing X-Api-Key in header"@),
        (v.len() == 0 || v.contains(API_KEY_SEPARATOR)) ==> api_key_verdict(Some(k), Some(v))
            == Some("Invalid X-Api-Key"@),
{
    if v.contains(API_KEY_SEPARATOR) && is_field(k, API_KEY_SEPARATOR, v) {
        let (i, j) = choose|i: int, j: int|
            is_field_at(k, API_KEY_SEPARATOR, i, j) && #[trigger] k.subrange(i, j) == v;
    }
}

pub open spec fn opt_view(s: Option<&str>) -> Option<Seq<char>> {
    match s {
        Some(v) => Some(v@),
        None => None,
    }
}

/// Checks a request's `X-Api-Key` header (`header`, `Some("")` when it is not
/// text) against the configured keys (`api_keys`, the value of
/// `ENGINE_SERVER_API_KEYS`).
pub fn validate_api_key(api_keys: Option<&str>, header: Option<&str>) -> (r: Option<String>)
    ensures
        match r {
            None => api_key_verdict(opt_view(api_keys), opt_view(header)) is None,
            Some(m) => api_key_verdict(opt_view(api_keys), opt_view(header)) == Some(m@),
        },
        match (api_keys, header) {
            (Some(k), Some(v)) => k@.len() > 0 ==> (r is None <==> (v@.len() > 0 && is_field(
                k@,
                API_KEY_SEPARATOR,
                v@,
            ))),
            (Some(k), None) => r is None <==> k@.len() == 0,
            (None, _) => r is None,
        },
{
    let keys = match api_keys {
        Some(k) => k,
        None => return None,
    };
    if keys.unicode_len() == 0 {
        return None;
    }
    match header {
        None => Some(String::from_str("Missing X-Api-Key in header")),
        Some(val) => {
            if val.unicode_len() == 0 || !is_split_field(keys, API_KEY_SEPARATOR, val) {
                Some(String::from_str("Invalid X-Api-Key"))
            } else {
                None
            }
        },
    }
}

} // verus!
