//! XMP gain-map metadata: serializing metadata into the RDF/XML form that
//! UltraHDR files embed, and the tolerant parser reading it back.
//!
//! All processing works on bytes. Metadata values are fixed-point
//! millionths (see [`crate::fixed`]); a serialized scalar broadcasts to all
//! three channels on parse, and three equal channels collapse to a single
//! scalar on write. The writers carry exact byte-level contracts
//! ([`iso_xmp_bytes`], [`v1_xmp_bytes`]); the parser returns exactly the
//! tolerant walk [`spec_xmp_parse`] over its input bytes.

use vstd::prelude::*;

use crate::error::UltraHdrError;
use crate::fixed::{fmt_micros, fmt_micros_bytes, parse_micros, parse_micros_bytes};
use crate::metadata::{micro_seq, GainMapMetadata, MetadataModel};
use crate::segment::{bytes_start_with, seq_starts_with};

verus! {

/// XMP namespace URI of the gain-map metadata.
pub const HDRGM_NAMESPACE: &'static str = "http://ns.adobe.com/hdr-gain-map/1.0/";

/// Attribute prefix of the gain-map metadata.
pub const HDRGM_PREFIX: &'static str = "hdrgm";

/// XMP namespace URI of the UltraHDR v1 container directory.
pub const CONTAINER_NAMESPACE: &'static str = "http://ns.google.com/photos/1.0/container/";

/// Element prefix of the container directory.
pub const CONTAINER_PREFIX: &'static str = "Container";

/// XMP namespace URI of container directory items.
pub const CONTAINER_ITEM_NAMESPACE: &'static str = "http://ns.google.com/photos/1.0/container/item/";

/// Element prefix of container directory items.
pub const CONTAINER_ITEM_PREFIX: &'static str = "Item";

/// Whether `needle` occurs contiguously inside `hay`.
pub open spec fn seq_contains(hay: Seq<u8>, needle: Seq<u8>) -> bool {
    exists|i: int|
        0 <= i <= hay.len() - needle.len() && #[trigger] hay.subrange(i, i + needle.len() as int)
            == needle
}

/// Checks whether `needle` occurs contiguously inside `hay`.
pub fn bytes_contain(hay: &[u8], needle: &[u8]) -> (r: bool)
    ensures
        r == seq_contains(hay@, needle@),
{
    let n = hay.len();
    let m = needle.len();
    if m > n {
        assert(!seq_contains(hay@, needle@));
        return false;
    }
    let mut i: usize = 0;
    while i <= n - m
        invariant
            n == hay@.len(),
            m == needle@.len(),
            m <= n,
            0 <= i <= n - m + 1,
            forall|j: int|
                0 <= j < i ==> #[trigger] hay@.subrange(j, j + needle@.len() as int) != needle@,
        decreases n + 1 - m - i,
    {
        let mut k: usize = 0;
        let mut all = true;
        while k < m
            invariant
                n == hay@.len(),
                m == needle@.len(),
                0 <= i <= n - m,
                0 <= k <= m,
                all == (forall|j: int| 0 <= j < k ==> hay@[i + j] == needle@[j]),
            decreases m - k,
        {
            let ghost pre = all;
            if hay[i + k] != needle[k] {
                all = false;
            }
            proof {
                if pre && hay@[i as int + k as int] == needle@[k as int] {
                    assert forall|j: int| 0 <= j < k + 1 implies hay@[i + j] == needle@[j] by {}
                } else {
                    assert(!(forall|j: int| 0 <= j < k + 1 ==> hay@[i + j] == needle@[j])) by {
                        if pre {
                            assert(hay@[i + k as int] != needle@[k as int]);
                        } else {
                            let w = choose|j: int|
                                0 <= j < k && hay@[i + j] != needle@[j];
                            assert(hay@[i + w] != needle@[w]);
                        }
                    }
                }
            }
            k += 1;
        }
        if all {
            assert(hay@.subrange(i as int, i + needle@.len() as int) =~= needle@);
            return true;
        }
        proof {
            assert(hay@.subrange(i as int, i + needle@.len() as int) != needle@) by {
                let w = choose|j: int| 0 <= j < m && hay@[i + j] != needle@[j];
                assert(hay@.subrange(i as int, i + needle@.len() as int)[w] != needle@[w]);
            }
        }
        i += 1;
    }
    assert(!seq_contains(hay@, needle@));
    false
}

/// Whether a byte is ASCII whitespace, as trimming treats it.
pub open spec fn is_ws(b: u8) -> bool {
    b == 0x09 || b == 0x0A || b == 0x0B || b == 0x0C || b == 0x0D || b == 0x20
}

/// The count of leading whitespace bytes.
pub open spec fn lead_ws(s: Seq<u8>) -> int
    decreases s.len(),
{
    if s.len() == 0 || !is_ws(s[0]) {
        0
    } else {
        1 + lead_ws(s.drop_first())
    }
}

/// The count of trailing whitespace bytes.
pub open spec fn trail_ws(s: Seq<u8>) -> int
    decreases s.len(),
{
    if s.len() == 0 || !is_ws(s.last()) {
        0
    } else {
        1 + trail_ws(s.drop_last())
    }
}

/// `s` without leading and trailing ASCII whitespace.
pub open spec fn spec_trim(s: Seq<u8>) -> Seq<u8> {
    let a = lead_ws(s);
    if a == s.len() {
        Seq::empty()
    } else {
        s.subrange(a, s.len() - trail_ws(s))
    }
}

proof fn lemma_lead_ws_bounds(s: Seq<u8>)
    ensures
        0 <= lead_ws(s) <= s.len(),
        forall|j: int| 0 <= j < lead_ws(s) ==> is_ws(#[trigger] s[j]),
        lead_ws(s) < s.len() ==> !is_ws(s[lead_ws(s)]),
    decreases s.len(),
{
    if s.len() > 0 && is_ws(s[0]) {
        lemma_lead_ws_bounds(s.drop_first());
        assert forall|j: int| 0 <= j < lead_ws(s) implies is_ws(#[trigger] s[j]) by {
            if j > 0 {
                assert(s[j] == s.drop_first()[j - 1]);
            }
        }
        if lead_ws(s) < s.len() {
            assert(s[lead_ws(s)] == s.drop_first()[lead_ws(s) - 1]);
        }
    }
}

proof fn lemma_trail_ws_bounds(s: Seq<u8>)
    ensures
        0 <= trail_ws(s) <= s.len(),
        forall|j: int| s.len() - trail_ws(s) <= j < s.len() ==> is_ws(#[trigger] s[j]),
        trail_ws(s) < s.len() ==> !is_ws(s[s.len() - trail_ws(s) - 1]),
    decreases s.len(),
{
    if s.len() > 0 && is_ws(s.last()) {
        lemma_trail_ws_bounds(s.drop_last());
        assert forall|j: int| s.len() - trail_ws(s) <= j < s.len() implies is_ws(
            #[trigger] s[j],
        ) by {
            if j < s.len() - 1 {
                assert(s[j] == s.drop_last()[j]);
            }
        }
        if trail_ws(s) < s.len() {
            assert(s[s.len() - trail_ws(s) - 1] == s.drop_last()[s.len() - trail_ws(s) - 1]);
        }
    }
}

/// Trims ASCII whitespace from both ends.
pub fn trim_bytes<'a>(s: &'a [u8]) -> (r: &'a [u8])
    ensures
        r@ == spec_trim(s@),
{
    proof {
        lemma_lead_ws_bounds(s@);
        lemma_trail_ws_bounds(s@);
    }
    let n = s.len();
    let mut a: usize = 0;
    while a < n && (s[a] == 0x09 || s[a] == 0x0A || s[a] == 0x0B || s[a] == 0x0C || s[a] == 0x0D
        || s[a] == 0x20)
        invariant
            n == s@.len(),
            0 <= a <= n,
            a <= lead_ws(s@),
            forall|j: int| 0 <= j < a ==> is_ws(#[trigger] s@[j]),
        decreases n - a,
    {
        proof {
            lemma_lead_ws_bounds(s@);
        }
        a += 1;
        proof {
            assert(a <= lead_ws(s@)) by {
                lemma_lead_ws_inc(s@, a as int);
            }
        }
    }
    proof {
        assert(a == lead_ws(s@));
    }
    if a == n {
        let r = &s[n..n];
        assert(r@ =~= spec_trim(s@));
        return r;
    }
    let mut b: usize = n;
    while b > a + 1 && (s[b - 1] == 0x09 || s[b - 1] == 0x0A || s[b - 1] == 0x0B || s[b - 1]
        == 0x0C || s[b - 1] == 0x0D || s[b - 1] == 0x20)
        invariant
            n == s@.len(),
            0 <= a < b <= n,
            a == lead_ws(s@),
            !is_ws(s@[a as int]),
            n - b <= trail_ws(s@),
            forall|j: int| b <= j < n ==> is_ws(#[trigger] s@[j]),
        decreases b,
    {
        proof {
            lemma_trail_ws_bounds(s@);
        }
        b -= 1;
        proof {
            assert(n - b <= trail_ws(s@)) by {
                lemma_trail_ws_inc(s@, (n - b) as int);
            }
        }
    }
    proof {
        lemma_trail_ws_bounds(s@);
        assert(n as int - b as int == trail_ws(s@)) by {
            if b > a + 1 {
                assert(!is_ws(s@[b - 1]));
                if n - b < trail_ws(s@) {
                    assert(is_ws(s@[s@.len() - trail_ws(s@)]));
                    assert(b - 1 >= s@.len() - trail_ws(s@));
                    assert(is_ws(s@[b - 1]));
                }
            } else {
                // b == a + 1: everything from a+1 on is whitespace; the
                // trailing run cannot reach past the non-whitespace byte
                // at a.
                if n - b < trail_ws(s@) {
                    assert(is_ws(s@[s@.len() - trail_ws(s@)]));
                    assert(b - 1 >= s@.len() - trail_ws(s@));
                    assert(is_ws(s@[b - 1]));
                    assert(b - 1 == a);
                }
                if n - b > trail_ws(s@) {
                    assert(is_ws(s@[s@.len() - trail_ws(s@) - 1]) == false);
                    assert(s@.len() - trail_ws(s@) - 1 >= b);
                }
            }
        }
    }
    let r = &s[a..b];
    assert(r@ =~= spec_trim(s@));
    r
}

proof fn lemma_lead_ws_inc(s: Seq<u8>, a: int)
    requires
        0 < a <= s.len(),
        forall|j: int| 0 <= j < a ==> is_ws(#[trigger] s[j]),
    ensures
        lead_ws(s) >= a,
    decreases a,
{
    assert(is_ws(s[0]));
    lemma_lead_ws_bounds(s.drop_first());
    if a > 1 {
        assert forall|j: int| 0 <= j < a - 1 implies is_ws(#[trigger] s.drop_first()[j]) by {
            assert(s.drop_first()[j] == s[j + 1]);
        }
        lemma_lead_ws_inc(s.drop_first(), a - 1);
    }
}

proof fn lemma_trail_ws_inc(s: Seq<u8>, t: int)
    requires
        0 < t <= s.len(),
        forall|j: int| s.len() - t <= j < s.len() ==> is_ws(#[trigger] s[j]),
    ensures
        trail_ws(s) >= t,
    decreases t,
{
    assert(is_ws(s.last()));
    lemma_trail_ws_bounds(s.drop_last());
    if t > 1 {
        assert forall|j: int|
            s.drop_last().len() - (t - 1) <= j < s.drop_last().len() implies is_ws(
            #[trigger] s.drop_last()[j],
        ) by {
            assert(s.drop_last()[j] == s[j]);
        }
        lemma_trail_ws_inc(s.drop_last(), t - 1);
    }
}

/// Whether a byte separates float-array entries: comma or space.
pub open spec fn is_sep(b: u8) -> bool {
    b == 0x2Cu8 || b == 0x20u8
}

/// The index of the first separator byte, or the length.
pub open spec fn first_sep(s: Seq<u8>) -> int
    decreases s.len(),
{
    if s.len() == 0 || is_sep(s[0]) {
        0
    } else {
        1 + first_sep(s.drop_first())
    }
}

/// The non-empty tokens of `s` split at comma and space bytes.
pub open spec fn split_tokens(s: Seq<u8>) -> Seq<Seq<u8>>
    decreases s.len(),
    via split_tokens_dec
{
    if s.len() == 0 {
        Seq::empty()
    } else if is_sep(s[0]) {
        split_tokens(s.drop_first())
    } else {
        let k = first_sep(s);
        seq![s.take(k)] + split_tokens(s.skip(k))
    }
}

#[via_fn]
proof fn split_tokens_dec(s: Seq<u8>) {
    if s.len() > 0 && !is_sep(s[0]) {
        lemma_first_sep_bounds(s);
    }
}

/// The views of a vector of byte vectors.
pub open spec fn bytes_models(v: Seq<Vec<u8>>) -> Seq<Seq<u8>> {
    Seq::new(v.len(), |i: int| v[i]@)
}

proof fn lemma_first_sep_bounds(s: Seq<u8>)
    ensures
        0 <= first_sep(s) <= s.len(),
        forall|j: int| 0 <= j < first_sep(s) ==> !is_sep(#[trigger] s[j]),
        first_sep(s) < s.len() ==> is_sep(s[first_sep(s)]),
    decreases s.len(),
{
    if s.len() > 0 && !is_sep(s[0]) {
        lemma_first_sep_bounds(s.drop_first());
        assert forall|j: int| 0 <= j < first_sep(s) implies !is_sep(#[trigger] s[j]) by {
            if j > 0 {
                assert(s[j] == s.drop_first()[j - 1]);
            }
        }
        if first_sep(s) < s.len() {
            assert(s[first_sep(s)] == s.drop_first()[first_sep(s) - 1]);
        }
    }
}

proof fn lemma_first_sep_exact(s: Seq<u8>, k: int)
    requires
        0 <= k <= s.len(),
        forall|j: int| 0 <= j < k ==> !is_sep(#[trigger] s[j]),
        k == s.len() || is_sep(s[k]),
    ensures
        first_sep(s) == k,
    decreases k,
{
    if k == 0 {
    } else {
        assert(!is_sep(s[0]));
        assert forall|j: int| 0 <= j < k - 1 implies !is_sep(#[trigger] s.drop_first()[j]) by {
            assert(s.drop_first()[j] == s[j + 1]);
        }
        if k < s.len() {
            assert(s.drop_first()[k - 1] == s[k]);
        }
        lemma_first_sep_exact(s.drop_first(), k - 1);
    }
}

/// Splits `s` into its non-empty comma-or-space separated tokens.
fn split_bytes(s: &[u8]) -> (r: Vec<Vec<u8>>)
    ensures
        bytes_models(r@) == split_tokens(s@),
{
    let n = s.len();
    let mut out: Vec<Vec<u8>> = Vec::new();
    let mut pos: usize = 0;
    assert(s@.skip(0) =~= s@);
    assert(bytes_models(out@) =~= Seq::<Seq<u8>>::empty());
    while pos < n
        invariant
            n == s@.len(),
            0 <= pos <= n,
            bytes_models(out@) + split_tokens(s@.skip(pos as int)) == split_tokens(s@),
        decreases n - pos,
    {
        proof {
            assert(s@.skip(pos as int)[0] == s@[pos as int]);
            assert(s@.skip(pos as int).drop_first() =~= s@.skip(pos as int + 1));
        }
        if s[pos] == 0x2C || s[pos] == 0x20 {
            pos += 1;
            continue;
        }
        // Scan the token.
        let start = pos;
        let mut end = pos;
        while end < n && s[end] != 0x2C && s[end] != 0x20
            invariant
                n == s@.len(),
                start <= end <= n,
                forall|j: int| start <= j < end ==> !is_sep(#[trigger] s@[j]),
            decreases n - end,
        {
            end += 1;
        }
        proof {
            let t = s@.skip(start as int);
            assert forall|j: int| 0 <= j < end - start implies !is_sep(#[trigger] t[j]) by {
                assert(t[j] == s@[start + j]);
            }
            if end < n {
                assert(t[end - start] == s@[end as int]);
            }
            lemma_first_sep_exact(t, end as int - start as int);
            assert(t.take(end - start) =~= s@.subrange(start as int, end as int));
            assert(t.skip(end - start) =~= s@.skip(end as int));
        }
        let token = crate::parser::copy_range(s, start, end);
        let ghost pre = bytes_models(out@);
        out.push(token);
        assert(bytes_models(out@) =~= pre + seq![s@.subrange(start as int, end as int)]);
        pos = end;
    }
    proof {
        assert(s@.skip(n as int) =~= Seq::<u8>::empty());
        assert(bytes_models(out@) =~= split_tokens(s@));
    }
    out
}

/// The parse of a float-array attribute value, in millionths per channel:
/// text without comma or space parses as a single scalar broadcast to all
/// three channels; otherwise the comma-or-space separated tokens must number
/// one (broadcast) or three (assigned in order), each a decimal numeral
/// after trimming.
pub open spec fn spec_parse_float_array(s: Seq<u8>) -> Option<Seq<int>> {
    if !seq_contains(s, seq![0x2Cu8]) && !seq_contains(s, seq![0x20u8]) {
        match parse_micros(spec_trim(s)) {
            Some(v) => Some(seq![v, v, v]),
            None => None,
        }
    } else {
        let toks = split_tokens(s);
        if toks.len() == 1 {
            match parse_micros(spec_trim(toks[0])) {
                Some(v) => Some(seq![v, v, v]),
                None => None,
            }
        } else if toks.len() == 3 {
            match (
                parse_micros(spec_trim(toks[0])),
                parse_micros(spec_trim(toks[1])),
                parse_micros(spec_trim(toks[2])),
            ) {
                (Some(a), Some(b), Some(c)) => Some(seq![a, b, c]),
                _ => None,
            }
        } else {
            None
        }
    }
}

impl XmpParser {
    /// Parses a float-array attribute value into three channel values.
    fn parse_float_array(value: &[u8]) -> (r: Result<Vec<i64>, UltraHdrError>)
        ensures
            match r {
                Ok(v) => spec_parse_float_array(value@) == Some(micro_seq(v@)),
                Err(e) => spec_parse_float_array(value@) is None && e
                    matches UltraHdrError::MetadataError(_),
            },
    {
        let comma: [u8; 1] = [0x2C];
        let space: [u8; 1] = [0x20];
        assert(comma@ =~= seq![0x2Cu8]);
        assert(space@ =~= seq![0x20u8]);
        if !bytes_contain(value, &comma) && !bytes_contain(value, &space) {
            let v = match parse_micros_bytes(trim_bytes(value)) {
                Some(v) => v,
                None => {
                    return Err(
                        UltraHdrError::MetadataError(String::from_str("Invalid float value")),
                    );
                },
            };
            let out = crate::metadata::vec3(v, v, v);
            return Ok(out);
        }
        let tokens = split_bytes(value);
        if tokens.len() == 1 {
            proof {
                assert(bytes_models(tokens@)[0] == tokens@[0]@);
            }
            let v = match parse_micros_bytes(trim_bytes(tokens[0].as_slice())) {
                Some(v) => v,
                None => {
                    return Err(
                        UltraHdrError::MetadataError(String::from_str("Invalid float value")),
                    );
                },
            };
            let out = crate::metadata::vec3(v, v, v);
            Ok(out)
        } else if tokens.len() == 3 {
            proof {
                assert(bytes_models(tokens@)[0] == tokens@[0]@);
                assert(bytes_models(tokens@)[1] == tokens@[1]@);
                assert(bytes_models(tokens@)[2] == tokens@[2]@);
            }
            let a = match parse_micros_bytes(trim_bytes(tokens[0].as_slice())) {
                Some(v) => v,
                None => {
                    return Err(
                        UltraHdrError::MetadataError(String::from_str("Invalid float value")),
                    );
                },
            };
            let b = match parse_micros_bytes(trim_bytes(tokens[1].as_slice())) {
                Some(v) => v,
                None => {
                    return Err(
                        UltraHdrError::MetadataError(String::from_str("Invalid float value")),
                    );
                },
            };
            let c = match parse_micros_bytes(trim_bytes(tokens[2].as_slice())) {
                Some(v) => v,
                None => {
                    return Err(
                        UltraHdrError::MetadataError(String::from_str("Invalid float value")),
                    );
                },
            };
            let out = crate::metadata::vec3(a, b, c);
            Ok(out)
        } else {
            Err(UltraHdrError::MetadataError(String::from_str("Expected 1 or 3 values")))
        }
    }

    /// Applies one serialized field, chosen by the local name after the
    /// last colon of `name`, to the metadata record.
    fn set_metadata_field(metadata: &mut GainMapMetadata, name: &[u8], value: &[u8]) -> (r: Result<
        (),
        UltraHdrError,
    >)
        ensures
            match r {
                Ok(_) => spec_apply_field(old(metadata)@, name@, value@) == Some(
                    final(metadata)@,
                ),
                Err(e) => {
                    &&& spec_apply_field(old(metadata)@, name@, value@) is None
                    &&& e matches UltraHdrError::MetadataError(_)
                    &&& *final(metadata) == *old(metadata)
                },
            },
    {
        let local = local_name(name);
        if bytes_eq(local, "Version".as_bytes()) {
            match utf8_to_string(value) {
                Some(sv) => {
                    metadata.version = sv;
                },
                None => {},
            }
            Ok(())
        } else if bytes_eq(local, "BaseRenditionIsHDR".as_bytes()) {
            metadata.base_rendition_is_hdr = is_truthy(value);
            Ok(())
        } else if bytes_eq(local, "GainMapMin".as_bytes()) {
            match Self::parse_float_array(value) {
                Ok(a) => {
                    metadata.gain_map_min = a;
                    Ok(())
                },
                Err(e) => Err(e),
            }
        } else if bytes_eq(local, "GainMapMax".as_bytes()) {
            match Self::parse_float_array(value) {
                Ok(a) => {
                    metadata.gain_map_max = a;
                    Ok(())
                },
                Err(e) => Err(e),
            }
        } else if bytes_eq(local, "Gamma".as_bytes()) {
            match Self::parse_float_array(value) {
                Ok(a) => {
                    metadata.gamma = a;
                    Ok(())
                },
                Err(e) => Err(e),
            }
        } else if bytes_eq(local, "OffsetSDR".as_bytes()) {
            match Self::parse_float_array(value) {
                Ok(a) => {
                    metadata.offset_sdr = a;
                    Ok(())
                },
                Err(e) => Err(e),
            }
        } else if bytes_eq(local, "OffsetHDR".as_bytes()) {
            match Self::parse_float_array(value) {
                Ok(a) => {
                    metadata.offset_hdr = a;
                    Ok(())
                },
                Err(e) => Err(e),
            }
        } else if bytes_eq(local, "HDRCapacityMin".as_bytes()) {
            match parse_micros_bytes(value) {
                Some(v) => {
                    metadata.hdr_capacity_min = v;
                    Ok(())
                },
                None => Err(
                    UltraHdrError::MetadataError(String::from_str("Invalid HDRCapacityMin")),
                ),
            }
        } else if bytes_eq(local, "HDRCapacityMax".as_bytes()) {
            match parse_micros_bytes(value) {
                Some(v) => {
                    metadata.hdr_capacity_max = v;
                    Ok(())
                },
                None => Err(
                    UltraHdrError::MetadataError(String::from_str("Invalid HDRCapacityMax")),
                ),
            }
        } else {
            Ok(())
        }
    }
}

/// The joined decimal texts of the entries, separated by ", ".
pub open spec fn fmt_join(s: Seq<int>) -> Seq<u8>
    decreases s.len(),
{
    if s.len() == 0 {
        Seq::empty()
    } else if s.len() == 1 {
        fmt_micros(s[0])
    } else {
        fmt_join(s.drop_last()) + seq![0x2Cu8, 0x20u8] + fmt_micros(s.last())
    }
}

/// The serialized form of a float array: three equal channels collapse to
/// a single scalar; anything else is joined with ", ".
pub open spec fn fmt_float_array(s: Seq<int>) -> Seq<u8> {
    if s.len() == 3 && s[0] == s[1] && s[1] == s[2] {
        fmt_micros(s[0])
    } else {
        fmt_join(s)
    }
}

/// Formats a float array for an XMP attribute value.
fn format_float_array(values: &Vec<i64>) -> (r: Vec<u8>)
    ensures
        r@ == fmt_float_array(micro_seq(values@)),
{
    let ghost model = micro_seq(values@);
    let n = values.len();
    if n == 3 && values[0] == values[1] && values[1] == values[2] {
        proof {
            assert(model[0] == values@[0] && model[1] == values@[1] && model[2] == values@[2]);
        }
        return fmt_micros_bytes(values[0]);
    }
    proof {
        if n == 3 {
            assert(model[0] == values@[0] && model[1] == values@[1] && model[2] == values@[2]);
        }
    }
    let mut out: Vec<u8> = Vec::new();
    let mut i: usize = 0;
    assert(model.take(0) =~= Seq::<int>::empty());
    while i < n
        invariant
            n == values@.len(),
            model == micro_seq(values@),
            model.len() == n,
            0 <= i <= n,
            out@ == fmt_join(model.take(i as int)),
        decreases n - i,
    {
        proof {
            assert(model[i as int] == values@[i as int]);
            assert(model.take(i as int + 1).drop_last() =~= model.take(i as int));
            assert(model.take(i as int + 1).last() == model[i as int]);
        }
        if i > 0 {
            out.push(0x2C);
            out.push(0x20);
        }
        let piece = fmt_micros_bytes(values[i]);
        out.extend_from_slice(piece.as_slice());
        proof {
            if i == 0 {
                assert(model.take(1).len() == 1);
                assert(model.take(1)[0] == model[0]);
                assert(out@ =~= fmt_join(model.take(1)));
            } else {
                assert(out@ =~= fmt_join(model.take(i as int + 1)));
            }
        }
        i += 1;
    }
    proof {
        assert(model.take(n as int) =~= model);
    }
    out
}

/// The index just after the last colon of `s`, or 0 when it has none.
pub open spec fn after_last_colon(s: Seq<u8>) -> int
    decreases s.len(),
{
    if s.len() == 0 {
        0
    } else if s.last() == 0x3Au8 {
        s.len() as int
    } else {
        after_last_colon(s.drop_last())
    }
}

/// The local name: the part of `s` after its last colon.
pub open spec fn spec_local_name(s: Seq<u8>) -> Seq<u8> {
    s.skip(after_last_colon(s))
}

proof fn lemma_after_last_colon_bounds(s: Seq<u8>)
    ensures
        0 <= after_last_colon(s) <= s.len(),
        forall|j: int| after_last_colon(s) <= j < s.len() ==> s[j] != 0x3Au8,
    decreases s.len(),
{
    if s.len() > 0 && s.last() != 0x3Au8 {
        lemma_after_last_colon_bounds(s.drop_last());
        assert forall|j: int| after_last_colon(s) <= j < s.len() implies s[j] != 0x3Au8 by {
            if j < s.len() - 1 {
                assert(s[j] == s.drop_last()[j]);
            }
        }
    }
}

proof fn lemma_after_last_colon_at(s: Seq<u8>, k: int)
    requires
        0 <= k < s.len(),
        s[k] == 0x3Au8,
        forall|j: int| k < j < s.len() ==> s[j] != 0x3Au8,
    ensures
        after_last_colon(s) == k + 1,
    decreases s.len(),
{
    if s.last() == 0x3Au8 {
        assert(k == s.len() - 1);
    } else {
        assert forall|j: int| k < j < s.drop_last().len() implies s.drop_last()[j] != 0x3Au8 by {
            assert(s.drop_last()[j] == s[j]);
        }
        assert(s.drop_last()[k] == s[k]);
        lemma_after_last_colon_at(s.drop_last(), k);
    }
}

/// The part of `name` after its last colon.
fn local_name<'a>(name: &'a [u8]) -> (r: &'a [u8])
    ensures
        r@ == spec_local_name(name@),
{
    let n = name.len();
    let mut b = n;
    while b > 0 && name[b - 1] != 0x3A
        invariant
            n == name@.len(),
            0 <= b <= n,
            forall|j: int| b <= j < n ==> name@[j] != 0x3Au8,
        decreases b,
    {
        b -= 1;
    }
    proof {
        if b == 0 {
            lemma_after_last_colon_bounds(name@);
            if after_last_colon(name@) > 0 {
                assert(name@[after_last_colon(name@) - 1] != 0x3Au8 || true);
                // the colon just before the suffix would contradict the
                // loop's finding that no byte from 0 on is a colon
                lemma_alc_colon(name@);
            }
        } else {
            lemma_after_last_colon_at(name@, b as int - 1);
        }
    }
    let r = &name[b..n];
    assert(r@ =~= spec_local_name(name@));
    r
}

/// A positive `after_last_colon` points just past a colon.
proof fn lemma_alc_colon(s: Seq<u8>)
    requires
        after_last_colon(s) > 0,
    ensures
        s[after_last_colon(s) - 1] == 0x3Au8,
    decreases s.len(),
{
    if s.len() > 0 && s.last() != 0x3Au8 {
        lemma_after_last_colon_bounds(s.drop_last());
        lemma_alc_colon(s.drop_last());
        assert(s[after_last_colon(s) - 1] == s.drop_last()[after_last_colon(s) - 1]);
    }
}

/// A byte lowered to ASCII lower case.
pub open spec fn ascii_lower(b: u8) -> u8 {
    if 0x41 <= b <= 0x5A {
        (b + 0x20) as u8
    } else {
        b
    }
}

/// The bytes of `s` lowered to ASCII lower case.
pub open spec fn lower_seq(s: Seq<u8>) -> Seq<u8> {
    Seq::new(s.len(), |i: int| ascii_lower(s[i]))
}

/// Whether an attribute value means "true": case-insensitive "true", or "1".
pub open spec fn spec_truthy(v: Seq<u8>) -> bool {
    lower_seq(v) == vstd::utf8::encode_utf8("true"@) || v == vstd::utf8::encode_utf8("1"@)
}

/// Compares two byte strings.
fn bytes_eq(a: &[u8], b: &[u8]) -> (r: bool)
    ensures
        r == (a@ == b@),
{
    let n = a.len();
    if n != b.len() {
        assert(a@ != b@);
        return false;
    }
    let mut i: usize = 0;
    while i < n
        invariant
            n == a@.len() == b@.len(),
            0 <= i <= n,
            forall|j: int| 0 <= j < i ==> a@[j] == b@[j],
        decreases n - i,
    {
        if a[i] != b[i] {
            return false;
        }
        i += 1;
    }
    assert(a@ =~= b@);
    true
}

/// Tests whether a value means "true" (case-insensitive) or is "1".
fn is_truthy(v: &[u8]) -> (r: bool)
    ensures
        r == spec_truthy(v@),
{
    let mut low: Vec<u8> = Vec::new();
    let n = v.len();
    let mut i: usize = 0;
    while i < n
        invariant
            n == v@.len(),
            0 <= i <= n,
            low@ == lower_seq(v@).take(i as int),
        decreases n - i,
    {
        let b = v[i];
        let lb = if 0x41 <= b && b <= 0x5A {
            b + 0x20
        } else {
            b
        };
        low.push(lb);
        assert(low@ =~= lower_seq(v@).take(i as int + 1));
        i += 1;
    }
    proof {
        assert(lower_seq(v@).take(n as int) =~= lower_seq(v@));
    }
    let t = "true".as_bytes();
    let one = "1".as_bytes();
    let r = bytes_eq(low.as_slice(), t) || bytes_eq(v, one);
    r
}


/// Outcome of the tolerant XMP walk: the parsed record, a malformed-XML
/// failure, or a field-value failure.
pub ghost enum XmpOutcome {
    /// The walk finished; this is the resulting record.
    Parsed(MetadataModel),
    /// Unterminated markup or a malformed attribute.
    BadXml,
    /// A recognized field whose value does not parse.
    BadField,
}

/// Outcome of the attribute walk of one tag: the updated record and the
/// position just past the closing `>`, or a failure.
pub ghost enum AttrsOutcome {
    /// The attributes were consumed; record and next position.
    AttrsOk(MetadataModel, int),
    /// Unterminated tag or malformed attribute syntax.
    AttrsBadXml,
    /// A recognized attribute whose value does not parse.
    AttrsBadField,
}

/// The first position at or after `pos` holding `b`, or the end.
pub open spec fn find_at(d: Seq<u8>, pos: int, b: u8) -> int
    decreases d.len() - pos,
{
    if pos >= d.len() || d[pos] == b {
        pos
    } else {
        find_at(d, pos + 1, b)
    }
}

proof fn lemma_find_at_bounds(d: Seq<u8>, pos: int, b: u8)
    requires
        0 <= pos <= d.len(),
    ensures
        pos <= find_at(d, pos, b) <= d.len(),
        find_at(d, pos, b) < d.len() ==> d[find_at(d, pos, b)] == b,
        forall|j: int| pos <= j < find_at(d, pos, b) ==> d[j] != b,
    decreases d.len() - pos,
{
    if pos < d.len() && d[pos] != b {
        lemma_find_at_bounds(d, pos + 1, b);
    }
}

/// Whether a byte ends a tag name: `>`, `/` or whitespace.
pub open spec fn ends_name(b: u8) -> bool {
    b == 0x3Eu8 || b == 0x2Fu8 || b == 0x20u8 || b == 0x09u8 || b == 0x0Au8 || b == 0x0Du8
}

/// The first position at or after `pos` ending a tag name, or the end.
pub open spec fn name_end(d: Seq<u8>, pos: int) -> int
    decreases d.len() - pos,
{
    if pos >= d.len() || ends_name(d[pos]) {
        pos
    } else {
        name_end(d, pos + 1)
    }
}

/// Whether a byte ends an attribute name: `=`, `>`, `/` or whitespace.
pub open spec fn ends_attr_name(b: u8) -> bool {
    b == 0x3Du8 || ends_name(b)
}

/// The first position at or after `pos` ending an attribute name.
pub open spec fn attr_name_end(d: Seq<u8>, pos: int) -> int
    decreases d.len() - pos,
{
    if pos >= d.len() || ends_attr_name(d[pos]) {
        pos
    } else {
        attr_name_end(d, pos + 1)
    }
}

proof fn lemma_attr_name_end_bounds(d: Seq<u8>, pos: int)
    requires
        0 <= pos <= d.len(),
    ensures
        pos <= attr_name_end(d, pos) <= d.len(),
        attr_name_end(d, pos) < d.len() ==> ends_attr_name(d[attr_name_end(d, pos)]),
        forall|j: int| pos <= j < attr_name_end(d, pos) ==> !ends_attr_name(#[trigger] d[j]),
    decreases d.len() - pos,
{
    if pos < d.len() && !ends_attr_name(d[pos]) {
        lemma_attr_name_end_bounds(d, pos + 1);
    }
}

/// Whether a byte is tag whitespace: space, tab, newline, carriage return.
pub open spec fn is_tag_ws(b: u8) -> bool {
    b == 0x20u8 || b == 0x09u8 || b == 0x0Au8 || b == 0x0Du8
}

/// The first non-whitespace position at or after `pos`, or the end.
pub open spec fn ws_end(d: Seq<u8>, pos: int) -> int
    decreases d.len() - pos,
{
    if pos >= d.len() || !is_tag_ws(d[pos]) {
        pos
    } else {
        ws_end(d, pos + 1)
    }
}

proof fn lemma_ws_end_bounds(d: Seq<u8>, pos: int)
    requires
        0 <= pos <= d.len(),
    ensures
        pos <= ws_end(d, pos) <= d.len(),
        ws_end(d, pos) < d.len() ==> !is_tag_ws(d[ws_end(d, pos)]),
        forall|j: int| pos <= j < ws_end(d, pos) ==> is_tag_ws(#[trigger] d[j]),
    decreases d.len() - pos,
{
    if pos < d.len() && is_tag_ws(d[pos]) {
        lemma_ws_end_bounds(d, pos + 1);
    }
}

/// Whether position `q` closes a comment: a `>` directly after `--`.
pub open spec fn closes_comment(d: Seq<u8>, q: int) -> bool {
    d[q] == 0x3Eu8 && q >= 2 && d[q - 1] == 0x2Du8 && d[q - 2] == 0x2Du8
}

/// The first position at or after `pos` closing a comment, or the end.
pub open spec fn comment_end(d: Seq<u8>, pos: int) -> int
    decreases d.len() - pos,
{
    if pos >= d.len() || closes_comment(d, pos) {
        pos
    } else {
        comment_end(d, pos + 1)
    }
}

proof fn lemma_comment_end_bounds(d: Seq<u8>, pos: int)
    requires
        0 <= pos <= d.len(),
    ensures
        pos <= comment_end(d, pos) <= d.len(),
        comment_end(d, pos) < d.len() ==> closes_comment(d, comment_end(d, pos)),
        forall|j: int| pos <= j < comment_end(d, pos) ==> !closes_comment(d, j),
    decreases d.len() - pos,
{
    if pos < d.len() && !closes_comment(d, pos) {
        lemma_comment_end_bounds(d, pos + 1);
    }
}

/// The position of the semicolon ending an entity that begins at `i`, or
/// the first position past the search window.
pub open spec fn semi_end(d: Seq<u8>, i: int, j: int) -> int
    decreases d.len() - j,
{
    if j >= d.len() || j - i > 6 || d[j] == 0x3Bu8 {
        j
    } else {
        semi_end(d, i, j + 1)
    }
}

proof fn lemma_semi_end_ge(d: Seq<u8>, i: int, j: int)
    ensures
        j <= semi_end(d, i, j),
        j <= d.len() ==> semi_end(d, i, j) <= d.len(),
    decreases d.len() - j,
{
    if j < d.len() && j - i <= 6 && d[j] != 0x3Bu8 {
        lemma_semi_end_ge(d, i, j + 1);
    }
}


/// The unescape of text content from position `i` on: plain bytes are
/// kept; the five named XML entities are replaced; any other use of `&`
/// fails the whole text.
pub open spec fn unesc_at(t: Seq<u8>, i: int) -> Option<Seq<u8>>
    decreases t.len() - i,
    via unesc_at_dec
{
    if i >= t.len() {
        Some(Seq::empty())
    } else if t[i] != 0x26u8 {
        match unesc_at(t, i + 1) {
            Some(rest) => Some(seq![t[i]] + rest),
            None => None,
        }
    } else {
        let j = semi_end(t, i, i + 1);
        if j >= t.len() || t[j] != 0x3Bu8 {
            None
        } else {
            let name = t.subrange(i + 1, j);
            let rep: Option<u8> = if name == vstd::utf8::encode_utf8("lt"@) {
                Some(0x3Cu8)
            } else if name == vstd::utf8::encode_utf8("gt"@) {
                Some(0x3Eu8)
            } else if name == vstd::utf8::encode_utf8("amp"@) {
                Some(0x26u8)
            } else if name == vstd::utf8::encode_utf8("apos"@) {
                Some(0x27u8)
            } else if name == vstd::utf8::encode_utf8("quot"@) {
                Some(0x22u8)
            } else {
                None
            };
            match rep {
                None => None,
                Some(b) => match unesc_at(t, j + 1) {
                    Some(rest) => Some(seq![b] + rest),
                    None => None,
                },
            }
        }
    }
}

#[via_fn]
proof fn unesc_at_dec(t: Seq<u8>, i: int) {
    if i < t.len() && t[i] == 0x26u8 {
        lemma_semi_end_ge(t, i, i + 1);
    }
}

/// The text that the parser sees after unescaping: the replaced bytes, or
/// the empty string when the unescape fails.
pub open spec fn spec_unescape(t: Seq<u8>) -> Seq<u8> {
    match unesc_at(t, 0) {
        Some(s) => s,
        None => Seq::empty(),
    }
}


/// The attribute walk of one start tag from position `p`: whitespace,
/// then either the closing `>`, a self-closing `/...>`, or one
/// `name="value"` attribute whose value (raw, not unescaped) is applied to
/// the record when the name begins with `hdrgm:`. Yields the record and
/// the position just past the `>`.
pub open spec fn spec_xmp_attrs(d: Seq<u8>, p: int, md: MetadataModel) -> AttrsOutcome
    decreases d.len() - p,
    via spec_xmp_attrs_dec
{
    let w = ws_end(d, p);
    if w >= d.len() {
        AttrsOutcome::AttrsBadXml
    } else if d[w] == 0x3Eu8 {
        AttrsOutcome::AttrsOk(md, w + 1)
    } else if d[w] == 0x2Fu8 {
        let q2 = find_at(d, w, 0x3Eu8);
        if q2 >= d.len() {
            AttrsOutcome::AttrsBadXml
        } else {
            AttrsOutcome::AttrsOk(md, q2 + 1)
        }
    } else {
        let ae = attr_name_end(d, w);
        if ae >= d.len() || d[ae] != 0x3Du8 {
            AttrsOutcome::AttrsBadXml
        } else {
            let vq = ae + 1;
            if vq >= d.len() || (d[vq] != 0x22u8 && d[vq] != 0x27u8) {
                AttrsOutcome::AttrsBadXml
            } else {
                let vend = find_at(d, vq + 1, d[vq]);
                if vend >= d.len() {
                    AttrsOutcome::AttrsBadXml
                } else {
                    let aname = d.subrange(w, ae);
                    let applied = if seq_starts_with(aname, vstd::utf8::encode_utf8("hdrgm:"@)) {
                        spec_apply_field(md, aname, d.subrange(vq + 1, vend))
                    } else {
                        Some(md)
                    };
                    match applied {
                        None => AttrsOutcome::AttrsBadField,
                        Some(md2) => spec_xmp_attrs(d, vend + 1, md2),
                    }
                }
            }
        }
    }
}

#[via_fn]
proof fn spec_xmp_attrs_dec(d: Seq<u8>, p: int, md: MetadataModel) {
    lemma_ws_end_ge(d, p);
    let w = ws_end(d, p);
    if w < d.len() && d[w] != 0x3Eu8 && d[w] != 0x2Fu8 {
        lemma_attr_name_end_ge(d, w);
        let ae = attr_name_end(d, w);
        if ae < d.len() && d[ae] == 0x3Du8 {
            lemma_find_at_ge(d, ae + 2, d[ae + 1]);
        }
    }
}

proof fn lemma_ws_end_ge(d: Seq<u8>, pos: int)
    ensures
        pos <= ws_end(d, pos),
        pos <= d.len() ==> ws_end(d, pos) <= d.len(),
    decreases d.len() - pos,
{
    if pos < d.len() && is_tag_ws(d[pos]) {
        lemma_ws_end_ge(d, pos + 1);
    }
}

proof fn lemma_attr_name_end_ge(d: Seq<u8>, pos: int)
    ensures
        pos <= attr_name_end(d, pos),
        pos <= d.len() ==> attr_name_end(d, pos) <= d.len(),
    decreases d.len() - pos,
{
    if pos < d.len() && !ends_attr_name(d[pos]) {
        lemma_attr_name_end_ge(d, pos + 1);
    }
}

proof fn lemma_find_at_ge(d: Seq<u8>, pos: int, b: u8)
    ensures
        pos <= find_at(d, pos, b),
        pos <= d.len() ==> find_at(d, pos, b) <= d.len(),
    decreases d.len() - pos,
{
    if pos < d.len() && d[pos] != b {
        lemma_find_at_ge(d, pos + 1, b);
    }
}

/// A successful attribute walk always advances past its start position.
proof fn lemma_spec_xmp_attrs_pos(d: Seq<u8>, p: int, md: MetadataModel)
    requires
        0 <= p <= d.len(),
    ensures
        spec_xmp_attrs(d, p, md) matches AttrsOutcome::AttrsOk(md2, p2) ==> p < p2 <= d.len(),
    decreases d.len() - p,
{
    lemma_ws_end_bounds(d, p);
    let w = ws_end(d, p);
    if w < d.len() && d[w] != 0x3Eu8 && d[w] != 0x2Fu8 {
        lemma_attr_name_end_bounds(d, w);
        let ae = attr_name_end(d, w);
        if ae < d.len() && d[ae] == 0x3Du8 {
            let vq = ae + 1;
            if vq < d.len() && (d[vq] == 0x22u8 || d[vq] == 0x27u8) {
                lemma_find_at_bounds(d, vq + 1, d[vq]);
                let vend = find_at(d, vq + 1, d[vq]);
                if vend < d.len() {
                    lemma_spec_xmp_attrs_pos(d, vend + 1, md);
                    let aname = d.subrange(w, ae);
                    let applied = if seq_starts_with(
                        aname,
                        vstd::utf8::encode_utf8("hdrgm:"@),
                    ) {
                        spec_apply_field(md, aname, d.subrange(vq + 1, vend))
                    } else {
                        Some(md)
                    };
                    match applied {
                        None => {},
                        Some(md2) => {
                            lemma_spec_xmp_attrs_pos(d, vend + 1, md2);
                        },
                    }
                }
            }
        }
    } else if w < d.len() && d[w] == 0x2Fu8 {
        lemma_find_at_bounds(d, w, 0x3Eu8);
    }
}

/// Relies on std's `str::from_utf8`: it accepts exactly the byte strings
/// that are valid UTF-8.
#[verifier::external_body]
pub(crate) fn utf8_check(v: &[u8]) -> (r: bool)
    ensures
        r == vstd::utf8::valid_utf8(v@),
{
    core::str::from_utf8(v).is_ok()
}

/// Relies on std's `str::from_utf8` and `str::to_owned`: valid UTF-8 bytes
/// decode to the character sequence that encodes back to them.
#[verifier::external_body]
pub(crate) fn utf8_to_string(v: &[u8]) -> (r: Option<String>)
    ensures
        r is Some <==> vstd::utf8::valid_utf8(v@),
        r matches Some(s) ==> s@ == vstd::utf8::decode_utf8(v@) && vstd::utf8::encode_utf8(s@)
            == v@,
{
    match core::str::from_utf8(v) {
        Ok(s) => Some(s.to_owned()),
        Err(_) => None,
    }
}

/// The metadata that results from applying one serialized field to `m`:
/// the field is chosen by the local name after the last colon; float fields
/// parse per [`spec_parse_float_array`] and [`crate::fixed::parse_micros`],
/// and a field that fails to parse yields `None`. Unknown names leave the
/// record unchanged.
pub open spec fn spec_apply_field(m: MetadataModel, name: Seq<u8>, value: Seq<u8>) -> Option<
    MetadataModel,
> {
    let local = spec_local_name(name);
    if local == vstd::utf8::encode_utf8("Version"@) {
        Some(
            if vstd::utf8::valid_utf8(value) {
                MetadataModel { version: vstd::utf8::decode_utf8(value), ..m }
            } else {
                m
            },
        )
    } else if local == vstd::utf8::encode_utf8("BaseRenditionIsHDR"@) {
        Some(MetadataModel { base_rendition_is_hdr: spec_truthy(value), ..m })
    } else if local == vstd::utf8::encode_utf8("GainMapMin"@) {
        match spec_parse_float_array(value) {
            Some(a) => Some(MetadataModel { gain_map_min: a, ..m }),
            None => None,
        }
    } else if local == vstd::utf8::encode_utf8("GainMapMax"@) {
        match spec_parse_float_array(value) {
            Some(a) => Some(MetadataModel { gain_map_max: a, ..m }),
            None => None,
        }
    } else if local == vstd::utf8::encode_utf8("Gamma"@) {
        match spec_parse_float_array(value) {
            Some(a) => Some(MetadataModel { gamma: a, ..m }),
            None => None,
        }
    } else if local == vstd::utf8::encode_utf8("OffsetSDR"@) {
        match spec_parse_float_array(value) {
            Some(a) => Some(MetadataModel { offset_sdr: a, ..m }),
            None => None,
        }
    } else if local == vstd::utf8::encode_utf8("OffsetHDR"@) {
        match spec_parse_float_array(value) {
            Some(a) => Some(MetadataModel { offset_hdr: a, ..m }),
            None => None,
        }
    } else if local == vstd::utf8::encode_utf8("HDRCapacityMin"@) {
        match parse_micros(value) {
            Some(v) => Some(MetadataModel { hdr_capacity_min: v, ..m }),
            None => None,
        }
    } else if local == vstd::utf8::encode_utf8("HDRCapacityMax"@) {
        match parse_micros(value) {
            Some(v) => Some(MetadataModel { hdr_capacity_max: v, ..m }),
            None => None,
        }
    } else {
        Some(m)
    }
}


/// The tolerant walk over the RDF/XML fragment from position `pos` with
/// the record, the inside-hdrgm flag and the current element name
/// accumulated so far: text content under an `hdrgm:` element is trimmed,
/// unescaped and applied as a field, then the tag at the next `<` is
/// dispatched by [`spec_xmp_tag_step`].
pub open spec fn spec_xmp_scan(
    d: Seq<u8>,
    pos: int,
    md: MetadataModel,
    in_h: bool,
    cur: Seq<u8>,
) -> XmpOutcome
    decreases d.len() - pos, 1int,
    via spec_xmp_scan_dec
{
    if pos >= d.len() {
        XmpOutcome::Parsed(md)
    } else {
        let lt = find_at(d, pos, 0x3Cu8);
        let step1 = if lt > pos && in_h && spec_trim(d.subrange(pos, lt)).len() > 0 {
            spec_apply_field(md, cur, spec_unescape(spec_trim(d.subrange(pos, lt))))
        } else {
            Some(md)
        };
        match step1 {
            None => XmpOutcome::BadField,
            Some(md1) => {
                if lt >= d.len() {
                    XmpOutcome::Parsed(md1)
                } else {
                    spec_xmp_tag_step(d, lt, md1, in_h, cur)
                }
            },
        }
    }
}

/// One tag of the tolerant walk, standing at the `<` at position `lt`:
/// comments, declarations and doctypes are skipped; end tags of `hdrgm:`
/// elements leave the element; start tags enter it when their name carries
/// the prefix, and their `hdrgm:` attributes are applied as fields.
pub open spec fn spec_xmp_tag_step(
    d: Seq<u8>,
    lt: int,
    md1: MetadataModel,
    in_h: bool,
    cur: Seq<u8>,
) -> XmpOutcome
    decreases d.len() - lt, 0int,
    via spec_xmp_tag_step_dec
{
    if lt < 0 || lt >= d.len() {
        XmpOutcome::BadXml
    } else if d.len() - lt > 3 && d[lt + 1] == 0x21u8 && d[lt + 2] == 0x2Du8 && d[lt + 3]
        == 0x2Du8 {
        let q = comment_end(d, lt + 4);
        if q >= d.len() {
            XmpOutcome::BadXml
        } else {
            spec_xmp_scan(d, q + 1, md1, in_h, cur)
        }
    } else if d.len() - lt > 1 && (d[lt + 1] == 0x3Fu8 || d[lt + 1] == 0x21u8) {
        let q = find_at(d, lt + 1, 0x3Eu8);
        if q >= d.len() {
            XmpOutcome::BadXml
        } else {
            spec_xmp_scan(d, q + 1, md1, in_h, cur)
        }
    } else if d.len() - lt > 1 && d[lt + 1] == 0x2Fu8 {
        let q = find_at(d, lt + 2, 0x3Eu8);
        if q >= d.len() {
            XmpOutcome::BadXml
        } else {
            let nm = d.subrange(lt + 2, q);
            if seq_starts_with(nm, vstd::utf8::encode_utf8("hdrgm:"@)) {
                spec_xmp_scan(d, q + 1, md1, false, Seq::empty())
            } else {
                spec_xmp_scan(d, q + 1, md1, in_h, cur)
            }
        }
    } else {
        let ne = name_end(d, lt + 1);
        if ne >= d.len() {
            XmpOutcome::BadXml
        } else {
            let nm = d.subrange(lt + 1, ne);
            let enters = seq_starts_with(nm, vstd::utf8::encode_utf8("hdrgm:"@)) || seq_contains(
                nm,
                vstd::utf8::encode_utf8(":hdrgm:"@),
            );
            let in2 = if enters {
                true
            } else {
                in_h
            };
            let cur2 = if enters {
                nm
            } else {
                cur
            };
            match spec_xmp_attrs(d, ne, md1) {
                AttrsOutcome::AttrsBadXml => XmpOutcome::BadXml,
                AttrsOutcome::AttrsBadField => XmpOutcome::BadField,
                AttrsOutcome::AttrsOk(md2, p2) => spec_xmp_scan(
                    d,
                    if p2 > lt {
                        p2
                    } else {
                        lt + 1
                    },
                    md2,
                    in2,
                    cur2,
                ),
            }
        }
    }
}

#[via_fn]
proof fn spec_xmp_scan_dec(d: Seq<u8>, pos: int, md: MetadataModel, in_h: bool, cur: Seq<u8>) {
    if pos < d.len() {
        lemma_find_at_ge(d, pos, 0x3Cu8);
    }
}

#[via_fn]
proof fn spec_xmp_tag_step_dec(
    d: Seq<u8>,
    lt: int,
    md1: MetadataModel,
    in_h: bool,
    cur: Seq<u8>,
) {
    if 0 <= lt && lt < d.len() {
        lemma_comment_end_ge(d, lt + 4);
        lemma_find_at_ge(d, lt + 1, 0x3Eu8);
        lemma_find_at_ge(d, lt + 2, 0x3Eu8);
        lemma_name_end_ge(d, lt + 1);
        let ne = name_end(d, lt + 1);
        if ne < d.len() {
            lemma_spec_xmp_attrs_pos(d, ne, md1);
        }
    }
}

proof fn lemma_comment_end_ge(d: Seq<u8>, pos: int)
    ensures
        pos <= comment_end(d, pos),
        pos <= d.len() ==> comment_end(d, pos) <= d.len(),
    decreases d.len() - pos,
{
    if pos < d.len() && !closes_comment(d, pos) {
        lemma_comment_end_ge(d, pos + 1);
    }
}

proof fn lemma_name_end_ge(d: Seq<u8>, pos: int)
    ensures
        pos <= name_end(d, pos),
        pos <= d.len() ==> name_end(d, pos) <= d.len(),
    decreases d.len() - pos,
{
    if pos < d.len() && !ends_name(d[pos]) {
        lemma_name_end_ge(d, pos + 1);
    }
}

/// The whole tolerant parse of an XMP payload: the walk from the start,
/// over the default record.
pub open spec fn spec_xmp_parse(d: Seq<u8>) -> XmpOutcome {
    spec_xmp_scan(d, 0, crate::metadata::default_metadata_model(), false, Seq::empty())
}


/// The first position at or after `pos` closing a comment, or the end.
fn comment_close(d: &[u8], pos: usize) -> (r: usize)
    requires
        pos <= d@.len(),
    ensures
        r == comment_end(d@, pos as int),
        pos <= r <= d@.len(),
        r < d@.len() ==> closes_comment(d@, r as int),
{
    proof {
        lemma_comment_end_bounds(d@, pos as int);
    }
    let n = d.len();
    let mut q = pos;
    while q < n
        invariant
            pos <= q <= n,
            n == d@.len(),
            comment_end(d@, pos as int) == comment_end(d@, q as int),
        decreases n - q,
    {
        if d[q] == 0x3E && q >= 2 && d[q - 1] == 0x2D && d[q - 2] == 0x2D {
            assert(comment_end(d@, q as int) == q as int);
            return q;
        }
        proof {
            assert(!closes_comment(d@, q as int));
        }
        q += 1;
    }
    proof {
        assert(comment_end(d@, q as int) == q as int);
    }
    q
}

impl XmpParser {
    /// Walks the attributes of one start tag, applying `hdrgm:` attributes
    /// to the record, and returns the position just past the closing `>`.
    fn scan_attrs(d: &[u8], p0: usize, metadata: &mut GainMapMetadata) -> (r: Result<
        usize,
        UltraHdrError,
    >)
        requires
            p0 <= d@.len(),
        ensures
            match spec_xmp_attrs(d@, p0 as int, old(metadata)@) {
                AttrsOutcome::AttrsOk(md2, p2) => r matches Ok(pp) && pp as int == p2
                    && final(metadata)@ == md2 && p0 < p2 <= d@.len(),
                AttrsOutcome::AttrsBadXml => r matches Err(e) && e
                    matches UltraHdrError::XmpError(_),
                AttrsOutcome::AttrsBadField => r matches Err(e) && e
                    matches UltraHdrError::MetadataError(_),
            },
    {
        proof {
            lemma_spec_xmp_attrs_pos(d@, p0 as int, old(metadata)@);
        }
        let n = d.len();
        let mut p = p0;
        loop
            invariant
                n == d@.len(),
                p0 <= p <= n,
                spec_xmp_attrs(d@, p as int, metadata@) == spec_xmp_attrs(
                    d@,
                    p0 as int,
                    old(metadata)@,
                ),
            decreases n - p,
        {
            let ghost pe = p as int;
            let ghost mde = metadata@;
            // Skip whitespace.
            while p < n && (d[p] == 0x20 || d[p] == 0x09 || d[p] == 0x0A || d[p] == 0x0D)
                invariant
                    n == d@.len(),
                    pe <= p <= n,
                    ws_end(d@, pe) == ws_end(d@, p as int),
                decreases n - p,
            {
                p += 1;
            }
            proof {
                assert(ws_end(d@, p as int) == p as int);
                assert(ws_end(d@, pe) == p as int);
            }
            if p >= n {
                assert(spec_xmp_attrs(d@, pe, mde) == AttrsOutcome::AttrsBadXml);
                return Err(UltraHdrError::XmpError(String::from_str("Unterminated tag")));
            }
            if d[p] == 0x3E {
                assert(spec_xmp_attrs(d@, pe, mde) == AttrsOutcome::AttrsOk(mde, p as int + 1));
                return Ok(p + 1);
            }
            if d[p] == 0x2F {
                // Self-closing tag.
                let q2 = find_byte(d, p, 0x3E);
                if q2 >= n {
                    assert(spec_xmp_attrs(d@, pe, mde) == AttrsOutcome::AttrsBadXml);
                    return Err(UltraHdrError::XmpError(String::from_str("Unterminated tag")));
                }
                assert(spec_xmp_attrs(d@, pe, mde) == AttrsOutcome::AttrsOk(mde, q2 as int + 1));
                return Ok(q2 + 1);
            }
            // Attribute name.
            let astart = p;
            while p < n && d[p] != 0x3D && d[p] != 0x3E && d[p] != 0x20 && d[p] != 0x09 && d[p]
                != 0x0A && d[p] != 0x0D && d[p] != 0x2F
                invariant
                    n == d@.len(),
                    astart <= p <= n,
                    attr_name_end(d@, astart as int) == attr_name_end(d@, p as int),
                decreases n - p,
            {
                p += 1;
            }
            proof {
                assert(attr_name_end(d@, p as int) == p as int);
                assert(attr_name_end(d@, astart as int) == p as int);
            }
            if p >= n || d[p] != 0x3D {
                assert(spec_xmp_attrs(d@, pe, mde) == AttrsOutcome::AttrsBadXml);
                return Err(UltraHdrError::XmpError(String::from_str("Malformed attribute")));
            }
            let aname = crate::parser::copy_range(d, astart, p);
            p += 1;
            if p >= n || (d[p] != 0x22 && d[p] != 0x27) {
                assert(spec_xmp_attrs(d@, pe, mde) == AttrsOutcome::AttrsBadXml);
                return Err(
                    UltraHdrError::XmpError(String::from_str("Malformed attribute value")),
                );
            }
            let quote = d[p];
            p += 1;
            let vstart = p;
            let vend = find_byte(d, p, quote);
            if vend >= n {
                assert(spec_xmp_attrs(d@, pe, mde) == AttrsOutcome::AttrsBadXml);
                return Err(
                    UltraHdrError::XmpError(String::from_str("Unterminated attribute value")),
                );
            }
            if bytes_start_with(aname.as_slice(), "hdrgm:".as_bytes()) {
                let value = &d[vstart..vend];
                match Self::set_metadata_field(metadata, aname.as_slice(), value) {
                    Ok(_) => {},
                    Err(e) => {
                        assert(spec_xmp_attrs(d@, pe, mde) == AttrsOutcome::AttrsBadField);
                        return Err(e);
                    },
                }
            }
            proof {
                assert(spec_xmp_attrs(d@, pe, mde) == spec_xmp_attrs(
                    d@,
                    vend as int + 1,
                    metadata@,
                ));
            }
            p = vend + 1;
        }
    }
}

/// XMP parser for gain map metadata.
pub struct XmpParser;

/// XMP writer for gain map metadata.
pub struct XmpWriter;

/// The escaped form of one attribute-value byte: the five XML-special
/// characters become entities, as do tab, newline and carriage return.
pub open spec fn esc_byte(b: u8) -> Seq<u8> {
    if b == 0x3Cu8 {
        vstd::utf8::encode_utf8("&lt;"@)
    } else if b == 0x3Eu8 {
        vstd::utf8::encode_utf8("&gt;"@)
    } else if b == 0x26u8 {
        vstd::utf8::encode_utf8("&amp;"@)
    } else if b == 0x27u8 {
        vstd::utf8::encode_utf8("&apos;"@)
    } else if b == 0x22u8 {
        vstd::utf8::encode_utf8("&quot;"@)
    } else if b == 0x09u8 {
        vstd::utf8::encode_utf8("&#9;"@)
    } else if b == 0x0Au8 {
        vstd::utf8::encode_utf8("&#10;"@)
    } else if b == 0x0Du8 {
        vstd::utf8::encode_utf8("&#13;"@)
    } else {
        seq![b]
    }
}

/// The attribute-escaped form of a byte string.
pub open spec fn escape_attr(s: Seq<u8>) -> Seq<u8>
    decreases s.len(),
{
    if s.len() == 0 {
        Seq::empty()
    } else {
        esc_byte(s[0]) + escape_attr(s.drop_first())
    }
}

proof fn lemma_escape_attr_push(s: Seq<u8>, b: u8)
    ensures
        escape_attr(s.push(b)) == escape_attr(s) + esc_byte(b),
    decreases s.len(),
{
    if s.len() == 0 {
        assert(s.push(b)[0] == b);
        assert(s.push(b).drop_first() =~= Seq::<u8>::empty());
        assert(escape_attr(Seq::<u8>::empty()) == Seq::<u8>::empty());
        assert(escape_attr(s.push(b)) =~= esc_byte(b));
        assert(escape_attr(s) + esc_byte(b) =~= esc_byte(b));
    } else {
        assert(s.push(b)[0] == s[0]);
        assert(s.push(b).drop_first() =~= s.drop_first().push(b));
        lemma_escape_attr_push(s.drop_first(), b);
        assert(escape_attr(s.push(b)) =~= escape_attr(s) + esc_byte(b));
    }
}

/// Appends the attribute-escaped form of `s` to `out`.
fn push_escaped(out: &mut Vec<u8>, s: &[u8])
    ensures
        final(out)@ == old(out)@ + escape_attr(s@),
{
    let n = s.len();
    let mut i: usize = 0;
    assert(s@.take(0) =~= Seq::<u8>::empty());
    assert(out@ =~= old(out)@ + escape_attr(s@.take(0)));
    while i < n
        invariant
            n == s@.len(),
            0 <= i <= n,
            out@ == old(out)@ + escape_attr(s@.take(i as int)),
        decreases n - i,
    {
        let b = s[i];
        let ghost pre = out@;
        proof {
            assert(s@.take(i as int + 1) =~= s@.take(i as int).push(s@[i as int]));
            lemma_escape_attr_push(s@.take(i as int), s@[i as int]);
        }
        if b == 0x3C {
            out.extend_from_slice("&lt;".as_bytes());
        } else if b == 0x3E {
            out.extend_from_slice("&gt;".as_bytes());
        } else if b == 0x26 {
            out.extend_from_slice("&amp;".as_bytes());
        } else if b == 0x27 {
            out.extend_from_slice("&apos;".as_bytes());
        } else if b == 0x22 {
            out.extend_from_slice("&quot;".as_bytes());
        } else if b == 0x09 {
            out.extend_from_slice("&#9;".as_bytes());
        } else if b == 0x0A {
            out.extend_from_slice("&#10;".as_bytes());
        } else if b == 0x0D {
            out.extend_from_slice("&#13;".as_bytes());
        } else {
            out.push(b);
            assert(out@ =~= pre + seq![b]);
        }
        assert(out@ =~= pre + esc_byte(s@[i as int]));
        i += 1;
    }
    proof {
        assert(s@.take(n as int) =~= s@);
    }
}

/// The shared run of `hdrgm:` attributes carrying the metadata fields, as
/// both serialized forms emit it.
pub open spec fn hdrgm_attrs(m: MetadataModel) -> Seq<u8> {
    hdrgm_attrs_a(m) + hdrgm_attrs_b(m) + hdrgm_attrs_c(m) + hdrgm_attrs_d(m)
}

/// The ISO 21496-1 serialized form: a single empty `rdf:Description`
/// carrying every field as an attribute.
pub open spec fn iso_xmp_bytes(m: MetadataModel) -> Seq<u8> {
    vstd::utf8::encode_utf8(
        "<?xml version=\"1.0\" encoding=\"UTF-8\"?><x:xmpmeta xmlns:x=\"adobe:ns:meta/\"><rdf:RDF xmlns:rdf=\"http://www.w3.org/1999/02/22-rdf-syntax-ns#\" xmlns:hdrgm=\"http://ns.adobe.com/hdr-gain-map/1.0/\"><rdf:Description rdf:about=\"\""@,
    ) + hdrgm_attrs(m) + vstd::utf8::encode_utf8("/></rdf:RDF></x:xmpmeta>"@)
}

/// The UltraHDR v1 serialized form: the same description, opened as an
/// element, with an embedded container directory naming the primary image
/// and the gain map.
pub open spec fn v1_xmp_bytes(m: MetadataModel, mime: Seq<char>) -> Seq<u8> {
    vstd::utf8::encode_utf8(
        "<?xml version=\"1.0\" encoding=\"UTF-8\"?><x:xmpmeta xmlns:x=\"adobe:ns:meta/\"><rdf:RDF xmlns:rdf=\"http://www.w3.org/1999/02/22-rdf-syntax-ns#\" xmlns:hdrgm=\"http://ns.adobe.com/hdr-gain-map/1.0/\" xmlns:Container=\"http://ns.google.com/photos/1.0/container/\" xmlns:Item=\"http://ns.google.com/photos/1.0/container/item/\"><rdf:Description rdf:about=\"\""@,
    ) + hdrgm_attrs(m) + vstd::utf8::encode_utf8(
        "><Container:Directory><rdf:Seq><rdf:li><Container:Item Item:Semantic=\"Primary\" Item:Mime=\"image/jpeg\"/></rdf:li><rdf:li><Container:Item Item:Semantic=\"GainMap\" Item:Mime=\""@,
    ) + escape_attr(vstd::utf8::encode_utf8(mime)) + vstd::utf8::encode_utf8(
        "\"/></rdf:li></rdf:Seq></Container:Directory></rdf:Description></rdf:RDF></x:xmpmeta>"@,
    )
}

/// One run of the shared `hdrgm:` attributes.
pub open spec fn hdrgm_attrs_a(m: MetadataModel) -> Seq<u8> {
    vstd::utf8::encode_utf8(" hdrgm:Version=\""@) + escape_attr(vstd::utf8::encode_utf8(m.version)) + vstd::utf8::encode_utf8("\" hdrgm:BaseRenditionIsHDR=\""@) + (if m.base_rendition_is_hdr { vstd::utf8::encode_utf8("True"@) } else { vstd::utf8::encode_utf8("False"@) })
}

#[verifier::rlimit(100)]
fn push_hdrgm_attrs_a(out: &mut Vec<u8>, metadata: &GainMapMetadata)
    ensures
        final(out)@ == old(out)@ + hdrgm_attrs_a(metadata@),
{
    out.extend_from_slice(" hdrgm:Version=\"".as_bytes());
    assert(out@ == old(out)@ + vstd::utf8::encode_utf8(" hdrgm:Version=\""@));
    push_escaped(out, metadata.version.as_str().as_bytes());
    assert(out@ == old(out)@ + vstd::utf8::encode_utf8(" hdrgm:Version=\""@) + escape_attr(vstd::utf8::encode_utf8(metadata@.version)));
    out.extend_from_slice("\" hdrgm:BaseRenditionIsHDR=\"".as_bytes());
    assert(out@ == old(out)@ + vstd::utf8::encode_utf8(" hdrgm:Version=\""@) + escape_attr(vstd::utf8::encode_utf8(metadata@.version)) + vstd::utf8::encode_utf8("\" hdrgm:BaseRenditionIsHDR=\""@));
    if metadata.base_rendition_is_hdr {
        out.extend_from_slice("True".as_bytes());
    } else {
        out.extend_from_slice("False".as_bytes());
    }
    assert(out@ == old(out)@ + vstd::utf8::encode_utf8(" hdrgm:Version=\""@) + escape_attr(vstd::utf8::encode_utf8(metadata@.version)) + vstd::utf8::encode_utf8("\" hdrgm:BaseRenditionIsHDR=\""@) + (if metadata@.base_rendition_is_hdr { vstd::utf8::encode_utf8("True"@) } else { vstd::utf8::encode_utf8("False"@) }));
    assert(out@ == old(out)@ + hdrgm_attrs_a(metadata@));
}

/// One run of the shared `hdrgm:` attributes.
pub open spec fn hdrgm_attrs_b(m: MetadataModel) -> Seq<u8> {
    vstd::utf8::encode_utf8("\" hdrgm:GainMapMin=\""@) + fmt_float_array(m.gain_map_min) + vstd::utf8::encode_utf8("\" hdrgm:GainMapMax=\""@) + fmt_float_array(m.gain_map_max) + vstd::utf8::encode_utf8("\" hdrgm:Gamma=\""@) + fmt_float_array(m.gamma)
}

#[verifier::rlimit(100)]
fn push_hdrgm_attrs_b(out: &mut Vec<u8>, metadata: &GainMapMetadata)
    ensures
        final(out)@ == old(out)@ + hdrgm_attrs_b(metadata@),
{
    out.extend_from_slice("\" hdrgm:GainMapMin=\"".as_bytes());
    assert(out@ == old(out)@ + vstd::utf8::encode_utf8("\" hdrgm:GainMapMin=\""@));
    let piece = format_float_array(&metadata.gain_map_min);
    out.extend_from_slice(piece.as_slice());
    assert(out@ == old(out)@ + vstd::utf8::encode_utf8("\" hdrgm:GainMapMin=\""@) + fmt_float_array(metadata@.gain_map_min));
    out.extend_from_slice("\" hdrgm:GainMapMax=\"".as_bytes());
    assert(out@ == old(out)@ + vstd::utf8::encode_utf8("\" hdrgm:GainMapMin=\""@) + fmt_float_array(metadata@.gain_map_min) + vstd::utf8::encode_utf8("\" hdrgm:GainMapMax=\""@));
    let piece = format_float_array(&metadata.gain_map_max);
    out.extend_from_slice(piece.as_slice());
    assert(out@ == old(out)@ + vstd::utf8::encode_utf8("\" hdrgm:GainMapMin=\""@) + fmt_float_array(metadata@.gain_map_min) + vstd::utf8::encode_utf8("\" hdrgm:GainMapMax=\""@) + fmt_float_array(metadata@.gain_map_max));
    out.extend_from_slice("\" hdrgm:Gamma=\"".as_bytes());
    assert(out@ == old(out)@ + vstd::utf8::encode_utf8("\" hdrgm:GainMapMin=\""@) + fmt_float_array(metadata@.gain_map_min) + vstd::utf8::encode_utf8("\" hdrgm:GainMapMax=\""@) + fmt_float_array(metadata@.gain_map_max) + vstd::utf8::encode_utf8("\" hdrgm:Gamma=\""@));
    let piece = format_float_array(&metadata.gamma);
    out.extend_from_slice(piece.as_slice());
    assert(out@ == old(out)@ + vstd::utf8::encode_utf8("\" hdrgm:GainMapMin=\""@) + fmt_float_array(metadata@.gain_map_min) + vstd::utf8::encode_utf8("\" hdrgm:GainMapMax=\""@) + fmt_float_array(metadata@.gain_map_max) + vstd::utf8::encode_utf8("\" hdrgm:Gamma=\""@) + fmt_float_array(metadata@.gamma));
    assert(out@ == old(out)@ + hdrgm_attrs_b(metadata@));
}

/// One run of the shared `hdrgm:` attributes.
pub open spec fn hdrgm_attrs_c(m: MetadataModel) -> Seq<u8> {
    vstd::utf8::encode_utf8("\" hdrgm:OffsetSDR=\""@) + fmt_float_array(m.offset_sdr) + vstd::utf8::encode_utf8("\" hdrgm:OffsetHDR=\""@) + fmt_float_array(m.offset_hdr)
}

#[verifier::rlimit(100)]
fn push_hdrgm_attrs_c(out: &mut Vec<u8>, metadata: &GainMapMetadata)
    ensures
        final(out)@ == old(out)@ + hdrgm_attrs_c(metadata@),
{
    out.extend_from_slice("\" hdrgm:OffsetSDR=\"".as_bytes());
    assert(out@ == old(out)@ + vstd::utf8::encode_utf8("\" hdrgm:OffsetSDR=\""@));
    let piece = format_float_array(&metadata.offset_sdr);
    out.extend_from_slice(piece.as_slice());
    assert(out@ == old(out)@ + vstd::utf8::encode_utf8("\" hdrgm:OffsetSDR=\""@) + fmt_float_array(metadata@.offset_sdr));
    out.extend_from_slice("\" hdrgm:OffsetHDR=\"".as_bytes());
    assert(out@ == old(out)@ + vstd::utf8::encode_utf8("\" hdrgm:OffsetSDR=\""@) + fmt_float_array(metadata@.offset_sdr) + vstd::utf8::encode_utf8("\" hdrgm:OffsetHDR=\""@));
    let piece = format_float_array(&metadata.offset_hdr);
    out.extend_from_slice(piece.as_slice());
    assert(out@ == old(out)@ + vstd::utf8::encode_utf8("\" hdrgm:OffsetSDR=\""@) + fmt_float_array(metadata@.offset_sdr) + vstd::utf8::encode_utf8("\" hdrgm:OffsetHDR=\""@) + fmt_float_array(metadata@.offset_hdr));
    assert(out@ == old(out)@ + hdrgm_attrs_c(metadata@));
}

/// One run of the shared `hdrgm:` attributes.
pub open spec fn hdrgm_attrs_d(m: MetadataModel) -> Seq<u8> {
    vstd::utf8::encode_utf8("\" hdrgm:HDRCapacityMin=\""@) + fmt_micros(m.hdr_capacity_min) + vstd::utf8::encode_utf8("\" hdrgm:HDRCapacityMax=\""@) + fmt_micros(m.hdr_capacity_max) + vstd::utf8::encode_utf8("\""@)
}

#[verifier::rlimit(100)]
fn push_hdrgm_attrs_d(out: &mut Vec<u8>, metadata: &GainMapMetadata)
    ensures
        final(out)@ == old(out)@ + hdrgm_attrs_d(metadata@),
{
    out.extend_from_slice("\" hdrgm:HDRCapacityMin=\"".as_bytes());
    assert(out@ == old(out)@ + vstd::utf8::encode_utf8("\" hdrgm:HDRCapacityMin=\""@));
    let piece = fmt_micros_bytes(metadata.hdr_capacity_min);
    out.extend_from_slice(piece.as_slice());
    assert(out@ == old(out)@ + vstd::utf8::encode_utf8("\" hdrgm:HDRCapacityMin=\""@) + fmt_micros(metadata@.hdr_capacity_min));
    out.extend_from_slice("\" hdrgm:HDRCapacityMax=\"".as_bytes());
    assert(out@ == old(out)@ + vstd::utf8::encode_utf8("\" hdrgm:HDRCapacityMin=\""@) + fmt_micros(metadata@.hdr_capacity_min) + vstd::utf8::encode_utf8("\" hdrgm:HDRCapacityMax=\""@));
    let piece = fmt_micros_bytes(metadata.hdr_capacity_max);
    out.extend_from_slice(piece.as_slice());
    assert(out@ == old(out)@ + vstd::utf8::encode_utf8("\" hdrgm:HDRCapacityMin=\""@) + fmt_micros(metadata@.hdr_capacity_min) + vstd::utf8::encode_utf8("\" hdrgm:HDRCapacityMax=\""@) + fmt_micros(metadata@.hdr_capacity_max));
    out.extend_from_slice("\"".as_bytes());
    assert(out@ == old(out)@ + vstd::utf8::encode_utf8("\" hdrgm:HDRCapacityMin=\""@) + fmt_micros(metadata@.hdr_capacity_min) + vstd::utf8::encode_utf8("\" hdrgm:HDRCapacityMax=\""@) + fmt_micros(metadata@.hdr_capacity_max) + vstd::utf8::encode_utf8("\""@));
    assert(out@ == old(out)@ + hdrgm_attrs_d(metadata@));
}

/// Appends the shared `hdrgm:` attribute run.
fn push_hdrgm_attrs(out: &mut Vec<u8>, metadata: &GainMapMetadata)
    ensures
        final(out)@ == old(out)@ + hdrgm_attrs(metadata@),
{
    push_hdrgm_attrs_a(out, metadata);
    push_hdrgm_attrs_b(out, metadata);
    push_hdrgm_attrs_c(out, metadata);
    push_hdrgm_attrs_d(out, metadata);
    assert(out@ == old(out)@ + hdrgm_attrs(metadata@));
}
impl XmpWriter {
    /// Creates XMP data for gain map metadata (ISO 21496-1 format).
    pub fn create_iso_xmp(metadata: &GainMapMetadata) -> (r: Result<Vec<u8>, UltraHdrError>)
        ensures
            r matches Ok(v) && v@ == iso_xmp_bytes(metadata@),
    {
        let mut out: Vec<u8> = Vec::new();
        out.extend_from_slice(
            "<?xml version=\"1.0\" encoding=\"UTF-8\"?><x:xmpmeta xmlns:x=\"adobe:ns:meta/\"><rdf:RDF xmlns:rdf=\"http://www.w3.org/1999/02/22-rdf-syntax-ns#\" xmlns:hdrgm=\"http://ns.adobe.com/hdr-gain-map/1.0/\"><rdf:Description rdf:about=\"\"".as_bytes(),
        );
        push_hdrgm_attrs(&mut out, metadata);
        out.extend_from_slice("/></rdf:RDF></x:xmpmeta>".as_bytes());
        assert(out@ == iso_xmp_bytes(metadata@));
        Ok(out)
    }

    /// Creates XMP data with the UltraHDR v1 Container extension.
    pub fn create_ultrahdr_v1_xmp(metadata: &GainMapMetadata, gain_map_mime: &str) -> (r: Result<
        Vec<u8>,
        UltraHdrError,
    >)
        ensures
            r matches Ok(v) && v@ == v1_xmp_bytes(metadata@, gain_map_mime@),
    {
        let mut out: Vec<u8> = Vec::new();
        out.extend_from_slice(
            "<?xml version=\"1.0\" encoding=\"UTF-8\"?><x:xmpmeta xmlns:x=\"adobe:ns:meta/\"><rdf:RDF xmlns:rdf=\"http://www.w3.org/1999/02/22-rdf-syntax-ns#\" xmlns:hdrgm=\"http://ns.adobe.com/hdr-gain-map/1.0/\" xmlns:Container=\"http://ns.google.com/photos/1.0/container/\" xmlns:Item=\"http://ns.google.com/photos/1.0/container/item/\"><rdf:Description rdf:about=\"\"".as_bytes(),
        );
        push_hdrgm_attrs(&mut out, metadata);
        out.extend_from_slice(
            "><Container:Directory><rdf:Seq><rdf:li><Container:Item Item:Semantic=\"Primary\" Item:Mime=\"image/jpeg\"/></rdf:li><rdf:li><Container:Item Item:Semantic=\"GainMap\" Item:Mime=\"".as_bytes(),
        );
        push_escaped(&mut out, gain_map_mime.as_bytes());
        out.extend_from_slice(
            "\"/></rdf:li></rdf:Seq></Container:Directory></rdf:Description></rdf:RDF></x:xmpmeta>".as_bytes(),
        );
        assert(out@ == v1_xmp_bytes(metadata@, gain_map_mime@));
        Ok(out)
    }

    /// Creates combined XMP data: the UltraHDR v1 form with an
    /// `image/jpeg` gain map.
    pub fn create_combined_xmp(metadata: &GainMapMetadata) -> (r: Result<Vec<u8>, UltraHdrError>)
        ensures
            r matches Ok(v) && v@ == v1_xmp_bytes(metadata@, "image/jpeg"@),
    {
        Self::create_ultrahdr_v1_xmp(metadata, "image/jpeg")
    }
}

/// Replaces the five named XML entities in text content; text holding any
/// other entity collapses to the empty string, as a failed unescape does.
fn unescape_text(t: &[u8]) -> (r: Vec<u8>)
    ensures
        r@ == spec_unescape(t@),
{
    let n = t.len();
    let mut out: Vec<u8> = Vec::new();
    let mut i: usize = 0;
    assert(t@.skip(0) =~= t@);
    assert(out@ =~= Seq::<u8>::empty());
    while i < n
        invariant
            n == t@.len(),
            0 <= i <= n,
            unesc_at(t@, 0) == match unesc_at(t@, i as int) {
                Some(rest) => Some(out@ + rest),
                None => None::<Seq<u8>>,
            },
        decreases n - i,
    {
        let b = t[i];
        if b != 0x26 {
            let ghost pre = out@;
            out.push(b);
            proof {
                match unesc_at(t@, i as int + 1) {
                    Some(rest) => {
                        assert(pre + (seq![t@[i as int]] + rest) =~= out@ + rest);
                    },
                    None => {},
                }
            }
            i += 1;
            continue;
        }
        // An entity: find its terminating semicolon within a short window.
        let mut j = i + 1;
        while j < n && j - i <= 6 && t[j] != 0x3B
            invariant
                n == t@.len(),
                i < j <= n,
                j - i <= 7,
                semi_end(t@, i as int, j as int) == semi_end(t@, i as int, i as int + 1),
            decreases n - j,
        {
            j += 1;
        }
        proof {
            assert(semi_end(t@, i as int, j as int) == j as int);
        }
        if j >= n || t[j] != 0x3B {
            assert(unesc_at(t@, 0) is None);
            return Vec::new();
        }
        let name = &t[i + 1..j];
        let rep: u8;
        if bytes_eq(name, "lt".as_bytes()) {
            rep = 0x3C;
        } else if bytes_eq(name, "gt".as_bytes()) {
            rep = 0x3E;
        } else if bytes_eq(name, "amp".as_bytes()) {
            rep = 0x26;
        } else if bytes_eq(name, "apos".as_bytes()) {
            rep = 0x27;
        } else if bytes_eq(name, "quot".as_bytes()) {
            rep = 0x22;
        } else {
            assert(unesc_at(t@, 0) is None);
            return Vec::new();
        }
        let ghost pre = out@;
        out.push(rep);
        proof {
            match unesc_at(t@, j as int + 1) {
                Some(rest) => {
                    assert(pre + (seq![rep] + rest) =~= out@ + rest);
                },
                None => {},
            }
        }
        i = j + 1;
    }
    proof {
        assert(unesc_at(t@, n as int) == Some(Seq::<u8>::empty()));
        match unesc_at(t@, 0) {
            Some(s) => {
                assert(s =~= out@ + Seq::<u8>::empty());
                assert(out@ =~= s);
            },
            None => {},
        }
    }
    out
}

/// The position of the first `b` at or after `pos`, or the length.
fn find_byte(d: &[u8], pos: usize, b: u8) -> (r: usize)
    requires
        pos <= d@.len(),
    ensures
        r == find_at(d@, pos as int, b),
        pos <= r <= d@.len(),
        r < d@.len() ==> d@[r as int] == b,
        forall|j: int| pos <= j < r ==> d@[j] != b,
{
    proof {
        lemma_find_at_bounds(d@, pos as int, b);
    }
    let n = d.len();
    let mut i = pos;
    while i < n && d[i] != b
        invariant
            pos <= i <= n,
            n == d@.len(),
            find_at(d@, pos as int, b) == find_at(d@, i as int, b),
        decreases n - i,
    {
        i += 1;
    }
    proof {
        assert(find_at(d@, i as int, b) == i as int);
    }
    i
}

impl XmpParser {
    /// Checks if XMP data contains gain map metadata: the bytes are valid
    /// UTF-8 and hold the `hdrgm` namespace URI or the `hdrgm:` prefix.
    pub fn has_gain_map_metadata(xmp_data: &[u8]) -> (r: bool)
        ensures
            r == (vstd::utf8::valid_utf8(xmp_data@) && (seq_contains(
                xmp_data@,
                vstd::utf8::encode_utf8("http://ns.adobe.com/hdr-gain-map/1.0/"@),
            ) || seq_contains(xmp_data@, vstd::utf8::encode_utf8("hdrgm:"@)))),
    {
        if !utf8_check(xmp_data) {
            return false;
        }
        bytes_contain(xmp_data, "http://ns.adobe.com/hdr-gain-map/1.0/".as_bytes())
            || bytes_contain(xmp_data, "hdrgm:".as_bytes())
    }

    /// Parses gain map metadata from XMP data: the bytes must be valid
    /// UTF-8, and the result is exactly the tolerant walk [`spec_xmp_parse`]
    /// over them — recognized `hdrgm:` attributes and element text set the
    /// matching metadata fields over the defaults, per [`spec_apply_field`].
    pub fn parse(xmp_data: &[u8]) -> (r: Result<GainMapMetadata, UltraHdrError>)
        ensures
            !vstd::utf8::valid_utf8(xmp_data@) ==> (r matches Err(e) && e
                matches UltraHdrError::XmpError(_)),
            vstd::utf8::valid_utf8(xmp_data@) ==> match spec_xmp_parse(xmp_data@) {
                XmpOutcome::Parsed(md) => r matches Ok(x) && x@ == md,
                XmpOutcome::BadXml => r matches Err(e) && e matches UltraHdrError::XmpError(_),
                XmpOutcome::BadField => r matches Err(e) && e
                    matches UltraHdrError::MetadataError(_),
            },
    {
        if !utf8_check(xmp_data) {
            return Err(UltraHdrError::XmpError(String::from_str("Invalid UTF-8 in XMP")));
        }
        Self::parse_inner(xmp_data)
    }

    /// Parses gain map metadata from an XMP string: the result is exactly
    /// the tolerant walk [`spec_xmp_parse`] over the string's bytes.
    pub fn parse_str(xmp_str: &str) -> (r: Result<GainMapMetadata, UltraHdrError>)
        ensures
            match spec_xmp_parse(vstd::utf8::encode_utf8(xmp_str@)) {
                XmpOutcome::Parsed(md) => r matches Ok(x) && x@ == md,
                XmpOutcome::BadXml => r matches Err(e) && e matches UltraHdrError::XmpError(_),
                XmpOutcome::BadField => r matches Err(e) && e
                    matches UltraHdrError::MetadataError(_),
            },
    {
        Self::parse_inner(xmp_str.as_bytes())
    }

    /// The tolerant walk over the RDF/XML fragment: metadata fields are
    /// accepted both as `hdrgm:` attributes on any element and as text
    /// content of `hdrgm:` elements. Returns exactly what
    /// [`spec_xmp_parse`] assigns to the bytes.
    #[verifier::rlimit(100)]
    fn parse_inner(d: &[u8]) -> (r: Result<GainMapMetadata, UltraHdrError>)
        ensures
            match spec_xmp_parse(d@) {
                XmpOutcome::Parsed(md) => r matches Ok(x) && x@ == md,
                XmpOutcome::BadXml => r matches Err(e) && e matches UltraHdrError::XmpError(_),
                XmpOutcome::BadField => r matches Err(e) && e
                    matches UltraHdrError::MetadataError(_),
            },
    {
        let n = d.len();
        let mut metadata = GainMapMetadata::default();
        let mut in_hdrgm = false;
        let mut current: Vec<u8> = Vec::new();
        let mut pos: usize = 0;
        assert(current@ =~= Seq::<u8>::empty());

        while pos < n
            invariant
                n == d@.len(),
                0 <= pos <= n,
                spec_xmp_scan(d@, pos as int, metadata@, in_hdrgm, current@) == spec_xmp_parse(
                    d@,
                ),
            decreases n - pos,
        {
            let ghost pe = pos as int;
            let ghost mde = metadata@;
            let ghost he = in_hdrgm;
            let ghost ce = current@;
            // Text content up to the next tag.
            let tstart = pos;
            pos = find_byte(d, pos, 0x3C);
            if pos > tstart && in_hdrgm {
                let raw = trim_bytes(&d[tstart..pos]);
                if raw.len() > 0 {
                    let text = unescape_text(raw);
                    match Self::set_metadata_field(
                        &mut metadata,
                        current.as_slice(),
                        text.as_slice(),
                    ) {
                        Ok(_) => {},
                        Err(e) => {
                            assert(spec_xmp_scan(d@, pe, mde, he, ce) == XmpOutcome::BadField);
                            return Err(e);
                        },
                    }
                }
            }
            let ghost lt = pos as int;
            let ghost md1 = metadata@;
            proof {
                assert(spec_xmp_scan(d@, pe, mde, he, ce) == (if lt >= d@.len() {
                    XmpOutcome::Parsed(md1)
                } else {
                    spec_xmp_tag_step(d@, lt, md1, he, ce)
                }));
            }
            if pos >= n {
                assert(spec_xmp_parse(d@) == XmpOutcome::Parsed(metadata@));
                return Ok(metadata);
            }
            // A tag begins at `pos`.
            if n - pos > 3 && d[pos + 1] == 0x21 && d[pos + 2] == 0x2D && d[pos + 3] == 0x2D {
                // Comment: skip to "-->".
                let q = comment_close(d, pos + 4);
                if q >= n {
                    assert(spec_xmp_parse(d@) == XmpOutcome::BadXml);
                    return Err(UltraHdrError::XmpError(String::from_str("Unterminated comment")));
                }
                pos = q + 1;
                assert(spec_xmp_scan(d@, pos as int, metadata@, in_hdrgm, current@)
                    == spec_xmp_parse(d@));
                continue;
            }
            if n - pos > 1 && (d[pos + 1] == 0x3F || d[pos + 1] == 0x21) {
                // Processing instruction, doctype or CDATA: skip to '>'.
                let q = find_byte(d, pos + 1, 0x3E);
                if q >= n {
                    assert(spec_xmp_parse(d@) == XmpOutcome::BadXml);
                    return Err(UltraHdrError::XmpError(String::from_str("Unterminated markup")));
                }
                pos = q + 1;
                assert(spec_xmp_scan(d@, pos as int, metadata@, in_hdrgm, current@)
                    == spec_xmp_parse(d@));
                continue;
            }
            if n - pos > 1 && d[pos + 1] == 0x2F {
                // End tag.
                let q = find_byte(d, pos + 2, 0x3E);
                if q >= n {
                    assert(spec_xmp_parse(d@) == XmpOutcome::BadXml);
                    return Err(UltraHdrError::XmpError(String::from_str("Unterminated end tag")));
                }
                let name = &d[pos + 2..q];
                if bytes_start_with(name, "hdrgm:".as_bytes()) {
                    in_hdrgm = false;
                    current = Vec::new();
                    assert(current@ =~= Seq::<u8>::empty());
                }
                pos = q + 1;
                assert(spec_xmp_scan(d@, pos as int, metadata@, in_hdrgm, current@)
                    == spec_xmp_parse(d@));
                continue;
            }
            // Start or empty tag: read the name.
            let mut q = pos + 1;
            while q < n && d[q] != 0x3E && d[q] != 0x2F && d[q] != 0x20 && d[q] != 0x09 && d[q]
                != 0x0A && d[q] != 0x0D
                invariant
                    pos + 1 <= q <= n,
                    n == d@.len(),
                    name_end(d@, pos as int + 1) == name_end(d@, q as int),
                decreases n - q,
            {
                q += 1;
            }
            proof {
                assert(name_end(d@, q as int) == q as int);
            }
            if q >= n {
                assert(spec_xmp_parse(d@) == XmpOutcome::BadXml);
                return Err(UltraHdrError::XmpError(String::from_str("Unterminated tag")));
            }
            let name = crate::parser::copy_range(d, pos + 1, q);
            if bytes_start_with(name.as_slice(), "hdrgm:".as_bytes()) || bytes_contain(
                name.as_slice(),
                ":hdrgm:".as_bytes(),
            ) {
                in_hdrgm = true;
                current = crate::writer::clone_bytes(&name);
            }
            // Attributes.
            let p = match Self::scan_attrs(d, q, &mut metadata) {
                Ok(pp) => pp,
                Err(e) => {
                    proof {
                        match spec_xmp_attrs(d@, q as int, md1) {
                            AttrsOutcome::AttrsBadXml => {
                                assert(spec_xmp_parse(d@) == XmpOutcome::BadXml);
                            },
                            AttrsOutcome::AttrsBadField => {
                                assert(spec_xmp_parse(d@) == XmpOutcome::BadField);
                            },
                            AttrsOutcome::AttrsOk(_, _) => {
                                assert(false);
                            },
                        }
                    }
                    return Err(e);
                },
            };
            pos = if p > pos {
                p
            } else {
                pos + 1
            };
            assert(spec_xmp_scan(d@, pos as int, metadata@, in_hdrgm, current@)
                == spec_xmp_parse(d@));
        }
        proof {
            assert(spec_xmp_scan(d@, pos as int, metadata@, in_hdrgm, current@)
                == XmpOutcome::Parsed(metadata@));
        }
        Ok(metadata)
    }

}

/// Every byte of a formatted number is a minus sign, a dot or a digit.
proof fn lemma_fmt_micros_charset(v: int)
    ensures
        fmt_micros(v).len() >= 2,
        forall|i: int|
            0 <= i < fmt_micros(v).len() ==> (#[trigger] fmt_micros(v)[i] == 0x2Du8 || fmt_micros(
                v,
            )[i] == 0x2Eu8 || crate::fixed::is_digit(fmt_micros(v)[i])),
{
    let mag = vstd::math::abs(v) as int;
    let ip = (mag / 1000000) as nat;
    let f = (mag % 1000000) as nat;
    crate::fixed::lemma_dec_digits_are_digits(ip);
    crate::fixed::lemma_frac_digits_value(f);
    let d = crate::fixed::dec_digits(ip);
    let fr = crate::fixed::frac_digits(f);
    let sign: Seq<u8> = if v < 0 {
        seq![0x2Du8]
    } else {
        Seq::empty()
    };
    let s = fmt_micros(v);
    assert(s == sign + d + seq![0x2Eu8] + fr);
    assert forall|i: int|
        0 <= i < s.len() implies (#[trigger] s[i] == 0x2Du8 || s[i] == 0x2Eu8
        || crate::fixed::is_digit(s[i])) by {
        let sl = sign.len() as int;
        let dl = d.len() as int;
        if i < sl {
            assert(s[i] == 0x2Du8);
        } else if i < sl + dl {
            assert(s[i] == d[i - sl]);
        } else if i == sl + dl {
            assert(s[i] == 0x2Eu8);
        } else {
            assert(s[i] == fr[i - sl - dl - 1]);
        }
    }
}

/// A formatted number has no whitespace or separators, so it trims to
/// itself, contains no comma or space, and its digit prefix sees no
/// whitespace.
proof fn lemma_fmt_micros_clean(v: int)
    ensures
        spec_trim(fmt_micros(v)) == fmt_micros(v),
        !seq_contains(fmt_micros(v), seq![0x2Cu8]),
        !seq_contains(fmt_micros(v), seq![0x20u8]),
        forall|i: int| 0 <= i < fmt_micros(v).len() ==> !is_sep(#[trigger] fmt_micros(v)[i]),
{
    lemma_fmt_micros_charset(v);
    let s = fmt_micros(v);
    assert(!is_ws(s[0]));
    assert(lead_ws(s) == 0);
    assert(!is_ws(s.last()));
    assert(trail_ws(s) == 0);
    assert(s.subrange(0, s.len() as int) =~= s);
    assert forall|i: int| 0 <= i < s.len() implies !is_sep(#[trigger] s[i]) by {}
    assert(!seq_contains(s, seq![0x2Cu8])) by {
        if seq_contains(s, seq![0x2Cu8]) {
            let w = choose|i: int|
                0 <= i <= s.len() - 1 && #[trigger] s.subrange(i, i + 1) == seq![0x2Cu8];
            assert(s.subrange(w, w + 1)[0] == s[w]);
        }
    }
    assert(!seq_contains(s, seq![0x20u8])) by {
        if seq_contains(s, seq![0x20u8]) {
            let w = choose|i: int|
                0 <= i <= s.len() - 1 && #[trigger] s.subrange(i, i + 1) == seq![0x20u8];
            assert(s.subrange(w, w + 1)[0] == s[w]);
        }
    }
}

/// Splitting a string that begins with a separator-free token followed by a
/// separator (or the end) yields that token first.
proof fn lemma_split_head(t: Seq<u8>, u: Seq<u8>)
    requires
        t.len() > 0,
        forall|j: int| 0 <= j < t.len() ==> !is_sep(#[trigger] t[j]),
        u.len() == 0 || is_sep(u[0]),
    ensures
        split_tokens(t + u) == seq![t] + split_tokens(u),
{
    let s = t + u;
    assert(s[0] == t[0]);
    assert forall|j: int| 0 <= j < t.len() implies !is_sep(#[trigger] s[j]) by {
        assert(s[j] == t[j]);
    }
    if u.len() > 0 {
        assert(s[t.len() as int] == u[0]);
    }
    lemma_first_sep_exact(s, t.len() as int);
    assert(s.take(t.len() as int) =~= t);
    assert(s.skip(t.len() as int) =~= u);
    assert(split_tokens(s) == seq![t] + split_tokens(u));
}

/// Splitting "a, b, c" with separator-free tokens yields the three tokens.
proof fn lemma_split_three(a: Seq<u8>, b: Seq<u8>, c: Seq<u8>)
    requires
        a.len() > 0 && b.len() > 0 && c.len() > 0,
        forall|j: int| 0 <= j < a.len() ==> !is_sep(#[trigger] a[j]),
        forall|j: int| 0 <= j < b.len() ==> !is_sep(#[trigger] b[j]),
        forall|j: int| 0 <= j < c.len() ==> !is_sep(#[trigger] c[j]),
    ensures
        split_tokens((a + seq![0x2Cu8, 0x20u8] + b) + seq![0x2Cu8, 0x20u8] + c) == seq![a, b, c],
{
    let text = (a + seq![0x2Cu8, 0x20u8] + b) + seq![0x2Cu8, 0x20u8] + c;
    let u_c = seq![0x20u8] + c;
    let u_bc = seq![0x20u8] + (b + (seq![0x2Cu8] + u_c));
    assert(text =~= a + (seq![0x2Cu8] + u_bc));
    lemma_split_head(a, seq![0x2Cu8] + u_bc);
    assert((seq![0x2Cu8] + u_bc)[0] == 0x2Cu8);
    assert((seq![0x2Cu8] + u_bc).drop_first() =~= u_bc);
    assert(u_bc[0] == 0x20u8);
    assert(u_bc.drop_first() =~= b + (seq![0x2Cu8] + u_c));
    lemma_split_head(b, seq![0x2Cu8] + u_c);
    assert((seq![0x2Cu8] + u_c)[0] == 0x2Cu8);
    assert((seq![0x2Cu8] + u_c).drop_first() =~= u_c);
    assert(u_c[0] == 0x20u8);
    assert(u_c.drop_first() =~= c);
    lemma_split_head(c, Seq::<u8>::empty());
    assert(c + Seq::<u8>::empty() =~= c);
    assert(split_tokens(Seq::<u8>::empty()) =~= Seq::<Seq<u8>>::empty());
    assert(split_tokens(c) =~= seq![c]);
    assert(split_tokens(u_c) == split_tokens(c));
    assert(split_tokens(seq![0x2Cu8] + u_c) == split_tokens(u_c));
    assert(split_tokens(b + (seq![0x2Cu8] + u_c)) == seq![b] + split_tokens(seq![0x2Cu8] + u_c));
    assert(split_tokens(u_bc) == split_tokens(b + (seq![0x2Cu8] + u_c)));
    assert(split_tokens(seq![0x2Cu8] + u_bc) == split_tokens(u_bc));
    assert(split_tokens(text) == seq![a] + split_tokens(seq![0x2Cu8] + u_bc));
    assert(seq![a] + (seq![b] + seq![c]) =~= seq![a, b, c]);
    assert(split_tokens(text) =~= seq![a, b, c]);
}

/// Round trip of the float-array syntax: formatting any three channel
/// values (three equal channels collapse to a single scalar) and parsing
/// the text yields the same three values, for values whose integer part has
/// at most twelve digits.
#[verifier::rlimit(100)]
pub proof fn lemma_float_array_round_trip(s: Seq<int>)
    requires
        s.len() == 3,
        forall|i: int| 0 <= i < 3 ==> -999999999999999999 <= #[trigger] s[i] <= 999999999999999999,
    ensures
        spec_parse_float_array(fmt_float_array(s)) == Some(s),
{
    if s[0] == s[1] && s[1] == s[2] {
        let text = fmt_micros(s[0]);
        assert(fmt_float_array(s) == text);
        lemma_fmt_micros_clean(s[0]);
        crate::fixed::lemma_micros_round_trip(s[0]);
        assert(parse_micros(spec_trim(text)) == Some(s[0]));
        assert(seq![s[0], s[0], s[0]] =~= s);
    } else {
        let a = fmt_micros(s[0]);
        let b = fmt_micros(s[1]);
        let c = fmt_micros(s[2]);
        lemma_fmt_micros_clean(s[0]);
        lemma_fmt_micros_clean(s[1]);
        lemma_fmt_micros_clean(s[2]);
        crate::fixed::lemma_micros_round_trip(s[0]);
        crate::fixed::lemma_micros_round_trip(s[1]);
        crate::fixed::lemma_micros_round_trip(s[2]);
        let text = fmt_float_array(s);
        assert(s.drop_last() =~= seq![s[0], s[1]]);
        assert(seq![s[0], s[1]].drop_last() =~= seq![s[0]]);
        assert(fmt_join(seq![s[0]]) == a);
        assert(fmt_join(seq![s[0], s[1]]) == a + seq![0x2Cu8, 0x20u8] + b);
        assert(text == (a + seq![0x2Cu8, 0x20u8] + b) + seq![0x2Cu8, 0x20u8] + c);
        assert(seq_contains(text, seq![0x20u8])) by {
            let w = a.len() as int + 1;
            assert(text[w] == 0x20u8);
            assert(text.subrange(w, w + 1) =~= seq![0x20u8]);
        }
        lemma_split_three(a, b, c);
        let toks = split_tokens(text);
        assert(toks.len() == 3);
        assert(toks[0] == a && toks[1] == b && toks[2] == c);
        assert(parse_micros(spec_trim(a)) == Some(s[0]));
        assert(parse_micros(spec_trim(b)) == Some(s[1]));
        assert(parse_micros(spec_trim(c)) == Some(s[2]));
        assert(seq![s[0], s[1], s[2]] =~= s);
    }
}

/// The local name of the serialized gain-map-max attribute.
proof fn lemma_local_gain_map_max()
    ensures
        spec_local_name(vstd::utf8::encode_utf8("hdrgm:GainMapMax"@)) == vstd::utf8::encode_utf8(
            "GainMapMax"@,
        ),
        vstd::utf8::encode_utf8("hdrgm:GainMapMax"@).len() == 16,
        vstd::utf8::encode_utf8("GainMapMax"@).len() == 10,
{
    broadcast use vstd::string::group_string_axioms;

    reveal_strlit("hdrgm:GainMapMax");
    reveal_strlit("GainMapMax");
    let full = "hdrgm:GainMapMax"@;
    let local = "GainMapMax"@;
    assert(full.len() == 16);
    assert(local.len() == 10);
    assert(vstd::utf8::is_ascii_chars(full)) by {
        assert forall|i: int| 0 <= i < full.len() implies '\0' <= #[trigger] full[i]
            <= '\u{7f}' by {}
    }
    assert(vstd::utf8::is_ascii_chars(local)) by {
        assert forall|i: int| 0 <= i < local.len() implies '\0' <= #[trigger] local[i]
            <= '\u{7f}' by {}
    }
    vstd::utf8::is_ascii_chars_encode_utf8(full);
    vstd::utf8::is_ascii_chars_encode_utf8(local);
    let b = vstd::utf8::encode_utf8(full);
    assert(b.len() == 16);
    assert(full[5] == ':');
    assert(b[5] == 0x3Au8);
    assert forall|j: int| 5 < j < 16 implies b[j] != 0x3Au8 by {
        assert(full[j] as u8 == b[j]);
    }
    lemma_after_last_colon_at(b, 5);
    assert(spec_local_name(b) =~= vstd::utf8::encode_utf8(local)) by {
        assert forall|t: int| 0 <= t < 10 implies b.skip(6)[t] == vstd::utf8::encode_utf8(
            local,
        )[t] by {
            assert(b.skip(6)[t] == b[6 + t]);
            assert(b[6 + t] == full[6 + t] as u8);
            assert(vstd::utf8::encode_utf8(local)[t] == local[t] as u8);
            assert(full[6 + t] == local[t]);
        }
    }
}

/// Field round trip, shown for the gain-map-max attribute: applying the
/// serialized form of any three channel values to any metadata record
/// restores exactly those values in that field. The other fields dispatch
/// through the same machinery over [`spec_parse_float_array`] and
/// [`crate::fixed::parse_micros`].
pub proof fn lemma_xmp_field_round_trip(m: MetadataModel, s: Seq<int>)
    requires
        s.len() == 3,
        forall|i: int| 0 <= i < 3 ==> -999999999999999999 <= #[trigger] s[i] <= 999999999999999999,
    ensures
        spec_apply_field(m, vstd::utf8::encode_utf8("hdrgm:GainMapMax"@), fmt_float_array(s))
            == Some((MetadataModel { gain_map_max: s, ..m })),
{
    broadcast use vstd::string::group_string_axioms;

    lemma_local_gain_map_max();
    let local = spec_local_name(vstd::utf8::encode_utf8("hdrgm:GainMapMax"@));
    // The dispatch passes the arms for shorter or longer local names.
    reveal_strlit("Version");
    assert(vstd::utf8::is_ascii_chars("Version"@)) by {
        assert forall|i: int| 0 <= i < "Version"@.len() implies '\0' <= #[trigger] "Version"@[i]
            <= '\u{7f}' by {}
    }
    vstd::utf8::is_ascii_chars_encode_utf8("Version"@);
    assert(vstd::utf8::encode_utf8("Version"@).len() == 7);
    assert(local != vstd::utf8::encode_utf8("Version"@));
    reveal_strlit("BaseRenditionIsHDR");
    assert(vstd::utf8::is_ascii_chars("BaseRenditionIsHDR"@)) by {
        assert forall|i: int|
            0 <= i < "BaseRenditionIsHDR"@.len() implies '\0'
            <= #[trigger] "BaseRenditionIsHDR"@[i] <= '\u{7f}' by {}
    }
    vstd::utf8::is_ascii_chars_encode_utf8("BaseRenditionIsHDR"@);
    assert(vstd::utf8::encode_utf8("BaseRenditionIsHDR"@).len() == 18);
    assert(local != vstd::utf8::encode_utf8("BaseRenditionIsHDR"@));
    reveal_strlit("GainMapMin");
    assert(vstd::utf8::is_ascii_chars("GainMapMin"@)) by {
        assert forall|i: int|
            0 <= i < "GainMapMin"@.len() implies '\0' <= #[trigger] "GainMapMin"@[i]
            <= '\u{7f}' by {}
    }
    vstd::utf8::is_ascii_chars_encode_utf8("GainMapMin"@);
    reveal_strlit("GainMapMax");
    assert(vstd::utf8::is_ascii_chars("GainMapMax"@)) by {
        assert forall|i: int|
            0 <= i < "GainMapMax"@.len() implies '\0' <= #[trigger] "GainMapMax"@[i]
            <= '\u{7f}' by {}
    }
    vstd::utf8::is_ascii_chars_encode_utf8("GainMapMax"@);
    assert(local != vstd::utf8::encode_utf8("GainMapMin"@)) by {
        assert("GainMapMax"@[7] == 'M' && "GainMapMax"@[8] == 'a' && "GainMapMax"@[9] == 'x');
        assert("GainMapMin"@[9] == 'n');
        assert(vstd::utf8::encode_utf8("GainMapMin"@).len() == 10);
        assert(vstd::utf8::encode_utf8("GainMapMin"@)[9] == 'n' as u8);
        assert(local[9] == 'x' as u8);
    }
    assert(local == vstd::utf8::encode_utf8("GainMapMax"@));
    lemma_float_array_round_trip(s);
}

} // verus!
