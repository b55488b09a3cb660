//! Content-type sniffing by leading signature bytes, and `data:` URIs.
use vstd::prelude::*;

verus! {

/// Number of entries in the signature table.
pub const SIGNATURE_COUNT: usize = 19;

/// The signature bytes of table entry `i`; `None` stands for any byte
/// (container formats such as RIFF carry a length field there).
pub open spec fn signature(i: int) -> Seq<Option<u8>> {
    if i == 0 {
        seq![Some(0x47u8), Some(0x49u8), Some(0x46u8), Some(0x38u8), Some(0x37u8), Some(0x61u8)]
    } else if i == 1 {
        seq![Some(0x47u8), Some(0x49u8), Some(0x46u8), Some(0x38u8), Some(0x39u8), Some(0x61u8)]
    } else if i == 2 {
        seq![Some(0xffu8), Some(0xd8u8), Some(0xffu8)]
    } else if i == 3 {
        seq![Some(0x89u8), Some(0x50u8), Some(0x4eu8), Some(0x47u8), Some(0x0du8), Some(0x0au8), Some(0x1au8), Some(0x0au8)]
    } else if i == 4 {
        seq![Some(0x3cu8), Some(0x3fu8), Some(0x78u8), Some(0x6du8), Some(0x6cu8), Some(0x20u8)]
    } else if i == 5 {
        seq![Some(0x3cu8), Some(0x73u8), Some(0x76u8), Some(0x67u8), Some(0x20u8)]
    } else if i == 6 {
        seq![Some(0x52u8), Some(0x49u8), Some(0x46u8), Some(0x46u8), None, None, None, None, Some(0x57u8), Some(0x45u8), Some(0x42u8), Some(0x50u8), Some(0x56u8), Some(0x50u8), Some(0x38u8), Some(0x20u8)]
    } else if i == 7 {
        seq![Some(0x00u8), Some(0x00u8), Some(0x01u8), Some(0x00u8)]
    } else if i == 8 {
        seq![Some(0x49u8), Some(0x44u8), Some(0x33u8)]
    } else if i == 9 {
        seq![Some(0xffu8), Some(0x0eu8)]
    } else if i == 10 {
        seq![Some(0xffu8), Some(0x0fu8)]
    } else if i == 11 {
        seq![Some(0x4fu8), Some(0x67u8), Some(0x67u8), Some(0x53u8)]
    } else if i == 12 {
        seq![Some(0x52u8), Some(0x49u8), Some(0x46u8), Some(0x46u8), None, None, None, None, Some(0x57u8), Some(0x41u8), Some(0x56u8), Some(0x45u8), Some(0x66u8), Some(0x6du8), Some(0x74u8), Some(0x20u8)]
    } else if i == 13 {
        seq![Some(0x66u8), Some(0x4cu8), Some(0x61u8), Some(0x43u8)]
    } else if i == 14 {
        seq![Some(0x52u8), Some(0x49u8), Some(0x46u8), Some(0x46u8), None, None, None, None, Some(0x41u8), Some(0x56u8), Some(0x49u8), Some(0x20u8), Some(0x4cu8), Some(0x49u8), Some(0x53u8), Some(0x54u8)]
    } else if i == 15 {
        seq![None, None, None, None, Some(0x66u8), Some(0x74u8), Some(0x79u8), Some(0x70u8)]
    } else if i == 16 {
        seq![Some(0x00u8), Some(0x00u8), Some(0x01u8), Some(0x0bu8)]
    } else if i == 17 {
        seq![None, None, None, None, Some(0x6du8), Some(0x6fu8), Some(0x6fu8), Some(0x76u8)]
    } else if i == 18 {
        seq![Some(0x1au8), Some(0x45u8), Some(0xdfu8), Some(0xa3u8)]
    } else {
        Seq::empty()
    }
}

/// The mime type of table entry `i`.
pub open spec fn signature_mime(i: int) -> Seq<char> {
    if i == 0 {
        "image/gif"@
    } else if i == 1 {
        "image/gif"@
    } else if i == 2 {
        "image/jpeg"@
    } else if i == 3 {
        "image/png"@
    } else if i == 4 {
        "image/svg+xml"@
    } else if i == 5 {
        "image/svg+xml"@
    } else if i == 6 {
        "image/webp"@
    } else if i == 7 {
        "image/x-icon"@
    } else if i == 8 {
        "audio/mpeg"@
    } else if i == 9 {
        "audio/mpeg"@
    } else if i == 10 {
        "audio/mpeg"@
    } else if i == 11 {
        "audio/ogg"@
    } else if i == 12 {
        "audio/wav"@
    } else if i == 13 {
        "audio/x-flac"@
    } else if i == 14 {
        "video/avi"@
    } else if i == 15 {
        "video/mp4"@
    } else if i == 16 {
        "video/mpeg"@
    } else if i == 17 {
        "video/quicktime"@
    } else if i == 18 {
        "video/webm"@
    } else {
        Seq::empty()
    }
}

/// `data` starts with the signature `sig`.
pub open spec fn matches_signature(data: Seq<u8>, sig: Seq<Option<u8>>) -> bool {
    &&& sig.len() <= data.len()
    &&& forall|k: int| 0 <= k < sig.len() ==> (sig[k] is None || sig[k] == Some(data[k]))
}

/// The mime type of the first table entry from `i` on that `data` matches,
/// or the empty sequence.
pub open spec fn sniff_from(data: Seq<u8>, i: int) -> Seq<char>
    decreases SIGNATURE_COUNT - i,
{
    if i < 0 || i >= SIGNATURE_COUNT {
        Seq::empty()
    } else if matches_signature(data, signature(i)) {
        signature_mime(i)
    } else {
        sniff_from(data, i + 1)
    }
}

/// The classification of `data` by the signature table, scanned in table order.
pub open spec fn sniffed_mime(data: Seq<u8>) -> Seq<char> {
    sniff_from(data, 0)
}

/// The mime type used in a data URI: the explicit one unless it is empty.
pub open spec fn effective_mime(mime: Seq<char>, data: Seq<u8>) -> Seq<char> {
    if mime.len() == 0 {
        sniffed_mime(data)
    } else {
        mime
    }
}

/// Standard base64 (with padding) of a byte sequence.
pub uninterp spec fn base64_text(data: Seq<u8>) -> Seq<char>;

/// `data:<mime>;base64,<payload>`.
pub open spec fn data_url(mime: Seq<char>, data: Seq<u8>) -> Seq<char> {
    "data:"@ + effective_mime(mime, data) + ";base64,"@ + base64_text(data)
}

fn signature_entry(i: usize) -> (r: (Vec<Option<u8>>, &'static str))
    requires
        i < SIGNATURE_COUNT,
    ensures
        r.0@ == signature(i as int),
        r.1@ == signature_mime(i as int),
{
    match i {
        0 => (vec![Some(0x47u8), Some(0x49u8), Some(0x46u8), Some(0x38u8), Some(0x37u8), Some(0x61u8)], "image/gif"),
        1 => (vec![Some(0x47u8), Some(0x49u8), Some(0x46u8), Some(0x38u8), Some(0x39u8), Some(0x61u8)], "image/gif"),
        2 => (vec![Some(0xffu8), Some(0xd8u8), Some(0xffu8)], "image/jpeg"),
        3 => (vec![Some(0x89u8), Some(0x50u8), Some(0x4eu8), Some(0x47u8), Some(0x0du8), Some(0x0au8), Some(0x1au8), Some(0x0au8)], "image/png"),
        4 => (vec![Some(0x3cu8), Some(0x3fu8), Some(0x78u8), Some(0x6du8), Some(0x6cu8), Some(0x20u8)], "image/svg+xml"),
        5 => (vec![Some(0x3cu8), Some(0x73u8), Some(0x76u8), Some(0x67u8), Some(0x20u8)], "image/svg+xml"),
        6 => (vec![Some(0x52u8), Some(0x49u8), Some(0x46u8), Some(0x46u8), None, None, None, None, Some(0x57u8), Some(0x45u8), Some(0x42u8), Some(0x50u8), Some(0x56u8), Some(0x50u8), Some(0x38u8), Some(0x20u8)], "image/webp"),
        7 => (vec![Some(0x00u8), Some(0x00u8), Some(0x01u8), Some(0x00u8)], "image/x-icon"),
        8 => (vec![Some(0x49u8), Some(0x44u8), Some(0x33u8)], "audio/mpeg"),
        9 => (vec![Some(0xffu8), Some(0x0eu8)], "audio/mpeg"),
        10 => (vec![Some(0xffu8), Some(0x0fu8)], "audio/mpeg"),
        11 => (vec![Some(0x4fu8), Some(0x67u8), Some(0x67u8), Some(0x53u8)], "audio/ogg"),
        12 => (vec![Some(0x52u8), Some(0x49u8), Some(0x46u8), Some(0x46u8), None, None, None, None, Some(0x57u8), Some(0x41u8), Some(0x56u8), Some(0x45u8), Some(0x66u8), Some(0x6du8), Some(0x74u8), Some(0x20u8)], "audio/wav"),
        13 => (vec![Some(0x66u8), Some(0x4cu8), Some(0x61u8), Some(0x43u8)], "audio/x-flac"),
        14 => (vec![Some(0x52u8), Some(0x49u8), Some(0x46u8), Some(0x46u8), None, None, None, None, Some(0x41u8), Some(0x56u8), Some(0x49u8), Some(0x20u8), Some(0x4cu8), Some(0x49u8), Some(0x53u8), Some(0x54u8)], "video/avi"),
        15 => (vec![None, None, None, None, Some(0x66u8), Some(0x74u8), Some(0x79u8), Some(0x70u8)], "video/mp4"),
        16 => (vec![Some(0x00u8), Some(0x00u8), Some(0x01u8), Some(0x0bu8)], "video/mpeg"),
        17 => (vec![None, None, None, None, Some(0x6du8), Some(0x6fu8), Some(0x6fu8), Some(0x76u8)], "video/quicktime"),
        18 => (vec![Some(0x1au8), Some(0x45u8), Some(0xdfu8), Some(0xa3u8)], "video/webm"),
        _ => (vec![Some(0x1au8), Some(0x45u8), Some(0xdfu8), Some(0xa3u8)], "video/webm"),
    }
}

fn starts_with_signature(data: &[u8], sig: &Vec<Option<u8>>) -> (r: bool)
    ensures
        r == matches_signature(data@, sig@),
{
    if sig.len() > data.len() {
        return false;
    }
    let mut k: usize = 0;
    while k < sig.len()
        invariant
            sig@.len() <= data@.len(),
            k <= sig@.len(),
            forall|j: int| 0 <= j < k ==> (sig@[j] is None || sig@[j] == Some(data@[j])),
        decreases sig@.len() - k,
    {
        match sig[k] {
            Some(b) => {
                if b != data[k] {
                    return false;
                }
            },
            None => {},
        }
        k = k + 1;
    }
    true
}

/// Classify `data` by its leading bytes; the first matching table entry wins,
/// and no match gives the empty string.
pub fn detect_mimetype(data: &[u8]) -> (r: &'static str)
    ensures
        r@ == sniffed_mime(data@),
{
    let mut i: usize = 0;
    while i < SIGNATURE_COUNT
        invariant
            i <= SIGNATURE_COUNT,
            sniff_from(data@, 0) == sniff_from(data@, i as int),
        decreases SIGNATURE_COUNT - i,
    {
        let (sig, mime) = signature_entry(i);
        if starts_with_signature(data, &sig) {
            return mime;
        }
        i = i + 1;
    }
    proof {
        reveal_strlit("");
    }
    ""
}

/// Relies on base64::encode: standard alphabet with padding, as a `String`.
#[verifier::external_body]
fn encode_base64(data: &[u8]) -> (r: String)
    ensures
        r@ == base64_text(data@),
{
    base64::encode(data)
}

/// Encode `data` as a `data:` URI under `mime`, or under the sniffed type when
/// `mime` is empty.
pub fn data_to_dataurl(mime: &str, data: &[u8]) -> (r: String)
    ensures
        r@ == data_url(mime@, data@),
{
    let mimetype: &str = if mime.is_empty() {
        detect_mimetype(data)
    } else {
        mime
    };
    let mut out = String::from_str("data:");
    out.append(mimetype);
    out.append(";base64,");
    let payload = encode_base64(data);
    out.append(payload.as_str());
    out
}

} // verus!

verus! {

/// Relies on std::str::from_utf8: `Ok` exactly for well-formed UTF-8, holding
/// the decoded characters.
#[verifier::external_body]
pub(crate) fn decode_utf8_text(bytes: &[u8]) -> (r: Option<String>)
    ensures
        r is Some <==> vstd::utf8::valid_utf8(bytes@),
        r is Some ==> r->0@ == vstd::utf8::decode_utf8(bytes@),
{
    match std::str::from_utf8(bytes) {
        Ok(s) => Some(s.to_owned()),
        Err(_) => None,
    }
}

} // verus!
