use crate::error::{Failure, ImportGltfError};
use vstd::prelude::*;

verus! {

/// Whether `text` begins with `prefix`.
pub open spec fn has_prefix(text: Seq<u8>, prefix: Seq<u8>) -> bool {
    prefix.len() <= text.len() && text.subrange(0, prefix.len() as int) == prefix
}

/// Whether `text` ends with `suffix`.
pub open spec fn has_suffix(text: Seq<u8>, suffix: Seq<u8>) -> bool {
    suffix.len() <= text.len() && text.subrange(text.len() - suffix.len(), text.len() as int)
        == suffix
}

/// The position of the first `byte` in `text`, or the length of `text` if it holds none.
pub open spec fn first_pos(text: Seq<u8>, byte: u8) -> int
    decreases text.len(),
{
    if text.len() == 0 || text[0] == byte {
        0
    } else {
        1 + first_pos(text.drop_first(), byte)
    }
}

/// `first_pos` is the least position that holds `byte`.
pub proof fn lemma_first_pos(text: Seq<u8>, byte: u8)
    ensures
        0 <= first_pos(text, byte) <= text.len(),
        first_pos(text, byte) < text.len() ==> text[first_pos(text, byte)] == byte,
        forall|k: int| 0 <= k < first_pos(text, byte) ==> text[k] != byte,
    decreases text.len(),
{
    if text.len() == 0 || text[0] == byte {
    } else {
        let rest = text.drop_first();
        lemma_first_pos(rest, byte);
        assert forall|k: int| 0 <= k < first_pos(text, byte) implies text[k] != byte by {
            if k > 0 {
                assert(text[k] == rest[k - 1]);
            }
        }
    }
}

/// A position that holds `byte` and has none before it is `first_pos`.
pub proof fn lemma_first_pos_unique(text: Seq<u8>, byte: u8, i: int)
    requires
        0 <= i <= text.len(),
        i < text.len() ==> text[i] == byte,
        forall|k: int| 0 <= k < i ==> text[k] != byte,
    ensures
        first_pos(text, byte) == i,
{
    lemma_first_pos(text, byte);
}

/// `data:`
pub open spec fn data_scheme() -> Seq<u8> {
    seq![0x64u8, 0x61u8, 0x74u8, 0x61u8, 0x3au8]
}

/// `base64`
pub open spec fn base64_marker() -> Seq<u8> {
    seq![0x62u8, 0x61u8, 0x73u8, 0x65u8, 0x36u8, 0x34u8]
}

/// `;`
pub const SEMICOLON: u8 = 0x3b;

/// `,`
pub const COMMA: u8 = 0x2c;

/// `/`
pub const SLASH: u8 = 0x2f;

/// Whether a reference string holds its content inline.
pub open spec fn is_data_uri(uri: Seq<u8>) -> bool {
    has_prefix(uri, data_scheme())
}

/// The two ends of the media type and the start of the payload of an inline reference
/// `data:<media type>;base64,<payload>`: the media type lies between `data:` and the
/// first semicolon, the payload behind the first comma, and `base64` alone between
/// the two. `None` where the reference is not of that form.
pub open spec fn data_uri_marks(uri: Seq<u8>) -> Option<(int, int)> {
    let semicolon = first_pos(uri, SEMICOLON);
    let comma = first_pos(uri, COMMA);
    if is_data_uri(uri) && 5 <= semicolon < comma < uri.len() && uri.subrange(
        semicolon + 1,
        comma,
    ) == base64_marker() {
        Some((semicolon, comma + 1))
    } else {
        None
    }
}

/// The media type of a well-formed inline reference.
pub open spec fn data_uri_mime(uri: Seq<u8>) -> Seq<u8>
    recommends
        data_uri_marks(uri) is Some,
{
    uri.subrange(5, data_uri_marks(uri).unwrap().0)
}

/// The base64 text of a well-formed inline reference.
pub open spec fn data_uri_payload(uri: Seq<u8>) -> Seq<u8>
    recommends
        data_uri_marks(uri) is Some,
{
    uri.subrange(data_uri_marks(uri).unwrap().1, uri.len() as int)
}

/// Whether `text` begins with `prefix`.
pub fn starts_with(text: &[u8], prefix: &[u8]) -> (r: bool)
    ensures
        r == has_prefix(text@, prefix@),
{
    if prefix.len() > text.len() {
        return false;
    }
    let mut i: usize = 0;
    while i < prefix.len()
        invariant
            i <= prefix.len() <= text.len(),
            forall|k: int| 0 <= k < i ==> text@[k] == prefix@[k],
        decreases prefix.len() - i,
    {
        if text[i] != prefix[i] {
            return false;
        }
        i += 1;
    }
    proof {
        assert(text@.subrange(0, prefix@.len() as int) =~= prefix@);
    }
    true
}

/// Whether `text` ends with `suffix`.
pub fn ends_with(text: &[u8], suffix: &[u8]) -> (r: bool)
    ensures
        r == has_suffix(text@, suffix@),
{
    if suffix.len() > text.len() {
        return false;
    }
    let start = text.len() - suffix.len();
    let mut i: usize = 0;
    while i < suffix.len()
        invariant
            i <= suffix.len() <= text.len(),
            start == text.len() - suffix.len(),
            forall|k: int| 0 <= k < i ==> text@[start + k] == suffix@[k],
        decreases suffix.len() - i,
    {
        if text[start + i] != suffix[i] {
            return false;
        }
        i += 1;
    }
    proof {
        assert(text@.subrange(start as int, text@.len() as int) =~= suffix@);
    }
    true
}

/// The position of the first `byte` in `text`.
pub fn find_byte(text: &[u8], byte: u8) -> (pos: usize)
    ensures
        pos == first_pos(text@, byte),
{
    let mut i: usize = 0;
    while i < text.len()
        invariant
            i <= text.len(),
            forall|k: int| 0 <= k < i ==> text@[k] != byte,
        decreases text.len() - i,
    {
        if text[i] == byte {
            proof {
                lemma_first_pos_unique(text@, byte, i as int);
            }
            return i;
        }
        i += 1;
    }
    proof {
        lemma_first_pos_unique(text@, byte, i as int);
    }
    i
}

/// The bytes of `text` from `from` up to `to`.
pub fn copy_range(text: &[u8], from: usize, to: usize) -> (bytes: Vec<u8>)
    requires
        from <= to <= text@.len(),
    ensures
        bytes@ == text@.subrange(from as int, to as int),
{
    let mut bytes: Vec<u8> = Vec::new();
    let mut i: usize = from;
    while i < to
        invariant
            from <= i <= to <= text@.len(),
            bytes@ == text@.subrange(from as int, i as int),
        decreases to - i,
    {
        bytes.push(text[i]);
        i += 1;
    }
    bytes
}

/// Where the media type ends and where the payload starts in an inline reference.
pub fn split_data_uri(uri: &[u8]) -> (marks: Option<(usize, usize)>)
    ensures
        match marks {
            Some((mime_end, payload_start)) => data_uri_marks(uri@) == Some(
                (mime_end as int, payload_start as int),
            ),
            None => data_uri_marks(uri@) is None,
        },
{
    let scheme: Vec<u8> = vec![0x64u8, 0x61u8, 0x74u8, 0x61u8, 0x3au8];
    let marker: Vec<u8> = vec![0x62u8, 0x61u8, 0x73u8, 0x65u8, 0x36u8, 0x34u8];
    if !starts_with(uri, scheme.as_slice()) {
        return None;
    }
    let semicolon = find_byte(uri, SEMICOLON);
    let comma = find_byte(uri, COMMA);
    if !(5 <= semicolon && semicolon < comma && comma < uri.len()) {
        return None;
    }
    let between = copy_range(uri, semicolon + 1, comma);
    if between.len() != marker.len() {
        return None;
    }
    if !starts_with(between.as_slice(), marker.as_slice()) {
        proof {
            assert(between@.subrange(0, marker@.len() as int) =~= between@);
        }
        return None;
    }
    proof {
        assert(between@.subrange(0, marker@.len() as int) =~= between@);
    }
    Some((semicolon, comma + 1))
}

/// `base64::DecodeError`, the decoder's account of a failure.
#[verifier::external_type_specification]
#[verifier::external_body]
pub struct ExDecodeError(base64::DecodeError);

/// The bytes that a base64 text in the standard alphabet stands for; `None` where the
/// decoder refuses the text.
pub uninterp spec fn base64_decoded(text: Seq<u8>) -> Option<Seq<u8>>;

/// `base64::decode`: the decoded bytes, or the decoder's error. The text is short
/// enough for the length arithmetic of the decoder.
#[verifier::external_body]
fn base64_decode(text: &[u8]) -> (r: Result<Vec<u8>, base64::DecodeError>)
    requires
        text@.len() + 7 <= usize::MAX,
    ensures
        match r {
            Ok(bytes) => base64_decoded(text@) == Some(bytes@),
            Err(_) => base64_decoded(text@) is None,
        },
{
    base64::decode(text)
}

/// What an inline reference holds: its decoded bytes and its media type. `None` where
/// the reference is malformed or its payload is not base64.
pub open spec fn data_uri_content(uri: Seq<u8>) -> Option<(Seq<u8>, Seq<u8>)> {
    if data_uri_marks(uri) is Some {
        match base64_decoded(data_uri_payload(uri)) {
            Some(bytes) => Some((bytes, data_uri_mime(uri))),
            None => None,
        }
    } else {
        None
    }
}

/// The decoded bytes and the media type of an inline reference.
pub fn data_uri_to_bytes_and_type(uri: &[u8]) -> (r: Result<(Vec<u8>, Vec<u8>), ImportGltfError>)
    ensures
        match r {
            Ok((bytes, mime)) => data_uri_content(uri@) == Some((bytes@, mime@)),
            Err(e) => data_uri_content(uri@) is None && e@ == Failure::EncodingError,
        },
{
    match split_data_uri(uri) {
        None => Err(ImportGltfError::EncodingError),
        Some((mime_end, payload_start)) => {
            let payload = copy_range(uri, payload_start, uri.len());
            match base64_decode(payload.as_slice()) {
                Ok(bytes) => {
                    let mime = copy_range(uri, 5, mime_end);
                    Ok((bytes, mime))
                },
                Err(_) => Err(ImportGltfError::EncodingError),
            }
        },
    }
}

} // verus!
