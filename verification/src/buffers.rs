use crate::data_uri::{
    copy_range, data_scheme, data_uri_content, data_uri_to_bytes_and_type, is_data_uri,
    starts_with, SLASH,
};
use crate::document::BufferSource;
use crate::error::{Failure, ImportGltfError};
use vstd::prelude::*;

verus! {

/// The bytes of each row.
pub open spec fn byte_rows(rows: Seq<Vec<u8>>) -> Seq<Seq<u8>> {
    rows.map_values(|row: Vec<u8>| row@)
}

/// The bytes of a file, where there is one.
pub open spec fn file_bytes(file: Option<Vec<u8>>) -> Option<Seq<u8>> {
    match file {
        Some(bytes) => Some(bytes@),
        None => None,
    }
}

/// The path of the file that a reference string names, beside the asset: the base
/// directory, a slash, the reference. An inline reference names no file.
pub open spec fn external_path(base_path: Seq<u8>, uri: Seq<u8>) -> Option<Seq<u8>> {
    if is_data_uri(uri) {
        None
    } else {
        Some(base_path + seq![SLASH] + uri)
    }
}

/// The path of the file whose bytes `import_gltf_buffer` and `import_gltf_image` expect
/// for this reference string, if they expect any.
pub fn external_file_path(base_path: &[u8], uri: &[u8]) -> (path: Option<Vec<u8>>)
    ensures
        file_bytes(path) == external_path(base_path@, uri@),
{
    let scheme: Vec<u8> = vec![0x64u8, 0x61u8, 0x74u8, 0x61u8, 0x3au8];
    if starts_with(uri, scheme.as_slice()) {
        return None;
    }
    let mut path = copy_range(base_path, 0, base_path.len());
    path.push(SLASH);
    let mut i: usize = 0;
    while i < uri.len()
        invariant
            i <= uri.len(),
            path@ == base_path@ + seq![SLASH] + uri@.take(i as int),
        decreases uri.len() - i,
    {
        path.push(uri[i]);
        i += 1;
    }
    Some(path)
}

/// The bytes of a buffer, given the embedded binary section that is left and the bytes
/// of the file that the buffer's reference names (`None` where it could not be read).
pub open spec fn buffer_outcome(
    source: BufferSource,
    blob: Option<Seq<u8>>,
    file: Option<Seq<u8>>,
) -> Result<Seq<u8>, Failure> {
    match source {
        BufferSource::Bin => match blob {
            Some(bytes) => Ok(bytes),
            None => Err(Failure::BinSectionMissing),
        },
        BufferSource::Uri(uri) => if is_data_uri(uri@) {
            match data_uri_content(uri@) {
                Some((bytes, _)) => Ok(bytes),
                None => Err(Failure::EncodingError),
            }
        } else {
            match file {
                Some(bytes) => Ok(bytes),
                None => Err(Failure::IOError),
            }
        },
    }
}

/// The embedded binary section that is left once a buffer has been resolved: the
/// buffer that refers to it takes it.
pub open spec fn blob_after(source: BufferSource, blob: Option<Seq<u8>>) -> Option<Seq<u8>> {
    match source {
        BufferSource::Bin => None,
        BufferSource::Uri(_) => blob,
    }
}

/// Resolves one buffer to its bytes.
pub fn import_gltf_buffer(
    source: &BufferSource,
    blob: &mut Option<Vec<u8>>,
    file: &Option<Vec<u8>>,
) -> (r: Result<Vec<u8>, ImportGltfError>)
    ensures
        file_bytes(*final(blob)) == blob_after(*source, file_bytes(*old(blob))),
        match r {
            Ok(bytes) => buffer_outcome(*source, file_bytes(*old(blob)), file_bytes(*file)) == Ok::<
                Seq<u8>,
                Failure,
            >(bytes@),
            Err(e) => buffer_outcome(*source, file_bytes(*old(blob)), file_bytes(*file)) == Err::<
                Seq<u8>,
                Failure,
            >(e@),
        },
{
    match source {
        BufferSource::Bin => {
            match blob.take() {
                Some(bytes) => Ok(bytes),
                None => Err(ImportGltfError::BinSectionMissing),
            }
        },
        BufferSource::Uri(uri) => {
            let scheme: Vec<u8> = vec![0x64u8, 0x61u8, 0x74u8, 0x61u8, 0x3au8];
            if starts_with(uri.as_slice(), scheme.as_slice()) {
                match data_uri_to_bytes_and_type(uri.as_slice()) {
                    Ok((bytes, _)) => Ok(bytes),
                    Err(e) => Err(e),
                }
            } else {
                match file {
                    Some(bytes) => {
                        let copy = copy_range(bytes.as_slice(), 0, bytes.len());
                        proof {
                            assert(bytes@.subrange(0, bytes@.len() as int) =~= bytes@);
                        }
                        Ok(copy)
                    },
                    None => Err(ImportGltfError::IOError),
                }
            }
        },
    }
}

/// The bytes of file `k`; a file that the list does not hold counts as unread.
pub open spec fn file_at(files: Seq<Option<Vec<u8>>>, k: int) -> Option<Seq<u8>> {
    if 0 <= k < files.len() {
        file_bytes(files[k])
    } else {
        None
    }
}

/// The embedded binary section that is left before buffer `k` is resolved.
pub open spec fn blob_before(sources: Seq<BufferSource>, blob: Option<Seq<u8>>, k: int) -> Option<
    Seq<u8>,
>
    decreases k,
{
    if k <= 0 {
        blob
    } else {
        blob_after(sources[k - 1], blob_before(sources, blob, k - 1))
    }
}

/// The outcome of resolving buffer `k` in its turn.
pub open spec fn buffer_outcome_at(
    sources: Seq<BufferSource>,
    blob: Option<Seq<u8>>,
    files: Seq<Option<Vec<u8>>>,
    k: int,
) -> Result<Seq<u8>, Failure> {
    buffer_outcome(sources[k], blob_before(sources, blob, k), file_at(files, k))
}

/// The failure of the first buffer, from buffer `from` on, that cannot be resolved.
pub open spec fn buffers_failure(
    sources: Seq<BufferSource>,
    blob: Option<Seq<u8>>,
    files: Seq<Option<Vec<u8>>>,
    from: int,
) -> Option<Failure>
    decreases sources.len() - from,
{
    if from < 0 || from >= sources.len() {
        None
    } else {
        match buffer_outcome_at(sources, blob, files, from) {
            Err(e) => Some(e),
            Ok(_) => buffers_failure(sources, blob, files, from + 1),
        }
    }
}

/// Resolves the buffers of an asset in their order. `files[k]` holds the bytes of the
/// file that buffer `k` names, or `None`. The result holds the bytes of every buffer,
/// or the failure of the first buffer that fails.
pub fn import_buffers(
    sources: &Vec<BufferSource>,
    blob: Option<Vec<u8>>,
    files: &Vec<Option<Vec<u8>>>,
) -> (r: Result<Vec<Vec<u8>>, ImportGltfError>)
    ensures
        match r {
            Ok(buffers) => {
                &&& buffers_failure(sources@, file_bytes(blob), files@, 0) is None
                &&& buffers@.len() == sources@.len()
                &&& forall|k: int|
                    0 <= k < sources@.len() ==> buffer_outcome_at(
                        sources@,
                        file_bytes(blob),
                        files@,
                        k,
                    ) == Ok::<Seq<u8>, Failure>(#[trigger] buffers@[k]@)
            },
            Err(e) => buffers_failure(sources@, file_bytes(blob), files@, 0) == Some(e@),
        },
{
    let ghost blob0 = file_bytes(blob);
    let mut section = blob;
    let mut buffers: Vec<Vec<u8>> = Vec::new();
    let mut i: usize = 0;
    while i < sources.len()
        invariant
            i <= sources@.len(),
            buffers@.len() == i,
            blob0 == file_bytes(blob),
            file_bytes(section) == blob_before(sources@, blob0, i as int),
            buffers_failure(sources@, blob0, files@, 0) == buffers_failure(
                sources@,
                blob0,
                files@,
                i as int,
            ),
            forall|k: int|
                0 <= k < i ==> buffer_outcome_at(sources@, blob0, files@, k) == Ok::<
                    Seq<u8>,
                    Failure,
                >(#[trigger] buffers@[k]@),
        decreases sources@.len() - i,
    {
        let unread: Option<Vec<u8>> = None;
        let file = if i < files.len() {
            &files[i]
        } else {
            &unread
        };
        match import_gltf_buffer(&sources[i], &mut section, file) {
            Ok(bytes) => {
                buffers.push(bytes);
            },
            Err(e) => {
                return Err(e);
            },
        }
        i += 1;
    }
    Ok(buffers)
}

} // verus!
