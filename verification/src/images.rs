use crate::buffers::{byte_rows, file_at, file_bytes};
use crate::data_uri::{
    copy_range, data_scheme, data_uri_content, data_uri_to_bytes_and_type, ends_with, has_suffix,
    is_data_uri, starts_with,
};
use crate::document::ImageSource;
use crate::error::{Failure, ImportGltfError};
use crate::resources::{ImageData, PixelFormat};
use image::GenericImageView;
use vstd::prelude::*;

verus! {

/// The image codecs that an asset may use.
#[derive(Debug, Clone, Copy, PartialEq, Eq, Structural)]
pub enum Codec {
    Png,
    Jpeg,
}

/// `image/png`
pub open spec fn png_mime() -> Seq<u8> {
    seq![0x69u8, 0x6du8, 0x61u8, 0x67u8, 0x65u8, 0x2fu8, 0x70u8, 0x6eu8, 0x67u8]
}

/// `image/jpeg`
pub open spec fn jpeg_mime() -> Seq<u8> {
    seq![0x69u8, 0x6du8, 0x61u8, 0x67u8, 0x65u8, 0x2fu8, 0x6au8, 0x70u8, 0x65u8, 0x67u8]
}

/// `application/octet-stream`
pub open spec fn unknown_mime() -> Seq<u8> {
    seq![
        0x61u8, 0x70u8, 0x70u8, 0x6cu8, 0x69u8, 0x63u8, 0x61u8, 0x74u8, 0x69u8, 0x6fu8, 0x6eu8,
        0x2fu8, 0x6fu8, 0x63u8, 0x74u8, 0x65u8, 0x74u8, 0x2du8, 0x73u8, 0x74u8, 0x72u8, 0x65u8,
        0x61u8, 0x6du8,
    ]
}

/// `.png`
pub open spec fn png_extension() -> Seq<u8> {
    seq![0x2eu8, 0x70u8, 0x6eu8, 0x67u8]
}

/// `.jpg`
pub open spec fn jpg_extension() -> Seq<u8> {
    seq![0x2eu8, 0x6au8, 0x70u8, 0x67u8]
}

/// `.jpeg`
pub open spec fn jpeg_extension() -> Seq<u8> {
    seq![0x2eu8, 0x6au8, 0x70u8, 0x65u8, 0x67u8]
}

/// The media type that a file name stands for, by its extension.
pub open spec fn inferred_mime(uri: Seq<u8>) -> Seq<u8> {
    if has_suffix(uri, png_extension()) {
        png_mime()
    } else if has_suffix(uri, jpg_extension()) || has_suffix(uri, jpeg_extension()) {
        jpeg_mime()
    } else {
        unknown_mime()
    }
}

/// The codec for a media type; only PNG and JPEG have one.
pub open spec fn codec_of(mime: Seq<u8>) -> Option<Codec> {
    if mime == jpeg_mime() {
        Some(Codec::Jpeg)
    } else if mime == png_mime() {
        Some(Codec::Png)
    } else {
        None
    }
}

/// The end of a byte range, kept at the largest `usize` where the sum is beyond it.
pub open spec fn range_end(offset: usize, length: usize) -> int {
    if offset + length > usize::MAX {
        usize::MAX as int
    } else {
        offset + length
    }
}

/// The declared media type where there is one, else the other.
pub open spec fn mime_or(declared: Option<Vec<u8>>, other: Seq<u8>) -> Seq<u8> {
    match declared {
        Some(mime) => mime@,
        None => other,
    }
}

/// The encoded bytes of an image and its media type, given the resolved buffers and
/// the bytes of the file that the image's reference names (`None` where it could not
/// be read).
pub open spec fn image_input(
    source: ImageSource,
    buffers: Seq<Seq<u8>>,
    file: Option<Seq<u8>>,
) -> Result<(Seq<u8>, Seq<u8>), Failure> {
    match source {
        ImageSource::Uri { uri, mime_type } => if is_data_uri(uri@) {
            match data_uri_content(uri@) {
                Some((bytes, parsed)) => Ok((bytes, mime_or(mime_type, parsed))),
                None => Err(Failure::EncodingError),
            }
        } else {
            match file {
                Some(bytes) => Ok((bytes, mime_or(mime_type, inferred_mime(uri@)))),
                None => Err(Failure::IOError),
            }
        },
        ImageSource::View { buffer, offset, length, view_mime_type } => if buffer
            >= buffers.len() {
            Err(Failure::UnknownBufferIndex(buffer as int))
        } else if offset + length > buffers[buffer as int].len() {
            Err(Failure::BufferRangeOutOfBounds(buffer as int, offset as int, range_end(offset, length)))
        } else {
            Ok((buffers[buffer as int].subrange(offset as int, offset + length), view_mime_type@))
        },
    }
}

fn png_mime_bytes() -> (mime: Vec<u8>)
    ensures
        mime@ == png_mime(),
{
    let mime: Vec<u8> = vec![0x69u8, 0x6du8, 0x61u8, 0x67u8, 0x65u8, 0x2fu8, 0x70u8, 0x6eu8, 0x67u8];
    mime
}

fn jpeg_mime_bytes() -> (mime: Vec<u8>)
    ensures
        mime@ == jpeg_mime(),
{
    let mime: Vec<u8> = vec![
        0x69u8, 0x6du8, 0x61u8, 0x67u8, 0x65u8, 0x2fu8, 0x6au8, 0x70u8, 0x65u8, 0x67u8,
    ];
    mime
}

fn unknown_mime_bytes() -> (mime: Vec<u8>)
    ensures
        mime@ == unknown_mime(),
{
    let mime: Vec<u8> = vec![
        0x61u8, 0x70u8, 0x70u8, 0x6cu8, 0x69u8, 0x63u8, 0x61u8, 0x74u8, 0x69u8, 0x6fu8, 0x6eu8,
        0x2fu8, 0x6fu8, 0x63u8, 0x74u8, 0x65u8, 0x74u8, 0x2du8, 0x73u8, 0x74u8, 0x72u8, 0x65u8,
        0x61u8, 0x6du8,
    ];
    mime
}

/// Whether two byte strings are the same.
pub fn same_bytes(a: &[u8], b: &[u8]) -> (same: bool)
    ensures
        same == (a@ == b@),
{
    if a.len() != b.len() {
        return false;
    }
    let same = starts_with(a, b);
    proof {
        assert(a@.subrange(0, b@.len() as int) =~= a@);
    }
    same
}

/// The media type of a file name, by its extension.
pub fn infer_mime(uri: &[u8]) -> (mime: Vec<u8>)
    ensures
        mime@ == inferred_mime(uri@),
{
    let png: Vec<u8> = vec![0x2eu8, 0x70u8, 0x6eu8, 0x67u8];
    let jpg: Vec<u8> = vec![0x2eu8, 0x6au8, 0x70u8, 0x67u8];
    let jpeg: Vec<u8> = vec![0x2eu8, 0x6au8, 0x70u8, 0x65u8, 0x67u8];
    if ends_with(uri, png.as_slice()) {
        png_mime_bytes()
    } else if ends_with(uri, jpg.as_slice()) || ends_with(uri, jpeg.as_slice()) {
        jpeg_mime_bytes()
    } else {
        unknown_mime_bytes()
    }
}

/// The codec for a media type.
pub fn codec_for(mime: &[u8]) -> (codec: Option<Codec>)
    ensures
        codec == codec_of(mime@),
{
    let jpeg = jpeg_mime_bytes();
    let png = png_mime_bytes();
    if same_bytes(mime, jpeg.as_slice()) {
        Some(Codec::Jpeg)
    } else if same_bytes(mime, png.as_slice()) {
        Some(Codec::Png)
    } else {
        None
    }
}

fn copy_mime(declared: &Option<Vec<u8>>, other: Vec<u8>) -> (mime: Vec<u8>)
    ensures
        mime@ == mime_or(*declared, other@),
{
    match declared {
        Some(m) => {
            let copy = copy_range(m.as_slice(), 0, m.len());
            copy
        },
        None => other,
    }
}

/// The encoded bytes and the media type of an image (see [`image_input`]).
pub fn read_image_input(
    source: &ImageSource,
    buffers: &Vec<Vec<u8>>,
    file: &Option<Vec<u8>>,
) -> (r: Result<(Vec<u8>, Vec<u8>), ImportGltfError>)
    ensures
        match r {
            Ok((data, mime)) => image_input(*source, byte_rows(buffers@), file_bytes(*file)) == Ok::<
                (Seq<u8>, Seq<u8>),
                Failure,
            >((data@, mime@)),
            Err(e) => image_input(*source, byte_rows(buffers@), file_bytes(*file)) == Err::<
                (Seq<u8>, Seq<u8>),
                Failure,
            >(e@),
        },
{
    match source {
        ImageSource::Uri { uri, mime_type } => {
            let scheme: Vec<u8> = vec![0x64u8, 0x61u8, 0x74u8, 0x61u8, 0x3au8];
            if starts_with(uri.as_slice(), scheme.as_slice()) {
                match data_uri_to_bytes_and_type(uri.as_slice()) {
                    Ok((bytes, parsed)) => Ok((bytes, copy_mime(mime_type, parsed))),
                    Err(e) => Err(e),
                }
            } else {
                match file {
                    Some(bytes) => {
                        let data = copy_range(bytes.as_slice(), 0, bytes.len());
                        proof {
                            assert(bytes@.subrange(0, bytes@.len() as int) =~= bytes@);
                        }
                        let inferred = infer_mime(uri.as_slice());
                        Ok((data, copy_mime(mime_type, inferred)))
                    },
                    None => Err(ImportGltfError::IOError),
                }
            }
        },
        ImageSource::View { buffer, offset, length, view_mime_type } => {
            if *buffer >= buffers.len() {
                return Err(ImportGltfError::UnknownBufferIndex(*buffer));
            }
            let bytes = &buffers[*buffer];
            let available = bytes.len();
            if *length > usize::MAX - *offset {
                return Err(
                    ImportGltfError::BufferRangeOutOfBounds(*buffer, *offset, usize::MAX),
                );
            }
            let end = *offset + *length;
            if end > available {
                return Err(ImportGltfError::BufferRangeOutOfBounds(*buffer, *offset, end));
            }
            let data = copy_range(bytes.as_slice(), *offset, end);
            let mime = copy_range(view_mime_type.as_slice(), 0, view_mime_type.len());
            proof {
                assert(view_mime_type@.subrange(0, view_mime_type@.len() as int)
                    =~= view_mime_type@);
            }
            Ok((data, mime))
        },
    }
}

/// `image::DynamicImage`, a decoded image, handed on as the decoder gave it.
#[verifier::external_type_specification]
#[verifier::external_body]
pub struct ExDynamicImage(image::DynamicImage);

/// `image::ImageError`, the decoder's account of a failure.
#[verifier::external_type_specification]
#[verifier::external_body]
pub struct ExImageError(image::ImageError);

/// The image that encoded bytes decode to with a codec, where the decoder gives one.
pub uninterp spec fn decoded_image(bytes: Seq<u8>, codec: Codec) -> Option<image::DynamicImage>;

/// Width and height of a decoded image, in pixels.
pub uninterp spec fn image_dimensions(image: image::DynamicImage) -> (u32, u32);

/// Whether a decoded image holds its pixels as 8-bit red, green, blue.
pub uninterp spec fn image_is_rgb8(image: image::DynamicImage) -> bool;

/// The pixels of a decoded image as 8-bit red, green, blue, row after row.
pub uninterp spec fn image_rgb8(image: image::DynamicImage) -> Seq<u8>;

/// The pixels of a decoded image as 8-bit red, green, blue, alpha, row after row.
pub uninterp spec fn image_rgba8(image: image::DynamicImage) -> Seq<u8>;

/// `image::load_from_memory_with_format`: the decoded image, or the decoder's error.
/// The PNG decoder refuses bytes for what they are. The JPEG decoder starts worker
/// threads and also fails where the system gives it none, so its failure says nothing
/// of the bytes.
#[verifier::external_body]
fn decode_image(bytes: &[u8], codec: Codec) -> (r: Result<image::DynamicImage, image::ImageError>)
    ensures
        match r {
            Ok(image) => decoded_image(bytes@, codec) == Some(image),
            Err(_) => codec == Codec::Png ==> decoded_image(bytes@, codec) is None,
        },
{
    let format = match codec {
        Codec::Png => image::ImageFormat::Png,
        Codec::Jpeg => image::ImageFormat::Jpeg,
    };
    image::load_from_memory_with_format(bytes, format)
}

/// `GenericImageView::dimensions` of a `DynamicImage`: its width and height.
#[verifier::external_body]
fn dimensions_of(image: &image::DynamicImage) -> (d: (u32, u32))
    ensures
        d == image_dimensions(*image),
{
    image.dimensions()
}

/// Tells the variant `DynamicImage::ImageRgb8` from the others.
#[verifier::external_body]
fn is_rgb8(image: &image::DynamicImage) -> (b: bool)
    ensures
        b == image_is_rgb8(*image),
{
    matches!(image, image::DynamicImage::ImageRgb8(_))
}

/// `DynamicImage::into_rgb8` and `ImageBuffer::into_raw`, on an image that is held as
/// 8-bit RGB already: its buffer, which covers three bytes for every pixel.
#[verifier::external_body]
fn into_rgb8_bytes(image: image::DynamicImage) -> (data: Vec<u8>)
    requires
        image_is_rgb8(image),
    ensures
        data@ == image_rgb8(image),
        data@.len() >= image_dimensions(image).0 * image_dimensions(image).1 * 3,
{
    image.into_rgb8().into_raw()
}

/// `DynamicImage::into_rgba8` and `ImageBuffer::into_raw`: the buffer of the image as
/// 8-bit RGBA, which covers four bytes for every pixel. A buffer of that size can be
/// addressed.
#[verifier::external_body]
fn into_rgba8_bytes(image: image::DynamicImage) -> (data: Vec<u8>)
    requires
        image_dimensions(image).0 * image_dimensions(image).1 * 4 <= usize::MAX,
    ensures
        data@ == image_rgba8(image),
        data@.len() >= image_dimensions(image).0 * image_dimensions(image).1 * 4,
{
    image.into_rgba8().into_raw()
}

/// The mathematical value of decoded pixels.
pub struct Pixels {
    pub data: Seq<u8>,
    pub width: u32,
    pub height: u32,
    pub format: PixelFormat,
}

impl Pixels {
    /// The buffer holds every pixel and nothing more.
    pub open spec fn covers_image(self) -> bool {
        self.data.len() == self.width * self.height * self.format.spec_channels()
    }
}

impl View for ImageData {
    type V = Pixels;

    open spec fn view(&self) -> Pixels {
        Pixels { data: self.data@, width: self.width, height: self.height, format: self.format }
    }
}

/// A decoded image in one of the two layouts that textures take: an image held as
/// 8-bit RGB keeps its three channels, every other image becomes 8-bit RGBA. `None`
/// where the four-channel buffer would be too large to address.
pub open spec fn normalized(image: image::DynamicImage) -> Option<Pixels> {
    let (width, height) = image_dimensions(image);
    if image_is_rgb8(image) {
        Some(
            Pixels {
                data: image_rgb8(image).take(width * height * 3),
                width,
                height,
                format: PixelFormat::Rgb8,
            },
        )
    } else if width * height * 4 <= usize::MAX {
        Some(
            Pixels {
                data: image_rgba8(image).take(width * height * 4),
                width,
                height,
                format: PixelFormat::Rgba8,
            },
        )
    } else {
        None
    }
}

/// The first `width * height * channels` bytes of a buffer that holds at least as
/// many.
fn cut_to_size(data: Vec<u8>, width: u32, height: u32, channels: u8) -> (cut: Vec<u8>)
    requires
        data@.len() >= width * height * channels,
    ensures
        cut@ == data@.take(width * height * channels),
        cut@.len() == width * height * channels,
{
    assert(width * height <= 0xffff_ffff * 0xffff_ffff) by (nonlinear_arith)
        requires
            0 <= width <= 0xffff_ffff,
            0 <= height <= 0xffff_ffff,
    ;
    assert(width * height * channels <= 0xffff_ffff * 0xffff_ffff * 0xff) by (nonlinear_arith)
        requires
            0 <= width * height <= 0xffff_ffff * 0xffff_ffff,
            0 <= channels <= 0xff,
    ;
    let size: u128 = (width as u128) * (height as u128) * (channels as u128);
    let mut cut = data;
    cut.truncate(size as usize);
    cut
}

/// Brings a decoded image into a three- or four-channel byte layout, with exactly the
/// bytes of its pixels.
pub fn normalize_image(image: image::DynamicImage) -> (r: Option<ImageData>)
    ensures
        match r {
            Some(pixels) => normalized(image) == Some(pixels@) && pixels@.covers_image(),
            None => normalized(image) is None,
        },
{
    let (width, height) = dimensions_of(&image);
    if is_rgb8(&image) {
        let data = cut_to_size(into_rgb8_bytes(image), width, height, 3);
        Some(ImageData { data, width, height, format: PixelFormat::Rgb8 })
    } else {
        assert(width * height <= 0xffff_ffff * 0xffff_ffff) by (nonlinear_arith)
            requires
                0 <= width <= 0xffff_ffff,
                0 <= height <= 0xffff_ffff,
        ;
        let size: u128 = (width as u128) * (height as u128) * 4;
        if size <= usize::MAX as u128 {
            let data = cut_to_size(into_rgba8_bytes(image), width, height, 4);
            Some(ImageData { data, width, height, format: PixelFormat::Rgba8 })
        } else {
            None
        }
    }
}

/// The pixels of an image of the asset, or why it has none.
pub open spec fn image_outcome(
    source: ImageSource,
    image_index: int,
    buffers: Seq<Seq<u8>>,
    file: Option<Seq<u8>>,
) -> Result<Pixels, Failure> {
    match image_input(source, buffers, file) {
        Err(e) => Err(e),
        Ok((data, mime)) => match codec_of(mime) {
            None => Err(Failure::UnsupportedImageFormat(mime, image_index)),
            Some(codec) => match decoded_image(data, codec) {
                None => Err(Failure::ImageLoadingFailed(image_index)),
                Some(image) => match normalized(image) {
                    Some(pixels) => Ok(pixels),
                    None => Err(Failure::ImageLoadingFailed(image_index)),
                },
            },
        },
    }
}

/// Whether the decoding of an image may fail for want of a worker thread: the image
/// has its encoded bytes and is a JPEG.
pub open spec fn decoding_may_fail(
    source: ImageSource,
    buffers: Seq<Seq<u8>>,
    file: Option<Seq<u8>>,
) -> bool {
    image_input(source, buffers, file) matches Ok((_, mime)) && codec_of(mime) == Some(
        Codec::Jpeg,
    )
}

/// The pixels of an image with the index `image_index`, given what the decoder made
/// of its bytes: the normalized image, or `ImageLoadingFailed` where the decoder
/// failed or the image is too large.
pub fn finish_image(
    decoded: Result<image::DynamicImage, image::ImageError>,
    image_index: usize,
) -> (r: Result<ImageData, ImportGltfError>)
    ensures
        match r {
            Ok(pixels) => decoded matches Ok(image) && normalized(image) == Some(pixels@)
                && pixels@.covers_image(),
            Err(e) => e@ == Failure::ImageLoadingFailed(image_index as int) && (
            decoded matches Ok(image) ==> normalized(image) is None),
        },
{
    match decoded {
        Ok(image) => match normalize_image(image) {
            Some(pixels) => Ok(pixels),
            None => Err(ImportGltfError::ImageLoadingFailed(image_index)),
        },
        Err(_) => Err(ImportGltfError::ImageLoadingFailed(image_index)),
    }
}

/// Resolves one image of the asset to decoded pixels. A JPEG may fail to load
/// whatever its bytes are; every other outcome is that of [`image_outcome`].
pub fn import_gltf_image(
    source: &ImageSource,
    image_index: usize,
    buffers: &Vec<Vec<u8>>,
    file: &Option<Vec<u8>>,
) -> (r: Result<ImageData, ImportGltfError>)
    ensures
        match r {
            Ok(pixels) => image_outcome(
                *source,
                image_index as int,
                byte_rows(buffers@),
                file_bytes(*file),
            ) == Ok::<Pixels, Failure>(pixels@) && pixels@.covers_image(),
            Err(e) => image_outcome(
                *source,
                image_index as int,
                byte_rows(buffers@),
                file_bytes(*file),
            ) == Err::<Pixels, Failure>(e@) || (decoding_may_fail(
                *source,
                byte_rows(buffers@),
                file_bytes(*file),
            ) && e@ == Failure::ImageLoadingFailed(image_index as int)),
        },
{
    let (data, mime) = match read_image_input(source, buffers, file) {
        Ok(input) => input,
        Err(e) => {
            return Err(e);
        },
    };
    let codec = match codec_for(mime.as_slice()) {
        Some(codec) => codec,
        None => {
            return Err(ImportGltfError::UnsupportedImageFormat(mime, image_index));
        },
    };
    finish_image(decode_image(data.as_slice(), codec), image_index)
}

/// The outcome of resolving image `k` of the asset.
pub open spec fn image_outcome_at(
    sources: Seq<ImageSource>,
    buffers: Seq<Seq<u8>>,
    files: Seq<Option<Vec<u8>>>,
    k: int,
) -> Result<Pixels, Failure> {
    image_outcome(sources[k], k, buffers, file_at(files, k))
}

/// The failure of the first image, from image `from` on, that cannot be resolved.
pub open spec fn images_failure(
    sources: Seq<ImageSource>,
    buffers: Seq<Seq<u8>>,
    files: Seq<Option<Vec<u8>>>,
    from: int,
) -> Option<Failure>
    decreases sources.len() - from,
{
    if from < 0 || from >= sources.len() {
        None
    } else {
        match image_outcome_at(sources, buffers, files, from) {
            Err(e) => Some(e),
            Ok(_) => images_failure(sources, buffers, files, from + 1),
        }
    }
}

/// Image `k` is a JPEG whose decoding may fail for want of a worker thread, and
/// every image before it resolves.
pub open spec fn loading_may_fail_at(
    sources: Seq<ImageSource>,
    buffers: Seq<Seq<u8>>,
    files: Seq<Option<Vec<u8>>>,
    k: int,
) -> bool {
    &&& 0 <= k < sources.len()
    &&& decoding_may_fail(sources[k], buffers, file_at(files, k))
    &&& forall|j: int| 0 <= j < k ==> (#[trigger] image_outcome_at(sources, buffers, files, j)) is Ok
}

/// No image of the asset is a JPEG that may fail to load for want of a worker thread.
pub open spec fn no_jpeg(
    sources: Seq<ImageSource>,
    buffers: Seq<Seq<u8>>,
    files: Seq<Option<Vec<u8>>>,
) -> bool {
    forall|k: int|
        0 <= k < sources.len() ==> !decoding_may_fail(#[trigger] sources[k], buffers, file_at(files, k))
}

/// The pixels of every image of an asset whose images all resolve.
pub open spec fn resolved_pixels(
    sources: Seq<ImageSource>,
    buffers: Seq<Seq<u8>>,
    files: Seq<Option<Vec<u8>>>,
) -> Seq<Pixels> {
    Seq::new(sources.len(), |k: int| image_outcome_at(sources, buffers, files, k)->Ok_0)
}

/// The decoded images as mathematical values.
pub open spec fn pixel_views(images: Seq<ImageData>) -> Seq<Pixels> {
    images.map_values(|image: ImageData| image@)
}

/// Resolves the images of an asset in their order. `files[k]` holds the bytes of the
/// file that image `k` names, or `None`. The result holds the pixels of every image,
/// or the failure of the first image that fails; a JPEG may fail to load whatever its
/// bytes are.
pub fn import_images(
    sources: &Vec<ImageSource>,
    buffers: &Vec<Vec<u8>>,
    files: &Vec<Option<Vec<u8>>>,
) -> (r: Result<Vec<ImageData>, ImportGltfError>)
    ensures
        match r {
            Ok(images) => {
                &&& images_failure(sources@, byte_rows(buffers@), files@, 0) is None
                &&& pixel_views(images@) == resolved_pixels(sources@, byte_rows(buffers@), files@)
                &&& forall|k: int|
                    0 <= k < images@.len() ==> (#[trigger] images@[k])@.covers_image()
            },
            Err(e) => images_failure(sources@, byte_rows(buffers@), files@, 0) == Some(e@)
                || exists|k: int|
                    #[trigger] loading_may_fail_at(sources@, byte_rows(buffers@), files@, k) && e@
                        == Failure::ImageLoadingFailed(k),
        },
{
    let mut images: Vec<ImageData> = Vec::new();
    let mut i: usize = 0;
    while i < sources.len()
        invariant
            i <= sources@.len(),
            images@.len() == i,
            images_failure(sources@, byte_rows(buffers@), files@, 0) == images_failure(
                sources@,
                byte_rows(buffers@),
                files@,
                i as int,
            ),
            forall|k: int|
                0 <= k < i ==> {
                    &&& image_outcome_at(sources@, byte_rows(buffers@), files@, k) == Ok::<
                        Pixels,
                        Failure,
                    >(#[trigger] images@[k]@)
                    &&& images@[k]@.covers_image()
                },
        decreases sources@.len() - i,
    {
        let unread: Option<Vec<u8>> = None;
        let file = if i < files.len() {
            &files[i]
        } else {
            &unread
        };
        match import_gltf_image(&sources[i], i, buffers, file) {
            Ok(pixels) => {
                images.push(pixels);
            },
            Err(e) => {
                proof {
                    if image_outcome_at(sources@, byte_rows(buffers@), files@, i as int)
                        != Err::<Pixels, Failure>(e@) {
                        assert forall|j: int| 0 <= j < i implies (#[trigger] image_outcome_at(
                            sources@,
                            byte_rows(buffers@),
                            files@,
                            j,
                        )) is Ok by {
                            let _ = images@[j]@;
                        }
                        assert(loading_may_fail_at(
                            sources@,
                            byte_rows(buffers@),
                            files@,
                            i as int,
                        ));
                    }
                }
                return Err(e);
            },
        }
        i += 1;
    }
    Ok(images)
}

} // verus!
