//! Turning decoded images into textures that the graphics device takes.

use crate::texture::{CachedTexture, TextureFormat, TextureView};
use vstd::prelude::*;
use vstd::string::StringExecFns;

verus! {

/// The pixel formats that an image decoder hands out.
#[derive(Clone, Copy, PartialEq, Eq, Structural, Debug)]
pub enum ImageFormat {
    R8,
    R8G8,
    R8G8B8,
    R8G8B8A8,
    R16,
    R16G16,
    R16G16B16,
    R16G16B16A16,
    R32G32B32FLOAT,
    R32G32B32A32FLOAT,
}

/// A decoded image.
pub struct ImageData {
    pub width: u32,
    pub height: u32,
    pub format: ImageFormat,
    pub pixels: Vec<u8>,
}

/// The pixel formats in which textures are handed to the device.
#[derive(Clone, Copy, PartialEq, Eq, Structural, Debug)]
pub enum UploadFormat {
    R8Unorm,
    R8G8Unorm,
    R8G8B8A8Srgb,
    R16Unorm,
    R16G16Unorm,
    R16G16B16A16Unorm,
}

/// Why an image cannot become a texture.
#[derive(Clone, Copy, PartialEq, Eq, Structural, Debug)]
pub enum TextureError {
    /// No texture format holds such pixels.
    UnsupportedImage(ImageFormat),
    /// The device takes no pixels of three channels.
    NotExpanded(TextureFormat),
}

impl ImageFormat {
    /// The name of the format.
    pub open spec fn name(self) -> Seq<char> {
        match self {
            ImageFormat::R8 => "R8"@,
            ImageFormat::R8G8 => "R8G8"@,
            ImageFormat::R8G8B8 => "R8G8B8"@,
            ImageFormat::R8G8B8A8 => "R8G8B8A8"@,
            ImageFormat::R16 => "R16"@,
            ImageFormat::R16G16 => "R16G16"@,
            ImageFormat::R16G16B16 => "R16G16B16"@,
            ImageFormat::R16G16B16A16 => "R16G16B16A16"@,
            ImageFormat::R32G32B32FLOAT => "R32G32B32FLOAT"@,
            ImageFormat::R32G32B32A32FLOAT => "R32G32B32A32FLOAT"@,
        }
    }

    fn name_text(self) -> (out: &'static str)
        ensures
            out@ == self.name(),
    {
        match self {
            ImageFormat::R8 => "R8",
            ImageFormat::R8G8 => "R8G8",
            ImageFormat::R8G8B8 => "R8G8B8",
            ImageFormat::R8G8B8A8 => "R8G8B8A8",
            ImageFormat::R16 => "R16",
            ImageFormat::R16G16 => "R16G16",
            ImageFormat::R16G16B16 => "R16G16B16",
            ImageFormat::R16G16B16A16 => "R16G16B16A16",
            ImageFormat::R32G32B32FLOAT => "R32G32B32FLOAT",
            ImageFormat::R32G32B32A32FLOAT => "R32G32B32A32FLOAT",
        }
    }
}

impl TextureError {
    /// The error in words.
    pub open spec fn text(self) -> Seq<char> {
        match self {
            TextureError::UnsupportedImage(format) => "Unsupported glTF image format: "@
                + format.name(),
            TextureError::NotExpanded(TextureFormat::R16G16B16) =>
                "R16G16B16 cached textures must be expanded before upload"@,
            TextureError::NotExpanded(_) =>
                "R8G8B8 cached textures must be expanded before upload"@,
        }
    }

    /// The error in words.
    pub fn message(&self) -> (out: String)
        ensures
            out@ == self.text(),
    {
        match *self {
            TextureError::UnsupportedImage(format) => {
                let mut out = String::from_str("Unsupported glTF image format: ");
                out.append(format.name_text());
                out
            },
            TextureError::NotExpanded(TextureFormat::R16G16B16) => String::from_str(
                "R16G16B16 cached textures must be expanded before upload",
            ),
            TextureError::NotExpanded(_) => String::from_str(
                "R8G8B8 cached textures must be expanded before upload",
            ),
        }
    }
}

/// Every `size` bytes followed by `extra` bytes `0xFF`. What is left over at the end is dropped.
pub open spec fn widened(pixels: Seq<u8>, size: nat, extra: nat) -> Seq<u8>
    decreases pixels.len(),
{
    if size == 0 || pixels.len() < size {
        Seq::empty()
    } else {
        pixels.take(size as int) + Seq::new(extra, |i: int| 0xFFu8) + widened(
            pixels.skip(size as int),
            size,
            extra,
        )
    }
}

/// What becomes of the pixels of an image: a fourth channel at its highest value is put behind
/// three channels, and all else is kept.
pub open spec fn converted_pixels(format: ImageFormat, pixels: Seq<u8>) -> Seq<u8> {
    match format {
        ImageFormat::R8G8B8 => widened(pixels, 3, 1),
        ImageFormat::R16G16B16 => widened(pixels, 6, 2),
        _ => pixels,
    }
}

/// The texture format for an image.
pub open spec fn converted_format(format: ImageFormat) -> Option<TextureFormat> {
    match format {
        ImageFormat::R8 => Some(TextureFormat::R8),
        ImageFormat::R8G8 => Some(TextureFormat::R8G8),
        ImageFormat::R8G8B8 => Some(TextureFormat::R8G8B8A8),
        ImageFormat::R8G8B8A8 => Some(TextureFormat::R8G8B8A8),
        ImageFormat::R16 => Some(TextureFormat::R16),
        ImageFormat::R16G16 => Some(TextureFormat::R16G16),
        ImageFormat::R16G16B16 => Some(TextureFormat::R16G16B16A16),
        ImageFormat::R16G16B16A16 => Some(TextureFormat::R16G16B16A16),
        ImageFormat::R32G32B32FLOAT => None,
        ImageFormat::R32G32B32A32FLOAT => None,
    }
}

/// Puts `extra` bytes `0xFF` behind every `size` bytes.
fn widen(pixels: &[u8], size: usize, extra: usize) -> (out: Vec<u8>)
    requires
        0 < size,
    ensures
        out@ == widened(pixels@, size as nat, extra as nat),
{
    let mut out: Vec<u8> = Vec::new();
    let mut at: usize = 0;
    proof {
        assert(pixels@.skip(0) =~= pixels@);
        assert(out@ + widened(pixels@, size as nat, extra as nat) =~= widened(
            pixels@,
            size as nat,
            extra as nat,
        ));
    }
    let len: usize = pixels.len();
    while len - at >= size
        invariant
            0 < size,
            at <= len == pixels@.len(),
            out@ + widened(pixels@.skip(at as int), size as nat, extra as nat) == widened(
                pixels@,
                size as nat,
                extra as nat,
            ),
        decreases pixels@.len() - at,
    {
        let ghost before = out@;
        let ghost here = pixels@.skip(at as int);
        let mut i: usize = 0;
        while i < size
            invariant
                i <= size,
                at + size <= len == pixels@.len(),
                here == pixels@.skip(at as int),
                out@ == before + here.take(i as int),
            decreases size - i,
        {
            out.push(pixels[at + i]);
            proof {
                assert(before + here.take(i as int).push(pixels@[at + i]) =~= out@);
                assert(here.take(i as int).push(pixels@[at + i]) =~= here.take(i + 1));
            }
            i = i + 1;
        }
        let mut i: usize = 0;
        while i < extra
            invariant
                i <= extra,
                out@ == before + here.take(size as int) + Seq::new(i as nat, |k: int| 0xFFu8),
            decreases extra - i,
        {
            out.push(0xFF);
            proof {
                assert(out@ =~= before + here.take(size as int) + Seq::new(
                    (i + 1) as nat,
                    |k: int| 0xFFu8,
                ));
            }
            i = i + 1;
        }
        proof {
            let more = widened(here.skip(size as int), size as nat, extra as nat);
            assert(here.skip(size as int) =~= pixels@.skip(at + size));
            assert(widened(here, size as nat, extra as nat) == here.take(size as int) + Seq::new(
                extra as nat,
                |k: int| 0xFFu8,
            ) + more);
            assert(out@ + more =~= before + widened(here, size as nat, extra as nat));
        }
        at = at + size;
    }
    proof {
        assert(out@ + Seq::<u8>::empty() =~= out@);
    }
    out
}

/// Turns a decoded image into a texture.
pub fn convert_image(img: &ImageData) -> (out: Result<CachedTexture, TextureError>)
    requires
        img.format is R16G16B16 ==> img.pixels@.len() % 2 == 0,
    ensures
        match converted_format(img.format) {
            Some(format) => out is Ok && out->Ok_0@ == (TextureView {
                width: img.width,
                height: img.height,
                format,
                pixels: converted_pixels(img.format, img.pixels@),
            }),
            None => out matches Err(e) && e == TextureError::UnsupportedImage(img.format),
        },
{
    let (format, pixels) = match img.format {
        ImageFormat::R8 => (TextureFormat::R8, img.pixels.clone()),
        ImageFormat::R8G8 => (TextureFormat::R8G8, img.pixels.clone()),
        ImageFormat::R8G8B8 => (TextureFormat::R8G8B8A8, widen(&img.pixels, 3, 1)),
        ImageFormat::R8G8B8A8 => (TextureFormat::R8G8B8A8, img.pixels.clone()),
        ImageFormat::R16 => (TextureFormat::R16, img.pixels.clone()),
        ImageFormat::R16G16 => (TextureFormat::R16G16, img.pixels.clone()),
        ImageFormat::R16G16B16 => (TextureFormat::R16G16B16A16, widen(&img.pixels, 6, 2)),
        ImageFormat::R16G16B16A16 => (TextureFormat::R16G16B16A16, img.pixels.clone()),
        other => return Err(TextureError::UnsupportedImage(other)),
    };
    proof {
        assert(pixels@ =~= converted_pixels(img.format, img.pixels@));
    }
    Ok(CachedTexture { width: img.width, height: img.height, format, pixels })
}

/// Turns decoded images into textures, or gives the error of the first that cannot be one.
pub fn convert_images(images: &[ImageData]) -> (out: Result<Vec<CachedTexture>, TextureError>)
    requires
        forall|i: int|
            0 <= i < images@.len() && (#[trigger] images@[i]).format is R16G16B16 ==>
                images@[i].pixels@.len() % 2 == 0,
    ensures
        match out {
            Ok(textures) => {
                &&& textures@.len() == images@.len()
                &&& forall|i: int|
                    0 <= i < images@.len() ==> converted_format((#[trigger] images@[i]).format)
                        is Some && textures@[i]@ == (TextureView {
                        width: images@[i].width,
                        height: images@[i].height,
                        format: converted_format(images@[i].format)->Some_0,
                        pixels: converted_pixels(images@[i].format, images@[i].pixels@),
                    })
            },
            Err(e) => exists|i: int|
                {
                    &&& 0 <= i < images@.len()
                    &&& converted_format((#[trigger] images@[i]).format) is None
                    &&& e == TextureError::UnsupportedImage(images@[i].format)
                    &&& forall|j: int|
                        0 <= j < i ==> converted_format((#[trigger] images@[j]).format) is Some
                },
        },
{
    let mut textures: Vec<CachedTexture> = Vec::new();
    let mut i: usize = 0;
    while i < images.len()
        invariant
            i <= images@.len(),
            textures@.len() == i,
            forall|j: int|
                0 <= j < images@.len() && (#[trigger] images@[j]).format is R16G16B16 ==>
                    images@[j].pixels@.len() % 2 == 0,
            forall|j: int|
                0 <= j < i ==> converted_format((#[trigger] images@[j]).format) is Some
                    && textures@[j]@ == (TextureView {
                    width: images@[j].width,
                    height: images@[j].height,
                    format: converted_format(images@[j].format)->Some_0,
                    pixels: converted_pixels(images@[j].format, images@[j].pixels@),
                }),
        decreases images@.len() - i,
    {
        let texture = convert_image(&images[i])?;
        textures.push(texture);
        i = i + 1;
    }
    Ok(textures)
}

/// The device's format for a texture; textures of three channels have none.
pub open spec fn texture_upload_format(format: TextureFormat) -> Option<UploadFormat> {
    match format {
        TextureFormat::R8 => Some(UploadFormat::R8Unorm),
        TextureFormat::R8G8 => Some(UploadFormat::R8G8Unorm),
        TextureFormat::R8G8B8 => None,
        TextureFormat::R8G8B8A8 => Some(UploadFormat::R8G8B8A8Srgb),
        TextureFormat::R16 => Some(UploadFormat::R16Unorm),
        TextureFormat::R16G16 => Some(UploadFormat::R16G16Unorm),
        TextureFormat::R16G16B16 => None,
        TextureFormat::R16G16B16A16 => Some(UploadFormat::R16G16B16A16Unorm),
    }
}

/// The format in which a texture is handed to the device.
pub fn upload_format(format: TextureFormat) -> (out: Result<UploadFormat, TextureError>)
    ensures
        match texture_upload_format(format) {
            Some(chosen) => out == Ok::<UploadFormat, TextureError>(chosen),
            None => out == Err::<UploadFormat, TextureError>(TextureError::NotExpanded(format)),
        },
{
    match format {
        TextureFormat::R8 => Ok(UploadFormat::R8Unorm),
        TextureFormat::R8G8 => Ok(UploadFormat::R8G8Unorm),
        TextureFormat::R8G8B8 => Err(TextureError::NotExpanded(format)),
        TextureFormat::R8G8B8A8 => Ok(UploadFormat::R8G8B8A8Srgb),
        TextureFormat::R16 => Ok(UploadFormat::R16Unorm),
        TextureFormat::R16G16 => Ok(UploadFormat::R16G16Unorm),
        TextureFormat::R16G16B16 => Err(TextureError::NotExpanded(format)),
        TextureFormat::R16G16B16A16 => Ok(UploadFormat::R16G16B16A16Unorm),
    }
}

/// The formats of all textures in order, or the error of the first that has none.
pub fn cached_upload_formats(textures: &[CachedTexture]) -> (out: Result<
    Vec<UploadFormat>,
    TextureError,
>)
    ensures
        match out {
            Ok(formats) => {
                &&& formats@.len() == textures@.len()
                &&& forall|i: int|
                    0 <= i < textures@.len() ==> texture_upload_format(
                        (#[trigger] textures@[i]).format,
                    ) == Some(formats@[i])
            },
            Err(e) => exists|i: int|
                {
                    &&& 0 <= i < textures@.len()
                    &&& texture_upload_format((#[trigger] textures@[i]).format) is None
                    &&& e == TextureError::NotExpanded(textures@[i].format)
                    &&& forall|j: int|
                        0 <= j < i ==> texture_upload_format(
                            (#[trigger] textures@[j]).format,
                        ) is Some
                },
        },
{
    let mut formats: Vec<UploadFormat> = Vec::new();
    let mut i: usize = 0;
    while i < textures.len()
        invariant
            i <= textures@.len(),
            formats@.len() == i,
            forall|j: int|
                0 <= j < i ==> texture_upload_format((#[trigger] textures@[j]).format) == Some(
                    formats@[j],
                ),
        decreases textures@.len() - i,
    {
        let format = upload_format(textures[i].format)?;
        formats.push(format);
        i = i + 1;
    }
    Ok(formats)
}

/// The device's format for an image that is handed over without going through the cache.
pub open spec fn image_upload_format(format: ImageFormat) -> Option<UploadFormat> {
    match format {
        ImageFormat::R8 => Some(UploadFormat::R8Unorm),
        ImageFormat::R8G8B8 => Some(UploadFormat::R8G8B8A8Srgb),
        ImageFormat::R8G8B8A8 => Some(UploadFormat::R8G8B8A8Srgb),
        ImageFormat::R16 => Some(UploadFormat::R16Unorm),
        ImageFormat::R16G16B16 => Some(UploadFormat::R16G16B16A16Unorm),
        ImageFormat::R16G16B16A16 => Some(UploadFormat::R16G16B16A16Unorm),
        _ => None,
    }
}

/// The device's format for an image.
pub fn gltf_to_vulkan(format: ImageFormat) -> (out: Option<UploadFormat>)
    ensures
        out == image_upload_format(format),
{
    match format {
        ImageFormat::R8 => Some(UploadFormat::R8Unorm),
        ImageFormat::R8G8B8 => Some(UploadFormat::R8G8B8A8Srgb),
        ImageFormat::R8G8B8A8 => Some(UploadFormat::R8G8B8A8Srgb),
        ImageFormat::R16 => Some(UploadFormat::R16Unorm),
        ImageFormat::R16G16B16 => Some(UploadFormat::R16G16B16A16Unorm),
        ImageFormat::R16G16B16A16 => Some(UploadFormat::R16G16B16A16Unorm),
        _ => None,
    }
}

/// The format and the pixels in which an image is handed to the device.
pub fn gltf_texture_upload(img: &ImageData) -> (out: Result<(UploadFormat, Vec<u8>), TextureError>)
    requires
        img.format is R16G16B16 ==> img.pixels@.len() % 2 == 0,
    ensures
        match image_upload_format(img.format) {
            Some(format) => out is Ok && out->Ok_0.0 == format && out->Ok_0.1@ == converted_pixels(
                img.format,
                img.pixels@,
            ),
            None => out matches Err(e) && e == TextureError::UnsupportedImage(img.format),
        },
{
    let format = match gltf_to_vulkan(img.format) {
        Some(format) => format,
        None => return Err(TextureError::UnsupportedImage(img.format)),
    };
    let pixels = match img.format {
        ImageFormat::R8G8B8 => widen(&img.pixels, 3, 1),
        ImageFormat::R16G16B16 => widen(&img.pixels, 6, 2),
        _ => img.pixels.clone(),
    };
    proof {
        assert(pixels@ =~= converted_pixels(img.format, img.pixels@));
    }
    Ok((format, pixels))
}

/// A converted image can always be handed to the device.
pub proof fn law_converted_images_upload(format: ImageFormat)
    ensures
        converted_format(format) matches Some(texture) ==> texture_upload_format(texture) is Some,
{
}

/// Where an image can be handed over directly, going through the cache gives the same format.
pub proof fn law_both_ways_to_upload_agree(format: ImageFormat)
    ensures
        image_upload_format(format) is Some ==> converted_format(format) is Some
            && texture_upload_format(converted_format(format)->Some_0) == image_upload_format(
            format,
        ),
{
}

/// Widening keeps the number of pixels.
pub proof fn law_widened_len(pixels: Seq<u8>, size: nat, extra: nat)
    requires
        0 < size,
    ensures
        widened(pixels, size, extra).len() == (pixels.len() / size) * (size + extra),
    decreases pixels.len(),
{
    if pixels.len() >= size {
        let n = pixels.len() as int;
        let k = size as int;
        law_widened_len(pixels.skip(k), size, extra);
        assert(n / k == (n - k) / k + 1) by (nonlinear_arith)
            requires
                n >= k > 0,
        ;
        assert(((n - k) / k + 1) * (k + extra) == ((n - k) / k) * (k + extra) + (k + extra))
            by (nonlinear_arith);
    } else {
        let n = pixels.len() as int;
        let k = size as int;
        assert(n / k == 0) by (nonlinear_arith)
            requires
                0 <= n < k,
        ;
        assert(0 * (size + extra) == 0) by (nonlinear_arith);
    }
}

/// How long the widened pixels are.
proof fn lemma_widened_len(pixels: Seq<u8>, size: nat, extra: nat, n: int)
    requires
        0 < size,
        0 <= n,
        n * size <= pixels.len() < (n + 1) * size,
    ensures
        widened(pixels, size, extra).len() == n * (size + extra),
    decreases n,
{
    assert((n + 1) * size == n * size + size) by (nonlinear_arith);
    if n == 0 {
        assert(n * size == 0 && n * (size + extra) == 0) by (nonlinear_arith)
            requires
                n == 0,
        ;
    } else {
        assert(n * size == (n - 1) * size + size) by (nonlinear_arith);
        assert((n - 1) * size >= 0) by (nonlinear_arith)
            requires
                n > 0,
        ;
        lemma_widened_len(pixels.skip(size as int), size, extra, n - 1);
        assert(n * (size + extra) == (n - 1) * (size + extra) + (size + extra))
            by (nonlinear_arith);
    }
}

/// Where the bytes of a pixel are among the widened pixels.
proof fn lemma_widened_pixel(pixels: Seq<u8>, size: nat, extra: nat, k: int, c: int)
    requires
        0 < size,
        0 <= k,
        (k + 1) * size <= pixels.len(),
        0 <= c < size + extra,
    ensures
        k * (size + extra) + c < widened(pixels, size, extra).len(),
        widened(pixels, size, extra)[k * (size + extra) + c] == if c < size {
            pixels[k * size + c]
        } else {
            0xFFu8
        },
    decreases k,
{
    assert((k + 1) * size == k * size + size) by (nonlinear_arith);
    assert(k * size >= 0) by (nonlinear_arith)
        requires
            k >= 0,
    ;
    let rest = pixels.skip(size as int);
    let front = pixels.take(size as int) + Seq::new(extra, |i: int| 0xFFu8);
    assert(widened(pixels, size, extra) == front + widened(rest, size, extra));
    if k == 0 {
        assert(k * (size + extra) == 0 && k * size == 0) by (nonlinear_arith)
            requires
                k == 0,
        ;
        assert(widened(pixels, size, extra)[c] == front[c]);
    } else {
        assert(k * size == (k - 1) * size + size) by (nonlinear_arith);
        assert(k * (size + extra) == (k - 1) * (size + extra) + (size + extra))
            by (nonlinear_arith);
        assert((k - 1) * (size + extra) >= 0 && (k - 1) * size >= 0) by (nonlinear_arith)
            requires
                k > 0,
        ;
        lemma_widened_pixel(rest, size, extra, k - 1, c);
        let at = (k - 1) * (size + extra) + c;
        assert(widened(pixels, size, extra)[at + front.len()] == widened(rest, size, extra)[at]);
    }
}

/// Pixels of three channels keep each of these in its place and get a fourth at its highest value; a part
/// of a pixel at the end is dropped. All other pixels are kept as they are.
pub proof fn law_three_channels_become_four(pixels: Seq<u8>, k: int)
    ensures
        converted_pixels(ImageFormat::R8G8B8, pixels).len() == pixels.len() / 3 * 4,
        0 <= k < pixels.len() / 3 ==> {
            let out = converted_pixels(ImageFormat::R8G8B8, pixels);
            &&& out[4 * k] == pixels[3 * k]
            &&& out[4 * k + 1] == pixels[3 * k + 1]
            &&& out[4 * k + 2] == pixels[3 * k + 2]
            &&& out[4 * k + 3] == 255
        },
        converted_pixels(ImageFormat::R16G16B16, pixels).len() == pixels.len() / 6 * 8,
        0 <= k < pixels.len() / 6 ==> {
            let out = converted_pixels(ImageFormat::R16G16B16, pixels);
            &&& forall|c: int|
                0 <= c < 6 ==> out[8 * k + c] == #[trigger] pixels[6 * k + c]
            &&& out[8 * k + 6] == 255
            &&& out[8 * k + 7] == 255
        },
        forall|format: ImageFormat|
            !(format is R8G8B8) && !(format is R16G16B16) ==> #[trigger] converted_pixels(
                format,
                pixels,
            ) == pixels,
{
    lemma_widened_len(pixels, 3, 1, pixels.len() as int / 3);
    lemma_widened_len(pixels, 6, 2, pixels.len() as int / 6);
    if 0 <= k < pixels.len() / 3 {
        lemma_widened_pixel(pixels, 3, 1, k, 0);
        lemma_widened_pixel(pixels, 3, 1, k, 1);
        lemma_widened_pixel(pixels, 3, 1, k, 2);
        lemma_widened_pixel(pixels, 3, 1, k, 3);
    }
    if 0 <= k < pixels.len() / 6 {
        let out = converted_pixels(ImageFormat::R16G16B16, pixels);
        assert forall|c: int| 0 <= c < 6 implies out[8 * k + c] == #[trigger] pixels[6 * k + c] by {
            lemma_widened_pixel(pixels, 6, 2, k, c);
            assert(out == widened(pixels, 6, 2));
            assert(k * (6nat + 2nat) + c == 8 * k + c);
        }
        lemma_widened_pixel(pixels, 6, 2, k, 6);
        lemma_widened_pixel(pixels, 6, 2, k, 7);
    }
}

/// An image becomes a texture of its own format, but for a fourth channel where it has three; floating
/// point becomes none.
pub proof fn law_images_keep_their_channels(format: ImageFormat)
    ensures
        converted_format(format) is None <==> format is R32G32B32FLOAT || format
            is R32G32B32A32FLOAT,
        converted_format(format) == Some(TextureFormat::R8) <==> format is R8,
        converted_format(format) == Some(TextureFormat::R8G8) <==> format is R8G8,
        converted_format(format) == Some(TextureFormat::R8G8B8A8) <==> format is R8G8B8 || format
            is R8G8B8A8,
        converted_format(format) == Some(TextureFormat::R16) <==> format is R16,
        converted_format(format) == Some(TextureFormat::R16G16) <==> format is R16G16,
        converted_format(format) == Some(TextureFormat::R16G16B16A16) <==> format is R16G16B16
            || format is R16G16B16A16,
{
}

/// A texture is handed over in the device's format of the same channels, and only one of three channels is
/// not.
pub proof fn law_textures_keep_their_channels(format: TextureFormat)
    ensures
        texture_upload_format(format) is None <==> format is R8G8B8 || format is R16G16B16,
        texture_upload_format(format) == Some(UploadFormat::R8Unorm) <==> format is R8,
        texture_upload_format(format) == Some(UploadFormat::R8G8Unorm) <==> format is R8G8,
        texture_upload_format(format) == Some(UploadFormat::R8G8B8A8Srgb) <==> format is R8G8B8A8,
        texture_upload_format(format) == Some(UploadFormat::R16Unorm) <==> format is R16,
        texture_upload_format(format) == Some(UploadFormat::R16G16Unorm) <==> format is R16G16,
        texture_upload_format(format) == Some(UploadFormat::R16G16B16A16Unorm) <==> format
            is R16G16B16A16,
{
}

/// An image that is handed over at once gets the format that it would get through the cache, but for two
/// channels, which are refused, as floating point is.
pub proof fn law_images_upload_as_through_the_cache(format: ImageFormat)
    ensures
        image_upload_format(format) is None <==> format is R8G8 || format is R16G16 || format
            is R32G32B32FLOAT || format is R32G32B32A32FLOAT,
        image_upload_format(format) is Some ==> converted_format(format) is Some
            && image_upload_format(format) == texture_upload_format(
            converted_format(format)->Some_0,
        ),
{
}

/// What is wrong is told in words, with the name of the format.
pub proof fn law_texture_errors_in_words(format: ImageFormat)
    ensures
        format is R8 ==> format.name() == "R8"@,
        format is R8G8 ==> format.name() == "R8G8"@,
        format is R8G8B8 ==> format.name() == "R8G8B8"@,
        format is R8G8B8A8 ==> format.name() == "R8G8B8A8"@,
        format is R16 ==> format.name() == "R16"@,
        format is R16G16 ==> format.name() == "R16G16"@,
        format is R16G16B16 ==> format.name() == "R16G16B16"@,
        format is R16G16B16A16 ==> format.name() == "R16G16B16A16"@,
        format is R32G32B32FLOAT ==> format.name() == "R32G32B32FLOAT"@,
        format is R32G32B32A32FLOAT ==> format.name() == "R32G32B32A32FLOAT"@,
        TextureError::UnsupportedImage(format).text() == "Unsupported glTF image format: "@
            + format.name(),
        TextureError::NotExpanded(TextureFormat::R8G8B8).text()
            == "R8G8B8 cached textures must be expanded before upload"@,
        TextureError::NotExpanded(TextureFormat::R16G16B16).text()
            == "R16G16B16 cached textures must be expanded before upload"@,
{
}

} // verus!
