//! Pixel formats and textures.

use crate::codec::{
    le_bytes, lemma_parse_u32, lemma_parse_u8, lemma_taken, lemma_u32_reads_no_further,
    lemma_u8_reads_no_further, parse_u32, parse_u8, read_u32, read_u8, reads, taken, write_u32,
    write_u8, ByteReader, Parsed,
};
use crate::errors::CacheError;
use crate::records::Record;
use crate::text::{
    encode_bytes, lemma_bytes_read_back, lemma_bytes_reads_no_further, parse_bytes, read_bytes,
    write_bytes,
};
use vstd::prelude::*;

verus! {

/// The channels of a pixel and the bits of each.
#[derive(Clone, Copy, PartialEq, Eq, Structural, Debug)]
pub enum TextureFormat {
    R8,
    R8G8,
    R8G8B8,
    R8G8B8A8,
    R16,
    R16G16,
    R16G16B16,
    R16G16B16A16,
}

impl TextureFormat {
    /// The number that stands for a format in the cache.
    pub open spec fn number(self) -> u8 {
        match self {
            TextureFormat::R8 => 0,
            TextureFormat::R8G8 => 1,
            TextureFormat::R8G8B8 => 2,
            TextureFormat::R8G8B8A8 => 3,
            TextureFormat::R16 => 4,
            TextureFormat::R16G16 => 5,
            TextureFormat::R16G16B16 => 6,
            TextureFormat::R16G16B16A16 => 7,
        }
    }

    /// The format that a number stands for.
    pub open spec fn numbered(value: u8) -> Result<TextureFormat, CacheError> {
        if exists|format: TextureFormat| #[trigger] format.number() == value {
            Ok(choose|format: TextureFormat| #[trigger] format.number() == value)
        } else {
            Err(CacheError::UnknownTextureFormat(value))
        }
    }

    /// The number of the format.
    pub fn to_u8(self) -> (out: u8)
        ensures
            out == self.number(),
    {
        match self {
            TextureFormat::R8 => 0,
            TextureFormat::R8G8 => 1,
            TextureFormat::R8G8B8 => 2,
            TextureFormat::R8G8B8A8 => 3,
            TextureFormat::R16 => 4,
            TextureFormat::R16G16 => 5,
            TextureFormat::R16G16B16 => 6,
            TextureFormat::R16G16B16A16 => 7,
        }
    }

    /// The format with this number, if there is one.
    pub fn from_u8(value: u8) -> (out: Result<Self, CacheError>)
        ensures
            out == Self::numbered(value),
            value <= 7 ==> out is Ok && out->Ok_0.number() == value,
            value > 7 ==> out == Err::<Self, CacheError>(CacheError::UnknownTextureFormat(value)),
    {
        let format = match value {
            0 => TextureFormat::R8,
            1 => TextureFormat::R8G8,
            2 => TextureFormat::R8G8B8,
            3 => TextureFormat::R8G8B8A8,
            4 => TextureFormat::R16,
            5 => TextureFormat::R16G16,
            6 => TextureFormat::R16G16B16,
            7 => TextureFormat::R16G16B16A16,
            _ => return Err(CacheError::UnknownTextureFormat(value)),
        };
        proof {
            assert(format.number() == value);
        }
        Ok(format)
    }
}

/// A format is found again by its number.
pub proof fn lemma_format_numbers(format: TextureFormat)
    ensures
        TextureFormat::numbered(format.number()) == Ok::<TextureFormat, CacheError>(format),
{
}

/// An image as it is kept in the cache.
pub struct CachedTexture {
    pub width: u32,
    pub height: u32,
    pub format: TextureFormat,
    pub pixels: Vec<u8>,
}

pub struct TextureView {
    pub width: u32,
    pub height: u32,
    pub format: TextureFormat,
    pub pixels: Seq<u8>,
}

impl View for CachedTexture {
    type V = TextureView;

    open spec fn view(&self) -> TextureView {
        TextureView {
            width: self.width,
            height: self.height,
            format: self.format,
            pixels: self.pixels@,
        }
    }
}

impl Clone for CachedTexture {
    fn clone(&self) -> (out: Self)
        ensures
            out@ == self@,
    {
        let pixels = self.pixels.clone();
        proof {
            assert(pixels@ =~= self.pixels@);
        }
        CachedTexture { width: self.width, height: self.height, format: self.format, pixels }
    }
}

impl Record for CachedTexture {
    open spec fn encoding(value: TextureView) -> Seq<u8> {
        le_bytes(value.width as nat, 4) + (le_bytes(value.height as nat, 4) + (le_bytes(
            value.format.number() as nat,
            1,
        ) + encode_bytes(value.pixels)))
    }

    open spec fn parsing(s: Seq<u8>) -> Parsed<TextureView> {
        match parse_u32(s) {
            Err(e) => Err(e),
            Ok((width, s)) => match parse_u32(s) {
                Err(e) => Err(e),
                Ok((height, s)) => match parse_u8(s) {
                    Err(e) => Err(e),
                    Ok((number, s)) => match TextureFormat::numbered(number) {
                        Err(e) => Err(e),
                        Ok(format) => match parse_bytes(s) {
                            Err(e) => Err(e),
                            Ok((pixels, s)) => Ok(
                                (TextureView { width, height, format, pixels }, s),
                            ),
                        },
                    },
                },
            },
        }
    }

    open spec fn stored(value: TextureView) -> TextureView {
        value
    }

    open spec fn storable(value: TextureView) -> bool {
        value.pixels.len() <= usize::MAX
    }

    proof fn reads_back(value: TextureView, tail: Seq<u8>) {
        let a = le_bytes(value.width as nat, 4);
        let b = le_bytes(value.height as nat, 4);
        let c = le_bytes(value.format.number() as nat, 1);
        let d = encode_bytes(value.pixels);
        assert(Self::encoding(value) + tail =~= a + (b + (c + (d + tail))));
        lemma_parse_u32(value.width, b + (c + (d + tail)));
        lemma_parse_u32(value.height, c + (d + tail));
        lemma_parse_u8(value.format.number(), d + tail);
        lemma_format_numbers(value.format);
        lemma_bytes_read_back(value.pixels, tail);
    }

    proof fn reads_no_further(s: Seq<u8>, tail: Seq<u8>) {
        if let Ok((_, s1)) = parse_u32(s) {
            if let Ok((_, s2)) = parse_u32(s1) {
                if let Ok((_, s3)) = parse_u8(s2) {
                    if let Ok((_, s4)) = parse_bytes(s3) {
                        let t3 = taken(s3, s4) + tail;
                        let t2 = taken(s2, s3) + t3;
                        let t1 = taken(s1, s2) + t2;
                        lemma_u32_reads_no_further(s, t1);
                        lemma_u32_reads_no_further(s1, t2);
                        lemma_u8_reads_no_further(s2, t3);
                        lemma_bytes_reads_no_further(s3, tail);
                        lemma_taken(s, s1, s2, t2);
                        lemma_taken(s, s2, s3, t3);
                        lemma_taken(s, s3, s4, tail);
                    }
                }
            }
        }
    }

    fn write_record(&self, w: &mut Vec<u8>) {
        write_texture(w, self);
    }

    fn read_record(r: &mut ByteReader) -> (out: Result<CachedTexture, CacheError>) {
        read_texture(r)
    }
}

/// Appends a texture.
pub fn write_texture(w: &mut Vec<u8>, texture: &CachedTexture)
    ensures
        final(w)@ == old(w)@ + CachedTexture::encoding(texture@),
{
    write_u32(w, texture.width);
    write_u32(w, texture.height);
    write_u8(w, texture.format.to_u8());
    write_bytes(w, &texture.pixels);
    proof {
        assert(w@ =~= old(w)@ + CachedTexture::encoding(texture@));
    }
}

/// Reads a texture.
pub fn read_texture(r: &mut ByteReader) -> (out: Result<CachedTexture, CacheError>)
    requires
        old(r).wf(),
    ensures
        reads(*old(r), *final(r), out, CachedTexture::parsing(old(r).rest())),
{
    let width = read_u32(r)?;
    let height = read_u32(r)?;
    let number = read_u8(r)?;
    let format = TextureFormat::from_u8(number)?;
    let pixels = read_bytes(r)?;
    Ok(CachedTexture { width, height, format, pixels })
}

/// The number of each format, and what each number stands for.
pub proof fn law_formats_are_numbered_in_order(format: TextureFormat, value: u8)
    ensures
        format is R8 <==> format.number() == 0,
        format is R8G8 <==> format.number() == 1,
        format is R8G8B8 <==> format.number() == 2,
        format is R8G8B8A8 <==> format.number() == 3,
        format is R16 <==> format.number() == 4,
        format is R16G16 <==> format.number() == 5,
        format is R16G16B16 <==> format.number() == 6,
        format is R16G16B16A16 <==> format.number() == 7,
        TextureFormat::numbered(format.number()) == Ok::<TextureFormat, CacheError>(format),
        value > 7 ==> TextureFormat::numbered(value) == Err::<TextureFormat, CacheError>(
            CacheError::UnknownTextureFormat(value),
        ),
{
}

/// A texture is written as its width, its height, the number of its format and its pixels, and read back,
/// whatever follows it.
pub proof fn law_textures_read_back(texture: TextureView, tail: Seq<u8>)
    requires
        texture.pixels.len() <= usize::MAX,
    ensures
        CachedTexture::encoding(texture) == le_bytes(texture.width as nat, 4) + le_bytes(
            texture.height as nat,
            4,
        ) + le_bytes(texture.format.number() as nat, 1) + encode_bytes(texture.pixels),
        CachedTexture::parsing(CachedTexture::encoding(texture) + tail) == Ok::<
            (TextureView, Seq<u8>),
            CacheError,
        >((texture, tail)),
{
    CachedTexture::reads_back(texture, tail);
    assert(CachedTexture::encoding(texture) =~= le_bytes(texture.width as nat, 4) + le_bytes(
        texture.height as nat,
        4,
    ) + le_bytes(texture.format.number() as nat, 1) + encode_bytes(texture.pixels));
}

} // verus!
