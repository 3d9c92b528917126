use rtx_vulkan_engine::images::{
    cached_upload_formats, convert_image, convert_images, gltf_texture_upload, gltf_to_vulkan,
    upload_format, ImageData, ImageFormat, TextureError, UploadFormat,
};
use rtx_vulkan_engine::texture::{CachedTexture, TextureFormat};

fn image(format: ImageFormat, pixels: &[u8]) -> ImageData {
    ImageData { width: 2, height: 1, format, pixels: pixels.to_vec() }
}

#[test]
fn three_channels_get_a_fourth() {
    let out = convert_image(&image(ImageFormat::R8G8B8, &[1, 2, 3, 4, 5, 6, 7])).unwrap();
    assert_eq!(out.format, TextureFormat::R8G8B8A8);
    assert_eq!(out.pixels, vec![1, 2, 3, 255, 4, 5, 6, 255]);
    assert_eq!((out.width, out.height), (2, 1));

    let out = convert_image(&image(ImageFormat::R16G16B16, &[1, 2, 3, 4, 5, 6, 7, 8])).unwrap();
    assert_eq!(out.format, TextureFormat::R16G16B16A16);
    assert_eq!(out.pixels, vec![1, 2, 3, 4, 5, 6, 255, 255]);
}

#[test]
fn widening_equals_casting_to_words() {
    let bytes: Vec<u8> = (0..24).collect();
    let words: Vec<u16> = bytes.chunks_exact(2).map(|b| u16::from_ne_bytes([b[0], b[1]])).collect();
    let expected: Vec<u8> = words
        .chunks_exact(3)
        .flat_map(|rgb| [rgb[0], rgb[1], rgb[2], u16::MAX])
        .flat_map(u16::to_ne_bytes)
        .collect();
    let out = convert_image(&image(ImageFormat::R16G16B16, &bytes)).unwrap();
    assert_eq!(out.pixels, expected);
}

#[test]
fn other_formats_are_kept() {
    let kept = [
        (ImageFormat::R8, TextureFormat::R8),
        (ImageFormat::R8G8, TextureFormat::R8G8),
        (ImageFormat::R8G8B8A8, TextureFormat::R8G8B8A8),
        (ImageFormat::R16, TextureFormat::R16),
        (ImageFormat::R16G16, TextureFormat::R16G16),
        (ImageFormat::R16G16B16A16, TextureFormat::R16G16B16A16),
    ];
    for (from, to) in kept {
        let out = convert_image(&image(from, &[9, 8, 7])).unwrap();
        assert_eq!(out.format, to);
        assert_eq!(out.pixels, vec![9, 8, 7]);
        // What has been converted can be handed over.
        assert!(upload_format(out.format).is_ok());
    }
}

#[test]
fn float_images_are_not_supported() {
    let error = convert_image(&image(ImageFormat::R32G32B32FLOAT, &[])).err().unwrap();
    assert_eq!(error, TextureError::UnsupportedImage(ImageFormat::R32G32B32FLOAT));
    assert_eq!(error.message(), "Unsupported glTF image format: R32G32B32FLOAT");
    assert!(convert_image(&image(ImageFormat::R32G32B32A32FLOAT, &[])).is_err());
}

#[test]
fn first_bad_image_decides() {
    let images = [
        image(ImageFormat::R8, &[1]),
        image(ImageFormat::R32G32B32A32FLOAT, &[]),
        image(ImageFormat::R32G32B32FLOAT, &[]),
    ];
    assert_eq!(
        convert_images(&images).err(),
        Some(TextureError::UnsupportedImage(ImageFormat::R32G32B32A32FLOAT))
    );
    assert_eq!(convert_images(&images[..1]).unwrap().len(), 1);
}

#[test]
fn upload_formats() {
    assert_eq!(upload_format(TextureFormat::R8), Ok(UploadFormat::R8Unorm));
    assert_eq!(upload_format(TextureFormat::R8G8), Ok(UploadFormat::R8G8Unorm));
    assert_eq!(upload_format(TextureFormat::R8G8B8A8), Ok(UploadFormat::R8G8B8A8Srgb));
    assert_eq!(upload_format(TextureFormat::R16), Ok(UploadFormat::R16Unorm));
    assert_eq!(upload_format(TextureFormat::R16G16), Ok(UploadFormat::R16G16Unorm));
    assert_eq!(upload_format(TextureFormat::R16G16B16A16), Ok(UploadFormat::R16G16B16A16Unorm));
    let e8 = upload_format(TextureFormat::R8G8B8).unwrap_err();
    assert_eq!(e8.message(), "R8G8B8 cached textures must be expanded before upload");
    let e16 = upload_format(TextureFormat::R16G16B16).unwrap_err();
    assert_eq!(e16.message(), "R16G16B16 cached textures must be expanded before upload");
}

#[test]
fn upload_formats_of_a_list() {
    let texture = |format| CachedTexture { width: 1, height: 1, format, pixels: vec![] };
    let good = [texture(TextureFormat::R8), texture(TextureFormat::R16)];
    assert_eq!(
        cached_upload_formats(&good),
        Ok(vec![UploadFormat::R8Unorm, UploadFormat::R16Unorm])
    );
    let bad = [texture(TextureFormat::R8), texture(TextureFormat::R16G16B16)];
    assert_eq!(
        cached_upload_formats(&bad),
        Err(TextureError::NotExpanded(TextureFormat::R16G16B16))
    );
}

#[test]
fn direct_upload_agrees_with_the_cache() {
    let all = [
        ImageFormat::R8,
        ImageFormat::R8G8,
        ImageFormat::R8G8B8,
        ImageFormat::R8G8B8A8,
        ImageFormat::R16,
        ImageFormat::R16G16,
        ImageFormat::R16G16B16,
        ImageFormat::R16G16B16A16,
        ImageFormat::R32G32B32FLOAT,
        ImageFormat::R32G32B32A32FLOAT,
    ];
    let mut direct = 0;
    for format in all {
        let img = image(format, &[1, 2, 3, 4, 5, 6]);
        match gltf_texture_upload(&img) {
            Ok((chosen, pixels)) => {
                direct += 1;
                assert_eq!(gltf_to_vulkan(format), Some(chosen));
                let cached = convert_image(&img).unwrap();
                assert_eq!(upload_format(cached.format), Ok(chosen));
                assert_eq!(cached.pixels, pixels);
            }
            Err(e) => {
                assert_eq!(gltf_to_vulkan(format), None);
                assert_eq!(e, TextureError::UnsupportedImage(format));
            }
        }
    }
    assert_eq!(direct, 6);
}
