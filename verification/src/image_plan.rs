//! How images are set up on the device before their first use.

use crate::frame::ImageUse;
use crate::images::UploadFormat;
use crate::swapchain::Extent;
use vstd::prelude::*;

verus! {

/// The device's numbers for the formats of images.
pub const FORMAT_R8_UNORM: i32 = 9;

pub const FORMAT_R8G8_UNORM: i32 = 16;

pub const FORMAT_R8G8B8A8_SRGB: i32 = 43;

pub const FORMAT_R16_UNORM: i32 = 70;

pub const FORMAT_R16G16_UNORM: i32 = 77;

pub const FORMAT_R16G16B16A16_UNORM: i32 = 91;

pub const FORMAT_R16G16B16A16_SFLOAT: i32 = 97;

pub const FORMAT_R32G32B32A32_SFLOAT: i32 = 109;

/// What an image is used for.
#[derive(Clone, Copy, PartialEq, Eq, Structural, Debug)]
pub struct ImageUsage {
    pub transfer_source: bool,
    pub transfer_target: bool,
    pub sampled: bool,
    pub storage: bool,
}

/// A step of setting an image up.
#[derive(Clone, Copy, PartialEq, Eq, Structural, Debug)]
pub enum SetupStep {
    /// The image goes from one layout to another.
    Transition { from: ImageUse, to: ImageUse },
    /// The image is filled from a buffer.
    Fill,
    /// The image goes to the layout in which shaders read it.
    ToShaderRead,
}

/// How an image is set up.
pub struct ImagePlan {
    pub format: i32,
    pub extent: Extent,
    pub usage: ImageUsage,
    /// The size of the buffer from which the image is filled, where it is.
    pub staging_size: Option<u64>,
    pub steps: Vec<SetupStep>,
}

/// The device's number for the format of a texture.
pub open spec fn format_number(format: UploadFormat) -> i32 {
    match format {
        UploadFormat::R8Unorm => FORMAT_R8_UNORM,
        UploadFormat::R8G8Unorm => FORMAT_R8G8_UNORM,
        UploadFormat::R8G8B8A8Srgb => FORMAT_R8G8B8A8_SRGB,
        UploadFormat::R16Unorm => FORMAT_R16_UNORM,
        UploadFormat::R16G16Unorm => FORMAT_R16G16_UNORM,
        UploadFormat::R16G16B16A16Unorm => FORMAT_R16G16B16A16_UNORM,
    }
}

/// From no layout to the one for all uses.
pub open spec fn blank_steps() -> Seq<SetupStep> {
    seq![SetupStep::Transition { from: ImageUse::Undefined, to: ImageUse::General }]
}

/// Made ready to be filled, filled, and made ready to be read.
pub open spec fn texture_steps() -> Seq<SetupStep> {
    seq![
        SetupStep::Transition { from: ImageUse::Undefined, to: ImageUse::TransferTarget },
        SetupStep::Fill,
        SetupStep::ToShaderRead,
    ]
}

fn blank() -> (out: Vec<SetupStep>)
    ensures
        out@ == blank_steps(),
{
    let mut steps: Vec<SetupStep> = Vec::new();
    steps.push(SetupStep::Transition { from: ImageUse::Undefined, to: ImageUse::General });
    proof {
        assert(steps@ =~= blank_steps());
    }
    steps
}

/// Plans an image that is drawn: shaders write it, and it is copied to the window.
pub fn create_storage_image(extent: Extent) -> (out: ImagePlan)
    ensures
        out.format == FORMAT_R16G16B16A16_SFLOAT,
        out.extent == extent,
        out.usage == (ImageUsage {
            transfer_source: true,
            transfer_target: false,
            sampled: false,
            storage: true,
        }),
        out.staging_size is None,
        out.steps@ == blank_steps(),
{
    ImagePlan {
        format: FORMAT_R16G16B16A16_SFLOAT,
        extent,
        usage: ImageUsage {
            transfer_source: true,
            transfer_target: false,
            sampled: false,
            storage: true,
        },
        staging_size: None,
        steps: blank(),
    }
}

/// Plans the image in which light is gathered: only shaders use it.
pub fn create_accum_image(extent: Extent) -> (out: ImagePlan)
    ensures
        out.format == FORMAT_R32G32B32A32_SFLOAT,
        out.extent == extent,
        out.usage == (ImageUsage {
            transfer_source: false,
            transfer_target: false,
            sampled: false,
            storage: true,
        }),
        out.staging_size is None,
        out.steps@ == blank_steps(),
{
    ImagePlan {
        format: FORMAT_R32G32B32A32_SFLOAT,
        extent,
        usage: ImageUsage {
            transfer_source: false,
            transfer_target: false,
            sampled: false,
            storage: true,
        },
        staging_size: None,
        steps: blank(),
    }
}

/// Plans a texture, which is filled with these pixels and sampled by shaders.
pub fn create_texture_image(pixels: &[u8], extent: Extent, format: UploadFormat) -> (out: ImagePlan)
    ensures
        out.format == format_number(format),
        out.extent == extent,
        out.usage == (ImageUsage {
            transfer_source: false,
            transfer_target: true,
            sampled: true,
            storage: false,
        }),
        out.staging_size == Some(pixels@.len() as u64),
        out.steps@ == texture_steps(),
{
    let number: i32 = match format {
        UploadFormat::R8Unorm => FORMAT_R8_UNORM,
        UploadFormat::R8G8Unorm => FORMAT_R8G8_UNORM,
        UploadFormat::R8G8B8A8Srgb => FORMAT_R8G8B8A8_SRGB,
        UploadFormat::R16Unorm => FORMAT_R16_UNORM,
        UploadFormat::R16G16Unorm => FORMAT_R16G16_UNORM,
        UploadFormat::R16G16B16A16Unorm => FORMAT_R16G16B16A16_UNORM,
    };
    let mut steps: Vec<SetupStep> = Vec::new();
    steps.push(
        SetupStep::Transition { from: ImageUse::Undefined, to: ImageUse::TransferTarget },
    );
    steps.push(SetupStep::Fill);
    steps.push(SetupStep::ToShaderRead);
    proof {
        assert(steps@ =~= texture_steps());
    }
    ImagePlan {
        format: number,
        extent,
        usage: ImageUsage {
            transfer_source: false,
            transfer_target: true,
            sampled: true,
            storage: false,
        },
        staging_size: Some(pixels.len() as u64),
        steps,
    }
}

/// The numbers under which the device knows the formats.
pub proof fn law_formats_have_their_numbers(format: UploadFormat)
    ensures
        format is R8Unorm <==> format_number(format) == 9,
        format is R8G8Unorm <==> format_number(format) == 16,
        format is R8G8B8A8Srgb <==> format_number(format) == 43,
        format is R16Unorm <==> format_number(format) == 70,
        format is R16G16Unorm <==> format_number(format) == 77,
        format is R16G16B16A16Unorm <==> format_number(format) == 91,
        FORMAT_R16G16B16A16_SFLOAT == 97,
        FORMAT_R32G32B32A32_SFLOAT == 109,
{
}

/// An image starts without a layout, and each step takes it from where the one before it left it. A
/// texture is filled once, while it can be, and is read afterwards.
pub proof fn law_images_are_set_up_step_by_step()
    ensures
        ({
            let steps = blank_steps();
            &&& steps.len() == 1
            &&& steps[0] matches SetupStep::Transition { from, to } && from is Undefined && to
                is General
        }),
        ({
            let steps = texture_steps();
            &&& steps.len() == 3
            &&& steps[0] matches SetupStep::Transition { from, to } && from is Undefined && to
                is TransferTarget
            &&& steps[1] is Fill
            &&& steps[2] is ToShaderRead
        }),
{
}

} // verus!
