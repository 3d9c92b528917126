//! The images that are shown in the window.

use crate::device::QueueFamilyIndices;
use vstd::prelude::*;

verus! {

/// A pixel format and a colour space, by the numbers that the device knows them under.
#[derive(Clone, Copy, PartialEq, Eq, Structural, Debug)]
pub struct SurfaceFormat {
    pub format: i32,
    pub color_space: i32,
}

/// The device's number for eight bits each of blue, green, red and alpha in sRGB.
pub const FORMAT_B8G8R8A8_SRGB: i32 = 50;

/// The device's number for the non-linear sRGB colour space.
pub const COLOR_SPACE_SRGB_NONLINEAR: i32 = 0;

/// The device's number for showing the newest image at the next refresh.
pub const PRESENT_MODE_MAILBOX: i32 = 1;

#[derive(Clone, Copy, PartialEq, Eq, Structural, Debug)]
pub struct Extent {
    pub width: u32,
    pub height: u32,
}

/// What the surface of the window allows. A width of `u32::MAX` in `current_extent` leaves the size
/// open; a `max_image_count` of zero sets no limit.
#[derive(Clone, Copy, PartialEq, Eq, Structural, Debug)]
pub struct SurfaceCapabilities {
    pub min_image_count: u32,
    pub max_image_count: u32,
    pub current_extent: Extent,
    pub min_image_extent: Extent,
    pub max_image_extent: Extent,
}

/// The format that is preferred.
pub open spec fn preferred(format: SurfaceFormat) -> bool {
    format.format == FORMAT_B8G8R8A8_SRGB && format.color_space == COLOR_SPACE_SRGB_NONLINEAR
}

/// Picks the preferred format where it is there, and the first one otherwise.
pub fn get_swapchain_surface_format(formats: &[SurfaceFormat]) -> (out: SurfaceFormat)
    requires
        formats@.len() > 0,
    ensures
        formats@.contains(out),
        if exists|i: int| 0 <= i < formats@.len() && preferred(#[trigger] formats@[i]) {
            preferred(out)
        } else {
            out == formats@[0]
        },
{
    let mut i: usize = 0;
    while i < formats.len()
        invariant
            i <= formats@.len(),
            forall|j: int| 0 <= j < i ==> !preferred(#[trigger] formats@[j]),
        decreases formats@.len() - i,
    {
        let format = formats[i];
        if format.format == FORMAT_B8G8R8A8_SRGB && format.color_space
            == COLOR_SPACE_SRGB_NONLINEAR {
            proof {
                assert(formats@[i as int] == format);
            }
            return format;
        }
        i = i + 1;
    }
    proof {
        assert(formats@[0] == formats[0]);
    }
    formats[0]
}

/// The way in which images are shown, whatever there is to choose from.
pub fn get_swapchain_present_mode(_present_modes: &[i32]) -> (out: i32)
    ensures
        out == PRESENT_MODE_MAILBOX,
{
    PRESENT_MODE_MAILBOX
}

/// A number moved into a range.
pub open spec fn clamped(value: u32, low: u32, high: u32) -> u32 {
    if value < low {
        low
    } else if value > high {
        high
    } else {
        value
    }
}

fn clamp(value: u32, low: u32, high: u32) -> (out: u32)
    ensures
        out == clamped(value, low, high),
{
    if value < low {
        low
    } else if value > high {
        high
    } else {
        value
    }
}

impl SurfaceCapabilities {
    /// Where the size is left open, its limits are in order.
    pub open spec fn extents_in_order(self) -> bool {
        self.current_extent.width == u32::MAX ==> {
            &&& self.min_image_extent.width <= self.max_image_extent.width
            &&& self.min_image_extent.height <= self.max_image_extent.height
        }
    }

    /// The size of the images: that of the surface, or, where that is left open, that of the
    /// window within the limits.
    pub open spec fn extent_for(self, window: Extent) -> Extent {
        if self.current_extent.width != u32::MAX {
            self.current_extent
        } else {
            Extent {
                width: clamped(
                    window.width,
                    self.min_image_extent.width,
                    self.max_image_extent.width,
                ),
                height: clamped(
                    window.height,
                    self.min_image_extent.height,
                    self.max_image_extent.height,
                ),
            }
        }
    }

    /// The number of images: one more than must be, within the limit.
    pub open spec fn image_count(self) -> int {
        if self.max_image_count != 0 && self.min_image_count + 1 > self.max_image_count {
            self.max_image_count as int
        } else {
            self.min_image_count + 1
        }
    }
}

/// The size of the images.
pub fn get_swapchain_extent(window: Extent, capabilities: SurfaceCapabilities) -> (out: Extent)
    requires
        capabilities.extents_in_order(),
    ensures
        out == capabilities.extent_for(window),
{
    if capabilities.current_extent.width != u32::MAX {
        capabilities.current_extent
    } else {
        Extent {
            width: clamp(
                window.width,
                capabilities.min_image_extent.width,
                capabilities.max_image_extent.width,
            ),
            height: clamp(
                window.height,
                capabilities.min_image_extent.height,
                capabilities.max_image_extent.height,
            ),
        }
    }
}

/// How the images are set up.
pub struct SwapchainPlan {
    pub surface_format: SurfaceFormat,
    pub present_mode: i32,
    pub extent: Extent,
    pub image_count: u32,
    /// The queue families that share the images; none where one family does it all.
    pub sharing_families: Vec<u32>,
}

/// Plans the images.
pub fn create_swapchain(
    indices: QueueFamilyIndices,
    capabilities: SurfaceCapabilities,
    formats: &[SurfaceFormat],
    present_modes: &[i32],
    window: Extent,
) -> (out: SwapchainPlan)
    requires
        formats@.len() > 0,
        capabilities.extents_in_order(),
        capabilities.min_image_count < u32::MAX,
    ensures
        formats@.contains(out.surface_format),
        if exists|i: int| 0 <= i < formats@.len() && preferred(#[trigger] formats@[i]) {
            preferred(out.surface_format)
        } else {
            out.surface_format == formats@[0]
        },
        out.present_mode == PRESENT_MODE_MAILBOX,
        out.extent == capabilities.extent_for(window),
        out.image_count == capabilities.image_count(),
        out.sharing_families@ == if indices.graphics != indices.present {
            seq![indices.graphics, indices.present]
        } else {
            Seq::<u32>::empty()
        },
{
    let surface_format = get_swapchain_surface_format(formats);
    let present_mode: i32 = get_swapchain_present_mode(present_modes);
    let extent = get_swapchain_extent(window, capabilities);
    let mut image_count: u32 = capabilities.min_image_count + 1;
    if capabilities.max_image_count != 0 && image_count > capabilities.max_image_count {
        image_count = capabilities.max_image_count;
    }
    let mut sharing_families: Vec<u32> = Vec::new();
    if indices.graphics != indices.present {
        sharing_families.push(indices.graphics);
        sharing_families.push(indices.present);
    }
    proof {
        assert(sharing_families@ =~= if indices.graphics != indices.present {
            seq![indices.graphics, indices.present]
        } else {
            Seq::<u32>::empty()
        });
    }
    SwapchainPlan { surface_format, present_mode, extent, image_count, sharing_families }
}

/// The number of images is within what the surface allows.
pub proof fn law_image_count_is_allowed(capabilities: SurfaceCapabilities)
    requires
        capabilities.max_image_count != 0 ==> capabilities.min_image_count
            <= capabilities.max_image_count,
    ensures
        capabilities.min_image_count <= capabilities.image_count(),
        capabilities.max_image_count != 0 ==> capabilities.image_count()
            <= capabilities.max_image_count,
{
}

/// Where the size is left open, the size that is picked is within its limits, and is the window's
/// where that is.
pub proof fn law_extent_is_allowed(capabilities: SurfaceCapabilities, window: Extent)
    requires
        capabilities.extents_in_order(),
        capabilities.current_extent.width == u32::MAX,
    ensures
        ({
            let extent = capabilities.extent_for(window);
            let low = capabilities.min_image_extent;
            let high = capabilities.max_image_extent;
            &&& low.width <= extent.width <= high.width
            &&& low.height <= extent.height <= high.height
            &&& low.width <= window.width <= high.width ==> extent.width == window.width
            &&& low.height <= window.height <= high.height ==> extent.height == window.height
        }),
{
}

/// What is done when the window asks for a new set of images: nothing while it has no area.
pub fn recreates_swapchain(window: Extent) -> (out: bool)
    ensures
        out == (window.width != 0 && window.height != 0),
{
    window.width != 0 && window.height != 0
}

/// There is one image more than must be, unless that is more than may be; then there are as many as may
/// be.
pub proof fn law_one_image_more_than_must_be(capabilities: SurfaceCapabilities)
    ensures
        capabilities.max_image_count == 0 || capabilities.min_image_count
            < capabilities.max_image_count ==> capabilities.image_count()
            == capabilities.min_image_count + 1,
        0 < capabilities.max_image_count <= capabilities.min_image_count
            ==> capabilities.image_count() == capabilities.max_image_count,
{
}

/// The images have the size of the surface, where it has one. Otherwise each side is the window's, but
/// the least that is allowed where the window is smaller, and the most where it is larger.
pub proof fn law_images_fit_the_surface(capabilities: SurfaceCapabilities, window: Extent)
    requires
        capabilities.extents_in_order(),
    ensures
        ({
            let extent = capabilities.extent_for(window);
            let low = capabilities.min_image_extent;
            let high = capabilities.max_image_extent;
            if capabilities.current_extent.width != u32::MAX {
                &&& extent.width == capabilities.current_extent.width
                &&& extent.height == capabilities.current_extent.height
            } else {
                &&& window.width <= low.width ==> extent.width == low.width
                &&& window.width >= high.width ==> extent.width == high.width
                &&& low.width <= window.width <= high.width ==> extent.width == window.width
                &&& window.height <= low.height ==> extent.height == low.height
                &&& window.height >= high.height ==> extent.height == high.height
                &&& low.height <= window.height <= high.height ==> extent.height == window.height
            }
        }),
{
}

/// Eight bits each of blue, green, red and alpha in non-linear sRGB are preferred, and nothing else.
pub proof fn law_srgb_is_preferred(format: SurfaceFormat)
    ensures
        preferred(format) <==> format.format == 50 && format.color_space == 0,
        PRESENT_MODE_MAILBOX == 1,
{
}

} // verus!
