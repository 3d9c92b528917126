//! The course of a frame: what is waited for, what is drawn, and what follows from how it went.

use crate::swapchain::Extent;
use vstd::prelude::*;

verus! {

/// How many frames may be under way at a time.
pub const MAX_FRAMES_IN_FLIGHT: usize = 3;

/// What is kept from frame to frame.
pub struct FrameState {
    /// Which of the frames under way comes next.
    pub frame: usize,
    /// Whether the window has changed its size.
    pub resized: bool,
    /// For each frame under way, whether its times have been taken.
    pub queries_valid: [bool; 3],
    /// For each image, the frame that drew it last.
    pub images_in_flight: Vec<Option<usize>>,
    /// Counts all frames, from zero again after the highest number.
    pub frame_index: u32,
    /// How many frames the camera has stood still.
    pub accumulated_samples: u32,
    /// Whether the view of the last frame is known.
    pub has_last_view: bool,
}

pub struct FrameView {
    pub frame: usize,
    pub resized: bool,
    pub queries_valid: Seq<bool>,
    pub images_in_flight: Seq<Option<usize>>,
    pub frame_index: u32,
    pub accumulated_samples: u32,
    pub has_last_view: bool,
}

impl View for FrameState {
    type V = FrameView;

    open spec fn view(&self) -> FrameView {
        FrameView {
            frame: self.frame,
            resized: self.resized,
            queries_valid: self.queries_valid@,
            images_in_flight: self.images_in_flight@,
            frame_index: self.frame_index,
            accumulated_samples: self.accumulated_samples,
            has_last_view: self.has_last_view,
        }
    }
}

/// What is done before an image is asked for.
#[derive(Clone, Copy, PartialEq, Eq, Structural, Debug)]
pub struct FrameStart {
    /// The frame whose end is waited for, and with whose semaphore the image is asked for.
    pub frame: usize,
    /// The first of the two times that are read, where they have been taken.
    pub first_query: Option<u32>,
    /// Whether changes to the scene wait to be made.
    pub apply_model_ops: bool,
}

/// What came of asking for an image.
#[derive(Clone, Copy, PartialEq, Eq, Structural, Debug)]
pub enum AcquireResult {
    Image(usize),
    OutOfDate,
    Failed,
}

/// What follows from it.
#[derive(Clone, Copy, PartialEq, Eq, Structural, Debug)]
pub enum AcquireDecision {
    /// This image is drawn.
    Draw(usize),
    /// The images are made anew, and nothing is drawn.
    Recreate,
    /// The failure is passed on.
    Fail,
}

/// What came of showing an image.
#[derive(Clone, Copy, PartialEq, Eq, Structural, Debug)]
pub enum PresentResult {
    Shown,
    Suboptimal,
    OutOfDate,
    Failed,
}

/// What follows from it.
#[derive(Clone, Copy, PartialEq, Eq, Structural, Debug)]
pub enum PresentDecision {
    /// On to the next frame.
    Next,
    /// The images are made anew, and on to the next frame.
    Recreate,
    /// The failure is passed on.
    Fail,
}

impl FrameView {
    /// Before the first frame, with so many images.
    pub open spec fn fresh(images: nat) -> FrameView {
        FrameView {
            frame: 0,
            resized: false,
            queries_valid: seq![false, false, false],
            images_in_flight: Seq::new(images, |i: int| None),
            frame_index: 0,
            accumulated_samples: 0,
            has_last_view: false,
        }
    }

    /// With an image taken for the frame.
    pub open spec fn claimed(self, image: int) -> FrameView {
        FrameView {
            images_in_flight: self.images_in_flight.update(image, Some(self.frame)),
            ..self
        }
    }

    /// With the frame counted.
    pub open spec fn counted(self, camera_moved: bool) -> FrameView {
        FrameView {
            frame_index: if self.frame_index == u32::MAX {
                0
            } else {
                (self.frame_index + 1) as u32
            },
            accumulated_samples: if camera_moved || !self.has_last_view {
                0
            } else {
                (self.accumulated_samples + 1) as u32
            },
            has_last_view: true,
            ..self
        }
    }

    /// With the times of the frame taken.
    pub open spec fn timed(self) -> FrameView {
        FrameView { queries_valid: self.queries_valid.update(self.frame as int, true), ..self }
    }

    /// What follows from showing an image.
    pub open spec fn decides(self, result: PresentResult) -> PresentDecision {
        if self.resized || result is Suboptimal || result is OutOfDate {
            PresentDecision::Recreate
        } else if result is Failed {
            PresentDecision::Fail
        } else {
            PresentDecision::Next
        }
    }

    /// After an image has been shown.
    pub open spec fn shown(self, result: PresentResult) -> FrameView {
        FrameView { resized: self.resized && !(self.decides(result) is Recreate), ..self }
    }

    /// On to the next frame.
    pub open spec fn turned(self) -> FrameView {
        FrameView {
            frame: ((self.frame + 1) % (MAX_FRAMES_IN_FLIGHT as int)) as usize,
            ..self
        }
    }

    /// Afresh with so many new images.
    pub open spec fn renewed(self, images: nat) -> FrameView {
        FrameView {
            accumulated_samples: 0,
            has_last_view: false,
            queries_valid: seq![false, false, false],
            images_in_flight: Seq::new(images, |i: int| None),
            ..self
        }
    }
}

impl FrameState {
    /// The frame is one of those that may be under way.
    pub open spec fn wf(&self) -> bool {
        self.frame < MAX_FRAMES_IN_FLIGHT
    }

    /// The state before the first frame, with so many images.
    pub fn new(images: usize) -> (out: Self)
        ensures
            out.wf(),
            out@ == (FrameView {
                frame: 0,
                resized: false,
                queries_valid: seq![false, false, false],
                images_in_flight: Seq::new(images as nat, |i: int| None),
                frame_index: 0,
                accumulated_samples: 0,
                has_last_view: false,
            }),
            out@ == FrameView::fresh(images as nat),
    {
        let state = FrameState {
            frame: 0,
            resized: false,
            queries_valid: [false, false, false],
            images_in_flight: no_frames(images),
            frame_index: 0,
            accumulated_samples: 0,
            has_last_view: false,
        };
        proof {
            assert(state@.queries_valid =~= seq![false, false, false]);
        }
        state
    }

    /// What is done before an image is asked for.
    pub fn begin(&self, pending_ops: bool) -> (out: FrameStart)
        requires
            self.wf(),
        ensures
            out.frame == self@.frame,
            out.first_query == if self@.queries_valid[self@.frame as int] {
                Some((self@.frame * 2) as u32)
            } else {
                None
            },
            out.apply_model_ops == pending_ops,
    {
        FrameStart {
            frame: self.frame,
            first_query: if self.queries_valid[self.frame] {
                Some(self.frame as u32 * 2)
            } else {
                None
            },
            apply_model_ops: pending_ops,
        }
    }

    /// Takes an image for the frame. Gives the frame that drew it last, whose end is waited for.
    pub fn claim_image(&mut self, image: usize) -> (out: Option<usize>)
        requires
            old(self).wf(),
            image < old(self)@.images_in_flight.len(),
        ensures
            final(self).wf(),
            out == old(self)@.images_in_flight[image as int],
            final(self)@ == (FrameView {
                images_in_flight: old(self)@.images_in_flight.update(
                    image as int,
                    Some(old(self)@.frame),
                ),
                ..old(self)@
            }),
            final(self)@ == old(self)@.claimed(image as int),
    {
        let before = self.images_in_flight[image];
        self.images_in_flight.set(image, Some(self.frame));
        before
    }

    /// Counts the frame. Where the camera has moved since the last view, or there is none, light is
    /// gathered from the start.
    pub fn count(&mut self, camera_moved: bool)
        requires
            old(self).wf(),
            !camera_moved && old(self)@.has_last_view ==> old(self)@.accumulated_samples < u32::MAX,
        ensures
            final(self).wf(),
            final(self)@ == (FrameView {
                frame_index: if old(self)@.frame_index == u32::MAX {
                    0
                } else {
                    (old(self)@.frame_index + 1) as u32
                },
                accumulated_samples: if camera_moved || !old(self)@.has_last_view {
                    0
                } else {
                    (old(self)@.accumulated_samples + 1) as u32
                },
                has_last_view: true,
                ..old(self)@
            }),
            final(self)@ == old(self)@.counted(camera_moved),
    {
        self.frame_index = if self.frame_index == u32::MAX {
            0
        } else {
            self.frame_index + 1
        };
        self.accumulated_samples = if camera_moved || !self.has_last_view {
            0
        } else {
            self.accumulated_samples + 1
        };
        self.has_last_view = true;
    }

    /// Notes that the times of the frame have been taken.
    pub fn submitted(&mut self)
        requires
            old(self).wf(),
        ensures
            final(self).wf(),
            final(self)@ == (FrameView {
                queries_valid: old(self)@.queries_valid.update(old(self)@.frame as int, true),
                ..old(self)@
            }),
            final(self)@ == old(self)@.timed(),
    {
        let frame: usize = self.frame;
        self.queries_valid[frame] = true;
        proof {
            assert(self@.queries_valid =~= old(self)@.queries_valid.update(frame as int, true));
        }
    }

    /// Decides what follows from showing the image.
    pub fn presented(&mut self, result: PresentResult) -> (out: PresentDecision)
        requires
            old(self).wf(),
        ensures
            final(self).wf(),
            out == if old(self)@.resized || result is Suboptimal || result is OutOfDate {
                PresentDecision::Recreate
            } else if result is Failed {
                PresentDecision::Fail
            } else {
                PresentDecision::Next
            },
            final(self)@ == (FrameView {
                resized: if out is Recreate {
                    false
                } else {
                    old(self)@.resized
                },
                ..old(self)@
            }),
            out == old(self)@.decides(result),
            final(self)@ == old(self)@.shown(result),
    {
        let changed = match result {
            PresentResult::Suboptimal => true,
            PresentResult::OutOfDate => true,
            _ => false,
        };
        if self.resized || changed {
            self.resized = false;
            PresentDecision::Recreate
        } else {
            match result {
                PresentResult::Failed => PresentDecision::Fail,
                _ => PresentDecision::Next,
            }
        }
    }

    /// Goes on to the next frame.
    pub fn next(&mut self)
        requires
            old(self).wf(),
        ensures
            final(self).wf(),
            final(self)@ == (FrameView {
                frame: ((old(self)@.frame + 1) % (MAX_FRAMES_IN_FLIGHT as int)) as usize,
                ..old(self)@
            }),
            final(self)@ == old(self)@.turned(),
    {
        self.frame = (self.frame + 1) % MAX_FRAMES_IN_FLIGHT;
    }

    /// Starts afresh with so many new images: no times have been taken, no image has been drawn, and
    /// light is gathered from the start.
    pub fn recreated(&mut self, images: usize)
        requires
            old(self).wf(),
        ensures
            final(self).wf(),
            final(self)@ == (FrameView {
                accumulated_samples: 0,
                has_last_view: false,
                queries_valid: seq![false, false, false],
                images_in_flight: Seq::new(images as nat, |i: int| None),
                ..old(self)@
            }),
            final(self)@ == old(self)@.renewed(images as nat),
    {
        self.accumulated_samples = 0;
        self.has_last_view = false;
        self.queries_valid = [false, false, false];
        self.images_in_flight = no_frames(images);
        proof {
            assert(self@.queries_valid =~= seq![false, false, false]);
        }
    }
}

/// Images that no frame has drawn.
fn no_frames(images: usize) -> (out: Vec<Option<usize>>)
    ensures
        out@ == Seq::new(images as nat, |i: int| None::<usize>),
{
    let mut list: Vec<Option<usize>> = Vec::new();
    let mut i: usize = 0;
    while i < images
        invariant
            i <= images,
            list@ == Seq::new(i as nat, |k: int| None::<usize>),
        decreases images - i,
    {
        list.push(None);
        proof {
            assert(list@ =~= Seq::new((i + 1) as nat, |k: int| None::<usize>));
        }
        i = i + 1;
    }
    list
}

/// Decides what follows from asking for an image.
pub fn after_acquire(result: AcquireResult) -> (out: AcquireDecision)
    ensures
        out == match result {
            AcquireResult::Image(index) => AcquireDecision::Draw(index),
            AcquireResult::OutOfDate => AcquireDecision::Recreate,
            AcquireResult::Failed => AcquireDecision::Fail,
        },
{
    match result {
        AcquireResult::Image(index) => AcquireDecision::Draw(index),
        AcquireResult::OutOfDate => AcquireDecision::Recreate,
        AcquireResult::Failed => AcquireDecision::Fail,
    }
}

/// The ticks between two times; none where the second is earlier.
pub fn elapsed_ticks(first: u64, second: u64) -> (out: u64)
    ensures
        out == if second >= first {
            second - first
        } else {
            0
        },
{
    if second >= first {
        second - first
    } else {
        0
    }
}

/// The images that a frame works on.
#[derive(Clone, Copy, PartialEq, Eq, Structural, Debug)]
pub enum FrameImage {
    /// In which light is gathered.
    Accum,
    /// That is drawn.
    Storage,
    /// That is shown.
    Swapchain,
}

/// What an image is laid out for.
#[derive(Clone, Copy, PartialEq, Eq, Structural, Debug)]
pub enum ImageUse {
    Undefined,
    General,
    TransferTarget,
    Present,
}

/// An image goes from one layout to another.
#[derive(Clone, Copy, PartialEq, Eq, Structural, Debug)]
pub struct Transition {
    pub image: FrameImage,
    pub from: ImageUse,
    pub to: ImageUse,
}

/// The parts of the device that wait for each other.
#[derive(Clone, Copy, PartialEq, Eq, Structural, Debug)]
pub enum Stage {
    RayTracing,
    Compute,
    Transfer,
    End,
}

/// A step of a frame on the device.
#[derive(Clone, Copy, PartialEq, Eq, Structural, Debug)]
pub enum FrameCommand {
    /// Move the models that always move.
    UpdateDynamicModels,
    ResetQueries { first_query: u32, count: u32 },
    /// Take the time at the start, or when all is done.
    WriteTimestamp { at_end: bool, query: u32 },
    /// Use the ray tracing pipeline with the descriptors of this image.
    BindRayTracing { set: usize },
    PushConstants { frame_index: u32, accumulated_samples: u32 },
    TraceRays { width: u32, height: u32 },
    /// Let one part wait for another, and change the layouts of one or two images.
    Barrier { from: Stage, to: Stage, first: Transition, second: Option<Transition> },
    /// Use the denoiser with the descriptors of this image.
    BindDenoise { set: usize },
    Dispatch { groups_x: u32, groups_y: u32 },
    /// Copy the image that was drawn to the one that is shown.
    Blit { width: u32, height: u32 },
}

/// The number of groups of eight by eight threads for so many pixels.
pub open spec fn pixel_groups(pixels: u32) -> int {
    (pixels + 7) / 8
}

/// The steps of a frame.
pub open spec fn frame_commands(
    image: usize,
    extent: Extent,
    frame_index: u32,
    accumulated_samples: u32,
) -> Seq<FrameCommand> {
    seq![
        FrameCommand::UpdateDynamicModels,
        FrameCommand::ResetQueries { first_query: (image * 2) as u32, count: 2 },
        FrameCommand::WriteTimestamp { at_end: false, query: (image * 2) as u32 },
        FrameCommand::BindRayTracing { set: image },
        FrameCommand::PushConstants { frame_index, accumulated_samples },
        FrameCommand::TraceRays { width: extent.width, height: extent.height },
        FrameCommand::Barrier {
            from: Stage::RayTracing,
            to: Stage::Compute,
            first: Transition {
                image: FrameImage::Accum,
                from: ImageUse::General,
                to: ImageUse::General,
            },
            second: None,
        },
        FrameCommand::BindDenoise { set: image },
        FrameCommand::Dispatch {
            groups_x: pixel_groups(extent.width) as u32,
            groups_y: pixel_groups(extent.height) as u32,
        },
        FrameCommand::Barrier {
            from: Stage::Compute,
            to: Stage::Transfer,
            first: Transition {
                image: FrameImage::Storage,
                from: ImageUse::General,
                to: ImageUse::General,
            },
            second: Some(
                Transition {
                    image: FrameImage::Swapchain,
                    from: ImageUse::Undefined,
                    to: ImageUse::TransferTarget,
                },
            ),
        },
        FrameCommand::Blit { width: extent.width, height: extent.height },
        FrameCommand::Barrier {
            from: Stage::Transfer,
            to: Stage::End,
            first: Transition {
                image: FrameImage::Swapchain,
                from: ImageUse::TransferTarget,
                to: ImageUse::Present,
            },
            second: None,
        },
        FrameCommand::WriteTimestamp { at_end: true, query: (image * 2 + 1) as u32 },
    ]
}

/// Plans the steps of a frame.
pub fn render(
    image: usize,
    extent: Extent,
    frame_index: u32,
    accumulated_samples: u32,
) -> (out: Vec<FrameCommand>)
    requires
        image * 2 + 1 <= u32::MAX,
        extent.width <= u32::MAX - 7,
        extent.height <= u32::MAX - 7,
    ensures
        out@ == frame_commands(image, extent, frame_index, accumulated_samples),
{
    let query: u32 = image as u32 * 2;
    let mut steps: Vec<FrameCommand> = Vec::new();
    steps.push(FrameCommand::UpdateDynamicModels);
    steps.push(FrameCommand::ResetQueries { first_query: query, count: 2 });
    steps.push(FrameCommand::WriteTimestamp { at_end: false, query });
    steps.push(FrameCommand::BindRayTracing { set: image });
    steps.push(FrameCommand::PushConstants { frame_index, accumulated_samples });
    steps.push(FrameCommand::TraceRays { width: extent.width, height: extent.height });
    steps.push(
        FrameCommand::Barrier {
            from: Stage::RayTracing,
            to: Stage::Compute,
            first: Transition {
                image: FrameImage::Accum,
                from: ImageUse::General,
                to: ImageUse::General,
            },
            second: None,
        },
    );
    steps.push(FrameCommand::BindDenoise { set: image });
    steps.push(
        FrameCommand::Dispatch {
            groups_x: (extent.width + 7) / 8,
            groups_y: (extent.height + 7) / 8,
        },
    );
    steps.push(
        FrameCommand::Barrier {
            from: Stage::Compute,
            to: Stage::Transfer,
            first: Transition {
                image: FrameImage::Storage,
                from: ImageUse::General,
                to: ImageUse::General,
            },
            second: Some(
                Transition {
                    image: FrameImage::Swapchain,
                    from: ImageUse::Undefined,
                    to: ImageUse::TransferTarget,
                },
            ),
        },
    );
    steps.push(FrameCommand::Blit { width: extent.width, height: extent.height });
    steps.push(
        FrameCommand::Barrier {
            from: Stage::Transfer,
            to: Stage::End,
            first: Transition {
                image: FrameImage::Swapchain,
                from: ImageUse::TransferTarget,
                to: ImageUse::Present,
            },
            second: None,
        },
    );
    steps.push(FrameCommand::WriteTimestamp { at_end: true, query: query + 1 });
    proof {
        assert(steps@ =~= frame_commands(image, extent, frame_index, accumulated_samples));
    }
    steps
}

/// What the three images are laid out for.
pub struct Layouts {
    pub accum: ImageUse,
    pub storage: ImageUse,
    pub swapchain: ImageUse,
}

impl Layouts {
    pub open spec fn of(self, image: FrameImage) -> ImageUse {
        match image {
            FrameImage::Accum => self.accum,
            FrameImage::Storage => self.storage,
            FrameImage::Swapchain => self.swapchain,
        }
    }

    pub open spec fn with(self, image: FrameImage, layout: ImageUse) -> Layouts {
        match image {
            FrameImage::Accum => Layouts { accum: layout, ..self },
            FrameImage::Storage => Layouts { storage: layout, ..self },
            FrameImage::Swapchain => Layouts { swapchain: layout, ..self },
        }
    }

    /// Whether an image is as a transition takes it: it may start from anything where what it holds
    /// is given up.
    pub open spec fn allows(self, transition: Transition) -> bool {
        transition.from is Undefined || self.of(transition.image) == transition.from
    }

    /// After a step; nothing where the images are not laid out for it.
    pub open spec fn after(self, step: FrameCommand) -> Option<Layouts> {
        match step {
            FrameCommand::TraceRays { .. } => if self.accum is General && self.storage is General {
                Some(self)
            } else {
                None
            },
            FrameCommand::Dispatch { .. } => if self.accum is General && self.storage is General {
                Some(self)
            } else {
                None
            },
            FrameCommand::Blit { .. } => if self.storage is General
                && self.swapchain is TransferTarget {
                Some(self)
            } else {
                None
            },
            FrameCommand::Barrier { first, second, .. } => if !self.allows(first) {
                None
            } else {
                let one = self.with(first.image, first.to);
                match second {
                    None => Some(one),
                    Some(second) => if one.allows(second) {
                        Some(one.with(second.image, second.to))
                    } else {
                        None
                    },
                }
            },
            _ => Some(self),
        }
    }
}

/// The layouts after the first `n` steps.
pub open spec fn layouts_after(start: Layouts, steps: Seq<FrameCommand>, n: nat) -> Option<Layouts>
    decreases n,
{
    if n == 0 {
        Some(start)
    } else {
        match layouts_after(start, steps, (n - 1) as nat) {
            None => None,
            Some(layouts) => layouts.after(steps[n - 1]),
        }
    }
}

/// In every step of a frame the images are laid out as the step needs them, whatever the image that
/// is shown was before. In the end it can be shown, and the others are as they were.
pub proof fn law_images_are_laid_out_for_every_step(
    image: usize,
    extent: Extent,
    frame_index: u32,
    accumulated_samples: u32,
    before: ImageUse,
)
    ensures
        layouts_after(
            Layouts {
                accum: ImageUse::General,
                storage: ImageUse::General,
                swapchain: before,
            },
            frame_commands(image, extent, frame_index, accumulated_samples),
            13,
        ) == Some(
            Layouts {
                accum: ImageUse::General,
                storage: ImageUse::General,
                swapchain: ImageUse::Present,
            },
        ),
        frame_commands(image, extent, frame_index, accumulated_samples).len() == 13,
{
    reveal_with_fuel(layouts_after, 14);
}

/// The groups of threads cover all pixels, and none of them lies outside as a whole.
pub proof fn law_groups_cover_all_pixels(pixels: u32)
    ensures
        pixels <= pixel_groups(pixels) * 8 < pixels + 8,
{
}

/// The frames that may be under way take turns: after each has come once it is the first one's turn
/// again.
pub proof fn law_frames_take_turns(frame: usize)
    requires
        frame < MAX_FRAMES_IN_FLIGHT,
    ensures
        ({
            let second = (frame + 1) % (MAX_FRAMES_IN_FLIGHT as int);
            let third = (second + 1) % (MAX_FRAMES_IN_FLIGHT as int);
            &&& second != frame
            &&& third != frame
            &&& third != second
            &&& (third + 1) % (MAX_FRAMES_IN_FLIGHT as int) == frame
        }),
{
}

/// What a frame does, and with what. The two times are taken around everything that is timed, under
/// the numbers of the image, after these have been reset. The rays are traced for the whole image,
/// with its descriptors and the counters of the frame; then it is denoised, with the same descriptors,
/// and copied as a whole. Each of these waits for the one before it.
pub proof fn law_frames_trace_denoise_and_copy(
    image: usize,
    extent: Extent,
    frame_index: u32,
    accumulated_samples: u32,
)
    requires
        image * 2 + 1 <= u32::MAX,
        extent.width <= u32::MAX - 7,
        extent.height <= u32::MAX - 7,
    ensures
        ({
            let steps = frame_commands(image, extent, frame_index, accumulated_samples);
            &&& steps.len() == 13
            &&& steps[0] is UpdateDynamicModels
            &&& steps[1] matches FrameCommand::ResetQueries { first_query, count } && first_query
                == 2 * image && count == 2
            &&& steps[2] matches FrameCommand::WriteTimestamp { at_end, query } && !at_end && query
                == 2 * image
            &&& steps[3] matches FrameCommand::BindRayTracing { set } && set == image
            &&& steps[4] matches FrameCommand::PushConstants {
                frame_index: f,
                accumulated_samples: a,
            } && f == frame_index && a == accumulated_samples
            &&& steps[5] matches FrameCommand::TraceRays { width, height } && width == extent.width
                && height == extent.height
            &&& steps[6] matches FrameCommand::Barrier { from, to, first, second } && from
                is RayTracing && to is Compute && first.image is Accum && second is None
            &&& steps[7] matches FrameCommand::BindDenoise { set } && set == image
            &&& steps[8] matches FrameCommand::Dispatch { groups_x, groups_y } && 8 * groups_x
                >= extent.width && 8 * groups_x < extent.width + 8 && 8 * groups_y >= extent.height
                && 8 * groups_y < extent.height + 8
            &&& steps[9] matches FrameCommand::Barrier { from, to, first, second } && from
                is Compute && to is Transfer && first.image is Storage && second is Some
            &&& steps[10] matches FrameCommand::Blit { width, height } && width == extent.width
                && height == extent.height
            &&& steps[11] matches FrameCommand::Barrier { from, to, first, second } && from
                is Transfer && to is End && first.image is Swapchain && second is None
            &&& steps[12] matches FrameCommand::WriteTimestamp { at_end, query } && at_end && query
                == 2 * image + 1
        }),
{
}

/// An image remembers the frame that took it last and no other image forgets its own.
pub proof fn law_images_remember_who_took_them(state: FrameView, image: int, other: int)
    requires
        0 <= image < state.images_in_flight.len(),
        0 <= other < state.images_in_flight.len(),
    ensures
        ({
            let after = state.claimed(image);
            &&& after.images_in_flight.len() == state.images_in_flight.len()
            &&& after.images_in_flight[image] == Some(state.frame)
            &&& other != image ==> after.images_in_flight[other] == state.images_in_flight[other]
            &&& after.frame == state.frame
            &&& after.resized == state.resized
            &&& after.queries_valid == state.queries_valid
            &&& after.frame_index == state.frame_index
            &&& after.accumulated_samples == state.accumulated_samples
            &&& after.has_last_view == state.has_last_view
        }),
{
}

/// Light is gathered frame by frame while the camera stands still, and from the start once it has moved, or
/// after the images have been made anew. Frames are counted on in any case.
pub proof fn law_light_is_gathered_while_nothing_moves(state: FrameView, images: nat, moved: bool)
    ensures
        state.counted(true).accumulated_samples == 0,
        state.has_last_view && state.accumulated_samples < u32::MAX ==> state.counted(
            false,
        ).accumulated_samples == state.accumulated_samples + 1,
        state.renewed(images).counted(moved).accumulated_samples == 0,
        FrameView::fresh(images).counted(moved).accumulated_samples == 0,
        state.counted(moved).has_last_view,
        state.frame_index < u32::MAX ==> state.counted(moved).frame_index == state.frame_index + 1,
        state.frame_index == u32::MAX ==> state.counted(moved).frame_index == 0,
        ({
            let after = state.counted(moved);
            &&& after.frame == state.frame
            &&& after.resized == state.resized
            &&& after.queries_valid == state.queries_valid
            &&& after.images_in_flight == state.images_in_flight
        }),
{
}

/// The images are made anew once the window has changed or they no longer fit it, which is thereby dealt
/// with. A failure is passed on where that is not done, and nothing else is changed by showing an image.
pub proof fn law_changed_windows_get_new_images(state: FrameView, result: PresentResult)
    ensures
        state.decides(result) is Recreate <==> state.resized || result is Suboptimal || result
            is OutOfDate,
        state.decides(result) is Fail <==> !state.resized && result is Failed,
        state.decides(result) is Next <==> !state.resized && result is Shown,
        !state.shown(result).resized,
        ({
            let after = state.shown(result);
            &&& after.frame == state.frame
            &&& after.queries_valid == state.queries_valid
            &&& after.images_in_flight == state.images_in_flight
            &&& after.frame_index == state.frame_index
            &&& after.accumulated_samples == state.accumulated_samples
            &&& after.has_last_view == state.has_last_view
        }),
{
}

/// There are three frames, which take turns; times that are taken are those of the frame whose turn it is,
/// and stay until the images are made anew.
pub proof fn law_times_belong_to_their_frames(state: FrameView, images: nat, frame: int)
    requires
        state.frame < 3,
        state.queries_valid.len() == 3,
        0 <= frame < 3,
    ensures
        state.timed().queries_valid[frame] <==> frame == state.frame || state.queries_valid[frame],
        !state.renewed(images).queries_valid[frame],
        !FrameView::fresh(images).queries_valid[frame],
        state.turned().queries_valid == state.queries_valid,
        state.turned().frame < 3,
        state.turned().frame != state.frame,
        state.turned().turned().frame != state.frame,
        state.turned().turned().turned() == state,
        state.renewed(images).frame == state.frame,
        FrameView::fresh(images).frame == 0,
{
}

/// New images have been taken by no frame.
pub proof fn law_new_images_are_free(state: FrameView, images: nat, image: int)
    requires
        0 <= image < images,
    ensures
        FrameView::fresh(images).images_in_flight.len() == images,
        FrameView::fresh(images).images_in_flight[image] is None,
        !FrameView::fresh(images).resized,
        FrameView::fresh(images).frame_index == 0,
        state.renewed(images).images_in_flight.len() == images,
        state.renewed(images).images_in_flight[image] is None,
        state.renewed(images).resized == state.resized,
        state.renewed(images).frame_index == state.frame_index,
{
}

} // verus!
