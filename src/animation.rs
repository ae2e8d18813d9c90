use vstd::prelude::*;
use crate::canvas::{Canvas, CanvasView, rgba_bytes};
use crate::gif_stream::{
    gif_written, gif_frame_block, gif_screen, gif_loop_forever_block, gif_trailer, gif_start, gif_loop_forever,
    gif_write_rgba_frame, gif_finish,
};

verus! {

/// Why a sequence of canvases cannot be encoded as an animation.
#[derive(Clone, Copy, Debug, PartialEq, Eq, Structural)]
pub enum AnimationError {
    /// The sequence holds no canvas.
    NoFrames,
    /// The frame rate is zero, so no frame has a duration.
    ZeroFrameRate,
    /// Some canvas differs in size from the first.
    SizeMismatch,
    /// The canvases are wider or taller than the format's 65535 pixels.
    TooLarge,
    /// The encoder failed while writing.
    Encoding,
}

/// Receives one report per frame as frames are written: the 1-based index
/// of the frame just written and the number of frames.
pub trait FrameProgress {
    fn frame_written(&mut self, index: usize, total: usize);
}

/// Progress that is ignored.
pub struct NoProgress;

impl FrameProgress for NoProgress {
    fn frame_written(&mut self, index: usize, total: usize) {
    }
}

/// Progress kept as the list of reports received.
pub struct ProgressLog {
    pub reports: Vec<(usize, usize)>,
}

impl FrameProgress for ProgressLog {
    fn frame_written(&mut self, index: usize, total: usize) {
        self.reports.push((index, total));
    }
}

/// The display time of each frame at `frame_rate` frames per second, in
/// hundredths of a second: `round(1000 / frame_rate)` milliseconds, divided
/// by ten and rounded down.
pub open spec fn frame_delay_spec(frame_rate: int) -> int {
    ((2000 + frame_rate) / (2 * frame_rate)) / 10
}

pub open spec fn canvas_views(frames: Seq<Canvas>) -> Seq<CanvasView> {
    frames.map_values(|c: Canvas| c@)
}

/// The error that a sequence of canvases and a frame rate give, if any,
/// checked in this order.
pub open spec fn animation_error(frames: Seq<CanvasView>, frame_rate: int) -> Option<AnimationError> {
    if frames.len() == 0 {
        Some(AnimationError::NoFrames)
    } else if frame_rate == 0 {
        Some(AnimationError::ZeroFrameRate)
    } else if exists|i: int| 0 <= i < frames.len() && !(#[trigger] frames[i]).same_size(frames[0]) {
        Some(AnimationError::SizeMismatch)
    } else if frames[0].width > u16::MAX || frames[0].height > u16::MAX {
        Some(AnimationError::TooLarge)
    } else {
        None
    }
}

/// Everything the encoder writes, in order: the frame size, the delay of
/// every frame, and each frame's RGBA bytes.
pub struct AnimationPlan {
    pub width: u16,
    pub height: u16,
    pub delay: u16,
    pub frames: Vec<Vec<u8>>,
}

/// The delay of each frame at `frame_rate` frames per second, in
/// hundredths of a second.
pub fn frame_delay(frame_rate: u16) -> (r: u16)
    requires
        frame_rate > 0,
    ensures
        r == frame_delay_spec(frame_rate as int),
{
    let millis: u32 = (2000 + frame_rate as u32) / (2 * frame_rate as u32);
    assert(millis <= 1000) by (nonlinear_arith)
        requires
            millis == (2000 + frame_rate as int) / (2 * frame_rate as int),
            frame_rate >= 1,
    ;
    (millis / 10) as u16
}

/// Checks a sequence of canvases and lays out what encoding it writes:
/// the shared size, the delay for `frame_rate`, and the frames' bytes in
/// their order.
pub fn plan_animation(frames: &Vec<Canvas>, frame_rate: u16) -> (r: Result<AnimationPlan, AnimationError>)
    ensures
        animation_error(canvas_views(frames@), frame_rate as int) matches Some(e) ==> r == Err::<AnimationPlan, AnimationError>(e),
        animation_error(canvas_views(frames@), frame_rate as int) is None ==> (r matches Ok(plan) && {
            &&& plan.width == frames@[0]@.width
            &&& plan.height == frames@[0]@.height
            &&& plan.delay == frame_delay_spec(frame_rate as int)
            &&& plan.frames@.len() == frames@.len()
            &&& forall|i: int| 0 <= i < frames@.len() ==> (#[trigger] plan.frames@[i])@ == rgba_bytes(frames@[i]@.pixels)
            &&& forall|i: int| 0 <= i < frames@.len() ==> (#[trigger] plan.frames@[i])@.len() == plan.width * plan.height * 4
        }),
{
    let ghost views = canvas_views(frames@);
    if frames.len() == 0 {
        return Err(AnimationError::NoFrames);
    }
    if frame_rate == 0 {
        return Err(AnimationError::ZeroFrameRate);
    }
    let width = frames[0].width();
    let height = frames[0].height();
    proof {
        assert(views[0] == frames@[0]@);
    }
    let mut i: usize = 0;
    while i < frames.len()
        invariant
            0 < frames@.len(),
            frame_rate > 0,
            i <= frames@.len(),
            views == canvas_views(frames@),
            width == views[0].width,
            height == views[0].height,
            forall|j: int| 0 <= j < i ==> (#[trigger] views[j]).same_size(views[0]),
        decreases frames@.len() - i,
    {
        proof {
            assert(views[i as int] == frames@[i as int]@);
        }
        if frames[i].width() != width || frames[i].height() != height {
            proof {
                assert(views[i as int] == frames@[i as int]@);
                assert(!views[i as int].same_size(views[0]));
                assert(views.len() == frames@.len());
                assert(exists|j: int| 0 <= j < views.len() && !(#[trigger] views[j]).same_size(views[0]));
            }
            return Err(AnimationError::SizeMismatch);
        }
        i += 1;
    }
    if width > u16::MAX as u32 || height > u16::MAX as u32 {
        return Err(AnimationError::TooLarge);
    }
    let delay = frame_delay(frame_rate);
    let mut bytes: Vec<Vec<u8>> = Vec::with_capacity(frames.len());
    let mut k: usize = 0;
    while k < frames.len()
        invariant
            k <= frames@.len(),
            bytes@.len() == k,
            views == canvas_views(frames@),
            width == views[0].width,
            height == views[0].height,
            forall|j: int| 0 <= j < frames@.len() ==> (#[trigger] views[j]).same_size(views[0]),
            forall|j: int| 0 <= j < k ==> (#[trigger] bytes@[j])@ == rgba_bytes(frames@[j]@.pixels),
            forall|j: int| 0 <= j < k ==> (#[trigger] bytes@[j])@.len() == width * height * 4,
        decreases frames@.len() - k,
    {
        proof {
            assert(views[k as int] == frames@[k as int]@);
        }
        bytes.push(frames[k].to_rgba_bytes());
        k += 1;
    }
    Ok(AnimationPlan { width: width as u16, height: height as u16, delay, frames: bytes })
}

/// The frame blocks of a GIF whose frames all have the given size and
/// delay, in the order of `frames`.
pub open spec fn gif_frames(width: nat, height: nat, delay: nat, frames: Seq<Seq<u8>>) -> Seq<u8>
    decreases frames.len(),
{
    if frames.len() == 0 {
        Seq::empty()
    } else {
        gif_frames(width, height, delay, frames.drop_last()) + gif_frame_block(width, height, delay, frames.last())
    }
}

/// A whole GIF file that loops forever: the screen, the looping extension,
/// every frame in order, and the trailer.
pub open spec fn gif_file(width: nat, height: nat, delay: nat, frames: Seq<Seq<u8>>) -> Seq<u8> {
    gif_screen(width, height) + gif_loop_forever_block() + gif_frames(width, height, delay, frames) + gif_trailer()
}

/// The RGBA bytes of each frame of a plan.
pub open spec fn plan_frames(frames: Seq<Vec<u8>>) -> Seq<Seq<u8>> {
    frames.map_values(|f: Vec<u8>| f@)
}

/// The RGBA bytes of each canvas.
pub open spec fn canvas_frames(frames: Seq<CanvasView>) -> Seq<Seq<u8>> {
    frames.map_values(|c: CanvasView| rgba_bytes(c.pixels))
}

/// The file that encoding valid canvases at `frame_rate` writes.
pub open spec fn animation_file(frames: Seq<CanvasView>, frame_rate: int) -> Seq<u8> {
    gif_file(frames[0].width, frames[0].height, frame_delay_spec(frame_rate) as nat, canvas_frames(frames))
}

fn copy_bytes(v: &Vec<u8>) -> (r: Vec<u8>)
    ensures
        r@ == v@,
{
    let mut r: Vec<u8> = Vec::with_capacity(v.len());
    let mut i: usize = 0;
    while i < v.len()
        invariant
            i <= v@.len(),
            r@ == v@.take(i as int),
        decreases v@.len() - i,
    {
        r.push(v[i]);
        i += 1;
        proof {
            assert(r@ =~= v@.take(i as int));
        }
    }
    proof {
        assert(r@ =~= v@);
    }
    r
}

/// Writes a planned animation as a GIF that loops forever, frame after
/// frame in order, reporting each frame once it is written. It fails only
/// when the encoder cannot reserve memory for a frame.
pub fn encode_plan<P: FrameProgress>(plan: AnimationPlan, progress: &mut P) -> (r: Result<Vec<u8>, AnimationError>)
    requires
        forall|i: int| 0 <= i < plan.frames@.len() ==> (#[trigger] plan.frames@[i])@.len() == plan.width * plan.height * 4,
    ensures
        r matches Ok(bytes) ==> bytes@ == gif_file(
            plan.width as nat,
            plan.height as nat,
            plan.delay as nat,
            plan_frames(plan.frames@),
        ),
        r matches Err(e) ==> e == AnimationError::Encoding,
{
    let ghost all = plan_frames(plan.frames@);
    let AnimationPlan { width, height, delay, frames } = plan;
    let mut stream = match gif_start(width, height) {
        Ok(s) => s,
        Err(_) => return Err(AnimationError::Encoding),
    };
    if gif_loop_forever(&mut stream).is_err() {
        return Err(AnimationError::Encoding);
    }
    let ghost head = gif_screen(width as nat, height as nat) + gif_loop_forever_block();
    let total = frames.len();
    let mut i: usize = 0;
    proof {
        assert(all.take(0) =~= Seq::<Seq<u8>>::empty());
        assert(gif_written(stream) =~= head + gif_frames(width as nat, height as nat, delay as nat, all.take(0)));
    }
    while i < total
        invariant
            i <= total,
            total == frames@.len(),
            all == plan_frames(frames@),
            forall|j: int| 0 <= j < total ==> (#[trigger] frames@[j])@.len() == width * height * 4,
            gif_written(stream) == head + gif_frames(width as nat, height as nat, delay as nat, all.take(i as int)),
        decreases total - i,
    {
        let pixels = copy_bytes(&frames[i]);
        let ghost written = gif_written(stream);
        if gif_write_rgba_frame(&mut stream, width, height, delay, pixels).is_err() {
            return Err(AnimationError::Encoding);
        }
        proof {
            let next = all.take(i as int + 1);
            assert(next.drop_last() =~= all.take(i as int));
            assert(next.last() == frames@[i as int]@);
            assert(gif_written(stream) =~= head + gif_frames(width as nat, height as nat, delay as nat, next));
        }
        i += 1;
        progress.frame_written(i, total);
    }
    proof {
        assert(all.take(total as int) =~= all);
    }
    match gif_finish(stream) {
        Ok(bytes) => Ok(bytes),
        Err(_) => Err(AnimationError::Encoding),
    }
}

/// Encodes a non-empty sequence of equally sized canvases as a GIF that
/// loops forever, each frame shown for the delay that `frame_rate` gives.
/// Every check is made before anything is encoded; the encoding itself
/// fails only when the encoder cannot reserve memory for a frame.
pub fn encode_animation<P: FrameProgress>(frames: &Vec<Canvas>, frame_rate: u16, progress: &mut P) -> (r: Result<
    Vec<u8>,
    AnimationError,
>)
    ensures
        animation_error(canvas_views(frames@), frame_rate as int) matches Some(e) ==> r == Err::<Vec<u8>, AnimationError>(e),
        animation_error(canvas_views(frames@), frame_rate as int) is None ==> match r {
            Ok(bytes) => bytes@ == animation_file(canvas_views(frames@), frame_rate as int),
            Err(e) => e == AnimationError::Encoding,
        },
{
    match plan_animation(frames, frame_rate) {
        Ok(plan) => {
            proof {
                let views = canvas_views(frames@);
                assert(plan_frames(plan.frames@) =~= canvas_frames(views));
                assert(views[0] == frames@[0]@);
            }
            encode_plan(plan, progress)
        },
        Err(e) => Err(e),
    }
}

} // verus!
