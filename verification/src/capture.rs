//! What the screen capture decides and computes: which display to open, how
//! long to wait for the next frame, what to do when the screen is not ready,
//! and how the captured BGRA picture becomes an RGBA frame of the stream's
//! size.

use crate::encoded::Timestamp;
use crate::frame::FrameView;
use crate::frame::RgbaFrame;
use crate::frame::frame_fits;
use crate::frame::lemma_solid_pixel;
use crate::frame::lemma_with_pixel;
use vstd::prelude::*;

verus! {

/// Milliseconds to wait before asking again for a frame that was not ready.
pub const RETRY_DELAY_MILLIS: u64 = 5;

/// Why a capture could not be set up.
#[derive(Clone, Copy, Debug, PartialEq, Eq, Structural)]
pub enum CaptureError {
    /// There is no display with this index among `count` displays.
    ScreenOutOfRange { index: usize, count: usize },
}

/// The display to capture.
#[derive(Clone, Copy, Debug, PartialEq, Eq, Structural)]
pub enum DisplayChoice {
    /// The primary display.
    Primary,
    /// The display at this index in the list of displays.
    Indexed(usize),
}

/// Chooses the display with index `screen_index` among `display_count`
/// displays: index 0 is the primary display, any other is taken from the
/// list, and one beyond the list is an error.
pub fn select_display(screen_index: usize, display_count: usize) -> (res: Result<
    DisplayChoice,
    CaptureError,
>)
    ensures
        screen_index >= display_count ==> res == Err::<DisplayChoice, CaptureError>(
            CaptureError::ScreenOutOfRange { index: screen_index, count: display_count },
        ),
        screen_index < display_count && screen_index == 0 ==> res == Ok::<
            DisplayChoice,
            CaptureError,
        >(DisplayChoice::Primary),
        screen_index < display_count && screen_index != 0 ==> res == Ok::<
            DisplayChoice,
            CaptureError,
        >(DisplayChoice::Indexed(screen_index)),
{
    if screen_index >= display_count {
        return Err(CaptureError::ScreenOutOfRange { index: screen_index, count: display_count });
    }
    if screen_index == 0 {
        Ok(DisplayChoice::Primary)
    } else {
        Ok(DisplayChoice::Indexed(screen_index))
    }
}

/// How long to sleep before the next capture so that frames are
/// `frame_duration` apart: what is left of it after `elapsed`, and nothing
/// once that much time has passed.
pub fn pacing_delay(frame_duration: Timestamp, elapsed: Timestamp) -> (delay: Option<Timestamp>)
    requires
        frame_duration.wf(),
        elapsed.wf(),
    ensures
        delay is Some <==> elapsed.as_nanos() < frame_duration.as_nanos(),
        delay is Some ==> delay->0.wf() && delay->0.as_nanos() == frame_duration.as_nanos()
            - elapsed.as_nanos(),
{
    if elapsed.is_less_than(&frame_duration) {
        frame_duration.checked_sub(&elapsed)
    } else {
        None
    }
}

/// What to do when the screen gave no frame: wait the given milliseconds
/// and ask again where the frame was only not ready yet, give up on any
/// other error.
pub fn retry_delay(would_block: bool) -> (millis: Option<u64>)
    ensures
        millis == if would_block {
            Some(RETRY_DELAY_MILLIS)
        } else {
            None::<u64>
        },
{
    if would_block {
        Some(RETRY_DELAY_MILLIS)
    } else {
        None
    }
}

/// Index of the first byte of the source pixel in column `sx` of row `sy`.
pub open spec fn source_index(src_width: u32, sx: usize, sy: usize) -> int {
    (sy * src_width + sx) * 4
}

/// The RGBA pixel taken from the BGRA picture `frame` at column `sx` of row
/// `sy`: its bytes in the order red, green, blue, alpha, or transparent
/// black where the picture does not hold all four.
pub open spec fn source_pixel(frame: Seq<u8>, src_width: u32, sx: usize, sy: usize) -> Seq<u8> {
    let i = source_index(src_width, sx, sy);
    if i + 3 < frame.len() {
        seq![frame[i + 2], frame[i + 1], frame[i], frame[i + 3]]
    } else {
        blank()
    }
}

/// Transparent black.
pub open spec fn blank() -> Seq<u8> {
    seq![0u8, 0u8, 0u8, 0u8]
}

/// `px` is the source pixel for the target pixel at `(x, y)`, at the source
/// column and row that the two maps give.
pub open spec fn scaled_from<FX: Fn(u32) -> usize, FY: Fn(u32) -> usize>(
    frame: Seq<u8>,
    src_width: u32,
    source_x: FX,
    source_y: FY,
    x: u32,
    y: u32,
    px: Seq<u8>,
) -> bool {
    exists|sx: usize, sy: usize|
        call_ensures(source_x, (x,), sx) && call_ensures(source_y, (y,), sy) && px
            == source_pixel(frame, src_width, sx, sy)
}

/// Makes the frame of the stream out of a captured picture.
///
/// `frame` holds BGRA pixels in rows of `src_width`. Each pixel of the
/// result is the source pixel at the column that `source_x` gives for its
/// column and the row that `source_y` gives for its row, its bytes put in
/// RGBA order; where the picture has no such pixel the result stays
/// transparent black.
pub fn scale_bgra_to_rgba<FX: Fn(u32) -> usize, FY: Fn(u32) -> usize>(
    frame: &[u8],
    src_width: u32,
    target_width: u32,
    target_height: u32,
    source_x: FX,
    source_y: FY,
) -> (img: RgbaFrame)
    requires
        frame_fits(target_width, target_height),
        forall|x: u32| call_requires(source_x, (x,)),
        forall|y: u32| call_requires(source_y, (y,)),
        forall|x: u32, sx: usize, y: u32, sy: usize|
            #![trigger call_ensures(source_x, (x,), sx), call_ensures(source_y, (y,), sy)]
            call_ensures(source_x, (x,), sx) && call_ensures(source_y, (y,), sy)
                ==> source_index(src_width, sx, sy) + 3 <= usize::MAX,
    ensures
        img@.wf(),
        img@.width == target_width,
        img@.height == target_height,
        forall|x: u32, y: u32|
            x < target_width && y < target_height ==> scaled_from(
                frame@,
                src_width,
                source_x,
                source_y,
                x,
                y,
                #[trigger] img@.pixel(x as int, y as int),
            ),
{
    let mut img = RgbaFrame::new(target_width, target_height);
    proof {
        assert forall|i: u32, j: u32| i < target_width && j < target_height implies #[trigger] img@.pixel(
            i as int,
            j as int,
        ) == blank() by {
            lemma_solid_pixel(img@, blank(), i as int, j as int);
        }
    }
    let mut y: u32 = 0;
    while y < target_height
        invariant
            y <= target_height,
            img@.wf(),
            img@.width == target_width,
            img@.height == target_height,
            forall|x: u32| call_requires(source_x, (x,)),
            forall|y: u32| call_requires(source_y, (y,)),
            forall|x: u32, sx: usize, y: u32, sy: usize|
                #![trigger call_ensures(source_x, (x,), sx), call_ensures(source_y, (y,), sy)]
                call_ensures(source_x, (x,), sx) && call_ensures(source_y, (y,), sy)
                    ==> source_index(src_width, sx, sy) + 3 <= usize::MAX,
            forall|i: u32, j: u32|
                i < target_width && j < y ==> scaled_from(
                    frame@,
                    src_width,
                    source_x,
                    source_y,
                    i,
                    j,
                    #[trigger] img@.pixel(i as int, j as int),
                ),
            forall|i: u32, j: u32|
                i < target_width && y <= j < target_height ==> #[trigger] img@.pixel(
                    i as int,
                    j as int,
                ) == blank(),
        decreases target_height - y,
    {
        let src_y: usize = source_y(y);
        let mut x: u32 = 0;
        while x < target_width
            invariant
                y < target_height,
                x <= target_width,
                img@.wf(),
                img@.width == target_width,
                img@.height == target_height,
                call_ensures(source_y, (y,), src_y),
                forall|x: u32| call_requires(source_x, (x,)),
                forall|x: u32, sx: usize, y: u32, sy: usize|
                    #![trigger call_ensures(source_x, (x,), sx), call_ensures(source_y, (y,), sy)]
                    call_ensures(source_x, (x,), sx) && call_ensures(source_y, (y,), sy)
                        ==> source_index(src_width, sx, sy) + 3 <= usize::MAX,
                forall|i: u32, j: u32|
                    i < target_width && j < y ==> scaled_from(
                        frame@,
                        src_width,
                        source_x,
                        source_y,
                        i,
                        j,
                        #[trigger] img@.pixel(i as int, j as int),
                    ),
                forall|i: u32|
                    i < x ==> scaled_from(
                        frame@,
                        src_width,
                        source_x,
                        source_y,
                        i,
                        y,
                        #[trigger] img@.pixel(i as int, y as int),
                    ),
                forall|i: u32|
                    x <= i < target_width ==> #[trigger] img@.pixel(i as int, y as int)
                        == blank(),
                forall|i: u32, j: u32|
                    i < target_width && y < j < target_height ==> #[trigger] img@.pixel(
                        i as int,
                        j as int,
                    ) == blank(),
            decreases target_width - x,
        {
            let src_x: usize = source_x(x);
            proof {
                assert(source_index(src_width, src_x, src_y) + 3 <= usize::MAX);
                assert(0 <= src_y * src_width) by (nonlinear_arith)
                    requires
                        0 <= src_y,
                        0 <= src_width,
                ;
            }
            let src_idx: usize = (src_y * (src_width as usize) + src_x) * 4;
            let ghost before = img@;
            let ghost px: Seq<u8> = source_pixel(frame@, src_width, src_x, src_y);
            if src_idx + 3 < frame.len() {
                let b = frame[src_idx];
                let g = frame[src_idx + 1];
                let r = frame[src_idx + 2];
                let a = frame[src_idx + 3];
                let pixel: [u8; 4] = [r, g, b, a];
                assert(pixel@ =~= px);
                img.put_pixel(x, y, pixel);
                proof {
                    lemma_with_pixel(before, x as int, y as int, pixel@);
                }
            }
            proof {
                assert(px.len() == 4);
                assert(img@.pixel(x as int, y as int) == px);
                assert(scaled_from(
                    frame@,
                    src_width,
                    source_x,
                    source_y,
                    x,
                    y,
                    img@.pixel(x as int, y as int),
                ));
                assert forall|i: u32, j: u32|
                    i < target_width && j < target_height && (i != x || j != y) implies #[trigger] img@.pixel(
                    i as int,
                    j as int,
                ) == before.pixel(i as int, j as int) by {}
            }
            x = x + 1;
        }
        y = y + 1;
    }
    img
}

} // verus!
