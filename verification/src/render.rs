//! Rendering bookkeeping: which pages wait for the background renderer,
//! where a request goes in its queue, whether a finished page is still
//! wanted, and turning a rendered page image to the view's rotation.

use std::collections::HashSet;
use vstd::prelude::*;

verus! {

/// Requests for pages near the visible ones are dropped once the render
/// queue holds this many.
pub const RENDER_QUEUE_LIMIT: usize = 12;

/// Where a render request goes.
#[derive(PartialEq, Eq, Debug, Clone, Copy)]
pub enum RenderPlan {
    /// The page is already rendered at a fitting width, or already waits.
    Skip,
    /// A visible page: to the front of the queue.
    PushFront,
    /// A page near the visible ones: to the back of the queue.
    PushBack,
    /// A page near the visible ones while the queue is full: not queued.
    Drop,
}

/// The pages waiting for the renderer.
pub struct PendingRenders {
    pages: HashSet<usize>,
}

impl View for PendingRenders {
    type V = Set<usize>;

    closed spec fn view(&self) -> Set<usize> {
        self.pages@
    }
}

/// What a render request does: whether it is queued and where.
pub open spec fn plan_for(
    pending: Set<usize>,
    page: usize,
    has_fitting_texture: bool,
    high_priority: bool,
    queue_len: nat,
) -> RenderPlan {
    if has_fitting_texture || pending.contains(page) {
        RenderPlan::Skip
    } else if high_priority {
        RenderPlan::PushFront
    } else if queue_len < RENDER_QUEUE_LIMIT {
        RenderPlan::PushBack
    } else {
        RenderPlan::Drop
    }
}

/// A page that already waits for the renderer is never queued again,
/// whatever its priority; and a page just queued is skipped when it is
/// asked for again, so a page waits in the queue at most once.
pub proof fn law_waiting_page_queued_once(
    pending: Set<usize>,
    page: usize,
    has_fitting_texture: bool,
    high_priority: bool,
    queue_len: nat,
    again_fitting: bool,
    again_high: bool,
    again_len: nat,
)
    ensures
        pending.contains(page) ==> plan_for(
            pending,
            page,
            has_fitting_texture,
            high_priority,
            queue_len,
        ) == RenderPlan::Skip,
        (plan_for(pending, page, has_fitting_texture, high_priority, queue_len)
            == RenderPlan::PushFront || plan_for(
            pending,
            page,
            has_fitting_texture,
            high_priority,
            queue_len,
        ) == RenderPlan::PushBack) ==> plan_for(
            pending.insert(page),
            page,
            again_fitting,
            again_high,
            again_len,
        ) == RenderPlan::Skip,
        !has_fitting_texture && !pending.contains(page) && high_priority ==> plan_for(
            pending,
            page,
            has_fitting_texture,
            high_priority,
            queue_len,
        ) == RenderPlan::PushFront,
{
}

impl PendingRenders {
    /// No page waits.
    pub fn new() -> (p: PendingRenders)
        ensures
            p@ == Set::<usize>::empty(),
    {
        PendingRenders { pages: HashSet::new() }
    }

    /// Whether a page waits.
    pub fn contains(&self, page: usize) -> (b: bool)
        ensures
            b == self@.contains(page),
    {
        broadcast use vstd::std_specs::hash::group_hash_axioms;

        self.pages.contains(&page)
    }

    /// The page no longer waits.
    pub fn remove(&mut self, page: usize)
        ensures
            final(self)@ == old(self)@.remove(page),
    {
        broadcast use vstd::std_specs::hash::group_hash_axioms;

        self.pages.remove(&page);
    }

    /// No page waits any more.
    pub fn clear(&mut self)
        ensures
            final(self)@ == Set::<usize>::empty(),
    {
        self.pages.clear();
    }

    /// Decides a render request for `page`: skipped when the page is
    /// already rendered at a fitting width or already waits; otherwise it
    /// waits from now on and goes to the front of the queue when visible,
    /// to the back when the queue is not full, and is dropped (no longer
    /// waiting) when it is.
    pub fn plan_request(
        &mut self,
        page: usize,
        has_fitting_texture: bool,
        high_priority: bool,
        queue_len: usize,
    ) -> (plan: RenderPlan)
        ensures
            plan == plan_for(old(self)@, page, has_fitting_texture, high_priority, queue_len as nat),
            old(self)@.contains(page) ==> plan == RenderPlan::Skip,
            final(self)@ == if plan == RenderPlan::PushFront || plan == RenderPlan::PushBack {
                old(self)@.insert(page)
            } else {
                old(self)@
            },
    {
        broadcast use vstd::std_specs::hash::group_hash_axioms;

        if has_fitting_texture {
            return RenderPlan::Skip;
        }
        if self.pages.contains(&page) {
            return RenderPlan::Skip;
        }
        self.pages.insert(page);
        if high_priority {
            RenderPlan::PushFront
        } else if queue_len < RENDER_QUEUE_LIMIT {
            RenderPlan::PushBack
        } else {
            self.pages.remove(&page);
            assert(self@ =~= old(self)@);
            RenderPlan::Drop
        }
    }

    /// A page came back from the renderer: it no longer waits. Gives
    /// whether it is still wanted, that is, rendered with the night mode
    /// and rotation the view has now.
    pub fn finish(
        &mut self,
        page: usize,
        rendered_dark: bool,
        rendered_rotation: u8,
        dark: bool,
        rotation: u8,
    ) -> (keep: bool)
        ensures
            final(self)@ == old(self)@.remove(page),
            keep == (rendered_dark == dark && rendered_rotation == rotation),
    {
        self.remove(page);
        rendered_dark == dark && rendered_rotation == rotation
    }
}

// ---------------------------------------------------------------------------
// Page images
// ---------------------------------------------------------------------------

/// A rendered page: `width` by `height` pixels, four bytes (red, green,
/// blue, alpha) per pixel, row after row.
pub struct PageImage {
    pub width: u32,
    pub height: u32,
    pub pixels: Vec<u8>,
}

/// Byte `c` of pixel `(x, y)` in an image `w` pixels wide.
pub open spec fn sample(data: Seq<u8>, w: int, x: int, y: int, c: int) -> u8 {
    data[(y * w + x) * 4 + c]
}

/// Where pixel `(x, y)` of a `w` by `h` image lands after `turns` quarter
/// turns clockwise.
pub open spec fn turned_position(turns: nat, x: int, y: int, w: int, h: int) -> (int, int) {
    if turns == 1 {
        (h - 1 - y, x)
    } else if turns == 2 {
        (w - 1 - x, h - 1 - y)
    } else if turns == 3 {
        (y, w - 1 - x)
    } else {
        (x, y)
    }
}

/// Width after `turns` quarter turns: width and height swap on odd turns.
pub open spec fn turned_width(turns: nat, w: int, h: int) -> int {
    if turns % 2 == 1 {
        h
    } else {
        w
    }
}

/// `out` holds the pixels of the `w` by `h` image `inp` turned `turns`
/// quarter turns clockwise.
pub open spec fn is_turned(out: Seq<u8>, inp: Seq<u8>, w: int, h: int, turns: nat) -> bool {
    &&& out.len() == inp.len()
    &&& forall|x: int, y: int, c: int|
        0 <= x < w && 0 <= y < h && 0 <= c < 4 ==> sample(
            out,
            turned_width(turns, w, h),
            turned_position(turns, x, y, w, h).0,
            turned_position(turns, x, y, w, h).1,
            c,
        ) == #[trigger] sample(inp, w, x, y, c)
}

/// Two quarter turns make a half turn.
pub proof fn law_quarter_turns_make_half_turn(
    inp: Seq<u8>,
    once: Seq<u8>,
    twice: Seq<u8>,
    w: int,
    h: int,
)
    requires
        is_turned(once, inp, w, h, 1),
        is_turned(twice, once, h, w, 1),
    ensures
        is_turned(twice, inp, w, h, 2),
{
    assert forall|x: int, y: int, c: int| 0 <= x < w && 0 <= y < h && 0 <= c < 4 implies sample(
        twice,
        turned_width(2, w, h),
        turned_position(2, x, y, w, h).0,
        turned_position(2, x, y, w, h).1,
        c,
    ) == #[trigger] sample(inp, w, x, y, c) by {
        assert(sample(once, h, h - 1 - y, x, c) == sample(inp, w, x, y, c));
        assert(sample(twice, w, w - 1 - x, h - 1 - y, c) == sample(once, h, h - 1 - y, x, c));
    }
}

/// Two half turns bring every pixel back to where it was.
pub proof fn law_two_half_turns_restore(inp: Seq<u8>, once: Seq<u8>, twice: Seq<u8>, w: int, h: int)
    requires
        is_turned(once, inp, w, h, 2),
        is_turned(twice, once, w, h, 2),
    ensures
        is_turned(twice, inp, w, h, 0),
{
    assert forall|x: int, y: int, c: int| 0 <= x < w && 0 <= y < h && 0 <= c < 4 implies sample(
        twice,
        turned_width(0, w, h),
        turned_position(0, x, y, w, h).0,
        turned_position(0, x, y, w, h).1,
        c,
    ) == #[trigger] sample(inp, w, x, y, c) by {
        assert(sample(once, w, w - 1 - x, h - 1 - y, c) == sample(inp, w, x, y, c));
        assert(sample(twice, w, x, y, c) == sample(once, w, w - 1 - x, h - 1 - y, c));
    }
}

/// A quarter turn and a three-quarter turn bring every pixel back to where
/// it was.
pub proof fn law_quarter_and_three_quarter_restore(
    inp: Seq<u8>,
    once: Seq<u8>,
    twice: Seq<u8>,
    w: int,
    h: int,
)
    requires
        is_turned(once, inp, w, h, 1),
        is_turned(twice, once, h, w, 3),
    ensures
        is_turned(twice, inp, w, h, 0),
{
    assert forall|x: int, y: int, c: int| 0 <= x < w && 0 <= y < h && 0 <= c < 4 implies sample(
        twice,
        turned_width(0, w, h),
        turned_position(0, x, y, w, h).0,
        turned_position(0, x, y, w, h).1,
        c,
    ) == #[trigger] sample(inp, w, x, y, c) by {
        assert(sample(once, h, h - 1 - y, x, c) == sample(inp, w, x, y, c));
        assert(sample(twice, w, x, y, c) == sample(once, h, h - 1 - y, x, c));
    }
}

impl PageImage {
    /// The pixel buffer holds exactly `width * height` pixels.
    pub open spec fn wf(&self) -> bool {
        self.pixels@.len() == self.width * self.height * 4
    }
}

/// Calls `image::imageops::rotate90` on the image made of these pixels
/// (through `ImageBuffer::from_raw`, which accepts a buffer of exactly this
/// size) and gives the pixels of the result, an image `height` wide and
/// `width` high: pixel `(x, y)` moves to `(height - 1 - y, x)`.
#[verifier::external_body]
fn image_rotate90(width: u32, height: u32, pixels: &Vec<u8>) -> (out: Vec<u8>)
    requires
        pixels@.len() == width * height * 4,
    ensures
        is_turned(out@, pixels@, width as int, height as int, 1),
{
    let img: image::RgbaImage = image::ImageBuffer::from_raw(width, height, pixels.clone()).unwrap();
    image::imageops::rotate90(&img).into_raw()
}

/// Calls `image::imageops::rotate180` likewise: pixel `(x, y)` moves to
/// `(width - 1 - x, height - 1 - y)`.
#[verifier::external_body]
fn image_rotate180(width: u32, height: u32, pixels: &Vec<u8>) -> (out: Vec<u8>)
    requires
        pixels@.len() == width * height * 4,
    ensures
        is_turned(out@, pixels@, width as int, height as int, 2),
{
    let img: image::RgbaImage = image::ImageBuffer::from_raw(width, height, pixels.clone()).unwrap();
    image::imageops::rotate180(&img).into_raw()
}

/// Calls `image::imageops::rotate270` likewise: the result is `height` wide
/// and `width` high, and pixel `(x, y)` moves to `(y, width - 1 - x)`.
#[verifier::external_body]
fn image_rotate270(width: u32, height: u32, pixels: &Vec<u8>) -> (out: Vec<u8>)
    requires
        pixels@.len() == width * height * 4,
    ensures
        is_turned(out@, pixels@, width as int, height as int, 3),
{
    let img: image::RgbaImage = image::ImageBuffer::from_raw(width, height, pixels.clone()).unwrap();
    image::imageops::rotate270(&img).into_raw()
}

/// Turns a rendered page `rotation mod 4` quarter turns clockwise.
pub fn orient_page_image(img: PageImage, rotation: u8) -> (out: PageImage)
    requires
        img.wf(),
    ensures
        out.wf(),
        out.width == turned_width((rotation % 4) as nat, img.width as int, img.height as int),
        out.height == turned_width((rotation % 4) as nat, img.height as int, img.width as int),
        is_turned(
            out.pixels@,
            img.pixels@,
            img.width as int,
            img.height as int,
            (rotation % 4) as nat,
        ),
{
    let turns = rotation % 4;
    if turns == 1 {
        let pixels = image_rotate90(img.width, img.height, &img.pixels);
        assert(img.height * img.width * 4 == img.width * img.height * 4) by (nonlinear_arith);
        PageImage { width: img.height, height: img.width, pixels }
    } else if turns == 2 {
        let pixels = image_rotate180(img.width, img.height, &img.pixels);
        PageImage { width: img.width, height: img.height, pixels }
    } else if turns == 3 {
        let pixels = image_rotate270(img.width, img.height, &img.pixels);
        assert(img.height * img.width * 4 == img.width * img.height * 4) by (nonlinear_arith);
        PageImage { width: img.height, height: img.width, pixels }
    } else {
        img
    }
}

} // verus!
