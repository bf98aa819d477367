//! Background preparation of local images for the kitty graphics path.
//!
//! Decoding a multi-megabyte PNG, downscaling it to what the terminal will
//! actually display, and re-encoding it takes long enough to notice. So
//! [`request`] answers from a memo when the prepared image is ready and
//! otherwise asks for the work to be started elsewhere, so that the caller
//! renders the caption for now. When the work is done, [`take_dirty`] tells,
//! and the pager re-renders, at which point the image is there.

use vstd::prelude::*;
use crate::memo::{Key, Memo, Slot};

verus! {

/// A PNG sized for display, plus its pixel dimensions.
pub struct Prepared {
    pub png: Vec<u8>,
    pub width: u32,
    pub height: u32,
}

#[verifier::ext_equal]
pub struct PreparedView {
    pub png: Seq<u8>,
    pub width: u32,
    pub height: u32,
}

impl View for Prepared {
    type V = PreparedView;

    open spec fn view(&self) -> PreparedView {
        PreparedView { png: self.png@, width: self.width, height: self.height }
    }
}

/// Path, time of the last change in nanoseconds (so hot-reloaded images
/// refresh), and the pixel box the result must fit in (so resizes re-prepare
/// at the new size).
pub struct ImageKey {
    pub path: String,
    pub changed: Option<u128>,
    pub max_w: u32,
    pub max_h: u32,
}

#[verifier::ext_equal]
pub struct ImageKeyView {
    pub path: Seq<char>,
    pub changed: Option<u128>,
    pub max_w: u32,
    pub max_h: u32,
}

impl View for ImageKey {
    type V = ImageKeyView;

    open spec fn view(&self) -> ImageKeyView {
        ImageKeyView {
            path: self.path@,
            changed: self.changed,
            max_w: self.max_w,
            max_h: self.max_h,
        }
    }
}

impl Key for ImageKey {
    fn same(&self, other: &Self) -> (r: bool) {
        let changed = match (self.changed, other.changed) {
            (Some(a), Some(b)) => a == b,
            (None, None) => true,
            _ => false,
        };
        changed && self.path == other.path && self.max_w == other.max_w && self.max_h
            == other.max_h
    }
}

impl Clone for ImageKey {
    fn clone(&self) -> (r: ImageKey)
        ensures
            r@ == self@,
    {
        ImageKey {
            path: self.path.clone(),
            changed: self.changed,
            max_w: self.max_w,
            max_h: self.max_h,
        }
    }
}

/// The images asked for so far.
pub type Images = Memo<ImageKey, Prepared>;

/// What a memo says of an image.
pub enum Answer<'a> {
    Ready(&'a Prepared),
    /// It is being prepared, or could not be.
    Unavailable,
    /// It was never asked for, and is now to be prepared.
    Start(ImageKey),
}

pub enum AnswerView {
    Ready(PreparedView),
    Unavailable,
    Start(ImageKeyView),
}

impl<'a> View for Answer<'a> {
    type V = AnswerView;

    open spec fn view(&self) -> AnswerView {
        match self {
            Answer::Ready(p) => AnswerView::Ready(p@),
            Answer::Unavailable => AnswerView::Unavailable,
            Answer::Start(k) => AnswerView::Start(k@),
        }
    }
}

/// The slots once an image was asked for, and the answer.
pub open spec fn asked(slots: Map<ImageKeyView, Slot<PreparedView>>, key: ImageKeyView) -> (
    Map<ImageKeyView, Slot<PreparedView>>,
    AnswerView,
) {
    if !slots.dom().contains(key) {
        (slots.insert(key, Slot::Pending), AnswerView::Start(key))
    } else {
        match slots[key] {
            Slot::Ready(p) => (slots, AnswerView::Ready(p)),
            _ => (slots, AnswerView::Unavailable),
        }
    }
}

/// The key of an image: a pixel box has no empty side.
pub open spec fn key_for(path: Seq<char>, changed: Option<u128>, max_w: u32, max_h: u32) -> ImageKeyView {
    ImageKeyView {
        path,
        changed,
        max_w: if max_w < 1 {
            1
        } else {
            max_w
        },
        max_h: if max_h < 1 {
            1
        } else {
            max_h
        },
    }
}

/// Non-blocking. The prepared image when it is ready; otherwise whether it is to
/// be prepared now, which is said once.
pub fn request<'a>(
    memo: &'a mut Images,
    path: &str,
    changed: Option<u128>,
    max_w: u32,
    max_h: u32,
) -> (r: Answer<'a>)
    ensures
        final(memo)@.dirty == old(memo)@.dirty,
        (final(memo)@.slots, r@) == asked(
            old(memo)@.slots,
            key_for(path@, changed, max_w, max_h),
        ),
{
    let key = ImageKey {
        path: path.to_owned(),
        changed,
        max_w: if max_w < 1 {
            1
        } else {
            max_w
        },
        max_h: if max_h < 1 {
            1
        } else {
            max_h
        },
    };
    let known = memo.get(&key).is_some();
    if !known {
        memo.insert(key.clone(), Slot::Pending);
        return Answer::Start(key);
    }
    match memo.get(&key) {
        Some(Slot::Ready(p)) => Answer::Ready(p),
        _ => Answer::Unavailable,
    }
}

/// Set when a background preparation finishes; the pager polls this.
pub fn take_dirty(memo: &mut Images) -> (r: bool)
    ensures
        r == old(memo)@.dirty,
        !final(memo)@.dirty,
        final(memo)@.slots == old(memo)@.slots,
{
    memo.take_dirty()
}

/// Whether data starts with the signature of a PNG file.
pub open spec fn png_signed(bytes: Seq<u8>) -> bool {
    bytes.len() >= 8 && bytes.take(8) == seq![
        0x89u8,
        0x50u8,
        0x4eu8,
        0x47u8,
        0x0du8,
        0x0au8,
        0x1au8,
        0x0au8,
    ]
}

/// Calls `image::guess_format`, which goes by the signature at the start of the
/// data, that of PNG first.
#[verifier::external_body]
fn guessed_png(bytes: &[u8]) -> (r: bool)
    ensures
        r == png_signed(bytes@),
{
    image::guess_format(bytes).ok() == Some(image::ImageFormat::Png)
}

/// `image::DynamicImage`, of which nothing is known but what is stated of calls.
#[verifier::external_type_specification]
#[verifier::external_body]
pub struct ExDynamicImage(image::DynamicImage);

/// `image::ImageFormat`, as it is declared.
#[verifier::external_type_specification]
pub struct ExImageFormat(image::ImageFormat);

/// `image::imageops::FilterType`, as it is declared.
#[verifier::external_type_specification]
pub struct ExResizeFilter(image::imageops::FilterType);

/// `image::codecs::png::CompressionType`, as it is declared.
#[verifier::external_type_specification]
pub struct ExCompression(image::codecs::png::CompressionType);

/// `image::codecs::png::FilterType`, as it is declared.
#[verifier::external_type_specification]
pub struct ExPngFilter(image::codecs::png::FilterType);

/// The image that `image::load_from_memory` decodes data to.
pub uninterp spec fn decoded(bytes: Seq<u8>) -> Option<image::DynamicImage>;

/// Calls `image::load_from_memory`. Whether data can be decoded, and to what,
/// depends on the data alone as long as no decoder is registered with
/// `image::hooks`, which a process could do at any time and this library never
/// does.
#[verifier::external_body]
fn decode(bytes: &[u8]) -> (r: Option<image::DynamicImage>)
    ensures
        r == decoded(bytes@),
{
    image::load_from_memory(bytes).ok()
}

/// The pixels that an image is wide.
pub uninterp spec fn pixel_width(img: image::DynamicImage) -> u32;

/// The pixels that an image is high.
pub uninterp spec fn pixel_height(img: image::DynamicImage) -> u32;

/// Calls `DynamicImage::width`, which depends on the image alone.
#[verifier::external_body]
fn wide(img: &image::DynamicImage) -> (r: u32)
    ensures
        r == pixel_width(*img),
{
    img.width()
}

/// Calls `DynamicImage::height`, which depends on the image alone.
#[verifier::external_body]
fn high(img: &image::DynamicImage) -> (r: u32)
    ensures
        r == pixel_height(*img),
{
    img.height()
}

/// What `DynamicImage::resize_exact` makes of an image.
pub uninterp spec fn resized(
    img: image::DynamicImage,
    nwidth: u32,
    nheight: u32,
    filter: image::imageops::FilterType,
) -> image::DynamicImage;

/// `DynamicImage::resize_exact`, to a size that is not larger: the new image
/// has that size, and depends on what is given alone.
pub assume_specification[ image::DynamicImage::resize_exact ](
    img: &image::DynamicImage,
    nwidth: u32,
    nheight: u32,
    filter: image::imageops::FilterType,
) -> (r: image::DynamicImage)
    requires
        1 <= nwidth <= side(pixel_width(*img)),
        1 <= nheight <= side(pixel_height(*img)),
    ensures
        r == resized(*img, nwidth, nheight, filter),
        pixel_width(r) == nwidth,
        pixel_height(r) == nheight,
;

/// What `DynamicImage::write_to` writes of an image in a format.
pub uninterp spec fn written(img: image::DynamicImage, format: image::ImageFormat) -> Option<
    Seq<u8>,
>;

/// Calls `DynamicImage::write_to`, into memory. What is written depends on the
/// image and the format alone.
#[verifier::external_body]
fn write_image(img: &image::DynamicImage, format: image::ImageFormat) -> (r: Option<Vec<u8>>)
    ensures
        bytes_view(r) == written(*img, format),
{
    let mut buf = std::io::Cursor::new(Vec::new());
    img.write_to(&mut buf, format).ok()?;
    Some(buf.into_inner())
}

/// What `DynamicImage::write_with_encoder` writes of an image with a
/// `PngEncoder`.
pub uninterp spec fn encoded(
    img: image::DynamicImage,
    compression: image::codecs::png::CompressionType,
    filter: image::codecs::png::FilterType,
) -> Option<Seq<u8>>;

/// Calls `DynamicImage::write_with_encoder`, with a `PngEncoder`, into memory.
/// What is written depends on the image and on how the encoder is set alone, and
/// starts with the signature of PNG.
#[verifier::external_body]
fn encode_png(
    img: &image::DynamicImage,
    compression: image::codecs::png::CompressionType,
    filter: image::codecs::png::FilterType,
) -> (r: Option<Vec<u8>>)
    ensures
        bytes_view(r) == encoded(*img, compression, filter),
        r matches Some(b) ==> png_signed(b@),
{
    let mut buf = Vec::new();
    let enc = image::codecs::png::PngEncoder::new_with_quality(&mut buf, compression, filter);
    img.write_with_encoder(enc).ok()?;
    Some(buf)
}

/// The bytes of an optional vector.
pub open spec fn bytes_view(v: Option<Vec<u8>>) -> Option<Seq<u8>> {
    match v {
        Some(b) => Some(b@),
        None => None,
    }
}

/// The larger of a side and one.
pub open spec fn side(n: u32) -> u32 {
    if n < 1 {
        1
    } else {
        n
    }
}

fn at_least_one(n: u32) -> (r: u32)
    ensures
        r == side(n),
{
    if n < 1 {
        1
    } else {
        n
    }
}

/// A side within one and another side.
pub open spec fn within(n: u32, limit: u32) -> u32 {
    if n < 1 {
        1
    } else if n > limit {
        limit
    } else {
        n
    }
}

fn keep_within(n: u32, limit: u32) -> (r: u32)
    ensures
        r == within(n, limit),
{
    if n < 1 {
        1
    } else if n > limit {
        limit
    } else {
        n
    }
}

/// The pixel size of an image, each side at least one.
pub open spec fn size_of(bytes: Seq<u8>) -> Option<(u32, u32)> {
    match decoded(bytes) {
        Some(img) => Some((side(pixel_width(img)), side(pixel_height(img)))),
        None => None,
    }
}

/// The pixel size of an image, each side at least one; nothing for what is no
/// image.
pub fn image_size(bytes: &[u8]) -> (r: Option<(u32, u32)>)
    ensures
        r == size_of(bytes@),
{
    match decode(bytes) {
        Some(img) => Some((at_least_one(wide(&img)), at_least_one(high(&img)))),
        None => None,
    }
}

/// The data of an image as PNG.
pub open spec fn as_png(bytes: Seq<u8>) -> Option<Seq<u8>> {
    if png_signed(bytes) {
        Some(bytes)
    } else {
        match decoded(bytes) {
            Some(img) => written(img, image::ImageFormat::Png),
            None => None,
        }
    }
}

/// The data of an image as PNG, which is what the protocol carries; other
/// formats are re-encoded.
pub fn to_png(bytes: Vec<u8>) -> (r: Option<Vec<u8>>)
    ensures
        bytes_view(r) == as_png(bytes@),
{
    if guessed_png(bytes.as_slice()) {
        return Some(bytes);
    }
    match decode(bytes.as_slice()) {
        Some(img) => write_image(&img, image::ImageFormat::Png),
        None => None,
    }
}

/// Whether an image of `w` x `h` pixels needs no downscaling to fit a box.
pub open spec fn fits(w: u32, h: u32, max_w: u32, max_h: u32) -> bool {
    w <= max_w && h <= max_h
}

/// What is to be done with an image, to a size.
#[derive(Clone, Copy, Debug, PartialEq, Eq, Structural)]
pub enum Plan {
    /// It stays as it is.
    Keep(u32, u32),
    /// It is encoded as PNG.
    Encode(u32, u32),
    /// It is resized and encoded as PNG.
    Resize(u32, u32),
}

/// The smaller of two sides, the second counted as one at least.
pub open spec fn smaller(a: u32, b: u32) -> u32 {
    if a < side(b) {
        a
    } else {
        side(b)
    }
}

fn smaller_of(a: u32, b: u32) -> (r: u32)
    ensures
        r == smaller(a, b),
{
    let c: u32 = at_least_one(b);
    if a < c {
        a
    } else {
        c
    }
}

/// What is to be done with an image of a size for display in a pixel box, where
/// `shrunk` is the size it shrinks to if it does not fit, as far as that is
/// within the image and the box.
pub open spec fn planned(
    png: bool,
    size: (u32, u32),
    max_w: u32,
    max_h: u32,
    shrunk: (u32, u32),
) -> Plan {
    let (w, h) = size;
    if !fits(w, h, max_w, max_h) {
        Plan::Resize(within(shrunk.0, smaller(w, max_w)), within(shrunk.1, smaller(h, max_h)))
    } else if png {
        Plan::Keep(w, h)
    } else {
        Plan::Encode(w, h)
    }
}

/// What is to be done with an image of a size for display in a pixel box.
pub fn plan(png: bool, size: (u32, u32), max_w: u32, max_h: u32, shrunk: (u32, u32)) -> (r: Plan)
    ensures
        r == planned(png, size, max_w, max_h, shrunk),
{
    let (w, h) = size;
    if !(w <= max_w && h <= max_h) {
        Plan::Resize(
            keep_within(shrunk.0, smaller_of(w, max_w)),
            keep_within(shrunk.1, smaller_of(h, max_h)),
        )
    } else if png {
        Plan::Keep(w, h)
    } else {
        Plan::Encode(w, h)
    }
}

/// An optional PNG of a size.
pub open spec fn sized(png: Option<Seq<u8>>, width: u32, height: u32) -> Option<PreparedView> {
    match png {
        Some(png) => Some(PreparedView { png, width, height }),
        None => None,
    }
}

/// An image as the pager's PNG.
pub open spec fn shown_png(img: image::DynamicImage) -> Option<Seq<u8>> {
    encoded(
        img,
        image::codecs::png::CompressionType::Default,
        image::codecs::png::FilterType::Adaptive,
    )
}

/// What is made of an image for display in a pixel box. A PNG that fits stays
/// untouched.
pub open spec fn prepared(bytes: Seq<u8>, max_w: u32, max_h: u32, shrunk: (u32, u32)) -> Option<
    PreparedView,
> {
    match decoded(bytes) {
        None => None,
        Some(img) => match planned(
            png_signed(bytes),
            (side(pixel_width(img)), side(pixel_height(img))),
            max_w,
            max_h,
            shrunk,
        ) {
            Plan::Keep(w, h) => sized(Some(bytes), w, h),
            Plan::Encode(w, h) => sized(shown_png(img), w, h),
            Plan::Resize(w, h) => sized(
                shown_png(resized(img, w, h, image::imageops::FilterType::Triangle)),
                w,
                h,
            ),
        },
    }
}

/// Decodes, downscales to fit `max_w` x `max_h` (never upscaling), and encodes
/// as PNG. A PNG that already fits is passed through untouched; an image that
/// does not fit shrinks to `shrunk`, as far as that is within the box.
pub fn prepare(bytes: Vec<u8>, max_w: u32, max_h: u32, shrunk: (u32, u32)) -> (r: Option<Prepared>)
    ensures
        (match r {
            Some(p) => Some(p@),
            None => None,
        }) == prepared(bytes@, max_w, max_h, shrunk),
        (r matches Some(p) ==> size_of(bytes@) matches Some((w, h)) && 1 <= p.width <= smaller(
            w,
            max_w,
        ) && 1 <= p.height <= smaller(h, max_h) && png_signed(p.png@)),
{
    let is_png = guessed_png(bytes.as_slice());
    let img = match decode(bytes.as_slice()) {
        Some(img) => img,
        None => {
            return None;
        },
    };
    let size = (at_least_one(wide(&img)), at_least_one(high(&img)));
    let compression = image::codecs::png::CompressionType::Default;
    let filter = image::codecs::png::FilterType::Adaptive;
    let (png, width, height) = match plan(is_png, size, max_w, max_h, shrunk) {
        Plan::Keep(w, h) => (Some(bytes), w, h),
        Plan::Encode(w, h) => (encode_png(&img, compression, filter), w, h),
        Plan::Resize(w, h) => {
            let small = img.resize_exact(w, h, image::imageops::FilterType::Triangle);
            (encode_png(&small, compression, filter), w, h)
        },
    };
    match png {
        Some(png) => Some(Prepared { png, width, height }),
        None => None,
    }
}

/// A PNG that fits its box is passed through untouched, whatever it would have
/// shrunk to.
pub proof fn fitting_png_is_untouched(bytes: Seq<u8>, max_w: u32, max_h: u32, shrunk: (u32, u32))
    requires
        png_signed(bytes),
        size_of(bytes) matches Some((w, h)) && fits(w, h, max_w, max_h),
    ensures
        prepared(bytes, max_w, max_h, shrunk) == Some(
            PreparedView {
                png: bytes,
                width: (size_of(bytes)->0).0,
                height: (size_of(bytes)->0).1,
            },
        ),
{
}

/// An image fits its box and is never scaled up, whatever size it is to shrink
/// to.
pub proof fn images_fit_their_boxes(
    bytes: Seq<u8>,
    max_w: u32,
    max_h: u32,
    shrunk: (u32, u32),
)
    ensures
        (prepared(bytes, max_w, max_h, shrunk) matches Some(p) ==> (size_of(bytes) matches Some(
            (w, h),
        ) && 1 <= p.width <= smaller(w, max_w) && 1 <= p.height <= smaller(h, max_h) && (fits(
            w,
            h,
            max_w,
            max_h,
        ) ==> p.width == w && p.height == h))),
{
}

/// An image is started once: asked for again, it is not, and nothing changes.
pub proof fn images_are_started_once(
    slots: Map<ImageKeyView, Slot<PreparedView>>,
    key: ImageKeyView,
)
    ensures
        ({
            let (then_slots, _) = asked(slots, key);
            !(asked(then_slots, key).1 is Start) && asked(then_slots, key).0 == then_slots
        }),
{
}

/// An image that does not fit its box shrinks to the size that is worked out for it, as
/// long as that is within the image and the box; one that fits keeps its size and is
/// encoded as PNG only where it is none.
pub proof fn images_shrink_as_told(
    png: bool,
    size: (u32, u32),
    max_w: u32,
    max_h: u32,
    shrunk: (u32, u32),
)
    ensures
        ({
            let p = planned(png, size, max_w, max_h, shrunk);
            &&& size.0 <= max_w && size.1 <= max_h && png ==> p == Plan::Keep(size.0, size.1)
            &&& size.0 <= max_w && size.1 <= max_h && !png ==> p == Plan::Encode(size.0, size.1)
            &&& (size.0 > max_w || size.1 > max_h) && 1 <= shrunk.0 <= size.0 && shrunk.0 <= max_w
                && 1 <= shrunk.1 <= size.1 && shrunk.1 <= max_h ==> p == Plan::Resize(
                shrunk.0,
                shrunk.1,
            )
        }),
{
}

/// An image that was never asked for is to be prepared; one that is ready is handed out,
/// and one that is being prepared, or could not be, is not to be had.
pub proof fn images_are_answered(
    slots: Map<ImageKeyView, Slot<PreparedView>>,
    key: ImageKeyView,
    slot: Slot<PreparedView>,
)
    ensures
        !slots.dom().contains(key) ==> asked(slots, key) == (
            slots.insert(key, Slot::Pending),
            AnswerView::Start(key),
        ),
        asked(slots.insert(key, slot), key).0 == slots.insert(key, slot),
        slot matches Slot::Ready(p) ==> asked(slots.insert(key, slot), key).1
            == AnswerView::Ready(p),
        !(slot is Ready) ==> asked(slots.insert(key, slot), key).1 is Unavailable,
{
}

} // verus!
