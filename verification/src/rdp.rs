//! The parts of the RDP client that do not talk to the server: the messages
//! exchanged with the UI, dirty-rectangle bookkeeping, repacking a damaged
//! region of the framebuffer into tightly packed rows, clipboard text
//! decoding, and explaining connection failures.

use vstd::prelude::*;
use crate::b64::{base64_encode, base64_standard};
use crate::text::{chars_of, contains_chars, contains_seq, lower_text, string_of, to_lower};

verus! {

/// What to connect to.
#[derive(Clone, Debug)]
pub struct RdpConfig {
    pub host: String,
    pub port: u16,
    pub user: String,
    pub password: String,
    pub domain: Option<String>,
    pub width: u16,
    pub height: u16,
}

/// What the UI sends.
#[derive(Clone, Debug)]
pub enum RdpInput {
    MouseMove { x: u16, y: u16 },
    MouseDown { button: u8 },
    MouseUp { button: u8 },
    Wheel { delta: i16, horizontal: bool },
    KeyDown { scancode: u16 },
    KeyUp { scancode: u16 },
    UnicodeChar { ch: char },
    /// Sent when the pane loses focus, so that no modifier stays latched
    /// on the server.
    ReleaseAll,
    /// The local clipboard text changed.
    LocalClipboard { text: String },
}

/// What the UI receives.
#[derive(Clone, Debug)]
pub enum RdpEvent {
    /// A dirty rectangle: tightly packed pixels, row-major, `w * h * 4`
    /// bytes for RGBA, in base64.
    Frame { x: u16, y: u16, w: u16, h: u16, rgba: String },
    /// The desktop changed size.
    Resized { width: u16, height: u16 },
    Disconnected { reason: String },
    /// The remote clipboard changed.
    RemoteClipboard { text: String },
}

/// An inclusive rectangle of pixels.
#[derive(Clone, Copy, Debug)]
pub struct Rect {
    pub left: u16,
    pub top: u16,
    pub right: u16,
    pub bottom: u16,
}

pub open spec fn min_u16(a: u16, b: u16) -> u16 {
    if a <= b { a } else { b }
}

pub open spec fn max_u16(a: u16, b: u16) -> u16 {
    if a >= b { a } else { b }
}

/// Whether rectangle `a` lies inside rectangle `b`.
pub open spec fn within(a: Rect, b: Rect) -> bool {
    b.left <= a.left && b.top <= a.top && a.right <= b.right && a.bottom <= b.bottom
}

impl Rect {
    /// The smallest rectangle covering both.
    pub fn union(self, other: Rect) -> (r: Rect)
        ensures
            r.left == min_u16(self.left, other.left),
            r.top == min_u16(self.top, other.top),
            r.right == max_u16(self.right, other.right),
            r.bottom == max_u16(self.bottom, other.bottom),
    {
        Rect {
            left: if self.left <= other.left { self.left } else { other.left },
            top: if self.top <= other.top { self.top } else { other.top },
            right: if self.right >= other.right { self.right } else { other.right },
            bottom: if self.bottom >= other.bottom { self.bottom } else { other.bottom },
        }
    }
}

/// The union covers both rectangles, and any rectangle covering both
/// covers the union.
pub proof fn union_is_least_cover(a: Rect, b: Rect, c: Rect)
    ensures
        within(a, union_spec(a, b)),
        within(b, union_spec(a, b)),
        within(a, c) && within(b, c) ==> within(union_spec(a, b), c),
{
}

/// Merging damage is idempotent, commutative and associative: the order in
/// which dirty rectangles arrive does not change the region repainted.
pub proof fn union_is_order_free(a: Rect, b: Rect, c: Rect)
    ensures
        union_spec(a, a) == a,
        union_spec(a, b) == union_spec(b, a),
        union_spec(union_spec(a, b), c) == union_spec(a, union_spec(b, c)),
{
}

/// What [`Rect::union`] returns.
pub open spec fn union_spec(a: Rect, b: Rect) -> Rect {
    Rect {
        left: min_u16(a.left, b.left),
        top: min_u16(a.top, b.top),
        right: max_u16(a.right, b.right),
        bottom: max_u16(a.bottom, b.bottom),
    }
}

/// A decoded framebuffer: `height` rows of `stride` bytes, each starting
/// with `width` pixels of `bytes_per_pixel` bytes.
pub struct FrameImage {
    width: u16,
    height: u16,
    bytes_per_pixel: usize,
    stride: usize,
    data: Vec<u8>,
}

pub struct FrameImageView {
    pub width: int,
    pub height: int,
    pub bytes_per_pixel: int,
    pub stride: int,
    pub data: Seq<u8>,
}

impl View for FrameImage {
    type V = FrameImageView;

    closed spec fn view(&self) -> FrameImageView {
        FrameImageView {
            width: self.width as int,
            height: self.height as int,
            bytes_per_pixel: self.bytes_per_pixel as int,
            stride: self.stride as int,
            data: self.data@,
        }
    }
}

/// Rows hold their pixels, the buffer holds its rows, and no allocation
/// exceeds `isize::MAX` bytes.
pub open spec fn frame_layout_ok(width: int, height: int, bpp: int, stride: int, len: int) -> bool {
    &&& width * bpp <= stride
    &&& len == stride * height
    &&& len <= isize::MAX
}

impl FrameImage {
    #[verifier::type_invariant]
    closed spec fn layout(self) -> bool {
        frame_layout_ok(
            self.width as int,
            self.height as int,
            self.bytes_per_pixel as int,
            self.stride as int,
            self.data@.len() as int,
        )
    }

    /// A black image with tightly packed rows.
    pub fn new(bytes_per_pixel: usize, width: u16, height: u16) -> (r: FrameImage)
        requires
            bytes_per_pixel * width <= isize::MAX,
            bytes_per_pixel * width * height <= isize::MAX,
        ensures
            r@.width == width,
            r@.height == height,
            r@.bytes_per_pixel == bytes_per_pixel,
            r@.stride == bytes_per_pixel * width,
            r@.data == Seq::new((bytes_per_pixel * width * height) as nat, |i: int| 0u8),
    {
        proof {
            lemma_mul_bounds(bytes_per_pixel as int, width as int, height as int);
        }
        let stride = bytes_per_pixel * (width as usize);
        let len = stride * (height as usize);
        let mut data: Vec<u8> = Vec::new();
        let mut i: usize = 0;
        while i < len
            invariant
                i <= len,
                data@ == Seq::new(i as nat, |k: int| 0u8),
            decreases len - i,
        {
            data.push(0u8);
            assert(data@ =~= Seq::new((i + 1) as nat, |k: int| 0u8));
            i = i + 1;
        }
        let r = FrameImage { width, height, bytes_per_pixel, stride, data };
        r
    }

    /// An image over the given pixels; `None` unless `data` holds exactly
    /// `height` rows of `stride` bytes and each row has room for `width`
    /// pixels.
    pub fn from_parts(width: u16, height: u16, bytes_per_pixel: usize, stride: usize, data: Vec<u8>) -> (r: Option<
        FrameImage,
    >)
        ensures
            r is Some <==> frame_layout_ok(
                width as int,
                height as int,
                bytes_per_pixel as int,
                stride as int,
                data@.len() as int,
            ),
            r matches Some(img) ==> img@ == (FrameImageView {
                width: width as int,
                height: height as int,
                bytes_per_pixel: bytes_per_pixel as int,
                stride: stride as int,
                data: data@,
            }),
    {
        if data.len() > (isize::MAX as usize) {
            return None;
        }
        proof {
            assert((width as int) * (bytes_per_pixel as int) <= 0xffff * 0xffff_ffff_ffff_ffff) by (nonlinear_arith)
                requires
                    0 <= width <= 0xffff,
                    0 <= bytes_per_pixel <= 0xffff_ffff_ffff_ffff,
            ;
            assert((stride as int) * (height as int) <= 0xffff_ffff_ffff_ffff * 0xffff) by (nonlinear_arith)
                requires
                    0 <= height <= 0xffff,
                    0 <= stride <= 0xffff_ffff_ffff_ffff,
            ;
        }
        let row = (width as u128) * (bytes_per_pixel as u128);
        if row > (stride as u128) {
            return None;
        }
        let total = (stride as u128) * (height as u128);
        if total != (data.len() as u128) {
            return None;
        }
        Some(FrameImage { width, height, bytes_per_pixel, stride, data })
    }

    pub fn width(&self) -> (r: u16)
        ensures
            r == self@.width,
    {
        self.width
    }

    pub fn height(&self) -> (r: u16)
        ensures
            r == self@.height,
    {
        self.height
    }
}

proof fn lemma_mul_bounds(a: int, b: int, c: int)
    requires
        0 <= a,
        0 <= b,
        0 <= c,
        a * b * c <= isize::MAX,
    ensures
        a * b * c == (a * b) * c,
        b * a == a * b,
{
    assert(a * b * c == (a * b) * c && b * a == a * b) by (nonlinear_arith);
}

/// `r` clamped to an image of `w` by `h` pixels; `None` for an empty image
/// or when nothing of `r` remains.
pub open spec fn clamp_rect(w: int, h: int, r: Rect) -> Option<Rect> {
    if w == 0 || h == 0 {
        None
    } else {
        let c = Rect {
            left: if r.left < w - 1 { r.left } else { (w - 1) as u16 },
            top: if r.top < h - 1 { r.top } else { (h - 1) as u16 },
            right: if r.right < w - 1 { r.right } else { (w - 1) as u16 },
            bottom: if r.bottom < h - 1 { r.bottom } else { (h - 1) as u16 },
        };
        if c.right < c.left || c.bottom < c.top {
            None
        } else {
            Some(c)
        }
    }
}

/// The first `rows` rows of the window `c` of the image, each cut out of
/// its stride and laid end to end.
pub open spec fn packed_rows(img: FrameImageView, c: Rect, rows: int) -> Seq<u8>
    decreases rows,
{
    if rows <= 0 {
        Seq::empty()
    } else {
        let start = (c.top + rows - 1) * img.stride + c.left * img.bytes_per_pixel;
        packed_rows(img, c, rows - 1) + img.data.subrange(start, start + (c.right - c.left + 1) * img.bytes_per_pixel)
    }
}

/// A region of the framebuffer, repacked.
pub struct PackedRect {
    pub x: u16,
    pub y: u16,
    pub w: u16,
    pub h: u16,
    pub pixels: Vec<u8>,
}

proof fn lemma_row_in_bounds(row: int, top: int, h_img: int, stride: int, left: int, w: int, w_img: int, bpp: int)
    requires
        0 <= row,
        0 <= top,
        top + row < h_img,
        0 <= left,
        1 <= w,
        left + w <= w_img,
        0 <= bpp,
        w_img * bpp <= stride,
    ensures
        0 <= (top + row) * stride,
        (top + row) * stride + left * bpp + w * bpp <= h_img * stride,
        h_img * stride == stride * h_img,
        0 <= left * bpp,
        0 <= w * bpp,
{
    assert((top + row) * stride + left * bpp + w * bpp <= h_img * stride) by (nonlinear_arith)
        requires
            0 <= top + row < h_img,
            0 <= left,
            1 <= w,
            left + w <= w_img,
            0 <= bpp,
            w_img * bpp <= stride,
    ;
    assert(h_img * stride == stride * h_img) by (nonlinear_arith);
    assert(0 <= (top + row) * stride && 0 <= left * bpp && 0 <= w * bpp) by (nonlinear_arith)
        requires
            0 <= top + row,
            0 <= left,
            1 <= w,
            0 <= bpp,
            w_img * bpp <= stride,
            0 <= w_img,
    ;
}

/// Cuts the damaged rectangle `rect` out of the framebuffer, row by row,
/// after clamping it to the image (a resize may have shrunk the image since
/// the damage was recorded).
pub fn pack_rect(image: &FrameImage, rect: Rect) -> (r: Option<PackedRect>)
    ensures
        match clamp_rect(image@.width, image@.height, rect) {
            None => r is None,
            Some(c) => r is Some && r->Some_0.x == c.left && r->Some_0.y == c.top && r->Some_0.w == c.right - c.left
                + 1 && r->Some_0.h == c.bottom - c.top + 1 && r->Some_0.pixels@ == packed_rows(
                image@,
                c,
                c.bottom - c.top + 1,
            ),
        },
        r matches Some(p) ==> p.pixels@.len() == p.w * p.h * image@.bytes_per_pixel,
{
    proof {
        use_type_invariant(image);
    }
    let img_w = image.width;
    let img_h = image.height;
    if img_w == 0 || img_h == 0 {
        return None;
    }
    let left = if rect.left < img_w - 1 { rect.left } else { img_w - 1 };
    let top = if rect.top < img_h - 1 { rect.top } else { img_h - 1 };
    let right = if rect.right < img_w - 1 { rect.right } else { img_w - 1 };
    let bottom = if rect.bottom < img_h - 1 { rect.bottom } else { img_h - 1 };
    if right < left || bottom < top {
        return None;
    }
    let w = right - left + 1;
    let h = bottom - top + 1;
    let ghost c = Rect { left, top, right, bottom };
    let bpp = image.bytes_per_pixel;
    let stride = image.stride;
    let mut packed: Vec<u8> = Vec::new();
    let mut row: usize = 0;
    while row < h as usize
        invariant
            image@.width == img_w,
            image@.height == img_h,
            image@.bytes_per_pixel == bpp,
            image@.stride == stride,
            frame_layout_ok(img_w as int, img_h as int, bpp as int, stride as int, image@.data.len() as int),
            c == (Rect { left, top, right, bottom }),
            w == right - left + 1,
            h == bottom - top + 1,
            right < img_w,
            bottom < img_h,
            left <= right,
            top <= bottom,
            row <= h,
            packed@ == packed_rows(image@, c, row as int),
            packed@.len() == row * (w * bpp),
        decreases h - row,
    {
        proof {
            lemma_row_in_bounds(
                row as int,
                top as int,
                img_h as int,
                stride as int,
                left as int,
                w as int,
                img_w as int,
                bpp as int,
            );
            assert((row + 1) * (w * bpp) == row * (w * bpp) + w * bpp) by (nonlinear_arith);
        }
        let start = (top as usize + row) * stride + (left as usize) * bpp;
        let row_len = (w as usize) * bpp;
        let end = start + row_len;
        let mut i: usize = start;
        let ghost before = packed@;
        while i < end
            invariant
                start <= i <= end <= image@.data.len(),
                packed@ == before + image@.data.subrange(start as int, i as int),
            decreases end - i,
        {
            packed.push(image.data[i]);
            assert(image@.data.subrange(start as int, i + 1) =~= image@.data.subrange(start as int, i as int).push(
                image@.data[i as int],
            ));
            i = i + 1;
        }
        row = row + 1;
    }
    proof {
        assert(packed@.len() == h * (w * bpp));
        assert(h * (w * bpp) == w * h * bpp) by (nonlinear_arith);
    }
    Some(PackedRect { x: left, y: top, w, h, pixels: packed })
}

/// The frame event for the damaged rectangle `rect`: its clamped position
/// and size, and its packed pixels in base64; `None` when nothing of it is
/// on screen.
pub fn encode_frame(image: &FrameImage, rect: Rect) -> (r: Option<RdpEvent>)
    ensures
        match clamp_rect(image@.width, image@.height, rect) {
            None => r is None,
            Some(c) => r matches Some(RdpEvent::Frame { x, y, w, h, rgba }) && x == c.left && y == c.top && w
                == c.right - c.left + 1 && h == c.bottom - c.top + 1 && rgba@ == base64_standard(
                packed_rows(image@, c, c.bottom - c.top + 1),
            ),
        },
{
    proof {
        use_type_invariant(image);
    }
    let p = match pack_rect(image, rect) {
        Some(p) => p,
        None => return None,
    };
    proof {
        assert(p.pixels@.len() <= image@.data.len()) by {
            assert(p.pixels@.len() == p.w * p.h * image@.bytes_per_pixel);
            assert(p.w <= image@.width && p.h <= image@.height);
            assert(p.w * p.h * image@.bytes_per_pixel <= image@.width * image@.bytes_per_pixel * image@.height)
                by (nonlinear_arith)
                requires
                    0 <= p.w <= image@.width,
                    0 <= p.h <= image@.height,
                    0 <= image@.bytes_per_pixel,
            ;
            assert(image@.width * image@.bytes_per_pixel * image@.height <= image@.stride * image@.height)
                by (nonlinear_arith)
                requires
                    image@.width * image@.bytes_per_pixel <= image@.stride,
                    0 <= image@.height,
            ;
        }
    }
    let rgba = base64_encode(p.pixels.as_slice());
    Some(RdpEvent::Frame { x: p.x, y: p.y, w: p.w, h: p.h, rgba })
}

/// What `String::from_utf16_lossy` returns: the text the UTF-16 code units
/// encode, with U+FFFD for each unpaired surrogate.
pub uninterp spec fn utf16_lossy(units: Seq<u16>) -> Seq<char>;

/// Calls `String::from_utf16_lossy`.
#[verifier::external_body]
fn from_utf16_lossy(units: &[u16]) -> (r: String)
    ensures
        r@ == utf16_lossy(units@),
{
    String::from_utf16_lossy(units)
}

/// The little-endian 16-bit code units of `bytes`; a trailing odd byte is
/// dropped.
pub open spec fn le_units(bytes: Seq<u8>) -> Seq<u16> {
    Seq::new((bytes.len() / 2) as nat, |i: int| (bytes[2 * i] + 256 * bytes[2 * i + 1]) as u16)
}

proof fn lemma_pair_index(i: int, n: int)
    requires
        0 <= i < n / 2,
        0 <= n,
    ensures
        i + i + 1 < n,
{
}

/// `s` without trailing NUL characters.
pub open spec fn trim_nuls(s: Seq<char>) -> Seq<char>
    decreases s.len(),
{
    if s.len() > 0 && s.last() == '\0' {
        trim_nuls(s.drop_last())
    } else {
        s
    }
}

/// Decodes a `CF_UNICODETEXT` clipboard payload (UTF-16LE), dropping the
/// NUL terminator that Windows appends.
pub fn decode_utf16le_text(bytes: &[u8]) -> (r: String)
    ensures
        r@ == trim_nuls(utf16_lossy(le_units(bytes@))),
{
    let n = bytes.len();
    let units = n / 2;
    let mut codes: Vec<u16> = Vec::new();
    let mut i: usize = 0;
    while i < units
        invariant
            n == bytes@.len(),
            units == bytes@.len() / 2,
            i <= units,
            codes@ == le_units(bytes@).take(i as int),
        decreases units - i,
    {
        proof {
            lemma_pair_index(i as int, bytes@.len() as int);
        }
        let j = i + i;
        let lo = bytes[j] as u16;
        let hi = bytes[j + 1] as u16;
        let u = lo + 256 * hi;
        codes.push(u);
        assert(codes@ =~= le_units(bytes@).take(i + 1));
        i = i + 1;
    }
    assert(codes@ =~= le_units(bytes@));
    let text = from_utf16_lossy(codes.as_slice());
    let mut v = chars_of(text.as_str());
    while v.len() > 0 && v[v.len() - 1] == '\0'
        invariant
            trim_nuls(v@) == trim_nuls(utf16_lossy(le_units(bytes@))),
        decreases v.len(),
    {
        v.pop();
    }
    string_of(&v)
}

/// `CF_UNICODETEXT`, the only clipboard format exchanged.
pub const CF_UNICODETEXT: u32 = 13;

/// A request from the clipboard channel's callbacks to the engine loop,
/// which owns the channel and the local clipboard text.
#[derive(Clone, Debug)]
pub enum BackendAction {
    /// The server asked which formats we offer: advertise the local text.
    InitiateCopy,
    /// Replace the local clipboard text and advertise it, in one step so
    /// that a concurrent advertisement cannot offer a stale value.
    SetLocalClipboard { text: String },
    /// Ask the server for its clipboard data in this format.
    InitiatePaste { format_id: u32 },
    /// The server asked for the local clipboard in this format.
    SubmitFormatData { format_id: u32 },
}

/// What the engine asks of the clipboard channel for one action.
#[derive(Clone, Debug)]
pub enum ClipboardCall {
    /// `initiate_copy`, offering `CF_UNICODETEXT` alone.
    AdvertiseText,
    /// `initiate_paste` for this format.
    Paste { format_id: u32 },
    /// `submit_format_data` with this text as a Unicode string.
    SubmitText { text: String },
    /// Nothing: the server asked for a format we never offer.
    Ignore,
}

/// The text handed to the server: the local clipboard, or the empty text
/// while none was set.
pub open spec fn offered(text: Option<Seq<char>>) -> Seq<char> {
    match text {
        Some(t) => t,
        None => Seq::empty(),
    }
}

/// The local clipboard text after one action.
pub open spec fn text_after_action(text: Option<Seq<char>>, a: BackendAction) -> Option<Seq<char>> {
    match a {
        BackendAction::SetLocalClipboard { text: t } => Some(t@),
        _ => text,
    }
}

/// The local clipboard text after a run of actions.
pub open spec fn text_after(start: Option<Seq<char>>, actions: Seq<BackendAction>) -> Option<Seq<char>>
    decreases actions.len(),
{
    if actions.len() == 0 {
        start
    } else {
        text_after_action(text_after(start, actions.drop_last()), actions.last())
    }
}

/// `c` is what the engine does for action `a` while the local clipboard
/// holds `text`.
pub open spec fn call_for(text: Option<Seq<char>>, a: BackendAction, c: ClipboardCall) -> bool {
    match a {
        BackendAction::InitiateCopy => c is AdvertiseText,
        BackendAction::SetLocalClipboard { .. } => c is AdvertiseText,
        BackendAction::InitiatePaste { format_id } => c matches ClipboardCall::Paste { format_id: f } && f == format_id,
        BackendAction::SubmitFormatData { format_id } => if format_id == CF_UNICODETEXT {
            c matches ClipboardCall::SubmitText { text: t } && t@ == offered(text)
        } else {
            c is Ignore
        },
    }
}

/// The local clipboard text that the engine offers the server.
pub struct LocalClipboard {
    text: Option<String>,
}

impl View for LocalClipboard {
    type V = Option<Seq<char>>;

    closed spec fn view(&self) -> Option<Seq<char>> {
        match self.text {
            Some(t) => Some(t@),
            None => None,
        }
    }
}

impl LocalClipboard {
    /// Nothing set yet.
    pub fn new() -> (r: LocalClipboard)
        ensures
            r@ is None,
    {
        LocalClipboard { text: None }
    }

    /// Carries out one action: records a new local text, and says which
    /// clipboard channel call to make.
    pub fn apply(&mut self, action: BackendAction) -> (r: ClipboardCall)
        ensures
            final(self)@ == text_after_action(old(self)@, action),
            call_for(old(self)@, action, r),
    {
        match action {
            BackendAction::InitiateCopy => ClipboardCall::AdvertiseText,
            BackendAction::SetLocalClipboard { text } => {
                self.text = Some(text);
                ClipboardCall::AdvertiseText
            },
            BackendAction::InitiatePaste { format_id } => ClipboardCall::Paste { format_id },
            BackendAction::SubmitFormatData { format_id } => {
                if format_id != CF_UNICODETEXT {
                    return ClipboardCall::Ignore;
                }
                let text = match &self.text {
                    Some(t) => t.clone(),
                    None => String::new(),
                };
                ClipboardCall::SubmitText { text }
            },
        }
    }
}

/// Applies the pending actions in the order they were queued and returns
/// the clipboard channel calls to make, one per action.
pub fn drain_backend_actions(actions: Vec<BackendAction>, clip: &mut LocalClipboard) -> (r: Vec<ClipboardCall>)
    ensures
        r@.len() == actions@.len(),
        final(clip)@ == text_after(old(clip)@, actions@),
        forall|i: int|
            0 <= i < r@.len() ==> call_for(text_after(old(clip)@, actions@.take(i)), #[trigger] actions@[i], r@[i]),
{
    let ghost orig = actions@;
    let ghost start = clip@;
    let mut rest = actions;
    let mut calls: Vec<ClipboardCall> = Vec::new();
    while rest.len() > 0
        invariant
            calls@.len() + rest@.len() == orig.len(),
            rest@ == orig.skip(calls@.len() as int),
            clip@ == text_after(start, orig.take(calls@.len() as int)),
            forall|i: int| 0 <= i < calls@.len() ==> call_for(text_after(start, orig.take(i)), #[trigger] orig[i], calls@[i]),
        decreases rest@.len(),
    {
        let n = calls.len();
        let a = rest.remove(0);
        assert(a == orig[n as int]);
        assert(orig.take(n + 1).drop_last() =~= orig.take(n as int));
        let c = clip.apply(a);
        calls.push(c);
        assert(rest@ =~= orig.skip(n + 1));
    }
    assert(orig.take(orig.len() as int) =~= orig);
    calls
}

/// The server has new clipboard data in `available` formats: ask for it
/// as `CF_UNICODETEXT` when offered, and otherwise not at all.
pub fn paste_request(available: &Vec<u32>) -> (r: Option<BackendAction>)
    ensures
        r is Some <==> available@.contains(CF_UNICODETEXT),
        r matches Some(a) ==> (a matches BackendAction::InitiatePaste { format_id } && format_id == CF_UNICODETEXT),
{
    let mut i: usize = 0;
    while i < available.len()
        invariant
            i <= available@.len(),
            forall|j: int| 0 <= j < i ==> available@[j] != CF_UNICODETEXT,
        decreases available.len() - i,
    {
        if available[i] == CF_UNICODETEXT {
            assert(available@[i as int] == CF_UNICODETEXT);
            return Some(BackendAction::InitiatePaste { format_id: CF_UNICODETEXT });
        }
        i = i + 1;
    }
    None
}

/// The event for the server's answer to a paste: the decoded text, or
/// nothing when the server could not supply it.
pub fn remote_clipboard_event(is_error: bool, data: &[u8]) -> (r: Option<RdpEvent>)
    ensures
        is_error ==> r is None,
        !is_error ==> (r matches Some(RdpEvent::RemoteClipboard { text }) && text@ == trim_nuls(
            utf16_lossy(le_units(data@)),
        )),
{
    if is_error {
        return None;
    }
    Some(RdpEvent::RemoteClipboard { text: decode_utf16le_text(data) })
}

/// The server, asking for the clipboard, gets the text that was set last,
/// whatever else was queued in between.
pub proof fn server_gets_last_set_text(
    start: Option<Seq<char>>,
    actions: Seq<BackendAction>,
    calls: Seq<ClipboardCall>,
    j: int,
    i: int,
)
    requires
        calls.len() == actions.len(),
        forall|k: int| 0 <= k < calls.len() ==> call_for(text_after(start, actions.take(k)), #[trigger] actions[k], calls[k]),
        0 <= j < i < actions.len(),
        actions[j] is SetLocalClipboard,
        (actions[i] matches BackendAction::SubmitFormatData { format_id } && format_id == CF_UNICODETEXT),
        forall|k: int| j < k < i ==> !(#[trigger] actions[k] is SetLocalClipboard),
    ensures
        calls[i] matches ClipboardCall::SubmitText { text } && (actions[j] matches BackendAction::SetLocalClipboard {
            text: t,
        } && text@ == t@),
{
    assert(call_for(text_after(start, actions.take(i)), actions[i], calls[i]));
    lemma_text_after_last_set(start, actions.take(i), j);
}

proof fn lemma_text_after_last_set(start: Option<Seq<char>>, actions: Seq<BackendAction>, j: int)
    requires
        0 <= j < actions.len(),
        actions[j] is SetLocalClipboard,
        forall|k: int| j < k < actions.len() ==> !(#[trigger] actions[k] is SetLocalClipboard),
    ensures
        actions[j] matches BackendAction::SetLocalClipboard { text: t } && text_after(start, actions) == Some(t@),
    decreases actions.len(),
{
    let d = actions.drop_last();
    if j < actions.len() - 1 {
        assert forall|k: int| j < k < d.len() implies !(#[trigger] d[k] is SetLocalClipboard) by {
            assert(d[k] == actions[k]);
        }
        lemma_text_after_last_set(start, d, j);
        assert(!(actions[actions.len() - 1] is SetLocalClipboard));
    }
}

pub open spec fn auth_hint() -> Seq<char> {
    " (check the username, password, and domain)"@
}

pub open spec fn tls_hint() -> Seq<char> {
    " (this server does not support TLS; Terminator requires it)"@
}

/// The connection error `raw` with a hint a user can act on: credentials
/// for authentication failures, TLS for servers that refuse it.
pub open spec fn described(raw: Seq<char>) -> Seq<char> {
    let lower = lower_text(raw);
    if contains_seq(lower, "logon"@) || contains_seq(lower, "credssp"@) || contains_seq(lower, "authenticate"@) {
        raw + auth_hint()
    } else if contains_seq(lower, "ssl_not_allowed"@) || contains_seq(lower, "standard rdp security"@) {
        raw + tls_hint()
    } else {
        raw
    }
}

fn contains_literal(hay: &Vec<char>, needle: &str) -> (r: bool)
    ensures
        r == contains_seq(hay@, needle@),
{
    contains_chars(hay, &chars_of(needle))
}

/// Explains a failed connection: the protocol's own message (`raw`), with
/// a hint for the two failures users can fix themselves.
pub fn describe_connect_error(raw: &str) -> (r: String)
    ensures
        r@ == described(raw@),
{
    let lower = chars_of(to_lower(raw).as_str());
    let mut out = raw.to_owned();
    if contains_literal(&lower, "logon") || contains_literal(&lower, "credssp") || contains_literal(
        &lower,
        "authenticate",
    ) {
        out.append(" (check the username, password, and domain)");
    } else if contains_literal(&lower, "ssl_not_allowed") || contains_literal(&lower, "standard rdp security") {
        out.append(" (this server does not support TLS; Terminator requires it)");
    }
    out
}

} // verus!
