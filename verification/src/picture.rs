//! Pictures: the icon, and images that come from and go to the clipboard.

use vstd::prelude::*;

verus! {

/// The side of the icon that stands in for one that cannot be decoded.
pub const FALLBACK_SIDE: u32 = 32;

/// A picture of four bytes a pixel: red, green, blue, alpha.
#[derive(Debug, PartialEq, Eq)]
pub struct Picture {
    pub width: u32,
    pub height: u32,
    pub pixels: Vec<u8>,
}

/// The model of a [`Picture`].
pub struct PictureView {
    pub width: int,
    pub height: int,
    pub pixels: Seq<u8>,
}

impl PictureView {
    /// There are four bytes for each pixel of the size, and no more.
    pub open spec fn is_full(self) -> bool {
        self.pixels.len() == 4 * self.width * self.height
    }
}

impl View for Picture {
    type V = PictureView;

    open spec fn view(&self) -> PictureView {
        PictureView { width: self.width as int, height: self.height as int, pixels: self.pixels@ }
    }
}

/// A picture in the form in which the clipboard takes and gives it.
#[derive(Debug, PartialEq, Eq)]
pub struct ClipboardPicture {
    pub width: usize,
    pub height: usize,
    pub pixels: Vec<u8>,
}

impl View for ClipboardPicture {
    type V = PictureView;

    open spec fn view(&self) -> PictureView {
        PictureView { width: self.width as int, height: self.height as int, pixels: self.pixels@ }
    }
}

/// The model of a picture, if there is one.
pub open spec fn picture_model(p: Option<Picture>) -> Option<PictureView> {
    match p {
        Some(p) => Some(p@),
        None => None,
    }
}

/// What [`image::load_from_memory`] decodes, as RGBA.
pub uninterp spec fn decoded_image(bytes: Seq<u8>) -> Option<PictureView>;

/// What [`image::ImageReader::decode`] decodes, as RGBA, of bytes in the format that
/// the extension of a file name stands for.
pub uninterp spec fn decoded_file(name: Seq<char>, bytes: Seq<u8>) -> Option<PictureView>;

/// [`image::load_from_memory`] and `to_rgba8`: the picture that `bytes` encode in a
/// format that they themselves tell, if there is one. It depends on the bytes alone,
/// and has just the pixels of its size.
#[verifier::external_body]
fn decode_image(bytes: &[u8]) -> (r: Option<Picture>)
    ensures
        picture_model(r) == decoded_image(bytes@),
        r matches Some(p) ==> p@.is_full(),
{
    match image::load_from_memory(bytes) {
        Ok(decoded) => {
            let rgba = decoded.to_rgba8();
            let (width, height) = rgba.dimensions();
            Some(Picture { width, height, pixels: rgba.into_raw() })
        },
        Err(_) => None,
    }
}

/// [`image::ImageReader::decode`] and `to_rgba8`, in the format of
/// [`image::ImageFormat::from_path`]: the picture that `bytes` encode in the format
/// that the extension of `name` stands for, if there is one. It depends on the two
/// alone, and has just the pixels of its size.
#[verifier::external_body]
fn decode_file(name: &str, bytes: &[u8]) -> (r: Option<Picture>)
    ensures
        picture_model(r) == decoded_file(name@, bytes@),
        r matches Some(p) ==> p@.is_full(),
{
    let format = match image::ImageFormat::from_path(name) {
        Ok(format) => format,
        Err(_) => return None,
    };
    match image::ImageReader::with_format(std::io::Cursor::new(bytes), format).decode() {
        Ok(decoded) => {
            let rgba = decoded.to_rgba8();
            let (width, height) = rgba.dimensions();
            Some(Picture { width, height, pixels: rgba.into_raw() })
        },
        Err(_) => None,
    }
}

/// `len` bytes are enough for the pixels of a picture of this size, and the bytes of a
/// row can be counted in a `usize`, which on a machine of 32 bits those of very long
/// rows cannot.
pub open spec fn is_enough(width: u32, height: u32, len: nat) -> bool {
    4 * width <= usize::MAX && 4 * width * height <= len
}

/// [`image::ImageBuffer::from_raw`] of RGBA pixels of one byte a channel, and
/// `into_raw` of what it gives: it takes bytes that are enough for the size, and keeps
/// them.
#[verifier::external_body]
pub(crate) fn rgba_buffer(width: u32, height: u32, bytes: Vec<u8>) -> (r: Option<Vec<u8>>)
    ensures
        r is Some <==> is_enough(width, height, bytes@.len()),
        r matches Some(kept) ==> kept@ == bytes@,
{
    match image::ImageBuffer::<image::Rgba<u8>, Vec<u8>>::from_raw(width, height, bytes) {
        Some(buffer) => Some(buffer.into_raw()),
        None => None,
    }
}

/// A transparent square.
pub open spec fn fallback_icon_view() -> PictureView {
    PictureView {
        width: FALLBACK_SIDE as int,
        height: FALLBACK_SIDE as int,
        pixels: Seq::new(4 * FALLBACK_SIDE as nat * FALLBACK_SIDE as nat, |i: int| 0u8),
    }
}

/// The icon that stands in for one that cannot be used.
pub fn fallback_icon() -> (icon: Picture)
    ensures
        icon@ == fallback_icon_view(),
        icon@.is_full(),
{
    let icon = Picture { width: FALLBACK_SIDE, height: FALLBACK_SIDE, pixels: vec![0u8; 4096] };
    assert(icon.pixels@ == fallback_icon_view().pixels);
    icon
}

/// The icon that was decoded, or else the transparent square.
pub open spec fn icon_view(decoded: Option<PictureView>) -> PictureView {
    match decoded {
        Some(picture) => picture,
        None => fallback_icon_view(),
    }
}

/// The icon of what was decoded.
pub fn icon_of(decoded: Option<Picture>) -> (icon: Picture)
    ensures
        icon@ == icon_view(picture_model(decoded)),
        (decoded matches Some(p) ==> p@.is_full()) ==> icon@.is_full(),
{
    match decoded {
        Some(picture) => picture,
        None => fallback_icon(),
    }
}

/// The icon of the file contents `bytes`. It has just the pixels of its size.
pub fn load_icon(bytes: &[u8]) -> (icon: Picture)
    ensures
        icon@ == icon_view(decoded_image(bytes@)),
        icon@.is_full(),
{
    icon_of(decode_image(bytes))
}

/// The icon of the window, of the file contents `bytes`, if they can be decoded.
pub fn load_window_icon(bytes: &[u8]) -> (icon: Option<Picture>)
    ensures
        picture_model(icon) == decoded_image(bytes@),
        icon matches Some(p) ==> p@.is_full(),
{
    decode_image(bytes)
}

/// The icon to use: `icon`, or the transparent square if `icon` is not accepted as one.
pub fn usable_icon(icon: Picture, accepted: bool) -> (r: Picture)
    ensures
        r@ == if accepted {
            icon@
        } else {
            fallback_icon_view()
        },
        icon@.is_full() ==> r@.is_full(),
{
    if accepted {
        icon
    } else {
        fallback_icon()
    }
}

/// The picture that goes to the clipboard of what was decoded.
pub fn clipboard_picture_of(decoded: Option<Picture>) -> (r: Option<ClipboardPicture>)
    ensures
        match r {
            Some(p) => picture_model(decoded) == Some(p@),
            None => decoded is None,
        },
{
    match decoded {
        Some(p) => Some(
            ClipboardPicture {
                width: p.width as usize,
                height: p.height as usize,
                pixels: p.pixels,
            },
        ),
        None => None,
    }
}

/// The picture that goes to the clipboard of a capture with the file name `name` and
/// the file contents `bytes`.
pub fn load_capture(name: &str, bytes: &[u8]) -> (r: Option<ClipboardPicture>)
    ensures
        match r {
            Some(p) => decoded_file(name@, bytes@) == Some(p@) && p@.is_full(),
            None => decoded_file(name@, bytes@) is None,
        },
{
    clipboard_picture_of(decode_file(name, bytes))
}

/// The icon is the picture that was decoded, whatever it is, and a transparent square of
/// 32 by 32 pixels only if none was.
pub proof fn law_icon(p: PictureView)
    ensures
        icon_view(Some(p)) == p,
        icon_view(None).width == 32,
        icon_view(None).height == 32,
        icon_view(None).pixels.len() == 4 * 32 * 32,
        forall|i: int| 0 <= i < 4 * 32 * 32 ==> #[trigger] icon_view(None).pixels[i] == 0,
{
}

/// The pixels are enough for a size if and only if each has its four bytes.
pub proof fn law_is_enough(width: u32, height: u32, len: nat)
    requires
        4 * width <= usize::MAX,
    ensures
        is_enough(width, height, len) <==> len >= 4 * (width * height),
{
    assert(4 * width * height == 4 * (width * height)) by (nonlinear_arith);
}

/// The models of pictures have their sizes and pixels.
pub proof fn law_picture_models(p: Picture, c: ClipboardPicture)
    ensures
        p@.width == p.width && p@.height == p.height && p@.pixels == p.pixels@,
        c@.width == c.width && c@.height == c.height && c@.pixels == c.pixels@,
        picture_model(Some(p)) == Some(p@),
        picture_model(None) is None,
{
}

/// A picture goes to the clipboard as it was decoded, and an icon that is not accepted is
/// replaced by the transparent square.
pub proof fn law_pictures_stay(p: Picture, c: Option<ClipboardPicture>, accepted: bool, icon: Picture)
    requires
        call_ensures(clipboard_picture_of, (Some(p),), c),
        call_ensures(usable_icon, (p, accepted), icon),
    ensures
        c matches Some(c) && c.width == p.width && c.height == p.height && c.pixels@ == p.pixels@,
        accepted ==> icon@ == p@,
        !accepted ==> icon.width == 32 && icon.height == 32 && icon.pixels@.len() == 4 * 32 * 32,
{
}

} // verus!
