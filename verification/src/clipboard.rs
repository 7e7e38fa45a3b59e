//! What is found on the clipboard.

use vstd::prelude::*;

use crate::picture::ClipboardPicture;

verus! {

/// What was on the clipboard.
#[derive(Debug, PartialEq, Eq)]
pub enum ClipboardContent {
    /// A text.
    Text(String),
    /// An image: its pixels, its width and its height.
    Image(Vec<u8>, u32, u32),
    /// Neither.
    Empty,
}

/// What a look at the clipboard found: `opened` tells whether it could be opened,
/// `picture` and `text` are what it gave of either kind. A picture counts before a
/// text.
pub fn check_clipboard(
    opened: Result<(), String>,
    picture: Option<ClipboardPicture>,
    text: Option<String>,
) -> (r: Result<ClipboardContent, String>)
    ensures
        match opened {
            Err(e) => r == Err::<ClipboardContent, String>(e),
            Ok(_) => match (picture, text) {
                (Some(p), _) => r == Ok::<ClipboardContent, String>(
                    ClipboardContent::Image(p.pixels, p.width as u32, p.height as u32),
                ),
                (None, Some(t)) => r == Ok::<ClipboardContent, String>(ClipboardContent::Text(t)),
                (None, None) => r == Ok::<ClipboardContent, String>(ClipboardContent::Empty),
            },
        },
{
    match opened {
        Err(e) => Err(e),
        Ok(_) => match picture {
            Some(p) => Ok(ClipboardContent::Image(p.pixels, p.width as u32, p.height as u32)),
            None => match text {
                Some(t) => Ok(ClipboardContent::Text(t)),
                None => Ok(ClipboardContent::Empty),
            },
        },
    }
}

/// Whatever a look at the clipboard finds comes back whole: the error if it could not be
/// opened; else the picture, with all its pixels, if there is one, whether there is a text
/// or not; else the text, character by character, if there is one.
pub proof fn law_found(
    opened: Result<(), String>,
    picture: Option<ClipboardPicture>,
    text: Option<String>,
    r: Result<ClipboardContent, String>,
)
    requires
        call_ensures(check_clipboard, (opened, picture, text), r),
    ensures
        opened matches Err(e) ==> r == Err::<ClipboardContent, String>(e),
        opened is Ok ==> r is Ok,
        opened is Ok && picture is Some ==> (r->Ok_0 matches ClipboardContent::Image(pixels, w, h)
            && pixels@ == picture->0.pixels@ && w == picture->0.width as u32 && h
            == picture->0.height as u32),
        opened is Ok && picture is None && text is Some ==> (r->Ok_0 matches ClipboardContent::Text(
            t,
        ) && t@ == text->0@),
        opened is Ok && picture is None && text is None ==> r->Ok_0 is Empty,
{
}

} // verus!
