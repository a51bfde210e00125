//! Decoded images.

use vstd::prelude::*;
use std::sync::Arc;
use crate::paths;
use crate::paths::{file_name_chars, split_stem_ext};
use crate::text;
use crate::text::{chars_of, same_text, text_of};
use crate::runtime::string_semantics::ascii_lower;

verus! {

/// An image of four bytes per pixel: red, green, blue and opacity.
#[derive(Debug)]
pub struct RgbaImage {
    pub width: u32,
    pub height: u32,
    /// The point that formats with such a point put at the object's place.
    pub center_x: i32,
    pub center_y: i32,
    pub rgba: Vec<u8>,
}

/// What an image holds.
#[verifier::ext_equal]
pub struct ImageView {
    pub width: u32,
    pub height: u32,
    pub center_x: i32,
    pub center_y: i32,
    pub rgba: Seq<u8>,
}

impl RgbaImage {
    pub open spec fn view(&self) -> ImageView {
        ImageView {
            width: self.width,
            height: self.height,
            center_x: self.center_x,
            center_y: self.center_y,
            rgba: self.rgba@,
        }
    }

    /// Every pixel has its four bytes.
    pub open spec fn wf(&self) -> bool {
        self.rgba@.len() == self.width * self.height * 4
    }
}

impl Clone for RgbaImage {
    fn clone(&self) -> (r: RgbaImage)
        ensures
            r@ == self@,
    {
        RgbaImage {
            width: self.width,
            height: self.height,
            center_x: self.center_x,
            center_y: self.center_y,
            rgba: vstd::slice::slice_to_vec(self.rgba.as_slice()),
        }
    }
}

/// `Arc::clone` gives another owner of the same image.
#[verifier::external_body]
pub(crate) fn share(image: &Arc<RgbaImage>) -> (r: Arc<RgbaImage>)
    ensures
        r == *image,
{
    Arc::clone(image)
}

/// The formats that are decoded by the `image` crate.
#[derive(Debug, Clone, Copy, PartialEq, Eq, Structural)]
pub enum ImageKind {
    Png,
    Jpeg,
    Bmp,
}

/// What `image::load_from_memory_with_format`, followed by `to_rgba8`, makes of
/// the bytes of a file: width, height and pixels, or nothing where it fails.
pub uninterp spec fn decoded_as(bytes: Seq<u8>, kind: ImageKind) -> Option<(u32, u32, Seq<u8>)>;

/// `image::load_from_memory_with_format` decodes a file, and `to_rgba8` brings
/// it to four bytes per pixel. The result depends on the bytes and the format
/// alone. The buffer holds exactly the pixels of the image.
#[verifier::external_body]
fn decode(bytes: &[u8], kind: ImageKind) -> (r: Option<(u32, u32, Vec<u8>)>)
    ensures
        match r {
            Some((w, h, raw)) => decoded_as(bytes@, kind) == Some((w, h, raw@)) && raw@.len() == w
                * h * 4,
            None => decoded_as(bytes@, kind) is None,
        },
{
    let format = match kind {
        ImageKind::Png => image::ImageFormat::Png,
        ImageKind::Jpeg => image::ImageFormat::Jpeg,
        ImageKind::Bmp => image::ImageFormat::Bmp,
    };
    let rgba = image::load_from_memory_with_format(bytes, format).ok()?.to_rgba8();
    Some((rgba.width(), rgba.height(), rgba.into_raw()))
}

/// Why an image could not be loaded.
#[derive(Debug, Clone, Copy, PartialEq, Eq, Structural)]
pub enum ImageError {
    UnsupportedExtension,
    Decode,
    /// The file holds no frame.
    NoFrames,
    FrameOutOfRange { index: usize, count: usize },
}

/// The extension of a path in small letters, empty where there is none.
pub open spec fn extension_of(path: Seq<char>) -> Seq<char> {
    match paths::file_name_of(path) {
        None => Seq::empty(),
        Some(name) => match paths::stem_and_extension(name) {
            Some((_, ext)) => text::lower(ext),
            None => Seq::empty(),
        },
    }
}

/// The extension of a path in small letters, empty where there is none.
pub fn lower_extension(path: &str) -> (r: String)
    ensures
        r@ == extension_of(path@),
{
    let chars = chars_of(path);
    match file_name_chars(chars.as_slice()) {
        None => String::new(),
        Some(name) => match split_stem_ext(name.as_slice()) {
            Some((_, ext)) => {
                let raw = text_of(ext.as_slice());
                ascii_lower(raw.as_str())
            },
            None => String::new(),
        },
    }
}

/// The format that an extension stands for.
pub open spec fn kind_of(ext: Seq<char>) -> Option<ImageKind> {
    if ext == "png"@ {
        Some(ImageKind::Png)
    } else if ext == "jpg"@ || ext == "jpeg"@ {
        Some(ImageKind::Jpeg)
    } else if ext == "bmp"@ {
        Some(ImageKind::Bmp)
    } else {
        None
    }
}

fn find_kind(ext: &str) -> (r: Option<ImageKind>)
    ensures
        r == kind_of(ext@),
{
    if same_text(ext, "png") {
        Some(ImageKind::Png)
    } else if same_text(ext, "jpg") || same_text(ext, "jpeg") {
        Some(ImageKind::Jpeg)
    } else if same_text(ext, "bmp") {
        Some(ImageKind::Bmp)
    } else {
        None
    }
}

/// Whether every whole pixel is fully transparent.
pub open spec fn all_transparent(raw: Seq<u8>) -> bool {
    forall|i: int| 0 <= i < raw.len() / 4 ==> #[trigger] raw[4 * i + 3] == 0
}

/// The pixels with full opacity.
pub open spec fn opaque(raw: Seq<u8>) -> Seq<u8> {
    Seq::new(
        raw.len(),
        |i: int|
            if i % 4 == 3 {
                255u8
            } else {
                raw[i]
            },
    )
}

/// The pixels of a bitmap: save thumbnails are written with an opacity of 0
/// throughout, which stands for full opacity. Where any pixel has an opacity,
/// the bitmap stays as it is.
pub open spec fn bitmap_pixels(raw: Seq<u8>) -> Seq<u8> {
    if all_transparent(raw) {
        opaque(raw)
    } else {
        raw
    }
}

fn is_all_transparent(raw: &Vec<u8>) -> (r: bool)
    ensures
        r == all_transparent(raw@),
{
    let n: usize = raw.len() / 4;
    let mut i: usize = 0;
    while i < n
        invariant
            n == raw@.len() / 4,
            raw@.len() <= usize::MAX,
            i <= n,
            forall|k: int| 0 <= k < i ==> #[trigger] raw@[4 * k + 3] == 0,
        decreases n - i,
    {
        if raw[4 * i + 3] != 0 {
            return false;
        }
        i = i + 1;
    }
    true
}

fn make_opaque(raw: &mut Vec<u8>)
    requires
        old(raw)@.len() % 4 == 0,
    ensures
        final(raw)@ == opaque(old(raw)@),
{
    let len: usize = raw.len();
    let n: usize = len / 4;
    let mut i: usize = 0;
    while i < n
        invariant
            len == raw@.len(),
            len == old(raw)@.len(),
            n == len / 4,
            i <= n,
            forall|k: int|
                0 <= k < 4 * i ==> #[trigger] raw@[k] == (if k % 4 == 3 {
                    255u8
                } else {
                    old(raw)@[k]
                }),
            forall|k: int| 4 * i <= k < len ==> #[trigger] raw@[k] == old(raw)@[k],
        decreases n - i,
    {
        raw.set(4 * i + 3, 255);
        i = i + 1;
    }
    proof {
        assert(raw@ =~= opaque(old(raw)@));
    }
}

/// An image made of decoded pixels.
pub open spec fn image_of(kind: ImageKind, decoded: (u32, u32, Seq<u8>)) -> ImageView {
    ImageView {
        width: decoded.0,
        height: decoded.1,
        center_x: 0,
        center_y: 0,
        rgba: if kind == ImageKind::Bmp {
            bitmap_pixels(decoded.2)
        } else {
            decoded.2
        },
    }
}

/// Makes an image of decoded pixels.
pub fn finish_image(kind: ImageKind, width: u32, height: u32, raw: Vec<u8>) -> (r: RgbaImage)
    requires
        raw@.len() == width * height * 4,
    ensures
        r@ == image_of(kind, (width, height, raw@)),
        r.wf(),
{
    let mut pixels = raw;
    if let ImageKind::Bmp = kind {
        if is_all_transparent(&pixels) {
            proof {
                assert((width * height * 4) % 4 == 0) by (nonlinear_arith);
            }
            make_opaque(&mut pixels);
        }
    }
    RgbaImage { width, height, center_x: 0, center_y: 0, rgba: pixels }
}

/// The image in the file at `path`. `bytes` is what the file holds, and
/// `frames` what the decoder of frame files made of them, where it succeeded.
pub open spec fn loaded(
    path: Seq<char>,
    bytes: Seq<u8>,
    frames: Option<Seq<RgbaImage>>,
    frame_index: int,
) -> Result<ImageView, ImageError> {
    let ext = extension_of(path);
    if ext == "g00"@ {
        match frames {
            None => Err(ImageError::Decode),
            Some(list) => if list.len() == 0 {
                Err(ImageError::NoFrames)
            } else if frame_index >= list.len() {
                Err(
                    ImageError::FrameOutOfRange {
                        index: frame_index as usize,
                        count: list.len() as usize,
                    },
                )
            } else {
                Ok(list[frame_index]@)
            },
        }
    } else {
        match kind_of(ext) {
            None => Err(ImageError::UnsupportedExtension),
            Some(kind) => match decoded_as(bytes, kind) {
                None => Err(ImageError::Decode),
                Some(decoded) => Ok(image_of(kind, decoded)),
            },
        }
    }
}

/// Loads the image in the file at `path`.
pub fn load_image_any(
    path: &str,
    bytes: &[u8],
    frames: Option<&Vec<RgbaImage>>,
    g00_frame_index: usize,
) -> (r: Result<RgbaImage, ImageError>)
    ensures
        match r {
            Ok(image) => loaded(
                path@,
                bytes@,
                match frames {
                    Some(list) => Some(list@),
                    None => None,
                },
                g00_frame_index as int,
            ) == Ok::<ImageView, ImageError>(image@),
            Err(e) => loaded(
                path@,
                bytes@,
                match frames {
                    Some(list) => Some(list@),
                    None => None,
                },
                g00_frame_index as int,
            ) == Err::<ImageView, ImageError>(e),
        },
        r matches Ok(made) ==> (extension_of(path@) != "g00"@ ==> made.wf()),
{
    let ext = lower_extension(path);
    if same_text(ext.as_str(), "g00") {
        return match frames {
            None => Err(ImageError::Decode),
            Some(list) => {
                if list.len() == 0 {
                    Err(ImageError::NoFrames)
                } else if g00_frame_index >= list.len() {
                    Err(ImageError::FrameOutOfRange { index: g00_frame_index, count: list.len() })
                } else {
                    Ok(list[g00_frame_index].clone())
                }
            },
        };
    }
    match find_kind(ext.as_str()) {
        None => Err(ImageError::UnsupportedExtension),
        Some(kind) => match decode(bytes, kind) {
            None => Err(ImageError::Decode),
            Some((w, h, raw)) => Ok(finish_image(kind, w, h, raw)),
        },
    }
}

/// Files with other extensions are refused whatever they hold, and `dds` is
/// among them.
pub proof fn other_files_are_refused(
    path: Seq<char>,
    bytes: Seq<u8>,
    frames: Option<Seq<RgbaImage>>,
    frame_index: int,
)
    requires
        extension_of(path) == "dds"@ || (extension_of(path) != "g00"@ && extension_of(path)
            != "png"@ && extension_of(path) != "jpg"@ && extension_of(path) != "jpeg"@
            && extension_of(path) != "bmp"@),
    ensures
        loaded(path, bytes, frames, frame_index) == Err::<ImageView, ImageError>(
            ImageError::UnsupportedExtension,
        ),
{
    if extension_of(path) == "dds"@ {
        reveal_strlit("dds");
        reveal_strlit("g00");
        reveal_strlit("png");
        reveal_strlit("jpg");
        reveal_strlit("jpeg");
        reveal_strlit("bmp");
        assert("dds"@[0] == 'd');
    }
}

/// A bitmap is never left fully transparent throughout, and one that has an
/// opacity anywhere is left as it is.
pub proof fn bitmaps_are_visible(raw: Seq<u8>, i: int)
    requires
        0 <= i < raw.len() / 4,
    ensures
        !all_transparent(bitmap_pixels(raw)),
        all_transparent(raw) ==> bitmap_pixels(raw)[4 * i + 3] == 255,
        !all_transparent(raw) ==> bitmap_pixels(raw) == raw,
{
    if all_transparent(raw) {
        let p = bitmap_pixels(raw);
        assert(p.len() == raw.len());
        assert((4 * i + 3) % 4 == 3);
        assert(p[4 * i + 3] == 255);
    }
}

/// A file is read as what its extension says: a picture of the project gives the frame that is
/// asked for, and only of a bitmap is a layer without any opacity shown.
pub proof fn files_are_read_by_their_extension(
    path: Seq<char>,
    bytes: Seq<u8>,
    frames: Seq<RgbaImage>,
    frame_index: int,
)
    requires
        0 <= frame_index,
    ensures
        extension_of(path) == "g00"@ && frame_index < frames.len() ==> loaded(
            path,
            bytes,
            Some(frames),
            frame_index,
        ) == Ok::<ImageView, ImageError>(frames[frame_index]@),
        extension_of(path) == "g00"@ && 0 < frames.len() <= frame_index ==> (loaded(
            path,
            bytes,
            Some(frames),
            frame_index,
        ) matches Err(e) && e is FrameOutOfRange),
        extension_of(path) == "png"@ ==> (decoded_as(bytes, ImageKind::Png) matches Some(d) ==> (
        loaded(path, bytes, None, frame_index) matches Ok(img) && img.width == d.0 && img.height
            == d.1 && img.rgba == d.2 && img.center_x == 0 && img.center_y == 0)),
        extension_of(path) == "jpg"@ || extension_of(path) == "jpeg"@ ==> (decoded_as(
            bytes,
            ImageKind::Jpeg,
        ) matches Some(d) ==> (loaded(path, bytes, None, frame_index) matches Ok(img) && img.width
            == d.0 && img.height == d.1 && img.rgba == d.2)),
{
    reveal_strlit("g00");
    reveal_strlit("png");
    reveal_strlit("jpg");
    reveal_strlit("jpeg");
    reveal_strlit("bmp");
    assert("g00"@[0] == 'g');
    assert("png"@[0] == 'p');
    assert("jpg"@[0] == 'j' && "jpeg"@[0] == 'j');
}

} // verus!
