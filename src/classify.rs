use vstd::prelude::*;
use crate::text::{
    chars_contain, chars_of, chars_start_with, contains_chars, same_text, starts_with_chars,
};
use crate::types::FileType;

verus! {

pub open spec fn image_extension(e: Seq<char>) -> bool {
    e == "jpg"@ || e == "jpeg"@ || e == "png"@ || e == "gif"@ || e == "bmp"@ || e == "webp"@ || e
        == "heic"@ || e == "heif"@ || e == "tiff"@ || e == "tif"@
}

pub open spec fn video_extension(e: Seq<char>) -> bool {
    e == "mp4"@ || e == "mov"@ || e == "avi"@ || e == "mkv"@ || e == "m4v"@ || e == "wmv"@ || e
        == "flv"@ || e == "webm"@ || e == "3gp"@
}

/// The media category of a lower-case extension; `None` for what is neither
/// an image nor a video.
pub open spec fn media_category(e: Seq<char>) -> Option<FileType> {
    if image_extension(e) {
        Some(FileType::Image)
    } else if video_extension(e) {
        Some(FileType::Video)
    } else {
        None
    }
}

/// A file name (lower-cased) that says it is a screenshot.
pub open spec fn screenshot_name(lower: Seq<char>) -> bool {
    chars_contain(lower, "screenshot"@) || chars_contain(lower, "screen shot"@) || chars_start_with(
        lower,
        "screen_"@,
    )
}

/// `w / h` is within 0.1 of 9:16 or of 16:9.
pub open spec fn phone_aspect(w: int, h: int) -> bool {
    (-16 * h < 160 * w - 90 * h < 16 * h) || (-9 * h < 90 * w - 160 * h < 9 * h)
}

/// A common screen resolution.
pub open spec fn screen_size(w: int, h: int) -> bool {
    (w == 1920 && h == 1080) || (w == 1080 && h == 1920) || (w == 1080 && h == 2340) || (w == 1080
        && h == 2400) || (w == 1284 && h == 2778)
}

/// The screenshot heuristic, on the lower-cased file name and the image's dimensions.
pub open spec fn screenshot_rule(lower: Seq<char>, width: Option<u32>, height: Option<u32>) -> bool {
    screenshot_name(lower) || (width is Some && height is Some && phone_aspect(
        width->0 as int,
        height->0 as int,
    ) && screen_size(width->0 as int, height->0 as int))
}

/// A file name (lower-cased) that looks like a meme, a download or a placeholder.
pub open spec fn suspicious_name(lower: Seq<char>) -> bool {
    chars_contain(lower, "meme"@) || chars_contain(lower, "funny"@) || chars_contain(lower, "lol"@)
        || chars_contain(lower, "image"@) || chars_contain(lower, "download"@) || chars_contain(
        lower,
        "untitled"@,
    ) || chars_contain(lower, "img_"@) || chars_contain(lower, "pic_"@) || chars_contain(
        lower,
        "photo_"@,
    ) || chars_contain(lower, "picture_"@) || chars_contain(lower, "file_"@) || chars_contain(
        lower,
        "temp"@,
    )
}

/// Whether a lower-case extension is that of an image.
pub fn is_image_extension(ext: &str) -> (r: bool)
    ensures
        r == image_extension(ext@),
{
    same_text(ext, "jpg") || same_text(ext, "jpeg") || same_text(ext, "png") || same_text(ext, "gif")
        || same_text(ext, "bmp") || same_text(ext, "webp") || same_text(ext, "heic") || same_text(
        ext,
        "heif",
    ) || same_text(ext, "tiff") || same_text(ext, "tif")
}

/// Whether a lower-case extension is that of a video.
pub fn is_video_extension(ext: &str) -> (r: bool)
    ensures
        r == video_extension(ext@),
{
    same_text(ext, "mp4") || same_text(ext, "mov") || same_text(ext, "avi") || same_text(ext, "mkv")
        || same_text(ext, "m4v") || same_text(ext, "wmv") || same_text(ext, "flv") || same_text(
        ext,
        "webm",
    ) || same_text(ext, "3gp")
}

/// The media category of a lower-case extension.
pub fn classify_extension(ext: &str) -> (r: Option<FileType>)
    ensures
        r == media_category(ext@),
{
    if is_image_extension(ext) {
        Some(FileType::Image)
    } else if is_video_extension(ext) {
        Some(FileType::Video)
    } else {
        None
    }
}

fn has(hay: &Vec<char>, needle: &str) -> (r: bool)
    ensures
        r == chars_contain(hay@, needle@),
{
    let n = chars_of(needle);
    contains_chars(hay, &n)
}

/// The screenshot heuristic on an already lower-cased file name.
pub fn screenshot_by_name_and_size(lower: &str, width: Option<u32>, height: Option<u32>) -> (r:
    bool)
    ensures
        r == screenshot_rule(lower@, width, height),
{
    let name = chars_of(lower);
    let prefix = chars_of("screen_");
    if has(&name, "screenshot") || has(&name, "screen shot") || starts_with_chars(&name, &prefix) {
        return true;
    }
    match (width, height) {
        (Some(w), Some(h)) => {
            let w = w as i64;
            let h = h as i64;
            assert(0 <= w <= 4294967295 && 0 <= h <= 4294967295);
            let tall_gap = 160 * w - 90 * h;
            let tall_bound = 16 * h;
            let wide_gap = 90 * w - 160 * h;
            let wide_bound = 9 * h;
            let tall = 0 - tall_bound < tall_gap && tall_gap < tall_bound;
            let wide = 0 - wide_bound < wide_gap && wide_gap < wide_bound;
            let common = (w == 1920 && h == 1080) || (w == 1080 && h == 1920) || (w == 1080 && h
                == 2340) || (w == 1080 && h == 2400) || (w == 1284 && h == 2778);
            (tall || wide) && common
        },
        _ => false,
    }
}

/// Whether an already lower-cased file name looks like a meme or a download.
pub fn is_suspicious_name(lower: &str) -> (r: bool)
    ensures
        r == suspicious_name(lower@),
{
    let name = chars_of(lower);
    has(&name, "meme") || has(&name, "funny") || has(&name, "lol") || has(&name, "image") || has(
        &name,
        "download",
    ) || has(&name, "untitled") || has(&name, "img_") || has(&name, "pic_") || has(&name, "photo_")
        || has(&name, "picture_") || has(&name, "file_") || has(&name, "temp")
}

} // verus!
