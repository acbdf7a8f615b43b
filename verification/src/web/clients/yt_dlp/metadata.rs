//! The metadata of a video as yt-dlp writes it.
use crate::text::{blank, is_blank, to_chars};
use vstd::prelude::*;

verus! {

/// A thumbnail of a video.
#[derive(Debug, Clone)]
pub struct Thumbnail {
    pub url: String,
    pub id: Option<String>,
    pub width: Option<u32>,
    pub height: Option<u32>,
    pub preference: Option<i32>,
    pub resolution: Option<String>,
}

/// A text that is absent, empty or whitespace only becomes `None`.
pub fn empty_as_none(opt: Option<String>) -> (r: Option<String>)
    ensures
        match opt {
            Some(s) => if is_blank(s@) {
                r is None
            } else {
                r == Some(s)
            },
            None => r is None,
        },
{
    match opt {
        Some(s) => {
            if blank(to_chars(s.as_str()).as_slice()) {
                None
            } else {
                Some(s)
            }
        },
        None => None,
    }
}

/// `Unnamed Chapter`
pub open spec fn unnamed_chapter() -> Seq<char> {
    "Unnamed Chapter"@
}

/// `end`
pub open spec fn open_end() -> Seq<char> {
    "end"@
}

/// The label of a chapter: `<title> - <start>–<end>`, with `Unnamed Chapter` for a missing
/// title and `end` for a missing end; `start` and `end` are the times as written out.
pub open spec fn spec_chapter_label(
    title: Option<Seq<char>>,
    start: Seq<char>,
    end: Option<Seq<char>>,
) -> Seq<char> {
    (match title {
        Some(t) => t,
        None => unnamed_chapter(),
    }) + " - "@ + start + "–"@ + (match end {
        Some(e) => e,
        None => open_end(),
    })
}

/// The label of a chapter titled `title` from `start` to `end`.
pub fn chapter_label(title: Option<&str>, start: &str, end: Option<&str>) -> (l: String)
    ensures
        l@ == spec_chapter_label(title.deep_view(), start@, end.deep_view()),
{
    let mut l = match title {
        Some(t) => String::from_str(t),
        None => String::from_str("Unnamed Chapter"),
    };
    l.append(" - ");
    l.append(start);
    l.append("–");
    match end {
        Some(e) => l.append(e),
        None => l.append("end"),
    }
    l
}

} // verus!
