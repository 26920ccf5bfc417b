//! Content types guessed from file extensions.
use vstd::prelude::*;

use crate::text::{chars_of, lower_of, lowercase, split, split_bounds, str_eq, substring};

verus! {

#[derive(Debug, Clone, Copy, PartialEq, Eq, Hash, Structural)]
pub enum FileExtension {
    Html,
    Css,
    Js,
    Png,
    Jpg,
    Jpeg,
    Gif,
    Svg,
    Ico,
    Json,
    Woff,
    Woff2,
    Unknown,
}

#[derive(Debug, Clone, Copy, PartialEq, Eq, Structural)]
pub enum MimeType {
    TextHtml,
    TextCss,
    ApplicationJavaScript,
    ImagePng,
    ImageJpeg,
    ImageGif,
    ImageSvg,
    ImageIcon,
    ApplicationJson,
    FontWoff,
    FontWoff2,
    ApplicationOctet,
}

/// The name of a content type.
pub open spec fn mime_name(m: MimeType) -> Seq<char> {
    match m {
        MimeType::TextHtml => "text/html"@,
        MimeType::TextCss => "text/css"@,
        MimeType::ApplicationJavaScript => "application/javascript"@,
        MimeType::ImagePng => "image/png"@,
        MimeType::ImageJpeg => "image/jpeg"@,
        MimeType::ImageGif => "image/gif"@,
        MimeType::ImageSvg => "image/svg+xml"@,
        MimeType::ImageIcon => "image/x-icon"@,
        MimeType::ApplicationJson => "application/json"@,
        MimeType::FontWoff => "font/woff"@,
        MimeType::FontWoff2 => "font/woff2"@,
        MimeType::ApplicationOctet => "application/octet-stream"@,
    }
}

/// The extension that a lower-cased extension text names.
pub open spec fn extension_of(s: Seq<char>) -> FileExtension {
    if s == "html"@ {
        FileExtension::Html
    } else if s == "css"@ {
        FileExtension::Css
    } else if s == "js"@ {
        FileExtension::Js
    } else if s == "png"@ {
        FileExtension::Png
    } else if s == "jpg"@ {
        FileExtension::Jpg
    } else if s == "jpeg"@ {
        FileExtension::Jpeg
    } else if s == "gif"@ {
        FileExtension::Gif
    } else if s == "svg"@ {
        FileExtension::Svg
    } else if s == "ico"@ {
        FileExtension::Ico
    } else if s == "json"@ {
        FileExtension::Json
    } else if s == "woff"@ {
        FileExtension::Woff
    } else if s == "woff2"@ {
        FileExtension::Woff2
    } else {
        FileExtension::Unknown
    }
}

/// The content type of files with an extension.
pub open spec fn mime_of(e: FileExtension) -> MimeType {
    match e {
        FileExtension::Html => MimeType::TextHtml,
        FileExtension::Css => MimeType::TextCss,
        FileExtension::Js => MimeType::ApplicationJavaScript,
        FileExtension::Png => MimeType::ImagePng,
        FileExtension::Jpg => MimeType::ImageJpeg,
        FileExtension::Jpeg => MimeType::ImageJpeg,
        FileExtension::Gif => MimeType::ImageGif,
        FileExtension::Svg => MimeType::ImageSvg,
        FileExtension::Ico => MimeType::ImageIcon,
        FileExtension::Json => MimeType::ApplicationJson,
        FileExtension::Woff => MimeType::FontWoff,
        FileExtension::Woff2 => MimeType::FontWoff2,
        FileExtension::Unknown => MimeType::ApplicationOctet,
    }
}

/// The text after the last `.` of a path, or the whole path.
pub open spec fn last_piece(path: Seq<char>) -> Seq<char> {
    split(path, seq!['.']).last()
}

/// The content type guessed for a path.
pub open spec fn guess_of(path: Seq<char>) -> MimeType {
    mime_of(extension_of(lower_of(last_piece(path))))
}

/// The name of the content type guessed for a path.
pub open spec fn mime_of_path(path: Seq<char>) -> Seq<char> {
    mime_name(guess_of(path))
}

impl MimeType {
    /// The content type's name.
    pub fn as_str(&self) -> (r: &'static str)
        ensures
            r@ == mime_name(*self),
    {
        match self {
            MimeType::TextHtml => "text/html",
            MimeType::TextCss => "text/css",
            MimeType::ApplicationJavaScript => "application/javascript",
            MimeType::ImagePng => "image/png",
            MimeType::ImageJpeg => "image/jpeg",
            MimeType::ImageGif => "image/gif",
            MimeType::ImageSvg => "image/svg+xml",
            MimeType::ImageIcon => "image/x-icon",
            MimeType::ApplicationJson => "application/json",
            MimeType::FontWoff => "font/woff",
            MimeType::FontWoff2 => "font/woff2",
            MimeType::ApplicationOctet => "application/octet-stream",
        }
    }
}

impl FileExtension {
    /// The extension named by `ext`, in any letter case.
    pub fn from_str(ext: &str) -> (r: FileExtension)
        ensures
            r == extension_of(lower_of(ext@)),
    {
        let low = lowercase(ext);
        let s = low.as_str();
        if str_eq(s, "html") {
            FileExtension::Html
        } else if str_eq(s, "css") {
            FileExtension::Css
        } else if str_eq(s, "js") {
            FileExtension::Js
        } else if str_eq(s, "png") {
            FileExtension::Png
        } else if str_eq(s, "jpg") {
            FileExtension::Jpg
        } else if str_eq(s, "jpeg") {
            FileExtension::Jpeg
        } else if str_eq(s, "gif") {
            FileExtension::Gif
        } else if str_eq(s, "svg") {
            FileExtension::Svg
        } else if str_eq(s, "ico") {
            FileExtension::Ico
        } else if str_eq(s, "json") {
            FileExtension::Json
        } else if str_eq(s, "woff") {
            FileExtension::Woff
        } else if str_eq(s, "woff2") {
            FileExtension::Woff2
        } else {
            FileExtension::Unknown
        }
    }

    /// The content type of files with this extension.
    pub fn mime_type(&self) -> (r: MimeType)
        ensures
            r == mime_of(*self),
    {
        match self {
            FileExtension::Html => MimeType::TextHtml,
            FileExtension::Css => MimeType::TextCss,
            FileExtension::Js => MimeType::ApplicationJavaScript,
            FileExtension::Png => MimeType::ImagePng,
            FileExtension::Jpg | FileExtension::Jpeg => MimeType::ImageJpeg,
            FileExtension::Gif => MimeType::ImageGif,
            FileExtension::Svg => MimeType::ImageSvg,
            FileExtension::Ico => MimeType::ImageIcon,
            FileExtension::Json => MimeType::ApplicationJson,
            FileExtension::Woff => MimeType::FontWoff,
            FileExtension::Woff2 => MimeType::FontWoff2,
            FileExtension::Unknown => MimeType::ApplicationOctet,
        }
    }
}

/// Guesses a path's content type from the text after its last `.`.
pub fn guess_mime_type(path: &str) -> (r: MimeType)
    ensures
        r == guess_of(path@),
{
    let cs = chars_of(path);
    let b = split_bounds(&cs, '.');
    proof {
        crate::text::lemma_split_nonempty(cs@, seq!['.']);
    }
    let (lo, hi) = b[b.len() - 1];
    let ext = substring(&cs, lo, hi);
    FileExtension::from_str(ext.as_str()).mime_type()
}

} // verus!
