//! What kind of thing a path leads to, and how it is drawn without an icon.

use vstd::prelude::*;
use crate::paths;
use crate::text;

verus! {

#[derive(Clone, Copy, Debug, PartialEq, Eq, Structural)]
pub enum ContentKind {
    Application,
    Shortcut,
    Folder,
    Image,
    File,
}

/// The kind that an extension in lower case stands for.
pub open spec fn kind_of_extension(ext: Seq<char>) -> ContentKind {
    if ext == "exe"@ || ext == "com"@ || ext == "bat"@ || ext == "cmd"@ {
        ContentKind::Application
    } else if ext == "lnk"@ || ext == "url"@ {
        ContentKind::Shortcut
    } else if ext == "bmp"@ || ext == "dib"@ || ext == "gif"@ || ext == "heic"@ || ext == "heif"@
        || ext == "ico"@ || ext == "jfif"@ || ext == "jpe"@ || ext == "jpeg"@ || ext == "jpg"@
        || ext == "png"@ || ext == "tif"@ || ext == "tiff"@ || ext == "webp"@ {
        ContentKind::Image
    } else {
        ContentKind::File
    }
}

/// The kind of thing at a path; a directory is a folder whatever its name.
pub open spec fn kind_of(path: Seq<char>, is_dir: bool) -> ContentKind {
    if is_dir {
        ContentKind::Folder
    } else {
        kind_of_extension(
            text::lower(
                match paths::extension_of(path) {
                    Some(e) => e,
                    None => seq![],
                },
            ),
        )
    }
}

/// The character and the colour, in hundredths, that stand in for an icon.
pub open spec fn stand_in(kind: ContentKind) -> (Seq<char>, (u8, u8, u8)) {
    match kind {
        ContentKind::Application => ("\u{25A3}"@, (22, 48, 82)),
        ContentKind::Shortcut => ("\u{2197}"@, (30, 58, 82)),
        ContentKind::Folder => ("\u{1F4C1}"@, (93, 66, 20)),
        ContentKind::Image => ("\u{1F5BC}"@, (48, 64, 46)),
        ContentKind::File => ("\u{1F4C4}"@, (52, 54, 60)),
    }
}

/// The kind of thing at a path.
pub fn classify_path(path: &str, is_dir: bool) -> (r: ContentKind)
    ensures
        r == kind_of(path@, is_dir),
{
    if is_dir {
        return ContentKind::Folder;
    }
    let ext = match paths::extension(path) {
        Some(e) => text::chars_of(e.as_str()),
        None => Vec::new(),
    };
    proof {
        if paths::extension_of(path@) is None {
            assert(ext@ =~= Seq::<char>::empty());
        }
    }
    let w = text::lower_chars(&ext);
    if text::spells(&w, "exe") || text::spells(&w, "com") || text::spells(&w, "bat")
        || text::spells(&w, "cmd") {
        ContentKind::Application
    } else if text::spells(&w, "lnk") || text::spells(&w, "url") {
        ContentKind::Shortcut
    } else if text::spells(&w, "bmp") || text::spells(&w, "dib") || text::spells(&w, "gif")
        || text::spells(&w, "heic") || text::spells(&w, "heif") || text::spells(&w, "ico")
        || text::spells(&w, "jfif") || text::spells(&w, "jpe") || text::spells(&w, "jpeg")
        || text::spells(&w, "jpg") || text::spells(&w, "png") || text::spells(&w, "tif")
        || text::spells(&w, "tiff") || text::spells(&w, "webp") {
        ContentKind::Image
    } else {
        ContentKind::File
    }
}

/// The character and the colour, in hundredths, that stand in for an icon.
pub fn fallback_visual(kind: ContentKind) -> (r: (&'static str, (u8, u8, u8)))
    ensures
        (r.0@, r.1) == stand_in(kind),
{
    match kind {
        ContentKind::Application => ("\u{25A3}", (22, 48, 82)),
        ContentKind::Shortcut => ("\u{2197}", (30, 58, 82)),
        ContentKind::Folder => ("\u{1F4C1}", (93, 66, 20)),
        ContentKind::Image => ("\u{1F5BC}", (48, 64, 46)),
        ContentKind::File => ("\u{1F4C4}", (52, 54, 60)),
    }
}

} // verus!
