//! Files that were saved for clients.
use vstd::prelude::*;
use vstd::string::*;

use crate::outside;
use crate::text;

verus! {

/// Where a file is kept, and how it is served.
#[derive(Debug)]
pub struct ServedFile {
    pub name: String,
    pub directory: &'static str,
    pub content_type: String,
    pub cache_control: &'static str,
}

/// The name under which a file is kept: without slashes, so that it cannot
/// name another directory.
pub open spec fn safe_name(file: Seq<char>) -> Seq<char> {
    text::swapped_of(file, '/', '-')
}

/// Where the file that is asked for is kept, and how it is served.
pub fn served_file(file: &str, media_type: &str) -> (r: ServedFile)
    ensures
        r.name@ == safe_name(file@),
        r.directory@ == (if media_type@ == "image"@ {
            "image"@
        } else {
            "video"@
        }),
        r.content_type@ == (if media_type@ == "image"@ {
            outside::mime_of(safe_name(file@))
        } else {
            "video/mp4"@
        }),
        r.cache_control@ == "public, max-age=31536000, immutable"@,
{
    let name = text::swap_char(file, '/', '-');
    let cache_control: &'static str = "public, max-age=31536000, immutable";
    if text::same_text(media_type, "image") {
        let content_type = outside::guess_mime(name.as_str());
        ServedFile { name, directory: "image", content_type, cache_control }
    } else {
        ServedFile {
            name,
            directory: "video",
            content_type: String::from_str("video/mp4"),
            cache_control,
        }
    }
}

/// A file is never looked for in another directory: its name has no slash.
pub proof fn law_names_have_no_slash(file: Seq<char>)
    ensures
        !safe_name(file).contains('/'),
        safe_name(file).len() == file.len(),
{
    assert forall|i: int| 0 <= i < safe_name(file).len() implies safe_name(file)[i] != '/' by {}
}

} // verus!
