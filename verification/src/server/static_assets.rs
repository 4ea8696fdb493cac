//! Files that are served as they stand.
use vstd::prelude::*;
use vstd::string::*;
use vstd::utf8::*;

use crate::outside;
use crate::text;

verus! {

/// The answer to a request for a file.
#[derive(Debug)]
pub struct StaticReply {
    pub content_type: String,
    pub cache_control: String,
    pub body: Vec<u8>,
}

/// The name of the asset that `path` asks for, where it asks for one.
pub fn asset_name(path: &str) -> (r: Option<String>)
    ensures
        match r {
            Some(n) => n@ == text::without_prefixes(path@, "/"@) && n@.len() > 0,
            None => text::without_prefixes(path@, "/"@).len() == 0,
        },
{
    let clean = text::trim_start_matches(path, "/");
    if text::is_empty(clean.as_str()) {
        None
    } else {
        Some(clean)
    }
}

/// The answer that serves `data`, the contents of the asset `name`, for a year.
pub fn static_reply(name: &str, data: Vec<u8>) -> (r: StaticReply)
    ensures
        r.content_type@ == outside::mime_of(name@),
        r.cache_control@ == "public, max-age=31536000, immutable"@,
        r.body == data,
{
    StaticReply {
        content_type: outside::guess_mime(name),
        cache_control: String::from_str("public, max-age=31536000, immutable"),
        body: data,
    }
}

/// The contents of an asset as text, where it exists and is UTF-8.
pub fn get_text(data: Option<Vec<u8>>) -> (r: Option<String>)
    ensures
        match r {
            Some(s) => data is Some && valid_utf8(data->0@) && s@ == decode_utf8(data->0@),
            None => data is None || !valid_utf8(data->0@),
        },
{
    match data {
        Some(bytes) => outside::from_utf8(bytes),
        None => None,
    }
}

} // verus!
