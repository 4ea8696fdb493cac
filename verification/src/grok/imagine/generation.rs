//! One generation: reading what the web socket tells until the images are there.
use vstd::prelude::*;
use vstd::string::*;

use crate::json;
use crate::json::{Json, JsonV};
use crate::outside;
use crate::text;

verus! {

/// How far an image is.
#[derive(Debug)]
pub struct ImagineProgressEvent {
    pub image_id: String,
    pub stage: String,
    pub is_final: bool,
    pub completed: usize,
    pub total: usize,
}

/// The mathematical value of an [`ImagineProgressEvent`].
pub struct ProgressV {
    pub image_id: Seq<char>,
    pub stage: Seq<char>,
    pub is_final: bool,
    pub completed: nat,
    pub total: usize,
}

impl View for ImagineProgressEvent {
    type V = ProgressV;

    open spec fn view(&self) -> ProgressV {
        ProgressV {
            image_id: self.image_id@,
            stage: self.stage@,
            is_final: self.is_final,
            completed: self.completed as nat,
            total: self.total,
        }
    }
}

impl Clone for ImagineProgressEvent {
    fn clone(&self) -> (r: ImagineProgressEvent)
        ensures
            r@ == self@,
    {
        ImagineProgressEvent {
            image_id: self.image_id.clone(),
            stage: self.stage.clone(),
            is_final: self.is_final,
            completed: self.completed,
            total: self.total,
        }
    }
}

/// How a generation ended.
#[derive(Debug)]
pub struct ImagineResult {
    pub success: bool,
    pub urls: Vec<String>,
    pub b64_list: Vec<String>,
    pub count: usize,
    pub error_code: Option<String>,
    pub error: Option<String>,
}

/// The mathematical value of an [`ImagineResult`].
pub struct ResultV {
    pub success: bool,
    pub urls: Seq<Seq<char>>,
    pub b64_list: Seq<Seq<char>>,
    pub count: nat,
    pub error_code: Option<Seq<char>>,
    pub error: Option<Seq<char>>,
}

impl View for ImagineResult {
    type V = ResultV;

    open spec fn view(&self) -> ResultV {
        ResultV {
            success: self.success,
            urls: text::texts(self.urls@),
            b64_list: text::texts(self.b64_list@),
            count: self.count as nat,
            error_code: text::text_opt(self.error_code),
            error: text::text_opt(self.error),
        }
    }
}

/// A generation that gave images.
pub open spec fn succeeded(urls: Seq<Seq<char>>, b64_list: Seq<Seq<char>>) -> ResultV {
    ResultV { success: true, urls, b64_list, count: urls.len(), error_code: None, error: None }
}

/// A generation that gave none.
pub open spec fn failure(code: Seq<char>, error: Seq<char>) -> ResultV {
    ResultV {
        success: false,
        urls: Seq::empty(),
        b64_list: Seq::empty(),
        count: 0,
        error_code: Some(code),
        error: Some(error),
    }
}

impl ImagineResult {
    /// A generation that gave images.
    pub fn ok(urls: Vec<String>, b64_list: Vec<String>) -> (r: ImagineResult)
        ensures
            r@ == succeeded(text::texts(urls@), text::texts(b64_list@)),
    {
        let count: usize = urls.len();
        ImagineResult { success: true, urls, b64_list, count, error_code: None, error: None }
    }

    /// A generation that gave none.
    pub fn failed(error_code: &str, error: &str) -> (r: ImagineResult)
        ensures
            r@ == failure(error_code@, error@),
    {
        let r = ImagineResult {
            success: false,
            urls: Vec::new(),
            b64_list: Vec::new(),
            count: 0,
            error_code: Some(String::from_str(error_code)),
            error: Some(String::from_str(error)),
        };
        proof {
            assert(r@.urls =~= Seq::empty());
            assert(r@.b64_list =~= Seq::empty());
        }
        r
    }
}

impl Clone for ImagineResult {
    fn clone(&self) -> (r: ImagineResult)
        ensures
            r@ == self@,
    {
        ImagineResult {
            success: self.success,
            urls: text::copy_texts(&self.urls),
            b64_list: text::copy_texts(&self.b64_list),
            count: self.count,
            error_code: text::copy_opt(&self.error_code),
            error: text::copy_opt(&self.error),
        }
    }
}

/// How good an image already is.
#[derive(Clone, Copy, Debug, PartialEq, Eq, Structural)]
pub enum Stage {
    Preview,
    Medium,
    Final,
}

impl Stage {
    /// The name of the stage.
    pub open spec fn name_of(self) -> Seq<char> {
        match self {
            Stage::Preview => "preview"@,
            Stage::Medium => "medium"@,
            Stage::Final => "final"@,
        }
    }

    /// The name of the stage.
    pub fn name(&self) -> (r: &'static str)
        ensures
            r@ == self.name_of(),
    {
        match *self {
            Stage::Preview => "preview",
            Stage::Medium => "medium",
            Stage::Final => "final",
        }
    }
}

/// The best that is known of one image.
#[derive(Debug)]
pub struct ImageProgress {
    pub image_id: String,
    pub stage: Stage,
    pub blob: String,
    pub blob_size: usize,
    pub url: String,
    pub is_final: bool,
}

/// The mathematical value of an [`ImageProgress`].
pub struct ImageV {
    pub image_id: Seq<char>,
    pub stage: Stage,
    pub blob: Seq<char>,
    pub blob_size: nat,
    pub url: Seq<char>,
    pub is_final: bool,
}

impl View for ImageProgress {
    type V = ImageV;

    open spec fn view(&self) -> ImageV {
        ImageV {
            image_id: self.image_id@,
            stage: self.stage,
            blob: self.blob@,
            blob_size: self.blob_size as nat,
            url: self.url@,
            is_final: self.is_final,
        }
    }
}

impl Clone for ImageProgress {
    fn clone(&self) -> (r: ImageProgress)
        ensures
            r@ == self@,
    {
        ImageProgress {
            image_id: self.image_id.clone(),
            stage: self.stage,
            blob: self.blob.clone(),
            blob_size: self.blob_size,
            url: self.url.clone(),
            is_final: self.is_final,
        }
    }
}

/// The values of a list of images.
pub open spec fn image_views(v: Seq<ImageProgress>) -> Seq<ImageV> {
    v.map_values(|i: ImageProgress| i@)
}

/// How many of the images are final.
pub open spec fn finals(images: Seq<ImageV>) -> nat
    decreases images.len(),
{
    if images.len() == 0 {
        0
    } else {
        finals(images.drop_last()) + if images.last().is_final {
            1nat
        } else {
            0
        }
    }
}

/// The place of the image named `id`, from `i` on.
pub open spec fn image_from(images: Seq<ImageV>, id: Seq<char>, i: int) -> Option<int>
    decreases images.len() - i,
{
    if i < 0 || i >= images.len() {
        None
    } else if images[i].image_id == id {
        Some(i)
    } else {
        image_from(images, id, i + 1)
    }
}

/// What the place of an image is.
pub proof fn lemma_image_from(images: Seq<ImageV>, id: Seq<char>, i: int)
    requires
        0 <= i <= images.len(),
    ensures
        match image_from(images, id, i) {
            Some(k) => i <= k < images.len() && images[k].image_id == id && forall|j: int|
                i <= j < k ==> (#[trigger] images[j]).image_id != id,
            None => forall|j: int| i <= j < images.len() ==> (#[trigger] images[j]).image_id != id,
        },
    decreases images.len() - i,
{
    if i < images.len() && images[i].image_id != id {
        lemma_image_from(images, id, i + 1);
    }
}

/// The images once `img` was received: a final image stays as it is, any
/// other gives way to what was received last.
pub open spec fn received(images: Seq<ImageV>, img: ImageV) -> Seq<ImageV> {
    match image_from(images, img.image_id, 0) {
        Some(k) => if images[k].is_final {
            images
        } else {
            images.update(k, img)
        },
        None => images.push(img),
    }
}

/// Whether receiving `img` changes anything.
pub open spec fn accepted(images: Seq<ImageV>, img: ImageV) -> bool {
    match image_from(images, img.image_id, 0) {
        Some(k) => !images[k].is_final,
        None => true,
    }
}

/// No two images have one name.
pub open spec fn distinct_ids(images: Seq<ImageV>) -> bool {
    forall|i: int, j: int|
        0 <= i < j < images.len() ==> (#[trigger] images[i]).image_id != (
        #[trigger] images[j]).image_id
}

/// Images are held up half-way: some are of medium quality, none is final.
pub open spec fn held_up(images: Seq<ImageV>) -> bool {
    (exists|i: int| 0 <= i < images.len() && (#[trigger] images[i]).stage == Stage::Medium)
        && forall|i: int| 0 <= i < images.len() ==> !(#[trigger] images[i]).is_final
}

/// The images of a generation.
#[derive(Debug)]
pub struct GenerationProgress {
    pub total: usize,
    pub images: Vec<ImageProgress>,
    pub completed: usize,
}

impl GenerationProgress {
    /// The number of completed images is the number of final ones, and no
    /// image stands in the list twice.
    pub open spec fn wf(&self) -> bool {
        self.completed == finals(image_views(self.images@)) && distinct_ids(
            image_views(self.images@),
        )
    }

    /// No images yet.
    pub fn new(total: usize) -> (r: GenerationProgress)
        ensures
            r.total == total,
            r.images@.len() == 0,
            r.completed == 0,
            r.wf(),
    {
        GenerationProgress { total, images: Vec::new(), completed: 0 }
    }

    /// Whether the images are held up half-way.
    pub fn check_blocked(&self) -> (r: bool)
        ensures
            r == held_up(image_views(self.images@)),
    {
        let ghost all = image_views(self.images@);
        let mut medium = false;
        let n: usize = self.images.len();
        let mut i: usize = 0;
        while i < n
            invariant
                n == self.images@.len(),
                i <= n,
                all == image_views(self.images@),
                medium == exists|k: int| 0 <= k < i && (#[trigger] all[k]).stage == Stage::Medium,
                forall|k: int| 0 <= k < i ==> !(#[trigger] all[k]).is_final,
            decreases n - i,
        {
            proof {
                assert(all[i as int] == self.images@[i as int]@);
            }
            if self.images[i].is_final {
                return false;
            }
            let ghost before = medium;
            if self.images[i].stage == Stage::Medium {
                medium = true;
            }
            proof {
                if before {
                    let k = choose|k: int|
                        0 <= k < i && (#[trigger] all[k]).stage == Stage::Medium;
                    assert(0 <= k < i + 1 && all[k].stage == Stage::Medium);
                }
            }
            i += 1;
        }
        medium
    }

    fn count_finals(&self) -> (r: usize)
        ensures
            r == finals(image_views(self.images@)),
            r <= self.images@.len(),
    {
        let ghost all = image_views(self.images@);
        let n: usize = self.images.len();
        let mut count: usize = 0;
        let mut i: usize = 0;
        while i < n
            invariant
                n == self.images@.len(),
                i <= n,
                count <= i,
                all == image_views(self.images@),
                count == finals(all.take(i as int)),
            decreases n - i,
        {
            proof {
                assert(all.take(i + 1).drop_last() =~= all.take(i as int));
                assert(all.take(i + 1).last() == self.images@[i as int]@);
            }
            if self.images[i].is_final {
                count += 1;
            }
            i += 1;
        }
        proof {
            assert(all.take(i as int) =~= all);
        }
        count
    }

    /// Takes an image. Says whether it changed anything.
    pub fn receive(&mut self, img: ImageProgress) -> (r: bool)
        requires
            old(self).wf(),
        ensures
            final(self).wf(),
            final(self).total == old(self).total,
            r == accepted(image_views(old(self).images@), img@),
            image_views(final(self).images@) == received(image_views(old(self).images@), img@),
    {
        let ghost all = image_views(self.images@);
        let n: usize = self.images.len();
        let mut i: usize = 0;
        while i < n
            invariant
                n == self.images@.len(),
                i <= n,
                *self == *old(self),
                self.wf(),
                all == image_views(self.images@),
                image_from(all, img@.image_id, 0) == image_from(all, img@.image_id, i as int),
            decreases n - i,
        {
            proof {
                assert(all[i as int] == self.images@[i as int]@);
            }
            if text::same_text(self.images[i].image_id.as_str(), img.image_id.as_str()) {
                if self.images[i].is_final {
                    return false;
                }
                let ghost held = self.images@;
                self.images.set(i, img);
                proof {
                    let now = image_views(self.images@);
                    assert(now =~= image_views(held).update(i as int, img@));
                    assert forall|a: int, b: int| 0 <= a < b < now.len() implies (
                    #[trigger] now[a]).image_id != (#[trigger] now[b]).image_id by {
                        assert(now[a].image_id == all[a].image_id);
                        assert(now[b].image_id == all[b].image_id);
                    }
                }
                self.completed = self.count_finals();
                return true;
            }
            i += 1;
        }
        let ghost held = self.images@;
        self.images.push(img);
        proof {
            let now = image_views(self.images@);
            assert(now =~= image_views(held).push(img@));
            lemma_image_from(all, img@.image_id, 0);
            assert forall|a: int, b: int| 0 <= a < b < now.len() implies (
            #[trigger] now[a]).image_id != (#[trigger] now[b]).image_id by {
                assert(now[a] == all[a]);
                if b < all.len() {
                    assert(now[b] == all[b]);
                }
            }
        }
        self.completed = self.count_finals();
        true
    }
}

/// The path of a URL, or the text itself where it is no URL.
pub open spec fn path_or_self(url: Seq<char>) -> Seq<char> {
    match outside::parsed_path(url) {
        Some(p) => p,
        None => url,
    }
}

fn path_of(url: &str) -> (r: String)
    ensures
        r@ == path_or_self(url@),
{
    match outside::url_path(url) {
        Some(p) => p,
        None => String::from_str(url),
    }
}

/// A character of an image's name.
pub open spec fn is_id_char(c: char) -> bool {
    ('0' <= c && c <= '9') || ('a' <= c && c <= 'f') || ('A' <= c && c <= 'F') || c == '-'
}

/// The text has nothing but characters of an image's name, and at least one.
pub open spec fn is_image_id(s: Seq<char>) -> bool {
    s.len() > 0 && forall|i: int| 0 <= i < s.len() ==> is_id_char(#[trigger] s[i])
}

/// The name of the image at `path`: what stands between `/images/` and the
/// extension `png` or `jpg`, where it is made of hexadecimal digits and hyphens.
pub open spec fn id_in_path(path: Seq<char>) -> Option<Seq<char>> {
    match text::first_of(path, "/images/"@) {
        Some(i) => {
            let tail = path.skip(i + 8);
            match text::last_of(tail, '.') {
                Some(k) => {
                    let id = tail.take(k);
                    let ext = tail.skip(k + 1);
                    if (ext == "png"@ || ext == "jpg"@) && is_image_id(id) {
                        Some(id)
                    } else {
                        None
                    }
                },
                None => None,
            }
        },
        None => None,
    }
}

fn has_id_chars(s: &str) -> (r: bool)
    ensures
        r == is_image_id(s@),
{
    let chars = text::chars_of(s);
    let n: usize = chars.len();
    let mut i: usize = 0;
    while i < n
        invariant
            n == chars@.len(),
            chars@ == s@,
            i <= n,
            forall|k: int| 0 <= k < i ==> is_id_char(#[trigger] s@[k]),
        decreases n - i,
    {
        let c = chars[i];
        if !(('0' <= c && c <= '9') || ('a' <= c && c <= 'f') || ('A' <= c && c <= 'F') || c
            == '-') {
            assert(!is_id_char(s@[i as int]));
            return false;
        }
        i += 1;
    }
    n > 0
}

/// The name of the image at `path`.
pub fn image_id_in(path: &str) -> (r: Option<String>)
    ensures
        text::text_opt(r) == id_in_path(path@),
{
    let n: usize = path.unicode_len();
    proof {
        reveal_strlit("/images/");
        text::lemma_first_from(path@, "/images/"@, 0);
    }
    let start: usize = match text::find(path, "/images/") {
        Some(i) => i + 8,
        None => {
            return None;
        },
    };
    let tail = text::slice_text(path, start, n);
    proof {
        assert(path@.subrange(start as int, n as int) =~= path@.skip(start as int));
        text::lemma_last_of(tail@, '.');
    }
    let m: usize = tail.as_str().unicode_len();
    match text::rfind_char(tail.as_str(), '.') {
        Some(k) => {
            let id = text::slice_text(tail.as_str(), 0, k);
            let ext = text::slice_text(tail.as_str(), k + 1, m);
            proof {
                assert(tail@.subrange(0, k as int) =~= tail@.take(k as int));
                assert(tail@.subrange(k + 1, m as int) =~= tail@.skip(k + 1));
            }
            if !text::same_text(ext.as_str(), "png") && !text::same_text(ext.as_str(), "jpg") {
                return None;
            }
            if !has_id_chars(id.as_str()) {
                return None;
            }
            Some(id)
        },
        None => None,
    }
}

/// The name of the image of `url`.
pub fn extract_image_id(url: &str) -> (r: Option<String>)
    ensures
        text::text_opt(r) == id_in_path(path_or_self(url@)),
{
    let path = path_of(url);
    image_id_in(path.as_str())
}

/// The image at `path` is final: a large JPEG.
pub open spec fn final_at(path: Seq<char>, blob_size: nat) -> bool {
    text::ends(path, ".jpg"@) && blob_size > 100_000
}

/// Whether the image at `path` is final.
pub fn is_final_at(path: &str, blob_size: usize) -> (r: bool)
    ensures
        r == final_at(path@, blob_size as nat),
{
    text::ends_with(path, ".jpg") && blob_size > 100_000
}

/// Whether the image of `url` is final.
pub fn is_final_image(url: &str, blob_size: usize) -> (r: bool)
    ensures
        r == final_at(path_or_self(url@), blob_size as nat),
{
    let path = path_of(url);
    is_final_at(path.as_str(), blob_size)
}

/// How good an image of this size is.
pub open spec fn stage_of(is_final: bool, blob_size: nat) -> Stage {
    if is_final {
        Stage::Final
    } else if blob_size > 30_000 {
        Stage::Medium
    } else {
        Stage::Preview
    }
}

/// The text in a field of a message, or an empty one.
pub open spec fn field_text(msg: JsonV, key: Seq<char>) -> Seq<char> {
    text::or_empty(json::text_in(msg.field(key)))
}

/// The image that data and a URL stand for, where `path` is the path of the URL.
pub open spec fn image_at(blob: Seq<char>, url: Seq<char>, path: Seq<char>) -> Option<ImageV> {
    let size = text::byte_len(blob);
    if blob.len() == 0 || url.len() == 0 {
        None
    } else {
        match id_in_path(path) {
            Some(image_id) => Some(
                ImageV {
                    image_id,
                    stage: stage_of(final_at(path, size), size),
                    blob,
                    blob_size: size,
                    url,
                    is_final: final_at(path, size),
                },
            ),
            None => None,
        }
    }
}

/// The image that a message brings.
pub open spec fn image_in(msg: JsonV) -> Option<ImageV> {
    let url = field_text(msg, "url"@);
    image_at(field_text(msg, "blob"@), url, path_or_self(url))
}

/// The image that data and a URL stand for, where `path` is the path of the URL.
pub fn image_from_parts(blob: String, url: String, path: &str) -> (r: Option<ImageProgress>)
    ensures
        match r {
            Some(i) => image_at(blob@, url@, path@) == Some(i@),
            None => image_at(blob@, url@, path@) is None,
        },
{
    if text::is_empty(blob.as_str()) || text::is_empty(url.as_str()) {
        return None;
    }
    let image_id = match image_id_in(path) {
        Some(id) => id,
        None => {
            return None;
        },
    };
    let blob_size: usize = blob.as_str().as_bytes().len();
    let is_final = is_final_at(path, blob_size);
    let stage = if is_final {
        Stage::Final
    } else if blob_size > 30_000 {
        Stage::Medium
    } else {
        Stage::Preview
    };
    Some(ImageProgress { image_id, stage, blob, blob_size, url, is_final })
}

/// The image that a message brings.
pub fn read_image(msg: &Json) -> (r: Option<ImageProgress>)
    ensures
        match r {
            Some(i) => image_in(msg@) == Some(i@),
            None => image_in(msg@) is None,
        },
{
    let blob = text::owned_or_empty(msg.get_str("blob"));
    let url = text::owned_or_empty(msg.get_str("url"));
    let path = path_of(url.as_str());
    image_from_parts(blob, url, path.as_str())
}

} // verus!
