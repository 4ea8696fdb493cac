//! Saving the images of a generation: which, in which order, under which names.
use vstd::prelude::*;
use vstd::seq_lib::*;
use vstd::string::*;
use vstd::utf8::*;

use crate::grok::imagine::generation;
use crate::grok::imagine::generation::{ImageProgress, ImageV};
use crate::outside;
use crate::text;

verus! {

/// `a` is saved rather than `b`: final before not final, then large before small.
pub open spec fn precedes(a: ImageV, b: ImageV) -> bool {
    (a.is_final && !b.is_final) || (a.is_final == b.is_final && a.blob_size >= b.blob_size)
}

/// The images stand in the order in which they are saved.
pub open spec fn ranked(v: Seq<ImageV>) -> bool {
    forall|i: int, j: int| 0 <= i < j < v.len() ==> precedes(#[trigger] v[i], #[trigger] v[j])
}

fn goes_first(a: &ImageProgress, b: &ImageProgress) -> (r: bool)
    ensures
        r == precedes(a@, b@),
{
    (a.is_final && !b.is_final) || (a.is_final == b.is_final && a.blob_size >= b.blob_size)
}

/// The images in the order in which they are saved.
pub fn save_order(images: &Vec<ImageProgress>) -> (r: Vec<ImageProgress>)
    ensures
        ranked(generation::image_views(r@)),
        generation::image_views(r@).to_multiset() == generation::image_views(
            images@,
        ).to_multiset(),
        r@.len() == images@.len(),
{
    let ghost all = generation::image_views(images@);
    let mut out: Vec<ImageProgress> = Vec::new();
    let n: usize = images.len();
    let mut i: usize = 0;
    proof {
        assert(all.take(0) =~= generation::image_views(out@));
    }
    while i < n
        invariant
            n == images@.len(),
            i <= n,
            out@.len() == i,
            all == generation::image_views(images@),
            ranked(generation::image_views(out@)),
            generation::image_views(out@).to_multiset() == all.take(i as int).to_multiset(),
        decreases n - i,
    {
        let img = images[i].clone();
        let ghost sorted = generation::image_views(out@);
        let mut p: usize = 0;
        while p < out.len() && goes_first(&out[p], &img)
            invariant
                p <= out@.len(),
                sorted == generation::image_views(out@),
                forall|j: int| 0 <= j < p ==> precedes(#[trigger] sorted[j], img@),
            decreases out@.len() - p,
        {
            proof {
                assert(sorted[p as int] == out@[p as int]@);
            }
            p += 1;
        }
        let ghost held = out@;
        out.insert(p, img);
        proof {
            let now = generation::image_views(out@);
            assert(now =~= sorted.insert(p as int, img@));
            assert forall|a: int, b: int| 0 <= a < b < now.len() implies precedes(
                #[trigger] now[a],
                #[trigger] now[b],
            ) by {
                if p < sorted.len() {
                    assert(sorted[p as int] == held[p as int]@);
                    assert(precedes(img@, sorted[p as int]));
                }
                let x = if a < p {
                    a
                } else {
                    a - 1
                };
                let y = if b < p {
                    b
                } else {
                    b - 1
                };
                if a == p {
                    if y > p {
                        assert(precedes(sorted[p as int], sorted[y]));
                    }
                } else if b == p {
                    assert(precedes(sorted[a], img@));
                } else {
                    assert(precedes(sorted[x], sorted[y]));
                }
            }
            to_multiset_insert(sorted, p as int, img@);
            assert(all.take(i + 1) =~= all.take(i as int).push(img@));
            to_multiset_build(all.take(i as int), img@);
        }
        i += 1;
    }
    proof {
        assert(all.take(i as int) =~= all);
    }
    out
}

/// The extension under which an image is saved.
pub open spec fn extension_of(is_final: bool) -> Seq<char> {
    if is_final {
        "jpg"@
    } else {
        "png"@
    }
}

/// The name under which an image is saved.
pub open spec fn filename_of(img: ImageV) -> Seq<char> {
    img.image_id + "."@ + extension_of(img.is_final)
}

/// Where a saved image is found.
pub open spec fn saved_url(app_url: Seq<char>, filename: Seq<char>) -> Seq<char> {
    if text::trim_of(app_url).len() == 0 {
        "/images/"@ + filename
    } else {
        text::without_trailing(app_url, '/') + "/images/"@ + filename
    }
}

/// The data of an image, where it can be decoded.
pub open spec fn data_in(img: ImageV) -> Option<Seq<u8>> {
    outside::base64_decoded(encode_utf8(img.blob))
}

/// The next image to save, from `k` on: its name is not among the saved ones,
/// its data can be decoded, and fewer than `n` are saved.
pub open spec fn next_from(images: Seq<ImageV>, saved: Seq<Seq<char>>, n: usize, k: int) -> Option<
    int,
>
    decreases images.len() - k,
{
    if k < 0 || k >= images.len() {
        None
    } else if saved.contains(images[k].image_id) {
        next_from(images, saved, n, k + 1)
    } else if saved.len() >= n {
        None
    } else if data_in(images[k]) is None {
        next_from(images, saved, n, k + 1)
    } else {
        Some(k)
    }
}

/// An image to be written.
#[derive(Debug)]
pub struct SaveJob {
    pub image_id: String,
    pub filename: String,
    pub data: Vec<u8>,
    pub url: String,
    pub blob: String,
}

/// `job` writes `data` for `img`.
pub open spec fn writes(job: SaveJob, img: ImageV, data: Seq<u8>, app_url: Seq<char>) -> bool {
    &&& job.image_id@ == img.image_id
    &&& job.filename@ == filename_of(img)
    &&& job.data@ == data
    &&& job.url@ == saved_url(app_url, filename_of(img))
    &&& job.blob@ == img.blob
}

/// `job` saves `img`.
pub open spec fn saves(job: SaveJob, img: ImageV, app_url: Seq<char>) -> bool {
    data_in(img) is Some && writes(job, img, data_in(img)->0, app_url)
}

/// The job that writes `data`, the decoded data of `img`.
pub fn job_for(img: &ImageProgress, data: Vec<u8>, app_url: &str) -> (r: SaveJob)
    ensures
        writes(r, img@, data@, app_url@),
{
    let ext: &str = if img.is_final {
        "jpg"
    } else {
        "png"
    };
    let filename = text::joined3(img.image_id.as_str(), ".", ext);
    let trimmed = text::trim(app_url);
    let url = if text::is_empty(trimmed.as_str()) {
        text::joined("/images/", filename.as_str())
    } else {
        let root = text::trim_end_char(app_url, '/');
        text::joined3(root.as_str(), "/images/", filename.as_str())
    };
    SaveJob { image_id: img.image_id.clone(), filename, data, url, blob: img.blob.clone() }
}

/// Saves up to `n` images.
#[derive(Debug)]
pub struct Saver {
    pub images: Vec<ImageProgress>,
    pub at: usize,
    pub n: usize,
    pub app_url: String,
    pub urls: Vec<String>,
    pub b64_list: Vec<String>,
    pub saved_ids: Vec<String>,
}

impl Saver {
    /// As many URLs as data as names, and no more than were asked for.
    pub open spec fn wf(&self) -> bool {
        &&& self.urls@.len() == self.saved_ids@.len()
        &&& self.b64_list@.len() == self.saved_ids@.len()
        &&& self.saved_ids@.len() <= self.n
        &&& self.at <= self.images@.len()
        &&& ranked(generation::image_views(self.images@))
    }

    /// Nothing but the place and what is saved has changed.
    pub open spec fn same_task(&self, other: &Saver) -> bool {
        self.images == other.images && self.n == other.n && self.app_url == other.app_url
    }

    /// A saver that has saved nothing yet.
    pub fn new(images: &Vec<ImageProgress>, n: usize, app_url: String) -> (r: Saver)
        ensures
            r.wf(),
            r.n == n,
            r.app_url == app_url,
            r.at == 0,
            r.saved_ids@.len() == 0,
            generation::image_views(r.images@).to_multiset() == generation::image_views(
                images@,
            ).to_multiset(),
    {
        Saver {
            images: save_order(images),
            at: 0,
            n,
            app_url,
            urls: Vec::new(),
            b64_list: Vec::new(),
            saved_ids: Vec::new(),
        }
    }

    fn job(&self, k: usize) -> (r: Option<SaveJob>)
        requires
            k < self.images@.len(),
        ensures
            match r {
                Some(j) => saves(j, self.images@[k as int]@, self.app_url@),
                None => data_in(self.images@[k as int]@) is None,
            },
    {
        let img = &self.images[k];
        let bytes = img.blob.as_str().as_bytes_vec();
        match outside::base64_decode(&bytes) {
            Some(data) => Some(job_for(img, data, self.app_url.as_str())),
            None => None,
        }
    }

    /// The next image to write.
    pub fn next_job(&mut self) -> (r: Option<SaveJob>)
        requires
            old(self).wf(),
        ensures
            final(self).wf(),
            final(self).same_task(&*old(self)),
            final(self).urls == old(self).urls,
            final(self).b64_list == old(self).b64_list,
            final(self).saved_ids == old(self).saved_ids,
            match next_from(
                generation::image_views(old(self).images@),
                text::texts(old(self).saved_ids@),
                old(self).n,
                old(self).at as int,
            ) {
                Some(k) => {
                    &&& r is Some
                    &&& k < old(self).images@.len()
                    &&& saves(r->0, old(self).images@[k]@, old(self).app_url@)
                    &&& final(self).at == k + 1
                    &&& old(self).saved_ids@.len() < old(self).n
                },
                None => r is None && final(self).at == old(self).images@.len(),
            },
    {
        let ghost all = generation::image_views(self.images@);
        let ghost saved = text::texts(self.saved_ids@);
        let len: usize = self.images.len();
        let mut k: usize = self.at;
        while k < len
            invariant
                *self == *old(self),
                self.wf(),
                len == self.images@.len(),
                k <= len,
                all == generation::image_views(self.images@),
                saved == text::texts(self.saved_ids@),
                next_from(all, saved, self.n, self.at as int) == next_from(
                    all,
                    saved,
                    self.n,
                    k as int,
                ),
            decreases len - k,
        {
            proof {
                assert(all[k as int] == self.images@[k as int]@);
            }
            if !text::has_text(&self.saved_ids, self.images[k].image_id.as_str()) {
                if self.saved_ids.len() >= self.n {
                    self.at = len;
                    return None;
                }
                if let Some(job) = self.job(k) {
                    self.at = k + 1;
                    return Some(job);
                }
            }
            k += 1;
        }
        self.at = len;
        None
    }

    /// Takes note that an image was written.
    pub fn written(&mut self, job: SaveJob)
        requires
            old(self).wf(),
            old(self).saved_ids@.len() < old(self).n,
        ensures
            final(self).wf(),
            final(self).same_task(&*old(self)),
            final(self).at == old(self).at,
            text::texts(final(self).urls@) == text::texts(old(self).urls@).push(job.url@),
            text::texts(final(self).b64_list@) == text::texts(old(self).b64_list@).push(job.blob@),
            text::texts(final(self).saved_ids@) == text::texts(old(self).saved_ids@).push(
                job.image_id@,
            ),
    {
        let ghost urls = self.urls@;
        let ghost blobs = self.b64_list@;
        let ghost ids = self.saved_ids@;
        self.urls.push(job.url);
        self.b64_list.push(job.blob);
        self.saved_ids.push(job.image_id);
        proof {
            assert(text::texts(self.urls@) =~= text::texts(urls).push(job.url@));
            assert(text::texts(self.b64_list@) =~= text::texts(blobs).push(job.blob@));
            assert(text::texts(self.saved_ids@) =~= text::texts(ids).push(job.image_id@));
        }
    }
}

/// A final image is never passed over for one that is not: whatever is saved
/// after an image that is not final is not final either.
pub proof fn law_finals_are_saved_first(images: Seq<ImageV>, i: int, j: int)
    requires
        ranked(images),
        0 <= i < j < images.len(),
        !images[i].is_final,
    ensures
        !images[j].is_final,
        images[i].blob_size >= images[j].blob_size,
{
    assert(precedes(images[i], images[j]));
}

} // verus!
