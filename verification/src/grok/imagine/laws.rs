//! What a generation over the web socket is for, said of the messages alone.
use vstd::prelude::*;
use vstd::utf8::*;

use crate::grok::imagine::generation;
use crate::grok::imagine::generation::{ImageV, ResultV, Stage};
use crate::grok::imagine::retries;
use crate::grok::imagine::retries::{AttemptsV, MarkV};
use crate::grok::imagine::rotation;
use crate::grok::imagine::rotation::{KeyUsage, RotationV};
use crate::grok::imagine::run;
use crate::grok::imagine::run::{ActionV, RunV};
use crate::grok::imagine::saving;
use crate::grok::imagine::session;
use crate::grok::imagine::session::{EventV, NextV, SessionV};
use crate::json;
use crate::json::{JsonV, Number};
use crate::outside;
use crate::seqs;
use crate::text;
use crate::text_laws;
use crate::token::models::TokenV;
use crate::token::pool::PoolV;

verus! {

/// `h` is held for the image that is called `id`.
pub open spec fn held_for(images: Seq<ImageV>, id: Seq<char>, h: ImageV) -> bool {
    images.contains(h) && h.image_id == id
}

proof fn lemma_image_place(images: Seq<ImageV>, id: Seq<char>, k: int)
    requires
        0 <= k <= images.len(),
    ensures
        match generation::image_from(images, id, k) {
            Some(i) => k <= i < images.len() && images[i].image_id == id && forall|j: int|
                k <= j < i ==> (#[trigger] images[j]).image_id != id,
            None => forall|j: int| k <= j < images.len() ==> (#[trigger] images[j]).image_id != id,
        },
    decreases images.len() - k,
{
    if k < images.len() && images[k].image_id != id {
        lemma_image_place(images, id, k + 1);
    }
}

/// An image takes the place of the one that is held under its name, unless
/// that one is final; all others stay. Where it is taken, that is reported.
pub proof fn law_image_replaces_what_is_not_final(images: Seq<ImageV>, img: ImageV, other: ImageV)
    requires
        generation::distinct_ids(images),
        other.image_id != img.image_id,
    ensures
        ({
            let after = generation::received(images, img);
            let stays = exists|i: int|
                0 <= i < images.len() && (#[trigger] images[i]).image_id == img.image_id
                    && images[i].is_final;
            &&& generation::distinct_ids(after)
            &&& generation::accepted(images, img) <==> !stays
            &&& !stays ==> after.contains(img)
            &&& !stays ==> forall|h: ImageV| #[trigger]
                held_for(after, img.image_id, h) ==> h == img
            &&& stays ==> after == images
            &&& after.contains(other) <==> images.contains(other)
        }),
{
    let id = img.image_id;
    let after = generation::received(images, img);
    lemma_image_place(images, id, 0);
    match generation::image_from(images, id, 0) {
        Some(k) => {
            assert forall|i: int|
                0 <= i < images.len() && (#[trigger] images[i]).image_id == id implies i == k by {}
            if !images[k].is_final {
                assert(after[k] == img);
                assert forall|h: ImageV| #[trigger] held_for(after, id, h) implies h == img by {
                    let i = choose|i: int| 0 <= i < after.len() && after[i] == h;
                    if i != k {
                        assert(images[i] == h);
                    }
                }
                if images.contains(other) {
                    let i = choose|i: int| 0 <= i < images.len() && images[i] == other;
                    assert(after[i] == other);
                }
                if after.contains(other) {
                    let i = choose|i: int| 0 <= i < after.len() && after[i] == other;
                    assert(images[i] == other);
                }
            }
        },
        None => {
            assert(after[images.len() as int] == img);
            assert forall|h: ImageV| #[trigger] held_for(after, id, h) implies h == img by {
                let i = choose|i: int| 0 <= i < after.len() && after[i] == h;
                if i < images.len() {
                    assert(images[i] == h);
                }
            }
            if images.contains(other) {
                let i = choose|i: int| 0 <= i < images.len() && images[i] == other;
                assert(after[i] == other);
            }
            if after.contains(other) {
                let i = choose|i: int| 0 <= i < after.len() && after[i] == other;
                assert(images[i] == other);
            }
        },
    }
}

/// The images that are held after all of `msgs` were received.
pub open spec fn received_all(msgs: Seq<ImageV>) -> Seq<ImageV>
    decreases msgs.len(),
{
    if msgs.len() == 0 {
        Seq::empty()
    } else {
        generation::received(received_all(msgs.drop_last()), msgs.last())
    }
}

/// The image at `k` is the one to hold: the first final one of its name, or,
/// where none of its name is final, the last of its name.
pub open spec fn to_hold(msgs: Seq<ImageV>, k: int) -> bool {
    &&& 0 <= k < msgs.len()
    &&& if msgs[k].is_final {
        forall|j: int|
            0 <= j < k && (#[trigger] msgs[j]).image_id == msgs[k].image_id ==> !msgs[j].is_final
    } else {
        forall|j: int|
            0 <= j < msgs.len() && (#[trigger] msgs[j]).image_id == msgs[k].image_id
                ==> !msgs[j].is_final && j <= k
    }
}

/// Whatever comes, for each name one image is held: the first final one that
/// came for it or, where none was final, the last one.
pub proof fn law_the_best_version_is_held(msgs: Seq<ImageV>, k: int)
    requires
        0 <= k < msgs.len(),
    ensures
        generation::distinct_ids(received_all(msgs)),
        forall|h: ImageV| #[trigger]
            received_all(msgs).contains(h) ==> exists|j: int|
                to_hold(msgs, j) && #[trigger] msgs[j] == h,
        exists|h: ImageV| #[trigger] held_for(received_all(msgs), msgs[k].image_id, h),
        to_hold(msgs, k) ==> received_all(msgs).contains(msgs[k]),
{
    lemma_versions(msgs);
    let held = received_all(msgs);
    let i = choose|i: int| 0 <= i < held.len() && (#[trigger] held[i]).image_id == msgs[k].image_id;
    assert(held_for(held, msgs[k].image_id, held[i]));
    if to_hold(msgs, k) {
        assert(held.contains(held[i]));
        let j = choose|j: int| to_hold(msgs, j) && #[trigger] msgs[j] == held[i];
        if j != k {
            if msgs[k].is_final {
                assert(!(j < k) || !msgs[j].is_final);
                if !msgs[j].is_final {
                    assert(!msgs[k].is_final);
                } else {
                    assert(j > k);
                    assert(!msgs[k].is_final);
                }
            } else {
                assert(!msgs[j].is_final && j <= k);
                assert(k <= j);
            }
        }
    }
}

proof fn lemma_versions(msgs: Seq<ImageV>)
    ensures
        generation::distinct_ids(received_all(msgs)),
        forall|h: ImageV| #[trigger]
            received_all(msgs).contains(h) ==> exists|j: int|
                to_hold(msgs, j) && #[trigger] msgs[j] == h,
        forall|k: int|
            0 <= k < msgs.len() ==> exists|i: int|
                0 <= i < received_all(msgs).len() && (#[trigger] received_all(msgs)[i]).image_id
                    == (#[trigger] msgs[k]).image_id,
    decreases msgs.len(),
{
    if msgs.len() > 0 {
        let before = msgs.drop_last();
        let img = msgs.last();
        let last = msgs.len() - 1;
        lemma_versions(before);
        let held = received_all(before);
        let after = received_all(msgs);
        lemma_image_place(held, img.image_id, 0);
        let place = generation::image_from(held, img.image_id, 0);
        assert forall|h: ImageV| #[trigger] after.contains(h) implies exists|j: int|
            to_hold(msgs, j) && #[trigger] msgs[j] == h by {
            let i = choose|i: int| 0 <= i < after.len() && after[i] == h;
            let kept = i < held.len() && held[i] == h && !(place == Some(i)
                && !held[i].is_final);
            if kept {
                assert(held.contains(h));
                let j = choose|j: int| to_hold(before, j) && #[trigger] before[j] == h;
                assert(msgs[j] == h);
                if h.is_final {
                    assert forall|m: int|
                        0 <= m < j && (#[trigger] msgs[m]).image_id == h.image_id implies
                        !msgs[m].is_final by {
                        assert(before[m] == msgs[m]);
                    }
                } else {
                    assert(h.image_id != img.image_id) by {
                        if h.image_id == img.image_id {
                            assert(place is Some);
                            let p = place->0;
                            assert(held[p].image_id == held[i].image_id);
                            assert(p == i);
                        }
                    }
                    assert forall|m: int|
                        0 <= m < msgs.len() && (#[trigger] msgs[m]).image_id == h.image_id implies
                        !msgs[m].is_final && m <= j by {
                        if m < last {
                            assert(before[m] == msgs[m]);
                        }
                    }
                }
                assert(to_hold(msgs, j));
            } else {
                assert(h == img);
                assert forall|m: int|
                    0 <= m < last && (#[trigger] msgs[m]).image_id == img.image_id implies
                    !msgs[m].is_final by {
                    assert(before[m] == msgs[m]);
                    let q = choose|q: int|
                        0 <= q < held.len() && (#[trigger] held[q]).image_id
                            == before[m].image_id;
                    assert(place is Some);
                    let p = place->0;
                    assert(p == q);
                    assert(held.contains(held[p]));
                    let j = choose|j: int| to_hold(before, j) && #[trigger] before[j] == held[p];
                    assert(!held[p].is_final);
                    assert(!before[m].is_final);
                }
                assert(to_hold(msgs, last));
                assert(msgs[last] == h);
            }
        }
        assert forall|k: int| 0 <= k < msgs.len() implies exists|i: int|
            0 <= i < after.len() && (#[trigger] after[i]).image_id == (
            #[trigger] msgs[k]).image_id by {
            if k < last {
                assert(before[k] == msgs[k]);
                let i = choose|i: int|
                    0 <= i < held.len() && (#[trigger] held[i]).image_id == before[k].image_id;
                assert(after[i].image_id == held[i].image_id);
            } else {
                match place {
                    Some(p) => {
                        assert(after[p].image_id == img.image_id);
                    },
                    None => {
                        assert(after[held.len() as int].image_id == img.image_id);
                    },
                }
            }
        }
    }
}

/// The images that the messages of a run of events bring, in order.
pub open spec fn images_in(events: Seq<(EventV, u128)>) -> Seq<ImageV>
    decreases events.len(),
{
    if events.len() == 0 {
        Seq::empty()
    } else {
        let before = images_in(events.drop_last());
        match events.last().0 {
            EventV::Message(msg) => if json::text_in(msg.field("type"@)) == Some("image"@) {
                match generation::image_in(msg) {
                    Some(img) => before.push(img),
                    None => before,
                }
            } else {
                before
            },
            _ => before,
        }
    }
}

/// A session holds the best version of every image that its messages bring,
/// whatever else happens in between.
pub proof fn law_session_holds_the_best_versions(
    start: SessionV,
    events: Seq<(EventV, u128)>,
)
    requires
        start.images.len() == 0,
    ensures
        session::state_after_all(start, events).images == received_all(images_in(events)),
        session::state_after_all(start, events).n == start.n,
        session::state_after_all(start, events).total == start.total,
    decreases events.len(),
{
    if events.len() > 0 {
        let before = events.drop_last();
        law_session_holds_the_best_versions(start, before);
        if let EventV::Message(msg) = events.last().0 {
            lemma_kind(msg);
            if let Some(img) = generation::image_in(msg) {
                assert(images_in(before).push(img).drop_last() =~= images_in(before));
            }
        }
    } else {
        assert(start.images =~= Seq::empty());
    }
}

/// How many images are final.
pub proof fn law_finals_are_counted(images: Seq<ImageV>)
    ensures
        generation::finals(images) == images.filter(|i: ImageV| i.is_final).len(),
    decreases images.len(),
{
    reveal(Seq::filter);
    if images.len() > 0 {
        law_finals_are_counted(images.drop_last());
    }
}

/// Every image message is reported unless a final image is held under its
/// name: with its name, its stage, and how many images are final by then.
/// Nothing else is reported.
pub proof fn law_progress_is_reported(s: SessionV, event: EventV, now: u128)
    requires
        generation::distinct_ids(s.images),
    ensures
        event !is Message ==> session::report_after(s, event) is None,
        event matches EventV::Message(msg) ==> {
            let img = generation::image_in(msg)->0;
            let brings = json::text_in(msg.field("type"@)) == Some("image"@)
                && generation::image_in(msg) is Some;
            let settled = exists|i: int|
                0 <= i < s.images.len() && (#[trigger] s.images[i]).image_id == img.image_id
                    && s.images[i].is_final;
            &&& session::report_after(s, event) is Some <==> brings && !settled
            &&& session::report_after(s, event) matches Some(r) ==> {
                &&& r.image_id == img.image_id && r.is_final == img.is_final
                &&& r.total == s.total
                &&& r.stage == (match img.stage {
                    Stage::Preview => "preview"@,
                    Stage::Medium => "medium"@,
                    Stage::Final => "final"@,
                })
                &&& r.completed == session::state_after(s, event, now).images.filter(
                    |i: ImageV| i.is_final,
                ).len()
            }
        },
{
    if let EventV::Message(msg) = event {
        lemma_kind(msg);
        if let Some(img) = generation::image_in(msg) {
            lemma_image_place(s.images, img.image_id, 0);
            law_finals_are_counted(generation::received(s.images, img));
            match generation::image_from(s.images, img.image_id, 0) {
                Some(k) => {
                    assert forall|i: int|
                        0 <= i < s.images.len() && (#[trigger] s.images[i]).image_id
                            == img.image_id implies i == k by {}
                    if s.images[k].is_final {
                        assert(s.images[k].image_id == img.image_id);
                    }
                },
                None => {},
            }
        }
    }
}

proof fn lemma_kind(msg: JsonV)
    ensures
        json::text_in(msg.field("type"@)) == Some("image"@) <==> generation::field_text(
            msg,
            "type"@,
        ) == "image"@,
        json::text_in(msg.field("type"@)) == Some("error"@) <==> generation::field_text(
            msg,
            "type"@,
        ) == "error"@,
        "error"@ != "image"@,
{
    reveal_strlit("image");
    reveal_strlit("error");
    assert("image"@.len() == 5 && "error"@.len() == 5);
    assert("error"@[0] == 'e' && "image"@[0] == 'i');
}

/// What an image is goes by its file and its size: a JPEG of more than
/// 100,000 bytes is final, another image of more than 30,000 bytes is a medium
/// version, and any other is a preview. Its data and its URL are kept.
pub proof fn law_stages(blob: Seq<char>, url: Seq<char>, path: Seq<char>, front: Seq<char>)
    ensures
        generation::image_at(blob, url, path) matches Some(img) ==> {
            let size = encode_utf8(blob).len();
            &&& img.blob == blob && img.url == url && img.blob_size == size
            &&& img.is_final <==> img.stage == Stage::Final
            &&& size <= 30_000 ==> img.stage == Stage::Preview
            &&& 30_000 < size <= 100_000 ==> img.stage == Stage::Medium
            &&& size > 100_000 && path == front + ".jpg"@ ==> img.stage == Stage::Final
            &&& img.stage == Stage::Final ==> size > 100_000 && path.len() >= 4 && path.skip(
                path.len() - 4,
            ) == ".jpg"@
            &&& size > 100_000 && img.stage != Stage::Final ==> img.stage == Stage::Medium
        },
        blob.len() == 0 || url.len() == 0 ==> generation::image_at(blob, url, path) is None,
        blob.len() > 0 && url.len() > 0 ==> (generation::image_at(blob, url, path) is Some <==>
            generation::id_in_path(path) is Some),
{
    reveal_strlit(".jpg");
    text_laws::law_ends(path, ".jpg"@, front);
}

/// The name of an image stands in its path, between `/images/` and the
/// extension: for every such path it is found.
pub proof fn law_image_names(id: Seq<char>, front: Seq<char>, jpg: bool)
    requires
        id.len() > 0,
        forall|i: int|
            0 <= i < id.len() ==> ({
                let c = (#[trigger] id[i]) as int;
                48 <= c <= 57 || 97 <= c <= 102 || 65 <= c <= 70 || c == 45
            }),
        !text::occurs(front + "/images"@, "/images/"@),
    ensures
        generation::id_in_path(
            front + "/images/"@ + id + if jpg {
                ".jpg"@
            } else {
                ".png"@
            },
        ) == Some(id),
{
    reveal_strlit("/images/");
    reveal_strlit("/images");
    let ext = if jpg {
        ".jpg"@
    } else {
        ".png"@
    };
    assert("/images/"@.len() == 8 && "/images"@.len() == 7);
    assert("/images/"@.take(7) =~= "/images"@);
    lemma_extensions();
    lemma_image_name(id, front, ext);
}

proof fn lemma_extensions()
    ensures
        ".jpg"@.len() == 4 && ".jpg"@[0] == '.' && ".jpg"@.skip(1) == "jpg"@,
        ".png"@.len() == 4 && ".png"@[0] == '.' && ".png"@.skip(1) == "png"@,
        !"jpg"@.contains('.') && !"png"@.contains('.'),
{
    reveal_strlit(".jpg");
    reveal_strlit(".png");
    reveal_strlit("jpg");
    reveal_strlit("png");
    assert(".jpg"@.skip(1) =~= "jpg"@);
    assert(".png"@.skip(1) =~= "png"@);
}

proof fn lemma_image_name(id: Seq<char>, front: Seq<char>, ext: Seq<char>)
    requires
        id.len() > 0,
        forall|i: int| 0 <= i < id.len() ==> generation::is_id_char(#[trigger] id[i]),
        "/images/"@.len() == 8 && "/images"@.len() == 7,
        "/images/"@.take(7) == "/images"@,
        !text::occurs(front + "/images"@, "/images/"@),
        ext.len() == 4 && ext[0] == '.' && !ext.skip(1).contains('.'),
        ext.skip(1) == "jpg"@ || ext.skip(1) == "png"@,
    ensures
        generation::id_in_path(front + "/images/"@ + id + ext) == Some(id),
{
    let w = "/images/"@;
    let path = front + w + id + ext;
    let n = front.len() as int;
    assert(path.subrange(n, n + 8) =~= w);
    text::lemma_first_from(path, w, 0);
    assert(text::stands_at(path, w, n));
    let i = text::first_of(path, w)->0;
    assert(i == n) by {
        if i < n {
            let f = front + "/images"@;
            assert(f =~= path.take(n + 7));
            assert(f.subrange(i, i + 8) =~= path.subrange(i, i + 8));
            assert(text::stands_at(f, w, i));
        }
    }
    let tail = path.skip(n + 8);
    assert(tail =~= id + ext);
    text_laws::law_last_place(tail, '.', id.len() as int);
    let k = text::last_of(tail, '.')->0;
    assert(tail[id.len() as int] == '.');
    assert(k == id.len()) by {
        if k > id.len() {
            assert(ext.skip(1)[k - id.len() - 1] == tail[k]);
        }
    }
    assert(tail.take(k) =~= id);
    assert(tail.skip(k + 1) =~= ext.skip(1));
}

/// As soon as as many images are final as were asked for, they are saved.
/// Listening ends without them where the socket fails, where the upstream
/// refuses, or where no final image comes in time after a medium one: within
/// 15 seconds while messages come, within 10 while none do.
pub proof fn law_when_listening_ends(s: SessionV, event: EventV, now: u128)
    ensures
        ({
            let after = session::state_after(s, event, now);
            let done = after.images.filter(|i: ImageV| i.is_final).len();
            let next = session::next_after(s, event, now);
            let waited: int = if after.medium_at is Some && now > after.medium_at->0 {
                now - after.medium_at->0
            } else {
                0
            };
            let quiet_for: int = if now > s.last_activity {
                now - s.last_activity
            } else {
                0
            };
            &&& event matches EventV::Broken(e) ==> next == NextV::Fail(
                generation::failure("connection_failed"@, e),
            )
            &&& event is Ended ==> next == NextV::Save
            &&& event is Ignored || event is Garbled ==> next == NextV::Listen
            &&& event is Quiet ==> {
                let lost = done == 0 && waited > 10_000_000_000;
                &&& lost <==> next is Fail
                &&& done > 0 && quiet_for > 10_000_000_000 <==> next == NextV::Save
            }
            &&& event matches EventV::Message(msg) ==> {
                let kind = json::text_in(msg.field("type"@));
                let unread = kind == Some("image"@) && generation::image_in(msg) is None;
                let limited = kind == Some("error"@) && json::text_in(msg.field("err_code"@))
                    == Some("rate_limit_exceeded"@);
                &&& unread ==> next == NextV::Listen
                &&& limited ==> next is Fail
                &&& !unread && !limited && done >= s.n ==> next == NextV::Save
                &&& !unread && !limited && done < s.n ==> (next is Fail <==> done == 0 && waited
                    > 15_000_000_000)
                &&& !unread && !limited && done < s.n ==> next != NextV::Save
            }
        }),
{
    law_finals_are_counted(session::state_after(s, event, now).images);
    reveal_strlit("rate_limit_exceeded");
    if let EventV::Message(msg) = event {
        lemma_kind(msg);
    }
}

/// A session remembers the time of the last message and of the first medium
/// image, and the last error that was told.
pub proof fn law_what_a_session_remembers(s: SessionV, event: EventV, now: u128)
    ensures
        ({
            let after = session::state_after(s, event, now);
            &&& event is Message || event is Garbled ==> after.last_activity == now
            &&& event !is Message && event !is Garbled ==> after == s
            &&& s.medium_at is Some ==> after.medium_at == s.medium_at
            &&& s.medium_at is None ==> (after.medium_at is Some <==> (event matches EventV::Message(
                msg,
            ) && json::text_in(msg.field("type"@)) == Some("image"@) && (generation::image_in(
                msg,
            ) matches Some(img) && img.stage == Stage::Medium)))
            &&& s.medium_at is None && after.medium_at is Some ==> after.medium_at == Some(now)
            &&& event matches EventV::Message(msg) ==> {
                &&& json::text_in(msg.field("type"@)) == Some("error"@) ==> after.error is Some
                    && after.images == s.images
                &&& json::text_in(msg.field("type"@)) == Some("error"@) && json::text_in(
                    msg.field("err_code"@),
                ) is Some ==> (after.error->0).0 == json::text_in(msg.field("err_code"@))->0
                &&& json::text_in(msg.field("type"@)) == Some("error"@) && json::text_in(
                    msg.field("err_msg"@),
                ) is Some ==> (after.error->0).1 == json::text_in(msg.field("err_msg"@))->0
                &&& json::text_in(msg.field("type"@)) != Some("error"@) ==> after.error == s.error
            }
        }),
{
    if let EventV::Message(msg) = event {
        lemma_kind(msg);
    }
}

/// What is answered in the end: the saved images, or else the error that was
/// told, or that the generation was blocked, or that no image came.
pub proof fn law_outcomes(s: SessionV, urls: Seq<Seq<char>>, b64_list: Seq<Seq<char>>)
    ensures
        ({
            let r = session::outcome_of(s, urls, b64_list);
            &&& r.success <==> urls.len() > 0
            &&& r.success ==> r.urls == urls && r.b64_list == b64_list && r.count == urls.len()
                && r.error is None && r.error_code is None
            &&& !r.success ==> r.urls.len() == 0 && r.b64_list.len() == 0 && r.count == 0
            &&& !r.success && s.error is Some ==> r.error_code == Some((s.error->0).0) && r.error
                == Some((s.error->0).1)
            &&& !r.success && s.error is None ==> (r.error_code == Some("blocked"@) <==> ((exists|
                i: int,
            | 0 <= i < s.images.len() && (#[trigger] s.images[i]).stage == Stage::Medium) && s.images.filter(
                |i: ImageV| i.is_final,
            ).len() == 0))
            &&& !r.success && s.error is None && r.error_code != Some("blocked"@) ==> r.error_code
                == Some("generation_failed"@)
        }),
{
    reveal_strlit("blocked");
    reveal_strlit("generation_failed");
    assert("blocked"@.len() == 7 && "generation_failed"@.len() == 17);
    let keep = |i: ImageV| i.is_final;
    let f = s.images.filter(keep);
    if f.len() > 0 {
        assert(f.contains(f[0]));
        seqs::lemma_filter(s.images, keep, f[0]);
        let i = choose|i: int| 0 <= i < s.images.len() && s.images[i] == f[0];
        assert(s.images[i].is_final);
    } else {
        assert forall|i: int| 0 <= i < s.images.len() implies !(#[trigger] s.images[i]).is_final by {
            assert(s.images.contains(s.images[i]));
            seqs::lemma_filter(s.images, keep, s.images[i]);
            if s.images[i].is_final {
                let j = choose|j: int| 0 <= j < f.len() && f[j] == s.images[i];
            }
        }
    }
}

/// What is saved next is the first image that was not saved yet and whose data
/// can be read, as long as fewer are saved than were asked for.
pub proof fn law_what_is_saved_next(
    images: Seq<ImageV>,
    saved: Seq<Seq<char>>,
    n: usize,
    k: int,
    j: int,
)
    requires
        0 <= k <= images.len(),
    ensures
        match saving::next_from(images, saved, n, k) {
            Some(i) => {
                &&& k <= i < images.len() && saved.len() < n
                &&& !saved.contains(images[i].image_id) && saving::data_in(images[i]) is Some
                &&& k <= j < i ==> saved.contains(images[j].image_id) || saving::data_in(images[j])
                    is None
            },
            None => saved.len() >= n || (k <= j < images.len() ==> saved.contains(
                images[j].image_id,
            ) || saving::data_in(images[j]) is None),
        },
    decreases images.len() - k,
{
    if k < images.len() {
        law_what_is_saved_next(images, saved, n, k + 1, j);
    }
}

/// Final images come before all others, and among either the larger ones come first.
pub proof fn law_the_best_images_come_first(images: Seq<ImageV>, i: int, j: int)
    requires
        saving::ranked(images),
        0 <= i < j < images.len(),
    ensures
        images[j].is_final ==> images[i].is_final,
        images[i].is_final == images[j].is_final ==> images[i].blob_size >= images[j].blob_size,
{
    assert(saving::precedes(images[i], images[j]));
}

/// An image is saved under its name, as a JPEG where it is final and as a PNG
/// otherwise, and is served from `/images/` behind the address of the gateway.
pub proof fn law_where_images_are_saved(img: ImageV, app_url: Seq<char>, slashes: nat)
    ensures
        img.is_final ==> saving::filename_of(img) == img.image_id + ".jpg"@,
        !img.is_final ==> saving::filename_of(img) == img.image_id + ".png"@,
        text::trim_of(app_url).len() == 0 ==> saving::saved_url(app_url, saving::filename_of(img))
            == "/images/"@ + saving::filename_of(img),
        text::trim_of(app_url).len() > 0 && app_url.last() != '/' ==> saving::saved_url(
            app_url,
            saving::filename_of(img),
        ) == app_url + "/images/"@ + saving::filename_of(img),
        text::trim_of(app_url).len() > 0 && text::trim_of(app_url.push('/')).len() > 0
            ==> saving::saved_url(app_url.push('/'), saving::filename_of(img))
            == saving::saved_url(app_url, saving::filename_of(img)),
{
    lemma_extensions();
    reveal_strlit(".");
    assert(img.image_id + "."@ + "jpg"@ =~= img.image_id + ".jpg"@) by {
        assert(".jpg"@ =~= "."@ + "jpg"@) by {
            assert(".jpg"@.skip(1) =~= "jpg"@);
            assert(forall|i: int| 0 <= i < 3 ==> ".jpg"@[i + 1] == #[trigger] "jpg"@[i]) by {
                assert(forall|i: int| 0 <= i < 3 ==> ".jpg"@.skip(1)[i] == ".jpg"@[i + 1]);
            }
        }
    }
    assert(img.image_id + "."@ + "png"@ =~= img.image_id + ".png"@) by {
        assert(".png"@ =~= "."@ + "png"@) by {
            assert(".png"@.skip(1) =~= "png"@);
            assert(forall|i: int| 0 <= i < 3 ==> ".png"@[i + 1] == #[trigger] "png"@[i]) by {
                assert(forall|i: int| 0 <= i < 3 ==> ".png"@.skip(1)[i] == ".png"@[i + 1]);
            }
        }
    }
    text_laws::law_trim(app_url);
    assert(app_url.push('/').drop_last() =~= app_url);
}

/// The shape of the images goes by the size that is asked for: squares are
/// 1:1, 1536 by 1024 is 3:2, and anything else is 2:3.
pub proof fn law_shapes(size: Seq<char>)
    ensures
        retries::aspect_ratio_of("1024x1024"@) == "1:1"@,
        retries::aspect_ratio_of("512x512"@) == "1:1"@,
        retries::aspect_ratio_of("256x256"@) == "1:1"@,
        retries::aspect_ratio_of("1536x1024"@) == "3:2"@,
        size != "1024x1024"@ && size != "512x512"@ && size != "256x256"@ && size != "1536x1024"@
            ==> retries::aspect_ratio_of(size) == "2:3"@,
{
    reveal_strlit("1536x1024");
    reveal_strlit("1024x1024");
    reveal_strlit("512x512");
    reveal_strlit("256x256");
    assert("1536x1024"@.len() == 9 && "1024x1024"@.len() == 9 && "512x512"@.len() == 7
        && "256x256"@.len() == 7);
    assert("1536x1024"@[1] == '5' && "1024x1024"@[1] == '0');
}

/// From one to four images are made: what is asked for, or what is
/// configured where nothing is asked for.
pub proof fn law_how_many_are_made(n: u32, default_count: u32)
    ensures
        1 <= n <= 4 ==> retries::target_of(Some(n), default_count) == n,
        n < 1 ==> retries::target_of(Some(n), default_count) == 1,
        n > 4 ==> retries::target_of(Some(n), default_count) == 4,
        1 <= default_count <= 4 ==> retries::target_of(None, default_count) == default_count,
        default_count < 1 ==> retries::target_of(None, default_count) == 1,
        default_count > 4 ==> retries::target_of(None, default_count) == 4,
{
}

/// What follows from an attempt. A success ends the run with it. A blocked
/// generation is tried again with another token until it was blocked too
/// often; a token that is used up or refused is left aside; any other failure
/// ends the run.
pub proof fn law_what_follows_an_attempt(a: AttemptsV, r: ResultV)
    requires
        a.made < usize::MAX,
        a.blocked < usize::MAX,
    ensures
        ({
            let blocked = !r.success && r.error_code == Some("blocked"@);
            let spent = !r.success && (r.error_code == Some("rate_limit_exceeded"@) || r.error_code
                == Some("unauthorized"@));
            let after = retries::noted(a, r);
            &&& r.success ==> retries::result_for(a, r) == Some(r)
            &&& blocked && a.blocked + 1 < a.max_blocked ==> retries::result_for(a, r) is None
            &&& blocked && a.blocked + 1 >= a.max_blocked ==> {
                &&& retries::result_for(a, r) matches Some(x) && !x.success && x.error_code == Some(
                    "blocked"@,
                )
            }
            &&& spent ==> retries::result_for(a, r) is None && after.last_error == Some(r)
            &&& !r.success && !blocked && !spent ==> retries::result_for(a, r) == Some(r)
            &&& !spent ==> after.last_error == a.last_error
            &&& after.made == a.made + 1
            &&& after.blocked == a.blocked + if blocked {
                1int
            } else {
                0
            }
            &&& after.max_retries == a.max_retries && after.max_blocked == a.max_blocked
            &&& retries::mark_for(r) is Used <==> r.success
            &&& retries::mark_for(r) is Failed <==> blocked || spent
        }),
{
    lemma_codes(r);
}

proof fn lemma_codes(r: ResultV)
    ensures
        text::or_empty(r.error_code) == "blocked"@ <==> r.error_code == Some("blocked"@),
        text::or_empty(r.error_code) == "rate_limit_exceeded"@ <==> r.error_code == Some(
            "rate_limit_exceeded"@,
        ),
        text::or_empty(r.error_code) == "unauthorized"@ <==> r.error_code == Some(
            "unauthorized"@,
        ),
        "blocked"@ != "rate_limit_exceeded"@ && "blocked"@ != "unauthorized"@,
{
    reveal_strlit("blocked");
    reveal_strlit("rate_limit_exceeded");
    reveal_strlit("unauthorized");
    assert("blocked"@.len() == 7 && "rate_limit_exceeded"@.len() == 19 && "unauthorized"@.len()
        == 12);
}

/// A run makes at least one attempt. Where it ends without a result, the last
/// trouble with a token is told, or that there is no token, or that all failed.
pub proof fn law_how_a_run_ends(max_retries: usize, max_blocked: usize, a: AttemptsV)
    ensures
        ({
            let start = retries::unbegun(max_retries, max_blocked);
            &&& max_retries >= 1 ==> start.max_retries == max_retries
            &&& max_retries < 1 ==> start.max_retries == 1
            &&& start.max_blocked == max_blocked && start.made == 0 && start.blocked == 0
            &&& start.last_error is None
        }),
        a.last_error matches Some(e) ==> retries::without_token_of(a) == e
            && retries::exhausted_of(a) == e,
        a.last_error is None ==> !retries::without_token_of(a).success
            && retries::without_token_of(a).error_code == Some("no_available_sso"@),
        a.last_error is None ==> !retries::exhausted_of(a).success && retries::exhausted_of(
            a,
        ).error_code == Some("generation_failed"@),
{
}

/// A run goes on while there are tokens and attempts left, with the token
/// that the rotation picks; its age is verified where that is not known.
pub proof fn law_what_a_run_does_next(r: RunV, s: RotationV, now: i64)
    ensures
        ({
            let next = run::next_action(r, s, now);
            let picked = rotation::next_token(s, r.tokens, r.daily_limit, now);
            let goes_on = r.tokens.len() > 0 && r.attempts.made < r.attempts.max_retries
                && picked is Some;
            &&& next is Attempt <==> goes_on
            &&& next matches ActionV::Attempt { token, verify_age } ==> {
                let state = rotation::state_after_next(s, r.tokens, r.daily_limit, now);
                &&& token == picked->0
                &&& verify_age <==> !(state.usage.contains_key(rotation::key_of(token))
                    && state.usage[rotation::key_of(token)].age_verified != 0)
            }
            &&& r.attempts.last_error is None ==> (next matches ActionV::Stop(x) ==> !x.success)
        }),
{
}

/// How often a token was used, and whether it failed, is kept under its key;
/// a token that was never seen was never used.
pub proof fn law_usage_goes_by_token(
    map: Map<Seq<char>, KeyUsage>,
    token: Seq<char>,
    now: i64,
    i: int,
)
    requires
        0 <= i < 6,
    ensures
        map.contains_key(rotation::key_of(token)) ==> rotation::usage_of(map, token, now)
            == map[rotation::key_of(token)],
        !map.contains_key(rotation::key_of(token)) ==> ({
            let u = rotation::usage_of(map, token, now);
            u.count == 0 && u.last_used == 0 && u.first_used == now && !u.failed && u.age_verified
                == 0
        }),
        ({
            let digest = outside::sha1_of(encode_utf8(token));
            let digits = "0123456789abcdef"@;
            digest.len() == 20 ==> {
                &&& rotation::key_of(token).len() == 12
                &&& rotation::key_of(token)[2 * i] == digits[digest[i] as int / 16]
                &&& rotation::key_of(token)[2 * i + 1] == digits[digest[i] as int % 16]
            }
        }),
{
    let digest = outside::sha1_of(encode_utf8(token));
    if digest.len() == 20 {
        text_laws::law_hex(digest, i);
    }
}

/// The tokens that may be used are those that did not fail and were used less
/// often than they may be in a day: all of them, in order.
pub proof fn law_which_tokens_may_be_used(
    tokens: Seq<Seq<char>>,
    map: Map<Seq<char>, KeyUsage>,
    daily_limit: i32,
    now: i64,
)
    ensures
        rotation::available_of(tokens, map, daily_limit, now) == tokens.filter(
            |t: Seq<char>|
                if map.contains_key(rotation::key_of(t)) {
                    !map[rotation::key_of(t)].failed && map[rotation::key_of(t)].count
                        < daily_limit
                } else {
                    0 < daily_limit
                },
        ),
    decreases tokens.len(),
{
    reveal(Seq::filter);
    if tokens.len() > 0 {
        law_which_tokens_may_be_used(tokens.drop_last(), map, daily_limit, now);
    }
}

/// A token is the better the more uses it has left, and the longer it rested,
/// up to a hundred minutes; one that was never used has rested long enough.
pub proof fn law_scores(u: KeyUsage, daily_limit: i32, now: i64)
    ensures
        ({
            let left: int = if daily_limit > u.count {
                daily_limit - u.count
            } else {
                0
            };
            let rested: int = if u.last_used == 0 || now - u.last_used > 6_000_000 {
                6_000_000
            } else {
                now - u.last_used
            };
            rotation::score_of(u, daily_limit, now) == left * (600_000 + rested)
        }),
{
}

/// After a day all counts and failures are wiped; before that nothing is. The
/// first check only takes note of the time.
pub proof fn law_days(s: RotationV, now: i64, key: Seq<char>)
    ensures
        ({
            let after = rotation::day_checked(s, now);
            &&& after.current_index == s.current_index
            &&& s.last_reset == 0 ==> after.last_reset == now && after.usage == s.usage
            &&& s.last_reset != 0 && now - s.last_reset < 86_400_000 ==> after == s
            &&& s.last_reset != 0 && now - s.last_reset >= 86_400_000 ==> {
                &&& after.last_reset == now
                &&& after.usage.contains_key(key) <==> s.usage.contains_key(key)
                &&& s.usage.contains_key(key) ==> ({
                    let u = after.usage[key];
                    u.count == 0 && !u.failed && u.last_used == s.usage[key].last_used
                        && u.age_verified == s.usage[key].age_verified
                })
            }
        }),
{
}

/// Where all tokens failed, all are forgiven: their uses and all other tokens
/// stay as they are.
pub proof fn law_forgiving(
    map: Map<Seq<char>, KeyUsage>,
    tokens: Seq<Seq<char>>,
    now: i64,
    key: Seq<char>,
)
    ensures
        ({
            let after = rotation::forgiven(map, tokens, now);
            let named = exists|i: int|
                0 <= i < tokens.len() && rotation::key_of(#[trigger] tokens[i]) == key;
            &&& named ==> after.contains_key(key) && !after[key].failed
            &&& named && map.contains_key(key) ==> after[key] == (KeyUsage {
                failed: false,
                ..map[key]
            })
            &&& !named ==> (after.contains_key(key) <==> map.contains_key(key)) && (
            map.contains_key(key) ==> after[key] == map[key])
        }),
    decreases tokens.len(),
{
    if tokens.len() > 0 {
        let before = tokens.drop_last();
        law_forgiving(map, before, now, key);
        if rotation::key_of(tokens.last()) == key {
            assert(rotation::key_of(tokens[tokens.len() - 1]) == key);
        }
        if exists|i: int| 0 <= i < before.len() && rotation::key_of(#[trigger] before[i]) == key {
            let i = choose|i: int|
                0 <= i < before.len() && rotation::key_of(#[trigger] before[i]) == key;
            assert(rotation::key_of(tokens[i]) == key);
        }
        if exists|i: int| 0 <= i < tokens.len() && rotation::key_of(#[trigger] tokens[i]) == key {
            let i = choose|i: int|
                0 <= i < tokens.len() && rotation::key_of(#[trigger] tokens[i]) == key;
            if i < before.len() {
                assert(rotation::key_of(before[i]) == key);
            }
        }
    }
}

/// What an attempt leaves in the rotation: a success counts one more use and
/// clears a failure, a failed token is marked, and nothing else changes.
pub proof fn law_what_is_marked(
    s: RotationV,
    token: Seq<char>,
    mark: MarkV,
    now: i64,
    other: Seq<char>,
)
    requires
        rotation::usage_of(s.usage, token, now).count < i32::MAX,
        other != rotation::key_of(token),
    ensures
        ({
            let after = run::rotation_after_mark(s, token, mark, now);
            let before = rotation::usage_of(s.usage, token, now);
            let u = after.usage[rotation::key_of(token)];
            &&& after.last_reset == s.last_reset && after.current_index == s.current_index
            &&& after.usage.contains_key(other) <==> s.usage.contains_key(other)
            &&& s.usage.contains_key(other) ==> after.usage[other] == s.usage[other]
            &&& mark is Used ==> after.usage.contains_key(rotation::key_of(token)) && u.count
                == before.count + 1 && !u.failed && u.last_used == now && u.age_verified
                == before.age_verified
            &&& mark is Failed ==> after.usage.contains_key(rotation::key_of(token)) && u.count
                == before.count && u.failed && u.last_used == before.last_used && u.age_verified
                == before.age_verified
            &&& mark is Nothing ==> after == s
        }),
        ({
            let after = run::rotation_after_age(s, token, true, now);
            let before = rotation::usage_of(s.usage, token, now);
            let u = after.usage[rotation::key_of(token)];
            &&& after.usage.contains_key(rotation::key_of(token)) && u.age_verified == 1
            &&& u.count == before.count && u.failed == before.failed
            &&& s.usage.contains_key(other) ==> after.usage[other] == s.usage[other]
            &&& run::rotation_after_age(s, token, false, now) == s
        }),
{
}

/// The token that is tried next is the best of those that may be used, and the
/// first of those that are equally good. Where none may be used and all have
/// failed, it is the first of all; otherwise there is none.
pub proof fn law_which_token_is_next(
    s: RotationV,
    tokens: Seq<Seq<char>>,
    daily_limit: i32,
    now: i64,
)
    requires
        forall|k: Seq<char>| #[trigger]
            s.usage.contains_key(k) ==> s.usage[k].last_used <= now,
    ensures
        ({
            let usage = rotation::prepared(s, tokens, now).usage;
            let fit = rotation::available_of(tokens, usage, daily_limit, now);
            let failed = forall|i: int|
                0 <= i < tokens.len() ==> rotation::usage_of(
                    usage,
                    #[trigger] tokens[i],
                    now,
                ).failed;
            let score = |t: Seq<char>|
                rotation::score_of(rotation::usage_of(usage, t, now), daily_limit, now);
            let next = rotation::next_token(s, tokens, daily_limit, now);
            &&& fit.len() > 0 ==> next is Some && exists|i: int|
                0 <= i < fit.len() && #[trigger] fit[i] == next->0 && (forall|j: int|
                    0 <= j < fit.len() ==> score(#[trigger] fit[j]) <= score(fit[i])) && (forall|
                    j: int,
                |
                    0 <= j < i ==> score(#[trigger] fit[j]) < score(fit[i]))
            &&& fit.len() == 0 && tokens.len() > 0 && failed ==> next == Some(tokens[0])
            &&& fit.len() == 0 && (tokens.len() == 0 || !failed) ==> next is None
        }),
{
    let usage = rotation::prepared(s, tokens, now).usage;
    let fit = rotation::available_of(tokens, usage, daily_limit, now);
    if fit.len() > 0 {
        let scores = rotation::scores_of(fit, usage, daily_limit, now);
        rotation::law_best_token_is_picked(scores, fit.len() as int);
        lemma_rested(s, tokens, now);
        law_which_tokens_may_be_used(tokens, usage, daily_limit, now);
        assert(fit.contains(fit[0]));
        let u = rotation::usage_of(usage, fit[0], now);
        seqs::lemma_filter(
            tokens,
            |t: Seq<char>|
                if usage.contains_key(rotation::key_of(t)) {
                    !usage[rotation::key_of(t)].failed && usage[rotation::key_of(t)].count
                        < daily_limit
                } else {
                    0 < daily_limit
                },
            fit[0],
        );
        assert(u.last_used <= now || u.last_used == 0);
        if u.last_used <= now {
            rotation::law_available_scores_are_positive(u, daily_limit, now);
        } else {
            law_scores(u, daily_limit, now);
            assert(rotation::score_of(u, daily_limit, now) > 0) by (nonlinear_arith)
                requires
                    rotation::score_of(u, daily_limit, now) == (daily_limit - u.count) * (600_000
                        + 6_000_000),
                    daily_limit > u.count,
            ;
        }
        assert(scores[0] > 0);
        let b = rotation::best_upto(scores, fit.len() as int)->0;
        assert(fit[b] == rotation::next_token(s, tokens, daily_limit, now)->0);
        assert forall|j: int| 0 <= j < fit.len() implies rotation::score_of(
            rotation::usage_of(usage, #[trigger] fit[j], now),
            daily_limit,
            now,
        ) == scores[j] by {}
    }
}

proof fn lemma_rested(s: RotationV, tokens: Seq<Seq<char>>, now: i64)
    requires
        forall|k: Seq<char>| #[trigger]
            s.usage.contains_key(k) ==> s.usage[k].last_used <= now,
    ensures
        forall|k: Seq<char>| #[trigger]
            rotation::prepared(s, tokens, now).usage.contains_key(k) ==> rotation::prepared(
                s,
                tokens,
                now,
            ).usage[k].last_used <= now || rotation::prepared(s, tokens, now).usage[k].last_used
                == 0,
    decreases tokens.len(),
{
    let d = rotation::day_checked(s, now);
    let usage = rotation::prepared(s, tokens, now).usage;
    if tokens.len() > 0 {
        lemma_rested(s, tokens.drop_last(), now);
    }
    assert forall|k: Seq<char>| #[trigger] usage.contains_key(k) implies usage[k].last_used <= now
        || usage[k].last_used == 0 by {
        if tokens.len() > 0 {
            let before = rotation::prepared(s, tokens.drop_last(), now).usage;
            if before.contains_key(k) {
                assert(usage[k] == before[k]);
            }
        } else {
            assert(d.usage.contains_key(k));
            assert(s.usage.contains_key(k));
        }
    }
}

/// Every token of every pool may be used for images, each once, under its
/// bare text.
pub proof fn law_all_tokens_take_part(pools: Seq<PoolV>, k: int, i: int)
    requires
        0 <= k < pools.len(),
        0 <= i < pools[k].tokens.len(),
        rotation::sanitized(pools[k].tokens[i].token).len() > 0,
    ensures
        rotation::sso_list(pools).contains(rotation::sanitized(pools[k].tokens[i].token)),
        rotation::sso_list(pools).no_duplicates(),
    decreases pools.len(),
{
    lemma_take_part_once(pools);
    let before = pools.drop_last();
    let last = pools.last().tokens;
    let out = rotation::sso_list(before);
    let s = rotation::sanitized(pools[k].tokens[i].token);
    if k < before.len() {
        law_all_tokens_take_part(before, k, i);
        lemma_with_tokens(out, last, 0, s);
    } else {
        lemma_with_tokens(out, last, i, s);
    }
}

proof fn lemma_take_part_once(pools: Seq<PoolV>)
    ensures
        rotation::sso_list(pools).no_duplicates(),
    decreases pools.len(),
{
    if pools.len() > 0 {
        lemma_take_part_once(pools.drop_last());
        lemma_once(rotation::sso_list(pools.drop_last()), pools.last().tokens);
    }
}

proof fn lemma_once(out: Seq<Seq<char>>, tokens: Seq<TokenV>)
    requires
        out.no_duplicates(),
    ensures
        rotation::with_tokens(out, tokens).no_duplicates(),
    decreases tokens.len(),
{
    if tokens.len() > 0 {
        lemma_once(out, tokens.drop_last());
    }
}

proof fn lemma_with_tokens(out: Seq<Seq<char>>, tokens: Seq<TokenV>, i: int, s: Seq<char>)
    ensures
        out.contains(s) ==> rotation::with_tokens(out, tokens).contains(s),
        0 <= i < tokens.len() && rotation::sanitized(tokens[i].token) == s && s.len() > 0
            ==> rotation::with_tokens(out, tokens).contains(s),
    decreases tokens.len(),
{
    if tokens.len() > 0 {
        let before = tokens.drop_last();
        lemma_with_tokens(out, before, i, s);
        let acc = rotation::with_tokens(out, before);
        let t = rotation::sanitized(tokens.last().token);
        text_laws::law_new_texts(acc, t);
        let r = rotation::with_tokens(out, tokens);
        if acc.contains(s) {
            let j = choose|j: int| 0 <= j < acc.len() && acc[j] == s;
            assert(r[j] == s);
        }
    }
}

/// A token takes part only where some pool holds it.
pub proof fn law_no_other_tokens_take_part(pools: Seq<PoolV>, s: Seq<char>)
    requires
        rotation::sso_list(pools).contains(s),
    ensures
        exists|k: int, i: int|
            0 <= k < pools.len() && 0 <= i < pools[k].tokens.len() && rotation::sanitized(
                (#[trigger] pools[k].tokens[i]).token,
            ) == s,
    decreases pools.len(),
{
    if pools.len() > 0 {
        let before = pools.drop_last();
        let out = rotation::sso_list(before);
        if out.contains(s) {
            law_no_other_tokens_take_part(before, s);
            let (k, i) = choose|k: int, i: int|
                0 <= k < before.len() && 0 <= i < before[k].tokens.len() && rotation::sanitized(
                    (#[trigger] before[k].tokens[i]).token,
                ) == s;
            assert(pools[k].tokens[i] == before[k].tokens[i]);
        } else {
            lemma_only_tokens(out, pools.last().tokens, s);
            let i = choose|i: int|
                0 <= i < pools.last().tokens.len() && rotation::sanitized(
                    (#[trigger] pools.last().tokens[i]).token,
                ) == s;
            assert(pools[pools.len() - 1].tokens[i] == pools.last().tokens[i]);
        }
    }
}

proof fn lemma_only_tokens(out: Seq<Seq<char>>, tokens: Seq<TokenV>, s: Seq<char>)
    requires
        rotation::with_tokens(out, tokens).contains(s),
        !out.contains(s),
    ensures
        exists|i: int|
            0 <= i < tokens.len() && rotation::sanitized((#[trigger] tokens[i]).token) == s,
    decreases tokens.len(),
{
    if tokens.len() > 0 {
        let before = tokens.drop_last();
        let acc = rotation::with_tokens(out, before);
        if acc.contains(s) {
            lemma_only_tokens(out, before, s);
            let i = choose|i: int|
                0 <= i < before.len() && rotation::sanitized((#[trigger] before[i]).token) == s;
            assert(tokens[i] == before[i]);
        } else {
            let r = rotation::with_tokens(out, tokens);
            let j = choose|j: int| 0 <= j < r.len() && r[j] == s;
            if j < acc.len() {
                assert(acc[j] == s);
            }
            assert(rotation::sanitized(tokens[tokens.len() - 1].token) == s);
        }
    }
}

/// A token is written without white space around it and without `sso=` in front.
pub proof fn law_clean_tokens(token: Seq<char>, rest: Seq<char>)
    ensures
        rotation::sanitized(token) != "sso="@ + rest,
        text::trim_of(token) == token && (forall|r: Seq<char>| token != #[trigger] ("sso="@ + r))
            ==> rotation::sanitized(token) == token,
{
    crate::token::pool_laws::law_tokens_go_by_their_bare_text(text::trim_of(token), rest);
}

/// The request names the prompt, the shape and whether explicit images are
/// wanted, under these names.
pub proof fn law_what_is_asked_for(
    request_id: Seq<char>,
    timestamp: i64,
    prompt: Seq<char>,
    aspect_ratio: Seq<char>,
    enable_nsfw: bool,
)
    ensures
        ({
            let r = session::request_json(request_id, timestamp, prompt, aspect_ratio, enable_nsfw);
            let item = r->Object_0[2].1;
            let content = item->Object_0[1].1->Array_0;
            let c = content[0]->Object_0;
            let p = c[3].1->Object_0;
            &&& r->Object_0[0] == ("type"@, JsonV::Str("conversation.item.create"@))
            &&& r->Object_0[1] == ("timestamp"@, JsonV::Number(Number::of_int(timestamp)))
            &&& r->Object_0[2].0 == "item"@ && item->Object_0[1].0 == "content"@
            &&& item->Object_0[0] == ("type"@, JsonV::Str("message"@))
            &&& content.len() == 1
            &&& c[0] == ("requestId"@, JsonV::Str(request_id))
            &&& c[1] == ("text"@, JsonV::Str(prompt))
            &&& c[2] == ("type"@, JsonV::Str("input_text"@))
            &&& c[3].0 == "properties"@
            &&& p.contains(("enable_nsfw"@, JsonV::Bool(enable_nsfw)))
            &&& p.contains(("aspect_ratio"@, JsonV::Str(aspect_ratio)))
        }),
{
    let p = session::properties_json(aspect_ratio, enable_nsfw)->Object_0;
    assert(p[2] == ("enable_nsfw"@, JsonV::Bool(enable_nsfw)));
    assert(p[5] == ("aspect_ratio"@, JsonV::Str(aspect_ratio)));
}

/// A path names an image only where it ends in a name of hexadecimal digits
/// and dashes behind `/images/`, and in the extension of a PNG or a JPEG.
pub proof fn law_no_other_image_names(path: Seq<char>, k: int)
    ensures
        generation::id_in_path(path) matches Some(id) ==> {
            &&& id.len() > 0
            &&& 0 <= k < id.len() ==> ({
                let c = id[k] as int;
                48 <= c <= 57 || 97 <= c <= 102 || 65 <= c <= 70 || c == 45
            })
            &&& exists|front: Seq<char>|
                path == #[trigger] (front + "/images/"@ + id + ".jpg"@) || path == front
                    + "/images/"@ + id + ".png"@
        },
{
    reveal_strlit("/images/");
    assert("/images/"@.len() == 8);
    lemma_extensions();
    if let Some(id) = generation::id_in_path(path) {
        if 0 <= k < id.len() {
            assert(generation::is_id_char(id[k]));
        }
        lemma_path_parts(path, id);
    }
}

proof fn lemma_path_parts(path: Seq<char>, id: Seq<char>)
    requires
        generation::id_in_path(path) == Some(id),
        "/images/"@.len() == 8,
        ".jpg"@.len() == 4 && ".jpg"@[0] == '.' && ".jpg"@.skip(1) == "jpg"@,
        ".png"@.len() == 4 && ".png"@[0] == '.' && ".png"@.skip(1) == "png"@,
    ensures
        exists|front: Seq<char>|
            path == #[trigger] (front + "/images/"@ + id + ".jpg"@) || path == front + "/images/"@
                + id + ".png"@,
{
    let w = "/images/"@;
    text::lemma_first_from(path, w, 0);
    let i = text::first_of(path, w)->0;
    let front = path.take(i);
    let tail = path.skip(i + 8);
    assert(path.subrange(i, i + 8) =~= w);
    assert(path =~= front + w + tail);
    text_laws::law_last_place(tail, '.', 0);
    let k = text::last_of(tail, '.')->0;
    let ext = tail.skip(k + 1);
    assert(tail =~= id + seq!['.'] + ext);
    assert(".jpg"@ =~= seq!['.'] + ".jpg"@.skip(1));
    assert(".png"@ =~= seq!['.'] + ".png"@.skip(1));
    if ext == "jpg"@ {
        assert(path =~= front + w + id + ".jpg"@);
    } else {
        assert(path =~= front + w + id + ".png"@);
        assert((front + w + id + ".jpg"@).len() > 0);
    }
}

/// The usage of a token is the first entry under its key.
pub proof fn law_entries_go_by_key(e: Seq<(String, KeyUsage)>, key: Seq<char>, i: int)
    requires
        0 <= i < e.len(),
        e[i].0@ == key,
        forall|j: int| 0 <= j < i ==> (#[trigger] e[j]).0@ != key,
    ensures
        rotation::map_of(e).contains_key(key),
        rotation::map_of(e)[key] == e[i].1,
        rotation::map_of(Seq::empty()) == Map::<Seq<char>, KeyUsage>::empty(),
{
    lemma_entry(e, key, 0, i);
    assert(rotation::map_of(Seq::empty()) =~= Map::<Seq<char>, KeyUsage>::empty());
}

proof fn lemma_entry(e: Seq<(String, KeyUsage)>, key: Seq<char>, k: int, i: int)
    requires
        0 <= k <= i < e.len(),
        e[i].0@ == key,
        forall|j: int| 0 <= j < i ==> (#[trigger] e[j]).0@ != key,
    ensures
        rotation::entry_from(e, key, k) == Some(i),
    decreases i - k,
{
    if k < i {
        lemma_entry(e, key, k + 1, i);
    }
}

/// A key without an entry has no usage.
pub proof fn law_no_other_entries(e: Seq<(String, KeyUsage)>, key: Seq<char>)
    requires
        forall|j: int| 0 <= j < e.len() ==> (#[trigger] e[j]).0@ != key,
    ensures
        !rotation::map_of(e).contains_key(key),
{
    lemma_no_entry(e, key, 0);
}

proof fn lemma_no_entry(e: Seq<(String, KeyUsage)>, key: Seq<char>, k: int)
    requires
        0 <= k <= e.len(),
        forall|j: int| 0 <= j < e.len() ==> (#[trigger] e[j]).0@ != key,
    ensures
        rotation::entry_from(e, key, k) is None,
    decreases e.len() - k,
{
    if k < e.len() {
        lemma_no_entry(e, key, k + 1);
    }
}

/// The rotation moves on only where a token is looked for: where there are
/// tokens, and attempts are left.
pub proof fn law_when_the_rotation_moves(r: RunV, s: RotationV, now: i64)
    ensures
        r.tokens.len() == 0 || r.attempts.made >= r.attempts.max_retries
            ==> run::rotation_after_next(r, s, now) == s,
        r.tokens.len() > 0 && r.attempts.made < r.attempts.max_retries ==> run::rotation_after_next(
            r,
            s,
            now,
        ) == rotation::state_after_next(s, r.tokens, r.daily_limit, now),
{
}

/// Picking a token leaves the usage of all tokens as it was within the day,
/// but for the failures that are forgiven where all have failed.
pub proof fn law_what_picking_changes(
    s: RotationV,
    tokens: Seq<Seq<char>>,
    daily_limit: i32,
    now: i64,
    key: Seq<char>,
)
    requires
        s.last_reset != 0,
        now - s.last_reset < 86_400_000,
        s.usage.contains_key(key),
    ensures
        ({
            let after = rotation::state_after_next(s, tokens, daily_limit, now);
            let u = after.usage[key];
            &&& after.last_reset == s.last_reset
            &&& after.usage.contains_key(key)
            &&& u.count == s.usage[key].count && u.last_used == s.usage[key].last_used
            &&& u.age_verified == s.usage[key].age_verified
            &&& !rotation::starts_over(s, tokens, daily_limit, now) ==> u.failed
                == s.usage[key].failed
            &&& u.failed ==> s.usage[key].failed
        }),
{
    lemma_ensured(s.usage, tokens, now, key);
    law_forgiving(rotation::ensured_all(s.usage, tokens, now), tokens, now, key);
}

proof fn lemma_ensured(
    map: Map<Seq<char>, KeyUsage>,
    tokens: Seq<Seq<char>>,
    now: i64,
    key: Seq<char>,
)
    requires
        map.contains_key(key),
    ensures
        rotation::ensured_all(map, tokens, now).contains_key(key),
        rotation::ensured_all(map, tokens, now)[key] == map[key],
    decreases tokens.len(),
{
    if tokens.len() > 0 {
        lemma_ensured(map, tokens.drop_last(), now, key);
    }
}

/// What is written for an image: its decoded data, under its file name; its
/// data as it came is kept beside its URL.
pub proof fn law_what_is_written(job: saving::SaveJob, img: ImageV, app_url: Seq<char>)
    requires
        saving::saves(job, img, app_url),
    ensures
        outside::base64_decoded(encode_utf8(img.blob)) == Some(job.data@),
        job.image_id@ == img.image_id,
        job.blob@ == img.blob,
        job.filename@ == saving::filename_of(img),
        job.url@ == saving::saved_url(app_url, job.filename@),
{
}

/// Saving one image changes neither the images, nor how many are wanted, nor
/// where they are served from.
pub proof fn law_saving_keeps_its_task(a: saving::Saver, b: saving::Saver)
    requires
        a.same_task(&b),
    ensures
        a.images == b.images,
        a.n == b.n,
        a.app_url == b.app_url,
{
}

} // verus!
