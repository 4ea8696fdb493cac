//! What streamed and collected answers are for, said of the events and of
//! what is sent.
use vstd::prelude::*;

use crate::grok::processor::base;
use crate::grok::processor::base::{ChunkV, DeltaV, EventV};
use crate::grok::processor::chat;
use crate::grok::processor::chat::ChatV;
use crate::grok::processor::image;
use crate::grok::processor::image::ImageV;
use crate::grok::processor::video;
use crate::grok::processor::video::{VideoStateV, VideoV};
use crate::json;
use crate::json::{JsonV, Number};
use crate::outside;
use crate::seqs;
use crate::text;
use crate::text_laws;

verus! {

/// What an event says under `key` of its response.
pub open spec fn said_of(data: JsonV, key: Seq<char>) -> Option<JsonV> {
    json::field_in(json::field_in(data.field("result"@), "response"@), key)
}

/// The event is nothing but a piece of text.
pub open spec fn is_token(data: JsonV, token: Seq<char>) -> bool {
    &&& said_of(data, "streamingImageGenerationResponse"@) is None
    &&& said_of(data, "modelResponse"@) is None
    &&& said_of(data, "token"@) == Some(JsonV::Str(token))
}

/// A token that holds a filtered tag anywhere is not sent.
pub proof fn law_filtered_tokens_are_not_sent(
    s: ChatV,
    data: JsonV,
    a: Seq<char>,
    k: int,
    b: Seq<char>,
    i: int,
)
    requires
        0 <= k < s.filter_tags.len(),
        is_token(data, a + s.filter_tags[k] + b),
        0 <= i < chat::opening_chunks(s, data).len(),
    ensures
        chat::opening_chunks(s, data)[i].delta is Role,
{
    let t = a + s.filter_tags[k] + b;
    text_laws::law_occurs(t, s.filter_tags[k], a, b);
    assert(text::occurs(t, s.filter_tags[k]));
}

/// A token without any filtered tag is sent as it is, behind the role where
/// that was not sent yet. An empty one is not sent.
pub proof fn law_other_tokens_are_sent(s: ChatV, data: JsonV, token: Seq<char>)
    requires
        is_token(data, token),
        forall|k: int, a: Seq<char>, b: Seq<char>|
            0 <= k < s.filter_tags.len() ==> token != #[trigger] (a + s.filter_tags[k] + b),
    ensures
        ({
            let sent = chat::opening_chunks(s, data);
            let text = if s.role_sent {
                sent
            } else {
                sent.skip(1)
            };
            &&& !s.role_sent ==> sent.len() > 0 && sent[0].delta == DeltaV::Role
            &&& token.len() > 0 ==> text.len() == 1 && text[0].delta == DeltaV::Text(token)
            &&& token.len() == 0 ==> text.len() == 0
        }),
{
    if chat::filtered(s.filter_tags, token) {
        let k = choose|k: int|
            0 <= k < s.filter_tags.len() && text::occurs(token, #[trigger] s.filter_tags[k]);
        text_laws::law_occurs(token, s.filter_tags[k], Seq::empty(), Seq::empty());
        let (x, y) = choose|x: Seq<char>, y: Seq<char>|
            token == #[trigger] (x + s.filter_tags[k] + y);
        assert(token != x + s.filter_tags[k] + y);
    }
}

/// The tokens that a client sees: those that are not empty and hold no tag.
pub open spec fn is_shown(tags: Seq<Seq<char>>, token: Seq<char>) -> bool {
    token.len() > 0 && forall|k: int, a: Seq<char>, b: Seq<char>|
        0 <= k < tags.len() ==> token != #[trigger] (a + tags[k] + b)
}

/// The texts that an event adds to a chat whose thinking is hidden: its token,
/// or its images.
pub open spec fn texts_of(tags: Seq<Seq<char>>, links: Seq<Seq<char>>, data: JsonV) -> Seq<
    Seq<char>,
> {
    if said_of(data, "streamingImageGenerationResponse"@) is Some {
        Seq::empty()
    } else {
        match said_of(data, "modelResponse"@) {
            Some(mr) => {
                let urls = match json::items_in(mr.field("generatedImageUrls"@)) {
                    Some(items) => json::texts_among(items),
                    None => Seq::empty(),
                };
                Seq::new(
                    urls.len(),
                    |i: int| "!["@ + chat::label_of(urls[i]) + "]("@ + links[i] + ")\n"@,
                )
            },
            None => match said_of(data, "token"@) {
                Some(JsonV::Str(t)) => if is_shown(tags, t) {
                    seq![t]
                } else {
                    Seq::empty()
                },
                _ => Seq::empty(),
            },
        }
    }
}

/// What the text chunks say, in order.
pub open spec fn spoken(chunks: Seq<ChunkV>) -> Seq<Seq<char>>
    decreases chunks.len(),
{
    if chunks.len() == 0 {
        Seq::empty()
    } else {
        match chunks.last().delta {
            DeltaV::Text(t) => spoken(chunks.drop_last()).push(t),
            _ => spoken(chunks.drop_last()),
        }
    }
}

proof fn lemma_spoken_concat(a: Seq<ChunkV>, b: Seq<ChunkV>)
    ensures
        spoken(a + b) == spoken(a) + spoken(b),
    decreases b.len(),
{
    if b.len() > 0 {
        lemma_spoken_concat(a, b.drop_last());
        assert((a + b).drop_last() =~= a + b.drop_last());
        assert(spoken(a + b) =~= spoken(a) + spoken(b));
    } else {
        assert(a + b =~= a);
        assert(spoken(a) + spoken(b) =~= spoken(a));
    }
}

proof fn lemma_spoken_texts(chunks: Seq<ChunkV>, texts: Seq<Seq<char>>)
    requires
        chunks.len() == texts.len(),
        forall|i: int|
            0 <= i < chunks.len() ==> (#[trigger] chunks[i]).delta == DeltaV::Text(texts[i]),
    ensures
        spoken(chunks) == texts,
    decreases chunks.len(),
{
    if chunks.len() > 0 {
        let c = chunks.drop_last();
        let t = texts.drop_last();
        assert forall|i: int| 0 <= i < c.len() implies (#[trigger] c[i]).delta == DeltaV::Text(
            t[i],
        ) by {
            assert(c[i] == chunks[i]);
        }
        lemma_spoken_texts(c, t);
        assert(chunks[chunks.len() - 1].delta == DeltaV::Text(texts[texts.len() - 1]));
        assert(spoken(chunks) =~= texts);
    } else {
        assert(texts =~= Seq::empty());
    }
}

proof fn lemma_shown(tags: Seq<Seq<char>>, token: Seq<char>)
    ensures
        is_shown(tags, token) <==> token.len() > 0 && !chat::filtered(tags, token),
{
    if token.len() > 0 && !chat::filtered(tags, token) {
        assert forall|k: int, a: Seq<char>, b: Seq<char>| 0 <= k < tags.len() implies token
            != #[trigger] (a + tags[k] + b) by {
            if token == a + tags[k] + b {
                text_laws::law_occurs(token, tags[k], a, b);
                assert(text::occurs(token, tags[k]));
            }
        }
    }
    if chat::filtered(tags, token) {
        let k = choose|k: int| 0 <= k < tags.len() && text::occurs(token, #[trigger] tags[k]);
        text_laws::law_occurs(token, tags[k], Seq::empty(), Seq::empty());
        let (x, y) = choose|x: Seq<char>, y: Seq<char>| token == #[trigger] (x + tags[k] + y);
        assert(token == x + tags[k] + y);
    }
}

/// The texts that the events of a chat add, event by event.
pub open spec fn all_texts(
    tags: Seq<Seq<char>>,
    app_url: Seq<char>,
    image_format: Seq<char>,
    events: Seq<EventV>,
) -> Seq<Seq<char>>
    decreases events.len(),
{
    if events.len() == 0 {
        Seq::empty()
    } else {
        all_texts(tags, app_url, image_format, events.drop_last()) + texts_of(
            tags,
            chat::shown_links(app_url, image_format, events.last()),
            events.last().data,
        )
    }
}

proof fn lemma_settings_stay(s: ChatV, events: Seq<EventV>)
    ensures
        ({
            let t = chat::state_after(s, events);
            t.filter_tags == s.filter_tags && t.image_format == s.image_format && t.show_think
                == s.show_think && (!s.show_think && !s.think_opened ==> !t.think_opened)
        }),
    decreases events.len(),
{
    if events.len() > 0 {
        lemma_settings_stay(s, events.drop_last());
    }
}

/// With thinking hidden, a chat says the tokens that may be shown and the
/// images, in the order in which they come, and nothing else.
pub proof fn law_what_a_chat_says(s: ChatV, app_url: Seq<char>, events: Seq<EventV>)
    requires
        !s.show_think,
        !s.think_opened,
    ensures
        spoken(chat::answer(s, app_url, events)) == all_texts(
            s.filter_tags,
            app_url,
            s.image_format,
            events,
        ),
        forall|i: int|
            0 <= i < chat::answer(s, app_url, events).len() ==> (#[trigger] chat::answer(
                s,
                app_url,
                events,
            )[i]).delta !is ThinkOpen && chat::answer(s, app_url, events)[i].delta !is ThinkClose,
{
    reveal_with_fuel(spoken, 3);
    lemma_chunks_say(s, app_url, events);
    lemma_settings_stay(s, events);
    let end = chat::ending(chat::state_after(s, events));
    lemma_spoken_concat(chat::chunks_for(s, app_url, events), end);
    assert(end.drop_last() =~= Seq::empty());
    assert(spoken(end) =~= Seq::empty());
    let c = chat::chunks_for(s, app_url, events);
    let a = chat::answer(s, app_url, events);
    assert(spoken(a) =~= spoken(c));
    assert forall|i: int| 0 <= i < a.len() implies (#[trigger] a[i]).delta !is ThinkOpen
        && a[i].delta !is ThinkClose by {
        if i < c.len() {
            assert(a[i] == c[i]);
        } else {
            assert(a[i] == end[i - c.len()]);
        }
    }
}

proof fn lemma_chunks_say(s: ChatV, app_url: Seq<char>, events: Seq<EventV>)
    requires
        !s.show_think,
        !s.think_opened,
    ensures
        spoken(chat::chunks_for(s, app_url, events)) == all_texts(
            s.filter_tags,
            app_url,
            s.image_format,
            events,
        ),
        forall|i: int|
            0 <= i < chat::chunks_for(s, app_url, events).len() ==> (#[trigger] chat::chunks_for(
                s,
                app_url,
                events,
            )[i]).delta !is ThinkOpen && chat::chunks_for(s, app_url, events)[i].delta
                !is ThinkClose,
    decreases events.len(),
{
    if events.len() > 0 {
        let before = events.drop_last();
        lemma_chunks_say(s, app_url, before);
        lemma_settings_stay(s, before);
        let t = chat::state_after(s, before);
        let e = events.last();
        lemma_event_says(t, app_url, e);
        let a = chat::chunks_for(s, app_url, before);
        let b = chat::event_chunks(t, app_url, e);
        lemma_spoken_concat(a, b);
        let c = chat::chunks_for(s, app_url, events);
        assert forall|i: int| 0 <= i < c.len() implies (#[trigger] c[i]).delta !is ThinkOpen
            && c[i].delta !is ThinkClose by {
            if i < a.len() {
                assert(c[i] == a[i]);
            } else {
                assert(c[i] == b[i - a.len()]);
            }
        }
    }
}

proof fn lemma_event_says(s: ChatV, app_url: Seq<char>, e: EventV)
    requires
        !s.show_think,
        !s.think_opened,
    ensures
        spoken(chat::event_chunks(s, app_url, e)) == texts_of(
            s.filter_tags,
            chat::shown_links(app_url, s.image_format, e),
            e.data,
        ),
        forall|i: int|
            0 <= i < chat::event_chunks(s, app_url, e).len() ==> (#[trigger] chat::event_chunks(
                s,
                app_url,
                e,
            )[i]).delta !is ThinkOpen && chat::event_chunks(s, app_url, e)[i].delta !is ThinkClose,
{
    reveal_with_fuel(spoken, 4);
    let links = chat::shown_links(app_url, s.image_format, e);
    let resp = base::response_of(e.data);
    let l = chat::learned(s, resp);
    let open = chat::opening_chunks(s, e.data);
    let shown = chat::image_chunks(chat::opened(s, e.data), app_url, e);
    lemma_spoken_concat(open, shown);
    let want = texts_of(s.filter_tags, links, e.data);
    let role = chat::maybe(l, !l.role_sent, DeltaV::Role);
    if role.len() > 0 {
        assert(role.drop_last() =~= Seq::empty());
    }
    assert(spoken(role) =~= Seq::empty());
    if chat::image_progress(resp) is Some {
        assert(open =~= role);
        assert(shown =~= Seq::empty());
    } else if chat::model_response(resp) is Some {
        assert(open =~= role);
        let mr = chat::model_response(resp)->0;
        let urls = chat::answer_urls(Some(mr));
        assert(want.len() == urls.len());
        assert forall|i: int| 0 <= i < shown.len() implies (#[trigger] shown[i]).delta
            == DeltaV::Text(want[i]) by {
            assert(chat::opened(s, e.data).image_format == s.image_format);
        }
        lemma_spoken_texts(shown, want);
    } else {
        assert(shown =~= Seq::empty());
        match chat::token_text(l, resp) {
            Some(t) => {
                lemma_shown(s.filter_tags, t);
                assert(open =~= role.push(chat::said(l, DeltaV::Text(t))));
                assert(open.drop_last() =~= role);
                assert(spoken(open) =~= seq![t]);
            },
            None => {
                assert(open =~= role);
                if let Some(JsonV::Str(t)) = said_of(e.data, "token"@) {
                    lemma_shown(s.filter_tags, t);
                }
            },
        }
    }
    assert(spoken(chat::event_chunks(s, app_url, e)) =~= want);
}

/// The images of an answer are shown right behind what else the event adds,
/// whether or not thinking is shown: one for each URL, in order.
pub proof fn law_answers_show_their_images(s: ChatV, app_url: Seq<char>, e: EventV, i: int)
    requires
        said_of(e.data, "streamingImageGenerationResponse"@) is None,
        0 <= i < chat::answer_urls(said_of(e.data, "modelResponse"@)).len(),
    ensures
        ({
            let urls = chat::answer_urls(said_of(e.data, "modelResponse"@));
            let sent = chat::event_chunks(s, app_url, e);
            let n = sent.len() - urls.len();
            &&& n >= 0 && sent.take(n) == chat::opening_chunks(s, e.data)
            &&& sent[n + i].delta == DeltaV::Text(
                "!["@ + chat::label_of(urls[i]) + "]("@ + chat::shown_at(
                    app_url,
                    s.image_format,
                    urls[i],
                    e.encoded[i],
                ) + ")\n"@,
            )
        }),
{
    let open = chat::opening_chunks(s, e.data);
    let sent = chat::event_chunks(s, app_url, e);
    assert(sent.take(open.len() as int) =~= open);
}

/// The URLs of the images of an answer are the texts in its list, in order.
pub proof fn law_urls_of_an_answer(urls: Seq<Seq<char>>)
    ensures
        chat::answer_urls(
            Some(
                JsonV::Object(
                    seq![
                        (
                            "generatedImageUrls"@,
                            JsonV::Array(urls.map_values(|u: Seq<char>| JsonV::Str(u))),
                        ),
                    ],
                ),
            ),
        ) == urls,
{
    reveal_with_fuel(json::position_from, 2);
    let items = urls.map_values(|u: Seq<char>| JsonV::Str(u));
    let f = seq![("generatedImageUrls"@, JsonV::Array(items))];
    assert(json::lookup(f, "generatedImageUrls"@) == Some(f[0].1));
    lemma_texts(urls);
}

proof fn lemma_texts(urls: Seq<Seq<char>>)
    ensures
        json::texts_among(urls.map_values(|u: Seq<char>| JsonV::Str(u))) == urls,
    decreases urls.len(),
{
    let items = urls.map_values(|u: Seq<char>| JsonV::Str(u));
    if urls.len() > 0 {
        let before = urls.drop_last();
        lemma_texts(before);
        assert(items.drop_last() =~= before.map_values(|u: Seq<char>| JsonV::Str(u)));
        assert(before.push(urls.last()) =~= urls);
    } else {
        assert(urls =~= Seq::empty());
    }
}

/// A response has the name that was told last. Its fingerprint is the first
/// hash that was told, until a complete answer tells another.
pub proof fn law_names_and_fingerprints(s: ChatV, data: JsonV)
    ensures
        ({
            let after = chat::opened(s, data);
            let id = json::text_in(said_of(data, "responseId"@));
            let hash = json::text_in(
                json::field_in(said_of(data, "llmInfo"@), "modelHash"@),
            );
            &&& id is Some ==> after.response_id == id
            &&& id is None ==> after.response_id == s.response_id
            &&& s.fingerprint.len() > 0 ==> after.fingerprint == s.fingerprint
            &&& s.fingerprint.len() == 0 && hash is Some ==> after.fingerprint == hash->0
            &&& s.fingerprint.len() == 0 && hash is None ==> after.fingerprint == s.fingerprint
            &&& after.role_sent
        }),
        ({
            let after = chat::closed(s, data);
            let hash = json::text_in(
                json::field_in(
                    json::field_in(
                        json::field_in(said_of(data, "modelResponse"@), "metadata"@),
                        "llm_info"@,
                    ),
                    "modelHash"@,
                ),
            );
            let done = said_of(data, "streamingImageGenerationResponse"@) is None;
            &&& done && hash is Some ==> after == (ChatV { fingerprint: hash->0, ..s })
            &&& !done || hash is None ==> after == s
        }),
        forall|i: int|
            0 <= i < chat::opening_chunks(s, data).len() ==> {
                &&& (#[trigger] chat::opening_chunks(s, data)[i]).id == chat::opened(
                    s,
                    data,
                ).response_id
                &&& chat::opening_chunks(s, data)[i].fingerprint == chat::opened(
                    s,
                    data,
                ).fingerprint
            },
{
}

/// With thinking shown, each progress of an image is told, counted from one,
/// inside a thinking part that is opened for it where none is open.
pub proof fn law_image_progress_is_told(s: ChatV, data: JsonV, number: i64, progress: i64)
    requires
        s.show_think,
        s.role_sent,
        said_of(data, "streamingImageGenerationResponse"@) == Some(
            JsonV::Object(
                seq![
                    ("imageIndex"@, JsonV::Number(Number::of_int(number))),
                    ("progress"@, JsonV::Number(Number::of_int(progress))),
                ],
            ),
        ),
    ensures
        ({
            let sent = chat::opening_chunks(s, data);
            let words = "正在生成第"@ + text::signed_of(number + 1) + "张图片中，当前进度"@
                + text::signed_of(progress as int) + "%\n"@;
            &&& s.think_opened ==> sent.len() == 1
            &&& !s.think_opened ==> sent.len() == 2 && sent[0].delta == DeltaV::ThinkOpen
            &&& sent.last().delta == DeltaV::Text(words)
            &&& chat::opened(s, data).think_opened
        }),
{
    reveal_strlit("imageIndex");
    reveal_strlit("progress");
    assert("imageIndex"@.len() == 10 && "progress"@.len() == 8);
    reveal_with_fuel(json::position_from, 3);
    let f = seq![
        ("imageIndex"@, JsonV::Number(Number::of_int(number))),
        ("progress"@, JsonV::Number(Number::of_int(progress))),
    ];
    assert(json::lookup(f, "imageIndex"@) == Some(f[0].1));
    assert(json::lookup(f, "progress"@) == Some(f[1].1));
}

/// A complete answer ends a thinking part that is shown, behind the message
/// that it brings.
pub proof fn law_thinking_ends_with_the_answer(s: ChatV, data: JsonV, mr: JsonV)
    requires
        s.role_sent,
        said_of(data, "streamingImageGenerationResponse"@) is None,
        said_of(data, "modelResponse"@) == Some(mr),
    ensures
        ({
            let sent = chat::opening_chunks(s, data);
            let open = s.show_think && s.think_opened;
            &&& open ==> sent.len() > 0 && sent.last().delta == DeltaV::ThinkClose
            &&& open && json::text_in(mr.field("message"@)) is Some ==> sent.len() == 2
                && sent[0].delta == DeltaV::Text(
                json::text_in(mr.field("message"@))->0 + "\n"@,
            )
            &&& open && json::text_in(mr.field("message"@)) is None ==> sent.len() == 1
            &&& !open ==> sent.len() == 0
            &&& s.show_think ==> !chat::opened(s, data).think_opened
        }),
{
}

/// An image is called after the directory that it lies in; one that lies in
/// none is called as it is.
pub proof fn law_image_labels(front: Seq<char>, dir: Seq<char>, file: Seq<char>)
    requires
        !dir.contains('/'),
        !file.contains('/'),
    ensures
        chat::label_of(file) == file,
        chat::label_of(dir.push('/') + file) == dir,
        chat::label_of(front.push('/') + (dir.push('/') + file)) == dir,
{
    let sep = text::is_char('/');
    text_laws::law_pieces(dir, '/', file, sep);
    text_laws::law_pieces(file, '/', Seq::empty(), sep);
    text_laws::law_pieces(front, '/', dir.push('/') + file, sep);
    assert forall|i: int| 0 <= i < dir.len() implies !sep(#[trigger] dir[i]) by {
        assert(dir.contains(dir[i]));
    }
    assert forall|i: int| 0 <= i < file.len() implies !sep(#[trigger] file[i]) by {
        assert(file.contains(file[i]));
    }
    assert(text::pieces(dir.push('/') + file, sep) =~= seq![dir, file]);
    let all = text::pieces(front.push('/') + (dir.push('/') + file), sep);
    text::lemma_pieces_len(front, sep);
    assert(all[all.len() - 2] == dir);
}

/// What is collected from the events of a chat is, event by event, the
/// message, the images and the token.
pub proof fn law_what_is_collected(
    c: chat::CollectedV,
    app_url: Seq<char>,
    image_format: Seq<char>,
    before: Seq<EventV>,
    e: EventV,
)
    ensures
        ({
            let a = chat::collected_from(c, app_url, image_format, before);
            let b = chat::collected_from(c, app_url, image_format, before.push(e));
            let mr = said_of(e.data, "modelResponse"@);
            let message = json::text_in(json::field_in(mr, "message"@));
            let token = json::text_in(said_of(e.data, "token"@));
            let id = json::text_in(said_of(e.data, "responseId"@));
            let shown = chat::with_images(
                chat::CollectedV { content: Seq::empty(), ..a },
                chat::collected_links(app_url, image_format, e),
            ).content;
            &&& chat::collected_from(c, app_url, image_format, Seq::empty()) == c
            &&& b.content == a.content + text::or_empty(message) + shown + text::or_empty(token)
            &&& b.response_id == if id is Some {
                id->0
            } else {
                a.response_id
            }
            &&& a.fingerprint.len() > 0 ==> b.fingerprint == a.fingerprint
        }),
{
    assert(before.push(e).drop_last() =~= before);
    let a = chat::collected_from(c, app_url, image_format, before);
    let links = chat::collected_links(app_url, image_format, e);
    lemma_images_append(
        chat::collected_open(a, e.data),
        chat::CollectedV { content: Seq::empty(), ..a },
        links,
    );
    let b = chat::collected_from(c, app_url, image_format, before.push(e));
    let mr = said_of(e.data, "modelResponse"@);
    let message = json::text_in(json::field_in(mr, "message"@));
    let token = json::text_in(said_of(e.data, "token"@));
    let shown = chat::with_images(
        chat::CollectedV { content: Seq::empty(), ..a },
        links,
    ).content;
    assert(b.content =~= a.content + text::or_empty(message) + shown + text::or_empty(token));
}

proof fn lemma_images_append(c: chat::CollectedV, d: chat::CollectedV, links: Seq<Seq<char>>)
    requires
        d.content.len() == 0,
    ensures
        chat::with_images(c, links).content == c.content + chat::with_images(d, links).content,
        chat::with_images(c, links).response_id == c.response_id,
        chat::with_images(c, links).fingerprint == c.fingerprint,
    decreases links.len(),
{
    if links.len() > 0 {
        lemma_images_append(c, d, links.drop_last());
        let l = "![]("@ + links.last() + ")\n"@;
        assert(chat::with_images(c, links).content =~= c.content + chat::with_images(
            d,
            links,
        ).content);
    } else {
        assert(d.content =~= Seq::empty());
        assert(c.content + d.content =~= c.content);
    }
}

/// A collected answer shows every image, in order.
pub proof fn law_collected_images(c: chat::CollectedV, links: Seq<Seq<char>>, link: Seq<char>)
    ensures
        chat::with_images(c, Seq::empty()) == c,
        chat::with_images(c, links.push(link)).content == chat::with_images(c, links).content
            + ("![]("@ + link + ")\n"@),
{
    assert(links.push(link).drop_last() =~= links);
}

/// Data is shown where it is asked for and there. Where it is not there, a
/// stream shows where the image is found, and a collected answer the URL as it is.
pub proof fn law_data_is_shown(
    app_url: Seq<char>,
    url: Seq<char>,
    data: Seq<char>,
    format: Seq<char>,
)
    ensures
        chat::shown_at(app_url, "base64"@, url, Some(data)) == data,
        chat::shown_at(app_url, "base64"@, url, None) == base::link_of(app_url, "image"@, url),
        chat::collected_at(app_url, "base64"@, url, Some(data)) == data,
        chat::collected_at(app_url, "base64"@, url, None) == url,
        format != "base64"@ ==> chat::shown_at(app_url, format, url, Some(data)) == base::link_of(
            app_url,
            "image"@,
            url,
        ) && chat::collected_at(app_url, format, url, Some(data)) == base::link_of(
            app_url,
            "image"@,
            url,
        ),
{
}

/// An asset is found upstream, or behind the address of the gateway where it
/// has one, under a path with a slash in front.
pub proof fn law_where_assets_are_found(
    app_url: Seq<char>,
    media_type: Seq<char>,
    path: Seq<char>,
    url: Seq<char>,
)
    requires
        forall|r: Seq<char>| path != #[trigger] ("/"@ + r),
        forall|r: Seq<char>| path != #[trigger] ("http"@ + r),
    ensures
        base::link_of(Seq::empty(), media_type, path) == "https://assets.grok.com/"@ + path,
        base::link_of(Seq::empty(), media_type, "/"@ + path) == "https://assets.grok.com/"@ + path,
        app_url.len() > 0 && app_url.last() != '/' ==> base::link_of(app_url, media_type, path)
            == app_url + "/v1/files/"@ + media_type + "/"@ + path,
        app_url.len() > 0 ==> base::link_of(app_url.push('/'), media_type, url) == base::link_of(
            app_url,
            media_type,
            url,
        ),
        outside::parsed_path("http"@ + url) matches Some(p) ==> base::link_of(
            app_url,
            media_type,
            "http"@ + url,
        ) == base::asset_url_of(
            app_url,
            media_type,
            if p.len() > 0 && p[0] == '/' {
                p
            } else {
                "/"@ + p
            },
        ),
{
    reveal_strlit("/");
    reveal_strlit("http");
    reveal_strlit("https://assets.grok.com/");
    reveal_strlit("https://assets.grok.com");
    let sl = "/"@;
    assert(sl =~= seq!['/']);
    if text::begins(path, sl) {
        text_laws::law_begins(path, sl, Seq::empty());
        assert(path == sl + path.skip(1));
    }
    if text::begins(path, "http"@) {
        text_laws::law_begins(path, "http"@, Seq::empty());
        assert(path == "http"@ + path.skip(4));
    }
    text_laws::law_begins(path, sl, path);
    assert(!text::begins(sl + path, "http"@)) by {
        if text::begins(sl + path, "http"@) {
            assert((sl + path).take(4)[0] == '/');
            assert("http"@[0] == 'h');
        }
    }
    let host = "https://assets.grok.com"@;
    assert(host + sl =~= "https://assets.grok.com/"@);
    assert(host + (sl + path) =~= "https://assets.grok.com/"@ + path);
    assert(app_url + "/v1/files/"@ + media_type + (sl + path) =~= app_url + "/v1/files/"@
        + media_type + sl + path);
    assert(app_url.push('/').drop_last() =~= app_url);
    text_laws::law_begins("http"@ + url, "http"@, url);
    if let Some(p) = outside::parsed_path("http"@ + url) {
        if p.len() > 0 {
            assert(p.take(1)[0] == p[0] && sl[0] == '/');
            if p[0] == '/' {
                assert(p.take(1) =~= sl);
            }
        }
    }
}

/// A line of an event stream carries what follows `data:`, without white
/// space around it; an empty line and the mark of the end carry nothing.
pub proof fn law_lines(payload: Seq<char>)
    requires
        payload.len() > 0,
        text::trim_of(payload) == payload,
        payload != "[DONE]"@,
        forall|r: Seq<char>| payload != #[trigger] ("data:"@ + r),
    ensures
        base::payload_of(payload) == Some(payload),
        text::trim_of("data: "@ + payload) == "data: "@ + payload ==> base::payload_of(
            "data: "@ + payload,
        ) == Some(text::trim_of(" "@ + payload)),
        base::payload_of(Seq::empty()) is None,
        text::trim_of("[DONE]"@) == "[DONE]"@ && !text::begins("[DONE]"@, "data:"@)
            ==> base::payload_of("[DONE]"@) is None,
{
    reveal_strlit("data:");
    reveal_strlit("data: ");
    reveal_strlit(" ");
    reveal_strlit("[DONE]");
    if text::begins(payload, "data:"@) {
        text_laws::law_begins(payload, "data:"@, Seq::empty());
        assert(payload == "data:"@ + payload.skip(5));
    }
    let line = "data: "@ + payload;
    assert(line =~= "data:"@ + (" "@ + payload));
    text_laws::law_begins(line, "data:"@, " "@ + payload);
    lemma_trim_space(payload);
    assert(text::trim_of(Seq::<char>::empty()) =~= Seq::empty());
}

proof fn lemma_trim_space(payload: Seq<char>)
    requires
        text::trim_of(payload) == payload,
    ensures
        text::trim_of(" "@ + payload) == payload,
{
    reveal_strlit(" ");
    let s = " "@ + payload;
    assert(s[0] == ' ');
    assert(text::is_white(' '));
    assert(s.skip(1) =~= payload);
    assert(text::trim_start_of(s) == text::trim_start_of(payload));
}

/// The chunk shows a video.
pub open spec fn shows_video(c: ChunkV) -> bool {
    c.delta matches DeltaV::Text(t) && t.len() > 0 && t[0] == '<'
}

/// The HTML of every finished video, in order: of every event that tells a
/// progress of 100 and a URL.
pub open spec fn finished_in(app_url: Seq<char>, events: Seq<JsonV>) -> Seq<Seq<char>>
    decreases events.len(),
{
    if events.len() == 0 {
        Seq::empty()
    } else {
        let before = finished_in(app_url, events.drop_last());
        let told = said_of(events.last(), "streamingVideoGenerationResponse"@);
        let url = json::text_in(json::field_in(told, "videoUrl"@));
        let picture = json::text_in(json::field_in(told, "thumbnailImageUrl"@));
        if json::int_in(json::field_in(told, "progress"@)) == Some(100i64) && url is Some
            && url->0.len() > 0 {
            before.push(
                video::html_of(
                    base::link_of(app_url, "video"@, url->0),
                    if picture is Some && picture->0.len() > 0 {
                        base::link_of(app_url, "image"@, picture->0)
                    } else {
                        Seq::empty()
                    },
                ),
            )
        } else {
            before
        }
    }
}

proof fn lemma_html_opens(v: Seq<char>, t: Seq<char>)
    ensures
        video::html_of(v, t).len() > 0,
        video::html_of(v, t)[0] == '<',
{
    reveal_strlit("<video id=\"video\" controls=\"\" preload=\"none\"");
}

proof fn lemma_progress_opens(data: JsonV)
    ensures
        video::progress_text(data).len() > 0,
        video::progress_text(data)[0] != '<',
{
    reveal_strlit("正在生成视频中，当前进度");
    assert("正在生成视频中，当前进度"@[0] == '正');
}

/// Every finished video is shown in the stream, whether or not thinking is
/// shown: among the chunks that show videos there is one for each, in order,
/// and no other.
pub proof fn law_every_finished_video_is_shown(
    s: VideoStateV,
    app_url: Seq<char>,
    events: Seq<JsonV>,
)
    ensures
        spoken(
            (video::chunks_for(s, app_url, events) + video::ending(
                video::state_after(s, events),
            )).filter(|c: ChunkV| shows_video(c)),
        ) == finished_in(app_url, events),
    decreases events.len(),
{
    let shows = |c: ChunkV| shows_video(c);
    let end = video::ending(video::state_after(s, events));
    let all = video::chunks_for(s, app_url, events);
    lemma_videos_shown(s, app_url, events);
    seqs::lemma_filter_concat(all, end, shows);
    assert forall|i: int| 0 <= i < end.len() implies !shows_video(#[trigger] end[i]) by {
        assert(end[i].delta !is Text);
    }
    lemma_none_shown(end);
    assert(all.filter(shows) + end.filter(shows) =~= all.filter(shows));
}

proof fn lemma_none_shown(chunks: Seq<ChunkV>)
    requires
        forall|i: int| 0 <= i < chunks.len() ==> !shows_video(#[trigger] chunks[i]),
    ensures
        chunks.filter(|c: ChunkV| shows_video(c)) == Seq::<ChunkV>::empty(),
    decreases chunks.len(),
{
    reveal(Seq::filter);
    if chunks.len() > 0 {
        let c = chunks.drop_last();
        assert forall|i: int| 0 <= i < c.len() implies !shows_video(#[trigger] c[i]) by {
            assert(c[i] == chunks[i]);
        }
        lemma_none_shown(c);
        assert(!shows_video(chunks[chunks.len() - 1]));
    } else {
        assert(chunks.filter(|c: ChunkV| shows_video(c)) =~= Seq::empty());
    }
}

proof fn lemma_opening_shows_none(s: VideoStateV, data: JsonV)
    ensures
        video::opening_chunks(s, data).filter(|c: ChunkV| shows_video(c)) == Seq::<ChunkV>::empty(),
{
    let b = video::opening_chunks(s, data);
    lemma_progress_opens(data);
    assert forall|i: int| 0 <= i < b.len() implies !shows_video(#[trigger] b[i]) by {
        assert(b[i].delta is Text ==> b[i].delta == DeltaV::Text(video::progress_text(data)));
    }
    lemma_none_shown(b);
}

/// The HTML of the finished video of one event, where it tells one.
spec fn finished_by(app_url: Seq<char>, data: JsonV) -> Seq<Seq<char>> {
    match video::finished_video(data) {
        Some(v) => seq![video::shown_html(app_url, v)],
        None => Seq::empty(),
    }
}

proof fn lemma_video_is_shown(s: VideoStateV, app_url: Seq<char>, data: JsonV)
    ensures
        spoken(
            video::video_chunks(s, app_url, data).filter(|c: ChunkV| shows_video(c)),
        ) == finished_by(app_url, data),
{
    let shows = |c: ChunkV| shows_video(c);
    let c = video::video_chunks(s, app_url, data);
    let none = Seq::<ChunkV>::empty();
    lemma_none_shown(none);
    match video::finished_video(data) {
        Some(v) => {
            let w = video::shown(app_url, v);
            lemma_html_opens(w.video_url, w.thumbnail_url);
            assert(c =~= none.push(c[0]));
            seqs::lemma_filter_push(none, c[0], shows);
            assert(c.filter(shows) =~= c);
            assert(c.drop_last() =~= none);
            assert(spoken(none) =~= Seq::empty());
            assert(spoken(c) =~= finished_by(app_url, data));
        },
        None => {
            assert(c =~= none);
        },
    }
}

proof fn lemma_finished_step(app_url: Seq<char>, events: Seq<JsonV>)
    requires
        events.len() > 0,
    ensures
        finished_in(app_url, events) == finished_in(app_url, events.drop_last()) + finished_by(
            app_url,
            events.last(),
        ),
{
    let before = finished_in(app_url, events.drop_last());
    let told = said_of(events.last(), "streamingVideoGenerationResponse"@);
    assert(told == video::video_of(events.last()));
    let picture = json::text_in(json::field_in(told, "thumbnailImageUrl"@));
    match video::finished_video(events.last()) {
        Some(v) => {
            assert(picture is Some ==> v.thumbnail_url == picture->0);
            assert(finished_in(app_url, events) =~= before + finished_by(app_url, events.last()));
        },
        None => {
            assert(finished_in(app_url, events) =~= before + finished_by(app_url, events.last()));
        },
    }
}

proof fn lemma_videos_shown(s: VideoStateV, app_url: Seq<char>, events: Seq<JsonV>)
    ensures
        spoken(
            video::chunks_for(s, app_url, events).filter(|c: ChunkV| shows_video(c)),
        ) == finished_in(app_url, events),
    decreases events.len(),
{
    let shows = |c: ChunkV| shows_video(c);
    if events.len() > 0 {
        let before = events.drop_last();
        let data = events.last();
        lemma_videos_shown(s, app_url, before);
        let a = video::chunks_for(s, app_url, before);
        let b = video::opening_chunks(video::state_after(s, before), data);
        let c = video::video_chunks(video::state_after(s, events), app_url, data);
        seqs::lemma_filter_concat(a + b, c, shows);
        seqs::lemma_filter_concat(a, b, shows);
        lemma_opening_shows_none(video::state_after(s, before), data);
        assert(a.filter(shows) + b.filter(shows) =~= a.filter(shows));
        lemma_video_is_shown(video::state_after(s, events), app_url, data);
        lemma_spoken_concat(a.filter(shows), c.filter(shows));
        lemma_finished_step(app_url, events);
    } else {
        lemma_none_shown(video::chunks_for(s, app_url, events));
    }
}

/// A collected video is the last finished one, under the name that was told
/// with it.
pub proof fn law_the_last_video_is_collected(app_url: Seq<char>, events: Seq<JsonV>)
    ensures
        finished_in(app_url, events).len() > 0 ==> video::content_after(app_url, events)
            == finished_in(app_url, events).last(),
        finished_in(app_url, events).len() == 0 ==> video::content_after(app_url, events).len()
            == 0,
    decreases events.len(),
{
    if events.len() > 0 {
        law_the_last_video_is_collected(app_url, events.drop_last());
        let told = said_of(events.last(), "streamingVideoGenerationResponse"@);
        match video::finished_video(events.last()) {
            Some(v) => {
                assert(video::content_after(app_url, events) == video::shown_html(app_url, v));
            },
            None => {},
        }
    }
}

/// With thinking shown, the progress of a video is told in a thinking part,
/// which ends with the progress of 100. Hidden, nothing of it is told.
pub proof fn law_video_progress_is_told(s: VideoStateV, data: JsonV)
    requires
        s.role_sent,
    ensures
        ({
            let sent = video::opening_chunks(s, data);
            let told = said_of(data, "streamingVideoGenerationResponse"@);
            let progress = json::int_in(json::field_in(told, "progress"@));
            let n: int = if progress is Some {
                progress->0 as int
            } else {
                0
            };
            let words = "正在生成视频中，当前进度"@ + text::signed_of(n) + "%\n"@;
            let first: int = if s.think_opened {
                0
            } else {
                1
            };
            &&& told is None || !s.show_think ==> sent.len() == 0
            &&& told is Some && s.show_think ==> {
                &&& !s.think_opened ==> sent.len() > 0 && sent[0].delta == DeltaV::ThinkOpen
                &&& sent.len() > first && sent[first].delta == DeltaV::Text(words)
                &&& n == 100 ==> sent.len() == first + 2 && sent.last().delta == DeltaV::ThinkClose
                &&& n != 100 ==> sent.len() == first + 1
                &&& video::opened(s, data).think_opened <==> n != 100
            }
        }),
{
}

/// The HTML of a video names where it is found, and its picture where it has one.
pub proof fn law_video_html(video_url: Seq<char>, picture: Seq<char>)
    ensures
        text::occurs(video::html_of(video_url, picture), "src=\""@ + video_url + "\""@),
        picture.len() > 0 ==> text::occurs(
            video::html_of(video_url, picture),
            "poster=\""@ + picture + "\""@,
        ),
        picture.len() == 0 ==> video::html_of(video_url, picture)
            == "<video id=\"video\" controls=\"\" preload=\"none\""@
            + ">\n  <source id=\"mp4\" src=\""@ + video_url + "\" type=\"video/mp4\">\n</video>"@,
{
    reveal_strlit(">\n  <source id=\"mp4\" src=\"");
    reveal_strlit("src=\"");
    reveal_strlit("\"");
    reveal_strlit("\" type=\"video/mp4\">\n</video>");
    reveal_strlit(" poster=\"");
    reveal_strlit("poster=\"");
    reveal_strlit("");
    let open = "<video id=\"video\" controls=\"\" preload=\"none\""@;
    let mid = ">\n  <source id=\"mp4\" src=\""@;
    let close = "\" type=\"video/mp4\">\n</video>"@;
    let q = "\""@;
    let h = video::html_of(video_url, picture);
    let poster = if picture.len() == 0 {
        ""@
    } else {
        " poster=\""@ + picture + q
    };
    assert(h == open + poster + mid + video_url + close);
    let n = mid.len() - 5;
    assert(mid.skip(n) =~= "src=\""@);
    assert(close.take(1) =~= q);
    let a = open + poster + mid.take(n);
    let b = close.skip(1);
    assert(mid =~= mid.take(n) + mid.skip(n));
    assert(close =~= close.take(1) + close.skip(1));
    assert(h =~= a + ("src=\""@ + video_url + q) + b);
    text_laws::law_occurs(h, "src=\""@ + video_url + q, a, b);
    if picture.len() > 0 {
        assert(" poster=\""@.skip(1) =~= "poster=\""@);
        assert(" poster=\""@ =~= " poster=\""@.take(1) + " poster=\""@.skip(1));
        let x = open + " poster=\""@.take(1);
        let y = mid + video_url + close;
        assert(h =~= x + ("poster=\""@ + picture + q) + y);
        text_laws::law_occurs(h, "poster=\""@ + picture + q, x, y);
    } else {
        assert(open + ""@ =~= open);
    }
}

/// Every event that tells the progress of an image that is answered is passed
/// on, in order, and no other.
pub proof fn law_image_progress_is_passed_on(
    n: usize,
    target: Option<usize>,
    return_base64: bool,
    before: Seq<EventV>,
    e: EventV,
)
    ensures
        ({
            let a = image::partial_events(n, target, return_base64, before);
            let b = image::partial_events(n, target, return_base64, before.push(e));
            let img = said_of(e.data, "streamingImageGenerationResponse"@);
            let told = json::int_in(json::field_in(img, "imageIndex"@));
            let index: int = image::progress_index(img->0) as int;
            let wanted = n != 1 || target is None || index == target->0;
            &&& image::partial_events(n, target, return_base64, Seq::empty()).len() == 0
            &&& img is None || !wanted ==> b == a
            &&& img is Some && wanted ==> {
                let d = b.last().data->Object_0;
                &&& b.len() == a.len() + 1 && b.drop_last() == a
                &&& b.last().name == "image_generation.partial_image"@
                &&& d[1] == (
                    "index"@,
                    JsonV::Number(
                        Number::Unsigned(
                            if n == 1 {
                                0
                            } else {
                                index as u64
                            },
                        ),
                    ),
                )
                &&& d[2].0 == "progress"@
                &&& d[3].0 == if return_base64 {
                    "b64_json"@
                } else {
                    "url"@
                }
            }
            &&& img is Some && told is None ==> index == 0
            &&& img is Some && told is Some && 0 <= told->0 <= usize::MAX ==> index == told->0
        }),
{
    assert(before.push(e).drop_last() =~= before);
    let a = image::partial_events(n, target, return_base64, before);
    let b = image::partial_events(n, target, return_base64, before.push(e));
    if b.len() == a.len() + 1 {
        assert(b.drop_last() =~= a);
    }
}

/// The data of an image is what stands behind the first comma, or all of it.
pub proof fn law_image_data(front: Seq<char>, data: Seq<char>)
    requires
        !front.contains(','),
    ensures
        image::data_of(front.push(',') + data) == data,
        image::data_of(front) == front,
{
    reveal_strlit(",");
    let c = ","@;
    let s = front.push(',') + data;
    let n = front.len() as int;
    text::lemma_first_from(s, c, 0);
    assert(s.subrange(n, n + 1) =~= c);
    assert(text::stands_at(s, c, n));
    let i = text::first_of(s, c)->0;
    assert(i == n) by {
        if i < n {
            assert(s.subrange(i, i + 1)[0] == front[i]);
            assert(front.contains(front[i]));
        }
    }
    assert(s.skip(n + 1) =~= data);
    text::lemma_first_from(front, c, 0);
    if let Some(j) = text::first_of(front, c) {
        assert(front.subrange(j, j + 1)[0] == front[j]);
        assert(front.contains(front[j]));
    }
}

/// Where data is asked for, the images whose data is there are answered, in
/// order, each by its data; those without are left out.
pub proof fn law_images_as_data(
    app_url: Seq<char>,
    urls: Seq<Seq<char>>,
    encoded: Seq<Option<Seq<char>>>,
)
    requires
        encoded.len() == urls.len(),
    ensures
        image::images_for(app_url, true, urls, encoded) == encoded.filter(
            |o: Option<Seq<char>>| o is Some,
        ).map_values(|o: Option<Seq<char>>| ImageV::Base64(image::data_of(o->0))),
    decreases urls.len(),
{
    let keep = |o: Option<Seq<char>>| o is Some;
    let turn = |o: Option<Seq<char>>| ImageV::Base64(image::data_of(o->0));
    if urls.len() > 0 {
        let u = urls.drop_last();
        let e = encoded.drop_last();
        law_images_as_data(app_url, u, e);
        lemma_images_prefix(app_url, u, encoded, e);
        assert(e.push(encoded.last()) =~= encoded);
        seqs::lemma_filter_push(e, encoded.last(), keep);
        assert(image::images_for(app_url, true, urls, encoded) =~= encoded.filter(
            keep,
        ).map_values(turn));
    } else {
        reveal(Seq::filter);
        assert(encoded.filter(keep).map_values(turn) =~= Seq::empty());
    }
}

proof fn lemma_images_prefix(
    app_url: Seq<char>,
    urls: Seq<Seq<char>>,
    a: Seq<Option<Seq<char>>>,
    b: Seq<Option<Seq<char>>>,
)
    requires
        a.len() >= urls.len(),
        b.len() >= urls.len(),
        forall|i: int| 0 <= i < urls.len() ==> a[i] == b[i],
    ensures
        image::images_for(app_url, true, urls, a) == image::images_for(app_url, true, urls, b),
    decreases urls.len(),
{
    if urls.len() > 0 {
        lemma_images_prefix(app_url, urls.drop_last(), a, b);
        assert(a[urls.len() - 1] == b[urls.len() - 1]);
    }
}

/// A finished image is told under its index, by its data or by its URL.
pub proof fn law_finished_images(index: usize, data: Seq<char>)
    ensures
        ({
            let b = image::completed_json(index, ImageV::Base64(data))->Object_0;
            let u = image::completed_json(index, ImageV::Url(data))->Object_0;
            &&& b[0] == ("type"@, JsonV::Str("image_generation.completed"@)) && u[0] == b[0]
            &&& b[1] == ("index"@, JsonV::Number(Number::Unsigned(index as u64))) && u[1] == b[1]
            &&& b.last() == ("b64_json"@, JsonV::Str(data))
            &&& u.last() == ("url"@, JsonV::Str(data))
            &&& b.len() == 4 && u.len() == 4
        }),
{
}

/// The URLs under each of the known names are found, in objects and lists of
/// any depth, and those that were found before stay.
pub proof fn law_urls_are_found(
    fields: Seq<(Seq<char>, JsonV)>,
    items: Seq<JsonV>,
    out: Seq<Seq<char>>,
    i: int,
    url: Seq<char>,
)
    requires
        url.len() > 0,
    ensures
        out.is_prefix_of(base::gathered(JsonV::Object(fields), out)),
        out.is_prefix_of(base::gathered(JsonV::Array(items), out)),
        0 <= i < fields.len() && (fields[i].0 == "generatedImageUrls"@ || fields[i].0
            == "imageUrls"@ || fields[i].0 == "imageURLs"@) && (fields[i].1 == JsonV::Str(url) || (
        fields[i].1 matches JsonV::Array(list) && list.contains(JsonV::Str(url))))
            ==> base::gathered(JsonV::Object(fields), out).contains(url),
        0 <= i < fields.len() && fields[i].0 != "generatedImageUrls"@ && fields[i].0
            != "imageUrls"@ && fields[i].0 != "imageURLs"@ && (forall|acc: Seq<Seq<char>>|
            (#[trigger] base::gathered(fields[i].1, acc)).contains(url)) ==> base::gathered(
            JsonV::Object(fields),
            out,
        ).contains(url),
        0 <= i < items.len() && (forall|acc: Seq<Seq<char>>|
            (#[trigger] base::gathered(items[i], acc)).contains(url)) ==> base::gathered(
            JsonV::Array(items),
            out,
        ).contains(url),
{
    lemma_fields_found(fields, out, i, url);
    lemma_items_found(items, out, i, url);
}

proof fn lemma_kept(a: Seq<Seq<char>>, b: Seq<Seq<char>>, url: Seq<char>)
    requires
        a.is_prefix_of(b),
    ensures
        a.contains(url) ==> b.contains(url),
{
    if a.contains(url) {
        let j = choose|j: int| 0 <= j < a.len() && a[j] == url;
        assert(b[j] == url);
    }
}

proof fn lemma_gathered_grows(v: JsonV, out: Seq<Seq<char>>)
    ensures
        out.is_prefix_of(base::gathered(v, out)),
    decreases v, 0int,
{
    match v {
        JsonV::Object(fields) => {
            lemma_fields_grow(fields, out);
        },
        JsonV::Array(items) => {
            lemma_items_grow(items, out);
        },
        _ => {},
    }
}

proof fn lemma_fields_grow(f: Seq<(Seq<char>, JsonV)>, out: Seq<Seq<char>>)
    ensures
        out.is_prefix_of(base::gathered_fields(f, out)),
    decreases f, 1int,
{
    if f.len() > 0 {
        lemma_fields_grow(f.drop_last(), out);
        let acc = base::gathered_fields(f.drop_last(), out);
        lemma_gathered_grows(f[f.len() - 1].1, acc);
        lemma_field_urls(acc, f[f.len() - 1].1, Seq::empty());
    }
}

proof fn lemma_items_grow(v: Seq<JsonV>, out: Seq<Seq<char>>)
    ensures
        out.is_prefix_of(base::gathered_items(v, out)),
    decreases v, 1int,
{
    if v.len() > 0 {
        lemma_items_grow(v.drop_last(), out);
        lemma_gathered_grows(v[v.len() - 1], base::gathered_items(v.drop_last(), out));
    }
}

proof fn lemma_field_urls(out: Seq<Seq<char>>, value: JsonV, url: Seq<char>)
    ensures
        out.is_prefix_of(base::with_field_urls(out, value)),
        url.len() > 0 && (value == JsonV::Str(url) || (value matches JsonV::Array(list)
            && list.contains(JsonV::Str(url)))) ==> base::with_field_urls(out, value).contains(url),
{
    match value {
        JsonV::Array(list) => {
            lemma_urls(out, list, url);
        },
        JsonV::Str(u) => {
            text_laws::law_new_texts(out, u);
        },
        _ => {},
    }
}

proof fn lemma_urls(out: Seq<Seq<char>>, items: Seq<JsonV>, url: Seq<char>)
    ensures
        out.is_prefix_of(base::with_urls(out, items)),
        url.len() > 0 && items.contains(JsonV::Str(url)) ==> base::with_urls(out, items).contains(
            url,
        ),
    decreases items.len(),
{
    if items.len() > 0 {
        let before = items.drop_last();
        lemma_urls(out, before, url);
        let acc = base::with_urls(out, before);
        match items.last().text() {
            Some(u) => {
                text_laws::law_new_texts(acc, u);
            },
            None => {},
        }
        lemma_kept(acc, base::with_urls(out, items), url);
        if items.contains(JsonV::Str(url)) {
            let j = choose|j: int| 0 <= j < items.len() && items[j] == JsonV::Str(url);
            if j < before.len() {
                assert(before[j] == JsonV::Str(url));
            }
        }
    }
}

proof fn lemma_fields_found(
    f: Seq<(Seq<char>, JsonV)>,
    out: Seq<Seq<char>>,
    i: int,
    url: Seq<char>,
)
    requires
        url.len() > 0,
    ensures
        out.is_prefix_of(base::gathered_fields(f, out)),
        0 <= i < f.len() && base::is_url_key(f[i].0) && (f[i].1 == JsonV::Str(url) || (
        f[i].1 matches JsonV::Array(list) && list.contains(JsonV::Str(url))))
            ==> base::gathered_fields(f, out).contains(url),
        0 <= i < f.len() && !base::is_url_key(f[i].0) && (forall|acc: Seq<Seq<char>>|
            (#[trigger] base::gathered(f[i].1, acc)).contains(url)) ==> base::gathered_fields(
            f,
            out,
        ).contains(url),
    decreases f.len(),
{
    lemma_fields_grow(f, out);
    if f.len() > 0 {
        let before = f.drop_last();
        lemma_fields_found(before, out, i, url);
        let acc = base::gathered_fields(before, out);
        lemma_field_urls(acc, f[f.len() - 1].1, url);
        lemma_gathered_grows(f[f.len() - 1].1, acc);
        lemma_kept(acc, base::gathered_fields(f, out), url);
        if 0 <= i < before.len() {
            assert(before[i] == f[i]);
        }
    }
}

proof fn lemma_items_found(v: Seq<JsonV>, out: Seq<Seq<char>>, i: int, url: Seq<char>)
    ensures
        out.is_prefix_of(base::gathered_items(v, out)),
        0 <= i < v.len() && (forall|acc: Seq<Seq<char>>|
            (#[trigger] base::gathered(v[i], acc)).contains(url)) ==> base::gathered_items(
            v,
            out,
        ).contains(url),
    decreases v.len(),
{
    lemma_items_grow(v, out);
    if v.len() > 0 {
        let before = v.drop_last();
        lemma_items_found(before, out, i, url);
        let acc = base::gathered_items(before, out);
        lemma_gathered_grows(v[v.len() - 1], acc);
        lemma_kept(acc, base::gathered_items(v, out), url);
        if 0 <= i < before.len() {
            assert(before[i] == v[i]);
        }
    }
}

/// A response without a name gets one: `chatcmpl-` and 32 hexadecimal digits.
pub proof fn law_made_up_names(s: Seq<char>, i: int)
    requires
        base::is_chat_id(s),
        0 <= i < 32,
    ensures
        s.len() == 41,
        s.take(9) == "chatcmpl-"@,
        ({
            let c = s[9 + i] as int;
            48 <= c <= 57 || 97 <= c <= 102
        }),
{
    reveal_strlit("chatcmpl-");
    let u = choose|u: Seq<char>| #[trigger] outside::is_simple_uuid(u) && s == "chatcmpl-"@ + u;
    assert(s.take(9) =~= "chatcmpl-"@);
    assert(s[9 + i] == u[i]);
}

/// A chunk names its response, its model and its time, and holds one choice
/// with what is said; only the last says that the answer is complete.
pub proof fn law_chunks_as_json(model: Seq<char>, created: i64, id: Seq<char>, c: ChunkV)
    ensures
        ({
            let f = base::chunk_json(model, created, id, c)->Object_0;
            let choices = f[5].1->Array_0;
            let choice = choices[0]->Object_0;
            &&& f.len() == 6
            &&& f[0] == ("id"@, JsonV::Str(id))
            &&& f[1] == ("object"@, JsonV::Str("chat.completion.chunk"@))
            &&& f[2] == ("created"@, JsonV::Number(Number::of_int(created)))
            &&& f[3] == ("model"@, JsonV::Str(model))
            &&& f[4] == ("system_fingerprint"@, JsonV::Str(c.fingerprint))
            &&& f[5].0 == "choices"@ && choices.len() == 1
            &&& choice[0] == ("index"@, JsonV::Number(Number::Unsigned(0)))
            &&& choice[1].0 == "delta"@
            &&& choice[3] == (
                "finish_reason"@,
                if c.delta is Stop {
                    JsonV::Str("stop"@)
                } else {
                    JsonV::Null
                },
            )
            &&& c.delta matches DeltaV::Text(t) ==> choice[1].1 == JsonV::Object(
                seq![("content"@, JsonV::Str(t))],
            )
            &&& c.delta is Role ==> choice[1].1->Object_0[0] == (
                "role"@,
                JsonV::Str("assistant"@),
            )
            &&& c.delta is ThinkOpen ==> choice[1].1 == JsonV::Object(
                seq![("content"@, JsonV::Str("<think>\n"@))],
            )
            &&& c.delta is ThinkClose ==> choice[1].1 == JsonV::Object(
                seq![("content"@, JsonV::Str("</think>\n"@))],
            )
        }),
{
}

/// A collected answer holds what was collected, under its name.
pub proof fn law_collected_answers(model: Seq<char>, created: i64, c: chat::CollectedV)
    ensures
        ({
            let f = chat::completion_json(model, created, c)->Object_0;
            let choices = f[5].1->Array_0;
            let choice = choices[0]->Object_0;
            &&& f[0] == ("id"@, JsonV::Str(c.response_id))
            &&& f[1] == ("object"@, JsonV::Str("chat.completion"@))
            &&& f[3] == ("model"@, JsonV::Str(model))
            &&& f[4] == ("system_fingerprint"@, JsonV::Str(c.fingerprint))
            &&& choices.len() == 1 && choice[0] == (
                "index"@,
                JsonV::Number(Number::Unsigned(0)),
            )
            &&& choice[1].1->Object_0[1] == ("content"@, JsonV::Str(c.content))
            &&& choice[2] == ("finish_reason"@, JsonV::Str("stop"@))
        }),
        ({
            let f = video::video_json(model, created, c.response_id, c.content)->Object_0;
            let choices = f[4].1->Array_0;
            &&& f[0] == ("id"@, JsonV::Str(c.response_id))
            &&& choices.len() == 1
            &&& choices[0]->Object_0[1].1->Object_0[1] == ("content"@, JsonV::Str(c.content))
        }),
{
}

/// A stream of images answers the images of every event that tells no
/// progress, behind those of the events before it.
pub proof fn law_events_bring_their_images(
    app_url: Seq<char>,
    return_base64: bool,
    before: Seq<EventV>,
    e: EventV,
)
    ensures
        ({
            let a = image::final_images_of(app_url, return_base64, before);
            let b = image::final_images_of(app_url, return_base64, before.push(e));
            let brought = match said_of(e.data, "modelResponse"@) {
                Some(mr) => image::images_for(
                    app_url,
                    return_base64,
                    base::gathered(mr, Seq::empty()),
                    e.encoded,
                ),
                None => Seq::empty(),
            };
            &&& image::final_images_of(app_url, return_base64, Seq::empty()).len() == 0
            &&& said_of(e.data, "streamingImageGenerationResponse"@) is Some ==> b == a
            &&& said_of(e.data, "streamingImageGenerationResponse"@) is None ==> b == a + brought
            &&& image::images_of(app_url, return_base64, before.push(e)) == image::images_of(
                app_url,
                return_base64,
                before,
            ) + brought
        }),
{
    assert(before.push(e).drop_last() =~= before);
}

/// A stream of a video says first who is speaking, once, and last that the
/// answer is complete; a thinking part that is open is closed before.
pub proof fn law_video_role_first_stop_last(s: VideoStateV, data: JsonV)
    ensures
        ({
            let sent = video::opening_chunks(s, data);
            let id = json::text_in(said_of(data, "responseId"@));
            &&& video::opened(s, data).role_sent
            &&& video::opened(s, data).show_think == s.show_think
            &&& !s.role_sent ==> sent.len() > 0 && sent[0].delta is Role
            &&& forall|i: int|
                0 <= i < sent.len() && (i > 0 || s.role_sent) ==> (#[trigger] sent[i]).delta
                    !is Role
            &&& id is Some ==> video::opened(s, data).response_id == id
            &&& id is None ==> video::opened(s, data).response_id == s.response_id
            &&& forall|i: int|
                0 <= i < sent.len() ==> (#[trigger] sent[i]).id == video::opened(
                    s,
                    data,
                ).response_id && sent[i].fingerprint.len() == 0
        }),
        ({
            let end = video::ending(s);
            &&& end.last().delta is Stop
            &&& s.think_opened ==> end.len() == 2 && end[0].delta is ThinkClose
            &&& !s.think_opened ==> end.len() == 1
        }),
{
    reveal_strlit("");
}

/// A collected video is named as the last event with a progress of 100 says,
/// whether or not that brings the video.
pub proof fn law_names_of_videos(before: Seq<JsonV>, data: JsonV)
    ensures
        ({
            let told = said_of(data, "streamingVideoGenerationResponse"@);
            let id = json::text_in(said_of(data, "responseId"@));
            let done = json::int_in(json::field_in(told, "progress"@)) == Some(100i64);
            &&& video::id_after(Seq::empty()).len() == 0
            &&& done && id is Some ==> video::id_after(before.push(data)) == id->0
            &&& done && id is None ==> video::id_after(before.push(data)).len() == 0
            &&& !done ==> video::id_after(before.push(data)) == video::id_after(before)
        }),
{
    assert(before.push(data).drop_last() =~= before);
}

} // verus!
