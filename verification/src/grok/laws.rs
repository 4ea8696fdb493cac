//! What is promised of calls to the upstream service and of how its answers
//! are read.
use vstd::prelude::*;
use vstd::utf8::*;

use crate::grok::batch;
use crate::grok::grpc_web;
use crate::grok::grpc_web::FrameV;
use crate::grok::headers;
use crate::grok::media;
use crate::grok::media::PostKind;
use crate::grok::nsfw;
use crate::grok::nsfw::{ResultV, Way};
use crate::grok::retry;
use crate::grok::usage;
use crate::json;
use crate::json::{JsonV, Number};
use crate::outside;
use crate::seqs;
use crate::text;
use crate::text_laws;

verus! {

/// A failed call is repeated as long as attempts are left and its status is
/// one of those that are worth it.
pub proof fn law_which_calls_are_repeated(
    attempt: u32,
    max_retry: u32,
    codes: Seq<u16>,
    status: u16,
)
    ensures
        retry::retries(attempt, max_retry, codes, status) <==> attempt + 1 <= max_retry && exists|
            i: int,
        |
            0 <= i < codes.len() && #[trigger] codes[i] == status,
{
    if codes.contains(status) {
        let i = choose|i: int| 0 <= i < codes.len() && codes[i] == status;
        assert(codes[i] == status);
    }
}

/// Work is cut into pieces of the full size; only the last may be smaller.
pub proof fn law_full_batches(items: Seq<Seq<char>>, size: int, i: int)
    requires
        size >= 1,
        0 <= i < batch::cut(items, size).len() - 1,
    ensures
        batch::cut(items, size)[i].len() == size,
    decreases items.len(),
{
    if items.len() > size {
        if i > 0 {
            assert(batch::cut(items, size)[i] == batch::cut(items.skip(size), size)[i - 1]);
            law_full_batches(items.skip(size), size, i - 1);
        }
    }
}

/// A size of zero counts as one.
pub proof fn law_sizes(n: usize)
    ensures
        n >= 1 ==> batch::at_least_one(n) == n,
        batch::at_least_one(0) == 1,
{
}

/// A message is framed by a zero byte and its length in four bytes, the
/// highest first.
pub proof fn law_frames_are_written(data: Seq<u8>)
    requires
        data.len() < 0x1_0000_0000,
    ensures
        ({
            let f = grpc_web::data_frame(data);
            &&& f.len() == data.len() + 5
            &&& f[0] == 0
            &&& f[1] * 0x100_0000 + f[2] * 0x1_0000 + f[3] * 0x100 + f[4] == data.len()
            &&& f.skip(5) == data
        }),
{
    let n = data.len() as int;
    let f = grpc_web::data_frame(data);
    assert(f.skip(5) =~= data);
    assert(n / 0x100_0000 % 0x100 == n / 0x100_0000);
    assert(n / 0x1_0000 == n / 0x100_0000 * 0x100 + n / 0x1_0000 % 0x100);
    assert(n / 0x100 == n / 0x1_0000 * 0x100 + n / 0x100 % 0x100);
    assert(n == n / 0x100 * 0x100 + n % 0x100);
}

/// A body is read frame by frame, from its start, as far as its frames are whole.
pub proof fn law_frames_are_read(flag: u8, payload: Seq<u8>, rest: Seq<u8>, short: Seq<u8>)
    requires
        payload.len() < 0x1_0000_0000,
        short.len() < 5,
    ensures
        grpc_web::frames_from(
            grpc_web::data_frame(payload).update(0, flag) + rest,
            0,
        ) == seq![FrameV { flag, payload }] + grpc_web::frames_from(rest, 0),
        grpc_web::frames_from(short, 0).len() == 0,
{
    law_frames_are_written(payload);
    let f = grpc_web::data_frame(payload).update(0, flag);
    let d = f + rest;
    assert(grpc_web::be32_at(d, 1) == payload.len());
    assert(d.subrange(5, (5 + payload.len()) as int) =~= payload) by {
        assert(grpc_web::data_frame(payload).skip(5) =~= payload);
        assert forall|i: int| 0 <= i < payload.len() implies d[5 + i] == payload[i] by {
            assert(grpc_web::data_frame(payload).skip(5)[i] == payload[i]);
        }
    }
    lemma_frames_shift(f, rest, 0);
}

proof fn lemma_frames_shift(a: Seq<u8>, b: Seq<u8>, i: int)
    requires
        0 <= i,
    ensures
        grpc_web::frames_from(a + b, a.len() + i) == grpc_web::frames_from(b, i),
    decreases b.len() - i,
{
    let d = a + b;
    if i + 5 <= b.len() {
        assert(grpc_web::be32_at(d, a.len() + i + 1) == grpc_web::be32_at(b, i + 1));
        let n = grpc_web::be32_at(b, i + 1);
        if i + 5 + n <= b.len() {
            assert(d.subrange(a.len() + i + 5, a.len() + i + 5 + n) =~= b.subrange(
                i + 5,
                i + 5 + n,
            ));
            assert(d[a.len() + i] == b[i]);
            lemma_frames_shift(a, b, i + 5 + n);
        }
    }
}

/// Frames whose first bit is set are trailers, and all others are messages;
/// none is lost.
pub proof fn law_messages_and_trailers(frames: Seq<FrameV>)
    ensures
        grpc_web::messages_in(frames) == frames.filter(|f: FrameV| f.flag < 128).map_values(
            |f: FrameV| f.payload,
        ),
        grpc_web::trailer_blocks(frames) == frames.filter(|f: FrameV| f.flag >= 128).map_values(
            |f: FrameV| f.payload,
        ),
    decreases frames.len(),
{
    let data = |f: FrameV| f.flag < 128;
    let trailer = |f: FrameV| f.flag >= 128;
    let content = |f: FrameV| f.payload;
    if frames.len() > 0 {
        let before = frames.drop_last();
        law_messages_and_trailers(before);
        assert(before.push(frames.last()) =~= frames);
        seqs::lemma_filter_push(before, frames.last(), data);
        seqs::lemma_filter_push(before, frames.last(), trailer);
        assert(grpc_web::messages_in(frames) =~= frames.filter(data).map_values(content));
        assert(grpc_web::trailer_blocks(frames) =~= frames.filter(trailer).map_values(content));
    } else {
        reveal(Seq::filter);
        assert(frames.filter(data).map_values(content) =~= Seq::empty());
        assert(frames.filter(trailer).map_values(content) =~= Seq::empty());
    }
}

/// A trailer is a name and a value around its first colon, without white space.
pub proof fn law_trailer_lines(name: Seq<char>, value: Seq<char>)
    requires
        !name.contains(':'),
    ensures
        grpc_web::halves_of(name.push(':') + value) == Some(
            (text::trim_of(name), text::trim_of(value)),
        ),
        grpc_web::halves_of(name) is None,
{
    reveal_strlit(":");
    let c = ":"@;
    let s = name.push(':') + value;
    let n = name.len() as int;
    text::lemma_first_from(s, c, 0);
    assert(s.subrange(n, n + 1) =~= c);
    assert(text::stands_at(s, c, n));
    let i = text::first_of(s, c)->0;
    assert(i == n) by {
        if i < n {
            assert(s.subrange(i, i + 1)[0] == name[i]);
            assert(name.contains(name[i]));
        }
    }
    assert(s.take(n) =~= name);
    assert(s.skip(n + 1) =~= value);
    text::lemma_first_from(name, c, 0);
    if let Some(j) = text::first_of(name, c) {
        assert(name.subrange(j, j + 1)[0] == name[j]);
        assert(name.contains(name[j]));
    }
}

/// Of several trailers with one name the last one counts; all others stay.
pub proof fn law_the_last_trailer_counts(
    lines: Seq<Seq<char>>,
    line: Seq<char>,
    key: Seq<char>,
)
    ensures
        ({
            let before = grpc_web::trailers_in(lines);
            let after = grpc_web::trailers_in(lines.push(line));
            match grpc_web::trailer_of(line) {
                Some(kv) => {
                    &&& after.contains_key(kv.0) && after[kv.0] == kv.1
                    &&& key != kv.0 ==> (after.contains_key(key) <==> before.contains_key(key)) && (
                    before.contains_key(key) ==> after[key] == before[key])
                },
                None => after == before,
            }
        }),
{
    assert(lines.push(line).drop_last() =~= lines);
}

/// Only the message among the trailers is written with percent signs; what
/// cannot be read so stays as it is.
pub proof fn law_trailer_values(key: Seq<char>, value: Seq<char>, decoded: Seq<char>)
    ensures
        grpc_web::kept_value("grpc-message"@, value, Some(decoded)) == decoded,
        grpc_web::kept_value("grpc-message"@, value, None) == value,
        key != "grpc-message"@ ==> grpc_web::kept_value(key, value, Some(decoded)) == value,
{
}

/// What the headers say counts where the trailers say nothing.
pub proof fn law_headers_fill_in(
    map: Map<Seq<char>, Seq<char>>,
    key: Seq<char>,
    value: Seq<char>,
    other: Seq<char>,
)
    requires
        other != key,
    ensures
        map.contains_key(key) ==> grpc_web::filled(map, key, Some(value)) == map,
        !map.contains_key(key) ==> grpc_web::filled(map, key, Some(value))[key] == value,
        grpc_web::filled(map, key, Some(value)).contains_key(key),
        grpc_web::filled(map, key, None) == map,
        map.contains_key(other) ==> grpc_web::filled(map, key, Some(value))[other] == map[other],
        grpc_web::filled(map, key, Some(value)).contains_key(other) <==> map.contains_key(other),
{
}

/// The status is the number among the trailers, and -1 where there is none.
pub proof fn law_status_codes(map: Map<Seq<char>, Seq<char>>, code: i32)
    ensures
        map.contains_key("grpc-status"@) && map["grpc-status"@] == text::signed_of(code as int)
            ==> grpc_web::code_in(map) == code,
        !map.contains_key("grpc-status"@) ==> grpc_web::code_in(map) == -1,
{
    text_laws::law_numbers_read_back(code, Seq::empty(), 0);
}

/// A status stands for an HTTP status.
pub proof fn law_http_statuses(code: i32)
    ensures
        grpc_web::http_of(0) == 200,
        grpc_web::http_of(16) == 401,
        grpc_web::http_of(7) == 403,
        grpc_web::http_of(8) == 429,
        grpc_web::http_of(4) == 504,
        grpc_web::http_of(14) == 503,
        code != 0 && code != 16 && code != 7 && code != 8 && code != 4 && code != 14
            ==> grpc_web::http_of(code) == 502,
{
}

/// White space in a text body is left out before it is decoded.
pub proof fn law_compact(body: Seq<u8>)
    ensures
        grpc_web::compact_of(body) == body.filter(
            |b: u8| b != 9 && b != 10 && b != 13 && b != 32,
        ),
    decreases body.len(),
{
    let keep = |b: u8| b != 9 && b != 10 && b != 13 && b != 32;
    reveal(Seq::filter);
    if body.len() > 0 {
        law_compact(body.drop_last());
    } else {
        assert(body.filter(keep) =~= body);
    }
}

/// A body is taken for text where it is called so, or where its first 2,048
/// bytes look like it; it is decoded where that is possible, and stays as it
/// is otherwise.
pub proof fn law_text_bodies(body: Seq<u8>, kind: Option<Seq<char>>, i: int)
    ensures
        ({
            let plain = grpc_web::compact_of(body);
            let r = grpc_web::binary_of(body, kind);
            let readable = forall|k: int| 0 <= k < plain.len() ==> outside::is_base64_byte(
                #[trigger] plain[k],
            );
            let looks = forall|k: int|
                0 <= k < body.len() && k < 2048 ==> outside::is_base64_byte(#[trigger] body[k])
                    || body[k] == 10 || body[k] == 13;
            let called = kind is Some && text::occurs(
                outside::lowercase_of(kind->0),
                "grpc-web-text"@,
            );
            &&& !looks && !called && !text::occurs(""@, "grpc-web-text"@) ==> r == body
            &&& (looks || called) && plain.len() > 0 && readable ==> (match outside::base64_decoded(
                plain,
            ) {
                Some(d) => r == d,
                None => r == body,
            })
            &&& plain.len() > 0 && !readable ==> r == body
        }),
{
    let plain = grpc_web::compact_of(body);
    let readable = forall|k: int| 0 <= k < plain.len() ==> outside::is_base64_byte(
        #[trigger] plain[k],
    );
    let looks = forall|k: int|
        0 <= k < body.len() && k < 2048 ==> outside::is_base64_byte(#[trigger] body[k])
            || body[k] == 10 || body[k] == 13;
    assert(looks <==> grpc_web::sniffs_base64(body)) by {
        if looks {
            assert forall|k: int| 0 <= k < body.len() && k < 2048 implies grpc_web::looks_base64(
                #[trigger] body[k],
            ) by {}
        }
    }
    if !readable {
        let k = choose|k: int| 0 <= k < plain.len() && !outside::is_base64_byte(#[trigger] plain[k]);
        assert(!outside::is_base64_byte(plain[k]));
    }
}

/// The text holds the word, in any case.
pub open spec fn has_word(s: Seq<char>, word: Seq<char>) -> bool {
    exists|a: Seq<char>, b: Seq<char>| text::ascii_lower_of(s) == #[trigger] (a + word + b)
}

/// The message or the error of an answer holds one of the words, in any case.
pub open spec fn tells(r: ResultV, words: Seq<Seq<char>>) -> bool {
    exists|k: int|
        0 <= k < words.len() && ((r.grpc_message is Some && has_word(
            r.grpc_message->0,
            #[trigger] words[k],
        )) || (r.error is Some && has_word(r.error->0, words[k])))
}

proof fn lemma_mentions(s: Seq<char>, word: Seq<char>)
    ensures
        nsfw::mentions(s, word) <==> has_word(s, word),
{
    let low = text::ascii_lower_of(s);
    text_laws::law_occurs(low, word, Seq::empty(), Seq::empty());
    if has_word(s, word) {
        let (a, b) = choose|a: Seq<char>, b: Seq<char>| low == #[trigger] (a + word + b);
        text_laws::law_occurs(low, word, a, b);
    }
}

/// Which refusals call for which other way of asking. They go by the status
/// and by what is told: a missing field mask, a bad path in it, a message that
/// could not be read, features that are not accepted, or missing rights.
pub proof fn law_refusals(r: ResultV)
    ensures
        nsfw::wants_other_field(r) <==> !r.success && r.grpc_status == Some(3i32) && tells(
            r,
            seq!["field mask must be provided"@],
        ),
        nsfw::wants_other_path(r) <==> !r.success && r.grpc_status == Some(3i32) && tells(
            r,
            seq!["invalid field mask"@, "fieldmask"@, "cannot find field"@, "unknown path"@],
        ),
        nsfw::wants_age(r) <==> !r.success && r.grpc_status == Some(3i32) && tells(
            r,
            seq![
                "invalid field: features"@,
                "field mask must be provided"@,
                "invalid field"@,
            ],
        ),
        nsfw::wants_legacy(r) <==> !r.success && r.grpc_status == Some(13i32) && tells(
            r,
            seq![
                "failed to decode protobuf"@,
                "invalid wire type"@,
                "updateuserfeaturecontrolsrequest.features"@,
            ],
        ),
        nsfw::wants_fallback(r) <==> !r.success && (r.http_status == 401 || r.http_status == 403
            || r.grpc_status == Some(7i32) || r.grpc_status == Some(16i32) || tells(
            r,
            seq!["unauthorized"@, "forbidden"@, "auth"@, "permission"@, "token"@],
        )),
{
    let a = seq!["field mask must be provided"@];
    let b = seq!["invalid field mask"@, "fieldmask"@, "cannot find field"@, "unknown path"@];
    let c = seq!["invalid field: features"@, "field mask must be provided"@, "invalid field"@];
    let d = seq![
        "failed to decode protobuf"@,
        "invalid wire type"@,
        "updateuserfeaturecontrolsrequest.features"@,
    ];
    let e = seq!["unauthorized"@, "forbidden"@, "auth"@, "permission"@, "token"@];
    lemma_tells(r, a, |s: Seq<char>| nsfw::mask_missing(s));
    lemma_tells(r, b, |s: Seq<char>| nsfw::bad_mask_path(s));
    lemma_tells(r, c, |s: Seq<char>| nsfw::features_rejected(s));
    lemma_tells(r, d, |s: Seq<char>| nsfw::decode_error(s));
    lemma_tells(r, e, |s: Seq<char>| nsfw::auth_related(s));
    assert(forall|s: Seq<char>| #[trigger] any_of(s, a) == nsfw::mask_missing(s)) by {
        assert forall|s: Seq<char>| #[trigger] any_of(s, a) == nsfw::mask_missing(s) by {
            lemma_any(s, a);
        }
    }
    assert forall|s: Seq<char>| #[trigger] any_of(s, b) == nsfw::bad_mask_path(s) by {
        lemma_any(s, b);
    }
    assert forall|s: Seq<char>| #[trigger] any_of(s, c) == nsfw::features_rejected(s) by {
        lemma_any(s, c);
    }
    assert forall|s: Seq<char>| #[trigger] any_of(s, d) == nsfw::decode_error(s) by {
        lemma_any(s, d);
    }
    assert forall|s: Seq<char>| #[trigger] any_of(s, e) == nsfw::auth_related(s) by {
        lemma_any(s, e);
    }
}

/// The text holds one of the words.
spec fn any_of(s: Seq<char>, words: Seq<Seq<char>>) -> bool {
    exists|k: int| 0 <= k < words.len() && nsfw::mentions(s, #[trigger] words[k])
}

proof fn lemma_any(s: Seq<char>, words: Seq<Seq<char>>)
    ensures
        words.len() == 1 ==> (any_of(s, words) <==> nsfw::mentions(s, words[0])),
        words.len() == 3 ==> (any_of(s, words) <==> nsfw::mentions(s, words[0]) || nsfw::mentions(
            s,
            words[1],
        ) || nsfw::mentions(s, words[2])),
        words.len() == 4 ==> (any_of(s, words) <==> nsfw::mentions(s, words[0]) || nsfw::mentions(
            s,
            words[1],
        ) || nsfw::mentions(s, words[2]) || nsfw::mentions(s, words[3])),
        words.len() == 5 ==> (any_of(s, words) <==> nsfw::mentions(s, words[0]) || nsfw::mentions(
            s,
            words[1],
        ) || nsfw::mentions(s, words[2]) || nsfw::mentions(s, words[3]) || nsfw::mentions(
            s,
            words[4],
        )),
{
}

proof fn lemma_tells(r: ResultV, words: Seq<Seq<char>>, what: spec_fn(Seq<char>) -> bool)
    ensures
        (forall|s: Seq<char>| #[trigger] any_of(s, words) == what(s)) ==> (tells(r, words)
            <==> nsfw::says(r, what)),
{
    if forall|s: Seq<char>| #[trigger] any_of(s, words) == what(s) {
        assert forall|s: Seq<char>, k: int| 0 <= k < words.len() implies nsfw::mentions(
            s,
            #[trigger] words[k],
        ) == #[trigger] has_word(s, words[k]) by {
            lemma_mentions(s, words[k]);
        }
        if tells(r, words) {
            let k = choose|k: int|
                0 <= k < words.len() && ((r.grpc_message is Some && has_word(
                    r.grpc_message->0,
                    #[trigger] words[k],
                )) || (r.error is Some && has_word(r.error->0, words[k])));
            if r.grpc_message is Some && has_word(r.grpc_message->0, words[k]) {
                assert(nsfw::mentions(r.grpc_message->0, words[k]));
                assert(any_of(r.grpc_message->0, words));
            } else {
                assert(nsfw::mentions(r.error->0, words[k]));
                assert(any_of(r.error->0, words));
            }
        }
        if nsfw::says(r, what) {
            if r.grpc_message is Some && what(r.grpc_message->0) {
                let s = r.grpc_message->0;
                assert(any_of(s, words));
                let k = choose|k: int| 0 <= k < words.len() && nsfw::mentions(s, #[trigger] words[k]);
                assert(has_word(s, words[k]));
            } else {
                let s = r.error->0;
                assert(any_of(s, words));
                let k = choose|k: int| 0 <= k < words.len() && nsfw::mentions(s, #[trigger] words[k]);
                assert(has_word(s, words[k]));
            }
        }
    }
}

/// The ways are tried in turn, each at most once and only where the refusal
/// calls for it: another field, another path, the old message, and the age.
pub proof fn law_the_next_way(after: Way, r: ResultV)
    ensures
        r.success ==> nsfw::next_way(after, r) is None,
        after == Way::Primary && nsfw::wants_other_field(r) ==> nsfw::next_way(after, r) == Some(
            Way::OtherField,
        ),
        (after == Way::Primary || after == Way::OtherField) && !(after == Way::Primary
            && nsfw::wants_other_field(r)) && nsfw::wants_other_path(r) ==> nsfw::next_way(after, r)
            == Some(Way::OtherPath),
        after != Way::Legacy && after != Way::Age && !r.success && r.grpc_status == Some(13i32)
            && nsfw::wants_legacy(r) ==> nsfw::next_way(after, r) == Some(Way::Legacy),
        after == Way::OtherPath && nsfw::wants_age(r) ==> nsfw::next_way(after, r) == Some(
            Way::Age,
        ),
        after == Way::Legacy ==> (nsfw::next_way(after, r) == Some(Way::Age) <==> nsfw::wants_age(
            r,
        )),
        after == Way::Age ==> nsfw::next_way(after, r) is None,
{
}

/// The messages that are sent: the switched features, and the mask that names
/// them by field number and path.
pub proof fn law_messages_are_built(number: u8, path: Seq<char>)
    requires
        number < 32,
        encode_utf8(path).len() <= 253,
    ensures
        ({
            let p = encode_utf8(path);
            let m = nsfw::payload_of(number, path);
            &&& m.len() == 10 + p.len()
            &&& m[0] == 10 && m[1] == 4 && m[2] == 8 && m[3] == 1 && m[4] == 16 && m[5] == 1
            &&& m[6] == number * 8 + 2 && m[7] == p.len() + 2 && m[8] == 10 && m[9] == p.len()
            &&& m.skip(10) == p
        }),
        nsfw::message_for(Way::Primary) == Some(nsfw::payload_of(2, "features"@)),
        nsfw::message_for(Way::OtherField) == Some(nsfw::payload_of(3, "features"@)),
        nsfw::message_for(Way::OtherPath) == Some(nsfw::payload_of(2, "features.enabled"@)),
        nsfw::message_for(Way::Legacy) == Some(seq![8u8, 1u8, 16u8, 1u8]),
        nsfw::message_for(Way::Age) is None,
{
    assert(nsfw::payload_of(number, path).skip(10) =~= encode_utf8(path));
}

/// An answer counts as a success where its HTTP status is 200 and its own
/// status is 0 or missing.
pub proof fn law_which_answers_succeed(
    status: u16,
    content_type: Seq<char>,
    status_header: Option<Seq<char>>,
    message_header: Option<Seq<char>>,
    body: Seq<u8>,
)
    ensures
        ({
            let r = nsfw::result_of(status, content_type, status_header, message_header, body);
            let code = grpc_web::code_in(
                nsfw::answer_trailers(body, content_type, status_header, message_header),
            );
            &&& r.success <==> status == 200 && (code == 0 || code == -1)
            &&& r.http_status == status
            &&& r.success <==> r.error is None
            &&& status == 200 ==> r.grpc_status == Some(code)
        }),
        nsfw::age_result(status, content_type, Seq::empty()).success <==> status == 200,
        nsfw::age_result(status, content_type, Seq::empty()).http_status == status,
{
}

/// A success on a second try stands by itself; two failures are told together.
pub proof fn law_second_tries(w: Way, first: ResultV, second: ResultV)
    ensures
        second.success ==> nsfw::after_fallback(first, second) == second && nsfw::joined_result(
            w,
            Some(first),
            second,
        ) == second,
        !second.success ==> !nsfw::after_fallback(first, second).success && !nsfw::joined_result(
            w,
            Some(first),
            second,
        ).success,
        !second.success && first.error is Some && second.error is Some ==> text::occurs(
            nsfw::after_fallback(first, second).error->0,
            first.error->0,
        ) && text::occurs(nsfw::after_fallback(first, second).error->0, second.error->0),
        nsfw::after_fallback(first, second).http_status == second.http_status,
        nsfw::after_fallback(first, second).grpc_status == second.grpc_status,
        nsfw::joined_result(w, None, second) == second,
{
    if !second.success && first.error is Some && second.error is Some {
        let a = "primary attempt failed: "@;
        let b = "; fallback attempt failed: "@;
        let x = first.error->0;
        let y = second.error->0;
        let e = nsfw::after_fallback(first, second).error->0;
        assert(e =~= a + x + (b + y));
        text_laws::law_occurs(e, x, a, b + y);
        assert(e =~= (a + x + b) + y + Seq::empty());
        text_laws::law_occurs(e, y, a + x + b, Seq::empty());
    }
}

/// The cookies hold the token without `sso=`, and the clearance where there is one.
pub proof fn law_cookies(token: Seq<char>, cf: Seq<char>)
    requires
        forall|r: Seq<char>| token != #[trigger] ("sso="@ + r),
    ensures
        headers::cookie_of(token, Seq::empty()) == "sso="@ + token,
        headers::cookie_of("sso="@ + token, Seq::empty()) == "sso="@ + token,
        cf.len() > 0 ==> headers::cookie_of(token, cf) == "sso="@ + token + ";cf_clearance="@ + cf,
        nsfw::cookie_of("sso="@ + token, Seq::empty()) == "sso="@ + token + "; sso-rw="@ + token,
        text::trim_of(cf) == cf && cf.len() > 0 ==> nsfw::cookie_of(token, cf) == "sso="@ + token
            + "; sso-rw="@ + token + "; cf_clearance="@ + cf,
{
    text_laws::law_begins(token, "sso="@, token);
    if text::begins(token, "sso="@) {
        assert(token == "sso="@ + token.skip("sso="@.len() as int));
    }
    assert(text::trim_of(Seq::<char>::empty()) =~= Seq::empty());
}

/// Names of browsers are alike where they differ only in case, dashes,
/// underscores and blanks.
pub proof fn law_emulations(s: Seq<char>)
    ensures
        nsfw::plain_emulation(s) == text::ascii_lower_of(text::trim_of(s)).filter(
            |c: char| c != '-' && c != '_' && c != ' ',
        ),
{
    let low = text::ascii_lower_of(text::trim_of(s));
    text_laws::law_dropping(low, '-', '_', ' ');
}

/// The guards in front of a JSON text are taken off, and it is trimmed.
pub proof fn law_guards_are_taken_off(json: Seq<char>)
    requires
        json.len() > 0,
        json[0] == '{',
        text::trim_of(json) == json,
    ensures
        usage::json_text_of(json) == json,
        usage::json_text_of("\u{feff}"@ + json) == json,
        usage::json_text_of("for (;;);"@ + json) == json,
        usage::json_text_of(")]}'\n"@ + json) == json,
{
    reveal_strlit("\u{feff}");
    reveal_strlit("for (;;);");
    reveal_strlit(")]}'\n");
    reveal_strlit(")]}'");
    reveal_strlit("\n");
    let bom = "\u{feff}"@;
    let l = "for (;;);"@;
    let g = ")]}'\n"@;
    lemma_plain_json(json);
    text_laws::law_prefixes_are_taken_off(json, bom, Seq::empty());
    assert(usage::json_text_of(bom + json) == usage::json_text_of(json));
    // Repeated assignments.
    let a = l + json;
    assert(a[0] == 'f');
    lemma_no_prefix(a, bom);
    assert(!text::is_white('f'));
    assert(text::trim_start_of(a) == a);
    lemma_no_prefix(a, ")]}'"@);
    text_laws::law_begins(a, l, json);
    text_laws::law_prefixes_are_taken_off(json, l, Seq::empty());
    lemma_no_prefix(json, l);
    assert(text::without_prefixes(a, l) == json);
    // The guard line.
    let b = g + json;
    assert(b[0] == ')');
    lemma_no_prefix(b, bom);
    assert(!text::is_white(')'));
    assert(text::trim_start_of(b) == b);
    assert(b.take(4) =~= ")]}'"@);
    let n = "\n"@;
    text::lemma_first_from(b, n, 0);
    assert(b.subrange(4, 5) =~= n);
    assert(text::stands_at(b, n, 4));
    let i = text::first_of(b, n)->0;
    assert(i == 4) by {
        if i < 4 {
            assert(b.subrange(i, i + 1)[0] == b[i]);
            assert(b[i] == ")]}'"@[i]);
        }
    }
    assert(b.skip(5) =~= json);
}

proof fn lemma_no_prefix(s: Seq<char>, p: Seq<char>)
    requires
        s.len() > 0,
        p.len() > 0,
        s[0] != p[0],
    ensures
        !text::begins(s, p),
        text::without_prefixes(s, p) == s,
{
    if text::begins(s, p) {
        assert(s.take(p.len() as int)[0] == s[0]);
    }
}

proof fn lemma_plain_json(json: Seq<char>)
    requires
        json.len() > 0,
        json[0] == '{',
        text::trim_of(json) == json,
    ensures
        usage::json_text_of(json) == json,
        text::trim_start_of(json) == json,
{
    reveal_strlit("\u{feff}");
    reveal_strlit("for (;;);");
    reveal_strlit(")]}'");
    lemma_no_prefix(json, "\u{feff}"@);
    lemma_no_prefix(json, "for (;;);"@);
    lemma_no_prefix(json, ")]}'"@);
    assert(!text::is_white('{'));
}

/// The presets of videos.
pub proof fn law_presets(preset: Seq<char>)
    ensures
        media::mode_of("fun"@) == "--mode=extremely-crazy"@,
        media::mode_of("normal"@) == "--mode=normal"@,
        media::mode_of("spicy"@) == "--mode=extremely-spicy-or-crazy"@,
        preset != "fun"@ && preset != "normal"@ && preset != "spicy"@ ==> media::mode_of(preset)
            == "--mode=custom"@,
{
    reveal_strlit("fun");
    reveal_strlit("normal");
    reveal_strlit("spicy");
    assert("fun"@.len() == 3 && "normal"@.len() == 6 && "spicy"@.len() == 5);
}

/// A request for a video says the prompt and the preset, and how the video is
/// to be made.
pub proof fn law_video_requests(
    prompt: Seq<char>,
    post_id: Seq<char>,
    aspect_ratio: Seq<char>,
    video_length: i32,
    resolution: Seq<char>,
    preset: Seq<char>,
)
    ensures
        ({
            let r = media::video_json(
                prompt,
                post_id,
                aspect_ratio,
                video_length,
                resolution,
                preset,
            )->Object_0;
            let c = media::config_json(post_id, aspect_ratio, video_length, resolution)->Object_0;
            &&& r[0] == ("temporary"@, JsonV::Bool(true))
            &&& r[1] == ("modelName"@, JsonV::Str("grok-3"@))
            &&& r[2] == ("message"@, JsonV::Str(prompt + " "@ + media::mode_of(preset)))
            &&& r[3] == (
                "toolOverrides"@,
                JsonV::Object(seq![("videoGen"@, JsonV::Bool(true))]),
            )
            &&& c.len() == 4
            &&& c[0] == ("parentPostId"@, JsonV::Str(post_id))
            &&& c[1] == ("aspectRatio"@, JsonV::Str(aspect_ratio))
            &&& c[2] == ("videoLength"@, JsonV::Number(Number::of_int(video_length as i64)))
            &&& c[3] == ("videoResolution"@, JsonV::Str(resolution))
        }),
        media::post_json(PostKind::Video, prompt)->Object_0.last() == (
            "prompt"@,
            JsonV::Str(prompt),
        ),
        media::post_json(PostKind::Image, prompt)->Object_0.last() == (
            "mediaUrl"@,
            JsonV::Str(prompt),
        ),
{
}

/// The first attached image is used.
pub proof fn law_first_image(attachments: Seq<(Seq<char>, Seq<char>)>, j: int)
    ensures
        match media::image_from(attachments, 0) {
            Some(url) => exists|i: int|
                0 <= i < attachments.len() && #[trigger] attachments[i] == ("image"@, url) && (0 <= j
                    < i ==> attachments[j].0 != "image"@),
            None => 0 <= j < attachments.len() ==> attachments[j].0 != "image"@,
        },
{
    lemma_first_image(attachments, 0, j);
}

proof fn lemma_first_image(attachments: Seq<(Seq<char>, Seq<char>)>, k: int, j: int)
    requires
        0 <= k <= attachments.len(),
    ensures
        match media::image_from(attachments, k) {
            Some(url) => exists|i: int|
                k <= i < attachments.len() && #[trigger] attachments[i] == ("image"@, url) && (k <= j
                    < i ==> attachments[j].0 != "image"@),
            None => k <= j < attachments.len() ==> attachments[j].0 != "image"@,
        },
    decreases attachments.len() - k,
{
    if k < attachments.len() {
        if attachments[k].0 == "image"@ {
            assert(attachments[k] == ("image"@, attachments[k].1));
        } else {
            lemma_first_image(attachments, k + 1, j);
        }
    }
}

/// Thinking is switched on or off where that is said, and left open otherwise.
pub proof fn law_thinking(s: Seq<char>)
    ensures
        media::thinking_of(Some("enabled"@)) == Some(true),
        media::thinking_of(Some("disabled"@)) == Some(false),
        s != "enabled"@ && s != "disabled"@ ==> media::thinking_of(Some(s)) is None,
        media::thinking_of(None) is None,
{
    reveal_strlit("enabled");
    reveal_strlit("disabled");
    assert("enabled"@.len() == 7 && "disabled"@.len() == 8);
}

/// The trailers of an answer are those of its whole body; its headers count
/// where the trailers say nothing, the message read from its percent signs.
pub proof fn law_trailers_of_an_answer(
    body: Seq<u8>,
    content_type: Seq<char>,
    status_header: Option<Seq<char>>,
    message_header: Option<Seq<char>>,
    key: Seq<char>,
)
    ensures
        ({
            let told = grpc_web::all_trailers(
                grpc_web::frames_from(grpc_web::binary_of(body, Some(content_type)), 0),
            );
            let r = nsfw::answer_trailers(body, content_type, status_header, message_header);
            &&& told.contains_key(key) ==> r.contains_key(key) && r[key] == told[key]
            &&& !told.contains_key("grpc-status"@) && status_header is Some ==> r.contains_key(
                "grpc-status"@,
            ) && r["grpc-status"@] == status_header->0
            &&& !told.contains_key("grpc-message"@) && message_header is Some ==> r.contains_key(
                "grpc-message"@,
            ) && r["grpc-message"@] == (match outside::percent_decoded(message_header->0) {
                Some(d) => d,
                None => message_header->0,
            })
            &&& key != "grpc-status"@ && key != "grpc-message"@ && !told.contains_key(key)
                ==> !r.contains_key(key)
        }),
{
    reveal_strlit("grpc-status");
    reveal_strlit("grpc-message");
    assert("grpc-status"@.len() == 11 && "grpc-message"@.len() == 12);
}

/// What an answer tells is its status and its message, where that is not empty.
pub proof fn law_what_an_answer_tells(trailers: Map<Seq<char>, Seq<char>>, preview: Seq<char>)
    ensures
        ({
            let r = nsfw::grpc_result(trailers, preview);
            let known = trailers.contains_key("grpc-message"@) && trailers["grpc-message"@].len()
                > 0;
            &&& known ==> r.grpc_message == Some(trailers["grpc-message"@])
            &&& !known ==> r.grpc_message is None
            &&& r.http_status == 200
            &&& r.grpc_status == Some(grpc_web::code_in(trailers))
        }),
{
}

/// The message of a way is sent where it has one, and otherwise the age is
/// verified; nothing else is a try.
pub proof fn law_tries(step: nsfw::FlowStep, w: Way)
    ensures
        nsfw::tries(step, w) ==> step !is Done,
        nsfw::tries(step, w) ==> (step is VerifyAge <==> w == Way::Age),
        nsfw::tries(step, w) ==> (step matches nsfw::FlowStep::Send(m) ==> nsfw::message_for(w)
            == Some(m@)),
{
}

/// A failed question about the usage is the upstream's failure. It tells the
/// status, or that there was no answer where the status was 200.
pub proof fn law_usage_refusals(status: u16, content_type: Seq<char>, body: Seq<char>)
    ensures
        ({
            let e = usage::refusal_of(status, content_type, body);
            &&& e.status == 502
            &&& status == 200 ==> e.body.message
                == "Usage parse error: empty response body; content-type: "@ + content_type
            &&& status != 200 ==> exists|rest: Seq<char>|
                e.body.message == #[trigger] ("Failed to get usage stats: "@ + text::decimal_of(
                    status as nat,
                ) + rest)
        }),
{
    if status != 200 {
        let rest = "; content-type: "@ + content_type + "; body: "@ + usage::preview_of(body);
        let start = "Failed to get usage stats: "@ + text::decimal_of(status as nat);
        assert(usage::refusal_of(status, content_type, body).body.message =~= start + rest);
    }
}

/// A body that begins with the two bytes of the gzip format looks compressed.
pub proof fn law_compressed_bodies(rest: Seq<u8>, body: Seq<u8>)
    ensures
        usage::looks_compressed(seq![31u8, 139u8] + rest),
        usage::looks_compressed(body) ==> body.len() >= 2 && body[0] == 31 && body[1] == 139,
{
}

} // verus!
