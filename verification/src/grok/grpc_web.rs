//! gRPC-web: frames, trailers and status codes.
use vstd::prelude::*;
use vstd::string::*;

use crate::outside;
use crate::text;
use crate::text_map::TextMap;

verus! {

/// The four big-endian bytes of `n`, which fits in them.
pub open spec fn be32_of(n: int) -> Seq<u8> {
    seq![
        (n / 0x100_0000 % 0x100) as u8,
        (n / 0x1_0000 % 0x100) as u8,
        (n / 0x100 % 0x100) as u8,
        (n % 0x100) as u8,
    ]
}

/// The number whose big-endian bytes stand in `d` from `i` on.
pub open spec fn be32_at(d: Seq<u8>, i: int) -> int {
    d[i] * 0x100_0000 + d[i + 1] * 0x1_0000 + d[i + 2] * 0x100 + d[i + 3]
}

/// A data frame: a zero flag, the length, the data. The length field holds
/// the length modulo two to the thirty-second.
pub open spec fn data_frame(data: Seq<u8>) -> Seq<u8> {
    seq![0u8] + be32_of(data.len() as int % 0x1_0000_0000) + data
}

/// The data frame that carries `data`.
pub fn encode_grpc_web_payload(data: &Vec<u8>) -> (r: Vec<u8>)
    ensures
        r@ == data_frame(data@),
{
    let n: u64 = data.len() as u64 % 0x1_0000_0000;
    let mut out: Vec<u8> = Vec::new();
    out.push(0);
    out.push((n / 0x100_0000 % 0x100) as u8);
    out.push((n / 0x1_0000 % 0x100) as u8);
    out.push((n / 0x100 % 0x100) as u8);
    out.push((n % 0x100) as u8);
    out.extend_from_slice(data.as_slice());
    proof {
        assert(out@ =~= data_frame(data@));
    }
    out
}

/// A line break, a blank or a tab.
pub open spec fn is_gap(b: u8) -> bool {
    b == 13 || b == 10 || b == 32 || b == 9
}

/// `body` without line breaks, blanks and tabs.
pub open spec fn compact_of(body: Seq<u8>) -> Seq<u8>
    decreases body.len(),
{
    if body.len() == 0 {
        Seq::empty()
    } else if is_gap(body.last()) {
        compact_of(body.drop_last())
    } else {
        compact_of(body.drop_last()).push(body.last())
    }
}

/// A byte that stands in base64 text or breaks its lines.
pub open spec fn looks_base64(b: u8) -> bool {
    outside::is_base64_byte(b) || b == 13 || b == 10
}

/// How many bytes are looked at to tell base64 text from binary.
pub const SNIFF_LENGTH: usize = 2048;

/// The first bytes of `body` all look like base64 text.
pub open spec fn sniffs_base64(body: Seq<u8>) -> bool {
    forall|i: int| 0 <= i < body.len() && i < SNIFF_LENGTH ==> looks_base64(#[trigger] body[i])
}

/// A body of this kind, in lower case, or with this beginning is tried as base64 text.
pub open spec fn tries_text(body: Seq<u8>, kind: Seq<char>) -> bool {
    text::occurs(kind, "grpc-web-text"@) || sniffs_base64(body)
}

/// What base64 text stands for. A byte that cannot stand in such text makes
/// it stand for nothing, and an empty text stands for no bytes.
pub open spec fn decoded_of(data: Seq<u8>) -> Option<Seq<u8>> {
    if data.len() == 0 {
        Some(Seq::empty())
    } else if exists|i: int| 0 <= i < data.len() && !outside::is_base64_byte(#[trigger] data[i]) {
        None
    } else {
        outside::base64_decoded(data)
    }
}

/// The content type in lower case; an absent one is empty.
pub open spec fn kind_of(content_type: Option<Seq<char>>) -> Seq<char> {
    match content_type {
        Some(c) => outside::lowercase_of(c),
        None => ""@,
    }
}

/// The binary form of `body`: decoded where it is base64 text, by what it is
/// said to be or by how it begins, and as it stands otherwise.
pub open spec fn binary_of(body: Seq<u8>, content_type: Option<Seq<char>>) -> Seq<u8> {
    if tries_text(body, kind_of(content_type)) && decoded_of(compact_of(body)) is Some {
        decoded_of(compact_of(body))->0
    } else {
        body
    }
}

/// `body` without line breaks, blanks and tabs.
pub fn compact(body: &Vec<u8>) -> (r: Vec<u8>)
    ensures
        r@ == compact_of(body@),
{
    let mut out: Vec<u8> = Vec::new();
    let mut i: usize = 0;
    while i < body.len()
        invariant
            i <= body@.len(),
            out@ == compact_of(body@.take(i as int)),
        decreases body@.len() - i,
    {
        let b = body[i];
        proof {
            assert(body@.take(i + 1).drop_last() =~= body@.take(i as int));
        }
        if !(b == 13 || b == 10 || b == 32 || b == 9) {
            out.push(b);
        }
        i += 1;
    }
    proof {
        assert(body@.take(i as int) =~= body@);
    }
    out
}

fn begins_like_base64(body: &Vec<u8>) -> (r: bool)
    ensures
        r == sniffs_base64(body@),
{
    let mut i: usize = 0;
    while i < body.len() && i < SNIFF_LENGTH
        invariant
            i <= body@.len(),
            forall|k: int| 0 <= k < i ==> looks_base64(#[trigger] body@[k]),
        decreases body@.len() - i,
    {
        let b = body[i];
        if !((65 <= b && b <= 90) || (97 <= b && b <= 122) || (48 <= b && b <= 57) || b == 43 || b
            == 47 || b == 61 || b == 13 || b == 10) {
            assert(!looks_base64(body@[i as int]));
            return false;
        }
        i += 1;
    }
    true
}

/// Whether a body of this kind, in lower case, is tried as base64 text.
pub fn may_be_text(body: &Vec<u8>, kind: &str) -> (r: bool)
    ensures
        r == tries_text(body@, kind@),
{
    text::contains(kind, "grpc-web-text") || begins_like_base64(body)
}

/// The binary form of `body`.
pub fn maybe_decode_grpc_web_text(body: &Vec<u8>, content_type: &Option<String>) -> (r: Vec<u8>)
    ensures
        r@ == binary_of(body@, text::text_opt(*content_type)),
{
    let kind = match content_type {
        Some(c) => outside::to_lowercase(c.as_str()),
        None => String::from_str(""),
    };
    if may_be_text(body, kind.as_str()) {
        let data = compact(body);
        if let Some(decoded) = outside::base64_decode(&data) {
            proof {
                assert(data@.len() == 0 ==> decoded@ =~= Seq::empty());
            }
            return decoded;
        }
    }
    body.clone()
}

/// The name and the value that a line gives, as they stand there, where it has a colon.
pub open spec fn halves_of(line: Seq<char>) -> Option<(Seq<char>, Seq<char>)> {
    match text::first_of(line, ":"@) {
        Some(i) => Some((text::trim_of(line.take(i)), text::trim_of(line.skip(i + 1)))),
        None => None,
    }
}

/// The name and the value that a line gives.
pub fn split_trailer(line: &str) -> (r: Option<(String, String)>)
    ensures
        match r {
            Some(kv) => halves_of(line@) == Some((kv.0@, kv.1@)),
            None => halves_of(line@) is None,
        },
{
    proof {
        reveal_strlit(":");
        text::lemma_first_from(line@, ":"@, 0);
    }
    match text::find(line, ":") {
        Some(at) => {
            let n: usize = line.unicode_len();
            proof {
                assert(line@.subrange(0, at as int) =~= line@.take(at as int));
                assert(line@.subrange(at + 1, n as int) =~= line@.skip(at + 1));
            }
            let key = text::trim(text::slice_text(line, 0, at).as_str());
            let value = text::trim(text::slice_text(line, at + 1, n).as_str());
            Some((key, value))
        },
        None => None,
    }
}

/// The value that is kept under `key`: the message is kept decoded, where
/// it could be decoded.
pub open spec fn kept_value(
    key: Seq<char>,
    value: Seq<char>,
    decoded: Option<Seq<char>>,
) -> Seq<char> {
    if key == "grpc-message"@ && decoded is Some {
        decoded->0
    } else {
        value
    }
}

/// Keeps the value of a line under its name in lower case, where `decoded` is
/// the value after percent-decoding.
pub fn keep_trailer(map: &mut TextMap, key: String, value: String, decoded: Option<String>)
    ensures
        final(map)@ == old(map)@.insert(
            key@,
            kept_value(key@, value@, text::text_opt(decoded)),
        ),
{
    let is_message = text::same_text(key.as_str(), "grpc-message");
    let kept = match decoded {
        Some(d) => if is_message {
            d
        } else {
            value
        },
        None => value,
    };
    map.insert(key, kept);
}

/// The name and the value that a trailer line gives, where it has a colon.
/// The name is in lower case, and the message is percent-decoded where that
/// can be done.
pub open spec fn trailer_of(line: Seq<char>) -> Option<(Seq<char>, Seq<char>)> {
    match halves_of(line) {
        Some(kv) => {
            let key = outside::lowercase_of(kv.0);
            Some((key, kept_value(key, kv.1, outside::percent_decoded(kv.1))))
        },
        None => None,
    }
}

/// The trailers that the lines give; a later line wins.
pub open spec fn trailers_in(lines: Seq<Seq<char>>) -> Map<Seq<char>, Seq<char>>
    decreases lines.len(),
{
    if lines.len() == 0 {
        Map::empty()
    } else {
        match trailer_of(lines.last()) {
            Some(kv) => trailers_in(lines.drop_last()).insert(kv.0, kv.1),
            None => trailers_in(lines.drop_last()),
        }
    }
}

/// The trailers of a trailer frame.
pub open spec fn block_of(payload: Seq<u8>) -> Map<Seq<char>, Seq<char>> {
    trailers_in(text::pieces(outside::lossy_of(payload), text::is_break()))
}

/// The trailers of a trailer frame.
pub fn parse_trailer_block(payload: &Vec<u8>) -> (r: TextMap)
    ensures
        r@ == block_of(payload@),
{
    let all = outside::from_utf8_lossy(payload.as_slice());
    let lines = text::split_breaks(all.as_str());
    let ghost views = text::texts(lines@);
    let mut map = TextMap::new();
    let mut i: usize = 0;
    proof {
        assert(views.take(0) =~= Seq::empty());
    }
    while i < lines.len()
        invariant
            i <= lines@.len(),
            views == text::texts(lines@),
            map@ == trailers_in(views.take(i as int)),
        decreases lines@.len() - i,
    {
        proof {
            assert(views.take(i + 1).drop_last() =~= views.take(i as int));
            assert(views[i as int] == lines@[i as int]@);
        }
        if let Some((name, value)) = split_trailer(lines[i].as_str()) {
            let key = outside::to_lowercase(name.as_str());
            let decoded = outside::percent_decode(value.as_str());
            keep_trailer(&mut map, key, value, decoded);
        }
        i += 1;
    }
    proof {
        assert(views.take(i as int) =~= views);
    }
    map
}

/// A frame: its flag and what it carries.
pub struct FrameV {
    pub flag: u8,
    pub payload: Seq<u8>,
}

/// The complete frames that stand in `d` from `i` on.
pub open spec fn frames_from(d: Seq<u8>, i: int) -> Seq<FrameV>
    decreases d.len() - i,
{
    if i < 0 || i + 5 > d.len() || i + 5 + be32_at(d, i + 1) > d.len() {
        Seq::empty()
    } else {
        seq![FrameV { flag: d[i], payload: d.subrange(i + 5, i + 5 + be32_at(d, i + 1)) }]
            + frames_from(d, i + 5 + be32_at(d, i + 1))
    }
}

/// The top bit of the flag marks a trailer frame.
pub open spec fn is_trailer(f: FrameV) -> bool {
    f.flag >= 0x80
}

/// What the data frames carry, in order.
pub open spec fn messages_in(frames: Seq<FrameV>) -> Seq<Seq<u8>>
    decreases frames.len(),
{
    if frames.len() == 0 {
        Seq::empty()
    } else if is_trailer(frames.last()) {
        messages_in(frames.drop_last())
    } else {
        messages_in(frames.drop_last()).push(frames.last().payload)
    }
}

/// What the trailer frames carry, in order.
pub open spec fn trailer_blocks(frames: Seq<FrameV>) -> Seq<Seq<u8>>
    decreases frames.len(),
{
    if frames.len() == 0 {
        Seq::empty()
    } else if is_trailer(frames.last()) {
        trailer_blocks(frames.drop_last()).push(frames.last().payload)
    } else {
        trailer_blocks(frames.drop_last())
    }
}

/// The trailers of several blocks; a later block wins.
pub open spec fn merged_blocks(blocks: Seq<Seq<u8>>) -> Map<Seq<char>, Seq<char>>
    decreases blocks.len(),
{
    if blocks.len() == 0 {
        Map::empty()
    } else {
        merged_blocks(blocks.drop_last()).union_prefer_right(block_of(blocks.last()))
    }
}

/// The trailers of the trailer frames; a later frame wins.
pub open spec fn all_trailers(frames: Seq<FrameV>) -> Map<Seq<char>, Seq<char>> {
    merged_blocks(trailer_blocks(frames))
}

/// `map`, and `value` under `key` where `map` has nothing there.
pub open spec fn filled(
    map: Map<Seq<char>, Seq<char>>,
    key: Seq<char>,
    value: Option<Seq<char>>,
) -> Map<Seq<char>, Seq<char>> {
    if value is Some && !map.contains_key(key) {
        map.insert(key, value->0)
    } else {
        map
    }
}

/// The message of a header: percent-decoded, or empty where that cannot be done.
pub open spec fn header_message(message: Option<Seq<char>>) -> Option<Seq<char>> {
    match message {
        Some(m) => Some(
            match outside::percent_decoded(m) {
                Some(d) => d,
                None => ""@,
            },
        ),
        None => None,
    }
}

/// The bytes of each of a list of messages.
pub open spec fn contents(v: Seq<Vec<u8>>) -> Seq<Seq<u8>> {
    v.map_values(|m: Vec<u8>| m@)
}

/// What the frames of a binary body carry: the messages, and the blocks of trailers.
pub fn split_frames(decoded: &Vec<u8>) -> (r: (Vec<Vec<u8>>, Vec<Vec<u8>>))
    ensures
        contents(r.0@) == messages_in(frames_from(decoded@, 0)),
        contents(r.1@) == trailer_blocks(frames_from(decoded@, 0)),
{
    let ghost d = decoded@;
    let mut messages: Vec<Vec<u8>> = Vec::new();
    let mut blocks: Vec<Vec<u8>> = Vec::new();
    let ghost mut seen: Seq<FrameV> = Seq::empty();
    let n: usize = decoded.len();
    let mut i: usize = 0;
    proof {
        assert(contents(messages@) =~= Seq::empty());
        assert(contents(blocks@) =~= Seq::empty());
        assert(seen + frames_from(d, 0) =~= frames_from(d, 0));
    }
    while n - i >= 5
        invariant_except_break
            d == decoded@,
            n == d.len(),
            i <= n,
            contents(messages@) == messages_in(seen),
            contents(blocks@) == trailer_blocks(seen),
            seen + frames_from(d, i as int) == frames_from(d, 0),
        ensures
            contents(messages@) == messages_in(frames_from(d, 0)),
            contents(blocks@) == trailer_blocks(frames_from(d, 0)),
        decreases n - i,
    {
        let flag = decoded[i];
        let len: u32 = decoded[i + 1] as u32 * 0x100_0000 + decoded[i + 2] as u32 * 0x1_0000
            + decoded[i + 3] as u32 * 0x100 + decoded[i + 4] as u32;
        let len: usize = len as usize;
        let start: usize = i + 5;
        proof {
            assert(len == be32_at(d, i + 1));
        }
        if len > n - start {
            proof {
                assert(seen + frames_from(d, i as int) =~= seen);
            }
            break;
        }
        let payload = slice_bytes(decoded, start, start + len);
        let ghost frame = FrameV { flag, payload: payload@ };
        let ghost before = seen;
        proof {
            seen = before.push(frame);
            assert(seen.drop_last() =~= before);
            assert(seen + frames_from(d, start + len) =~= before + frames_from(d, i as int));
            assert(flag & 0x80 == 0x80 <==> flag >= 0x80) by (bit_vector);
        }
        if flag & 0x80 == 0x80 {
            let ghost held = blocks@;
            blocks.push(payload);
            proof {
                assert(contents(blocks@) =~= contents(held).push(frame.payload));
            }
        } else {
            let ghost held = messages@;
            messages.push(payload);
            proof {
                assert(contents(messages@) =~= contents(held).push(frame.payload));
            }
        }
        i = start + len;
        proof {
            if n - i < 5 {
                assert(frames_from(d, i as int) =~= Seq::empty());
                assert(seen + frames_from(d, i as int) =~= seen);
            }
        }
    }
    (messages, blocks)
}

fn merge_blocks(blocks: &Vec<Vec<u8>>) -> (r: TextMap)
    ensures
        r@ == merged_blocks(contents(blocks@)),
{
    let ghost all = contents(blocks@);
    let mut trailers = TextMap::new();
    let n: usize = blocks.len();
    let mut i: usize = 0;
    proof {
        assert(all.take(0) =~= Seq::empty());
    }
    while i < n
        invariant
            n == blocks@.len(),
            i <= n,
            all == contents(blocks@),
            trailers@ == merged_blocks(all.take(i as int)),
        decreases n - i,
    {
        proof {
            assert(all.take(i + 1).drop_last() =~= all.take(i as int));
            assert(all.take(i + 1).last() == blocks@[i as int]@);
        }
        trailers.extend(&parse_trailer_block(&blocks[i]));
        i += 1;
    }
    proof {
        assert(all.take(i as int) =~= all);
    }
    trailers
}

/// The messages and the trailers of a response. Where the trailers lack a
/// status or a message, the headers of the response give it.
pub fn parse_grpc_web_response(
    body: &Vec<u8>,
    content_type: &Option<String>,
    header_status: &Option<String>,
    header_message_text: &Option<String>,
) -> (r: (Vec<Vec<u8>>, TextMap))
    ensures
        ({
            let frames = frames_from(binary_of(body@, text::text_opt(*content_type)), 0);
            &&& contents(r.0@) == messages_in(frames)
            &&& r.1@ == filled(
                filled(all_trailers(frames), "grpc-status"@, text::text_opt(*header_status)),
                "grpc-message"@,
                header_message(text::text_opt(*header_message_text)),
            )
        }),
{
    let decoded = maybe_decode_grpc_web_text(body, content_type);
    let (messages, blocks) = split_frames(&decoded);
    let mut trailers = merge_blocks(&blocks);
    if let Some(v) = header_status {
        trailers.insert_missing("grpc-status", v.clone());
    }
    if let Some(v) = header_message_text {
        let message = match outside::percent_decode(v.as_str()) {
            Some(m) => m,
            None => String::from_str(""),
        };
        trailers.insert_missing("grpc-message", message);
    }
    (messages, trailers)
}

fn slice_bytes(v: &Vec<u8>, from: usize, to: usize) -> (r: Vec<u8>)
    requires
        from <= to <= v@.len(),
    ensures
        r@ == v@.subrange(from as int, to as int),
{
    let mut out: Vec<u8> = Vec::new();
    let mut i: usize = from;
    while i < to
        invariant
            from <= i <= to <= v@.len(),
            out@ == v@.subrange(from as int, i as int),
        decreases to - i,
    {
        out.push(v[i]);
        proof {
            assert(v@.subrange(from as int, i + 1) =~= v@.subrange(from as int, i as int).push(
                v@[i as int],
            ));
        }
        i += 1;
    }
    out
}

/// The status of a call.
#[derive(Debug)]
pub struct GrpcStatus {
    pub code: i32,
    pub message: String,
}

impl Clone for GrpcStatus {
    fn clone(&self) -> (r: GrpcStatus)
        ensures
            r.code == self.code,
            r.message@ == self.message@,
    {
        GrpcStatus { code: self.code, message: self.message.clone() }
    }
}

/// The HTTP status that stands for a gRPC status code.
pub open spec fn http_of(code: i32) -> u16 {
    if code == 0 {
        200
    } else if code == 16 {
        401
    } else if code == 7 {
        403
    } else if code == 8 {
        429
    } else if code == 4 {
        504
    } else if code == 14 {
        503
    } else {
        502
    }
}

impl GrpcStatus {
    /// Whether the call went well.
    pub fn ok(&self) -> (r: bool)
        ensures
            r == (self.code == 0),
    {
        self.code == 0
    }

    /// The HTTP status that stands for this one.
    pub fn http_equiv(&self) -> (r: u16)
        ensures
            r == http_of(self.code),
    {
        match self.code {
            0 => 200,
            16 => 401,
            7 => 403,
            8 => 429,
            4 => 504,
            14 => 503,
            _ => 502,
        }
    }
}

/// The value under `key`, or an empty text.
pub open spec fn value_or_empty(map: Map<Seq<char>, Seq<char>>, key: Seq<char>) -> Seq<char> {
    if map.contains_key(key) {
        map[key]
    } else {
        Seq::empty()
    }
}

/// The status code that the trailers give: minus one where they give none.
pub open spec fn code_in(map: Map<Seq<char>, Seq<char>>) -> i32 {
    match text::i32_of(value_or_empty(map, "grpc-status"@)) {
        Some(c) => c,
        None => -1i32,
    }
}

/// The status that the trailers give.
pub fn get_grpc_status(trailers: &TextMap) -> (r: GrpcStatus)
    ensures
        r.code == code_in(trailers@),
        r.message@ == value_or_empty(trailers@, "grpc-message"@),
{
    let raw = match trailers.get("grpc-status") {
        Some(s) => s,
        None => String::new(),
    };
    let message = match trailers.get("grpc-message") {
        Some(s) => s,
        None => String::new(),
    };
    let code = match text::parse_i32(raw.as_str()) {
        Some(c) => c,
        None => -1i32,
    };
    GrpcStatus { code, message }
}

/// Frames one after the other, each carrying one of the messages.
pub open spec fn framed(messages: Seq<Seq<u8>>) -> Seq<u8>
    decreases messages.len(),
{
    if messages.len() == 0 {
        Seq::empty()
    } else {
        data_frame(messages[0]) + framed(messages.drop_first())
    }
}

/// Every message fits in a frame.
pub open spec fn framable(messages: Seq<Seq<u8>>) -> bool {
    forall|i: int| 0 <= i < messages.len() ==> (#[trigger] messages[i]).len() < 0x1_0000_0000
}

/// The data frames that carry the messages.
pub open spec fn data_frames(messages: Seq<Seq<u8>>) -> Seq<FrameV> {
    messages.map_values(|m: Seq<u8>| FrameV { flag: 0, payload: m })
}

proof fn lemma_frames_framed(head: Seq<u8>, messages: Seq<Seq<u8>>)
    requires
        framable(messages),
    ensures
        frames_from(head + framed(messages), head.len() as int) =~= data_frames(messages),
    decreases messages.len(),
{
    let d = head + framed(messages);
    let i = head.len() as int;
    if messages.len() > 0 {
        let m = messages[0];
        let rest = messages.drop_first();
        let n = m.len() as int;
        let frame = data_frame(m);
        assert(frame.len() == n + 5);
        assert(d =~= (head + frame) + framed(rest));
        assert(d.subrange(i, i + 5 + n) =~= frame);
        assert(d[i] == frame[0]);
        assert(d[i + 1] == frame[1]);
        assert(d[i + 2] == frame[2]);
        assert(d[i + 3] == frame[3]);
        assert(d[i + 4] == frame[4]);
        assert(n % 0x1_0000_0000 == n);
        assert(be32_at(d, i + 1) == n) by (nonlinear_arith)
            requires
                0 <= n < 0x1_0000_0000,
                d[i + 1] == n / 0x100_0000 % 0x100,
                d[i + 2] == n / 0x1_0000 % 0x100,
                d[i + 3] == n / 0x100 % 0x100,
                d[i + 4] == n % 0x100,
                be32_at(d, i + 1) == d[i + 1] * 0x100_0000 + d[i + 2] * 0x1_0000 + d[i + 3] * 0x100
                    + d[i + 4],
        ;
        assert(d.subrange(i + 5, i + 5 + n) =~= m);
        assert forall|k: int| 0 <= k < rest.len() implies (#[trigger] rest[k]).len()
            < 0x1_0000_0000 by {
            assert(rest[k] == messages[k + 1]);
        }
        lemma_frames_framed(head + frame, rest);
        assert(frames_from(d, i) =~= data_frames(messages));
    } else {
        assert(d =~= head);
    }
}

proof fn lemma_data_frames(messages: Seq<Seq<u8>>)
    ensures
        messages_in(data_frames(messages)) =~= messages,
        trailer_blocks(data_frames(messages)) == Seq::<Seq<u8>>::empty(),
    decreases messages.len(),
{
    if messages.len() > 0 {
        let f = data_frames(messages);
        assert(f.drop_last() =~= data_frames(messages.drop_last()));
        lemma_data_frames(messages.drop_last());
    }
}

proof fn lemma_compact_keeps(body: Seq<u8>, i: int)
    requires
        0 <= i < body.len(),
        !is_gap(body[i]),
    ensures
        exists|k: int| 0 <= k < compact_of(body).len() && compact_of(body)[k] == body[i],
    decreases body.len(),
{
    let rest = compact_of(body.drop_last());
    if i == body.len() - 1 {
        assert(compact_of(body)[rest.len() as int] == body[i]);
    } else {
        lemma_compact_keeps(body.drop_last(), i);
        let k = choose|k: int| 0 <= k < rest.len() && rest[k] == body[i];
        assert(compact_of(body)[k] == body[i]);
    }
}

/// Messages that are sent as frames are read back as they were sent, without
/// trailers, whatever the body is declared to be.
pub proof fn law_messages_read_back(messages: Seq<Seq<u8>>, content_type: Option<Seq<char>>)
    requires
        framable(messages),
    ensures
        ({
            let frames = frames_from(binary_of(framed(messages), content_type), 0);
            messages_in(frames) == messages && all_trailers(frames) == Map::<
                Seq<char>,
                Seq<char>,
            >::empty()
        }),
{
    let body = framed(messages);
    let empty: Seq<u8> = Seq::empty();
    if messages.len() > 0 {
        assert(body[0] == 0);
        lemma_compact_keeps(body, 0);
        let data = compact_of(body);
        let k = choose|k: int| 0 <= k < data.len() && data[k] == body[0];
        assert(!outside::is_base64_byte(data[k]));
        assert(decoded_of(data) is None);
    } else {
        assert(binary_of(body, content_type) =~= empty);
    }
    lemma_frames_framed(empty, messages);
    assert(empty + body =~= body);
    lemma_data_frames(messages);
}

} // verus!
