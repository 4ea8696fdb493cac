use grok2api_appchat::grok::grpc_web::{
    compact, keep_trailer, may_be_text, split_frames, split_trailer,
};
use grok2api_appchat::grok::grpc_web::{
    encode_grpc_web_payload, get_grpc_status, maybe_decode_grpc_web_text, parse_grpc_web_response,
    parse_trailer_block, GrpcStatus,
};
use grok2api_appchat::text_map::TextMap;

fn trailer(s: &str) -> Vec<u8> {
    let mut v = vec![0x80u8];
    v.extend_from_slice(&(s.len() as u32).to_be_bytes());
    v.extend_from_slice(s.as_bytes());
    v
}

#[test]
fn a_payload_is_framed() {
    assert_eq!(encode_grpc_web_payload(&vec![1, 2, 3]), vec![0, 0, 0, 0, 3, 1, 2, 3]);
    let big = vec![7u8; 70_000];
    let framed = encode_grpc_web_payload(&big);
    assert_eq!(&framed[..5], &[0, 0, 1, 0x11, 0x70]);
    assert_eq!(framed.len(), 70_005);
}

#[test]
fn messages_read_back_as_they_were_sent() {
    let messages = vec![vec![], vec![1u8], vec![9u8; 300]];
    let mut body = Vec::new();
    for m in &messages {
        body.extend(encode_grpc_web_payload(m));
    }
    let (got, trailers) = parse_grpc_web_response(&body, &None, &None, &None);
    assert_eq!(got, messages);
    assert!(trailers.get("grpc-status").is_none());
}

#[test]
fn trailers_follow_messages() {
    let mut body = encode_grpc_web_payload(&vec![1]);
    body.extend(trailer("grpc-status: 7\r\nGRPC-Message:no%20way\r\n"));
    let (got, trailers) = parse_grpc_web_response(&body, &None, &None, &None);
    assert_eq!(got, vec![vec![1]]);
    let s = get_grpc_status(&trailers);
    assert_eq!(s.code, 7);
    assert_eq!(s.message, "no way");
    assert!(!s.ok());
    assert_eq!(s.http_equiv(), 403);
}

#[test]
fn a_later_trailer_wins() {
    let mut body = trailer("a:1\nb:2");
    body.extend(trailer("a:3"));
    let (_, t) = parse_grpc_web_response(&body, &None, &None, &None);
    assert_eq!(t.get("a").unwrap(), "3");
    assert_eq!(t.get("b").unwrap(), "2");
}

#[test]
fn a_broken_frame_ends_the_reading() {
    let mut body = encode_grpc_web_payload(&vec![1]);
    body.extend([0, 0, 0, 0, 9, 1]);
    let (got, _) = parse_grpc_web_response(&body, &None, &None, &None);
    assert_eq!(got, vec![vec![1]]);
    body.truncate(8);
    assert_eq!(parse_grpc_web_response(&body, &None, &None, &None).0.len(), 1);
}

#[test]
fn text_bodies_are_decoded() {
    // base64 of 00 00 00 00 01 41
    let body = b"AAAA\nAAFB".to_vec();
    let ct = Some("application/GRPC-Web-Text+proto".to_string());
    assert_eq!(maybe_decode_grpc_web_text(&body, &ct), vec![0, 0, 0, 0, 1, 0x41]);
    assert_eq!(maybe_decode_grpc_web_text(&body, &None), vec![0, 0, 0, 0, 1, 0x41]);
    let (got, _) = parse_grpc_web_response(&body, &ct, &None, &None);
    assert_eq!(got, vec![vec![0x41]]);
}

#[test]
fn what_is_no_base64_stays_as_it_is() {
    let ct = Some("grpc-web-text".to_string());
    assert_eq!(maybe_decode_grpc_web_text(&b"!!".to_vec(), &ct), b"!!".to_vec());
    assert_eq!(maybe_decode_grpc_web_text(&b"abc".to_vec(), &None), b"abc".to_vec());
    assert_eq!(maybe_decode_grpc_web_text(&b"AA A=".to_vec(), &None), b"AA A=".to_vec());
}

#[test]
fn headers_fill_in_missing_trailers() {
    let some = |s: &str| Some(s.to_string());
    let (_, t) = parse_grpc_web_response(&vec![], &None, &some("16"), &some("a%2Fb"));
    assert_eq!(get_grpc_status(&t).code, 16);
    assert_eq!(get_grpc_status(&t).message, "a/b");
    let (_, t) = parse_grpc_web_response(&vec![], &None, &None, &some("%ff"));
    assert_eq!(t.get("grpc-message").unwrap(), "");
    let (_, t) = parse_grpc_web_response(&trailer("grpc-status:0"), &None, &some("16"), &None);
    assert_eq!(get_grpc_status(&t).code, 0);
}

#[test]
fn trailer_lines_without_a_colon_are_passed_over() {
    let t = parse_trailer_block(&b"nothing\n : x\nKey : a:b ".to_vec());
    assert_eq!(t.get("key").unwrap(), "a:b");
    assert_eq!(t.get("").unwrap(), "x");
    assert!(t.get("nothing").is_none());
}

#[test]
fn invalid_bytes_in_trailers_are_replaced() {
    let t = parse_trailer_block(&vec![b'k', b':', 0xff, b'x']);
    assert_eq!(t.get("k").unwrap(), "\u{fffd}x");
}

#[test]
fn status_codes_have_http_equivalents() {
    let of = |code| GrpcStatus { code, message: String::new() }.http_equiv();
    assert_eq!(of(0), 200);
    assert_eq!(of(16), 401);
    assert_eq!(of(7), 403);
    assert_eq!(of(8), 429);
    assert_eq!(of(4), 504);
    assert_eq!(of(14), 503);
    assert_eq!(of(3), 502);
    assert_eq!(of(-1), 502);
}

#[test]
fn a_missing_status_is_minus_one() {
    let (_, t) = parse_grpc_web_response(&trailer("grpc-status: x"), &None, &None, &None);
    assert_eq!(get_grpc_status(&t).code, -1);
    let (_, t) = parse_grpc_web_response(&vec![], &None, &None, &None);
    assert_eq!(get_grpc_status(&t).code, -1);
    assert_eq!(get_grpc_status(&t).message, "");
}

#[test]
fn bodies_are_tried_as_text_by_kind_or_beginning() {
    assert!(may_be_text(&vec![0], "application/grpc-web-text+proto"));
    assert!(may_be_text(&b"AA==".to_vec(), ""));
    assert!(!may_be_text(&vec![0], "application/grpc-web+proto"));
    let mut long = vec![b'A'; 2048];
    long.push(0);
    assert!(may_be_text(&long, ""));
    assert_eq!(compact(&b" A\t=\r\n".to_vec()), b"A=".to_vec());
}

#[test]
fn frames_are_told_apart_by_their_flag() {
    let body = [&[0u8, 0, 0, 0, 1, 7][..], &[0x81, 0, 0, 0, 2, 8, 9], &[1, 0, 0, 0, 0]].concat();
    let (messages, blocks) = split_frames(&body);
    assert_eq!(messages, vec![vec![7], vec![]]);
    assert_eq!(blocks, vec![vec![8, 9]]);
}

#[test]
fn only_the_message_is_kept_decoded() {
    let mut m = TextMap::new();
    keep_trailer(&mut m, "other".to_string(), "a%20b".to_string(), Some("a b".to_string()));
    keep_trailer(&mut m, "grpc-message".to_string(), "a%20b".to_string(), Some("a b".to_string()));
    assert_eq!(m.get("other").unwrap(), "a%20b");
    assert_eq!(m.get("grpc-message").unwrap(), "a b");
    keep_trailer(&mut m, "grpc-message".to_string(), "%ff".to_string(), None);
    assert_eq!(m.get("grpc-message").unwrap(), "%ff");
    assert_eq!(split_trailer(" A : b:c "), Some(("A".to_string(), "b:c".to_string())));
    assert_eq!(split_trailer("none"), None);
}

#[test]
fn a_status_is_cloned() {
    let s = GrpcStatus { code: 7, message: "denied".to_string() };
    let c = s.clone();
    assert_eq!((c.code, c.message.as_str()), (7, "denied"));
}
