use grok2api_appchat::grok::processor::base;
use grok2api_appchat::grok::processor::base::{BaseProcessor, Chunk, Delta, Event};
use grok2api_appchat::grok::processor::chat::{image_label, CollectProcessor, StreamProcessor};
use grok2api_appchat::grok::processor::image::{
    data_part, image_value, FinalImage, ImageCollectProcessor, ImageStep, ImageStreamProcessor,
};
use grok2api_appchat::grok::processor::video::{
    build_video_html, shown_video, video_ref, VideoCollectProcessor, VideoRef,
    VideoStreamProcessor,
};
use grok2api_appchat::json;
use grok2api_appchat::json::{Json, Number};

fn conv(v: &serde_json::Value) -> Json {
    match v {
        serde_json::Value::Null => Json::Null,
        serde_json::Value::Bool(b) => Json::Bool(*b),
        serde_json::Value::Number(n) => Json::Number(if let Some(u) = n.as_u64() {
            Number::Unsigned(u)
        } else if let Some(i) = n.as_i64() {
            Number::Negative(i)
        } else {
            Number::Double(n.as_f64().unwrap().to_bits())
        }),
        serde_json::Value::String(s) => Json::Str(s.clone()),
        serde_json::Value::Array(a) => Json::Array(a.iter().map(conv).collect()),
        serde_json::Value::Object(m) => {
            Json::Object(m.iter().map(|(k, v)| (k.clone(), conv(v))).collect())
        }
    }
}

fn j(s: &str) -> Json {
    conv(&serde_json::from_str(s).unwrap())
}

fn same(a: &Json, b: &str) -> bool {
    json::equal(a, &j(b))
}

fn processor() -> BaseProcessor {
    let mut b = BaseProcessor::new("m", "t", "");
    b.created = 9;
    b
}

fn event(resp: &str) -> Json {
    j(&format!(r#"{{"result":{{"response":{resp}}}}}"#))
}

fn chat(show_think: bool) -> StreamProcessor {
    StreamProcessor::new(processor(), vec!["<x>".to_string()], "url".to_string(), show_think)
}

fn with_data(resp: &str, encoded: &[Option<&str>]) -> Event {
    Event {
        data: event(resp),
        encoded: encoded.iter().map(|o| o.map(|s| s.to_string())).collect(),
    }
}

fn plain(resp: &str) -> Event {
    with_data(resp, &[])
}

fn served() -> BaseProcessor {
    let mut b = BaseProcessor::new("m", "t", "http://h/");
    b.created = 9;
    b
}

fn said(chunks: &[Chunk]) -> Vec<String> {
    chunks
        .iter()
        .map(|c| match &c.delta {
            Delta::Role => "role".to_string(),
            Delta::ThinkOpen => "<think>".to_string(),
            Delta::ThinkClose => "</think>".to_string(),
            Delta::Text(t) => format!("={t}"),
            Delta::Stop => "stop".to_string(),
        })
        .collect()
}

#[test]
fn lines_lose_their_framing() {
    assert_eq!(base::normalize_json_line(" data: {} ").unwrap(), "{}");
    assert_eq!(base::normalize_json_line("{}").unwrap(), "{}");
    for s in ["", "  ", "data:", "data: [DONE]", "[DONE]"] {
        assert!(base::normalize_json_line(s).is_none(), "{s}");
    }
}

#[test]
fn urls_are_collected_once_and_anywhere() {
    let v = j(r#"{"a":{"generatedImageUrls":["u1","",2,"u2"]},"b":[{"imageUrls":"u1"},{"imageURLs":"u3"}],"imageUrl":"no"}"#);
    assert_eq!(base::collect_image_urls(&v), vec!["u1", "u2", "u3"]);
    assert!(base::collect_image_urls(&j("1")).is_empty());
}

#[test]
fn assets_are_named_by_their_path() {
    assert_eq!(base::asset_path("https://h.example/a%20b/c.png?q=1"), "/a%20b/c.png");
    assert_eq!(base::asset_path("users/x.png"), "/users/x.png");
    assert_eq!(base::asset_path("/x.png"), "/x.png");
    assert_eq!(base::asset_path("http no url"), "/http no url");
}

#[test]
fn assets_are_served_from_the_gateway_where_it_has_an_address() {
    let a = processor().process_url("x.png", "image");
    assert_eq!((a.url.as_str(), a.download), ("https://assets.grok.com/x.png", None));
    let a = BaseProcessor::new("m", "t", "http://me//").process_url("x.png", "video");
    assert_eq!(a.url, "http://me/v1/files/video/x.png");
    assert_eq!(a.download.as_deref(), Some("/x.png"));
}

#[test]
fn chunks_have_the_shape_of_completions() {
    let c = Chunk { id: None, fingerprint: "f".to_string(), delta: Delta::Text("hi".to_string()) };
    assert!(same(
        &processor().sse_chunk("id", &c),
        r#"{"id":"id","object":"chat.completion.chunk","created":9,"model":"m","system_fingerprint":"f","choices":[{"index":0,"delta":{"content":"hi"},"logprobs":null,"finish_reason":null}]}"#
    ));
    let c = Chunk { id: Some("own".to_string()), fingerprint: String::new(), delta: Delta::Role };
    assert!(same(
        &processor().send_chunk(&c),
        r#"{"id":"own","object":"chat.completion.chunk","created":9,"model":"m","system_fingerprint":"","choices":[{"index":0,"delta":{"role":"assistant","content":""},"logprobs":null,"finish_reason":null}]}"#
    ));
    let c = Chunk { id: None, fingerprint: String::new(), delta: Delta::Stop };
    let sent = processor().send_chunk(&c);
    let id = sent.get_str("id").unwrap();
    assert!(id.starts_with("chatcmpl-"));
    assert_eq!(id.len(), 9 + 32);
    assert_eq!(id.as_bytes()[9 + 12], b'4');
    assert_ne!(base::fresh_chat_id(), base::fresh_chat_id());
}

#[test]
fn events_are_framed_for_a_stream() {
    assert_eq!(base::sse_data("{}"), "data: {}\n\n");
    assert_eq!(base::sse_event("e", "{}"), "event: e\ndata: {}\n\n");
    assert_eq!(base::sse_done(), "data: [DONE]\n\n");
    assert!(base::now_ts() > 1_600_000_000);
    assert!(base::now_ts() < 100_000_000_000);
}

#[test]
fn a_chat_starts_with_a_role_and_ends_with_a_stop() {
    let events = vec![plain(r#"{"token":"a"}"#), plain(r#"{"token":"<x>b"}"#)];
    assert_eq!(said(&chat(false).process(&events)), ["role", "=a", "stop"]);
    assert_eq!(said(&chat(false).process(&vec![])), ["stop"]);
}

#[test]
fn thinking_is_opened_once_and_closed() {
    let p = r#"{"streamingImageGenerationResponse":{"imageIndex":1,"progress":50}}"#;
    let events = vec![plain(p), plain(p)];
    let line = "=正在生成第2张图片中，当前进度50%\n";
    assert_eq!(
        said(&chat(true).process(&events)),
        ["role", "<think>", line, line, "</think>", "stop"]
    );
    assert_eq!(said(&chat(false).process(&events)), ["role", "stop"]);
    let done = plain(r#"{"modelResponse":{"message":"m"}}"#);
    let events = vec![plain(p), done];
    assert_eq!(
        said(&chat(true).process(&events)),
        ["role", "<think>", line, "=m\n", "</think>", "stop"]
    );
}

#[test]
fn chat_images_are_linked() {
    let resp = r#"{"modelResponse":{"generatedImageUrls":["users/id7/img.jpg",5,"https://x/flat?q"]}}"#;
    assert_eq!(
        said(&chat(false).process(&vec![plain(resp)])),
        [
            "role",
            "=![id7](https://assets.grok.com/users/id7/img.jpg)\n",
            "=![x](https://assets.grok.com/flat)\n",
            "stop"
        ]
    );
    let p = StreamProcessor::new(served(), vec![], "url".to_string(), false);
    assert_eq!(
        said(&p.process(&vec![plain(resp)]))[2],
        "=![x](http://h/v1/files/image/flat)\n"
    );
    assert_eq!(image_label("a/b/c"), "b");
    assert_eq!(image_label("c"), "c");
    assert!(!chat(false).wants_base64());
}

#[test]
fn chat_images_are_sent_as_data_where_that_is_there() {
    let resp = r#"{"modelResponse":{"generatedImageUrls":["a","b"]}}"#;
    let e = || with_data(resp, &[Some("D"), None]);
    let p = StreamProcessor::new(processor(), vec![], "base64".to_string(), false);
    assert_eq!(
        said(&p.process(&vec![e()])),
        ["role", "=![a](D)\n", "=![b](https://assets.grok.com/b)\n", "stop"]
    );
    let p = StreamProcessor::new(processor(), vec![], "url".to_string(), false);
    assert_eq!(p.image_link("a", Some("D".to_string())), "https://assets.grok.com/a");
    let c = CollectProcessor::new(processor(), "base64".to_string());
    let got = c.process(&vec![e()]);
    let Json::Array(choices) = got.get("choices").unwrap() else { panic!("expected choices") };
    let content = choices[0].get("message").unwrap().get_str("content").unwrap();
    assert_eq!(content, "![](D)\n![](b)\n");
    let c = CollectProcessor::new(served(), "url".to_string());
    assert_eq!(c.image_link("a", Some("D".to_string())), "http://h/v1/files/image/a");
}

#[test]
fn a_chat_learns_its_id_and_fingerprint() {
    let mut p = chat(false);
    p.open_event(&event(r#"{"responseId":"r1","llmInfo":{"modelHash":"h1"}}"#));
    p.open_event(&event(r#"{"llmInfo":{"modelHash":"h2"}}"#));
    assert_eq!((p.response_id.as_deref(), p.fingerprint.as_str()), (Some("r1"), "h1"));
    p.close_event(&event(r#"{"modelResponse":{"metadata":{"llm_info":{"modelHash":"h3"}}}}"#));
    assert_eq!(p.fingerprint, "h3");
    assert_eq!(p.finish()[0].id.as_deref(), Some("r1"));
}

#[test]
fn a_chat_is_collected() {
    let c = CollectProcessor::new(processor(), "url".to_string());
    let events = vec![
        plain(r#"{"responseId":"r","llmInfo":{"modelHash":"h"},"token":"a"}"#),
        plain(r#"{"modelResponse":{"message":"b","generatedImageUrls":["x"]},"token":"c"}"#),
    ];
    assert!(same(
        &c.process(&events),
        r#"{"id":"r","object":"chat.completion","created":9,"model":"m","system_fingerprint":"h","choices":[{"index":0,"message":{"role":"assistant","content":"ab![](https://assets.grok.com/x)\nc","refusal":null,"annotations":[]},"finish_reason":"stop"}],"usage":{"prompt_tokens":0,"completion_tokens":0,"total_tokens":0,"prompt_tokens_details":{"cached_tokens":0,"text_tokens":0,"audio_tokens":0,"image_tokens":0},"completion_tokens_details":{"text_tokens":0,"audio_tokens":0,"reasoning_tokens":0}}}"#
    ));
    assert!(CollectProcessor::new(processor(), "base64".to_string()).wants_base64());
}

#[test]
fn a_video_is_shown_in_html() {
    assert_eq!(
        build_video_html("v", "p"),
        "<video id=\"video\" controls=\"\" preload=\"none\" poster=\"p\">\n  <source id=\"mp4\" src=\"v\" type=\"video/mp4\">\n</video>"
    );
    assert!(!build_video_html("v", "").contains("poster"));
}

#[test]
fn a_finished_video_names_its_files() {
    let done = event(r#"{"streamingVideoGenerationResponse":{"progress":100,"videoUrl":"v","thumbnailImageUrl":"t"}}"#);
    let r = video_ref(&done).unwrap();
    assert_eq!((r.video_url.as_str(), r.thumbnail_url.as_str()), ("v", "t"));
    assert!(video_ref(&event(r#"{"streamingVideoGenerationResponse":{"progress":99,"videoUrl":"v"}}"#)).is_none());
    assert!(video_ref(&event(r#"{"streamingVideoGenerationResponse":{"progress":100}}"#)).is_none());
}

#[test]
fn a_video_stream_thinks_until_it_is_done() {
    let half = event(r#"{"responseId":"r","streamingVideoGenerationResponse":{"progress":50}}"#);
    let done = event(r#"{"streamingVideoGenerationResponse":{"progress":100,"videoUrl":"v"}}"#);
    let p = VideoStreamProcessor::new(processor(), true);
    let html = format!("={}", build_video_html("https://assets.grok.com/v", ""));
    assert_eq!(
        said(&p.process(&vec![half, done])),
        [
            "role",
            "<think>",
            "=正在生成视频中，当前进度50%\n",
            "=正在生成视频中，当前进度100%\n",
            "</think>",
            html.as_str(),
            "stop"
        ]
    );
    let half = event(r#"{"streamingVideoGenerationResponse":{"progress":1}}"#);
    let p = VideoStreamProcessor::new(processor(), true);
    assert_eq!(
        said(&p.process(&vec![half])),
        ["role", "<think>", "=正在生成视频中，当前进度1%\n", "</think>", "stop"]
    );
}

#[test]
fn a_video_is_collected() {
    let told = |v: &str, t: &str| {
        event(&format!(
            r#"{{"responseId":"r","streamingVideoGenerationResponse":{{"progress":100,"videoUrl":"{v}","thumbnailImageUrl":"{t}"}}}}"#
        ))
    };
    let got = VideoCollectProcessor::new(served()).process(&vec![told("u", "s"), told("v", "t")]);
    assert_eq!(got.get_str("id").unwrap(), "r");
    let Json::Array(choices) = got.get("choices").unwrap() else { panic!("expected choices") };
    assert_eq!(
        choices[0].get("message").unwrap().get_str("content").unwrap().as_str(),
        build_video_html("http://h/v1/files/video/v", "http://h/v1/files/image/t")
    );
    let found = VideoRef { video_url: "/v".to_string(), thumbnail_url: String::new() };
    let shown = shown_video(&served(), &found);
    assert_eq!(shown.video_url, "http://h/v1/files/video/v");
    assert_eq!(shown.thumbnail_url, "");
    let none = VideoCollectProcessor::new(processor()).process(&vec![]);
    assert!(same(
        &none,
        r#"{"id":"","object":"chat.completion","created":9,"model":"m","choices":[{"index":0,"message":{"role":"assistant","content":"","refusal":null},"finish_reason":"stop"}],"usage":{"prompt_tokens":0,"completion_tokens":0,"total_tokens":0}}"#
    ));
}

#[test]
fn a_single_image_is_one_of_two() {
    let progress = |i: usize| {
        event(&format!(
            r#"{{"streamingImageGenerationResponse":{{"imageIndex":{i},"progress":30}}}}"#
        ))
    };
    let p = ImageStreamProcessor::picking(processor(), 1, false, 1);
    assert!(p.read_event(&progress(0)).is_none());
    match p.read_event(&progress(1)).unwrap() {
        ImageStep::Partial(v) => assert!(same(
            &v,
            r#"{"type":"image_generation.partial_image","index":0,"progress":30,"url":""}"#
        )),
        _ => panic!("expected progress"),
    }
    let mut seen = [false, false];
    for _ in 0..60 {
        seen[ImageStreamProcessor::new(processor(), 1, false).target_index.unwrap()] = true;
    }
    assert!(seen[0] && seen[1]);
    assert!(ImageStreamProcessor::new(processor(), 2, false).target_index.is_none());
}

#[test]
fn final_images_complete_a_stream() {
    let mut p = ImageStreamProcessor::new(processor(), 2, true);
    let e = event(r#"{"modelResponse":{"generatedImageUrls":["a","b","c"]}}"#);
    match p.read_event(&e).unwrap() {
        ImageStep::Fetch(urls) => assert_eq!(urls, vec!["a", "b", "c"]),
        _ => panic!("expected urls"),
    }
    let urls: Vec<String> = vec!["a".to_string(), "b".to_string(), "c".to_string()];
    let data = Some("data:image/png;base64,AA,B".to_string());
    p.add_images(&urls, &vec![data, None, Some("C".to_string())]);
    let done = p.finish();
    assert_eq!(done.len(), 2);
    let usage = r#""usage":{"total_tokens":50,"input_tokens":25,"output_tokens":25,"input_tokens_details":{"text_tokens":5,"image_tokens":20}}"#;
    assert!(same(
        &done[0],
        &format!(r#"{{"type":"image_generation.completed","index":0,{usage},"b64_json":"AA,B"}}"#)
    ));
    assert!(same(
        &done[1],
        &format!(r#"{{"type":"image_generation.completed","index":1,{usage},"b64_json":"C"}}"#)
    ));
}

#[test]
fn an_image_stream_reports_progress_and_then_images() {
    let events = vec![
        plain(r#"{"streamingImageGenerationResponse":{"imageIndex":1},"modelResponse":{"imageUrls":["no"]}}"#),
        plain(r#"{"modelResponse":{"imageUrls":["u","w"]}}"#),
    ];
    let out = ImageStreamProcessor::new(processor(), 2, false).process(&events);
    let names: Vec<&str> = out.iter().map(|e| e.name).collect();
    assert_eq!(
        names,
        [
            "image_generation.partial_image",
            "image_generation.completed",
            "image_generation.completed"
        ]
    );
    assert_eq!(out[1].data.get_str("url").unwrap(), "https://assets.grok.com/u");
    assert_eq!(out[2].data.get_str("url").unwrap(), "https://assets.grok.com/w");
}

#[test]
fn images_are_collected() {
    let c = ImageCollectProcessor::new(processor(), false);
    let resp = r#"{"modelResponse":{"imageUrls":["u","v"]}}"#;
    let got = c.process(&vec![plain(resp)]);
    assert_eq!(got.len(), 2);
    assert!(same(&got[0], r#"{"url":"https://assets.grok.com/u"}"#));
    assert!(same(&got[1], r#"{"url":"https://assets.grok.com/v"}"#));
    let c = ImageCollectProcessor::new(processor(), true);
    let got = c.process(&vec![with_data(resp, &[None, Some("data:x,V")])]);
    assert_eq!(got.len(), 1);
    assert!(same(&got[0], r#"{"b64_json":"V"}"#));
    assert!(same(&image_value(&FinalImage::Base64("B".to_string())), r#"{"b64_json":"B"}"#));
    assert_eq!(data_part("plain"), "plain");
}

#[test]
fn an_asset_is_placed_by_its_path() {
    let a = processor().asset_at("/x".to_string(), "image");
    assert_eq!((a.url.as_str(), a.download), ("https://assets.grok.com/x", None));
    let a = BaseProcessor::new("m", "t", "h").asset_at("/x".to_string(), "image");
    assert_eq!(a.url, "h/v1/files/image/x");
}

#[test]
fn numbers_that_are_not_shown_may_be_of_any_size() {
    let p = r#"{"streamingImageGenerationResponse":{"imageIndex":9223372036854775807,"progress":5}}"#;
    assert_eq!(said(&chat(false).process(&vec![plain(p)])), ["role", "stop"]);
    assert_eq!(said(&chat(false).open_event(&event(p))), ["role"]);
}
