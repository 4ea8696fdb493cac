//! The headers with which the upstream service is called as a browser calls it.
use vstd::prelude::*;
use vstd::string::*;

use crate::grok::nsfw;
use crate::grok::statsig;
use crate::grok::statsig::StatsigService;
use crate::outside;
use crate::text;

verus! {

/// The cookie with which a token is shown, with the clearance `cf` where there is one.
pub open spec fn cookie_of(token: Seq<char>, cf: Seq<char>) -> Seq<char> {
    if cf.len() == 0 {
        "sso="@ + nsfw::raw_token(token)
    } else {
        "sso="@ + nsfw::raw_token(token) + ";cf_clearance="@ + cf
    }
}

/// The cookie with which a token is shown.
pub fn browser_cookie(token: &str, cf: &str) -> (r: String)
    ensures
        r@ == cookie_of(token@, cf@),
{
    let raw = nsfw::strip_sso(token);
    let mut out = text::joined("sso=", raw.as_str());
    if !text::is_empty(cf) {
        out.append(";cf_clearance=");
        out.append(cf);
    }
    out
}

/// The headers of a browser's call, in order.
pub open spec fn header_list(
    referer: Seq<char>,
    statsig_id: Seq<char>,
    request_id: Seq<char>,
    cookie: Seq<char>,
) -> Seq<(Seq<char>, Seq<char>)> {
    seq![
        ("Accept"@, "*/*"@),
        ("Accept-Encoding"@, "gzip, deflate, br, zstd"@),
        ("Accept-Language"@, "en-US,en;q=0.9"@),
        (
            "Baggage"@,
            "sentry-environment=production,sentry-release=d6add6fb0460641fd482d767a335ef72b9b6abb8,sentry-public_key=b311e0f2690c81f25e2c4cf6d4f7ce1c"@,
        ),
        ("Cache-Control"@, "no-cache"@),
        ("Content-Type"@, "application/json"@),
        ("Origin"@, "https://grok.com"@),
        ("Pragma"@, "no-cache"@),
        ("Priority"@, "u=1, i"@),
        ("Referer"@, referer),
        (
            "Sec-Ch-Ua"@,
            "\"Google Chrome\";v=\"142\", \"Chromium\";v=\"142\", \"Not(A:Brand\";v=\"24\""@,
        ),
        ("Sec-Ch-Ua-Arch"@, "\"x86\""@),
        ("Sec-Ch-Ua-Bitness"@, "64"@),
        ("Sec-Ch-Ua-Mobile"@, "?0"@),
        ("Sec-Ch-Ua-Model"@, ""@),
        ("Sec-Ch-Ua-Platform"@, "\"Linux\""@),
        ("Sec-Fetch-Dest"@, "empty"@),
        ("Sec-Fetch-Mode"@, "cors"@),
        ("Sec-Fetch-Site"@, "same-origin"@),
        (
            "User-Agent"@,
            "Mozilla/5.0 (X11; Linux x86_64) AppleWebKit/537.36 (KHTML, like Gecko) Chrome/142.0.0.0 Safari/537.36"@,
        ),
        ("x-statsig-id"@, statsig_id),
        ("x-xai-request-id"@, request_id),
        ("Cookie"@, cookie),
    ]
}

/// The headers of a browser's call.
pub fn headers_with(referer: &str, statsig_id: &str, request_id: &str, cookie: &str) -> (r: Vec<
    (String, String),
>)
    ensures
        text::pair_texts(r@) == header_list(referer@, statsig_id@, request_id@, cookie@),
{
    let mut out: Vec<(String, String)> = Vec::new();
    text::push_pair(&mut out, "Accept", "*/*");
    text::push_pair(&mut out, "Accept-Encoding", "gzip, deflate, br, zstd");
    text::push_pair(&mut out, "Accept-Language", "en-US,en;q=0.9");
    text::push_pair(
        &mut out,
        "Baggage",
        "sentry-environment=production,sentry-release=d6add6fb0460641fd482d767a335ef72b9b6abb8,sentry-public_key=b311e0f2690c81f25e2c4cf6d4f7ce1c",
    );
    text::push_pair(&mut out, "Cache-Control", "no-cache");
    text::push_pair(&mut out, "Content-Type", "application/json");
    text::push_pair(&mut out, "Origin", "https://grok.com");
    text::push_pair(&mut out, "Pragma", "no-cache");
    text::push_pair(&mut out, "Priority", "u=1, i");
    text::push_pair(&mut out, "Referer", referer);
    text::push_pair(
        &mut out,
        "Sec-Ch-Ua",
        "\"Google Chrome\";v=\"142\", \"Chromium\";v=\"142\", \"Not(A:Brand\";v=\"24\"",
    );
    text::push_pair(&mut out, "Sec-Ch-Ua-Arch", "\"x86\"");
    text::push_pair(&mut out, "Sec-Ch-Ua-Bitness", "64");
    text::push_pair(&mut out, "Sec-Ch-Ua-Mobile", "?0");
    text::push_pair(&mut out, "Sec-Ch-Ua-Model", "");
    text::push_pair(&mut out, "Sec-Ch-Ua-Platform", "\"Linux\"");
    text::push_pair(&mut out, "Sec-Fetch-Dest", "empty");
    text::push_pair(&mut out, "Sec-Fetch-Mode", "cors");
    text::push_pair(&mut out, "Sec-Fetch-Site", "same-origin");
    text::push_pair(
        &mut out,
        "User-Agent",
        "Mozilla/5.0 (X11; Linux x86_64) AppleWebKit/537.36 (KHTML, like Gecko) Chrome/142.0.0.0 Safari/537.36",
    );
    text::push_pair(&mut out, "x-statsig-id", statsig_id);
    text::push_pair(&mut out, "x-xai-request-id", request_id);
    text::push_pair(&mut out, "Cookie", cookie);
    proof {
        assert(text::pair_texts(out@) =~= header_list(
            referer@,
            statsig_id@,
            request_id@,
            cookie@,
        ));
    }
    out
}

/// An identifier as it is sent: made up where `dynamic` is set, fixed otherwise.
pub open spec fn is_statsig_id(id: Seq<char>, dynamic: bool) -> bool {
    if dynamic {
        statsig::is_made_up(id)
    } else {
        id == statsig::fixed_id()
    }
}

/// The headers are those of a call with `token`, whatever its identifiers are.
pub open spec fn is_browser_call(
    headers: Seq<(Seq<char>, Seq<char>)>,
    token: Seq<char>,
    cf: Seq<char>,
    referer: Seq<char>,
    dynamic: bool,
) -> bool {
    exists|id: Seq<char>, request: Seq<char>|
        #![trigger is_statsig_id(id, dynamic), outside::is_uuid_text(request)]
        is_statsig_id(id, dynamic) && outside::is_uuid_text(request) && headers == header_list(
            referer,
            id,
            request,
            cookie_of(token, cf),
        )
}

/// The headers of a call with `token`, under a fresh request identifier.
pub fn browser_headers(token: &str, cf: &str, referer: &str, dynamic: bool) -> (r: Vec<
    (String, String),
>)
    ensures
        is_browser_call(text::pair_texts(r@), token@, cf@, referer@, dynamic),
{
    let id = StatsigService::gen_id(dynamic);
    let request = outside::fresh_uuid();
    let cookie = browser_cookie(token, cf);
    assert(is_statsig_id(id@, dynamic));
    headers_with(referer, id.as_str(), request.as_str(), cookie.as_str())
}

} // verus!
