//! What the library has from other crates: encodings, URLs, digests, chance
//! and the clock.
use base64::Engine;
use rand::seq::SliceRandom;
use rand::Rng;
use sha1::Digest;
use vstd::prelude::*;
use vstd::utf8::*;

use crate::text;

verus! {

/// What `base64::engine::general_purpose::STANDARD` decodes `data` to, where it accepts it.
pub uninterp spec fn base64_decoded(data: Seq<u8>) -> Option<Seq<u8>>;

/// What `base64::engine::general_purpose::STANDARD` encodes `data` as.
pub uninterp spec fn base64_encoded(data: Seq<u8>) -> Seq<char>;

/// What `urlencoding::decode` makes of `s`, where the bytes that it yields are UTF-8.
pub uninterp spec fn percent_decoded(s: Seq<char>) -> Option<Seq<char>>;

/// The path of the URL that `url::Url::parse` reads from `s`, where it accepts `s`.
pub uninterp spec fn parsed_path(s: Seq<char>) -> Option<Seq<char>>;

/// The SHA-1 digest of `data`.
pub uninterp spec fn sha1_of(data: Seq<u8>) -> Seq<u8>;

/// The media type that `mime_guess` gives for the extension of `path`, or
/// `application/octet-stream`.
pub uninterp spec fn mime_of(path: Seq<char>) -> Seq<char>;

/// The lower-case form of `s`, as `str::to_lowercase` gives it.
pub uninterp spec fn lowercase_of(s: Seq<char>) -> Seq<char>;

/// The text that `String::from_utf8_lossy` makes of `bytes`.
pub uninterp spec fn lossy_of(bytes: Seq<u8>) -> Seq<char>;

/// A byte that can stand in standard base64: a letter, a digit, `+`, `/` or
/// the padding `=`.
pub open spec fn is_base64_byte(b: u8) -> bool {
    65 <= b <= 90 || 97 <= b <= 122 || 48 <= b <= 57 || b == 43 || b == 47 || b == 61
}

/// `Engine::decode` of `base64::engine::general_purpose::STANDARD`: the
/// decoded bytes, or nothing where `data` is no padded standard base64. A byte
/// that cannot stand in base64 is never accepted, and no bytes decode to none.
#[verifier::external_body]
pub(crate) fn base64_decode(data: &Vec<u8>) -> (r: Option<Vec<u8>>)
    ensures
        match r {
            Some(v) => base64_decoded(data@) == Some(v@),
            None => base64_decoded(data@) is None,
        },
        r is Some ==> forall|i: int| 0 <= i < data@.len() ==> is_base64_byte(#[trigger] data@[i]),
        data@.len() == 0 ==> r is Some && r->0@.len() == 0,
{
    base64::engine::general_purpose::STANDARD.decode(data).ok()
}

/// `Engine::encode` of `base64::engine::general_purpose::STANDARD`. The call
/// panics where the encoded length exceeds `usize::MAX`. Decoding what it
/// returns gives `data` back.
#[verifier::external_body]
pub(crate) fn base64_encode(data: &[u8]) -> (r: String)
    requires
        (data@.len() + 2) / 3 * 4 <= usize::MAX,
    ensures
        r@ == base64_encoded(data@),
        base64_decoded(encode_utf8(r@)) == Some(data@),
{
    base64::engine::general_purpose::STANDARD.encode(data)
}

/// `urlencoding::decode`: nothing where the decoded bytes are not UTF-8. A
/// text without `%` is its own decoding.
#[verifier::external_body]
pub(crate) fn percent_decode(s: &str) -> (r: Option<String>)
    ensures
        text::text_opt(r) == percent_decoded(s@),
        !s@.contains('%') ==> text::text_opt(r) == Some(s@),
{
    urlencoding::decode(s).ok().map(|v| v.into_owned())
}

/// `url::Url::parse` followed by `Url::path`: the percent-encoded path, or
/// nothing where `s` is no absolute URL.
#[verifier::external_body]
pub(crate) fn url_path(s: &str) -> (r: Option<String>)
    ensures
        text::text_opt(r) == parsed_path(s@),
{
    url::Url::parse(s).ok().map(|u| u.path().to_string())
}

/// `sha1::Sha1::digest`: the twenty bytes of the digest.
#[verifier::external_body]
pub(crate) fn sha1_digest(data: &[u8]) -> (r: Vec<u8>)
    ensures
        r@ == sha1_of(data@),
        r@.len() == 20,
{
    sha1::Sha1::digest(data).to_vec()
}

/// `mime_guess::from_path` followed by `MimeGuess::first_or_octet_stream`,
/// as text. Only the extension of the path is looked at.
#[verifier::external_body]
pub(crate) fn guess_mime(path: &str) -> (r: String)
    ensures
        r@ == mime_of(path@),
{
    mime_guess::from_path(path).first_or_octet_stream().to_string()
}

/// `str::to_lowercase`. On ASCII text it turns `A` to `Z` into `a` to `z` and
/// changes nothing else.
#[verifier::external_body]
pub(crate) fn to_lowercase(s: &str) -> (r: String)
    ensures
        r@ == lowercase_of(s@),
        is_ascii_chars(s@) ==> r@ == text::ascii_lower_of(s@),
{
    s.to_lowercase()
}

/// `String::from_utf8_lossy`. Valid UTF-8 is decoded as it stands.
#[verifier::external_body]
pub(crate) fn from_utf8_lossy(bytes: &[u8]) -> (r: String)
    ensures
        r@ == lossy_of(bytes@),
        valid_utf8(bytes@) ==> r@ == decode_utf8(bytes@),
{
    String::from_utf8_lossy(bytes).into_owned()
}

/// `String::from_utf8`: the decoded text where the bytes are UTF-8, and
/// nothing otherwise.
#[verifier::external_body]
pub(crate) fn from_utf8(bytes: Vec<u8>) -> (r: Option<String>)
    ensures
        match r {
            Some(s) => valid_utf8(bytes@) && s@ == decode_utf8(bytes@),
            None => !valid_utf8(bytes@),
        },
{
    String::from_utf8(bytes).ok()
}

/// The last millisecond that `chrono` can represent.
pub const CLOCK_MAX_MS: i64 = 8_210_266_876_799_999;

/// A time that the clock can show, in milliseconds since the Unix epoch.
pub open spec fn clock_time(ms: i64) -> bool {
    0 <= ms <= CLOCK_MAX_MS
}

/// `chrono::Utc::now` followed by `DateTime::timestamp_millis`: milliseconds
/// since the Unix epoch, within what `chrono` can represent.
#[verifier::external_body]
pub(crate) fn now_millis() -> (r: i64)
    ensures
        clock_time(r),
{
    chrono::Utc::now().timestamp_millis()
}

/// A lower-case hexadecimal digit.
pub open spec fn is_lower_hex(c: char) -> bool {
    ('0' <= c && c <= '9') || ('a' <= c && c <= 'f')
}

/// The hyphens of a UUID stand here.
pub open spec fn is_hyphen_place(i: int) -> bool {
    i == 8 || i == 13 || i == 18 || i == 23
}

/// A version four UUID in its hyphenated lower-case form.
pub open spec fn is_uuid_text(s: Seq<char>) -> bool {
    &&& s.len() == 36
    &&& forall|i: int|
        0 <= i < 36 ==> if is_hyphen_place(i) {
            #[trigger] s[i] == '-'
        } else {
            is_lower_hex(s[i])
        }
    &&& s[14] == '4'
    &&& (s[19] == '8' || s[19] == '9' || s[19] == 'a' || s[19] == 'b')
}

/// `uuid::Uuid::new_v4` followed by `to_string`: a version four UUID in its
/// hyphenated lower-case form. The digits that are left open are random.
#[verifier::external_body]
pub(crate) fn fresh_uuid() -> (r: String)
    ensures
        is_uuid_text(r@),
{
    uuid::Uuid::new_v4().to_string()
}

/// A version four UUID in its lower-case form without hyphens.
pub open spec fn is_simple_uuid(s: Seq<char>) -> bool {
    &&& s.len() == 32
    &&& forall|i: int| 0 <= i < 32 ==> is_lower_hex(#[trigger] s[i])
    &&& s[12] == '4'
    &&& (s[16] == '8' || s[16] == '9' || s[16] == 'a' || s[16] == 'b')
}

/// `uuid::Uuid::new_v4` followed by `simple` and `to_string`: a version four
/// UUID in its lower-case form without hyphens. The digits that are left open
/// are random.
#[verifier::external_body]
pub(crate) fn fresh_simple_uuid() -> (r: String)
    ensures
        is_simple_uuid(r@),
{
    uuid::Uuid::new_v4().simple().to_string()
}

/// `SliceRandom::choose` with `rand::thread_rng`: one of the items, whichever
/// chance decides, or nothing where there is none.
#[verifier::external_body]
pub(crate) fn pick_one(items: &Vec<usize>) -> (r: Option<usize>)
    ensures
        match r {
            Some(x) => items@.contains(x),
            None => items@.len() == 0,
        },
{
    items.choose(&mut rand::thread_rng()).copied()
}

/// `SliceRandom::shuffle` with `rand::thread_rng`: the same items in an order
/// that chance decides.
#[verifier::external_body]
pub(crate) fn shuffle(items: &mut Vec<usize>)
    ensures
        final(items)@.to_multiset() == old(items)@.to_multiset(),
        final(items)@.len() == old(items)@.len(),
{
    items.shuffle(&mut rand::thread_rng())
}

/// `rand::random::<bool>`. Nothing is promised of the result.
#[verifier::external_body]
pub(crate) fn random_bool() -> (r: bool) {
    rand::random::<bool>()
}

/// `rand::random::<usize>`. Nothing is promised of the result.
#[verifier::external_body]
pub(crate) fn random_usize() -> (r: usize) {
    rand::random::<usize>()
}

/// `Rng::gen::<u8>` of `rand::thread_rng`. Nothing is promised of the result.
#[verifier::external_body]
pub(crate) fn random_byte() -> (r: u8) {
    rand::thread_rng().gen::<u8>()
}

/// An ASCII letter or digit.
pub open spec fn is_alnum(b: u8) -> bool {
    48 <= b <= 57 || 65 <= b <= 90 || 97 <= b <= 122
}

/// `Rng::sample` of `rand::thread_rng` with `rand::distributions::Alphanumeric`:
/// an ASCII letter or digit that chance decides.
#[verifier::external_body]
pub(crate) fn random_alnum() -> (r: u8)
    ensures
        is_alnum(r),
{
    rand::thread_rng().sample(rand::distributions::Alphanumeric)
}

} // verus!
