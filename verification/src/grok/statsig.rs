//! The identifier with which the upstream's telemetry is satisfied.
use vstd::prelude::*;
use vstd::string::*;
use vstd::utf8::*;

use crate::outside;
use crate::text;

verus! {

/// A lower-case ASCII letter.
pub open spec fn is_lower(c: char) -> bool {
    'a' <= c && c <= 'z'
}

/// A text of `len` lower-case letters, and digits where they are allowed.
pub open spec fn is_word(s: Seq<char>, len: nat, digits: bool) -> bool {
    s.len() == len && forall|i: int|
        0 <= i < s.len() ==> is_lower(#[trigger] s[i]) || (digits && text::is_digit(s[i]))
}

/// The identifier that is used where none is made up.
pub open spec fn fixed_id() -> Seq<char> {
    "ZTpUeXBlRXJyb3I6IENhbm5vdCByZWFkIHByb3BlcnRpZXMgb2YgdW5kZWZpbmVkIChyZWFkaW5nICdjaGlsZE5vZGVzJyk="@
}

/// The first form of what an identifier says.
pub open spec fn null_message(word: Seq<char>) -> Seq<char> {
    "e:TypeError: Cannot read properties of null (reading 'children[\""@ + word + "\"]')"@
}

/// The second form of what an identifier says.
pub open spec fn undefined_message(word: Seq<char>) -> Seq<char> {
    "e:TypeError: Cannot read properties of undefined (reading '"@ + word + "')"@
}

/// Something that an identifier may say.
pub open spec fn is_message(s: Seq<char>) -> bool {
    (exists|w: Seq<char>| #[trigger] is_word(w, 5, true) && s == null_message(w)) || (exists|
        w: Seq<char>,
    | #[trigger]
        is_word(w, 10, false) && s == undefined_message(w))
}

/// `id` is the encoded form of something that an identifier may say.
pub open spec fn is_made_up(id: Seq<char>) -> bool {
    exists|m: Seq<char>| #[trigger]
        is_message(m) && id == outside::base64_encoded(encode_utf8(m)) && outside::base64_decoded(
            encode_utf8(id),
        ) == Some(encode_utf8(m))
}

/// Makes up identifiers.
#[derive(Debug)]
pub struct StatsigService;

impl StatsigService {
    /// A random word of `len` lower-case letters, and digits where `alnum` is set.
    pub fn rand_str(len: usize, alnum: bool) -> (r: String)
        ensures
            is_word(r@, len as nat, alnum),
    {
        let mut out = String::new();
        let mut i: usize = 0;
        while i < len
            invariant
                i <= len,
                is_word(out@, i as nat, alnum),
            decreases len - i,
        {
            let c: char = if alnum {
                lower_alnum()
            } else {
                let b: u8 = 97 + outside::random_byte() % 26;
                b as char
            };
            out.push(c);
            i += 1;
        }
        out
    }

    /// An identifier: made up where `dynamic` is set, fixed otherwise.
    pub fn gen_id(dynamic: bool) -> (r: String)
        ensures
            !dynamic ==> r@ == fixed_id(),
            dynamic ==> is_made_up(r@),
    {
        if !dynamic {
            return String::from_str(
                "ZTpUeXBlRXJyb3I6IENhbm5vdCByZWFkIHByb3BlcnRpZXMgb2YgdW5kZWZpbmVkIChyZWFkaW5nICdjaGlsZE5vZGVzJyk=",
            );
        }
        let message = if outside::random_bool() {
            let word = StatsigService::rand_str(5, true);
            let m = StatsigService::null_text(word.as_str());
            assert(is_word(word@, 5, true) && m@ == null_message(word@));
            m
        } else {
            let word = StatsigService::rand_str(10, false);
            let m = StatsigService::undefined_text(word.as_str());
            assert(is_word(word@, 10, false) && m@ == undefined_message(word@));
            m
        };
        assert(is_message(message@));
        proof {
            reveal_strlit("e:TypeError: Cannot read properties of null (reading 'children[\"");
            reveal_strlit("\"]')");
            reveal_strlit("e:TypeError: Cannot read properties of undefined (reading '");
            reveal_strlit("')");
            text::lemma_byte_len(message@);
        }
        outside::base64_encode(message.as_str().as_bytes())
    }

    /// The first form of what an identifier says.
    pub fn null_text(word: &str) -> (r: String)
        ensures
            r@ == null_message(word@),
    {
        text::joined3(
            "e:TypeError: Cannot read properties of null (reading 'children[\"",
            word,
            "\"]')",
        )
    }

    /// The second form of what an identifier says.
    pub fn undefined_text(word: &str) -> (r: String)
        ensures
            r@ == undefined_message(word@),
    {
        text::joined3("e:TypeError: Cannot read properties of undefined (reading '", word, "')")
    }
}

/// A random lower-case letter or digit.
fn lower_alnum() -> (r: char)
    ensures
        is_lower(r) || text::is_digit(r),
{
    let b = outside::random_alnum();
    let lower: u8 = if 65 <= b && b <= 90 {
        b + 32
    } else {
        b
    };
    lower as char
}

} // verus!
