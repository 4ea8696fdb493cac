//! Text primitives over the character sequence of a string.
//!
//! Every function here is stated on `Seq<char>`, the view of `str` and
//! `String`.
use vstd::prelude::*;
use vstd::string::*;
use vstd::utf8::*;

verus! {

/// `String::push` appends one character.
pub assume_specification[ String::push ](s: &mut String, c: char)
    ensures
        final(s)@ == old(s)@.push(c),
;

/// The characters with the Unicode `White_Space` property.
pub open spec fn is_white(c: char) -> bool {
    ||| '\u{9}' <= c <= '\u{d}'
    ||| c == '\u{20}'
    ||| c == '\u{85}'
    ||| c == '\u{a0}'
    ||| c == '\u{1680}'
    ||| '\u{2000}' <= c <= '\u{200a}'
    ||| c == '\u{2028}'
    ||| c == '\u{2029}'
    ||| c == '\u{202f}'
    ||| c == '\u{205f}'
    ||| c == '\u{3000}'
}

/// `s` without its leading white space.
pub open spec fn trim_start_of(s: Seq<char>) -> Seq<char>
    decreases s.len(),
{
    if s.len() > 0 && is_white(s[0]) {
        trim_start_of(s.skip(1))
    } else {
        s
    }
}

/// `s` without its trailing white space.
pub open spec fn trim_end_of(s: Seq<char>) -> Seq<char>
    decreases s.len(),
{
    if s.len() > 0 && is_white(s.last()) {
        trim_end_of(s.drop_last())
    } else {
        s
    }
}

/// `s` without white space at either end.
pub open spec fn trim_of(s: Seq<char>) -> Seq<char> {
    trim_end_of(trim_start_of(s))
}

/// `s` begins with `p`.
pub open spec fn begins(s: Seq<char>, p: Seq<char>) -> bool {
    p.len() <= s.len() && s.take(p.len() as int) == p
}

/// `s` ends with `p`.
pub open spec fn ends(s: Seq<char>, p: Seq<char>) -> bool {
    p.len() <= s.len() && s.skip(s.len() - p.len()) == p
}

/// `p` stands in `s` at position `i`.
pub open spec fn stands_at(s: Seq<char>, p: Seq<char>, i: int) -> bool {
    0 <= i && i + p.len() <= s.len() && s.subrange(i, i + p.len()) == p
}

/// `p` occurs somewhere in `s`.
pub open spec fn occurs(s: Seq<char>, p: Seq<char>) -> bool {
    exists|i: int| #[trigger] stands_at(s, p, i)
}

/// `s` without the copies of `p` that it begins with.
pub open spec fn without_prefixes(s: Seq<char>, p: Seq<char>) -> Seq<char>
    decreases s.len(),
{
    if p.len() > 0 && begins(s, p) {
        without_prefixes(s.skip(p.len() as int), p)
    } else {
        s
    }
}

/// `s` without the copies of `c` that it ends with.
pub open spec fn without_trailing(s: Seq<char>, c: char) -> Seq<char>
    decreases s.len(),
{
    if s.len() > 0 && s.last() == c {
        without_trailing(s.drop_last(), c)
    } else {
        s
    }
}

/// All characters of `s` as a vector.
pub fn chars_of(s: &str) -> (r: Vec<char>)
    ensures
        r@ == s@,
{
    let mut r: Vec<char> = Vec::new();
    for c in it: s.chars()
        invariant
            it.seq() == s@,
            r@ == it.seq().take(it.index() as int),
    {
        proof {
            assert(it.seq().take(it.index() + 1) =~= it.seq().take(it.index() as int).push(c));
        }
        r.push(c);
    }
    proof {
        assert(s@.take(s@.len() as int) =~= s@);
    }
    r
}

/// The text made of `chars[from..to]`.
pub fn text_of(chars: &Vec<char>, from: usize, to: usize) -> (r: String)
    requires
        from <= to <= chars@.len(),
    ensures
        r@ == chars@.subrange(from as int, to as int),
{
    let mut r = String::new();
    let mut i: usize = from;
    while i < to
        invariant
            from <= i <= to <= chars@.len(),
            r@ == chars@.subrange(from as int, i as int),
        decreases to - i,
    {
        r.push(chars[i]);
        i += 1;
        proof {
            assert(chars@.subrange(from as int, i as int) =~= chars@.subrange(
                from as int,
                i - 1,
            ).push(chars@[i - 1]));
        }
    }
    r
}

/// Whether two texts hold the same characters.
pub fn same_text(a: &str, b: &str) -> (r: bool)
    ensures
        r == (a@ == b@),
{
    let x: String = String::from_str(a);
    let y: String = String::from_str(b);
    x == y
}


/// Whether `c` is white space.
pub fn white(c: char) -> (r: bool)
    ensures
        r == is_white(c),
{
    ('\u{9}' <= c && c <= '\u{d}') || c == '\u{20}' || c == '\u{85}' || c == '\u{a0}' || c
        == '\u{1680}' || ('\u{2000}' <= c && c <= '\u{200a}') || c == '\u{2028}' || c == '\u{2029}'
        || c == '\u{202f}' || c == '\u{205f}' || c == '\u{3000}'
}

/// `s` without its leading white space.
pub fn trim_start(s: &str) -> (r: String)
    ensures
        r@ == trim_start_of(s@),
{
    let chars = chars_of(s);
    let mut i: usize = 0;
    proof {
        assert(chars@.skip(0) =~= chars@);
    }
    while i < chars.len() && white(chars[i])
        invariant
            i <= chars@.len(),
            chars@ == s@,
            trim_start_of(chars@.skip(i as int)) == trim_start_of(s@),
        decreases chars@.len() - i,
    {
        proof {
            assert(chars@.skip(i as int).skip(1) =~= chars@.skip(i + 1));
        }
        i += 1;
    }
    proof {
        assert(chars@.skip(i as int) =~= chars@.subrange(i as int, chars@.len() as int));
    }
    text_of(&chars, i, chars.len())
}

/// `s` without its trailing white space.
pub fn trim_end(s: &str) -> (r: String)
    ensures
        r@ == trim_end_of(s@),
{
    let chars = chars_of(s);
    let mut n: usize = chars.len();
    proof {
        assert(chars@.take(n as int) =~= chars@);
    }
    while n > 0 && white(chars[n - 1])
        invariant
            n <= chars@.len(),
            chars@ == s@,
            trim_end_of(chars@.take(n as int)) == trim_end_of(s@),
        decreases n,
    {
        proof {
            assert(chars@.take(n as int).drop_last() =~= chars@.take(n - 1));
        }
        n -= 1;
    }
    proof {
        assert(chars@.take(n as int) =~= chars@.subrange(0, n as int));
    }
    text_of(&chars, 0, n)
}

/// `s` without white space at either end.
pub fn trim(s: &str) -> (r: String)
    ensures
        r@ == trim_of(s@),
{
    let head = trim_start(s);
    trim_end(head.as_str())
}

/// Whether `p` stands in `chars` at position `i`.
fn matches_at(chars: &Vec<char>, p: &Vec<char>, i: usize) -> (r: bool)
    requires
        i <= chars@.len(),
    ensures
        r == stands_at(chars@, p@, i as int),
{
    let n: usize = chars.len();
    if p.len() > n - i {
        return false;
    }
    let mut k: usize = 0;
    while k < p.len()
        invariant
            n == chars@.len(),
            k <= p@.len(),
            i + p@.len() <= chars@.len(),
            forall|j: int| 0 <= j < k ==> chars@[i + j] == p@[j],
        decreases p@.len() - k,
    {
        if chars[i + k] != p[k] {
            proof {
                assert(chars@.subrange(i as int, i + p@.len())[k as int] != p@[k as int]);
            }
            return false;
        }
        k += 1;
    }
    proof {
        assert(chars@.subrange(i as int, i + p@.len()) =~= p@);
    }
    true
}

/// Whether `s` begins with `p`.
pub fn starts_with(s: &str, p: &str) -> (r: bool)
    ensures
        r == begins(s@, p@),
{
    let chars = chars_of(s);
    let pat = chars_of(p);
    proof {
        if p@.len() <= s@.len() {
            assert(s@.subrange(0, p@.len() as int) =~= s@.take(p@.len() as int));
        }
    }
    matches_at(&chars, &pat, 0)
}

/// Whether `s` ends with `p`.
pub fn ends_with(s: &str, p: &str) -> (r: bool)
    ensures
        r == ends(s@, p@),
{
    let chars = chars_of(s);
    let pat = chars_of(p);
    if pat.len() > chars.len() {
        return false;
    }
    proof {
        assert(s@.subrange(s@.len() - p@.len(), s@.len() as int) =~= s@.skip(s@.len() - p@.len()));
    }
    matches_at(&chars, &pat, chars.len() - pat.len())
}

/// The first position from `i` on at which `p` stands in `s`.
pub open spec fn first_from(s: Seq<char>, p: Seq<char>, i: int) -> Option<int>
    decreases s.len() + 1 - i,
{
    if i < 0 || i > s.len() {
        None
    } else if stands_at(s, p, i) {
        Some(i)
    } else {
        first_from(s, p, i + 1)
    }
}

/// The first position at which `p` stands in `s`.
pub open spec fn first_of(s: Seq<char>, p: Seq<char>) -> Option<int> {
    first_from(s, p, 0)
}

/// `first_from` finds the least position from `i` on, and finds one whenever there is one.
pub proof fn lemma_first_from(s: Seq<char>, p: Seq<char>, i: int)
    requires
        0 <= i,
    ensures
        match first_from(s, p, i) {
            Some(k) => i <= k && stands_at(s, p, k) && forall|j: int|
                i <= j < k ==> !stands_at(s, p, j),
            None => forall|j: int| i <= j ==> !stands_at(s, p, j),
        },
    decreases s.len() + 1 - i,
{
    if i <= s.len() && !stands_at(s, p, i) {
        lemma_first_from(s, p, i + 1);
    }
}

/// The first position at which `p` stands in `s`, counted in characters.
pub fn find(s: &str, p: &str) -> (r: Option<usize>)
    ensures
        match r {
            Some(i) => first_of(s@, p@) == Some(i as int),
            None => first_of(s@, p@) is None,
        },
{
    let chars = chars_of(s);
    let pat = chars_of(p);
    let n: usize = chars.len();
    let mut i: usize = 0;
    loop
        invariant
            chars@ == s@,
            pat@ == p@,
            n == chars@.len(),
            i <= n,
            first_from(s@, p@, i as int) == first_of(s@, p@),
        decreases n - i,
    {
        if matches_at(&chars, &pat, i) {
            return Some(i);
        }
        if i == n {
            return None;
        }
        i += 1;
    }
}

/// Whether `p` occurs in `s`.
pub fn contains(s: &str, p: &str) -> (r: bool)
    ensures
        r == occurs(s@, p@),
{
    let found = find(s, p);
    proof {
        lemma_first_from(s@, p@, 0);
    }
    match found {
        Some(_) => true,
        None => false,
    }
}

/// `s` without the copies of `p` that it begins with.
pub fn trim_start_matches(s: &str, p: &str) -> (r: String)
    ensures
        r@ == without_prefixes(s@, p@),
{
    let chars = chars_of(s);
    let pat = chars_of(p);
    let mut i: usize = 0;
    proof {
        assert(chars@.skip(0) =~= chars@);
    }
    while pat.len() > 0 && matches_at(&chars, &pat, i)
        invariant
            i <= chars@.len(),
            chars@ == s@,
            pat@ == p@,
            without_prefixes(chars@.skip(i as int), p@) == without_prefixes(s@, p@),
        decreases chars@.len() - i,
    {
        let left: usize = chars.len() - i;
        proof {
            assert(pat@.len() <= left);
            lemma_stands_skip(chars@, pat@, i as int);
            assert(chars@.skip(i as int).skip(p@.len() as int) =~= chars@.skip(i + p@.len()));
        }
        i += pat.len();
    }
    proof {
        lemma_stands_skip(chars@, pat@, i as int);
        assert(chars@.skip(i as int) =~= chars@.subrange(i as int, chars@.len() as int));
    }
    text_of(&chars, i, chars.len())
}

/// Standing at position `i` is beginning what follows `i`.
proof fn lemma_stands_skip(s: Seq<char>, p: Seq<char>, i: int)
    requires
        0 <= i <= s.len(),
    ensures
        stands_at(s, p, i) == begins(s.skip(i), p),
{
    if i + p.len() <= s.len() {
        assert(s.subrange(i, i + p.len()) =~= s.skip(i).take(p.len() as int));
    }
}

/// `s` without the copies of `c` that it ends with.
pub fn trim_end_char(s: &str, c: char) -> (r: String)
    ensures
        r@ == without_trailing(s@, c),
{
    let chars = chars_of(s);
    let mut n: usize = chars.len();
    proof {
        assert(chars@.take(n as int) =~= chars@);
    }
    while n > 0 && chars[n - 1] == c
        invariant
            n <= chars@.len(),
            chars@ == s@,
            without_trailing(chars@.take(n as int), c) == without_trailing(s@, c),
        decreases n,
    {
        proof {
            assert(chars@.take(n as int).drop_last() =~= chars@.take(n - 1));
        }
        n -= 1;
    }
    proof {
        assert(chars@.take(n as int) =~= chars@.subrange(0, n as int));
    }
    text_of(&chars, 0, n)
}

/// The characters `from..to` of `s`.
pub fn slice_text(s: &str, from: usize, to: usize) -> (r: String)
    requires
        from <= to <= s@.len(),
    ensures
        r@ == s@.subrange(from as int, to as int),
{
    let chars = chars_of(s);
    text_of(&chars, from, to)
}

/// What follows `p` in `s`, where `s` begins with `p`.
pub open spec fn after_prefix(s: Seq<char>, p: Seq<char>) -> Option<Seq<char>> {
    if begins(s, p) {
        Some(s.skip(p.len() as int))
    } else {
        None
    }
}

/// The view of an optional text.
pub open spec fn text_opt(o: Option<String>) -> Option<Seq<char>> {
    match o {
        Some(s) => Some(s@),
        None => None,
    }
}

/// The values of a list of optional texts.
pub open spec fn text_opts(v: Seq<Option<String>>) -> Seq<Option<Seq<char>>> {
    v.map_values(|o: Option<String>| text_opt(o))
}

/// `o`, or an empty text.
pub open spec fn or_empty(o: Option<Seq<char>>) -> Seq<char> {
    match o {
        Some(s) => s,
        None => Seq::empty(),
    }
}

/// The views of a list of texts.
pub open spec fn texts(v: Seq<String>) -> Seq<Seq<char>> {
    v.map_values(|s: String| s@)
}

/// What follows `p` in `s`, where `s` begins with `p`.
pub fn strip_prefix(s: &str, p: &str) -> (r: Option<String>)
    ensures
        text_opt(r) == after_prefix(s@, p@),
{
    if !starts_with(s, p) {
        return None;
    }
    let chars = chars_of(s);
    let pat = chars_of(p);
    proof {
        assert(s@.skip(p@.len() as int) =~= s@.subrange(p@.len() as int, s@.len() as int));
    }
    Some(text_of(&chars, pat.len(), chars.len()))
}

/// The pieces of `s` between the characters that satisfy `sep`.
pub open spec fn pieces(s: Seq<char>, sep: spec_fn(char) -> bool) -> Seq<Seq<char>>
    decreases s.len(),
{
    if s.len() == 0 {
        seq![Seq::<char>::empty()]
    } else {
        let before = pieces(s.drop_last(), sep);
        if sep(s.last()) {
            before.push(Seq::<char>::empty())
        } else {
            before.drop_last().push(before.last().push(s.last()))
        }
    }
}

/// There is always at least one piece.
pub proof fn lemma_pieces_len(s: Seq<char>, sep: spec_fn(char) -> bool)
    ensures
        pieces(s, sep).len() >= 1,
    decreases s.len(),
{
    if s.len() > 0 {
        lemma_pieces_len(s.drop_last(), sep);
    }
}

/// The test for one separating character.
pub open spec fn is_char(c: char) -> spec_fn(char) -> bool {
    |x: char| x == c
}

/// The test for a line break.
pub open spec fn is_break() -> spec_fn(char) -> bool {
    |x: char| x == '\n' || x == '\r'
}

/// The pieces of `s` between the characters `a` and `b`.
fn split_on(s: &str, a: char, b: char) -> (r: Vec<String>)
    ensures
        texts(r@) == pieces(s@, |x: char| x == a || x == b),
{
    let chars = chars_of(s);
    let ghost sep = |x: char| x == a || x == b;
    let mut r: Vec<String> = Vec::new();
    let mut piece = String::new();
    let mut i: usize = 0;
    proof {
        assert(chars@.take(0).len() == 0);
        assert(texts(r@).push(piece@) =~= pieces(chars@.take(0), sep));
    }
    while i < chars.len()
        invariant
            i <= chars@.len(),
            chars@ == s@,
            sep == (|x: char| x == a || x == b),
            texts(r@).push(piece@) == pieces(chars@.take(i as int), sep),
        decreases chars@.len() - i,
    {
        let c = chars[i];
        let ghost before = texts(r@).push(piece@);
        proof {
            assert(chars@.take(i + 1).drop_last() =~= chars@.take(i as int));
            assert(before.drop_last() =~= texts(r@));
        }
        if c == a || c == b {
            let ghost held = r@;
            let ghost added = piece@;
            r.push(piece);
            piece = String::new();
            proof {
                assert(texts(r@) =~= texts(held).push(added));
            }
        } else {
            piece.push(c);
        }
        i += 1;
    }
    let ghost held = r@;
    let ghost added = piece@;
    r.push(piece);
    proof {
        assert(chars@.take(i as int) =~= s@);
        assert(texts(r@) =~= texts(held).push(added));
    }
    r
}

/// The pieces of `s` between the copies of `c`.
pub fn split_char(s: &str, c: char) -> (r: Vec<String>)
    ensures
        texts(r@) == pieces(s@, is_char(c)),
{
    proof {
        assert(is_char(c) =~= (|x: char| x == c || x == c));
    }
    split_on(s, c, c)
}

/// The pieces of `s` between line breaks.
pub fn split_breaks(s: &str) -> (r: Vec<String>)
    ensures
        texts(r@) == pieces(s@, is_break()),
{
    proof {
        assert(is_break() =~= (|x: char| x == '\n' || x == '\r'));
    }
    split_on(s, '\n', '\r')
}


/// The ASCII lower-case form of one character; other characters are unchanged.
pub open spec fn lower_char(c: char) -> char {
    if 'A' <= c <= 'Z' {
        (c as int + 32) as char
    } else {
        c
    }
}

/// `s` with its ASCII letters in lower case.
pub open spec fn ascii_lower_of(s: Seq<char>) -> Seq<char> {
    s.map_values(|c: char| lower_char(c))
}

/// `s` with its ASCII letters in lower case.
pub fn to_ascii_lowercase(s: &str) -> (r: String)
    ensures
        r@ == ascii_lower_of(s@),
{
    let chars = chars_of(s);
    let mut r = String::new();
    let mut i: usize = 0;
    while i < chars.len()
        invariant
            i <= chars@.len(),
            chars@ == s@,
            r@ == ascii_lower_of(s@).take(i as int),
        decreases chars@.len() - i,
    {
        let c = chars[i];
        let low: char = if 'A' <= c && c <= 'Z' {
            ((c as u8) + 32) as char
        } else {
            c
        };
        r.push(low);
        i += 1;
        proof {
            assert(ascii_lower_of(s@).take(i as int) =~= ascii_lower_of(s@).take(i - 1).push(
                lower_char(s@[i - 1]),
            ));
        }
    }
    proof {
        assert(ascii_lower_of(s@).take(s@.len() as int) =~= ascii_lower_of(s@));
    }
    r
}

/// `s` without its characters that equal `a`, `b` or `c`.
pub open spec fn dropping_of(s: Seq<char>, a: char, b: char, c: char) -> Seq<char>
    decreases s.len(),
{
    if s.len() == 0 {
        s
    } else {
        let before = dropping_of(s.drop_last(), a, b, c);
        let x = s.last();
        if x == a || x == b || x == c {
            before
        } else {
            before.push(x)
        }
    }
}

/// `s` without its characters that equal `a`, `b` or `c`.
pub fn dropping(s: &str, a: char, b: char, c: char) -> (r: String)
    ensures
        r@ == dropping_of(s@, a, b, c),
{
    let chars = chars_of(s);
    let mut r = String::new();
    let mut i: usize = 0;
    while i < chars.len()
        invariant
            i <= chars@.len(),
            chars@ == s@,
            r@ == dropping_of(s@.take(i as int), a, b, c),
        decreases chars@.len() - i,
    {
        let x = chars[i];
        proof {
            assert(s@.take(i + 1).drop_last() =~= s@.take(i as int));
        }
        if !(x == a || x == b || x == c) {
            r.push(x);
        }
        i += 1;
    }
    proof {
        assert(s@.take(s@.len() as int) =~= s@);
    }
    r
}

/// `s` with every `from` turned into `to`.
pub open spec fn swapped_of(s: Seq<char>, from: char, to: char) -> Seq<char> {
    s.map_values(|c: char| if c == from { to } else { c })
}

/// `s` with every `from` turned into `to`.
pub fn swap_char(s: &str, from: char, to: char) -> (r: String)
    ensures
        r@ == swapped_of(s@, from, to),
{
    let chars = chars_of(s);
    let mut r = String::new();
    let mut i: usize = 0;
    while i < chars.len()
        invariant
            i <= chars@.len(),
            chars@ == s@,
            r@ == swapped_of(s@, from, to).take(i as int),
        decreases chars@.len() - i,
    {
        let c = chars[i];
        let x: char = if c == from {
            to
        } else {
            c
        };
        r.push(x);
        i += 1;
        proof {
            assert(swapped_of(s@, from, to).take(i as int) =~= swapped_of(s@, from, to).take(
                i - 1,
            ).push(x));
        }
    }
    proof {
        assert(swapped_of(s@, from, to).take(s@.len() as int) =~= swapped_of(s@, from, to));
    }
    r
}

/// The decimal digits of `n`.
pub open spec fn decimal_of(n: nat) -> Seq<char>
    decreases n,
{
    if n < 10 {
        seq![(48 + n) as char]
    } else {
        decimal_of(n / 10).push((48 + n % 10) as char)
    }
}

/// The decimal form of `i`, with a minus sign where it is negative.
pub open spec fn signed_of(i: int) -> Seq<char> {
    if i < 0 {
        seq!['-'] + decimal_of((-i) as nat)
    } else {
        decimal_of(i as nat)
    }
}

/// Appends the decimal digits of `n`.
pub fn push_decimal(out: &mut String, n: u64)
    ensures
        final(out)@ == old(out)@ + decimal_of(n as nat),
    decreases n,
{
    if n >= 10 {
        push_decimal(out, n / 10);
    }
    let d: u8 = (n % 10) as u8;
    let ghost before = out@;
    out.push((48 + d) as char);
    proof {
        assert(((48 + d) as u8) as char == (48 + (n as nat) % 10) as char);
        if n < 10 {
            assert(before.push((48 + n) as char) =~= before + seq![(48 + n) as char]);
        }
        assert(out@ =~= old(out)@ + decimal_of(n as nat));
    }
}

/// The decimal digits of `n`.
pub fn decimal(n: u64) -> (r: String)
    ensures
        r@ == decimal_of(n as nat),
{
    let mut r = String::new();
    push_decimal(&mut r, n);
    proof {
        assert(Seq::<char>::empty() + decimal_of(n as nat) =~= decimal_of(n as nat));
    }
    r
}

/// The decimal form of `i`.
pub fn signed_decimal(i: i64) -> (r: String)
    ensures
        r@ == signed_of(i as int),
{
    let mut r = String::new();
    if i < 0 {
        r.push('-');
        let m: u64 = if i == i64::MIN {
            9_223_372_036_854_775_808
        } else {
            (-i) as u64
        };
        push_decimal(&mut r, m);
        proof {
            assert(r@ =~= seq!['-'] + decimal_of(m as nat));
        }
    } else {
        push_decimal(&mut r, i as u64);
        proof {
            assert(r@ =~= decimal_of(i as nat));
        }
    }
    r
}

/// The lower-case hexadecimal digit `d`.
pub open spec fn hex_digit_of(d: int) -> char {
    if d < 10 {
        (48 + d) as char
    } else {
        (87 + d) as char
    }
}

/// The lower-case hexadecimal digit `d`.
pub fn hex_digit(d: u8) -> (r: char)
    requires
        d < 16,
    ensures
        r == hex_digit_of(d as int),
{
    if d < 10 {
        (48 + d) as char
    } else {
        (87 + d) as char
    }
}

/// The lower-case hexadecimal digits of `n`.
pub open spec fn hex_of(n: nat) -> Seq<char>
    decreases n,
{
    if n < 16 {
        seq![hex_digit_of(n as int)]
    } else {
        hex_of(n / 16).push(hex_digit_of((n % 16) as int))
    }
}

/// Appends the lower-case hexadecimal digits of `n`.
fn push_hex(out: &mut String, n: u32)
    ensures
        final(out)@ == old(out)@ + hex_of(n as nat),
    decreases n,
{
    if n >= 16 {
        push_hex(out, n / 16);
    }
    let d: u8 = (n % 16) as u8;
    let ghost before = out@;
    out.push(hex_digit(d));
    proof {
        if n < 16 {
            assert(before.push(hex_digit_of(n as int)) =~= before + seq![hex_digit_of(n as int)]);
        }
        assert(out@ =~= old(out)@ + hex_of(n as nat));
    }
}

/// Two lower-case hexadecimal digits for each byte.
pub open spec fn hex_bytes_of(bytes: Seq<u8>) -> Seq<char>
    decreases bytes.len(),
{
    if bytes.len() == 0 {
        Seq::<char>::empty()
    } else {
        let b = bytes.last() as int;
        hex_bytes_of(bytes.drop_last()).push(hex_digit_of(b / 16)).push(hex_digit_of(b % 16))
    }
}

/// Two lower-case hexadecimal digits for each byte.
pub fn hex_bytes(bytes: &Vec<u8>) -> (r: String)
    ensures
        r@ == hex_bytes_of(bytes@),
{
    let mut r = String::new();
    let mut i: usize = 0;
    while i < bytes.len()
        invariant
            i <= bytes@.len(),
            r@ == hex_bytes_of(bytes@.take(i as int)),
        decreases bytes@.len() - i,
    {
        let b: u8 = bytes[i];
        proof {
            assert(bytes@.take(i + 1).drop_last() =~= bytes@.take(i as int));
        }
        r.push(hex_digit(b / 16));
        r.push(hex_digit(b % 16));
        i += 1;
    }
    proof {
        assert(bytes@.take(bytes@.len() as int) =~= bytes@);
    }
    r
}

/// Hexadecimal text is twice as long as what it stands for.
pub proof fn lemma_hex_bytes_len(bytes: Seq<u8>)
    ensures
        hex_bytes_of(bytes).len() == 2 * bytes.len(),
    decreases bytes.len(),
{
    if bytes.len() > 0 {
        lemma_hex_bytes_len(bytes.drop_last());
    }
}

/// The escaped form of a character: printable ASCII stands for itself, quotes
/// and the backslash and the usual controls get a backslash, the rest is given
/// by its code point.
pub open spec fn escape_of(c: char) -> Seq<char> {
    if c == '\t' {
        seq!['\\', 't']
    } else if c == '\r' {
        seq!['\\', 'r']
    } else if c == '\n' {
        seq!['\\', 'n']
    } else if c == '\'' || c == '"' || c == '\\' {
        seq!['\\', c]
    } else if '\u{20}' <= c <= '\u{7e}' {
        seq![c]
    } else {
        seq!['\\', 'u', '{'] + hex_of(c as nat) + seq!['}']
    }
}

/// The escaped forms of the characters of `s`, one after the other.
pub open spec fn escaped_of(s: Seq<char>) -> Seq<char>
    decreases s.len(),
{
    if s.len() == 0 {
        Seq::<char>::empty()
    } else {
        escaped_of(s.drop_last()) + escape_of(s.last())
    }
}

/// Appends the escaped form of `c`.
fn push_escaped(out: &mut String, c: char)
    ensures
        final(out)@ == old(out)@ + escape_of(c),
{
    if c == '\t' {
        out.push('\\');
        out.push('t');
    } else if c == '\r' {
        out.push('\\');
        out.push('r');
    } else if c == '\n' {
        out.push('\\');
        out.push('n');
    } else if c == '\'' || c == '"' || c == '\\' {
        out.push('\\');
        out.push(c);
    } else if '\u{20}' <= c && c <= '\u{7e}' {
        out.push(c);
    } else {
        out.push('\\');
        out.push('u');
        out.push('{');
        push_hex(out, c as u32);
        out.push('}');
    }
    proof {
        assert(out@ =~= old(out)@ + escape_of(c));
    }
}

/// The first `limit` characters of `s`, or all of them.
pub open spec fn head_of(s: Seq<char>, limit: nat) -> Seq<char> {
    if s.len() <= limit {
        s
    } else {
        s.take(limit as int)
    }
}

/// The escaped form of the first `limit` characters of `s`.
pub fn escaped_head(s: &str, limit: usize) -> (r: String)
    ensures
        r@ == escaped_of(head_of(s@, limit as nat)),
{
    let chars = chars_of(s);
    let n: usize = if chars.len() <= limit {
        chars.len()
    } else {
        limit
    };
    let mut r = String::new();
    let mut i: usize = 0;
    while i < n
        invariant
            i <= n <= chars@.len(),
            chars@ == s@,
            r@ == escaped_of(s@.take(i as int)),
        decreases n - i,
    {
        proof {
            assert(s@.take(i + 1).drop_last() =~= s@.take(i as int));
        }
        push_escaped(&mut r, chars[i]);
        i += 1;
    }
    proof {
        assert(head_of(s@, limit as nat) =~= s@.take(n as int));
    }
    r
}

/// An ASCII decimal digit.
pub open spec fn is_digit(c: char) -> bool {
    '0' <= c <= '9'
}

/// The number that the digits `s` stand for.
pub open spec fn digits_value(s: Seq<char>) -> nat
    decreases s.len(),
{
    if s.len() == 0 {
        0
    } else {
        (digits_value(s.drop_last()) * 10 + (s.last() as int - 48)) as nat
    }
}

/// `s` holds nothing but decimal digits.
pub open spec fn all_digits(s: Seq<char>) -> bool {
    forall|i: int| 0 <= i < s.len() ==> is_digit(#[trigger] s[i])
}

/// The `i32` that `s` spells: an optional sign, then one or more digits, within range.
pub open spec fn i32_of(s: Seq<char>) -> Option<i32> {
    let signed = s.len() > 0 && (s[0] == '-' || s[0] == '+');
    let body = if signed {
        s.skip(1)
    } else {
        s
    };
    if body.len() == 0 || !all_digits(body) {
        None
    } else {
        let v = if signed && s[0] == '-' {
            -(digits_value(body) as int)
        } else {
            digits_value(body) as int
        };
        if i32::MIN <= v <= i32::MAX {
            Some(v as i32)
        } else {
            None
        }
    }
}

/// The `i32` that `s` spells.
pub fn parse_i32(s: &str) -> (r: Option<i32>)
    ensures
        r == i32_of(s@),
{
    let chars = chars_of(s);
    let n: usize = chars.len();
    let signed: bool = n > 0 && (chars[0] == '-' || chars[0] == '+');
    let from: usize = if signed {
        1
    } else {
        0
    };
    let ghost body = if signed {
        s@.skip(1)
    } else {
        s@
    };
    if from == n {
        return None;
    }
    let cap: u64 = 10_000_000_000;
    let mut acc: u64 = 0;
    let mut i: usize = from;
    while i < n
        invariant
            from <= i <= n,
            n == chars@.len(),
            chars@ == s@,
            signed == (s@.len() > 0 && (s@[0] == '-' || s@[0] == '+')),
            body == (if signed {
                s@.skip(1)
            } else {
                s@
            }),
            body.len() == n - from,
            from == (if signed {
                1int
            } else {
                0int
            }),
            cap == 10_000_000_000,
            acc <= cap,
            acc == (if digits_value(body.take(i - from)) <= cap {
                digits_value(body.take(i - from))
            } else {
                cap as nat
            }),
            forall|j: int| 0 <= j < i - from ==> is_digit(#[trigger] body[j]),
        decreases n - i,
    {
        let c = chars[i];
        proof {
            assert(body[i - from] == c);
        }
        if !('0' <= c && c <= '9') {
            return None;
        }
        let d: u64 = (c as u64) - 48;
        proof {
            assert(body.take(i + 1 - from).drop_last() =~= body.take(i - from));
        }
        acc = acc * 10 + d;
        if acc > cap {
            acc = cap;
        }
        i += 1;
    }
    proof {
        assert(body.take(n - from) =~= body);
    }
    if signed && chars[0] == '-' {
        if acc <= 2_147_483_648 {
            Some((-(acc as i64)) as i32)
        } else {
            None
        }
    } else if acc <= 2_147_483_647 {
        Some(acc as i32)
    } else {
        None
    }
}

/// Whether `s` holds nothing.
pub fn is_empty(s: &str) -> (r: bool)
    ensures
        r == (s@.len() == 0),
{
    s.unicode_len() == 0
}

/// `a` followed by `b`.
pub fn joined(a: &str, b: &str) -> (r: String)
    ensures
        r@ == a@ + b@,
{
    let mut r = String::from_str(a);
    r.append(b);
    r
}

/// `a`, `b` and `c` one after the other.
pub fn joined3(a: &str, b: &str, c: &str) -> (r: String)
    ensures
        r@ == a@ + b@ + c@,
{
    let mut r = String::from_str(a);
    r.append(b);
    r.append(c);
    r
}

/// A copy of an optional text.
pub fn copy_opt(o: &Option<String>) -> (r: Option<String>)
    ensures
        text_opt(r) == text_opt(*o),
{
    match o {
        Some(s) => Some(s.clone()),
        None => None,
    }
}

/// A copy of a list of texts.
pub fn copy_texts(v: &Vec<String>) -> (r: Vec<String>)
    ensures
        texts(r@) == texts(v@),
{
    let mut r: Vec<String> = Vec::new();
    let mut i: usize = 0;
    while i < v.len()
        invariant
            i <= v@.len(),
            texts(r@) =~= texts(v@).take(i as int),
        decreases v@.len() - i,
    {
        let ghost held = r@;
        r.push(v[i].clone());
        proof {
            assert(texts(r@) =~= texts(held).push(v@[i as int]@));
        }
        i += 1;
    }
    proof {
        assert(texts(v@).take(v@.len() as int) =~= texts(v@));
    }
    r
}

/// Whether `t` is among `v`.
pub fn has_text(v: &Vec<String>, t: &str) -> (r: bool)
    ensures
        r == texts(v@).contains(t@),
{
    let mut i: usize = 0;
    while i < v.len()
        invariant
            i <= v@.len(),
            forall|j: int| 0 <= j < i ==> #[trigger] texts(v@)[j] != t@,
        decreases v@.len() - i,
    {
        if same_text(v[i].as_str(), t) {
            proof {
                assert(texts(v@)[i as int] == t@);
            }
            return true;
        }
        i += 1;
    }
    false
}

/// The position of the last `c` in `s`.
pub open spec fn last_of(s: Seq<char>, c: char) -> Option<int>
    decreases s.len(),
{
    if s.len() == 0 {
        None
    } else if s.last() == c {
        Some(s.len() - 1)
    } else {
        last_of(s.drop_last(), c)
    }
}

/// What the position of the last `c` is.
pub proof fn lemma_last_of(s: Seq<char>, c: char)
    ensures
        match last_of(s, c) {
            Some(i) => 0 <= i < s.len() && s[i] == c && forall|j: int|
                i < j < s.len() ==> #[trigger] s[j] != c,
            None => forall|j: int| 0 <= j < s.len() ==> #[trigger] s[j] != c,
        },
    decreases s.len(),
{
    if s.len() > 0 && s.last() != c {
        let t = s.drop_last();
        lemma_last_of(t, c);
        assert forall|j: int| 0 <= j < s.len() && last_of(t, c) is None implies #[trigger] s[j]
            != c by {
            if j < t.len() {
                assert(t[j] == s[j]);
            }
        }
        if let Some(i) = last_of(t, c) {
            assert forall|j: int| i < j < s.len() implies #[trigger] s[j] != c by {
                if j < t.len() {
                    assert(t[j] == s[j]);
                }
            }
        }
    }
}

/// The position of the last `c` in `s`.
pub fn rfind_char(s: &str, c: char) -> (r: Option<usize>)
    ensures
        match r {
            Some(i) => last_of(s@, c) == Some(i as int) && i < s@.len(),
            None => last_of(s@, c) is None,
        },
{
    let chars = chars_of(s);
    let mut i: usize = chars.len();
    proof {
        assert(chars@.take(i as int) =~= s@);
    }
    while i > 0
        invariant
            i <= chars@.len(),
            chars@ == s@,
            last_of(s@, c) == last_of(chars@.take(i as int), c),
        decreases i,
    {
        proof {
            assert(chars@.take(i as int).drop_last() =~= chars@.take(i - 1));
        }
        if chars[i - 1] == c {
            return Some(i - 1);
        }
        i -= 1;
    }
    None
}

/// The number of bytes of `s` in UTF-8.
pub open spec fn byte_len(s: Seq<char>) -> nat {
    encode_utf8(s).len()
}

/// The texts of a list of pairs.
pub open spec fn pair_texts(v: Seq<(String, String)>) -> Seq<(Seq<char>, Seq<char>)> {
    v.map_values(|p: (String, String)| (p.0@, p.1@))
}

/// Adds a pair at the end.
pub fn push_pair(v: &mut Vec<(String, String)>, a: &str, b: &str)
    ensures
        pair_texts(final(v)@) == pair_texts(old(v)@).push((a@, b@)),
{
    let ghost held = v@;
    v.push((String::from_str(a), String::from_str(b)));
    proof {
        assert(pair_texts(v@) =~= pair_texts(held).push((a@, b@)));
    }
}

/// `out`, and `s` where it is not empty and not there yet.
pub open spec fn with_new(out: Seq<Seq<char>>, s: Seq<char>) -> Seq<Seq<char>> {
    if s.len() == 0 || out.contains(s) {
        out
    } else {
        out.push(s)
    }
}

/// Adds `s` where it is not empty and not there yet.
pub fn add_new(out: &mut Vec<String>, s: &str)
    ensures
        texts(final(out)@) == with_new(texts(old(out)@), s@),
{
    if is_empty(s) || has_text(out, s) {
        return;
    }
    let ghost held = out@;
    out.push(String::from_str(s));
    proof {
        assert(texts(out@) =~= texts(held).push(s@));
    }
}

/// The text behind an optional reference.
pub open spec fn ref_text(o: Option<&String>) -> Option<Seq<char>> {
    match o {
        Some(s) => Some(s@),
        None => None,
    }
}

/// A copy of the text, or an empty one where there is none.
pub fn owned_or_empty(o: Option<&String>) -> (r: String)
    ensures
        r@ == or_empty(ref_text(o)),
{
    match o {
        Some(s) => s.clone(),
        None => {
            let e = String::new();
            proof {
                assert(e@ =~= Seq::empty());
            }
            e
        },
    }
}

/// A copy of the text, or an empty one where there is none.
pub fn opt_or_empty(o: &Option<String>) -> (r: String)
    ensures
        r@ == or_empty(text_opt(*o)),
{
    match o {
        Some(s) => owned_or_empty(Some(s)),
        None => owned_or_empty(None),
    }
}

/// A text has at most four bytes for each of its characters.
pub proof fn lemma_byte_len(s: Seq<char>)
    ensures
        byte_len(s) <= 4 * s.len(),
    decreases s.len(),
{
    if s.len() > 0 {
        lemma_byte_len(s.drop_first());
    }
}

} // verus!
