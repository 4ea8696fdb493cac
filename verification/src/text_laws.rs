//! What holds of texts, said without looking at how they are taken apart.
use vstd::prelude::*;

use crate::text;

verus! {

/// A text begins with `p` exactly where it is `p` and something more.
pub proof fn law_begins(s: Seq<char>, p: Seq<char>, rest: Seq<char>)
    ensures
        text::begins(p + rest, p),
        text::after_prefix(p + rest, p) == Some(rest),
        text::begins(s, p) ==> s == p + s.skip(p.len() as int),
        text::after_prefix(s, p) is None ==> s != p + rest,
        text::after_prefix(s, p) matches Some(r) ==> s == p + r,
{
    assert((p + rest).take(p.len() as int) =~= p);
    assert((p + rest).skip(p.len() as int) =~= rest);
    if text::begins(s, p) {
        assert(s =~= p + s.skip(p.len() as int));
    }
}

/// A text ends with `p` exactly where it is something and then `p`.
pub proof fn law_ends(s: Seq<char>, p: Seq<char>, front: Seq<char>)
    ensures
        text::ends(front + p, p),
        text::ends(s, p) ==> s == s.take(s.len() - p.len()) + p,
{
    assert((front + p).skip(front.len() as int) =~= p);
    if text::ends(s, p) {
        assert(s =~= s.take(s.len() - p.len()) + p);
    }
}

/// A text holds `p` exactly where it is something, then `p`, and then something.
pub proof fn law_occurs(s: Seq<char>, p: Seq<char>, a: Seq<char>, b: Seq<char>)
    ensures
        text::occurs(a + p + b, p),
        text::occurs(s, p) ==> exists|x: Seq<char>, y: Seq<char>| s == #[trigger] (x + p + y),
{
    assert((a + p + b).subrange(a.len() as int, (a.len() + p.len()) as int) =~= p);
    assert(text::stands_at(a + p + b, p, a.len() as int));
    if text::occurs(s, p) {
        let i = choose|i: int| text::stands_at(s, p, i);
        let x = s.take(i);
        let y = s.skip(i + p.len());
        assert(s =~= x + p + y) by {
            assert(s.subrange(i, i + p.len()) =~= p);
            assert forall|k: int| i <= k < i + p.len() implies s[k] == p[k - i] by {
                assert(s.subrange(i, i + p.len())[k - i] == s[k]);
            }
        }
    }
}

/// The first place of `p` in a text: `p` stands there and nowhere before.
pub proof fn law_first_place(s: Seq<char>, p: Seq<char>, j: int)
    ensures
        match text::first_of(s, p) {
            Some(i) => 0 <= i && i + p.len() <= s.len() && s.subrange(i, i + p.len()) == p && (0
                <= j < i ==> s.subrange(j, j + p.len()) != p),
            None => 0 <= j && j + p.len() <= s.len() ==> s.subrange(j, j + p.len()) != p,
        },
{
    text::lemma_first_from(s, p, 0);
    match text::first_of(s, p) {
        Some(i) => {
            if 0 <= j < i {
                assert(!text::stands_at(s, p, j));
            }
        },
        None => {
            if 0 <= j {
                assert(!text::stands_at(s, p, j));
            }
        },
    }
}

/// The last place of a character: it stands there and nowhere behind.
pub proof fn law_last_place(s: Seq<char>, c: char, j: int)
    ensures
        match text::last_of(s, c) {
            Some(i) => 0 <= i < s.len() && s[i] == c && (i < j < s.len() ==> s[j] != c),
            None => 0 <= j < s.len() ==> s[j] != c,
        },
    decreases s.len(),
{
    if s.len() > 0 && s.last() != c {
        law_last_place(s.drop_last(), c, j);
    }
}

/// White space is what Unicode calls so.
pub proof fn law_white(c: char)
    ensures
        text::is_white(c) <==> {
            let code = c as u32;
            9 <= code <= 13 || code == 32 || code == 0x85 || code == 0xa0 || code == 0x1680
                || 0x2000 <= code <= 0x200a || code == 0x2028 || code == 0x2029 || code == 0x202f
                || code == 0x205f || code == 0x3000
        },
{
}

/// All characters of a text are white.
pub open spec fn blank(s: Seq<char>) -> bool {
    forall|i: int| 0 <= i < s.len() ==> text::is_white(#[trigger] s[i])
}

/// Trimming takes white space off both ends and leaves none there.
pub proof fn law_trim(s: Seq<char>)
    ensures
        exists|a: Seq<char>, b: Seq<char>|
            blank(a) && blank(b) && s == #[trigger] (a + text::trim_of(s) + b),
        text::trim_of(s).len() > 0 ==> !text::is_white(text::trim_of(s)[0]) && !text::is_white(
            text::trim_of(s).last(),
        ),
{
    let t = text::trim_start_of(s);
    lemma_trim_start(s);
    lemma_trim_end(t);
    let a = s.take(s.len() - t.len());
    let r = text::trim_of(s);
    let b = t.skip(r.len() as int);
    assert(s =~= a + r + b);
}

/// Trimming the front takes white space off and leaves none there.
pub proof fn law_trim_start(s: Seq<char>)
    ensures
        exists|a: Seq<char>| blank(a) && s == #[trigger] (a + text::trim_start_of(s)),
        text::trim_start_of(s).len() > 0 ==> !text::is_white(text::trim_start_of(s)[0]),
{
    lemma_trim_start(s);
    let t = text::trim_start_of(s);
    assert(s =~= s.take(s.len() - t.len()) + t);
}

proof fn lemma_trim_start(s: Seq<char>)
    ensures
        ({
            let t = text::trim_start_of(s);
            &&& t.len() <= s.len()
            &&& s.skip(s.len() - t.len()) =~= t
            &&& blank(s.take(s.len() - t.len()))
            &&& t.len() > 0 ==> !text::is_white(t[0])
        }),
    decreases s.len(),
{
    if s.len() > 0 && text::is_white(s[0]) {
        let u = s.skip(1);
        lemma_trim_start(u);
        let t = text::trim_start_of(s);
        let front = s.take(s.len() - t.len());
        assert forall|i: int| 0 <= i < front.len() implies text::is_white(#[trigger] front[i]) by {
            if i > 0 {
                assert(front[i] == u.take(u.len() - t.len())[i - 1]);
            }
        }
        assert forall|i: int| 0 <= i < t.len() implies s.skip(s.len() - t.len())[i] == t[i] by {
            assert(u.skip(u.len() - t.len())[i] == t[i]);
        }
    }
}

proof fn lemma_trim_end(s: Seq<char>)
    ensures
        ({
            let t = text::trim_end_of(s);
            &&& t.len() <= s.len()
            &&& s.take(t.len() as int) =~= t
            &&& blank(s.skip(t.len() as int))
            &&& t.len() > 0 ==> !text::is_white(t.last())
            &&& s.len() > 0 && !text::is_white(s[0]) ==> t.len() > 0 && t[0] == s[0]
        }),
    decreases s.len(),
{
    if s.len() > 0 && text::is_white(s.last()) {
        let u = s.drop_last();
        lemma_trim_end(u);
        let t = text::trim_end_of(s);
        let back = s.skip(t.len() as int);
        assert forall|i: int| 0 <= i < back.len() implies text::is_white(#[trigger] back[i]) by {
            if i < back.len() - 1 {
                assert(back[i] == u.skip(t.len() as int)[i]);
            }
        }
        assert forall|i: int| 0 <= i < t.len() implies s.take(t.len() as int)[i] == t[i] by {
            assert(u.take(t.len() as int)[i] == t[i]);
        }
    }
}

/// A text is cut at its separators and nowhere else: without one it is one
/// piece, and around one it is the pieces before and the pieces behind.
pub proof fn law_pieces(
    a: Seq<char>,
    c: char,
    b: Seq<char>,
    sep: spec_fn(char) -> bool,
)
    requires
        sep(c),
    ensures
        text::pieces(a.push(c) + b, sep) == text::pieces(a, sep) + text::pieces(b, sep),
        (forall|i: int| 0 <= i < a.len() ==> !sep(#[trigger] a[i])) ==> text::pieces(a, sep)
            == seq![a],
    decreases a.len() + b.len(),
{
    let s = a.push(c) + b;
    if b.len() == 0 {
        assert(s =~= a.push(c));
        assert(s.drop_last() =~= a);
        assert(text::pieces(a, sep).push(Seq::<char>::empty()) =~= text::pieces(a, sep) + seq![
            Seq::<char>::empty(),
        ]);
    } else {
        law_pieces(a, c, b.drop_last(), sep);
        assert(s.drop_last() =~= a.push(c) + b.drop_last());
        assert(s.last() == b.last());
        text::lemma_pieces_len(b.drop_last(), sep);
        let x = text::pieces(a, sep);
        let y = text::pieces(b.drop_last(), sep);
        assert((x + y).last() == y.last());
        assert((x + y).drop_last() =~= x + y.drop_last());
        assert(text::pieces(s, sep) =~= x + text::pieces(b, sep));
    }
    if (forall|i: int| 0 <= i < a.len() ==> !sep(#[trigger] a[i])) && a.len() > 0 {
        let f = a.drop_last();
        assert forall|i: int| 0 <= i < f.len() implies !sep(#[trigger] f[i]) by {
            assert(f[i] == a[i]);
        }
        law_pieces(f, c, Seq::empty(), sep);
        assert(!sep(a[a.len() - 1]));
        assert(f.push(a.last()) =~= a);
        assert(text::pieces(a, sep) =~= seq![a]);
    } else if a.len() == 0 {
        assert(a =~= Seq::empty());
        assert(text::pieces(a, sep) =~= seq![a]);
    }
}

/// Lines are cut at line feeds and carriage returns; other texts at one character.
pub proof fn law_separators(c: char, x: char)
    ensures
        text::is_char(c)(x) <==> x == c,
        text::is_break()(x) <==> x as u32 == 10 || x as u32 == 13,
{
}

/// What stands in front of a text is taken off as often as it is there.
pub proof fn law_prefixes_are_taken_off(s: Seq<char>, p: Seq<char>, rest: Seq<char>)
    requires
        p.len() > 0,
    ensures
        text::without_prefixes(p + s, p) == text::without_prefixes(s, p),
        text::without_prefixes(s, p) != p + rest,
        (forall|r: Seq<char>| s != #[trigger] (p + r)) ==> text::without_prefixes(s, p) == s,
    decreases s.len(),
{
    assert((p + s).take(p.len() as int) =~= p);
    assert((p + s).skip(p.len() as int) =~= s);
    if text::begins(s, p) {
        let r = s.skip(p.len() as int);
        assert(s =~= p + r);
        law_prefixes_are_taken_off(r, p, rest);
    } else if s == p + rest {
        assert(s.take(p.len() as int) =~= p);
    }
}

/// What stands at the end of a text is taken off as often as it is there.
pub proof fn law_trailing_is_taken_off(s: Seq<char>, c: char)
    ensures
        ({
            let r = text::without_trailing(s, c);
            &&& r.len() <= s.len() && s.take(r.len() as int) == r
            &&& forall|i: int| r.len() <= i < s.len() ==> #[trigger] s[i] == c
            &&& r.len() > 0 ==> r.last() != c
        }),
    decreases s.len(),
{
    if s.len() > 0 && s.last() == c {
        let u = s.drop_last();
        law_trailing_is_taken_off(u, c);
        let r = text::without_trailing(s, c);
        assert(s.take(r.len() as int) =~= u.take(r.len() as int));
        assert forall|i: int| r.len() <= i < s.len() implies #[trigger] s[i] == c by {
            if i < u.len() {
                assert(s[i] == u[i]);
            }
        }
    } else {
        assert(s.take(s.len() as int) =~= s);
    }
}

/// Lower case changes the letters from A to Z, by 32, and nothing else.
pub proof fn law_lower_case(s: Seq<char>, i: int)
    requires
        0 <= i < s.len(),
    ensures
        text::ascii_lower_of(s).len() == s.len(),
        65 <= s[i] as u32 <= 90 ==> text::ascii_lower_of(s)[i] as u32 == s[i] as u32 + 32,
        !(65 <= s[i] as u32 <= 90) ==> text::ascii_lower_of(s)[i] == s[i],
{
}

/// Dropping characters keeps all others, in order.
pub proof fn law_dropping(s: Seq<char>, a: char, b: char, c: char)
    ensures
        text::dropping_of(s, a, b, c) == s.filter(|x: char| x != a && x != b && x != c),
    decreases s.len(),
{
    reveal(Seq::filter);
    if s.len() > 0 {
        law_dropping(s.drop_last(), a, b, c);
    } else {
        assert(s.filter(|x: char| x != a && x != b && x != c) =~= s);
    }
}

/// Swapping a character changes it wherever it stands, and nothing else.
pub proof fn law_swapped(s: Seq<char>, from: char, to: char, i: int)
    requires
        0 <= i < s.len(),
    ensures
        text::swapped_of(s, from, to).len() == s.len(),
        text::swapped_of(s, from, to)[i] == (if s[i] == from {
            to
        } else {
            s[i]
        }),
{
}

/// A number is written in base ten, without leading zeros.
pub proof fn law_decimal(n: nat, d: nat)
    requires
        d < 10,
    ensures
        text::decimal_of(d).len() == 1 && text::decimal_of(d)[0] as u32 == 48 + d,
        n > 0 ==> text::decimal_of(10 * n + d) == text::decimal_of(n) + text::decimal_of(d),
        text::signed_of(-(n as int) - 1) == seq!['-'] + text::decimal_of(n + 1),
        text::signed_of(n as int) == text::decimal_of(n),
{
    if n > 0 {
        assert((10 * n + d) / 10 == n && (10 * n + d) % 10 == d);
        assert(text::decimal_of(n).push((48 + d) as char) =~= text::decimal_of(n)
            + text::decimal_of(d));
    }
    assert(-(-(n as int) - 1) == n + 1);
}

proof fn lemma_decimal_value(n: nat)
    ensures
        text::digits_value(text::decimal_of(n)) == n,
        text::all_digits(text::decimal_of(n)),
        text::decimal_of(n).len() > 0,
    decreases n,
{
    reveal_with_fuel(text::digits_value, 2);
    if n >= 10 {
        lemma_decimal_value(n / 10);
        let a = text::decimal_of(n / 10);
        let c = (48 + n % 10) as char;
        assert(a.push(c).drop_last() =~= a);
        assert(c as int - 48 == n % 10);
        assert forall|i: int| 0 <= i < a.push(c).len() implies text::is_digit(
            #[trigger] a.push(c)[i],
        ) by {
            if i < a.len() {
                assert(text::is_digit(a[i]));
            }
        }
    } else {
        let s = text::decimal_of(n);
        assert(s.drop_last() =~= Seq::empty());
    }
}

/// A number that was written reads back, with a plus sign too; no other
/// character is taken for a digit.
pub proof fn law_numbers_read_back(i: i32, s: Seq<char>, k: int)
    ensures
        text::i32_of(text::signed_of(i as int)) == Some(i),
        i >= 0 ==> text::i32_of(seq!['+'] + text::signed_of(i as int)) == Some(i),
        text::i32_of(Seq::empty()) is None,
        0 < k < s.len() && !(48 <= s[k] as u32 <= 57) ==> text::i32_of(s) is None,
        s.len() > 0 && !(48 <= s[0] as u32 <= 57) && s[0] != '-' && s[0] != '+' ==> text::i32_of(s)
            is None,
{
    let n: nat = if i < 0 {
        (-(i as int)) as nat
    } else {
        i as nat
    };
    lemma_decimal_value(n);
    let d = text::decimal_of(n);
    assert(text::is_digit(d[0]));
    assert((seq!['-'] + d).skip(1) =~= d);
    assert((seq!['+'] + d).skip(1) =~= d);
    if 0 < k < s.len() && !(48 <= s[k] as u32 <= 57) {
        if s[0] == '-' || s[0] == '+' {
            assert(!text::is_digit(s.skip(1)[k - 1]));
        } else {
            assert(!text::is_digit(s[k]));
        }
    }
    if s.len() > 0 && !(48 <= s[0] as u32 <= 57) {
        assert(!text::is_digit(s[0]));
    }
}

/// Every byte is written as two digits, the higher one first.
pub proof fn law_hex(bytes: Seq<u8>, i: int)
    requires
        0 <= i < bytes.len(),
    ensures
        text::hex_bytes_of(bytes).len() == 2 * bytes.len(),
        text::hex_bytes_of(bytes)[2 * i] == "0123456789abcdef"@[bytes[i] as int / 16],
        text::hex_bytes_of(bytes)[2 * i + 1] == "0123456789abcdef"@[bytes[i] as int % 16],
    decreases bytes.len(),
{
    reveal_strlit("0123456789abcdef");
    text::lemma_hex_bytes_len(bytes);
    text::lemma_hex_bytes_len(bytes.drop_last());
    if i < bytes.len() - 1 {
        law_hex(bytes.drop_last(), i);
    }
}

/// What is shown of a text is escaped character by character.
pub proof fn law_escapes(a: Seq<char>, b: Seq<char>, c: char)
    ensures
        text::escaped_of(a + b) == text::escaped_of(a) + text::escaped_of(b),
        32 <= c as u32 <= 126 && c != '"' && c != '\'' && c != '\\' ==> text::escaped_of(seq![c])
            == seq![c],
        c == '"' || c == '\'' || c == '\\' ==> text::escaped_of(seq![c]) == seq!['\\', c],
        text::escaped_of(seq!['\n']) == seq!['\\', 'n'],
        text::escaped_of(seq!['\r']) == seq!['\\', 'r'],
        text::escaped_of(seq!['\t']) == seq!['\\', 't'],
    decreases b.len(),
{
    reveal_with_fuel(text::escaped_of, 2);
    assert(seq![c].drop_last() =~= Seq::empty());
    assert(seq!['\n'].drop_last() =~= Seq::empty());
    assert(seq!['\r'].drop_last() =~= Seq::empty());
    assert(seq!['\t'].drop_last() =~= Seq::empty());
    assert(Seq::<char>::empty() + text::escape_of(c) =~= text::escape_of(c));
    assert(Seq::<char>::empty() + text::escape_of('\n') =~= text::escape_of('\n'));
    assert(Seq::<char>::empty() + text::escape_of('\r') =~= text::escape_of('\r'));
    assert(Seq::<char>::empty() + text::escape_of('\t') =~= text::escape_of('\t'));
    if b.len() > 0 {
        law_escapes(a, b.drop_last(), c);
        assert((a + b).drop_last() =~= a + b.drop_last());
        assert(text::escaped_of(a + b) =~= text::escaped_of(a) + text::escaped_of(b));
    } else {
        assert(a + b =~= a);
        assert(text::escaped_of(a) + text::escaped_of(b) =~= text::escaped_of(a));
    }
}

/// The head of a text is as long as it may be.
pub proof fn law_head(s: Seq<char>, limit: nat)
    ensures
        text::head_of(s, limit).len() == if s.len() < limit {
            s.len()
        } else {
            limit
        },
        forall|i: int|
            0 <= i < text::head_of(s, limit).len() ==> #[trigger] text::head_of(s, limit)[i]
                == s[i],
{
}

/// A new text is added at the end; one that is there, or empty, is not.
pub proof fn law_new_texts(out: Seq<Seq<char>>, s: Seq<char>)
    ensures
        s.len() > 0 ==> text::with_new(out, s).contains(s),
        out.is_prefix_of(text::with_new(out, s)),
        out.contains(s) || s.len() == 0 ==> text::with_new(out, s) == out,
        !out.contains(s) && s.len() > 0 ==> text::with_new(out, s) == out + seq![s],
{
    if !out.contains(s) && s.len() > 0 {
        assert(out.push(s) =~= out + seq![s]);
        assert(out.push(s).last() == s);
    }
}

} // verus!
