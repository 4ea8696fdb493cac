//! Work over many items, some at a time.
use vstd::prelude::*;
use vstd::string::*;

use crate::text;

verus! {

/// At least one.
pub open spec fn at_least_one(n: usize) -> usize {
    if n < 1 {
        1
    } else {
        n
    }
}

/// At least one.
pub fn positive(n: usize) -> (r: usize)
    ensures
        r == at_least_one(n),
        r >= 1,
{
    if n < 1 {
        1
    } else {
        n
    }
}

/// The items cut into pieces of `size`, the last of which may be shorter.
pub open spec fn cut(items: Seq<Seq<char>>, size: int) -> Seq<Seq<Seq<char>>>
    decreases items.len(),
{
    if items.len() == 0 || size < 1 {
        Seq::empty()
    } else if items.len() <= size {
        seq![items]
    } else {
        seq![items.take(size)] + cut(items.skip(size), size)
    }
}

/// The texts of each piece.
pub open spec fn piece_texts(v: Seq<Vec<String>>) -> Seq<Seq<Seq<char>>> {
    v.map_values(|p: Vec<String>| text::texts(p@))
}

/// The items cut into pieces of `batch_size`, one after the other; a size of
/// zero counts as one.
pub fn batches(items: &Vec<String>, batch_size: usize) -> (r: Vec<Vec<String>>)
    ensures
        piece_texts(r@) == cut(text::texts(items@), at_least_one(batch_size) as int),
{
    let size = positive(batch_size);
    let ghost all = text::texts(items@);
    let mut out: Vec<Vec<String>> = Vec::new();
    let n: usize = items.len();
    let mut start: usize = 0;
    proof {
        assert(all.skip(0) =~= all);
        assert(piece_texts(out@) + cut(all, size as int) =~= cut(all, size as int));
    }
    while start < n
        invariant
            n == items@.len(),
            start <= n,
            size >= 1,
            all == text::texts(items@),
            piece_texts(out@) + cut(all.skip(start as int), size as int) == cut(all, size as int),
        decreases n - start,
    {
        let end: usize = if n - start <= size {
            n
        } else {
            start + size
        };
        let ghost rest = all.skip(start as int);
        let mut piece: Vec<String> = Vec::new();
        let mut i: usize = start;
        while i < end
            invariant
                start <= i <= end <= n,
                n == items@.len(),
                all == text::texts(items@),
                rest == all.skip(start as int),
                text::texts(piece@) =~= rest.take(i - start),
            decreases end - i,
        {
            let ghost held = piece@;
            piece.push(items[i].clone());
            proof {
                assert(text::texts(piece@) =~= text::texts(held).push(items@[i as int]@));
                assert(rest.take(i + 1 - start) =~= rest.take(i - start).push(items@[i as int]@));
            }
            i += 1;
        }
        let ghost before = out@;
        out.push(piece);
        proof {
            let p = rest.take(end - start);
            assert(piece_texts(out@) =~= piece_texts(before).push(p));
            if rest.len() <= size {
                assert(p =~= rest);
                assert(all.skip(end as int) =~= Seq::empty());
            } else {
                assert(rest.skip(size as int) =~= all.skip(end as int));
            }
            assert(piece_texts(out@) + cut(all.skip(end as int), size as int) =~= piece_texts(
                before,
            ) + cut(rest, size as int));
        }
        start = end;
    }
    proof {
        assert(all.skip(start as int) =~= Seq::empty());
        assert(piece_texts(out@) =~= cut(all, size as int));
    }
    out
}

/// The pieces one after the other.
pub open spec fn rejoined(pieces: Seq<Seq<Seq<char>>>) -> Seq<Seq<char>>
    decreases pieces.len(),
{
    if pieces.len() == 0 {
        Seq::empty()
    } else {
        pieces[0] + rejoined(pieces.drop_first())
    }
}

/// Every item is in exactly one piece and in its place, and no piece is empty
/// or longer than `size`.
pub proof fn law_no_item_is_lost(items: Seq<Seq<char>>, size: int)
    requires
        size >= 1,
    ensures
        rejoined(cut(items, size)) == items,
        forall|i: int|
            0 <= i < cut(items, size).len() ==> 1 <= (#[trigger] cut(items, size)[i]).len() <= size,
    decreases items.len(),
{
    let c = cut(items, size);
    if items.len() == 0 {
        assert(items =~= Seq::empty());
    } else if items.len() <= size {
        assert(c.drop_first() =~= Seq::empty());
        assert(rejoined(c.drop_first()) =~= Seq::empty());
        assert(c[0] + rejoined(c.drop_first()) =~= items);
    } else {
        law_no_item_is_lost(items.skip(size), size);
        assert(c.drop_first() =~= cut(items.skip(size), size));
        assert(items.take(size) + items.skip(size) =~= items);
        assert forall|i: int| 0 <= i < c.len() implies 1 <= (#[trigger] c[i]).len() <= size by {
            if i > 0 {
                assert(c[i] == cut(items.skip(size), size)[i - 1]);
            }
        }
    }
}

} // verus!
