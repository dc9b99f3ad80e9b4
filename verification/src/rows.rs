//! Helpers over character rows: fresh copies of rows and row sequences,
//! and the bridge between a row vector and its sequence model.

use vstd::prelude::*;

verus! {

/// A `Vec<char>` and its element-wise view describe the same sequence.
pub broadcast proof fn lemma_vec_char_deep_view(v: Vec<char>)
    ensures
        #[trigger] v.deep_view() == v@,
{
    assert(v.deep_view() =~= v@);
}

/// A fresh row holding `src[start .. end]` of the given row.
pub fn row_slice(src: &Vec<char>, start: usize, end: usize) -> (r: Vec<char>)
    requires
        start <= end <= src@.len(),
    ensures
        r@ == src@.subrange(start as int, end as int),
{
    let mut r: Vec<char> = Vec::new();
    let mut i: usize = start;
    while i < end
        invariant
            start <= i <= end <= src@.len(),
            r@ == src@.subrange(start as int, i as int),
        decreases end - i,
    {
        r.push(src[i]);
        i = i + 1;
        proof {
            assert(r@ =~= src@.subrange(start as int, i as int));
        }
    }
    r
}

/// A fresh copy of one row.
pub fn copy_row(src: &Vec<char>) -> (r: Vec<char>)
    ensures
        r@ == src@,
{
    let r = row_slice(src, 0, src.len());
    proof {
        assert(src@.subrange(0, src@.len() as int) =~= src@);
    }
    r
}

/// A fresh row equal to `row` with `row[start .. end]` cut out.
pub fn cut_row(row: &Vec<char>, start: usize, end: usize) -> (r: Vec<char>)
    requires
        start <= end <= row@.len(),
    ensures
        r@ == row@.take(start as int) + row@.skip(end as int),
{
    let mut r = row_slice(row, 0, start);
    proof {
        assert(r@ =~= row@.take(start as int) + row@.subrange(end as int, end as int));
    }
    let mut i: usize = end;
    while i < row.len()
        invariant
            start <= end <= i <= row@.len(),
            r@ == row@.take(start as int) + row@.subrange(end as int, i as int),
        decreases row@.len() - i,
    {
        r.push(row[i]);
        i = i + 1;
        proof {
            assert(r@ =~= row@.take(start as int) + row@.subrange(end as int, i as int));
        }
    }
    proof {
        assert(row@.subrange(0, start as int) =~= row@.take(start as int));
        assert(row@.subrange(end as int, row@.len() as int) =~= row@.skip(end as int));
    }
    r
}

/// A fresh row equal to `row` with `text` spliced in at column `at`.
pub fn splice_row(row: &Vec<char>, at: usize, text: &Vec<char>) -> (r: Vec<char>)
    requires
        at <= row@.len(),
    ensures
        r@ == row@.take(at as int) + text@ + row@.skip(at as int),
{
    let mut r = row_slice(row, 0, at);
    proof {
        assert(row@.subrange(0, at as int) =~= row@.take(at as int));
    }
    let mut i: usize = 0;
    while i < text.len()
        invariant
            0 <= i <= text@.len(),
            at <= row@.len(),
            r@ == row@.take(at as int) + text@.take(i as int),
        decreases text@.len() - i,
    {
        r.push(text[i]);
        i = i + 1;
        proof {
            assert(r@ =~= row@.take(at as int) + text@.take(i as int));
        }
    }
    proof {
        assert(text@.take(text@.len() as int) =~= text@);
        assert(r@ =~= row@.take(at as int) + text@ + row@.subrange(at as int, at as int));
    }
    let mut j: usize = at;
    while j < row.len()
        invariant
            at <= j <= row@.len(),
            r@ == row@.take(at as int) + text@ + row@.subrange(at as int, j as int),
        decreases row@.len() - j,
    {
        r.push(row[j]);
        j = j + 1;
        proof {
            assert(r@ =~= row@.take(at as int) + text@ + row@.subrange(at as int, j as int));
        }
    }
    proof {
        assert(row@.take(at as int) + text@ + row@.subrange(at as int, row@.len() as int) =~= row@.take(
            at as int,
        ) + text@ + row@.skip(at as int));
    }
    r
}

/// A fresh copy of a whole row sequence.
pub fn copy_lines(src: &Vec<Vec<char>>) -> (r: Vec<Vec<char>>)
    ensures
        r.deep_view() == src.deep_view(),
{
    broadcast use lemma_vec_char_deep_view;

    let mut r: Vec<Vec<char>> = Vec::new();
    let mut i: usize = 0;
    while i < src.len()
        invariant
            0 <= i <= src@.len(),
            r@.len() == i,
            forall|j: int| 0 <= j < i ==> (#[trigger] r@[j])@ == src@[j]@,
        decreases src@.len() - i,
    {
        r.push(copy_row(&src[i]));
        i = i + 1;
    }
    proof {
        assert(r.deep_view() =~~= src.deep_view());
    }
    r
}

} // verus!
