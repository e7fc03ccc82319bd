//! Cutting a range of rows into pieces for the threads of a pool.
use vstd::prelude::*;

verus! {

/// The first row of piece number `p` when `len` rows are cut into `n` pieces.
pub open spec fn piece_offset(len: int, n: int, p: int) -> int {
    p * (len / n)
}

/// The number of rows of piece number `p`: all pieces have the same, except
/// that the last one also takes the rows left over.
pub open spec fn piece_len(len: int, n: int, p: int) -> int {
    if p == n - 1 {
        len - piece_offset(len, n, p)
    } else {
        len / n
    }
}

/// The number of the piece that a row lies in.
pub open spec fn piece_of(len: int, n: int, row: int) -> int {
    if len / n == 0 || row / (len / n) >= n {
        n - 1
    } else {
        row / (len / n)
    }
}

/// The position of a row within its piece.
pub open spec fn place_in_piece(len: int, n: int, row: int) -> int {
    row - piece_offset(len, n, piece_of(len, n, row))
}

/// What piece number `p` of `n` holds of a sequence with one entry per row.
pub open spec fn piece_rows<T>(whole: Seq<T>, n: int, p: int) -> Seq<T> {
    let offset = piece_offset(whole.len() as int, n, p);
    whole.subrange(offset, offset + piece_len(whole.len() as int, n, p))
}

/// Cuts `len` rows into `n` pieces, each given by its first row and its
/// number of rows.
pub fn split_offsets(len: usize, n: usize) -> (pieces: Vec<(usize, usize)>)
    requires
        n >= 1,
    ensures
        pieces.len() == n,
        forall|p: int|
            0 <= p < n ==> (#[trigger] pieces[p]).0 == piece_offset(len as int, n as int, p),
        forall|p: int|
            0 <= p < n ==> (#[trigger] pieces[p]).1 == piece_len(len as int, n as int, p),
        pieces[0].0 == 0,
        pieces[n - 1].0 + pieces[n - 1].1 == len,
        forall|p: int|
            0 < p < n ==> (#[trigger] pieces[p]).0 == pieces[p - 1].0 + pieces[p - 1].1,
        forall|p: int| 0 <= p < n - 1 ==> (#[trigger] pieces[p]).1 == len as int / n as int,
{
    let mut pieces: Vec<(usize, usize)> = Vec::new();
    if n == 1 {
        proof {
            lemma_piece_bounds(len as int, 1, 0);
        }
        pieces.push((0, len));
        return pieces;
    }
    let chunk_size: usize = len / n;
    let mut partition: usize = 0;
    while partition < n
        invariant
            n >= 1,
            chunk_size == len as int / n as int,
            partition <= n,
            pieces.len() == partition,
            forall|p: int|
                0 <= p < partition ==> (#[trigger] pieces[p]).0 == piece_offset(
                    len as int,
                    n as int,
                    p,
                ),
            forall|p: int|
                0 <= p < partition ==> (#[trigger] pieces[p]).1 == piece_len(
                    len as int,
                    n as int,
                    p,
                ),
        decreases n - partition,
    {
        proof {
            lemma_piece_bounds(len as int, n as int, partition as int);
        }
        let offset: usize = partition * chunk_size;
        let size: usize = if partition == n - 1 {
            len - offset
        } else {
            chunk_size
        };
        pieces.push((offset, size));
        partition = partition + 1;
    }
    proof {
        lemma_piece_bounds(len as int, n as int, 0);
        lemma_piece_bounds(len as int, n as int, n - 1);
        assert forall|p: int| 0 < p < n implies (#[trigger] pieces[p]).0 == pieces[p - 1].0
            + pieces[p - 1].1 by {
            lemma_piece_bounds(len as int, n as int, p - 1);
        }
    }
    pieces
}

/// A piece lies within the rows, and the next one starts where it ends.
pub proof fn lemma_piece_bounds(len: int, n: int, p: int)
    requires
        0 <= len,
        0 <= p < n,
    ensures
        0 <= len / n,
        0 <= piece_offset(len, n, p),
        p == 0 ==> piece_offset(len, n, p) == 0,
        0 <= piece_len(len, n, p),
        piece_offset(len, n, p) + piece_len(len, n, p) <= len,
        p < n - 1 ==> piece_offset(len, n, p) + piece_len(len, n, p) == piece_offset(len, n, p + 1),
        p == n - 1 ==> piece_offset(len, n, p) + piece_len(len, n, p) == len,
{
    let c = len / n;
    assert(0 <= c && n * c <= len) by (nonlinear_arith)
        requires
            0 <= len,
            0 < n,
            c == len / n,
    ;
    assert(0 <= p * c && p * c + c == (p + 1) * c && (p + 1) * c <= n * c && 0 * c == 0)
        by (nonlinear_arith)
        requires
            0 <= c,
            0 <= p < n,
    ;
}

/// Every row lies in one of the pieces, at a place within it.
pub proof fn lemma_row_has_place(len: int, n: int, row: int)
    requires
        0 <= row < len,
        0 < n,
    ensures
        0 <= piece_of(len, n, row) < n,
        0 <= place_in_piece(len, n, row) < piece_len(len, n, piece_of(len, n, row)),
        row == piece_offset(len, n, piece_of(len, n, row)) + place_in_piece(len, n, row),
{
    let c = len / n;
    let p = piece_of(len, n, row);
    lemma_piece_bounds(len, n, n - 1);
    if c == 0 {
        assert((n - 1) * c == 0) by (nonlinear_arith)
            requires
                c == 0,
        ;
    } else {
        let q = row / c;
        assert(0 <= q && q * c <= row && row < q * c + c) by (nonlinear_arith)
            requires
                0 <= row,
                0 < c,
                q == row / c,
        ;
        if q >= n {
            assert((n - 1) * c <= q * c) by (nonlinear_arith)
                requires
                    n <= q,
                    0 < c,
            ;
        }
    }
}

/// A row of a piece lies in that piece and in no other.
pub proof fn lemma_place_is_unique(len: int, n: int, p: int, i: int)
    requires
        0 <= len,
        0 <= p < n,
        0 <= i < piece_len(len, n, p),
    ensures
        0 <= piece_offset(len, n, p) + i < len,
        piece_of(len, n, piece_offset(len, n, p) + i) == p,
        place_in_piece(len, n, piece_offset(len, n, p) + i) == i,
{
    let c = len / n;
    let row = piece_offset(len, n, p) + i;
    lemma_piece_bounds(len, n, p);
    if c > 0 {
        let q = row / c;
        if p < n - 1 {
            assert(q == p) by (nonlinear_arith)
                requires
                    row == p * c + i,
                    0 <= i < c,
                    q == row / c,
            ;
        } else {
            assert(q >= p) by (nonlinear_arith)
                requires
                    row == p * c + i,
                    0 <= i,
                    0 < c,
                    q == row / c,
            ;
        }
    }
}

/// The pieces of a sequence, one after the other, make up the sequence.
pub proof fn lemma_join<T>(parts: Seq<Seq<T>>, whole: Seq<T>, n: int)
    requires
        0 < n,
        parts.len() == n,
        forall|p: int| 0 <= p < n ==> #[trigger] parts[p] == piece_rows(whole, n, p),
    ensures
        parts.flatten() == whole,
{
    parts.lemma_flatten_and_flatten_alt_are_equivalent();
    lemma_join_prefix(parts, whole, n, n);
    assert(parts.take(n) == parts);
}

/// The first `k` pieces make up the sequence as far as they reach.
proof fn lemma_join_prefix<T>(parts: Seq<Seq<T>>, whole: Seq<T>, n: int, k: int)
    requires
        0 < n,
        0 <= k <= n,
        parts.len() == n,
        forall|p: int| 0 <= p < n ==> #[trigger] parts[p] == piece_rows(whole, n, p),
    ensures
        k < n ==> parts.take(k).flatten_alt() == whole.take(
            piece_offset(whole.len() as int, n, k),
        ),
        k == n ==> parts.take(k).flatten_alt() == whole,
    decreases k,
{
    let len = whole.len() as int;
    if k == 0 {
        lemma_piece_bounds(len, n, 0);
        assert(parts.take(0).flatten_alt() == Seq::<T>::empty());
        assert(whole.take(0) == Seq::<T>::empty());
    } else {
        lemma_join_prefix(parts, whole, n, k - 1);
        lemma_piece_bounds(len, n, k - 1);
        assert(parts.take(k).drop_last() == parts.take(k - 1));
        assert(parts.take(k).last() == parts[k - 1]);
        let end = piece_offset(len, n, k - 1) + piece_len(len, n, k - 1);
        assert(whole.take(piece_offset(len, n, k - 1)) + parts[k - 1] =~= whole.take(end));
        assert(whole.take(len) =~= whole);
    }
}

} // verus!
