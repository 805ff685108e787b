//! Buffer items and the flat run of cells that a buffer of them covers.

use vstd::prelude::*;
use vstd::arithmetic::div_mod::{
    lemma_breakdown, lemma_div_pos_is_pos, lemma_fundamental_div_mod,
    lemma_fundamental_div_mod_converse, lemma_mod_pos_bound,
};

verus! {

/// One single-precision number, held as its bit pattern.
pub type Scalar = u32;

/// `R` rows of `C` scalars each, stored row after row without gaps.
pub type Matrix<const R: usize, const C: usize> = [[Scalar; C]; R];

/// Items that a buffer holds, like a scalar or a matrix of scalars.
///
/// A buffer handed to a foreign consumer contains primitive cells only, so
/// two 3-vectors are six scalars there. The trait gives the flat run of cells
/// that a buffer of items covers, as a view of the same memory.
pub trait Storable: Copy + Sized {
    /// The primitive type this type is built of. A primitive type is its own
    /// cell.
    type Cell: Copy;

    /// How many cells one item is made of.
    spec fn width() -> nat;

    /// The cells of one item, in the order in which they are stored.
    spec fn cells(self) -> Seq<Self::Cell>;

    /// Every item has as many cells as its type says.
    proof fn cells_fill_width(self)
        ensures
            self.cells().len() == Self::width(),
    ;

    /// Views a buffer of items as the run of their cells: item after item,
    /// each with its cells in stored order. The run is `flattened(buffer@)`.
    fn slice_to_items(buffer: &[Self]) -> (items: &[Self::Cell])
        ensures
            items@.len() == buffer@.len() * Self::width(),
            forall|k: int|
                0 <= k < items@.len() ==> {
                    let item = buffer@[k / (Self::width() as int)];
                    #[trigger] items@[k] == item.cells()[k % (Self::width() as int)]
                },
    ;

    /// Views a run of cells as the buffer of items stored in it. There is
    /// such a buffer where items have cells and the run holds a whole number
    /// of items; `items@` is then `flattened` of it.
    fn slice_from_items(items: &[Self::Cell]) -> (buffer: Option<&[Self]>)
        ensures
            buffer is Some <==> Self::width() > 0 && items@.len() % Self::width() == 0,
            buffer is Some ==> buffer.unwrap()@.len() * Self::width() == items@.len(),
            buffer is Some ==> forall|k: int|
                0 <= k < items@.len() ==> {
                    let item = buffer.unwrap()@[k / (Self::width() as int)];
                    item.cells()[k % (Self::width() as int)] == #[trigger] items@[k]
                },
    ;
}

/// The cells of every item of `buffer`, item after item.
pub open spec fn flattened<T: Storable>(buffer: Seq<T>) -> Seq<T::Cell> {
    Seq::new(
        buffer.len() * T::width(),
        |k: int| buffer[k / (T::width() as int)].cells()[k % (T::width() as int)],
    )
}

/// A run that is as long as [`Storable::slice_to_items`] promises, and holds
/// at each position the cell that it promises there, is `flattened(buffer)`.
pub proof fn lemma_run_is_flattened<T: Storable>(buffer: Seq<T>, items: Seq<T::Cell>)
    requires
        items.len() == buffer.len() * T::width(),
        forall|k: int|
            0 <= k < items.len() ==> {
                let item = buffer[k / (T::width() as int)];
                #[trigger] items[k] == item.cells()[k % (T::width() as int)]
            },
    ensures
        items == flattened::<T>(buffer),
{
    assert(items =~= flattened::<T>(buffer));
}

impl Storable for Scalar {
    type Cell = Scalar;

    open spec fn width() -> nat {
        1
    }

    open spec fn cells(self) -> Seq<Scalar> {
        seq![self]
    }

    proof fn cells_fill_width(self) {
    }

    fn slice_to_items(buffer: &[Scalar]) -> (items: &[Scalar])
        ensures
            items@ == buffer@,
    {
        buffer
    }

    fn slice_from_items(items: &[Scalar]) -> (buffer: Option<&[Scalar]>)
        ensures
            buffer == Some(items),
    {
        Some(items)
    }
}

impl<const R: usize, const C: usize> Storable for Matrix<R, C> {
    type Cell = Scalar;

    open spec fn width() -> nat {
        (R * C) as nat
    }

    open spec fn cells(self) -> Seq<Scalar> {
        Seq::new((R * C) as nat, |j: int| self@[j / (C as int)]@[j % (C as int)])
    }

    proof fn cells_fill_width(self) {
    }

    fn slice_to_items(buffer: &[Matrix<R, C>]) -> (items: &[Scalar])
        ensures
            items@.len() == buffer@.len() * R * C,
            forall|i: int, r: int, c: int|
                0 <= i < buffer@.len() && 0 <= r < R && 0 <= c < C ==> items@[i * R * C + r * C + c]
                    == #[trigger] buffer@[i]@[r]@[c],
    {
        let ghost count = buffer@.len() as int;
        let ghost height = R as int;
        let ghost breadth = C as int;
        if C == 0 {
            let items: &[Scalar] = &[];
            proof {
                assert(count * height * breadth == 0 && count * (height * breadth) == 0)
                    by (nonlinear_arith)
                    requires
                        breadth == 0,
                ;
            }
            items
        } else {
            let rows = join_matrices(buffer);
            let items = join_rows(rows);
            proof {
                assert(count * height * breadth == count * (height * breadth)) by (nonlinear_arith);
                assert forall|i: int, r: int, c: int|
                    0 <= i < count && 0 <= r < height && 0 <= c < breadth implies items@[i * R * C
                    + r * C + c] == #[trigger] buffer@[i]@[r]@[c] by {
                    lemma_row_index(count, height, breadth, i, r, c);
                    assert(rows@[i * height + r] == buffer@[i]@[r]);
                    assert(items@[(i * height + r) * breadth + c] == rows@[i * height + r]@[c]);
                }
                assert forall|k: int| 0 <= k < items@.len() implies {
                    let item = buffer@[k / (Self::width() as int)];
                    #[trigger] items@[k] == item.cells()[k % (Self::width() as int)]
                } by {
                    lemma_cell_index(count, height, breadth, k);
                    let i = k / (height * breadth);
                    let r = (k % (height * breadth)) / breadth;
                    let c = (k % (height * breadth)) % breadth;
                    assert(items@[i * R * C + r * C + c] == buffer@[i]@[r]@[c]);
                }
            }
            items
        }
    }

    fn slice_from_items(items: &[Scalar]) -> (buffer: Option<&[Matrix<R, C>]>)
        ensures
            buffer is Some <==> R * C > 0 && items@.len() % ((R * C) as nat) == 0,
            buffer is Some ==> buffer.unwrap()@.len() * R * C == items@.len(),
            buffer is Some ==> forall|i: int, r: int, c: int|
                0 <= i < buffer.unwrap()@.len() && 0 <= r < R && 0 <= c < C
                    ==> #[trigger] buffer.unwrap()@[i]@[r]@[c] == items@[i * R * C + r * C + c],
    {
        let ghost length = items@.len() as int;
        let ghost height = R as int;
        let ghost breadth = C as int;
        if R == 0 || C == 0 {
            proof {
                assert(height * breadth == 0) by (nonlinear_arith)
                    requires
                        height == 0 || breadth == 0,
                ;
            }
            return None;
        }
        proof {
            lemma_breakdown(length, breadth, height);
            assert(height * breadth == breadth * height) by (nonlinear_arith);
            assert(0 <= breadth * ((length / breadth) % height)) by (nonlinear_arith)
                requires
                    0 <= (length / breadth) % height,
                    0 < breadth,
            ;
            assert((length / breadth) % height != 0 ==> breadth * ((length / breadth) % height) != 0)
                by (nonlinear_arith)
                requires
                    0 < breadth,
            ;
        }
        let (rows, rest) = split_chunks::<Scalar, C>(items);
        if rest.len() != 0 {
            return None;
        }
        let (buffer, odd) = split_chunks::<[Scalar; C], R>(rows);
        if odd.len() != 0 {
            return None;
        }
        proof {
            let count = buffer@.len() as int;
            lemma_fundamental_div_mod(length, breadth);
            lemma_fundamental_div_mod(length / breadth, height);
            assert(count * height * breadth == length) by (nonlinear_arith)
                requires
                    length == breadth * (length / breadth),
                    length / breadth == height * count,
            ;
            assert(count * height * breadth == count * (height * breadth)) by (nonlinear_arith);
            assert forall|i: int, r: int, c: int|
                0 <= i < count && 0 <= r < height && 0 <= c < breadth implies #[trigger] buffer@[i]@[r]@[c]
                == items@[i * R * C + r * C + c] by {
                lemma_row_index(count, height, breadth, i, r, c);
                assert(buffer@[i]@[r] == rows@[i * height + r]);
                assert(rows@[i * height + r]@[c] == items@[(i * height + r) * breadth + c]);
            }
            assert forall|k: int| 0 <= k < length implies {
                let item = buffer@[k / (Self::width() as int)];
                item.cells()[k % (Self::width() as int)] == #[trigger] items@[k]
            } by {
                lemma_cell_index(count, height, breadth, k);
                let i = k / (height * breadth);
                let r = (k % (height * breadth)) / breadth;
                let c = (k % (height * breadth)) % breadth;
                assert(buffer@[i]@[r]@[c] == items@[i * R * C + r * C + c]);
            }
        }
        Some(buffer)
    }
}

/// `<[T]>::as_chunks`: the arrays of `N` items each that the slice holds from
/// its start on, as a view of the same memory, and behind them the items
/// that are too few for another array. The call panics where `N` is zero.
#[verifier::external_body]
fn split_chunks<T, const N: usize>(items: &[T]) -> (parts: (&[[T; N]], &[T]))
    requires
        N > 0,
    ensures
        parts.0@.len() == items@.len() / (N as nat),
        parts.1@.len() == items@.len() % (N as nat),
        forall|i: int, j: int|
            0 <= i < parts.0@.len() && 0 <= j < N ==> #[trigger] parts.0@[i]@[j] == items@[i * N + j],
        forall|j: int|
            0 <= j < parts.1@.len() ==> #[trigger] parts.1@[j] == items@[parts.0@.len() * N + j],
{
    items.as_chunks::<N>()
}

/// Where cell `c` of row `r` of item `i` lies: rows are counted through the
/// items, cells through the rows.
proof fn lemma_row_index(count: int, height: int, breadth: int, i: int, r: int, c: int)
    requires
        0 <= i < count,
        0 <= r < height,
        0 <= c < breadth,
    ensures
        0 <= i * height + r < count * height,
        (i * height + r) * breadth + c == i * height * breadth + r * breadth + c,
        0 <= i * height * breadth + r * breadth + c < count * height * breadth,
{
    assert(0 <= i * height + r < count * height) by (nonlinear_arith)
        requires
            0 <= i < count,
            0 <= r < height,
    ;
    assert((i * height + r) * breadth + c == i * height * breadth + r * breadth + c)
        by (nonlinear_arith);
    assert(0 <= (i * height + r) * breadth + c < count * height * breadth) by (nonlinear_arith)
        requires
            0 <= i * height + r < count * height,
            0 <= c < breadth,
    ;
}

/// Which item, row and cell position `k` of a flat run belongs to.
proof fn lemma_cell_index(count: int, height: int, breadth: int, k: int)
    requires
        0 < height,
        0 < breadth,
        0 <= k < count * height * breadth,
    ensures
        0 < height * breadth,
        0 <= k / (height * breadth) < count,
        0 <= k % (height * breadth) < height * breadth,
        0 <= (k % (height * breadth)) / breadth < height,
        0 <= (k % (height * breadth)) % breadth < breadth,
        k == (k / (height * breadth)) * height * breadth + ((k % (height * breadth)) / breadth)
            * breadth + (k % (height * breadth)) % breadth,
{
    let w = height * breadth;
    assert(0 < w) by (nonlinear_arith)
        requires
            0 < height,
            0 < breadth,
            w == height * breadth,
    ;
    let i = k / w;
    let j = k % w;
    lemma_fundamental_div_mod(k, w);
    lemma_mod_pos_bound(k, w);
    lemma_div_pos_is_pos(k, w);
    assert(i < count) by (nonlinear_arith)
        requires
            k == w * i + j,
            0 <= j,
            0 < w,
            k < count * height * breadth,
            w == height * breadth,
    ;
    let r = j / breadth;
    let c = j % breadth;
    lemma_fundamental_div_mod(j, breadth);
    lemma_mod_pos_bound(j, breadth);
    lemma_div_pos_is_pos(j, breadth);
    assert(r < height) by (nonlinear_arith)
        requires
            j == breadth * r + c,
            0 <= c,
            0 < breadth,
            j < height * breadth,
    ;
    assert(k == i * height * breadth + r * breadth + c) by (nonlinear_arith)
        requires
            k == w * i + j,
            j == breadth * r + c,
            w == height * breadth,
    ;
}

/// `<[[T; N]]>::as_flattened` on a buffer of matrices, which are arrays of
/// rows: the result is the same memory read as one run of rows, the rows of
/// the first matrix first. The call panics only where the run would hold more
/// than `usize::MAX` rows, which a row of at least one scalar rules out.
#[verifier::external_body]
fn join_matrices<const R: usize, const C: usize>(buffer: &[Matrix<R, C>]) -> (rows: &[[Scalar; C]])
    requires
        C > 0,
    ensures
        rows@.len() == buffer@.len() * R,
        forall|i: int, r: int|
            0 <= i < buffer@.len() && 0 <= r < R ==> rows@[i * R + r] == #[trigger] buffer@[i]@[r],
{
    buffer.as_flattened()
}

/// `<[[T; N]]>::as_flattened` on a run of rows, which are arrays of scalars:
/// the result is the same memory read as one run of scalars, the scalars of
/// the first row first. A scalar has a size, so the call does not panic.
#[verifier::external_body]
fn join_rows<const C: usize>(rows: &[[Scalar; C]]) -> (items: &[Scalar])
    ensures
        items@.len() == rows@.len() * C,
        forall|i: int, c: int|
            0 <= i < rows@.len() && 0 <= c < C ==> items@[i * C + c] == #[trigger] rows@[i]@[c],
{
    rows.as_flattened()
}

/// The flat run of a buffer of matrices holds every cell of every matrix:
/// `R * C` cells for each, and cell `c` of row `r` of matrix `i` at position
/// `i * R * C + r * C + c`. Nothing is reordered, transposed or dropped.
pub proof fn lemma_flattened_matrices<const R: usize, const C: usize>(buffer: Seq<Matrix<R, C>>)
    ensures
        flattened::<Matrix<R, C>>(buffer).len() == buffer.len() * R * C,
        forall|i: int, r: int, c: int|
            0 <= i < buffer.len() && 0 <= r < R && 0 <= c < C ==> flattened::<Matrix<R, C>>(
                buffer,
            )[i * R * C + r * C + c] == #[trigger] buffer[i]@[r]@[c],
{
    let count = buffer.len() as int;
    let height = R as int;
    let breadth = C as int;
    let flat = flattened::<Matrix<R, C>>(buffer);
    assert(count * height * breadth == count * (height * breadth)) by (nonlinear_arith);
    assert forall|i: int, r: int, c: int|
        0 <= i < count && 0 <= r < height && 0 <= c < breadth implies flat[i * R * C + r * C + c]
        == #[trigger] buffer[i]@[r]@[c] by {
        lemma_row_index(count, height, breadth, i, r, c);
        let j = r * breadth + c;
        let k = i * height * breadth + j;
        assert(0 <= j < height * breadth) by {
            lemma_row_index(1, height, breadth, 0, r, c);
        }
        assert(k == i * (height * breadth) + j) by (nonlinear_arith)
            requires
                k == i * height * breadth + j,
        ;
        lemma_fundamental_div_mod_converse(k, height * breadth, i, j);
        lemma_fundamental_div_mod_converse(j, breadth, r, c);
    }
}

/// Round trip from a flat run: a buffer of matrices whose cells are read out
/// of a run of scalars, position by position, flattens to that very run.
pub proof fn lemma_flattened_rebuilt<const R: usize, const C: usize>(
    items: Seq<Scalar>,
    buffer: Seq<Matrix<R, C>>,
)
    requires
        buffer.len() * R * C == items.len(),
        forall|i: int, r: int, c: int|
            0 <= i < buffer.len() && 0 <= r < R && 0 <= c < C ==> #[trigger] buffer[i]@[r]@[c]
                == items[i * R * C + r * C + c],
    ensures
        flattened::<Matrix<R, C>>(buffer) == items,
{
    let flat = flattened::<Matrix<R, C>>(buffer);
    lemma_flattened_matrices(buffer);
    assert forall|k: int| 0 <= k < items.len() implies flat[k] == items[k] by {
        lemma_cell_index(buffer.len() as int, R as int, C as int, k);
        let i = k / (R * C);
        let j = k % (R * C);
        assert(buffer[i]@[j / (C as int)]@[j % (C as int)] == items[k]);
    }
    assert(flat =~= items);
}

/// Round trip from a buffer: two buffers of matrices with cells that flatten
/// to the same run are the same buffer, so the run gives the buffer back.
pub proof fn lemma_flattened_injective<const R: usize, const C: usize>(
    left: Seq<Matrix<R, C>>,
    right: Seq<Matrix<R, C>>,
)
    requires
        R * C > 0,
        flattened::<Matrix<R, C>>(left) == flattened::<Matrix<R, C>>(right),
    ensures
        left == right,
{
    lemma_flattened_matrices(left);
    lemma_flattened_matrices(right);
    assert(left.len() == right.len()) by (nonlinear_arith)
        requires
            left.len() * R * C == right.len() * R * C,
            R * C > 0,
    ;
    assert forall|i: int| 0 <= i < left.len() implies left[i] == right[i] by {
        assert forall|r: int| 0 <= r < R implies left[i]@[r] == right[i]@[r] by {
            assert forall|c: int| 0 <= c < C implies left[i]@[r]@[c] == right[i]@[r]@[c] by {
                assert(left[i]@[r]@[c] == flattened::<Matrix<R, C>>(left)[i * R * C + r * C + c]);
                assert(right[i]@[r]@[c] == flattened::<Matrix<R, C>>(right)[i * R * C + r * C + c]);
            }
            assert(left[i]@[r] =~= right[i]@[r]);
        }
        assert(left[i] =~= right[i]);
    }
    assert(left =~= right);
}

/// A buffer of scalars is its own flat run.
pub proof fn lemma_flattened_scalars(buffer: Seq<Scalar>)
    ensures
        flattened::<Scalar>(buffer) == buffer,
{
    assert(flattened::<Scalar>(buffer) =~= buffer);
}

} // verus!
