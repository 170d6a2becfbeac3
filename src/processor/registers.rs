//! Column operations shared by the decoder's register traces.
use crate::field::is_elem;
use vstd::prelude::*;

verus! {

/// Every column of `cols` has `n` rows.
pub open spec fn cols_len(cols: Seq<Vec<u128>>, n: int) -> bool {
    forall|i: int| 0 <= i < cols.len() ==> #[trigger] cols[i]@.len() == n
}

/// Every cell of `cols` is a field element.
pub open spec fn cols_elems(cols: Seq<Vec<u128>>) -> bool {
    forall|i: int, j: int|
        0 <= i < cols.len() && 0 <= j < cols[i]@.len() ==> is_elem(#[trigger] cols[i]@[j])
}

/// Every cell of `cols` is 0 or 1.
pub open spec fn cols_bits(cols: Seq<Vec<u128>>) -> bool {
    forall|i: int, j: int|
        0 <= i < cols.len() && 0 <= j < cols[i]@.len() ==> #[trigger] cols[i]@[j] == 0 || cols[i]@[j]
            == 1
}

/// Rows below `upto` of the columns of `a` are unchanged in `b`.
pub open spec fn cols_kept(a: Seq<Vec<u128>>, b: Seq<Vec<u128>>, upto: int) -> bool {
    &&& a.len() <= b.len()
    &&& forall|i: int, j: int|
        0 <= i < a.len() && 0 <= j < upto ==> #[trigger] b[i]@[j] == a[i]@[j]
}

/// Only row `row` of the columns may differ between `a` and `b`.
pub open spec fn cols_same_but_row(a: Seq<Vec<u128>>, b: Seq<Vec<u128>>, row: int) -> bool {
    &&& a.len() == b.len()
    &&& forall|i: int| 0 <= i < a.len() ==> #[trigger] b[i]@.len() == a[i]@.len()
    &&& forall|i: int, j: int|
        0 <= i < a.len() && 0 <= j < a[i]@.len() && j != row ==> #[trigger] b[i]@[j] == a[i]@[j]
}

/// The values of the first `depth` columns at `row`: a stack, top first.
pub open spec fn stack_at(cols: Seq<Vec<u128>>, depth: int, row: int) -> Seq<u128> {
    Seq::new(depth as nat, |i: int| cols[i]@[row])
}

/// A column of `n` zeros.
pub fn zeros(n: usize) -> (r: Vec<u128>)
    ensures
        r@ == Seq::new(n as nat, |j: int| 0u128),
{
    let mut r: Vec<u128> = Vec::new();
    while r.len() < n
        invariant
            r.len() <= n,
            forall|j: int| 0 <= j < r.len() ==> r@[j] == 0,
        decreases n - r.len(),
    {
        r.push(0);
    }
    assert(r@ =~= Seq::new(n as nat, |j: int| 0u128));
    r
}

/// `col` followed by zeros up to `n` rows.
fn grown(col: &Vec<u128>, n: usize) -> (r: Vec<u128>)
    requires
        col.len() <= n,
    ensures
        r@.len() == n,
        forall|j: int| 0 <= j < col.len() ==> r@[j] == col@[j],
        forall|j: int| col.len() <= j < n ==> r@[j] == 0,
{
    let mut r: Vec<u128> = Vec::new();
    let mut j: usize = 0;
    while j < n
        invariant
            j <= n,
            r.len() == j,
            forall|k: int| 0 <= k < j && k < col.len() ==> r@[k] == col@[k],
            forall|k: int| col.len() <= k < j ==> r@[k] == 0,
        decreases n - j,
    {
        if j < col.len() {
            r.push(col[j]);
        } else {
            r.push(0);
        }
        j += 1;
    }
    r
}

/// Every column of `cols`, extended with zeros to `n` rows.
pub fn grow_columns(cols: &Vec<Vec<u128>>, n: usize) -> (r: Vec<Vec<u128>>)
    requires
        forall|i: int| 0 <= i < cols.len() ==> #[trigger] cols@[i]@.len() <= n,
    ensures
        r.len() == cols.len(),
        cols_len(r@, n as int),
        forall|i: int, j: int|
            0 <= i < cols.len() && 0 <= j < cols@[i]@.len() ==> #[trigger] r@[i]@[j] == cols@[i]@[j],
        forall|i: int, j: int|
            0 <= i < cols.len() && cols@[i]@.len() <= j < n ==> #[trigger] r@[i]@[j] == 0,
{
    let mut r: Vec<Vec<u128>> = Vec::new();
    let mut i: usize = 0;
    while i < cols.len()
        invariant
            i <= cols.len(),
            r.len() == i,
            forall|k: int| 0 <= k < cols.len() ==> #[trigger] cols@[k]@.len() <= n,
            cols_len(r@, n as int),
            forall|k: int, j: int|
                0 <= k < i && 0 <= j < cols@[k]@.len() ==> #[trigger] r@[k]@[j] == cols@[k]@[j],
            forall|k: int, j: int|
                0 <= k < i && cols@[k]@.len() <= j < n ==> #[trigger] r@[k]@[j] == 0,
        decreases cols.len() - i,
    {
        let c = grown(&cols[i], n);
        r.push(c);
        i += 1;
    }
    r
}

/// Pushes `top` onto the stack held in `cols`: at `row`, column `i + 1` takes the value
/// of column `i` at `row - 1`, and column 0 takes `top`.
pub fn shift_right(cols: &mut Vec<Vec<u128>>, row: usize, top: u128)
    requires
        0 < row,
        old(cols).len() >= 1,
        forall|i: int| 0 <= i < old(cols).len() ==> row < #[trigger] old(cols)@[i]@.len(),
    ensures
        cols_same_but_row(old(cols)@, final(cols)@, row as int),
        final(cols)@[0]@[row as int] == top,
        forall|i: int|
            1 <= i < old(cols).len() ==> #[trigger] final(cols)@[i]@[row as int] == old(cols)@[i
                - 1]@[row - 1],
{
    let mut i: usize = 1;
    while i < cols.len()
        invariant
            1 <= i <= cols.len(),
            0 < row,
            cols.len() == old(cols).len(),
            cols_same_but_row(old(cols)@, cols@, row as int),
            forall|k: int| 0 <= k < old(cols).len() ==> row < #[trigger] old(cols)@[k]@.len(),
            forall|k: int| 1 <= k < i ==> #[trigger] cols@[k]@[row as int] == old(cols)@[k - 1]@[row - 1],
        decreases cols.len() - i,
    {
        let v = cols[i - 1][row - 1];
        cols[i][row] = v;
        i += 1;
    }
    cols[0][row] = top;
}

/// Pops the stack held in `cols`: at `row`, column `i` takes the value of column
/// `i + 1` at `row - 1`.
pub fn shift_left(cols: &mut Vec<Vec<u128>>, row: usize)
    requires
        0 < row,
        forall|i: int| 0 <= i < old(cols).len() ==> row < #[trigger] old(cols)@[i]@.len(),
    ensures
        cols_same_but_row(old(cols)@, final(cols)@, row as int),
        forall|i: int|
            0 <= i < old(cols).len() - 1 ==> #[trigger] final(cols)@[i]@[row as int] == old(cols)@[i
                + 1]@[row - 1],
        old(cols).len() > 0 ==> final(cols)@[old(cols).len() - 1]@[row as int] == old(cols)@[old(
            cols).len() - 1]@[row as int],
{
    let mut i: usize = 1;
    while i < cols.len()
        invariant
            1 <= i,
            i <= cols.len() || cols.len() == 0,
            0 < row,
            cols.len() == old(cols).len(),
            cols_same_but_row(old(cols)@, cols@, row as int),
            forall|k: int| 0 <= k < old(cols).len() ==> row < #[trigger] old(cols)@[k]@.len(),
            forall|k: int| 0 <= k < i - 1 && k < cols.len() - 1 ==> #[trigger] cols@[k]@[row as int] == old(cols)@[k + 1]@[row - 1],
            cols.len() > 0 ==> cols@[cols.len() - 1]@[row as int] == old(cols)@[cols.len() - 1]@[row as int],
        decreases cols.len() - i,
    {
        let v = cols[i][row - 1];
        cols[i - 1][row] = v;
        i += 1;
    }
}

/// Copies every column's value at `row - 1` into `row`.
pub fn copy_forward(cols: &mut Vec<Vec<u128>>, row: usize)
    requires
        0 < row,
        forall|i: int| 0 <= i < old(cols).len() ==> row < #[trigger] old(cols)@[i]@.len(),
    ensures
        cols_same_but_row(old(cols)@, final(cols)@, row as int),
        forall|i: int|
            0 <= i < old(cols).len() ==> #[trigger] final(cols)@[i]@[row as int] == old(cols)@[i]@[row
                - 1],
{
    let mut i: usize = 0;
    while i < cols.len()
        invariant
            i <= cols.len(),
            0 < row,
            cols.len() == old(cols).len(),
            cols_same_but_row(old(cols)@, cols@, row as int),
            forall|k: int| 0 <= k < old(cols).len() ==> row < #[trigger] old(cols)@[k]@.len(),
            forall|k: int| 0 <= k < i ==> #[trigger] cols@[k]@[row as int] == old(cols)@[k]@[row - 1],
        decreases cols.len() - i,
    {
        let v = cols[i][row - 1];
        cols[i][row] = v;
        i += 1;
    }
}

/// Sets rows `from..` of column `i` to `value`.
pub fn fill_register(cols: &mut Vec<Vec<u128>>, i: usize, from: usize, value: u128)
    requires
        i < old(cols).len(),
    ensures
        final(cols).len() == old(cols).len(),
        forall|k: int| 0 <= k < old(cols).len() && k != i ==> #[trigger] final(cols)@[k] == old(cols)@[k],
        final(cols)@[i as int]@.len() == old(cols)@[i as int]@.len(),
        forall|j: int|
            0 <= j < old(cols)@[i as int]@.len() ==> #[trigger] final(cols)@[i as int]@[j] == if j < from {
                old(cols)@[i as int]@[j]
            } else {
                value
            },
{
    let mut j: usize = from;
    let n = cols[i].len();
    while j < n
        invariant
            i < old(cols).len(),
            cols.len() == old(cols).len(),
            forall|k: int| 0 <= k < old(cols).len() && k != i ==> #[trigger] cols@[k] == old(cols)@[k],
            n == old(cols)@[i as int]@.len(),
            cols@[i as int]@.len() == n,
            from <= j || n <= j,
            forall|k: int|
                0 <= k < n ==> #[trigger] cols@[i as int]@[k] == if k < from || k >= j {
                    old(cols)@[i as int]@[k]
                } else {
                    value
                },
        decreases n - j,
    {
        cols[i][j] = value;
        j += 1;
    }
}


/// Sets rows `from..` of every column to `value`.
pub fn fill_rows(cols: &mut Vec<Vec<u128>>, from: usize, value: u128)
    ensures
        final(cols).len() == old(cols).len(),
        forall|i: int| 0 <= i < old(cols).len() ==> #[trigger] final(cols)@[i]@.len() == old(cols)@[i]@.len(),
        forall|i: int, j: int|
            0 <= i < old(cols).len() && 0 <= j < old(cols)@[i]@.len() ==> #[trigger] final(cols)@[i]@[j]
                == if j < from {
                old(cols)@[i]@[j]
            } else {
                value
            },
{
    let mut i: usize = 0;
    while i < cols.len()
        invariant
            i <= cols.len(),
            cols.len() == old(cols).len(),
            forall|k: int| 0 <= k < old(cols).len() ==> #[trigger] cols@[k]@.len() == old(cols)@[k]@.len(),
            forall|k: int| i <= k < old(cols).len() ==> #[trigger] cols@[k] == old(cols)@[k],
            forall|k: int, j: int|
                0 <= k < i && 0 <= j < old(cols)@[k]@.len() ==> #[trigger] cols@[k]@[j] == if j < from {
                    old(cols)@[k]@[j]
                } else {
                    value
                },
        decreases cols.len() - i,
    {
        fill_register(cols, i, from, value);
        i += 1;
    }
}

/// Sets rows after `from` of every column to the column's value at `from`.
pub fn extend_rows(cols: &mut Vec<Vec<u128>>, from: usize)
    requires
        from < usize::MAX,
        forall|i: int| 0 <= i < old(cols).len() ==> from < #[trigger] old(cols)@[i]@.len(),
    ensures
        final(cols).len() == old(cols).len(),
        forall|i: int| 0 <= i < old(cols).len() ==> #[trigger] final(cols)@[i]@.len() == old(cols)@[i]@.len(),
        forall|i: int, j: int|
            0 <= i < old(cols).len() && 0 <= j < old(cols)@[i]@.len() ==> #[trigger] final(cols)@[i]@[j]
                == if j <= from {
                old(cols)@[i]@[j]
            } else {
                old(cols)@[i]@[from as int]
            },
{
    let mut i: usize = 0;
    while i < cols.len()
        invariant
            i <= cols.len(),
            cols.len() == old(cols).len(),
            from < usize::MAX,
            forall|k: int| 0 <= k < old(cols).len() ==> from < #[trigger] old(cols)@[k]@.len(),
            forall|k: int| 0 <= k < old(cols).len() ==> #[trigger] cols@[k]@.len() == old(cols)@[k]@.len(),
            forall|k: int| i <= k < old(cols).len() ==> #[trigger] cols@[k] == old(cols)@[k],
            forall|k: int, j: int|
                0 <= k < i && 0 <= j < old(cols)@[k]@.len() ==> #[trigger] cols@[k]@[j] == if j <= from {
                    old(cols)@[k]@[j]
                } else {
                    old(cols)@[k]@[from as int]
                },
        decreases cols.len() - i,
    {
        let v = cols[i][from];
        fill_register(cols, i, from + 1, v);
        i += 1;
    }
}


/// Sets cell `(i, row)` to the bit `b`.
pub fn set_bit(cols: &mut Vec<Vec<u128>>, i: usize, row: usize, b: u128)
    requires
        i < old(cols).len(),
        row < old(cols)@[i as int]@.len(),
        b < 2,
    ensures
        cols_same_but_row(old(cols)@, final(cols)@, row as int),
        final(cols)@[i as int]@[row as int] == b,
        forall|k: int| 0 <= k < old(cols).len() && k != i ==> #[trigger] final(cols)@[k] == old(cols)@[k],
        cols_bits(old(cols)@) ==> cols_bits(final(cols)@),
        forall|n: int| cols_len(old(cols)@, n) ==> cols_len(final(cols)@, n),
{
    cols[i][row] = b;
}

} // verus!
