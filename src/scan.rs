//! Output order of an image's pixels.
//!
//! An image of `width` by `height` pixels is emitted row by row from the top
//! scanline (`j == height - 1`) down to the bottom one (`j == 0`), each row
//! from left (`i == 0`) to right. Image coordinate `j == 0` is the bottom of
//! the scene.

use vstd::prelude::*;

verus! {

/// Column `i` of the `k`-th emitted pixel.
pub open spec fn column_at(k: int, width: int) -> int {
    k % width
}

/// Row `j` of the `k`-th emitted pixel.
pub open spec fn row_at(k: int, width: int, height: int) -> int {
    height - 1 - k / width
}

/// Position in the output of the pixel at column `i`, row `j`.
pub open spec fn index_of(i: int, j: int, width: int, height: int) -> int {
    (height - 1 - j) * width + i
}

proof fn lemma_row_in_range(k: int, width: int, height: int)
    requires
        width > 0,
        0 <= k < width * height,
    ensures
        0 <= k / width < height,
        0 <= k % width < width,
{
    vstd::arithmetic::div_mod::lemma_fundamental_div_mod(k, width);
    let q = k / width;
    let r = k % width;
    assert(0 <= r < width);
    assert(0 <= q < height) by (nonlinear_arith)
        requires
            width > 0,
            k == width * q + r,
            0 <= r < width,
            0 <= k < width * height,
    ;
}

/// Coordinates `(i, j)` of the `k`-th pixel in output order.
pub fn pixel_coords(k: usize, width: usize, height: usize) -> (r: (usize, usize))
    requires
        width > 0,
        k < width * height,
    ensures
        r.0 as int == column_at(k as int, width as int),
        r.1 as int == row_at(k as int, width as int, height as int),
        r.0 < width,
        r.1 < height,
{
    proof {
        lemma_row_in_range(k as int, width as int, height as int);
    }
    (k % width, height - 1 - k / width)
}

/// Position in the output of the pixel at column `i`, row `j`.
pub fn pixel_index(i: usize, j: usize, width: usize, height: usize) -> (r: usize)
    requires
        i < width,
        j < height,
        width * height <= usize::MAX,
    ensures
        r as int == index_of(i as int, j as int, width as int, height as int),
        r < width * height,
{
    proof {
        lemma_index_in_range(i as int, j as int, width as int, height as int);
    }
    (height - 1 - j) * width + i
}

proof fn lemma_index_in_range(i: int, j: int, width: int, height: int)
    requires
        0 <= i < width,
        0 <= j < height,
    ensures
        0 <= index_of(i, j, width, height) < width * height,
{
    let row = height - 1 - j;
    assert(0 <= row * width + i < width * height) by (nonlinear_arith)
        requires
            0 <= i < width,
            0 <= row < height,
    ;
}

/// The output order visits every pixel of the image exactly once: the pixel
/// at column `i`, row `j` stands at position `index_of(i, j)`, and the pixel
/// at each position `k` is the one whose `index_of` is `k`.
pub proof fn lemma_scan_order_is_bijective(width: int, height: int)
    requires
        width > 0,
        height > 0,
    ensures
        forall|i: int, j: int|
            0 <= i < width && 0 <= j < height ==> {
                let k = #[trigger] index_of(i, j, width, height);
                &&& 0 <= k < width * height
                &&& column_at(k, width) == i
                &&& row_at(k, width, height) == j
            },
        forall|k: int|
            0 <= k < width * height ==> {
                let i = #[trigger] column_at(k, width);
                let j = row_at(k, width, height);
                &&& 0 <= i < width
                &&& 0 <= j < height
                &&& index_of(i, j, width, height) == k
            },
{
    assert forall|i: int, j: int| 0 <= i < width && 0 <= j < height implies {
        let k = #[trigger] index_of(i, j, width, height);
        &&& 0 <= k < width * height
        &&& column_at(k, width) == i
        &&& row_at(k, width, height) == j
    } by {
        lemma_index_in_range(i, j, width, height);
        let k = index_of(i, j, width, height);
        vstd::arithmetic::div_mod::lemma_fundamental_div_mod_converse(
            k,
            width,
            height - 1 - j,
            i,
        );
    }
    assert forall|k: int| 0 <= k < width * height implies {
        let i = #[trigger] column_at(k, width);
        let j = row_at(k, width, height);
        &&& 0 <= i < width
        &&& 0 <= j < height
        &&& index_of(i, j, width, height) == k
    } by {
        lemma_row_in_range(k, width, height);
        vstd::arithmetic::div_mod::lemma_fundamental_div_mod(k, width);
        vstd::arithmetic::mul::lemma_mul_is_commutative(width, k / width);
    }
}

/// Every pixel's coordinates, in output order.
pub fn scan_order(width: usize, height: usize) -> (r: Vec<(usize, usize)>)
    requires
        width * height <= usize::MAX,
    ensures
        r@.len() == width * height,
        forall|k: int|
            0 <= k < r@.len() ==> {
                &&& #[trigger] r@[k].0 as int == column_at(k, width as int)
                &&& r@[k].1 as int == row_at(k, width as int, height as int)
            },
{
    let n = width * height;
    let mut r: Vec<(usize, usize)> = Vec::new();
    let mut k: usize = 0;
    while k < n
        invariant
            n == width * height,
            k <= n,
            r@.len() == k,
            forall|m: int|
                0 <= m < k ==> {
                    &&& #[trigger] r@[m].0 as int == column_at(m, width as int)
                    &&& r@[m].1 as int == row_at(m, width as int, height as int)
                },
        decreases n - k,
    {
        r.push(pixel_coords(k, width, height));
        k = k + 1;
    }
    r
}

} // verus!
