//! The block-frequency histogram: a dense table of counts over all 65536
//! possible 4x4 binary block codes, together with a running total.

use vstd::prelude::*;
use vstd::arithmetic::mul::lemma_mul_is_distributive_add;
use crate::access::BinaryPixelAccess;
use crate::codec::{block_code, readblock, CODE_SPACE};

verus! {

/// The sum of the first `n` entries of a count table.
pub open spec fn sum_prefix(s: Seq<u32>, n: int) -> int
    decreases n,
{
    if n <= 0 {
        0
    } else {
        sum_prefix(s, n - 1) + s[n - 1]
    }
}

/// A prefix sum of counts is nonnegative.
pub proof fn lemma_sum_prefix_nonneg(s: Seq<u32>, n: int)
    ensures
        0 <= sum_prefix(s, n),
    decreases n,
{
    if n > 0 {
        lemma_sum_prefix_nonneg(s, n - 1);
    }
}

/// Each entry is bounded by any prefix sum that covers it.
pub proof fn lemma_elem_le_sum(s: Seq<u32>, i: int, n: int)
    requires
        0 <= i < n,
    ensures
        s[i] <= sum_prefix(s, n),
    decreases n,
{
    if i == n - 1 {
        lemma_sum_prefix_nonneg(s, n - 1);
    } else {
        lemma_elem_le_sum(s, i, n - 1);
    }
}

/// Updating one covered entry moves the prefix sum by the difference.
pub proof fn lemma_sum_prefix_update(s: Seq<u32>, i: int, v: u32, n: int)
    requires
        0 <= i < s.len(),
        n <= s.len(),
    ensures
        i < n ==> sum_prefix(s.update(i, v), n) == sum_prefix(s, n) - s[i] + v,
        i >= n ==> sum_prefix(s.update(i, v), n) == sum_prefix(s, n),
    decreases n,
{
    if n > 0 {
        lemma_sum_prefix_update(s, i, v, n - 1);
    }
}

/// A table of zeros sums to zero.
pub proof fn lemma_sum_prefix_zero(s: Seq<u32>, n: int)
    requires
        forall|i: int| 0 <= i < n ==> s[i] == 0,
    ensures
        sum_prefix(s, n) == 0,
    decreases n,
{
    if n > 0 {
        lemma_sum_prefix_zero(s, n - 1);
    }
}

/// How many blocks with code `c` start in row `y` at a column below `x`.
pub open spec fn row_blocks<T: BinaryPixelAccess>(img: T, c: int, y: int, x: int) -> int
    decreases x,
{
    if x <= 0 {
        0
    } else {
        row_blocks(img, c, y, x - 1) + if block_code(img, x - 1, y) == c {
            1int
        } else {
            0int
        }
    }
}

/// How many blocks with code `c` start in a row below `y`.
pub open spec fn rows_blocks<T: BinaryPixelAccess>(img: T, c: int, y: int) -> int
    decreases y,
{
    if y <= 0 {
        0
    } else {
        rows_blocks(img, c, y - 1) + row_blocks(img, c, y - 1, img.spec_width() - 3)
    }
}

/// How many 4x4 blocks of the image have code `c`.
pub open spec fn block_count<T: BinaryPixelAccess>(img: T, c: int) -> int {
    if img.spec_width() < 4 || img.spec_height() < 4 {
        0
    } else {
        rows_blocks(img, c, img.spec_height() - 3)
    }
}

/// How many 4x4 blocks the image has in all: `(width-3) * (height-3)`,
/// or zero when either dimension is below 4.
pub open spec fn total_blocks<T: BinaryPixelAccess>(img: T) -> int {
    if img.spec_width() < 4 || img.spec_height() < 4 {
        0
    } else {
        (img.spec_width() - 3) * (img.spec_height() - 3)
    }
}

/// An image with both dimensions at least 4 is scanned over exactly
/// `(width-3) * (height-3)` blocks, so that is the total of its fresh
/// histogram.
pub proof fn lemma_total_blocks_formula<T: BinaryPixelAccess>(img: T)
    requires
        img.spec_width() >= 4,
        img.spec_height() >= 4,
    ensures
        total_blocks(img) == (img.spec_width() - 3) * (img.spec_height() - 3),
{
}

/// An image smaller than 4x4 in either dimension has no blocks at all: its
/// fresh histogram has total 0 and every count 0.
pub proof fn lemma_small_image_no_blocks<T: BinaryPixelAccess>(img: T)
    requires
        img.spec_width() < 4 || img.spec_height() < 4,
    ensures
        total_blocks(img) == 0,
        forall|c: int| block_count(img, c) == 0,
{
}

/// The frequency table over all 4x4 block codes of the images accumulated
/// into it, plus the total number of blocks counted.
pub struct TextureHash {
    blockcounts: Vec<u32>,
    total: u32,
}

impl TextureHash {
    /// The count table, one entry per block code.
    pub closed spec fn counts(&self) -> Seq<u32> {
        self.blockcounts@
    }

    /// The total number of blocks counted.
    pub closed spec fn spec_total(&self) -> int {
        self.total as int
    }

    /// The table covers every code and the total equals the sum of all
    /// counts.
    pub open spec fn wf(&self) -> bool {
        &&& self.counts().len() == CODE_SPACE
        &&& self.spec_total() == sum_prefix(self.counts(), CODE_SPACE as int)
    }

    /// An empty histogram: every count zero, total zero.
    pub fn new() -> (r: TextureHash)
        ensures
            r.wf(),
            r.spec_total() == 0,
            forall|c: int| 0 <= c < CODE_SPACE ==> r.counts()[c] == 0,
    {
        let mut blockcounts: Vec<u32> = Vec::new();
        while blockcounts.len() < CODE_SPACE as usize
            invariant
                blockcounts@.len() <= CODE_SPACE,
                forall|i: int| 0 <= i < blockcounts@.len() ==> blockcounts@[i] == 0,
            decreases CODE_SPACE - blockcounts@.len(),
        {
            blockcounts.push(0);
        }
        let r = TextureHash { blockcounts, total: 0 };
        proof {
            lemma_sum_prefix_zero(r.counts(), CODE_SPACE as int);
        }
        r
    }

    /// The total number of blocks counted.
    pub fn total(&self) -> (r: u32)
        ensures
            r as int == self.spec_total(),
    {
        self.total
    }

    /// The count recorded for one block code.
    pub fn count(&self, code: u32) -> (r: u32)
        requires
            self.wf(),
            code < CODE_SPACE,
        ensures
            r == self.counts()[code as int],
    {
        self.blockcounts[code as usize]
    }
}

/// Accumulates the block statistics of `img` into `hash`: every count rises
/// by the number of blocks of its code, and the total by the number of
/// blocks examined.
pub fn readhash_to<T: BinaryPixelAccess>(img: &T, hash: &mut TextureHash)
    requires
        img.inv(),
        img.spec_width() <= u32::MAX,
        img.spec_height() <= u32::MAX,
        old(hash).wf(),
        old(hash).spec_total() + total_blocks(*img) <= u32::MAX,
    ensures
        final(hash).wf(),
        final(hash).spec_total() == old(hash).spec_total() + total_blocks(*img),
        forall|c: int|
            0 <= c < CODE_SPACE ==> final(hash).counts()[c] == old(hash).counts()[c] + block_count(
                *img,
                c,
            ),
{
    let (w, h) = img.get_dimensions();
    if w < 4 || h < 4 {
        return ;
    }
    let bw = w - 3;
    let bh = h - 3;
    let ghost old_sum = sum_prefix(old(hash).counts(), CODE_SPACE as int);
    proof {
        lemma_sum_prefix_nonneg(old(hash).counts(), CODE_SPACE as int);
        assert(total_blocks(*img) == bw as int * bh as int);
    }
    hash.total = hash.total + bw * bh;
    let mut y: u32 = 0;
    while y < bh
        invariant
            img.inv(),
            img.spec_width() <= u32::MAX,
            img.spec_height() <= u32::MAX,
            w as int == img.spec_width(),
            h as int == img.spec_height(),
            w >= 4,
            h >= 4,
            bw as int == img.spec_width() - 3,
            bh as int == img.spec_height() - 3,
            0 <= y <= bh,
            old(hash).wf(),
            old_sum == old(hash).spec_total(),
            old(hash).spec_total() + bw as int * bh as int <= u32::MAX,
            hash.counts().len() == CODE_SPACE,
            hash.spec_total() == old(hash).spec_total() + bw as int * bh as int,
            sum_prefix(hash.counts(), CODE_SPACE as int) == old_sum + bw as int * y as int,
            forall|c: int|
                0 <= c < CODE_SPACE ==> hash.counts()[c] == old(hash).counts()[c] + rows_blocks(
                    *img,
                    c,
                    y as int,
                ),
        decreases bh - y,
    {
        let mut x: u32 = 0;
        while x < bw
            invariant
                img.inv(),
                img.spec_width() <= u32::MAX,
                img.spec_height() <= u32::MAX,
                w as int == img.spec_width(),
                h as int == img.spec_height(),
                w >= 4,
                h >= 4,
                bw as int == img.spec_width() - 3,
                bh as int == img.spec_height() - 3,
                0 <= y < bh,
                0 <= x <= bw,
                old(hash).wf(),
                old_sum == old(hash).spec_total(),
                old(hash).spec_total() + bw as int * bh as int <= u32::MAX,
                hash.counts().len() == CODE_SPACE,
                hash.spec_total() == old(hash).spec_total() + bw as int * bh as int,
                sum_prefix(hash.counts(), CODE_SPACE as int) == old_sum + bw as int * y as int
                    + x as int,
                forall|c: int|
                    0 <= c < CODE_SPACE ==> hash.counts()[c] == old(hash).counts()[c]
                        + rows_blocks(*img, c, y as int) + row_blocks(
                        *img,
                        c,
                        y as int,
                        x as int,
                    ),
            decreases bw - x,
        {
            let code = readblock(img, x, y);
            let idx = code as usize;
            let cur = hash.blockcounts[idx];
            proof {
                lemma_elem_le_sum(hash.counts(), idx as int, CODE_SPACE as int);
                assert((bw as int) * (y as int) + (x as int) < (bw as int) * (bh as int))
                    by (nonlinear_arith)
                    requires
                        0 <= (x as int) < (bw as int),
                        0 <= (y as int) < (bh as int),
                ;
            }
            let ghost before = hash.counts();
            hash.blockcounts.set(idx, cur + 1);
            proof {
                lemma_sum_prefix_update(before, idx as int, (cur + 1) as u32, CODE_SPACE as int);
                assert forall|c: int| 0 <= c < CODE_SPACE implies hash.counts()[c] == old(
                    hash,
                ).counts()[c] + rows_blocks(*img, c, y as int) + row_blocks(
                    *img,
                    c,
                    y as int,
                    x as int + 1,
                ) by {
                    assert(row_blocks(*img, c, y as int, x as int + 1) == row_blocks(
                        *img,
                        c,
                        y as int,
                        x as int,
                    ) + if block_code(*img, x as int, y as int) == c {
                        1int
                    } else {
                        0int
                    });
                }
            }
            x = x + 1;
        }
        proof {
            lemma_mul_is_distributive_add(bw as int, y as int, 1);
            assert(rows_blocks(*img, 0, y as int + 1) == rows_blocks(*img, 0, y as int)
                + row_blocks(*img, 0, y as int, img.spec_width() - 3));
        }
        y = y + 1;
    }
    proof {
        assert(forall|c: int|
            0 <= c < CODE_SPACE ==> block_count(*img, c) == rows_blocks(*img, c, bh as int));
    }
}

/// Computes a fresh histogram of `img`: each count is the number of 4x4
/// blocks with that code, and the total is `(width-3) * (height-3)` when
/// both dimensions are at least 4, else zero.
pub fn readhash<T: BinaryPixelAccess>(img: &T) -> (hash: TextureHash)
    requires
        img.inv(),
        img.spec_width() <= u32::MAX,
        img.spec_height() <= u32::MAX,
        total_blocks(*img) <= u32::MAX,
    ensures
        hash.wf(),
        hash.spec_total() == total_blocks(*img),
        forall|c: int| 0 <= c < CODE_SPACE ==> hash.counts()[c] == block_count(*img, c),
{
    let mut hash = TextureHash::new();
    readhash_to(img, &mut hash);
    hash
}

} // verus!
