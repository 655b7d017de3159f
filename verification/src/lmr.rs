//! Late move reductions: the base reduction `ln(depth) * ln(move number) /
//! 2.0015`, rounded toward zero, read from a table of the move numbers at
//! which it steps up.
use vstd::prelude::*;
use crate::geom::min;

verus! {

/// For each depth below 128 (a row of 14), the smallest move numbers up to
/// 255 at which the late move reduction `ln(depth) * ln(move number) /
/// 2.0015`, rounded toward zero, reaches 1, 2, ..., 14; 65535 where the row
/// never reaches it.
pub const LMR_THRESHOLDS: [u16; 1792] = [
    65535, 65535, 65535, 65535, 65535, 65535, 65535, 65535, 65535, 65535, 65535, 65535, 65535, 65535,
    65535, 65535, 65535, 65535, 65535, 65535, 65535, 65535, 65535, 65535, 65535, 65535, 65535, 65535,
    18, 65535, 65535, 65535, 65535, 65535, 65535, 65535, 65535, 65535, 65535, 65535, 65535, 65535,
    7, 39, 237, 65535, 65535, 65535, 65535, 65535, 65535, 65535, 65535, 65535, 65535, 65535,
    5, 18, 77, 65535, 65535, 65535, 65535, 65535, 65535, 65535, 65535, 65535, 65535, 65535,
    4, 13, 42, 145, 65535, 65535, 65535, 65535, 65535, 65535, 65535, 65535, 65535, 65535,
    4, 10, 29, 88, 65535, 65535, 65535, 65535, 65535, 65535, 65535, 65535, 65535, 65535,
    3, 8, 22, 62, 172, 65535, 65535, 65535, 65535, 65535, 65535, 65535, 65535, 65535,
    3, 7, 18, 47, 124, 65535, 65535, 65535, 65535, 65535, 65535, 65535, 65535, 65535,
    3, 7, 16, 39, 96, 237, 65535, 65535, 65535, 65535, 65535, 65535, 65535, 65535,
    3, 6, 14, 33, 78, 185, 65535, 65535, 65535, 65535, 65535, 65535, 65535, 65535,
    3, 6, 13, 29, 65, 150, 65535, 65535, 65535, 65535, 65535, 65535, 65535, 65535,
    3, 6, 12, 26, 57, 126, 65535, 65535, 65535, 65535, 65535, 65535, 65535, 65535,
    3, 5, 11, 23, 50, 108, 236, 65535, 65535, 65535, 65535, 65535, 65535, 65535,
    3, 5, 10, 21, 45, 95, 203, 65535, 65535, 65535, 65535, 65535, 65535, 65535,
    3, 5, 10, 20, 41, 85, 177, 65535, 65535, 65535, 65535, 65535, 65535, 65535,
    3, 5, 9, 18, 37, 77, 157, 65535, 65535, 65535, 65535, 65535, 65535, 65535,
    3, 5, 9, 17, 35, 70, 141, 65535, 65535, 65535, 65535, 65535, 65535, 65535,
    2, 4, 8, 16, 32, 64, 128, 255, 65535, 65535, 65535, 65535, 65535, 65535,
    2, 4, 8, 16, 30, 60, 117, 230, 65535, 65535, 65535, 65535, 65535, 65535,
    2, 4, 8, 15, 29, 56, 108, 210, 65535, 65535, 65535, 65535, 65535, 65535,
    2, 4, 8, 14, 27, 52, 100, 193, 65535, 65535, 65535, 65535, 65535, 65535,
    2, 4, 7, 14, 26, 49, 94, 178, 65535, 65535, 65535, 65535, 65535, 65535,
    2, 4, 7, 13, 25, 47, 88, 166, 65535, 65535, 65535, 65535, 65535, 65535,
    2, 4, 7, 13, 24, 44, 83, 155, 65535, 65535, 65535, 65535, 65535, 65535,
    2, 4, 7, 13, 23, 42, 78, 145, 65535, 65535, 65535, 65535, 65535, 65535,
    2, 4, 7, 12, 22, 40, 74, 137, 252, 65535, 65535, 65535, 65535, 65535,
    2, 4, 7, 12, 21, 39, 71, 129, 237, 65535, 65535, 65535, 65535, 65535,
    2, 4, 7, 12, 21, 37, 67, 123, 223, 65535, 65535, 65535, 65535, 65535,
    2, 4, 6, 11, 20, 36, 65, 117, 211, 65535, 65535, 65535, 65535, 65535,
    2, 4, 6, 11, 19, 35, 62, 111, 200, 65535, 65535, 65535, 65535, 65535,
    2, 4, 6, 11, 19, 34, 60, 106, 190, 65535, 65535, 65535, 65535, 65535,
    2, 4, 6, 11, 18, 32, 57, 102, 181, 65535, 65535, 65535, 65535, 65535,
    2, 4, 6, 10, 18, 32, 55, 98, 173, 65535, 65535, 65535, 65535, 65535,
    2, 4, 6, 10, 18, 31, 54, 94, 166, 65535, 65535, 65535, 65535, 65535,
    2, 4, 6, 10, 17, 30, 52, 91, 159, 65535, 65535, 65535, 65535, 65535,
    2, 4, 6, 10, 17, 29, 50, 88, 153, 65535, 65535, 65535, 65535, 65535,
    2, 4, 6, 10, 16, 28, 49, 85, 147, 65535, 65535, 65535, 65535, 65535,
    2, 4, 6, 10, 16, 28, 48, 82, 142, 246, 65535, 65535, 65535, 65535,
    2, 3, 6, 9, 16, 27, 46, 80, 137, 236, 65535, 65535, 65535, 65535,
    2, 3, 6, 9, 16, 26, 45, 77, 133, 228, 65535, 65535, 65535, 65535,
    2, 3, 6, 9, 15, 26, 44, 75, 128, 220, 65535, 65535, 65535, 65535,
    2, 3, 5, 9, 15, 25, 43, 73, 124, 212, 65535, 65535, 65535, 65535,
    2, 3, 5, 9, 15, 25, 42, 71, 121, 205, 65535, 65535, 65535, 65535,
    2, 3, 5, 9, 15, 24, 41, 69, 117, 199, 65535, 65535, 65535, 65535,
    2, 3, 5, 9, 14, 24, 40, 68, 114, 193, 65535, 65535, 65535, 65535,
    2, 3, 5, 9, 14, 24, 39, 66, 111, 187, 65535, 65535, 65535, 65535,
    2, 3, 5, 8, 14, 23, 39, 64, 108, 182, 65535, 65535, 65535, 65535,
    2, 3, 5, 8, 14, 23, 38, 63, 105, 176, 65535, 65535, 65535, 65535,
    2, 3, 5, 8, 14, 22, 37, 62, 103, 172, 65535, 65535, 65535, 65535,
    2, 3, 5, 8, 13, 22, 36, 60, 100, 167, 65535, 65535, 65535, 65535,
    2, 3, 5, 8, 13, 22, 36, 59, 98, 163, 65535, 65535, 65535, 65535,
    2, 3, 5, 8, 13, 21, 35, 58, 96, 159, 65535, 65535, 65535, 65535,
    2, 3, 5, 8, 13, 21, 35, 57, 94, 155, 65535, 65535, 65535, 65535,
    2, 3, 5, 8, 13, 21, 34, 56, 92, 152, 250, 65535, 65535, 65535,
    2, 3, 5, 8, 13, 21, 33, 55, 90, 148, 244, 65535, 65535, 65535,
    2, 3, 5, 8, 13, 20, 33, 54, 88, 145, 238, 65535, 65535, 65535,
    2, 3, 5, 8, 12, 20, 32, 53, 87, 142, 232, 65535, 65535, 65535,
    2, 3, 5, 8, 12, 20, 32, 52, 85, 139, 227, 65535, 65535, 65535,
    2, 3, 5, 8, 12, 20, 32, 51, 83, 136, 222, 65535, 65535, 65535,
    2, 3, 5, 8, 12, 19, 31, 50, 82, 133, 217, 65535, 65535, 65535,
    2, 3, 5, 8, 12, 19, 31, 50, 80, 131, 212, 65535, 65535, 65535,
    2, 3, 5, 7, 12, 19, 30, 49, 79, 128, 208, 65535, 65535, 65535,
    2, 3, 5, 7, 12, 19, 30, 48, 78, 126, 204, 65535, 65535, 65535,
    2, 3, 5, 7, 12, 18, 30, 47, 77, 124, 200, 65535, 65535, 65535,
    2, 3, 5, 7, 11, 18, 29, 47, 75, 121, 196, 65535, 65535, 65535,
    2, 3, 5, 7, 11, 18, 29, 46, 74, 119, 192, 65535, 65535, 65535,
    2, 3, 5, 7, 11, 18, 28, 46, 73, 117, 188, 65535, 65535, 65535,
    2, 3, 5, 7, 11, 18, 28, 45, 72, 115, 185, 65535, 65535, 65535,
    2, 3, 5, 7, 11, 18, 28, 44, 71, 113, 182, 65535, 65535, 65535,
    2, 3, 5, 7, 11, 17, 28, 44, 70, 112, 179, 65535, 65535, 65535,
    2, 3, 5, 7, 11, 17, 27, 43, 69, 110, 176, 65535, 65535, 65535,
    2, 3, 5, 7, 11, 17, 27, 43, 68, 108, 173, 65535, 65535, 65535,
    2, 3, 5, 7, 11, 17, 27, 42, 67, 107, 170, 65535, 65535, 65535,
    2, 3, 5, 7, 11, 17, 26, 42, 66, 105, 167, 65535, 65535, 65535,
    2, 3, 5, 7, 11, 17, 26, 41, 65, 104, 164, 65535, 65535, 65535,
    2, 3, 5, 7, 11, 17, 26, 41, 65, 102, 162, 65535, 65535, 65535,
    2, 3, 4, 7, 11, 16, 26, 40, 64, 101, 159, 252, 65535, 65535,
    2, 3, 4, 7, 10, 16, 25, 40, 63, 99, 157, 248, 65535, 65535,
    2, 3, 4, 7, 10, 16, 25, 40, 62, 98, 155, 244, 65535, 65535,
    2, 3, 4, 7, 10, 16, 25, 39, 61, 97, 153, 241, 65535, 65535,
    2, 3, 4, 7, 10, 16, 25, 39, 61, 96, 150, 237, 65535, 65535,
    2, 3, 4, 7, 10, 16, 25, 38, 60, 94, 148, 233, 65535, 65535,
    2, 3, 4, 7, 10, 16, 24, 38, 59, 93, 146, 230, 65535, 65535,
    2, 3, 4, 7, 10, 16, 24, 38, 59, 92, 144, 227, 65535, 65535,
    2, 3, 4, 7, 10, 15, 24, 37, 58, 91, 142, 223, 65535, 65535,
    2, 3, 4, 7, 10, 15, 24, 37, 58, 90, 141, 220, 65535, 65535,
    2, 3, 4, 7, 10, 15, 24, 37, 57, 89, 139, 217, 65535, 65535,
    2, 3, 4, 6, 10, 15, 23, 36, 56, 88, 137, 214, 65535, 65535,
    2, 3, 4, 6, 10, 15, 23, 36, 56, 87, 135, 211, 65535, 65535,
    2, 3, 4, 6, 10, 15, 23, 36, 55, 86, 134, 209, 65535, 65535,
    2, 3, 4, 6, 10, 15, 23, 35, 55, 85, 132, 206, 65535, 65535,
    2, 3, 4, 6, 10, 15, 23, 35, 54, 84, 131, 203, 65535, 65535,
    2, 3, 4, 6, 10, 15, 23, 35, 54, 83, 129, 201, 65535, 65535,
    2, 3, 4, 6, 10, 15, 22, 34, 53, 82, 128, 198, 65535, 65535,
    2, 3, 4, 6, 10, 14, 22, 34, 53, 82, 126, 196, 65535, 65535,
    2, 3, 4, 6, 9, 14, 22, 34, 52, 81, 125, 193, 65535, 65535,
    2, 3, 4, 6, 9, 14, 22, 34, 52, 80, 124, 191, 65535, 65535,
    2, 3, 4, 6, 9, 14, 22, 33, 51, 79, 122, 189, 65535, 65535,
    2, 3, 4, 6, 9, 14, 22, 33, 51, 78, 121, 187, 65535, 65535,
    2, 3, 4, 6, 9, 14, 21, 33, 50, 78, 120, 185, 65535, 65535,
    2, 3, 4, 6, 9, 14, 21, 33, 50, 77, 118, 183, 65535, 65535,
    2, 3, 4, 6, 9, 14, 21, 32, 50, 76, 117, 181, 65535, 65535,
    2, 3, 4, 6, 9, 14, 21, 32, 49, 76, 116, 179, 65535, 65535,
    2, 3, 4, 6, 9, 14, 21, 32, 49, 75, 115, 177, 65535, 65535,
    2, 3, 4, 6, 9, 14, 21, 32, 48, 74, 114, 175, 65535, 65535,
    2, 3, 4, 6, 9, 14, 21, 31, 48, 74, 113, 173, 65535, 65535,
    2, 3, 4, 6, 9, 14, 21, 31, 48, 73, 112, 171, 65535, 65535,
    2, 3, 4, 6, 9, 13, 20, 31, 47, 72, 111, 169, 65535, 65535,
    2, 3, 4, 6, 9, 13, 20, 31, 47, 72, 110, 168, 65535, 65535,
    2, 3, 4, 6, 9, 13, 20, 31, 47, 71, 109, 166, 254, 65535,
    2, 3, 4, 6, 9, 13, 20, 30, 46, 71, 108, 165, 251, 65535,
    2, 3, 4, 6, 9, 13, 20, 30, 46, 70, 107, 163, 249, 65535,
    2, 3, 4, 6, 9, 13, 20, 30, 46, 69, 106, 161, 246, 65535,
    2, 3, 4, 6, 9, 13, 20, 30, 45, 69, 105, 160, 244, 65535,
    2, 3, 4, 6, 9, 13, 20, 30, 45, 68, 104, 158, 241, 65535,
    2, 3, 4, 6, 9, 13, 20, 30, 45, 68, 103, 157, 239, 65535,
    2, 3, 4, 6, 9, 13, 19, 29, 44, 67, 102, 156, 236, 65535,
    2, 3, 4, 6, 9, 13, 19, 29, 44, 67, 101, 154, 234, 65535,
    2, 3, 4, 6, 9, 13, 19, 29, 44, 66, 101, 153, 232, 65535,
    2, 3, 4, 6, 9, 13, 19, 29, 44, 66, 100, 151, 230, 65535,
    2, 3, 4, 6, 9, 13, 19, 29, 43, 65, 99, 150, 228, 65535,
    2, 3, 4, 6, 9, 13, 19, 29, 43, 65, 98, 149, 226, 65535,
    2, 3, 4, 6, 9, 13, 19, 28, 43, 65, 98, 148, 223, 65535,
    2, 3, 4, 6, 8, 13, 19, 28, 42, 64, 97, 146, 221, 65535,
    2, 3, 4, 6, 8, 13, 19, 28, 42, 64, 96, 145, 219, 65535,
    2, 3, 4, 6, 8, 12, 19, 28, 42, 63, 95, 144, 218, 65535,
    2, 3, 4, 6, 8, 12, 19, 28, 42, 63, 95, 143, 216, 65535,
];

/// How many of the first `k` thresholds of row `d` move number `m` reaches.
pub closed spec fn lmr_steps(d: int, m: int, k: int) -> int
    decreases k,
{
    if k <= 0 {
        0
    } else {
        lmr_steps(d, m, k - 1) + if LMR_THRESHOLDS@[d * 14 + k - 1] <= m {
            1int
        } else {
            0int
        }
    }
}

proof fn lemma_lmr_steps_bounds(d: int, m: int, k: int)
    requires
        0 <= k,
    ensures
        0 <= lmr_steps(d, m, k) <= k,
    decreases k,
{
    if k > 0 {
        lemma_lmr_steps_bounds(d, m, k - 1);
    }
}

/// The base late move reduction at `depth` for the move numbered
/// `move_number` (from 1), with move numbers past 255 counted as 255.
pub fn lmr_base(depth: i32, move_number: usize) -> (r: i32)
    requires
        0 <= depth < 128,
    ensures
        r == lmr_steps(depth as int, min(move_number as int, 255), 14),
        0 <= r <= 14,
{
    let m: u16 = if move_number > 255 {
        255
    } else {
        move_number as u16
    };
    let row = depth as usize * 14;
    let mut k: usize = 0;
    let mut r: i32 = 0;
    while k < 14
        invariant
            k <= 14,
            row == depth * 14,
            0 <= depth < 128,
            m == min(move_number as int, 255),
            r == lmr_steps(depth as int, m as int, k as int),
            0 <= r <= k,
        decreases 14 - k,
    {
        if LMR_THRESHOLDS[row + k] <= m {
            r = r + 1;
        }
        k = k + 1;
    }
    r
}

} // verus!
