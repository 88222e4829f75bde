use vstd::prelude::*;

use crate::ecc::EccLevel;

verus! {

/// Error correction codewords per block, by level (row) and version (column; column 0 unused).
pub const ECC_CODEWORDS_PER_BLOCK: [[u8; 41]; 4] = [
    [0, 7, 10, 15, 20, 26, 18, 20, 24, 30, 18, 20, 24, 26, 30, 22, 24, 28, 30, 28, 28, 28, 28, 30, 30, 26, 28, 30, 30, 30, 30, 30, 30, 30, 30, 30, 30, 30, 30, 30, 30],
    [0, 10, 16, 26, 18, 24, 16, 18, 22, 22, 26, 30, 22, 22, 24, 24, 28, 28, 26, 26, 26, 26, 28, 28, 28, 28, 28, 28, 28, 28, 28, 28, 28, 28, 28, 28, 28, 28, 28, 28, 28],
    [0, 13, 22, 18, 26, 18, 24, 18, 22, 20, 24, 28, 26, 24, 20, 30, 24, 28, 28, 26, 30, 28, 30, 30, 30, 30, 28, 30, 30, 30, 30, 30, 30, 30, 30, 30, 30, 30, 30, 30, 30],
    [0, 17, 28, 22, 16, 22, 28, 26, 26, 24, 28, 24, 28, 22, 24, 24, 30, 28, 28, 26, 28, 30, 24, 30, 30, 30, 30, 30, 30, 30, 30, 30, 30, 30, 30, 30, 30, 30, 30, 30, 30],
];

/// Error correction blocks, by level (row) and version (column; column 0 unused).
pub const NUM_ERROR_CORRECTION_BLOCKS: [[u8; 41]; 4] = [
    [0, 1, 1, 1, 1, 1, 2, 2, 2, 2, 4, 4, 4, 4, 4, 6, 6, 6, 6, 7, 8, 8, 9, 9, 10, 12, 12, 12, 13, 14, 15, 16, 17, 18, 19, 19, 20, 21, 22, 24, 25],
    [0, 1, 1, 1, 2, 2, 4, 4, 4, 5, 5, 5, 8, 9, 9, 10, 10, 11, 13, 14, 16, 17, 17, 18, 20, 21, 23, 25, 26, 28, 29, 31, 33, 35, 37, 38, 40, 43, 45, 47, 49],
    [0, 1, 1, 2, 2, 4, 4, 6, 6, 8, 8, 8, 10, 12, 16, 12, 17, 16, 18, 21, 20, 23, 23, 25, 27, 29, 34, 34, 35, 38, 40, 43, 45, 48, 51, 53, 56, 59, 62, 65, 68],
    [0, 1, 1, 2, 4, 4, 4, 5, 6, 8, 8, 11, 11, 16, 16, 18, 16, 19, 21, 25, 25, 25, 34, 30, 32, 35, 37, 40, 42, 45, 48, 51, 54, 57, 60, 63, 66, 70, 74, 77, 81],
];

/// The number of modules of a symbol of version `v` that carry data or error
/// correction bits: the whole grid less the function patterns (finder, timing
/// and alignment patterns, format and version information).
pub open spec fn spec_raw_data_modules(v: int) -> int {
    let all = (16 * v + 128) * v + 64;
    if v < 2 {
        all
    } else {
        let align = v / 7 + 2;
        let without_align = all - ((25 * align - 10) * align - 55);
        if v < 7 {
            without_align
        } else {
            without_align - 36
        }
    }
}

/// The number of 8-bit data codewords of a symbol of version `v` at level `ecc`.
pub open spec fn spec_data_codewords(v: int, ecc: EccLevel) -> int {
    spec_raw_data_modules(v) / 8 - ECC_CODEWORDS_PER_BLOCK[ecc.spec_ordinal() as int][v]
        * NUM_ERROR_CORRECTION_BLOCKS[ecc.spec_ordinal() as int][v]
}

/// Returns the number of data and error correction modules of version `v`.
pub fn raw_data_modules(v: u8) -> (r: u32)
    requires
        1 <= v <= 40,
    ensures
        r == spec_raw_data_modules(v as int),
{
    let v = v as u32;
    assert((16 * v + 128) * v + 64 <= 31000) by (nonlinear_arith)
        requires
            v <= 40,
    ;
    let all: u32 = (16 * v + 128) * v + 64;
    if v < 2 {
        all
    } else {
        let align: u32 = v / 7 + 2;
        assert(0 <= (25 * align - 10) * align - 55 <= 2300 && (25 * align - 10) * align - 55 + 36
            <= (16 * v + 128) * v + 64) by (nonlinear_arith)
            requires
                2 <= v <= 40,
                align == v / 7 + 2,
        ;
        let without_align: u32 = all - ((25 * align - 10) * align - 55);
        if v < 7 {
            without_align
        } else {
            without_align - 36
        }
    }
}

/// Returns the number of 8-bit data codewords of a symbol of version `v` at level `ecc`.
pub fn data_codewords(v: u8, ecc: EccLevel) -> (r: i64)
    requires
        1 <= v <= 40,
    ensures
        r == spec_data_codewords(v as int, ecc),
{
    let row = ecc.ordinal();
    let per_block = ECC_CODEWORDS_PER_BLOCK[row][v as usize] as i64;
    let blocks = NUM_ERROR_CORRECTION_BLOCKS[row][v as usize] as i64;
    assert(per_block * blocks <= 255 * 255) by (nonlinear_arith)
        requires
            0 <= per_block <= 255,
            0 <= blocks <= 255,
    ;
    (raw_data_modules(v) / 8) as i64 - per_block * blocks
}

/// The error correction codewords of a version grow from level to level.
proof fn lemma_ecc_products_grow(v: int)
    requires
        1 <= v <= 40,
    ensures
        ECC_CODEWORDS_PER_BLOCK[0][v] * NUM_ERROR_CORRECTION_BLOCKS[0][v] <= ECC_CODEWORDS_PER_BLOCK[1][v]
            * NUM_ERROR_CORRECTION_BLOCKS[1][v],
        ECC_CODEWORDS_PER_BLOCK[1][v] * NUM_ERROR_CORRECTION_BLOCKS[1][v] <= ECC_CODEWORDS_PER_BLOCK[2][v]
            * NUM_ERROR_CORRECTION_BLOCKS[2][v],
        ECC_CODEWORDS_PER_BLOCK[2][v] * NUM_ERROR_CORRECTION_BLOCKS[2][v] <= ECC_CODEWORDS_PER_BLOCK[3][v]
            * NUM_ERROR_CORRECTION_BLOCKS[3][v],
{
    let e = ECC_CODEWORDS_PER_BLOCK;
    let b = NUM_ERROR_CORRECTION_BLOCKS;
    if v == 1 {
        assert(e[0][1] == 7 && b[0][1] == 1 && e[1][1] == 10 && b[1][1] == 1 && e[2][1] == 13 && b[2][1] == 1 && e[3][1] == 17 && b[3][1] == 1);
    }
    if v == 2 {
        assert(e[0][2] == 10 && b[0][2] == 1 && e[1][2] == 16 && b[1][2] == 1 && e[2][2] == 22 && b[2][2] == 1 && e[3][2] == 28 && b[3][2] == 1);
    }
    if v == 3 {
        assert(e[0][3] == 15 && b[0][3] == 1 && e[1][3] == 26 && b[1][3] == 1 && e[2][3] == 18 && b[2][3] == 2 && e[3][3] == 22 && b[3][3] == 2);
    }
    if v == 4 {
        assert(e[0][4] == 20 && b[0][4] == 1 && e[1][4] == 18 && b[1][4] == 2 && e[2][4] == 26 && b[2][4] == 2 && e[3][4] == 16 && b[3][4] == 4);
    }
    if v == 5 {
        assert(e[0][5] == 26 && b[0][5] == 1 && e[1][5] == 24 && b[1][5] == 2 && e[2][5] == 18 && b[2][5] == 4 && e[3][5] == 22 && b[3][5] == 4);
    }
    if v == 6 {
        assert(e[0][6] == 18 && b[0][6] == 2 && e[1][6] == 16 && b[1][6] == 4 && e[2][6] == 24 && b[2][6] == 4 && e[3][6] == 28 && b[3][6] == 4);
    }
    if v == 7 {
        assert(e[0][7] == 20 && b[0][7] == 2 && e[1][7] == 18 && b[1][7] == 4 && e[2][7] == 18 && b[2][7] == 6 && e[3][7] == 26 && b[3][7] == 5);
    }
    if v == 8 {
        assert(e[0][8] == 24 && b[0][8] == 2 && e[1][8] == 22 && b[1][8] == 4 && e[2][8] == 22 && b[2][8] == 6 && e[3][8] == 26 && b[3][8] == 6);
    }
    if v == 9 {
        assert(e[0][9] == 30 && b[0][9] == 2 && e[1][9] == 22 && b[1][9] == 5 && e[2][9] == 20 && b[2][9] == 8 && e[3][9] == 24 && b[3][9] == 8);
    }
    if v == 10 {
        assert(e[0][10] == 18 && b[0][10] == 4 && e[1][10] == 26 && b[1][10] == 5 && e[2][10] == 24 && b[2][10] == 8 && e[3][10] == 28 && b[3][10] == 8);
    }
    if v == 11 {
        assert(e[0][11] == 20 && b[0][11] == 4 && e[1][11] == 30 && b[1][11] == 5 && e[2][11] == 28 && b[2][11] == 8 && e[3][11] == 24 && b[3][11] == 11);
    }
    if v == 12 {
        assert(e[0][12] == 24 && b[0][12] == 4 && e[1][12] == 22 && b[1][12] == 8 && e[2][12] == 26 && b[2][12] == 10 && e[3][12] == 28 && b[3][12] == 11);
    }
    if v == 13 {
        assert(e[0][13] == 26 && b[0][13] == 4 && e[1][13] == 22 && b[1][13] == 9 && e[2][13] == 24 && b[2][13] == 12 && e[3][13] == 22 && b[3][13] == 16);
    }
    if v == 14 {
        assert(e[0][14] == 30 && b[0][14] == 4 && e[1][14] == 24 && b[1][14] == 9 && e[2][14] == 20 && b[2][14] == 16 && e[3][14] == 24 && b[3][14] == 16);
    }
    if v == 15 {
        assert(e[0][15] == 22 && b[0][15] == 6 && e[1][15] == 24 && b[1][15] == 10 && e[2][15] == 30 && b[2][15] == 12 && e[3][15] == 24 && b[3][15] == 18);
    }
    if v == 16 {
        assert(e[0][16] == 24 && b[0][16] == 6 && e[1][16] == 28 && b[1][16] == 10 && e[2][16] == 24 && b[2][16] == 17 && e[3][16] == 30 && b[3][16] == 16);
    }
    if v == 17 {
        assert(e[0][17] == 28 && b[0][17] == 6 && e[1][17] == 28 && b[1][17] == 11 && e[2][17] == 28 && b[2][17] == 16 && e[3][17] == 28 && b[3][17] == 19);
    }
    if v == 18 {
        assert(e[0][18] == 30 && b[0][18] == 6 && e[1][18] == 26 && b[1][18] == 13 && e[2][18] == 28 && b[2][18] == 18 && e[3][18] == 28 && b[3][18] == 21);
    }
    if v == 19 {
        assert(e[0][19] == 28 && b[0][19] == 7 && e[1][19] == 26 && b[1][19] == 14 && e[2][19] == 26 && b[2][19] == 21 && e[3][19] == 26 && b[3][19] == 25);
    }
    if v == 20 {
        assert(e[0][20] == 28 && b[0][20] == 8 && e[1][20] == 26 && b[1][20] == 16 && e[2][20] == 30 && b[2][20] == 20 && e[3][20] == 28 && b[3][20] == 25);
    }
    if v == 21 {
        assert(e[0][21] == 28 && b[0][21] == 8 && e[1][21] == 26 && b[1][21] == 17 && e[2][21] == 28 && b[2][21] == 23 && e[3][21] == 30 && b[3][21] == 25);
    }
    if v == 22 {
        assert(e[0][22] == 28 && b[0][22] == 9 && e[1][22] == 28 && b[1][22] == 17 && e[2][22] == 30 && b[2][22] == 23 && e[3][22] == 24 && b[3][22] == 34);
    }
    if v == 23 {
        assert(e[0][23] == 30 && b[0][23] == 9 && e[1][23] == 28 && b[1][23] == 18 && e[2][23] == 30 && b[2][23] == 25 && e[3][23] == 30 && b[3][23] == 30);
    }
    if v == 24 {
        assert(e[0][24] == 30 && b[0][24] == 10 && e[1][24] == 28 && b[1][24] == 20 && e[2][24] == 30 && b[2][24] == 27 && e[3][24] == 30 && b[3][24] == 32);
    }
    if v == 25 {
        assert(e[0][25] == 26 && b[0][25] == 12 && e[1][25] == 28 && b[1][25] == 21 && e[2][25] == 30 && b[2][25] == 29 && e[3][25] == 30 && b[3][25] == 35);
    }
    if v == 26 {
        assert(e[0][26] == 28 && b[0][26] == 12 && e[1][26] == 28 && b[1][26] == 23 && e[2][26] == 28 && b[2][26] == 34 && e[3][26] == 30 && b[3][26] == 37);
    }
    if v == 27 {
        assert(e[0][27] == 30 && b[0][27] == 12 && e[1][27] == 28 && b[1][27] == 25 && e[2][27] == 30 && b[2][27] == 34 && e[3][27] == 30 && b[3][27] == 40);
    }
    if v == 28 {
        assert(e[0][28] == 30 && b[0][28] == 13 && e[1][28] == 28 && b[1][28] == 26 && e[2][28] == 30 && b[2][28] == 35 && e[3][28] == 30 && b[3][28] == 42);
    }
    if v == 29 {
        assert(e[0][29] == 30 && b[0][29] == 14 && e[1][29] == 28 && b[1][29] == 28 && e[2][29] == 30 && b[2][29] == 38 && e[3][29] == 30 && b[3][29] == 45);
    }
    if v == 30 {
        assert(e[0][30] == 30 && b[0][30] == 15 && e[1][30] == 28 && b[1][30] == 29 && e[2][30] == 30 && b[2][30] == 40 && e[3][30] == 30 && b[3][30] == 48);
    }
    if v == 31 {
        assert(e[0][31] == 30 && b[0][31] == 16 && e[1][31] == 28 && b[1][31] == 31 && e[2][31] == 30 && b[2][31] == 43 && e[3][31] == 30 && b[3][31] == 51);
    }
    if v == 32 {
        assert(e[0][32] == 30 && b[0][32] == 17 && e[1][32] == 28 && b[1][32] == 33 && e[2][32] == 30 && b[2][32] == 45 && e[3][32] == 30 && b[3][32] == 54);
    }
    if v == 33 {
        assert(e[0][33] == 30 && b[0][33] == 18 && e[1][33] == 28 && b[1][33] == 35 && e[2][33] == 30 && b[2][33] == 48 && e[3][33] == 30 && b[3][33] == 57);
    }
    if v == 34 {
        assert(e[0][34] == 30 && b[0][34] == 19 && e[1][34] == 28 && b[1][34] == 37 && e[2][34] == 30 && b[2][34] == 51 && e[3][34] == 30 && b[3][34] == 60);
    }
    if v == 35 {
        assert(e[0][35] == 30 && b[0][35] == 19 && e[1][35] == 28 && b[1][35] == 38 && e[2][35] == 30 && b[2][35] == 53 && e[3][35] == 30 && b[3][35] == 63);
    }
    if v == 36 {
        assert(e[0][36] == 30 && b[0][36] == 20 && e[1][36] == 28 && b[1][36] == 40 && e[2][36] == 30 && b[2][36] == 56 && e[3][36] == 30 && b[3][36] == 66);
    }
    if v == 37 {
        assert(e[0][37] == 30 && b[0][37] == 21 && e[1][37] == 28 && b[1][37] == 43 && e[2][37] == 30 && b[2][37] == 59 && e[3][37] == 30 && b[3][37] == 70);
    }
    if v == 38 {
        assert(e[0][38] == 30 && b[0][38] == 22 && e[1][38] == 28 && b[1][38] == 45 && e[2][38] == 30 && b[2][38] == 62 && e[3][38] == 30 && b[3][38] == 74);
    }
    if v == 39 {
        assert(e[0][39] == 30 && b[0][39] == 24 && e[1][39] == 28 && b[1][39] == 47 && e[2][39] == 30 && b[2][39] == 65 && e[3][39] == 30 && b[3][39] == 77);
    }
    if v == 40 {
        assert(e[0][40] == 30 && b[0][40] == 25 && e[1][40] == 28 && b[1][40] == 49 && e[2][40] == 30 && b[2][40] == 68 && e[3][40] == 30 && b[3][40] == 81);
    }
}

/// A higher error correction level never leaves more data codewords: at each
/// version the capacity falls from Low to Medium to Quartile to High.
pub proof fn lemma_capacity_falls_with_level(v: int, lower: EccLevel, higher: EccLevel)
    requires
        1 <= v <= 40,
        lower.spec_ordinal() <= higher.spec_ordinal(),
    ensures
        spec_data_codewords(v, higher) <= spec_data_codewords(v, lower),
{
    lemma_ecc_products_grow(v);
}

} // verus!
