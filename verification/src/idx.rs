//! The shuffle-control table that packs the accepted words of a lane.
use vstd::prelude::*;

verus! {

/// For each 8-bit mask `m`, the byte offsets `2j` of the words `j` whose bit
/// is set in `m`, in increasing order, then `-1` bytes: row `m` of the packing
/// table, held as the little-endian 64-bit word that a lane load of the row
/// reads.
pub const IDX: [u64; 256] = [
    0xffffffffffffffff,
    0xffffffffffffff00,
    0xffffffffffffff02,
    0xffffffffffff0200,
    0xffffffffffffff04,
    0xffffffffffff0400,
    0xffffffffffff0402,
    0xffffffffff040200,
    0xffffffffffffff06,
    0xffffffffffff0600,
    0xffffffffffff0602,
    0xffffffffff060200,
    0xffffffffffff0604,
    0xffffffffff060400,
    0xffffffffff060402,
    0xffffffff06040200,
    0xffffffffffffff08,
    0xffffffffffff0800,
    0xffffffffffff0802,
    0xffffffffff080200,
    0xffffffffffff0804,
    0xffffffffff080400,
    0xffffffffff080402,
    0xffffffff08040200,
    0xffffffffffff0806,
    0xffffffffff080600,
    0xffffffffff080602,
    0xffffffff08060200,
    0xffffffffff080604,
    0xffffffff08060400,
    0xffffffff08060402,
    0xffffff0806040200,
    0xffffffffffffff0a,
    0xffffffffffff0a00,
    0xffffffffffff0a02,
    0xffffffffff0a0200,
    0xffffffffffff0a04,
    0xffffffffff0a0400,
    0xffffffffff0a0402,
    0xffffffff0a040200,
    0xffffffffffff0a06,
    0xffffffffff0a0600,
    0xffffffffff0a0602,
    0xffffffff0a060200,
    0xffffffffff0a0604,
    0xffffffff0a060400,
    0xffffffff0a060402,
    0xffffff0a06040200,
    0xffffffffffff0a08,
    0xffffffffff0a0800,
    0xffffffffff0a0802,
    0xffffffff0a080200,
    0xffffffffff0a0804,
    0xffffffff0a080400,
    0xffffffff0a080402,
    0xffffff0a08040200,
    0xffffffffff0a0806,
    0xffffffff0a080600,
    0xffffffff0a080602,
    0xffffff0a08060200,
    0xffffffff0a080604,
    0xffffff0a08060400,
    0xffffff0a08060402,
    0xffff0a0806040200,
    0xffffffffffffff0c,
    0xffffffffffff0c00,
    0xffffffffffff0c02,
    0xffffffffff0c0200,
    0xffffffffffff0c04,
    0xffffffffff0c0400,
    0xffffffffff0c0402,
    0xffffffff0c040200,
    0xffffffffffff0c06,
    0xffffffffff0c0600,
    0xffffffffff0c0602,
    0xffffffff0c060200,
    0xffffffffff0c0604,
    0xffffffff0c060400,
    0xffffffff0c060402,
    0xffffff0c06040200,
    0xffffffffffff0c08,
    0xffffffffff0c0800,
    0xffffffffff0c0802,
    0xffffffff0c080200,
    0xffffffffff0c0804,
    0xffffffff0c080400,
    0xffffffff0c080402,
    0xffffff0c08040200,
    0xffffffffff0c0806,
    0xffffffff0c080600,
    0xffffffff0c080602,
    0xffffff0c08060200,
    0xffffffff0c080604,
    0xffffff0c08060400,
    0xffffff0c08060402,
    0xffff0c0806040200,
    0xffffffffffff0c0a,
    0xffffffffff0c0a00,
    0xffffffffff0c0a02,
    0xffffffff0c0a0200,
    0xffffffffff0c0a04,
    0xffffffff0c0a0400,
    0xffffffff0c0a0402,
    0xffffff0c0a040200,
    0xffffffffff0c0a06,
    0xffffffff0c0a0600,
    0xffffffff0c0a0602,
    0xffffff0c0a060200,
    0xffffffff0c0a0604,
    0xffffff0c0a060400,
    0xffffff0c0a060402,
    0xffff0c0a06040200,
    0xffffffffff0c0a08,
    0xffffffff0c0a0800,
    0xffffffff0c0a0802,
    0xffffff0c0a080200,
    0xffffffff0c0a0804,
    0xffffff0c0a080400,
    0xffffff0c0a080402,
    0xffff0c0a08040200,
    0xffffffff0c0a0806,
    0xffffff0c0a080600,
    0xffffff0c0a080602,
    0xffff0c0a08060200,
    0xffffff0c0a080604,
    0xffff0c0a08060400,
    0xffff0c0a08060402,
    0xff0c0a0806040200,
    0xffffffffffffff0e,
    0xffffffffffff0e00,
    0xffffffffffff0e02,
    0xffffffffff0e0200,
    0xffffffffffff0e04,
    0xffffffffff0e0400,
    0xffffffffff0e0402,
    0xffffffff0e040200,
    0xffffffffffff0e06,
    0xffffffffff0e0600,
    0xffffffffff0e0602,
    0xffffffff0e060200,
    0xffffffffff0e0604,
    0xffffffff0e060400,
    0xffffffff0e060402,
    0xffffff0e06040200,
    0xffffffffffff0e08,
    0xffffffffff0e0800,
    0xffffffffff0e0802,
    0xffffffff0e080200,
    0xffffffffff0e0804,
    0xffffffff0e080400,
    0xffffffff0e080402,
    0xffffff0e08040200,
    0xffffffffff0e0806,
    0xffffffff0e080600,
    0xffffffff0e080602,
    0xffffff0e08060200,
    0xffffffff0e080604,
    0xffffff0e08060400,
    0xffffff0e08060402,
    0xffff0e0806040200,
    0xffffffffffff0e0a,
    0xffffffffff0e0a00,
    0xffffffffff0e0a02,
    0xffffffff0e0a0200,
    0xffffffffff0e0a04,
    0xffffffff0e0a0400,
    0xffffffff0e0a0402,
    0xffffff0e0a040200,
    0xffffffffff0e0a06,
    0xffffffff0e0a0600,
    0xffffffff0e0a0602,
    0xffffff0e0a060200,
    0xffffffff0e0a0604,
    0xffffff0e0a060400,
    0xffffff0e0a060402,
    0xffff0e0a06040200,
    0xffffffffff0e0a08,
    0xffffffff0e0a0800,
    0xffffffff0e0a0802,
    0xffffff0e0a080200,
    0xffffffff0e0a0804,
    0xffffff0e0a080400,
    0xffffff0e0a080402,
    0xffff0e0a08040200,
    0xffffffff0e0a0806,
    0xffffff0e0a080600,
    0xffffff0e0a080602,
    0xffff0e0a08060200,
    0xffffff0e0a080604,
    0xffff0e0a08060400,
    0xffff0e0a08060402,
    0xff0e0a0806040200,
    0xffffffffffff0e0c,
    0xffffffffff0e0c00,
    0xffffffffff0e0c02,
    0xffffffff0e0c0200,
    0xffffffffff0e0c04,
    0xffffffff0e0c0400,
    0xffffffff0e0c0402,
    0xffffff0e0c040200,
    0xffffffffff0e0c06,
    0xffffffff0e0c0600,
    0xffffffff0e0c0602,
    0xffffff0e0c060200,
    0xffffffff0e0c0604,
    0xffffff0e0c060400,
    0xffffff0e0c060402,
    0xffff0e0c06040200,
    0xffffffffff0e0c08,
    0xffffffff0e0c0800,
    0xffffffff0e0c0802,
    0xffffff0e0c080200,
    0xffffffff0e0c0804,
    0xffffff0e0c080400,
    0xffffff0e0c080402,
    0xffff0e0c08040200,
    0xffffffff0e0c0806,
    0xffffff0e0c080600,
    0xffffff0e0c080602,
    0xffff0e0c08060200,
    0xffffff0e0c080604,
    0xffff0e0c08060400,
    0xffff0e0c08060402,
    0xff0e0c0806040200,
    0xffffffffff0e0c0a,
    0xffffffff0e0c0a00,
    0xffffffff0e0c0a02,
    0xffffff0e0c0a0200,
    0xffffffff0e0c0a04,
    0xffffff0e0c0a0400,
    0xffffff0e0c0a0402,
    0xffff0e0c0a040200,
    0xffffffff0e0c0a06,
    0xffffff0e0c0a0600,
    0xffffff0e0c0a0602,
    0xffff0e0c0a060200,
    0xffffff0e0c0a0604,
    0xffff0e0c0a060400,
    0xffff0e0c0a060402,
    0xff0e0c0a06040200,
    0xffffffff0e0c0a08,
    0xffffff0e0c0a0800,
    0xffffff0e0c0a0802,
    0xffff0e0c0a080200,
    0xffffff0e0c0a0804,
    0xffff0e0c0a080400,
    0xffff0e0c0a080402,
    0xff0e0c0a08040200,
    0xffffff0e0c0a0806,
    0xffff0e0c0a080600,
    0xffff0e0c0a080602,
    0xff0e0c0a08060200,
    0xffff0e0c0a080604,
    0xff0e0c0a08060400,
    0xff0e0c0a08060402,
    0x0e0c0a0806040200,
];

/// `2^i` for the bit positions of a byte.
pub open spec fn pow2_byte(i: int) -> int {
    if i <= 0 {
        1
    } else if i == 1 {
        2
    } else if i == 2 {
        4
    } else if i == 3 {
        8
    } else if i == 4 {
        16
    } else if i == 5 {
        32
    } else if i == 6 {
        64
    } else {
        128
    }
}

/// `256^k` for the byte positions of a 64-bit word.
pub open spec fn pow256(k: int) -> int {
    if k <= 0 {
        1
    } else if k == 1 {
        0x100
    } else if k == 2 {
        0x1_0000
    } else if k == 3 {
        0x100_0000
    } else if k == 4 {
        0x1_0000_0000
    } else if k == 5 {
        0x100_0000_0000
    } else if k == 6 {
        0x1_0000_0000_0000
    } else {
        0x100_0000_0000_0000
    }
}

/// Byte `k` of a table row.
pub open spec fn row_byte(row: u64, k: int) -> int {
    (row as int / pow256(k)) % 256
}

/// Bit `i` of `m`, as 0 or 1.
pub open spec fn bit_of(m: int, i: int) -> int {
    (m / pow2_byte(i)) % 2
}

/// Number of set bits of `m` below bit `j`, for `0 <= j <= 8`.
pub open spec fn rank(m: int, j: int) -> int {
    (if j > 0 { bit_of(m, 0) } else { 0 }) + (if j > 1 { bit_of(m, 1) } else { 0 }) + (if j > 2 {
        bit_of(m, 2)
    } else {
        0
    }) + (if j > 3 { bit_of(m, 3) } else { 0 }) + (if j > 4 { bit_of(m, 4) } else { 0 }) + (if j
        > 5 { bit_of(m, 5) } else { 0 }) + (if j > 6 { bit_of(m, 6) } else { 0 }) + (if j > 7 {
        bit_of(m, 7)
    } else {
        0
    })
}

/// The byte that row `m` holds at position `k`: the offset `2j` of the word
/// `j` that is the `k`-th (from 0) whose bit is set in `m`, or `0xFF` (`-1`)
/// when `m` has no more than `k` set bits.
pub open spec fn row_entry(m: int, k: int) -> int {
    if rank(m, 1) > k {
        0
    } else if rank(m, 2) > k {
        2
    } else if rank(m, 3) > k {
        4
    } else if rank(m, 4) > k {
        6
    } else if rank(m, 5) > k {
        8
    } else if rank(m, 6) > k {
        10
    } else if rank(m, 7) > k {
        12
    } else if rank(m, 8) > k {
        14
    } else {
        255
    }
}

/// Whether every byte of `row` is the entry of mask `m` at its position.
pub open spec fn row_lists_set_bits(row: u64, m: int) -> bool {
    &&& row_byte(row, 0) == row_entry(m, 0)
    &&& row_byte(row, 1) == row_entry(m, 1)
    &&& row_byte(row, 2) == row_entry(m, 2)
    &&& row_byte(row, 3) == row_entry(m, 3)
    &&& row_byte(row, 4) == row_entry(m, 4)
    &&& row_byte(row, 5) == row_entry(m, 5)
    &&& row_byte(row, 6) == row_entry(m, 6)
    &&& row_byte(row, 7) == row_entry(m, 7)
}


/// Each entry of a row either names, as its byte offset, the word whose bit
/// is set in the mask with exactly `k` set bits below it, or is `0xFF` past
/// the number of set bits.
pub proof fn lemma_row_entry(m: int, k: int)
    requires
        0 <= m < 256,
        0 <= k < 8,
    ensures
        k < rank(m, 8) ==> {
            let e = row_entry(m, k);
            &&& e % 2 == 0
            &&& 0 <= e < 16
            &&& bit_of(m, e / 2) == 1
            &&& rank(m, e / 2) == k
        },
        k >= rank(m, 8) ==> row_entry(m, k) == 255,
{
}

/// The set bits below `j` of a mask byte, counted by `rank`, step up by
/// bit `j`.
pub proof fn lemma_rank_step(m: int, j: int)
    requires
        0 <= j < 8,
    ensures
        rank(m, j + 1) == rank(m, j) + bit_of(m, j),
        rank(m, 0) == 0,
        0 <= bit_of(m, j) <= 1,
{
}

/// Rows `0..32` of the table list their masks' set bits.
proof fn lemma_idx_rows_0_32(m: int)
    requires
        0 <= m < 32,
    ensures
        row_lists_set_bits(IDX[m], m),
{
    if m < 16 {
        if m < 8 {
            if m < 4 {
                if m < 2 {
                    if m < 1 {
                        assert(row_lists_set_bits(IDX[0], 0));
                    } else {
                        assert(row_lists_set_bits(IDX[1], 1));
                    }
                } else {
                    if m < 3 {
                        assert(row_lists_set_bits(IDX[2], 2));
                    } else {
                        assert(row_lists_set_bits(IDX[3], 3));
                    }
                }
            } else {
                if m < 6 {
                    if m < 5 {
                        assert(row_lists_set_bits(IDX[4], 4));
                    } else {
                        assert(row_lists_set_bits(IDX[5], 5));
                    }
                } else {
                    if m < 7 {
                        assert(row_lists_set_bits(IDX[6], 6));
                    } else {
                        assert(row_lists_set_bits(IDX[7], 7));
                    }
                }
            }
        } else {
            if m < 12 {
                if m < 10 {
                    if m < 9 {
                        assert(row_lists_set_bits(IDX[8], 8));
                    } else {
                        assert(row_lists_set_bits(IDX[9], 9));
                    }
                } else {
                    if m < 11 {
                        assert(row_lists_set_bits(IDX[10], 10));
                    } else {
                        assert(row_lists_set_bits(IDX[11], 11));
                    }
                }
            } else {
                if m < 14 {
                    if m < 13 {
                        assert(row_lists_set_bits(IDX[12], 12));
                    } else {
                        assert(row_lists_set_bits(IDX[13], 13));
                    }
                } else {
                    if m < 15 {
                        assert(row_lists_set_bits(IDX[14], 14));
                    } else {
                        assert(row_lists_set_bits(IDX[15], 15));
                    }
                }
            }
        }
    } else {
        if m < 24 {
            if m < 20 {
                if m < 18 {
                    if m < 17 {
                        assert(row_lists_set_bits(IDX[16], 16));
                    } else {
                        assert(row_lists_set_bits(IDX[17], 17));
                    }
                } else {
                    if m < 19 {
                        assert(row_lists_set_bits(IDX[18], 18));
                    } else {
                        assert(row_lists_set_bits(IDX[19], 19));
                    }
                }
            } else {
                if m < 22 {
                    if m < 21 {
                        assert(row_lists_set_bits(IDX[20], 20));
                    } else {
                        assert(row_lists_set_bits(IDX[21], 21));
                    }
                } else {
                    if m < 23 {
                        assert(row_lists_set_bits(IDX[22], 22));
                    } else {
                        assert(row_lists_set_bits(IDX[23], 23));
                    }
                }
            }
        } else {
            if m < 28 {
                if m < 26 {
                    if m < 25 {
                        assert(row_lists_set_bits(IDX[24], 24));
                    } else {
                        assert(row_lists_set_bits(IDX[25], 25));
                    }
                } else {
                    if m < 27 {
                        assert(row_lists_set_bits(IDX[26], 26));
                    } else {
                        assert(row_lists_set_bits(IDX[27], 27));
                    }
                }
            } else {
                if m < 30 {
                    if m < 29 {
                        assert(row_lists_set_bits(IDX[28], 28));
                    } else {
                        assert(row_lists_set_bits(IDX[29], 29));
                    }
                } else {
                    if m < 31 {
                        assert(row_lists_set_bits(IDX[30], 30));
                    } else {
                        assert(row_lists_set_bits(IDX[31], 31));
                    }
                }
            }
        }
    }
}

/// Rows `32..64` of the table list their masks' set bits.
proof fn lemma_idx_rows_32_64(m: int)
    requires
        32 <= m < 64,
    ensures
        row_lists_set_bits(IDX[m], m),
{
    if m < 48 {
        if m < 40 {
            if m < 36 {
                if m < 34 {
                    if m < 33 {
                        assert(row_lists_set_bits(IDX[32], 32));
                    } else {
                        assert(row_lists_set_bits(IDX[33], 33));
                    }
                } else {
                    if m < 35 {
                        assert(row_lists_set_bits(IDX[34], 34));
                    } else {
                        assert(row_lists_set_bits(IDX[35], 35));
                    }
                }
            } else {
                if m < 38 {
                    if m < 37 {
                        assert(row_lists_set_bits(IDX[36], 36));
                    } else {
                        assert(row_lists_set_bits(IDX[37], 37));
                    }
                } else {
                    if m < 39 {
                        assert(row_lists_set_bits(IDX[38], 38));
                    } else {
                        assert(row_lists_set_bits(IDX[39], 39));
                    }
                }
            }
        } else {
            if m < 44 {
                if m < 42 {
                    if m < 41 {
                        assert(row_lists_set_bits(IDX[40], 40));
                    } else {
                        assert(row_lists_set_bits(IDX[41], 41));
                    }
                } else {
                    if m < 43 {
                        assert(row_lists_set_bits(IDX[42], 42));
                    } else {
                        assert(row_lists_set_bits(IDX[43], 43));
                    }
                }
            } else {
                if m < 46 {
                    if m < 45 {
                        assert(row_lists_set_bits(IDX[44], 44));
                    } else {
                        assert(row_lists_set_bits(IDX[45], 45));
                    }
                } else {
                    if m < 47 {
                        assert(row_lists_set_bits(IDX[46], 46));
                    } else {
                        assert(row_lists_set_bits(IDX[47], 47));
                    }
                }
            }
        }
    } else {
        if m < 56 {
            if m < 52 {
                if m < 50 {
                    if m < 49 {
                        assert(row_lists_set_bits(IDX[48], 48));
                    } else {
                        assert(row_lists_set_bits(IDX[49], 49));
                    }
                } else {
                    if m < 51 {
                        assert(row_lists_set_bits(IDX[50], 50));
                    } else {
                        assert(row_lists_set_bits(IDX[51], 51));
                    }
                }
            } else {
                if m < 54 {
                    if m < 53 {
                        assert(row_lists_set_bits(IDX[52], 52));
                    } else {
                        assert(row_lists_set_bits(IDX[53], 53));
                    }
                } else {
                    if m < 55 {
                        assert(row_lists_set_bits(IDX[54], 54));
                    } else {
                        assert(row_lists_set_bits(IDX[55], 55));
                    }
                }
            }
        } else {
            if m < 60 {
                if m < 58 {
                    if m < 57 {
                        assert(row_lists_set_bits(IDX[56], 56));
                    } else {
                        assert(row_lists_set_bits(IDX[57], 57));
                    }
                } else {
                    if m < 59 {
                        assert(row_lists_set_bits(IDX[58], 58));
                    } else {
                        assert(row_lists_set_bits(IDX[59], 59));
                    }
                }
            } else {
                if m < 62 {
                    if m < 61 {
                        assert(row_lists_set_bits(IDX[60], 60));
                    } else {
                        assert(row_lists_set_bits(IDX[61], 61));
                    }
                } else {
                    if m < 63 {
                        assert(row_lists_set_bits(IDX[62], 62));
                    } else {
                        assert(row_lists_set_bits(IDX[63], 63));
                    }
                }
            }
        }
    }
}

/// Rows `64..96` of the table list their masks' set bits.
proof fn lemma_idx_rows_64_96(m: int)
    requires
        64 <= m < 96,
    ensures
        row_lists_set_bits(IDX[m], m),
{
    if m < 80 {
        if m < 72 {
            if m < 68 {
                if m < 66 {
                    if m < 65 {
                        assert(row_lists_set_bits(IDX[64], 64));
                    } else {
                        assert(row_lists_set_bits(IDX[65], 65));
                    }
                } else {
                    if m < 67 {
                        assert(row_lists_set_bits(IDX[66], 66));
                    } else {
                        assert(row_lists_set_bits(IDX[67], 67));
                    }
                }
            } else {
                if m < 70 {
                    if m < 69 {
                        assert(row_lists_set_bits(IDX[68], 68));
                    } else {
                        assert(row_lists_set_bits(IDX[69], 69));
                    }
                } else {
                    if m < 71 {
                        assert(row_lists_set_bits(IDX[70], 70));
                    } else {
                        assert(row_lists_set_bits(IDX[71], 71));
                    }
                }
            }
        } else {
            if m < 76 {
                if m < 74 {
                    if m < 73 {
                        assert(row_lists_set_bits(IDX[72], 72));
                    } else {
                        assert(row_lists_set_bits(IDX[73], 73));
                    }
                } else {
                    if m < 75 {
                        assert(row_lists_set_bits(IDX[74], 74));
                    } else {
                        assert(row_lists_set_bits(IDX[75], 75));
                    }
                }
            } else {
                if m < 78 {
                    if m < 77 {
                        assert(row_lists_set_bits(IDX[76], 76));
                    } else {
                        assert(row_lists_set_bits(IDX[77], 77));
                    }
                } else {
                    if m < 79 {
                        assert(row_lists_set_bits(IDX[78], 78));
                    } else {
                        assert(row_lists_set_bits(IDX[79], 79));
                    }
                }
            }
        }
    } else {
        if m < 88 {
            if m < 84 {
                if m < 82 {
                    if m < 81 {
                        assert(row_lists_set_bits(IDX[80], 80));
                    } else {
                        assert(row_lists_set_bits(IDX[81], 81));
                    }
                } else {
                    if m < 83 {
                        assert(row_lists_set_bits(IDX[82], 82));
                    } else {
                        assert(row_lists_set_bits(IDX[83], 83));
                    }
                }
            } else {
                if m < 86 {
                    if m < 85 {
                        assert(row_lists_set_bits(IDX[84], 84));
                    } else {
                        assert(row_lists_set_bits(IDX[85], 85));
                    }
                } else {
                    if m < 87 {
                        assert(row_lists_set_bits(IDX[86], 86));
                    } else {
                        assert(row_lists_set_bits(IDX[87], 87));
                    }
                }
            }
        } else {
            if m < 92 {
                if m < 90 {
                    if m < 89 {
                        assert(row_lists_set_bits(IDX[88], 88));
                    } else {
                        assert(row_lists_set_bits(IDX[89], 89));
                    }
                } else {
                    if m < 91 {
                        assert(row_lists_set_bits(IDX[90], 90));
                    } else {
                        assert(row_lists_set_bits(IDX[91], 91));
                    }
                }
            } else {
                if m < 94 {
                    if m < 93 {
                        assert(row_lists_set_bits(IDX[92], 92));
                    } else {
                        assert(row_lists_set_bits(IDX[93], 93));
                    }
                } else {
                    if m < 95 {
                        assert(row_lists_set_bits(IDX[94], 94));
                    } else {
                        assert(row_lists_set_bits(IDX[95], 95));
                    }
                }
            }
        }
    }
}

/// Rows `96..128` of the table list their masks' set bits.
proof fn lemma_idx_rows_96_128(m: int)
    requires
        96 <= m < 128,
    ensures
        row_lists_set_bits(IDX[m], m),
{
    if m < 112 {
        if m < 104 {
            if m < 100 {
                if m < 98 {
                    if m < 97 {
                        assert(row_lists_set_bits(IDX[96], 96));
                    } else {
                        assert(row_lists_set_bits(IDX[97], 97));
                    }
                } else {
                    if m < 99 {
                        assert(row_lists_set_bits(IDX[98], 98));
                    } else {
                        assert(row_lists_set_bits(IDX[99], 99));
                    }
                }
            } else {
                if m < 102 {
                    if m < 101 {
                        assert(row_lists_set_bits(IDX[100], 100));
                    } else {
                        assert(row_lists_set_bits(IDX[101], 101));
                    }
                } else {
                    if m < 103 {
                        assert(row_lists_set_bits(IDX[102], 102));
                    } else {
                        assert(row_lists_set_bits(IDX[103], 103));
                    }
                }
            }
        } else {
            if m < 108 {
                if m < 106 {
                    if m < 105 {
                        assert(row_lists_set_bits(IDX[104], 104));
                    } else {
                        assert(row_lists_set_bits(IDX[105], 105));
                    }
                } else {
                    if m < 107 {
                        assert(row_lists_set_bits(IDX[106], 106));
                    } else {
                        assert(row_lists_set_bits(IDX[107], 107));
                    }
                }
            } else {
                if m < 110 {
                    if m < 109 {
                        assert(row_lists_set_bits(IDX[108], 108));
                    } else {
                        assert(row_lists_set_bits(IDX[109], 109));
                    }
                } else {
                    if m < 111 {
                        assert(row_lists_set_bits(IDX[110], 110));
                    } else {
                        assert(row_lists_set_bits(IDX[111], 111));
                    }
                }
            }
        }
    } else {
        if m < 120 {
            if m < 116 {
                if m < 114 {
                    if m < 113 {
                        assert(row_lists_set_bits(IDX[112], 112));
                    } else {
                        assert(row_lists_set_bits(IDX[113], 113));
                    }
                } else {
                    if m < 115 {
                        assert(row_lists_set_bits(IDX[114], 114));
                    } else {
                        assert(row_lists_set_bits(IDX[115], 115));
                    }
                }
            } else {
                if m < 118 {
                    if m < 117 {
                        assert(row_lists_set_bits(IDX[116], 116));
                    } else {
                        assert(row_lists_set_bits(IDX[117], 117));
                    }
                } else {
                    if m < 119 {
                        assert(row_lists_set_bits(IDX[118], 118));
                    } else {
                        assert(row_lists_set_bits(IDX[119], 119));
                    }
                }
            }
        } else {
            if m < 124 {
                if m < 122 {
                    if m < 121 {
                        assert(row_lists_set_bits(IDX[120], 120));
                    } else {
                        assert(row_lists_set_bits(IDX[121], 121));
                    }
                } else {
                    if m < 123 {
                        assert(row_lists_set_bits(IDX[122], 122));
                    } else {
                        assert(row_lists_set_bits(IDX[123], 123));
                    }
                }
            } else {
                if m < 126 {
                    if m < 125 {
                        assert(row_lists_set_bits(IDX[124], 124));
                    } else {
                        assert(row_lists_set_bits(IDX[125], 125));
                    }
                } else {
                    if m < 127 {
                        assert(row_lists_set_bits(IDX[126], 126));
                    } else {
                        assert(row_lists_set_bits(IDX[127], 127));
                    }
                }
            }
        }
    }
}

/// Rows `128..160` of the table list their masks' set bits.
proof fn lemma_idx_rows_128_160(m: int)
    requires
        128 <= m < 160,
    ensures
        row_lists_set_bits(IDX[m], m),
{
    if m < 144 {
        if m < 136 {
            if m < 132 {
                if m < 130 {
                    if m < 129 {
                        assert(row_lists_set_bits(IDX[128], 128));
                    } else {
                        assert(row_lists_set_bits(IDX[129], 129));
                    }
                } else {
                    if m < 131 {
                        assert(row_lists_set_bits(IDX[130], 130));
                    } else {
                        assert(row_lists_set_bits(IDX[131], 131));
                    }
                }
            } else {
                if m < 134 {
                    if m < 133 {
                        assert(row_lists_set_bits(IDX[132], 132));
                    } else {
                        assert(row_lists_set_bits(IDX[133], 133));
                    }
                } else {
                    if m < 135 {
                        assert(row_lists_set_bits(IDX[134], 134));
                    } else {
                        assert(row_lists_set_bits(IDX[135], 135));
                    }
                }
            }
        } else {
            if m < 140 {
                if m < 138 {
                    if m < 137 {
                        assert(row_lists_set_bits(IDX[136], 136));
                    } else {
                        assert(row_lists_set_bits(IDX[137], 137));
                    }
                } else {
                    if m < 139 {
                        assert(row_lists_set_bits(IDX[138], 138));
                    } else {
                        assert(row_lists_set_bits(IDX[139], 139));
                    }
                }
            } else {
                if m < 142 {
                    if m < 141 {
                        assert(row_lists_set_bits(IDX[140], 140));
                    } else {
                        assert(row_lists_set_bits(IDX[141], 141));
                    }
                } else {
                    if m < 143 {
                        assert(row_lists_set_bits(IDX[142], 142));
                    } else {
                        assert(row_lists_set_bits(IDX[143], 143));
                    }
                }
            }
        }
    } else {
        if m < 152 {
            if m < 148 {
                if m < 146 {
                    if m < 145 {
                        assert(row_lists_set_bits(IDX[144], 144));
                    } else {
                        assert(row_lists_set_bits(IDX[145], 145));
                    }
                } else {
                    if m < 147 {
                        assert(row_lists_set_bits(IDX[146], 146));
                    } else {
                        assert(row_lists_set_bits(IDX[147], 147));
                    }
                }
            } else {
                if m < 150 {
                    if m < 149 {
                        assert(row_lists_set_bits(IDX[148], 148));
                    } else {
                        assert(row_lists_set_bits(IDX[149], 149));
                    }
                } else {
                    if m < 151 {
                        assert(row_lists_set_bits(IDX[150], 150));
                    } else {
                        assert(row_lists_set_bits(IDX[151], 151));
                    }
                }
            }
        } else {
            if m < 156 {
                if m < 154 {
                    if m < 153 {
                        assert(row_lists_set_bits(IDX[152], 152));
                    } else {
                        assert(row_lists_set_bits(IDX[153], 153));
                    }
                } else {
                    if m < 155 {
                        assert(row_lists_set_bits(IDX[154], 154));
                    } else {
                        assert(row_lists_set_bits(IDX[155], 155));
                    }
                }
            } else {
                if m < 158 {
                    if m < 157 {
                        assert(row_lists_set_bits(IDX[156], 156));
                    } else {
                        assert(row_lists_set_bits(IDX[157], 157));
                    }
                } else {
                    if m < 159 {
                        assert(row_lists_set_bits(IDX[158], 158));
                    } else {
                        assert(row_lists_set_bits(IDX[159], 159));
                    }
                }
            }
        }
    }
}

/// Rows `160..192` of the table list their masks' set bits.
proof fn lemma_idx_rows_160_192(m: int)
    requires
        160 <= m < 192,
    ensures
        row_lists_set_bits(IDX[m], m),
{
    if m < 176 {
        if m < 168 {
            if m < 164 {
                if m < 162 {
                    if m < 161 {
                        assert(row_lists_set_bits(IDX[160], 160));
                    } else {
                        assert(row_lists_set_bits(IDX[161], 161));
                    }
                } else {
                    if m < 163 {
                        assert(row_lists_set_bits(IDX[162], 162));
                    } else {
                        assert(row_lists_set_bits(IDX[163], 163));
                    }
                }
            } else {
                if m < 166 {
                    if m < 165 {
                        assert(row_lists_set_bits(IDX[164], 164));
                    } else {
                        assert(row_lists_set_bits(IDX[165], 165));
                    }
                } else {
                    if m < 167 {
                        assert(row_lists_set_bits(IDX[166], 166));
                    } else {
                        assert(row_lists_set_bits(IDX[167], 167));
                    }
                }
            }
        } else {
            if m < 172 {
                if m < 170 {
                    if m < 169 {
                        assert(row_lists_set_bits(IDX[168], 168));
                    } else {
                        assert(row_lists_set_bits(IDX[169], 169));
                    }
                } else {
                    if m < 171 {
                        assert(row_lists_set_bits(IDX[170], 170));
                    } else {
                        assert(row_lists_set_bits(IDX[171], 171));
                    }
                }
            } else {
                if m < 174 {
                    if m < 173 {
                        assert(row_lists_set_bits(IDX[172], 172));
                    } else {
                        assert(row_lists_set_bits(IDX[173], 173));
                    }
                } else {
                    if m < 175 {
                        assert(row_lists_set_bits(IDX[174], 174));
                    } else {
                        assert(row_lists_set_bits(IDX[175], 175));
                    }
                }
            }
        }
    } else {
        if m < 184 {
            if m < 180 {
                if m < 178 {
                    if m < 177 {
                        assert(row_lists_set_bits(IDX[176], 176));
                    } else {
                        assert(row_lists_set_bits(IDX[177], 177));
                    }
                } else {
                    if m < 179 {
                        assert(row_lists_set_bits(IDX[178], 178));
                    } else {
                        assert(row_lists_set_bits(IDX[179], 179));
                    }
                }
            } else {
                if m < 182 {
                    if m < 181 {
                        assert(row_lists_set_bits(IDX[180], 180));
                    } else {
                        assert(row_lists_set_bits(IDX[181], 181));
                    }
                } else {
                    if m < 183 {
                        assert(row_lists_set_bits(IDX[182], 182));
                    } else {
                        assert(row_lists_set_bits(IDX[183], 183));
                    }
                }
            }
        } else {
            if m < 188 {
                if m < 186 {
                    if m < 185 {
                        assert(row_lists_set_bits(IDX[184], 184));
                    } else {
                        assert(row_lists_set_bits(IDX[185], 185));
                    }
                } else {
                    if m < 187 {
                        assert(row_lists_set_bits(IDX[186], 186));
                    } else {
                        assert(row_lists_set_bits(IDX[187], 187));
                    }
                }
            } else {
                if m < 190 {
                    if m < 189 {
                        assert(row_lists_set_bits(IDX[188], 188));
                    } else {
                        assert(row_lists_set_bits(IDX[189], 189));
                    }
                } else {
                    if m < 191 {
                        assert(row_lists_set_bits(IDX[190], 190));
                    } else {
                        assert(row_lists_set_bits(IDX[191], 191));
                    }
                }
            }
        }
    }
}

/// Rows `192..224` of the table list their masks' set bits.
proof fn lemma_idx_rows_192_224(m: int)
    requires
        192 <= m < 224,
    ensures
        row_lists_set_bits(IDX[m], m),
{
    if m < 208 {
        if m < 200 {
            if m < 196 {
                if m < 194 {
                    if m < 193 {
                        assert(row_lists_set_bits(IDX[192], 192));
                    } else {
                        assert(row_lists_set_bits(IDX[193], 193));
                    }
                } else {
                    if m < 195 {
                        assert(row_lists_set_bits(IDX[194], 194));
                    } else {
                        assert(row_lists_set_bits(IDX[195], 195));
                    }
                }
            } else {
                if m < 198 {
                    if m < 197 {
                        assert(row_lists_set_bits(IDX[196], 196));
                    } else {
                        assert(row_lists_set_bits(IDX[197], 197));
                    }
                } else {
                    if m < 199 {
                        assert(row_lists_set_bits(IDX[198], 198));
                    } else {
                        assert(row_lists_set_bits(IDX[199], 199));
                    }
                }
            }
        } else {
            if m < 204 {
                if m < 202 {
                    if m < 201 {
                        assert(row_lists_set_bits(IDX[200], 200));
                    } else {
                        assert(row_lists_set_bits(IDX[201], 201));
                    }
                } else {
                    if m < 203 {
                        assert(row_lists_set_bits(IDX[202], 202));
                    } else {
                        assert(row_lists_set_bits(IDX[203], 203));
                    }
                }
            } else {
                if m < 206 {
                    if m < 205 {
                        assert(row_lists_set_bits(IDX[204], 204));
                    } else {
                        assert(row_lists_set_bits(IDX[205], 205));
                    }
                } else {
                    if m < 207 {
                        assert(row_lists_set_bits(IDX[206], 206));
                    } else {
                        assert(row_lists_set_bits(IDX[207], 207));
                    }
                }
            }
        }
    } else {
        if m < 216 {
            if m < 212 {
                if m < 210 {
                    if m < 209 {
                        assert(row_lists_set_bits(IDX[208], 208));
                    } else {
                        assert(row_lists_set_bits(IDX[209], 209));
                    }
                } else {
                    if m < 211 {
                        assert(row_lists_set_bits(IDX[210], 210));
                    } else {
                        assert(row_lists_set_bits(IDX[211], 211));
                    }
                }
            } else {
                if m < 214 {
                    if m < 213 {
                        assert(row_lists_set_bits(IDX[212], 212));
                    } else {
                        assert(row_lists_set_bits(IDX[213], 213));
                    }
                } else {
                    if m < 215 {
                        assert(row_lists_set_bits(IDX[214], 214));
                    } else {
                        assert(row_lists_set_bits(IDX[215], 215));
                    }
                }
            }
        } else {
            if m < 220 {
                if m < 218 {
                    if m < 217 {
                        assert(row_lists_set_bits(IDX[216], 216));
                    } else {
                        assert(row_lists_set_bits(IDX[217], 217));
                    }
                } else {
                    if m < 219 {
                        assert(row_lists_set_bits(IDX[218], 218));
                    } else {
                        assert(row_lists_set_bits(IDX[219], 219));
                    }
                }
            } else {
                if m < 222 {
                    if m < 221 {
                        assert(row_lists_set_bits(IDX[220], 220));
                    } else {
                        assert(row_lists_set_bits(IDX[221], 221));
                    }
                } else {
                    if m < 223 {
                        assert(row_lists_set_bits(IDX[222], 222));
                    } else {
                        assert(row_lists_set_bits(IDX[223], 223));
                    }
                }
            }
        }
    }
}

/// Rows `224..256` of the table list their masks' set bits.
proof fn lemma_idx_rows_224_256(m: int)
    requires
        224 <= m < 256,
    ensures
        row_lists_set_bits(IDX[m], m),
{
    if m < 240 {
        if m < 232 {
            if m < 228 {
                if m < 226 {
                    if m < 225 {
                        assert(row_lists_set_bits(IDX[224], 224));
                    } else {
                        assert(row_lists_set_bits(IDX[225], 225));
                    }
                } else {
                    if m < 227 {
                        assert(row_lists_set_bits(IDX[226], 226));
                    } else {
                        assert(row_lists_set_bits(IDX[227], 227));
                    }
                }
            } else {
                if m < 230 {
                    if m < 229 {
                        assert(row_lists_set_bits(IDX[228], 228));
                    } else {
                        assert(row_lists_set_bits(IDX[229], 229));
                    }
                } else {
                    if m < 231 {
                        assert(row_lists_set_bits(IDX[230], 230));
                    } else {
                        assert(row_lists_set_bits(IDX[231], 231));
                    }
                }
            }
        } else {
            if m < 236 {
                if m < 234 {
                    if m < 233 {
                        assert(row_lists_set_bits(IDX[232], 232));
                    } else {
                        assert(row_lists_set_bits(IDX[233], 233));
                    }
                } else {
                    if m < 235 {
                        assert(row_lists_set_bits(IDX[234], 234));
                    } else {
                        assert(row_lists_set_bits(IDX[235], 235));
                    }
                }
            } else {
                if m < 238 {
                    if m < 237 {
                        assert(row_lists_set_bits(IDX[236], 236));
                    } else {
                        assert(row_lists_set_bits(IDX[237], 237));
                    }
                } else {
                    if m < 239 {
                        assert(row_lists_set_bits(IDX[238], 238));
                    } else {
                        assert(row_lists_set_bits(IDX[239], 239));
                    }
                }
            }
        }
    } else {
        if m < 248 {
            if m < 244 {
                if m < 242 {
                    if m < 241 {
                        assert(row_lists_set_bits(IDX[240], 240));
                    } else {
                        assert(row_lists_set_bits(IDX[241], 241));
                    }
                } else {
                    if m < 243 {
                        assert(row_lists_set_bits(IDX[242], 242));
                    } else {
                        assert(row_lists_set_bits(IDX[243], 243));
                    }
                }
            } else {
                if m < 246 {
                    if m < 245 {
                        assert(row_lists_set_bits(IDX[244], 244));
                    } else {
                        assert(row_lists_set_bits(IDX[245], 245));
                    }
                } else {
                    if m < 247 {
                        assert(row_lists_set_bits(IDX[246], 246));
                    } else {
                        assert(row_lists_set_bits(IDX[247], 247));
                    }
                }
            }
        } else {
            if m < 252 {
                if m < 250 {
                    if m < 249 {
                        assert(row_lists_set_bits(IDX[248], 248));
                    } else {
                        assert(row_lists_set_bits(IDX[249], 249));
                    }
                } else {
                    if m < 251 {
                        assert(row_lists_set_bits(IDX[250], 250));
                    } else {
                        assert(row_lists_set_bits(IDX[251], 251));
                    }
                }
            } else {
                if m < 254 {
                    if m < 253 {
                        assert(row_lists_set_bits(IDX[252], 252));
                    } else {
                        assert(row_lists_set_bits(IDX[253], 253));
                    }
                } else {
                    if m < 255 {
                        assert(row_lists_set_bits(IDX[254], 254));
                    } else {
                        assert(row_lists_set_bits(IDX[255], 255));
                    }
                }
            }
        }
    }
}

/// Every row of the table lists its mask's set bits.
pub proof fn lemma_idx_row(m: int)
    requires
        0 <= m < 256,
    ensures
        row_lists_set_bits(IDX[m], m),
{
    if m < 32 {
        lemma_idx_rows_0_32(m);
    } else if m < 64 {
        lemma_idx_rows_32_64(m);
    } else if m < 96 {
        lemma_idx_rows_64_96(m);
    } else if m < 128 {
        lemma_idx_rows_96_128(m);
    } else if m < 160 {
        lemma_idx_rows_128_160(m);
    } else if m < 192 {
        lemma_idx_rows_160_192(m);
    } else if m < 224 {
        lemma_idx_rows_192_224(m);
    } else {
        lemma_idx_rows_224_256(m);
    }
}

} // verus!
