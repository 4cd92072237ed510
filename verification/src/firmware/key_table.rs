//! The keys of the board's entities as numbers, and that no two of them are the same.

use vstd::prelude::*;
use vstd::utf8::*;

use crate::api::entity;
use crate::board::CHANNELS;
use crate::firmware::entities;
use crate::text;

verus! {

/// One step of the hash.
#[verifier::opaque]
spec fn mix(h: u32, c: u32) -> u32 {
    ((h * 16777619) % 0x1_0000_0000) as u32 ^ c
}

/// The hash of the first `n` characters.
spec fn hashed(s: Seq<char>, n: nat) -> u32
    decreases n,
{
    if n == 0 {
        2166136261
    } else {
        mix(hashed(s, (n - 1) as nat), s[n - 1] as u32)
    }
}

proof fn lemma_hashed(s: Seq<char>, n: nat)
    requires
        is_ascii_chars(s),
        n <= s.len(),
    ensures
        hashed(s, n) == entity::fnv1(encode_utf8(s), n),
    decreases n,
{
    reveal(mix);
    is_ascii_chars_encode_utf8(s);
    if n > 0 {
        lemma_hashed(s, (n - 1) as nat);
    }
}

/// The key of a text in ASCII.
proof fn lemma_key(s: Seq<char>)
    requires
        is_ascii_chars(s),
    ensures
        entity::key_of(s) == hashed(s, s.len()),
{
    is_ascii_chars_encode_utf8(s);
    lemma_hashed(s, s.len());
}

// ----- the table -------------------------------------------------------------------------------------

/// The keys of the entities, in their order: switch, limit, alarm and safe state of each relay,
/// those of the board, the daily budget of each relay, its counters and its block, and the crash
/// report.
pub open spec fn key_table() -> Seq<u32> {
    seq![
        0x6ffe_f2f8, 0xee3c_efb9, 0xf116_328f, 0x35ba_dbc2,
        0x6ffe_f2fb, 0xf1be_11bc, 0xe89a_325c, 0x4ff1_35af,
        0x6ffe_f2fa, 0xd72f_c887, 0xe39a_c44d, 0xebcf_519c,
        0x6ffe_f2fd, 0xa8a9_7912, 0xc587_73aa, 0xc1dd_2891,
        0x6ffe_f2fc, 0x71fa_ce8d, 0x735f_1ac3, 0xf6b7_9296,
        0x6ffe_f2ff, 0xcf44_5ac0, 0x2a3a_1450, 0x88a9_e8d3,
        0xc57b_7248, 0x5b4d_866f, 0x0820_aba1, 0xddc4_78ae, 0x559c_7806, 0xf69a_ba54,
        0x1c8e_711d, 0x4eee_9f69, 0x979e_ee24, 0xa6f6_8434, 0x47ba_7052, 0x3e25_9799,
        0x0d58_48cc, 0x2579_6dcd, 0x6bc0_5f5e, 0x86a5_49bf, 0xcd88_7e13, 0x776f_d4ad,
        0xeddd_17dd, 0xb08f_b6bd, 0x9673_9752,
        0xbb2c_0a1d, 0x899f_2512, 0xb5cf_6775, 0x4ff2_c24a,
        0xf04d_5c5e, 0xc86f_eb27, 0xe5d4_d5b4, 0x612f_3831,
        0x2595_ba67, 0x0a6b_1c64, 0x7884_1dcf, 0xf8f1_7894,
        0xe6f0_b898, 0xa440_a269, 0x69ad_baa6, 0x33f6_a89b,
        0xc246_9b09, 0xe861_ebe6, 0x3db2_e3e1, 0x5fce_97f6,
        0xd096_e2ba, 0x5a20_8fcb, 0xcb44_f910, 0x4248_6b1d,
        0x83d5_bcf1, 0x0c17_b2d0,
    ]
}

/// Where a key stands in the table.
spec fn place(key: u32) -> int {
    if key == 0x6ffe_f2f8 {
        0
    } else if key == 0xee3c_efb9 {
        1
    } else if key == 0xf116_328f {
        2
    } else if key == 0x35ba_dbc2 {
        3
    } else if key == 0x6ffe_f2fb {
        4
    } else if key == 0xf1be_11bc {
        5
    } else if key == 0xe89a_325c {
        6
    } else if key == 0x4ff1_35af {
        7
    } else if key == 0x6ffe_f2fa {
        8
    } else if key == 0xd72f_c887 {
        9
    } else if key == 0xe39a_c44d {
        10
    } else if key == 0xebcf_519c {
        11
    } else if key == 0x6ffe_f2fd {
        12
    } else if key == 0xa8a9_7912 {
        13
    } else if key == 0xc587_73aa {
        14
    } else if key == 0xc1dd_2891 {
        15
    } else if key == 0x6ffe_f2fc {
        16
    } else if key == 0x71fa_ce8d {
        17
    } else if key == 0x735f_1ac3 {
        18
    } else if key == 0xf6b7_9296 {
        19
    } else if key == 0x6ffe_f2ff {
        20
    } else if key == 0xcf44_5ac0 {
        21
    } else if key == 0x2a3a_1450 {
        22
    } else if key == 0x88a9_e8d3 {
        23
    } else if key == 0xc57b_7248 {
        24
    } else if key == 0x5b4d_866f {
        25
    } else if key == 0x0820_aba1 {
        26
    } else if key == 0xddc4_78ae {
        27
    } else if key == 0x559c_7806 {
        28
    } else if key == 0xf69a_ba54 {
        29
    } else if key == 0x1c8e_711d {
        30
    } else if key == 0x4eee_9f69 {
        31
    } else if key == 0x979e_ee24 {
        32
    } else if key == 0xa6f6_8434 {
        33
    } else if key == 0x47ba_7052 {
        34
    } else if key == 0x3e25_9799 {
        35
    } else if key == 0x0d58_48cc {
        36
    } else if key == 0x2579_6dcd {
        37
    } else if key == 0x6bc0_5f5e {
        38
    } else if key == 0x86a5_49bf {
        39
    } else if key == 0xcd88_7e13 {
        40
    } else if key == 0x776f_d4ad {
        41
    } else if key == 0xeddd_17dd {
        42
    } else if key == 0xb08f_b6bd {
        43
    } else if key == 0x9673_9752 {
        44
    } else if key == 0xbb2c_0a1d {
        45
    } else if key == 0x899f_2512 {
        46
    } else if key == 0xb5cf_6775 {
        47
    } else if key == 0x4ff2_c24a {
        48
    } else if key == 0xf04d_5c5e {
        49
    } else if key == 0xc86f_eb27 {
        50
    } else if key == 0xe5d4_d5b4 {
        51
    } else if key == 0x612f_3831 {
        52
    } else if key == 0x2595_ba67 {
        53
    } else if key == 0x0a6b_1c64 {
        54
    } else if key == 0x7884_1dcf {
        55
    } else if key == 0xf8f1_7894 {
        56
    } else if key == 0xe6f0_b898 {
        57
    } else if key == 0xa440_a269 {
        58
    } else if key == 0x69ad_baa6 {
        59
    } else if key == 0x33f6_a89b {
        60
    } else if key == 0xc246_9b09 {
        61
    } else if key == 0xe861_ebe6 {
        62
    } else if key == 0x3db2_e3e1 {
        63
    } else if key == 0x5fce_97f6 {
        64
    } else if key == 0xd096_e2ba {
        65
    } else if key == 0x5a20_8fcb {
        66
    } else if key == 0xcb44_f910 {
        67
    } else if key == 0x4248_6b1d {
        68
    } else if key == 0x83d5_bcf1 {
        69
    } else if key == 0x0c17_b2d0 {
        70
    } else {
        -1
    }
}

/// No key stands in the table twice.
proof fn lemma_places(i: int)
    requires
        0 <= i < 71,
    ensures
        key_table().len() == 71,
        place(key_table()[i]) == i,
{
}

/// Keys at different places of the table are different.
pub proof fn lemma_table_differs(i: int, j: int)
    requires
        0 <= i < 71,
        0 <= j < 71,
        i != j,
    ensures
        key_table()[i] != key_table()[j],
{
    lemma_places(i);
    lemma_places(j);
}

proof fn lemma_relay_hashes()
    by (bit_vector)
    ensures
        mix(mix(mix(mix(mix(mix(0x811c_9dc5, 114), 101), 108), 97), 121), 95) == 0x1756_63b3u32,
        mix(0x1756_63b3, 49) == 0x6ffe_f2f8u32,
        mix(mix(mix(mix(mix(mix(mix(0x6ffe_f2f8, 95), 109), 97), 120), 95), 111), 110) == 0xee3c_efb9u32,
        mix(mix(mix(mix(mix(mix(mix(mix(mix(mix(0x6ffe_f2f8, 95), 115), 97), 102), 101), 103), 117), 97), 114), 100) == 0xf116_328fu32,
        mix(mix(mix(mix(mix(mix(mix(mix(mix(mix(mix(0x6ffe_f2f8, 95), 115), 97), 102), 101), 95), 115), 116), 97), 116), 101) == 0x35ba_dbc2u32,
        mix(0x1756_63b3, 50) == 0x6ffe_f2fbu32,
        mix(mix(mix(mix(mix(mix(mix(0x6ffe_f2fb, 95), 109), 97), 120), 95), 111), 110) == 0xf1be_11bcu32,
        mix(mix(mix(mix(mix(mix(mix(mix(mix(mix(0x6ffe_f2fb, 95), 115), 97), 102), 101), 103), 117), 97), 114), 100) == 0xe89a_325cu32,
        mix(mix(mix(mix(mix(mix(mix(mix(mix(mix(mix(0x6ffe_f2fb, 95), 115), 97), 102), 101), 95), 115), 116), 97), 116), 101) == 0x4ff1_35afu32,
        mix(0x1756_63b3, 51) == 0x6ffe_f2fau32,
        mix(mix(mix(mix(mix(mix(mix(0x6ffe_f2fa, 95), 109), 97), 120), 95), 111), 110) == 0xd72f_c887u32,
        mix(mix(mix(mix(mix(mix(mix(mix(mix(mix(0x6ffe_f2fa, 95), 115), 97), 102), 101), 103), 117), 97), 114), 100) == 0xe39a_c44du32,
        mix(mix(mix(mix(mix(mix(mix(mix(mix(mix(mix(0x6ffe_f2fa, 95), 115), 97), 102), 101), 95), 115), 116), 97), 116), 101) == 0xebcf_519cu32,
        mix(0x1756_63b3, 52) == 0x6ffe_f2fdu32,
        mix(mix(mix(mix(mix(mix(mix(0x6ffe_f2fd, 95), 109), 97), 120), 95), 111), 110) == 0xa8a9_7912u32,
        mix(mix(mix(mix(mix(mix(mix(mix(mix(mix(0x6ffe_f2fd, 95), 115), 97), 102), 101), 103), 117), 97), 114), 100) == 0xc587_73aau32,
        mix(mix(mix(mix(mix(mix(mix(mix(mix(mix(mix(0x6ffe_f2fd, 95), 115), 97), 102), 101), 95), 115), 116), 97), 116), 101) == 0xc1dd_2891u32,
        mix(0x1756_63b3, 53) == 0x6ffe_f2fcu32,
        mix(mix(mix(mix(mix(mix(mix(0x6ffe_f2fc, 95), 109), 97), 120), 95), 111), 110) == 0x71fa_ce8du32,
        mix(mix(mix(mix(mix(mix(mix(mix(mix(mix(0x6ffe_f2fc, 95), 115), 97), 102), 101), 103), 117), 97), 114), 100) == 0x735f_1ac3u32,
        mix(mix(mix(mix(mix(mix(mix(mix(mix(mix(mix(0x6ffe_f2fc, 95), 115), 97), 102), 101), 95), 115), 116), 97), 116), 101) == 0xf6b7_9296u32,
        mix(0x1756_63b3, 54) == 0x6ffe_f2ffu32,
        mix(mix(mix(mix(mix(mix(mix(0x6ffe_f2ff, 95), 109), 97), 120), 95), 111), 110) == 0xcf44_5ac0u32,
        mix(mix(mix(mix(mix(mix(mix(mix(mix(mix(0x6ffe_f2ff, 95), 115), 97), 102), 101), 103), 117), 97), 114), 100) == 0x2a3a_1450u32,
        mix(mix(mix(mix(mix(mix(mix(mix(mix(mix(mix(0x6ffe_f2ff, 95), 115), 97), 102), 101), 95), 115), 116), 97), 116), 101) == 0x88a9_e8d3u32,
{
}

proof fn lemma_board_hashes()
    by (bit_vector)
    ensures
        mix(mix(mix(mix(0x811c_9dc5, 109), 111), 100), 101) == 0xc57b_7248u32,
        mix(mix(mix(mix(mix(mix(mix(mix(mix(0x811c_9dc5, 101), 120), 99), 108), 117), 115), 105), 118), 101) == 0x5b4d_866fu32,
        mix(mix(mix(mix(0x811c_9dc5, 108), 105), 110), 107) == 0x0820_aba1u32,
        mix(mix(mix(mix(mix(mix(mix(mix(mix(mix(0x811c_9dc5, 108), 111), 99), 97), 108), 95), 116), 105), 109), 101) == 0xddc4_78aeu32,
        mix(mix(mix(mix(mix(mix(mix(mix(mix(mix(mix(mix(mix(mix(mix(0x811c_9dc5, 115), 99), 104), 101), 100), 117), 108), 101), 95), 108), 111), 97), 100), 101), 100) == 0x559c_7806u32,
        mix(mix(mix(mix(mix(mix(mix(mix(mix(mix(mix(mix(0x811c_9dc5, 115), 99), 104), 101), 100), 117), 108), 101), 95), 114), 101), 118) == 0xf69a_ba54u32,
        mix(mix(mix(mix(mix(mix(mix(mix(mix(mix(mix(mix(mix(0x811c_9dc5, 115), 99), 104), 101), 100), 117), 108), 101), 95), 105), 110), 102), 111) == 0x1c8e_711du32,
        mix(mix(mix(mix(mix(mix(0x811c_9dc5, 117), 112), 116), 105), 109), 101) == 0x4eee_9f69u32,
        mix(mix(mix(mix(0x811c_9dc5, 114), 115), 115), 105) == 0x979e_ee24u32,
        mix(mix(mix(mix(mix(mix(mix(0x811c_9dc5, 97), 108), 108), 95), 111), 102), 102) == 0xa6f6_8434u32,
        mix(mix(mix(mix(mix(mix(mix(0x811c_9dc5, 114), 101), 115), 116), 97), 114), 116) == 0x47ba_7052u32,
        mix(mix(mix(mix(mix(mix(mix(mix(mix(mix(mix(mix(0x811c_9dc5, 115), 101), 116), 95), 115), 99), 104), 101), 100), 117), 108), 101) == 0x3e25_9799u32,
        mix(mix(mix(mix(mix(mix(mix(mix(mix(mix(mix(mix(mix(mix(0x811c_9dc5, 99), 108), 101), 97), 114), 95), 115), 99), 104), 101), 100), 117), 108), 101) == 0x0d58_48ccu32,
        mix(mix(mix(0x811c_9dc5, 111), 116), 97) == 0x2579_6dcdu32,
        mix(mix(mix(mix(mix(mix(mix(mix(mix(mix(0x811c_9dc5, 111), 116), 97), 95), 115), 116), 97), 116), 117), 115) == 0x6bc0_5f5eu32,
        mix(mix(mix(mix(mix(mix(0x811c_9dc5, 98), 117), 122), 122), 101), 114) == 0x86a5_49bfu32,
        mix(mix(mix(mix(0x811c_9dc5, 104), 101), 97), 112) == 0xcd88_7e13u32,
        mix(mix(mix(mix(mix(mix(mix(mix(mix(mix(mix(mix(mix(mix(mix(0x811c_9dc5, 114), 97), 105), 110), 95), 104), 111), 108), 100), 95), 104), 111), 117), 114), 115) == 0x776f_d4adu32,
        mix(mix(mix(mix(mix(mix(mix(mix(mix(0x811c_9dc5, 114), 97), 105), 110), 95), 104), 111), 108), 100) == 0xeddd_17ddu32,
        mix(mix(mix(mix(mix(mix(mix(mix(mix(mix(mix(mix(0x811c_9dc5, 114), 101), 115), 101), 116), 95), 114), 101), 97), 115), 111), 110) == 0xb08f_b6bdu32,
        mix(mix(mix(mix(mix(mix(mix(mix(0x811c_9dc5, 104), 101), 97), 112), 95), 109), 105), 110) == 0x9673_9752u32,
{
}

proof fn lemma_daily_hashes()
    by (bit_vector)
    ensures
        mix(mix(mix(mix(mix(mix(mix(mix(mix(mix(0x6ffe_f2f8, 95), 109), 97), 120), 95), 100), 97), 105), 108), 121) == 0xbb2c_0a1du32,
        mix(mix(mix(mix(mix(mix(mix(mix(mix(0x6ffe_f2f8, 95), 111), 110), 95), 116), 111), 100), 97), 121) == 0x899f_2512u32,
        mix(mix(mix(mix(mix(mix(mix(mix(mix(0x6ffe_f2f8, 95), 116), 111), 116), 97), 108), 95), 111), 110) == 0xb5cf_6775u32,
        mix(mix(mix(mix(mix(mix(mix(mix(mix(mix(mix(mix(0x6ffe_f2f8, 95), 100), 97), 105), 108), 121), 95), 108), 105), 109), 105), 116) == 0x4ff2_c24au32,
        mix(mix(mix(mix(mix(mix(mix(mix(mix(mix(0x6ffe_f2fb, 95), 109), 97), 120), 95), 100), 97), 105), 108), 121) == 0xf04d_5c5eu32,
        mix(mix(mix(mix(mix(mix(mix(mix(mix(0x6ffe_f2fb, 95), 111), 110), 95), 116), 111), 100), 97), 121) == 0xc86f_eb27u32,
        mix(mix(mix(mix(mix(mix(mix(mix(mix(0x6ffe_f2fb, 95), 116), 111), 116), 97), 108), 95), 111), 110) == 0xe5d4_d5b4u32,
        mix(mix(mix(mix(mix(mix(mix(mix(mix(mix(mix(mix(0x6ffe_f2fb, 95), 100), 97), 105), 108), 121), 95), 108), 105), 109), 105), 116) == 0x612f_3831u32,
        mix(mix(mix(mix(mix(mix(mix(mix(mix(mix(0x6ffe_f2fa, 95), 109), 97), 120), 95), 100), 97), 105), 108), 121) == 0x2595_ba67u32,
        mix(mix(mix(mix(mix(mix(mix(mix(mix(0x6ffe_f2fa, 95), 111), 110), 95), 116), 111), 100), 97), 121) == 0x0a6b_1c64u32,
        mix(mix(mix(mix(mix(mix(mix(mix(mix(0x6ffe_f2fa, 95), 116), 111), 116), 97), 108), 95), 111), 110) == 0x7884_1dcfu32,
        mix(mix(mix(mix(mix(mix(mix(mix(mix(mix(mix(mix(0x6ffe_f2fa, 95), 100), 97), 105), 108), 121), 95), 108), 105), 109), 105), 116) == 0xf8f1_7894u32,
        mix(mix(mix(mix(mix(mix(mix(mix(mix(mix(0x6ffe_f2fd, 95), 109), 97), 120), 95), 100), 97), 105), 108), 121) == 0xe6f0_b898u32,
        mix(mix(mix(mix(mix(mix(mix(mix(mix(0x6ffe_f2fd, 95), 111), 110), 95), 116), 111), 100), 97), 121) == 0xa440_a269u32,
        mix(mix(mix(mix(mix(mix(mix(mix(mix(0x6ffe_f2fd, 95), 116), 111), 116), 97), 108), 95), 111), 110) == 0x69ad_baa6u32,
        mix(mix(mix(mix(mix(mix(mix(mix(mix(mix(mix(mix(0x6ffe_f2fd, 95), 100), 97), 105), 108), 121), 95), 108), 105), 109), 105), 116) == 0x33f6_a89bu32,
        mix(mix(mix(mix(mix(mix(mix(mix(mix(mix(0x6ffe_f2fc, 95), 109), 97), 120), 95), 100), 97), 105), 108), 121) == 0xc246_9b09u32,
        mix(mix(mix(mix(mix(mix(mix(mix(mix(0x6ffe_f2fc, 95), 111), 110), 95), 116), 111), 100), 97), 121) == 0xe861_ebe6u32,
        mix(mix(mix(mix(mix(mix(mix(mix(mix(0x6ffe_f2fc, 95), 116), 111), 116), 97), 108), 95), 111), 110) == 0x3db2_e3e1u32,
        mix(mix(mix(mix(mix(mix(mix(mix(mix(mix(mix(mix(0x6ffe_f2fc, 95), 100), 97), 105), 108), 121), 95), 108), 105), 109), 105), 116) == 0x5fce_97f6u32,
        mix(mix(mix(mix(mix(mix(mix(mix(mix(mix(0x6ffe_f2ff, 95), 109), 97), 120), 95), 100), 97), 105), 108), 121) == 0xd096_e2bau32,
        mix(mix(mix(mix(mix(mix(mix(mix(mix(0x6ffe_f2ff, 95), 111), 110), 95), 116), 111), 100), 97), 121) == 0x5a20_8fcbu32,
        mix(mix(mix(mix(mix(mix(mix(mix(mix(0x6ffe_f2ff, 95), 116), 111), 116), 97), 108), 95), 111), 110) == 0xcb44_f910u32,
        mix(mix(mix(mix(mix(mix(mix(mix(mix(mix(mix(mix(0x6ffe_f2ff, 95), 100), 97), 105), 108), 121), 95), 108), 105), 109), 105), 116) == 0x4248_6b1du32,
{
}

proof fn lemma_crash_hashes()
    by (bit_vector)
    ensures
        mix(mix(mix(mix(mix(mix(mix(mix(mix(mix(0x811c_9dc5, 108), 97), 115), 116), 95), 99), 114), 97), 115), 104) == 0x83d5_bcf1u32,
        mix(mix(mix(mix(mix(mix(mix(mix(mix(mix(mix(0x811c_9dc5, 99), 108), 101), 97), 114), 95), 99), 114), 97), 115), 104) == 0x0c17_b2d0u32,
{
}

/// The keys of a relay's entities.
pub proof fn lemma_relay_keys(n: nat)
    requires
        1 <= n <= CHANNELS,
    ensures
        ({
            let d = text::decimal(n);
            let i = 4 * (n - 1);
            &&& entity::key_of("relay_"@ + d) == key_table()[i]
            &&& entity::key_of("relay_"@ + d + "_max_on"@) == key_table()[i + 1]
            &&& entity::key_of("relay_"@ + d + "_safeguard"@) == key_table()[i + 2]
            &&& entity::key_of("relay_"@ + d + "_safe_state"@) == key_table()[i + 3]
        }),
{
    let d = text::decimal(n);
    lemma_relay_suffix(n, seq![], 0);
    assert("relay_"@ + d + seq![] =~= "relay_"@ + d);
    reveal_strlit("_max_on");
    assert("_max_on"@ =~= seq!['_', 'm', 'a', 'x', '_', 'o', 'n']);
    lemma_relay_suffix(n, "_max_on"@, 1);
    reveal_strlit("_safeguard");
    assert("_safeguard"@ =~= seq!['_', 's', 'a', 'f', 'e', 'g', 'u', 'a', 'r', 'd']);
    lemma_relay_suffix(n, "_safeguard"@, 2);
    reveal_strlit("_safe_state");
    assert("_safe_state"@ =~= seq!['_', 's', 'a', 'f', 'e', '_', 's', 't', 'a', 't', 'e']);
    lemma_relay_suffix(n, "_safe_state"@, 3);
}

proof fn lemma_relay_suffix(n: nat, suffix: Seq<char>, k: int)
    requires
        1 <= n <= CHANNELS,
        0 <= k <= 3,
        suffix == (if k == 0 {
            seq![]
        } else if k == 1 {
            seq!['_', 'm', 'a', 'x', '_', 'o', 'n']
        } else if k == 2 {
            seq!['_', 's', 'a', 'f', 'e', 'g', 'u', 'a', 'r', 'd']
        } else {
            seq!['_', 's', 'a', 'f', 'e', '_', 's', 't', 'a', 't', 'e']
        }),
    ensures
        entity::key_of("relay_"@ + text::decimal(n) + suffix) == key_table()[4 * (n - 1) + k],
{
    lemma_relay_hashes();
    reveal_strlit("relay_");
    let d = text::decimal(n);
    assert(d =~= seq![text::digit_char(n)]);
    let s = "relay_"@ + d + suffix;
    assert(s.len() == 7 + suffix.len());
    lemma_key(s);
    reveal_with_fuel(hashed, 19);
    assert(hashed(s, 6) == 0x1756_63b3);
    if n == 1 {
        assert(hashed(s, 7) == 0x6ffe_f2f8);
    } else if n == 2 {
        assert(hashed(s, 7) == 0x6ffe_f2fb);
    } else if n == 3 {
        assert(hashed(s, 7) == 0x6ffe_f2fa);
    } else if n == 4 {
        assert(hashed(s, 7) == 0x6ffe_f2fd);
    } else if n == 5 {
        assert(hashed(s, 7) == 0x6ffe_f2fc);
    } else {
        assert(hashed(s, 7) == 0x6ffe_f2ff);
    }
}

/// The keys of a relay's budget, counters and block.
pub proof fn lemma_daily_keys(n: nat)
    requires
        1 <= n <= CHANNELS,
    ensures
        ({
            let d = text::decimal(n);
            let i = 45 + 4 * (n - 1);
            &&& entity::key_of("relay_"@ + d + "_max_daily"@) == key_table()[i]
            &&& entity::key_of("relay_"@ + d + "_on_today"@) == key_table()[i + 1]
            &&& entity::key_of("relay_"@ + d + "_total_on"@) == key_table()[i + 2]
            &&& entity::key_of("relay_"@ + d + "_daily_limit"@) == key_table()[i + 3]
        }),
{
    reveal_strlit("_max_daily");
    assert("_max_daily"@ =~= seq!['_', 'm', 'a', 'x', '_', 'd', 'a', 'i', 'l', 'y']);
    lemma_daily_suffix(n, "_max_daily"@, 0);
    reveal_strlit("_on_today");
    assert("_on_today"@ =~= seq!['_', 'o', 'n', '_', 't', 'o', 'd', 'a', 'y']);
    lemma_daily_suffix(n, "_on_today"@, 1);
    reveal_strlit("_total_on");
    assert("_total_on"@ =~= seq!['_', 't', 'o', 't', 'a', 'l', '_', 'o', 'n']);
    lemma_daily_suffix(n, "_total_on"@, 2);
    reveal_strlit("_daily_limit");
    assert("_daily_limit"@ =~= seq!['_', 'd', 'a', 'i', 'l', 'y', '_', 'l', 'i', 'm', 'i', 't']);
    lemma_daily_suffix(n, "_daily_limit"@, 3);
}

#[verifier::rlimit(40)]
proof fn lemma_daily_suffix(n: nat, suffix: Seq<char>, k: int)
    requires
        1 <= n <= CHANNELS,
        0 <= k <= 3,
        suffix == (if k == 0 {
            seq!['_', 'm', 'a', 'x', '_', 'd', 'a', 'i', 'l', 'y']
        } else if k == 1 {
            seq!['_', 'o', 'n', '_', 't', 'o', 'd', 'a', 'y']
        } else if k == 2 {
            seq!['_', 't', 'o', 't', 'a', 'l', '_', 'o', 'n']
        } else {
            seq!['_', 'd', 'a', 'i', 'l', 'y', '_', 'l', 'i', 'm', 'i', 't']
        }),
    ensures
        entity::key_of("relay_"@ + text::decimal(n) + suffix) == key_table()[45 + 4 * (n - 1) + k],
{
    lemma_relay_hashes();
    lemma_daily_hashes();
    reveal_strlit("relay_");
    let d = text::decimal(n);
    assert(d =~= seq![text::digit_char(n)]);
    let s = "relay_"@ + d + suffix;
    assert(s.len() == 7 + suffix.len());
    lemma_key(s);
    reveal_with_fuel(hashed, 20);
    assert(hashed(s, 6) == 0x1756_63b3);
    if n == 1 {
        assert(hashed(s, 7) == 0x6ffe_f2f8);
    } else if n == 2 {
        assert(hashed(s, 7) == 0x6ffe_f2fb);
    } else if n == 3 {
        assert(hashed(s, 7) == 0x6ffe_f2fa);
    } else if n == 4 {
        assert(hashed(s, 7) == 0x6ffe_f2fd);
    } else if n == 5 {
        assert(hashed(s, 7) == 0x6ffe_f2fc);
    } else {
        assert(hashed(s, 7) == 0x6ffe_f2ff);
    }
}

/// The keys of the crash report.
#[verifier::rlimit(40)]
proof fn lemma_crash_keys()
    ensures
        entity::key_of("last_crash"@) == key_table()[69],
        entity::key_of("clear_crash"@) == key_table()[70],
{
    lemma_crash_hashes();
    reveal_with_fuel(hashed, 16);
    assert(entity::key_of("last_crash"@) == 0x83d5_bcf1) by {
        reveal_strlit("last_crash");
        lemma_key("last_crash"@);
    }
    assert(entity::key_of("clear_crash"@) == 0x0c17_b2d0) by {
        reveal_strlit("clear_crash");
        lemma_key("clear_crash"@);
    }
}

/// The keys of the board's entities.
#[verifier::rlimit(40)]
proof fn lemma_status_keys()
    ensures
        entity::key_of("mode"@) == key_table()[24],
        entity::key_of("exclusive"@) == key_table()[25],
        entity::key_of("link"@) == key_table()[26],
        entity::key_of("local_time"@) == key_table()[27],
        entity::key_of("schedule_loaded"@) == key_table()[28],
        entity::key_of("schedule_rev"@) == key_table()[29],
        entity::key_of("schedule_info"@) == key_table()[30],
{
    lemma_board_hashes();
    reveal_with_fuel(hashed, 16);
    assert(entity::key_of("mode"@) == 0xc57b_7248) by {
        reveal_strlit("mode");
        lemma_key("mode"@);
    }
    assert(entity::key_of("exclusive"@) == 0x5b4d_866f) by {
        reveal_strlit("exclusive");
        lemma_key("exclusive"@);
    }
    assert(entity::key_of("link"@) == 0x0820_aba1) by {
        reveal_strlit("link");
        lemma_key("link"@);
    }
    assert(entity::key_of("local_time"@) == 0xddc4_78ae) by {
        reveal_strlit("local_time");
        lemma_key("local_time"@);
    }
    assert(entity::key_of("schedule_loaded"@) == 0x559c_7806) by {
        reveal_strlit("schedule_loaded");
        lemma_key("schedule_loaded"@);
    }
    assert(entity::key_of("schedule_rev"@) == 0xf69a_ba54) by {
        reveal_strlit("schedule_rev");
        lemma_key("schedule_rev"@);
    }
    assert(entity::key_of("schedule_info"@) == 0x1c8e_711d) by {
        reveal_strlit("schedule_info");
        lemma_key("schedule_info"@);
    }
}

#[verifier::rlimit(40)]
proof fn lemma_action_keys()
    ensures
        entity::key_of("uptime"@) == key_table()[31],
        entity::key_of("rssi"@) == key_table()[32],
        entity::key_of("all_off"@) == key_table()[33],
        entity::key_of("restart"@) == key_table()[34],
        entity::key_of("set_schedule"@) == key_table()[35],
        entity::key_of("clear_schedule"@) == key_table()[36],
        entity::key_of("ota"@) == key_table()[37],
{
    lemma_board_hashes();
    reveal_with_fuel(hashed, 16);
    assert(entity::key_of("uptime"@) == 0x4eee_9f69) by {
        reveal_strlit("uptime");
        lemma_key("uptime"@);
    }
    assert(entity::key_of("rssi"@) == 0x979e_ee24) by {
        reveal_strlit("rssi");
        lemma_key("rssi"@);
    }
    assert(entity::key_of("all_off"@) == 0xa6f6_8434) by {
        reveal_strlit("all_off");
        lemma_key("all_off"@);
    }
    assert(entity::key_of("restart"@) == 0x47ba_7052) by {
        reveal_strlit("restart");
        lemma_key("restart"@);
    }
    assert(entity::key_of("set_schedule"@) == 0x3e25_9799) by {
        reveal_strlit("set_schedule");
        lemma_key("set_schedule"@);
    }
    assert(entity::key_of("clear_schedule"@) == 0x0d58_48cc) by {
        reveal_strlit("clear_schedule");
        lemma_key("clear_schedule"@);
    }
    assert(entity::key_of("ota"@) == 0x2579_6dcd) by {
        reveal_strlit("ota");
        lemma_key("ota"@);
    }
}

#[verifier::rlimit(40)]
proof fn lemma_health_keys()
    ensures
        entity::key_of("ota_status"@) == key_table()[38],
        entity::key_of("buzzer"@) == key_table()[39],
        entity::key_of("heap"@) == key_table()[40],
        entity::key_of("rain_hold_hours"@) == key_table()[41],
{
    lemma_board_hashes();
    reveal_with_fuel(hashed, 16);
    assert(entity::key_of("ota_status"@) == 0x6bc0_5f5e) by {
        reveal_strlit("ota_status");
        lemma_key("ota_status"@);
    }
    assert(entity::key_of("buzzer"@) == 0x86a5_49bf) by {
        reveal_strlit("buzzer");
        lemma_key("buzzer"@);
    }
    assert(entity::key_of("heap"@) == 0xcd88_7e13) by {
        reveal_strlit("heap");
        lemma_key("heap"@);
    }
    assert(entity::key_of("rain_hold_hours"@) == 0x776f_d4ad) by {
        reveal_strlit("rain_hold_hours");
        lemma_key("rain_hold_hours"@);
    }
}

#[verifier::rlimit(40)]
proof fn lemma_hold_keys()
    ensures
        entity::key_of("rain_hold"@) == key_table()[42],
        entity::key_of("reset_reason"@) == key_table()[43],
        entity::key_of("heap_min"@) == key_table()[44],
{
    lemma_board_hashes();
    reveal_with_fuel(hashed, 16);
    assert(entity::key_of("rain_hold"@) == 0xeddd_17dd) by {
        reveal_strlit("rain_hold");
        lemma_key("rain_hold"@);
    }
    assert(entity::key_of("reset_reason"@) == 0xb08f_b6bd) by {
        reveal_strlit("reset_reason");
        lemma_key("reset_reason"@);
    }
    assert(entity::key_of("heap_min"@) == 0x9673_9752) by {
        reveal_strlit("heap_min");
        lemma_key("heap_min"@);
    }
}

// ----- the plan --------------------------------------------------------------------------------------

/// Where the entities of the relays stand in the plan.
pub proof fn lemma_relay_ids(n: nat, i: int)
    requires
        0 <= i < n,
    ensures
        entities::relay_plans(n).len() == 4 * n,
        ({
            let d = text::decimal((i + 1) as nat);
            let p = entities::relay_plans(n);
            &&& p[4 * i].id == "relay_"@ + d
            &&& p[4 * i + 1].id == "relay_"@ + d + "_max_on"@
            &&& p[4 * i + 2].id == "relay_"@ + d + "_safeguard"@
            &&& p[4 * i + 3].id == "relay_"@ + d + "_safe_state"@
        }),
    decreases n,
{
    let m = (n - 1) as nat;
    reveal_with_fuel(entities::relay_plans, 2);
    if i < m {
        lemma_relay_ids(m, i);
    } else if m > 0 {
        lemma_relay_ids(m, 0);
    }
}

/// Where the entities of the board stand in the plan.
pub proof fn lemma_board_ids()
    ensures
        ({
            let b = entities::board_plans();
            &&& b.len() == 21
            &&& b[0].id == "mode"@
            &&& b[1].id == "exclusive"@
            &&& b[2].id == "link"@
            &&& b[3].id == "local_time"@
            &&& b[4].id == "schedule_loaded"@
            &&& b[5].id == "schedule_rev"@
            &&& b[6].id == "schedule_info"@
            &&& b[7].id == "uptime"@
            &&& b[8].id == "rssi"@
            &&& b[9].id == "all_off"@
            &&& b[10].id == "restart"@
            &&& b[11].id == "set_schedule"@
            &&& b[12].id == "clear_schedule"@
            &&& b[13].id == "ota"@
            &&& b[14].id == "ota_status"@
            &&& b[15].id == "buzzer"@
            &&& b[16].id == "heap"@
            &&& b[17].id == "rain_hold_hours"@
            &&& b[18].id == "rain_hold"@
            &&& b[19].id == "reset_reason"@
            &&& b[20].id == "heap_min"@
        }),
{
}

/// Where the daily entities of the relays stand in their plan.
pub proof fn lemma_daily_ids(n: nat, i: int)
    requires
        0 <= i < n,
    ensures
        entities::daily_plans(n).len() == 4 * n,
        ({
            let d = text::decimal((i + 1) as nat);
            let p = entities::daily_plans(n);
            &&& p[4 * i].id == "relay_"@ + d + "_max_daily"@
            &&& p[4 * i + 1].id == "relay_"@ + d + "_on_today"@
            &&& p[4 * i + 2].id == "relay_"@ + d + "_total_on"@
            &&& p[4 * i + 3].id == "relay_"@ + d + "_daily_limit"@
        }),
    decreases n,
{
    let m = (n - 1) as nat;
    reveal_with_fuel(entities::daily_plans, 2);
    if i < m {
        lemma_daily_ids(m, i);
    } else if m > 0 {
        lemma_daily_ids(m, 0);
    }
}

/// Every planned entity has the key that stands for it in the table.
pub proof fn lemma_planned_key(i: int)
    requires
        0 <= i < 71,
    ensures
        entities::plans().len() == 71,
        entity::key_of(entities::plans()[i].id) == key_table()[i],
{
    let p = entities::plans();
    lemma_relay_ids(CHANNELS as nat, 0);
    lemma_board_ids();
    lemma_daily_ids(CHANNELS as nat, 0);
    if i < 24 {
        let r = i / 4;
        lemma_relay_ids(CHANNELS as nat, r);
        lemma_relay_keys((r + 1) as nat);
    } else if i < 45 {
        lemma_status_keys();
        lemma_action_keys();
        lemma_health_keys();
        lemma_hold_keys();
        assert(p[i] == entities::board_plans()[i - 24]);
    } else if i < 69 {
        let r = (i - 45) / 4;
        lemma_daily_ids(CHANNELS as nat, r);
        lemma_daily_keys((r + 1) as nat);
        assert(p[i] == entities::daily_plans(CHANNELS as nat)[i - 45]);
    } else {
        lemma_crash_keys();
        assert(p[i] == entities::crash_plans()[i - 69]);
    }
}

/// No two entities of the board share a key.
pub proof fn law_entity_keys_differ()
    ensures
        entities::keys_differ(entities::plans()),
{
    let p = entities::plans();
    lemma_planned_key(0);
    assert forall|i: int, j: int| 0 <= i < j < p.len() implies entity::key_of(
        (#[trigger] p[i]).id,
    ) != entity::key_of((#[trigger] p[j]).id) by {
        lemma_planned_key(i);
        lemma_planned_key(j);
        lemma_places(i);
        lemma_places(j);
    }
}

/// The key at a place of the table.
#[verifier::opaque]
pub open spec fn nth_key(i: int) -> u32 {
    key_table()[i]
}

/// Keys at different places are different.
pub proof fn lemma_nth_differ(i: int, j: int)
    requires
        0 <= i < 71,
        0 <= j < 71,
        i != j,
    ensures
        nth_key(i) != nth_key(j),
{
    reveal(nth_key);
    lemma_table_differs(i, j);
}

/// Where the keys of the board stand in the table.
pub proof fn lemma_board_in_place(k: entities::Keys)
    requires
        entities::keyed(k),
    ensures
        k.mode == nth_key(24),
        k.exclusive == nth_key(25),
        k.link == nth_key(26),
        k.local_time == nth_key(27),
        k.schedule_loaded == nth_key(28),
        k.schedule_rev == nth_key(29),
        k.schedule_info == nth_key(30),
        k.uptime == nth_key(31),
        k.rssi == nth_key(32),
        k.all_off == nth_key(33),
        k.restart == nth_key(34),
        k.set_schedule == nth_key(35),
        k.clear_schedule == nth_key(36),
        k.ota == nth_key(37),
        k.ota_status == nth_key(38),
        k.buzzer == nth_key(39),
        k.heap == nth_key(40),
        k.rain_hold_hours == nth_key(41),
        k.rain_hold == nth_key(42),
        k.reset_reason == nth_key(43),
        k.heap_min == nth_key(44),
        k.last_crash == nth_key(69),
        k.clear_crash == nth_key(70),
{
    reveal(nth_key);
    lemma_status_keys();
    lemma_action_keys();
    lemma_health_keys();
    lemma_hold_keys();
    lemma_crash_keys();
}

/// Where the keys of a relay stand in the table.
pub proof fn lemma_relay_in_place(k: entities::Keys, i: int)
    requires
        entities::keyed(k),
        0 <= i < CHANNELS,
    ensures
        k.relay@[i] == nth_key(4 * i),
        k.max_on@[i] == nth_key(4 * i + 1),
        k.tripped@[i] == nth_key(4 * i + 2),
        k.safe_state@[i] == nth_key(4 * i + 3),
        k.max_daily@[i] == nth_key(45 + 4 * i),
        k.on_today@[i] == nth_key(46 + 4 * i),
        k.total_on@[i] == nth_key(47 + 4 * i),
        k.daily_limit@[i] == nth_key(48 + 4 * i),
{
    reveal(nth_key);
    let d = text::decimal((i + 1) as nat);
    assert(k.relay@[i] == entity::key_of("relay_"@ + d));
    lemma_relay_keys((i + 1) as nat);
    lemma_daily_keys((i + 1) as nat);
}

/// Where the keys stand in the table, and that no two of them are equal.
pub proof fn lemma_keys_in_place(k: entities::Keys)
    requires
        entities::keyed(k),
    ensures
        forall|i: int, j: int|
            0 <= i < 71 && 0 <= j < 71 && i != j ==> #[trigger] nth_key(i) != #[trigger] nth_key(j),
        forall|i: int| 0 <= i < CHANNELS ==> #[trigger] k.relay@[i] == nth_key(4 * i),
        forall|i: int| 0 <= i < CHANNELS ==> #[trigger] k.max_on@[i] == nth_key(4 * i + 1),
        forall|i: int| 0 <= i < CHANNELS ==> #[trigger] k.tripped@[i] == nth_key(4 * i + 2),
        forall|i: int| 0 <= i < CHANNELS ==> #[trigger] k.safe_state@[i] == nth_key(4 * i + 3),
        forall|i: int| 0 <= i < CHANNELS ==> #[trigger] k.max_daily@[i] == nth_key(45 + 4 * i),
        forall|i: int| 0 <= i < CHANNELS ==> #[trigger] k.on_today@[i] == nth_key(46 + 4 * i),
        forall|i: int| 0 <= i < CHANNELS ==> #[trigger] k.total_on@[i] == nth_key(47 + 4 * i),
        forall|i: int| 0 <= i < CHANNELS ==> #[trigger] k.daily_limit@[i] == nth_key(48 + 4 * i),
        k.mode == nth_key(24),
        k.exclusive == nth_key(25),
        k.link == nth_key(26),
        k.local_time == nth_key(27),
        k.schedule_loaded == nth_key(28),
        k.schedule_rev == nth_key(29),
        k.schedule_info == nth_key(30),
        k.uptime == nth_key(31),
        k.rssi == nth_key(32),
        k.all_off == nth_key(33),
        k.restart == nth_key(34),
        k.set_schedule == nth_key(35),
        k.clear_schedule == nth_key(36),
        k.ota == nth_key(37),
        k.ota_status == nth_key(38),
        k.buzzer == nth_key(39),
        k.heap == nth_key(40),
        k.rain_hold_hours == nth_key(41),
        k.rain_hold == nth_key(42),
        k.reset_reason == nth_key(43),
        k.heap_min == nth_key(44),
        k.last_crash == nth_key(69),
        k.clear_crash == nth_key(70),
{
    assert forall|i: int, j: int| 0 <= i < 71 && 0 <= j < 71 && i != j implies #[trigger] nth_key(i)
        != #[trigger] nth_key(j) by {
        lemma_nth_differ(i, j);
    }
    lemma_board_in_place(k);
    assert forall|i: int| 0 <= i < CHANNELS implies #[trigger] k.relay@[i] == nth_key(4 * i) by {
        lemma_relay_in_place(k, i);
    }
    assert forall|i: int| 0 <= i < CHANNELS implies #[trigger] k.max_on@[i] == nth_key(4 * i + 1) by {
        lemma_relay_in_place(k, i);
    }
    assert forall|i: int| 0 <= i < CHANNELS implies #[trigger] k.tripped@[i] == nth_key(4 * i + 2) by {
        lemma_relay_in_place(k, i);
    }
    assert forall|i: int| 0 <= i < CHANNELS implies #[trigger] k.safe_state@[i] == nth_key(4 * i + 3) by {
        lemma_relay_in_place(k, i);
    }
    assert forall|i: int| 0 <= i < CHANNELS implies #[trigger] k.max_daily@[i] == nth_key(45 + 4 * i) by {
        lemma_relay_in_place(k, i);
    }
    assert forall|i: int| 0 <= i < CHANNELS implies #[trigger] k.on_today@[i] == nth_key(46 + 4 * i) by {
        lemma_relay_in_place(k, i);
    }
    assert forall|i: int| 0 <= i < CHANNELS implies #[trigger] k.total_on@[i] == nth_key(47 + 4 * i) by {
        lemma_relay_in_place(k, i);
    }
    assert forall|i: int| 0 <= i < CHANNELS implies #[trigger] k.daily_limit@[i] == nth_key(48 + 4 * i) by {
        lemma_relay_in_place(k, i);
    }
}

} // verus!
