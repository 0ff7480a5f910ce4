//! Drawn glyphs: box drawing, block elements and rounded corners.

use nexterm::builtin_font::{builtin_glyph, calculate_stroke_size, is_builtin, COLOR_FILL};

fn drawn() -> Vec<char> {
    ('\u{2500}'..='\u{2570}').chain('\u{2574}'..='\u{259f}').collect()
}

fn digest(data: &[u8]) -> u32 {
    let mut h: u32 = 0x811c_9dc5;
    for b in data {
        h = (h ^ *b as u32).wrapping_mul(0x0100_0193);
    }
    h
}

#[test]
fn all_supported_chars_render() {
    for c in ('\u{2500}'..='\u{2570}').chain('\u{2574}'..='\u{259f}') {
        let g = builtin_glyph(c, 8, 16);
        assert!(g.is_some(), "missing glyph for U+{:04X}", c as u32);
        let g = g.unwrap();
        assert_eq!(g.width, 8);
        assert_eq!(g.height, 16);
        assert_eq!(g.data.len(), 8 * 16);
    }
}

#[test]
fn unsupported_chars_rejected() {
    assert!(builtin_glyph('A', 8, 16).is_none());
    assert!(builtin_glyph('\u{2571}', 8, 16).is_none()); // diagonal
}

#[test]
fn full_block_fully_covered() {
    let g = builtin_glyph('\u{2588}', 8, 16).unwrap();
    assert!(g.data.iter().all(|&p| p == COLOR_FILL));
}

#[test]
fn horizontal_line_spans_width() {
    let g = builtin_glyph('\u{2500}', 8, 16).unwrap();
    let mut found = false;
    for y in 0..16usize {
        let row_filled: usize = (0..8).filter(|&x| g.data[y * 8 + x] > 0).count();
        if row_filled == 8 {
            found = true;
            break;
        }
    }
    assert!(found, "no row had a continuous full-width line");
}

#[test]
fn vertical_line_spans_height() {
    let g = builtin_glyph('\u{2502}', 8, 16).unwrap();
    let mut max_filled = 0;
    for x in 0..8usize {
        let col_filled: usize = (0..16).filter(|&y| g.data[y * 8 + x] > 0).count();
        max_filled = max_filled.max(col_filled);
    }
    assert_eq!(max_filled, 16, "vertical line did not span full height");
}

#[test]
fn stroke_is_an_eighth_rounded() {
    assert_eq!(calculate_stroke_size(1), 1);
    assert_eq!(calculate_stroke_size(8), 1);
    assert_eq!(calculate_stroke_size(11), 1);
    assert_eq!(calculate_stroke_size(12), 2);
    assert_eq!(calculate_stroke_size(20), 3);
}

#[test]
fn builtin_ranges() {
    assert!(is_builtin('\u{2500}'));
    assert!(is_builtin('\u{259f}'));
    assert!(!is_builtin('\u{24ff}'));
    assert!(!is_builtin('\u{2573}'));
    assert!(!is_builtin('\u{25a0}'));
}

#[test]
fn zero_sized_cells_become_one_pixel() {
    let g = builtin_glyph('\u{2588}', 0, 0).unwrap();
    assert_eq!((g.width, g.height), (1, 1));
    assert_eq!(g.data, vec![255u8]);
    assert_eq!((g.offset_x, g.offset_y), (0, 0));
}

#[test]
fn shades_are_even() {
    for (c, v) in [('\u{2591}', 64u8), ('\u{2592}', 128), ('\u{2593}', 192)] {
        let g = builtin_glyph(c, 5, 3).unwrap();
        assert!(g.data.iter().all(|&p| p == v));
    }
}

#[test]
fn lower_half_block_fills_the_lower_half() {
    let g = builtin_glyph('\u{2584}', 2, 4).unwrap();
    assert_eq!(g.data, vec![0u8, 0, 0, 0, 255, 255, 255, 255]);
}

fn check_digests(w: u32, h: u32, want: &[u32]) {
    let chars = drawn();
    assert_eq!(chars.len(), want.len());
    for (c, d) in chars.iter().zip(want.iter()) {
        let g = builtin_glyph(*c, w, h).unwrap();
        assert_eq!(digest(&g.data), *d, "U+{:04X} at {}x{}", *c as u32, w, h);
    }
}

#[test]
fn digests_8x16() {
    let want: Vec<u32> = vec![
        0x0bd3d6bd, 0x8e1e68b5, 0x6e01d2c5, 0x285b44e5, 0xa80f4173, 0x43d74d61, 0x50615c05, 0xc5615a9d,
        0x1052ad95, 0x7552c165, 0xf2415545, 0x332ab255, 0x14ac2a94, 0x2666b778, 0xebc09ba4, 0x0b8463c3,
        0x8e3b3da1, 0x68a56a20, 0x5b24835e, 0xce453283, 0xa7ce87e1, 0x67da3cd8, 0xbdcd0536, 0xf66e2f83,
        0xe504af54, 0x06da2830, 0x56ed9cf0, 0xcda62a43, 0x19f34d61, 0xda428c45, 0xe2cba6b6, 0x4e0dec71,
        0xa6fbabc6, 0x961c999a, 0x69d83af6, 0xb7eed9a1, 0x9636dcd4, 0xd6552aed, 0x13079a70, 0x90e2202b,
        0x29e13980, 0xc50fe2da, 0xac4685b6, 0x42d2dc61, 0x25286c3d, 0xb6f76984, 0x6a998121, 0xcd978e68,
        0xf14c214d, 0xa9425e94, 0x61275a1a, 0x820d1ed3, 0xe5966ff0, 0x39f16ecc, 0x0f0724c9, 0xf7fa6fe8,
        0xb686129b, 0xabb05298, 0xcdd97c1e, 0x4b453a93, 0xa1b06d70, 0x1f0efa51, 0xe048e854, 0xb2732735,
        0xb11dfa1b, 0xb88a0c80, 0x468a6d2b, 0xfcdeb085, 0xcbb2d8ff, 0xd17baf61, 0x3462f2e7, 0x0f56d28a,
        0x7a630c06, 0x61eed2b6, 0x0e22003c, 0x5f6ea0b1, 0x7ccf63b5, 0xee9c4da5, 0x54360a25, 0x4d01b3c1,
        0x176de2b5, 0xe21d6a65, 0x8506fb18, 0xfd033a62, 0x8d35c7f5, 0x0d8187c0, 0x2b69771e, 0xbe440fa1,
        0xae124dd8, 0x777301ac, 0x3c07664d, 0xcf369330, 0x0999cc68, 0xf02997a1, 0x207a9d45, 0x585f75c6,
        0xaaae887d, 0x9eb195ed, 0x61300aee, 0x15f172bd, 0x56e70868, 0xf7e4d50d, 0x73c124e5, 0x4d362088,
        0xa362a123, 0x177605d1, 0x0b7e6b35, 0x5c6b3973, 0x13397401, 0xdec26290, 0x844e29b1, 0x9e247794,
        0x0bc8ed69, 0xe0172c21, 0xa5304545, 0x3ac30061, 0xd826c545, 0x75a1fefd, 0xbeb6c255, 0x867d117d,
        0x20b1b255, 0x2f116dd9, 0xd03c7fd5, 0xd3e42f99, 0x55f23fd5, 0xd13e5385, 0xa8283cb5, 0x70816fa5,
        0x033cce95, 0x839c9385, 0x862cda75, 0xf6168b65, 0x60140c55, 0x8ed8b345, 0x1debecc5, 0xd01eafe5,
        0x0f70c4c5, 0xd6124985, 0xc29030c5, 0x16fbf225, 0x98d6a4c5, 0xe2e5a185, 0xfc4237c5, 0xc6eb37c5,
        0xe43e37c5, 0x822d5cb5, 0xf77182c5, 0xf9ea4ca5, 0x974848a5, 0xb7fa2ca5, 0x2e246865, 0x292ba585,
        0x091f9665, 0xafec1465, 0x71b428a5, 0x8fcc4585, 0xe7de6465,
    ];
    check_digests(8, 16, &want);
}

#[test]
fn digests_9x19() {
    let want: Vec<u32> = vec![
        0xe9b5e488, 0xfd608cc9, 0x87177234, 0x0580e075, 0xdefa7ef5, 0x525bfeaf, 0xa0e22f80, 0x742fed15,
        0xbe516167, 0xe0b26157, 0x5e028cc3, 0x08dbaaa7, 0x21066991, 0x224d65c4, 0x23b9ec83, 0x1c9b6d65,
        0xfbedd0e1, 0xb530b224, 0x7471794a, 0x41946c07, 0xa113c935, 0x3043dab9, 0x3f1931b3, 0x2ef9ac2f,
        0xcb85c3e5, 0x5c05a659, 0x29e6036e, 0x7d0a52d1, 0xbe332ba0, 0xd1d3101c, 0x45b99b22, 0x717e5a92,
        0x323b5f09, 0x8555c0a6, 0x8cdec90d, 0x521a7f85, 0x2e9144f0, 0xa83d5a7c, 0x3f533967, 0x6e9aed3b,
        0x8a000ec4, 0x99e4ca04, 0xe7d82baf, 0x643ca227, 0xacb3124d, 0xfb02a990, 0x02fafa80, 0xbb133e0c,
        0x6e8603de, 0x4ba9c09b, 0xaed9f8fc, 0xc65d6a1f, 0xd3064879, 0x60e364ed, 0x10891dfd, 0x44e09c71,
        0x69469402, 0xbd1eb165, 0xee745386, 0xacde64e9, 0xaeff9c5c, 0xfaf79de8, 0xd82da2d8, 0xd61e3a64,
        0xf5b274d3, 0x0826f1cf, 0x1450a358, 0x06bae170, 0x687a8d4f, 0xa6354643, 0xa3747354, 0x8f02cdec,
        0x2f7cdfc7, 0x318f84bb, 0x0f5668dc, 0xde0c4e3f, 0xe3b2da67, 0x7b9ab557, 0x07238f27, 0xa6295c57,
        0x60c610c5, 0x51c04159, 0xf9fd6613, 0x0f30a468, 0xd9a47e49, 0xfde2aa73, 0x8e5ef053, 0xfb7c370b,
        0x26aa88a4, 0xed144504, 0x4dd8c7c3, 0x261b8704, 0x1249e023, 0xf96bf099, 0xa8f1e29c, 0xa125284c,
        0x9117226d, 0x86e2cafc, 0x0545986f, 0xe919092f, 0xc2760ebd, 0x96fa0752, 0x3f86e56f, 0xfeec534e,
        0xe6e4f3ee, 0xf2c604e9, 0x75925764, 0x1925cab8, 0xd9d89f93, 0x6d62b0c7, 0x252b3727, 0x14aeb7bf,
        0x2375f65f, 0x3baf0fd3, 0xc9460326, 0x68d8db44, 0x079e8825, 0xc360c647, 0xa2ef039d, 0x93000511,
        0x8dd121ef, 0xfbb8b855, 0x5d7f71fe, 0x27eda014, 0xd4f0ceab, 0x802750b1, 0x359c985d, 0x3213b83a,
        0xcc6174a8, 0xbaa56946, 0x49ff29cb, 0xa4bb0d31, 0xe79ee19e, 0x865805ac, 0xe6c17bdf, 0x4fe40512,
        0xe16ab085, 0xcb79a3e8, 0xee691dae, 0x8b5741a1, 0x6e79f3e4, 0x883445f8, 0x6aaecad7, 0x8f975797,
        0xcc388757, 0x52aa6109, 0x9af88784, 0xeb4d338a, 0xa7b7d4f3, 0xf901f2b9, 0x3b14e5a4, 0x2ccac295,
        0x349faff0, 0x8740528d, 0xbed32167, 0xa98b0d3a, 0x2f3de8f6,
    ];
    check_digests(9, 19, &want);
}

#[test]
fn digests_13x7() {
    let want: Vec<u32> = vec![
        0xd57da461, 0x3bd72f23, 0xfa14de55, 0xb86717fb, 0xce601835, 0x4042ef3b, 0x61490ce9, 0x5a1afe93,
        0x5cf54c17, 0x483e98d7, 0x1211970f, 0x1615cf67, 0xb6724325, 0x35aa406f, 0x7e1373ed, 0x5114efe3,
        0x203e5e1b, 0x13f467a3, 0xc709417b, 0x25acd467, 0x29b6737f, 0x54ec06cd, 0x2e69de19, 0xb99872c7,
        0x187d7075, 0x5f223e01, 0x34eaaba7, 0x659b2b4b, 0xcc1a72ad, 0x0adf8e25, 0xa5177b47, 0x776b8175,
        0xbe87325d, 0x6295521f, 0xcda89199, 0x2e412097, 0x315dcda3, 0x51b48959, 0x90d5bcd5, 0x21fa3503,
        0x63756deb, 0x831e9ca3, 0x2407f81d, 0xc0c69b1b, 0x6c57d78f, 0xa777462f, 0x063382d9, 0xb12ca87b,
        0xe2ff8ca5, 0x80489791, 0xee2e952b, 0x731a98f3, 0xedd5bbe9, 0x9f54568d, 0x3e669f37, 0x299b7cd9,
        0xd8e342d1, 0x7ec0e275, 0x31629c0f, 0xd1870dd7, 0x3d130f17, 0xa975bfe5, 0x2470b88f, 0x73ffd031,
        0x24a381ff, 0x3ba8fc2d, 0xfd1d3f15, 0xe34709cd, 0x6f3ebd67, 0xed192147, 0x7e9bd0e1, 0x7d16a32f,
        0x044886a9, 0xf6904a45, 0xcfa8c9df, 0xc54409a7, 0x48946cf7, 0xf0ff4317, 0x50565c13, 0x516e4e1f,
        0x7d2c9ceb, 0xa92a13d3, 0x039fd105, 0xfc7bba5b, 0x231d53f3, 0xe79b6471, 0xfda7dea5, 0xf5b61c33,
        0xe695f4df, 0xd44e318f, 0x486279a7, 0xe60cbe4b, 0x30a76dd9, 0x077895a7, 0x039fd105, 0x85a2e623,
        0x329eb86b, 0xe79b6471, 0xadc35a79, 0x05959817, 0x726b5d11, 0x14301e3d, 0xce59695b, 0x7d2c9ceb,
        0x0599eb71, 0x6e72eecf, 0x2d312c59, 0x211f894d, 0x5dec133f, 0x19d4bffb, 0x09742695, 0x3648d733,
        0xcc4e4081, 0x8f9e3a9f, 0x24870ee5, 0x639c1b1d, 0x412cedc7, 0x635d7347, 0x094977db, 0x022e68eb,
        0xe5a55077, 0xa0b77fa7, 0x226c6905, 0x58260909, 0x40c9694b, 0xeead343b, 0x14fd369a, 0x5d185755,
        0x87bb25e0, 0x87bb25e0, 0x44938ac3, 0xe8f46fd6, 0x600c7c21, 0xcb5f39fc, 0xb4c3767a, 0x3e364719,
        0x5a1081df, 0x6ffe4e86, 0xaeafe714, 0x78545d52, 0x56ef06d1, 0x65b512ae, 0xfb091397, 0x752793d7,
        0x0f841f17, 0xe55f7e32, 0x1fe55fc5, 0xb4e56ae2, 0xaaf93cc1, 0x121006b3, 0x98fed984, 0x25f7031d,
        0x48c10afe, 0x0fe884a5, 0x87fdb7c7, 0x8e1f1972, 0x92d05c70,
    ];
    check_digests(13, 7, &want);
}

#[test]
fn digests_24x51() {
    let want: Vec<u32> = vec![
        0xa626851d, 0x0d60ead5, 0x0eff18d4, 0xb720ab47, 0xdf34f403, 0x7cf2bee1, 0xe3a6cad4, 0xed89c43f,
        0xb3cc4395, 0x428202c5, 0xf22fe665, 0x94106b25, 0xfec9f943, 0xde5f6998, 0xd5fbf5fa, 0x6c0ede7f,
        0x7b610336, 0x069636f4, 0xf6ce0aa8, 0xb40aecbf, 0xefbfa543, 0xd6e3bc41, 0x738285da, 0x603b5129,
        0x0c742836, 0x163478e5, 0x03118a88, 0xbcf56169, 0xb2361cc3, 0x98d1e3b8, 0x82c27d5a, 0x9180aa7a,
        0xdd47a6ea, 0xe1523ad0, 0xe21bea5f, 0x0cb88323, 0x1990c7b6, 0x7725c114, 0x9f25a208, 0x15eab328,
        0x98b45598, 0x42b19290, 0xb185da9f, 0x6f3edf63, 0xec5c2a9d, 0x1615a81b, 0xe774303e, 0x7ed4f324,
        0x7b2dea2d, 0x2821ecfa, 0xbc50658c, 0x1ebad8cf, 0x15e3e89d, 0xc55edbfe, 0x45cd179b, 0x70dcd2b5,
        0x5eaae22d, 0xd06cb85c, 0x24fc8aee, 0x0fabe179, 0xd0cbe01d, 0xdf6e7dfb, 0x251bda5e, 0x9a830944,
        0xa7c1a7ad, 0x8e6f31ad, 0xf64f8f3d, 0x0e96979d, 0x9aa4250b, 0x5304731a, 0x55ce2fac, 0x1763de80,
        0xd2d0ceaf, 0xf7795656, 0x4f3a64e8, 0xd02ecd73, 0xdde5099d, 0xd33467d5, 0xc46cbe25, 0xc9f2d7ad,
        0x195480d5, 0x022856df, 0x2ae053e1, 0xf2a589e8, 0x1492dd43, 0x2031c105, 0x17f06d68, 0x883793ef,
        0x032d9a10, 0xe188ba48, 0xeb5cbcd1, 0x1d363b34, 0xb07f27c8, 0x38d69225, 0xab1e2ff0, 0x71603ee2,
        0x7db790ef, 0x00f53514, 0x78e074ce, 0x7257c9af, 0x0002a8b5, 0x8076b4ed, 0x2d638d87, 0xbac6e4e4,
        0x3c5e66ed, 0xa4d30ca9, 0x15f56264, 0x473f1ebd, 0x71e46d5b, 0x54f1e771, 0x495e940c, 0x3fed71d8,
        0xd05271e1, 0xec9cf561, 0xf217ebb4, 0x9c954621, 0x547e7785, 0x97b02add, 0x2a53e94b, 0xe8e8e65d,
        0xbdb80e61, 0xa0774d59, 0x841609b0, 0xad339299, 0x471c866b, 0x085056f5, 0xaf39f2d5, 0xad9e0d2d,
        0x3166d59d, 0x9948a00d, 0x4a73f365, 0xcf181dd5, 0x9799182d, 0xdf8ea09d, 0x6053095e, 0xbee53687,
        0xd271ad98, 0xec855f21, 0x6ca98c02, 0x18c782eb, 0x435e571c, 0x0fc081e1, 0x15c83965, 0x5ccd4465,
        0x0fe1a965, 0xa5db08d5, 0xf8ae2846, 0x97980319, 0x46278359, 0x2d1bae6d, 0x52bd0a15, 0xdd685d61,
        0x1d5187a9, 0x2c9e1be9, 0x82ff44ed, 0x2df82ba1, 0xf5ff6a95,
    ];
    check_digests(24, 51, &want);
}
