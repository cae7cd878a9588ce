//! G.711 reference data: the two expansion tables, and the mathematical model
//! of companding that the encoders and decoders are verified against.
//!
//! An octet carries a sign bit, a three-bit segment and a four-bit mantissa.
//! A-law inverts the even bits of the octet on the wire, mu-law inverts all
//! of them.

use vstd::prelude::*;

verus! {

/// Signed 16-bit amplitude of every A-law octet, indexed by the octet as it
/// appears on the wire.
pub const ALAW_TO_LINEAR_LUT: [i16; 256] = [
    -5504, -5248, -6016, -5760, -4480, -4224, -4992, -4736, -7552, -7296, -8064, -7808, -6528, -6272, -7040, -6784,
    -2752, -2624, -3008, -2880, -2240, -2112, -2496, -2368, -3776, -3648, -4032, -3904, -3264, -3136, -3520, -3392,
    -22016, -20992, -24064, -23040, -17920, -16896, -19968, -18944, -30208, -29184, -32256, -31232, -26112, -25088, -28160, -27136,
    -11008, -10496, -12032, -11520, -8960, -8448, -9984, -9472, -15104, -14592, -16128, -15616, -13056, -12544, -14080, -13568,
    -344, -328, -376, -360, -280, -264, -312, -296, -472, -456, -504, -488, -408, -392, -440, -424,
    -88, -72, -120, -104, -24, -8, -56, -40, -216, -200, -248, -232, -152, -136, -184, -168,
    -1376, -1312, -1504, -1440, -1120, -1056, -1248, -1184, -1888, -1824, -2016, -1952, -1632, -1568, -1760, -1696,
    -688, -656, -752, -720, -560, -528, -624, -592, -944, -912, -1008, -976, -816, -784, -880, -848,
    5504, 5248, 6016, 5760, 4480, 4224, 4992, 4736, 7552, 7296, 8064, 7808, 6528, 6272, 7040, 6784,
    2752, 2624, 3008, 2880, 2240, 2112, 2496, 2368, 3776, 3648, 4032, 3904, 3264, 3136, 3520, 3392,
    22016, 20992, 24064, 23040, 17920, 16896, 19968, 18944, 30208, 29184, 32256, 31232, 26112, 25088, 28160, 27136,
    11008, 10496, 12032, 11520, 8960, 8448, 9984, 9472, 15104, 14592, 16128, 15616, 13056, 12544, 14080, 13568,
    344, 328, 376, 360, 280, 264, 312, 296, 472, 456, 504, 488, 408, 392, 440, 424,
    88, 72, 120, 104, 24, 8, 56, 40, 216, 200, 248, 232, 152, 136, 184, 168,
    1376, 1312, 1504, 1440, 1120, 1056, 1248, 1184, 1888, 1824, 2016, 1952, 1632, 1568, 1760, 1696,
    688, 656, 752, 720, 560, 528, 624, 592, 944, 912, 1008, 976, 816, 784, 880, 848,
];

/// Signed 16-bit amplitude of every mu-law octet, indexed by the octet as it
/// appears on the wire.
pub const ULAW_TO_LINEAR_LUT: [i16; 256] = [
    -32124, -31100, -30076, -29052, -28028, -27004, -25980, -24956, -23932, -22908, -21884, -20860, -19836, -18812, -17788, -16764,
    -15996, -15484, -14972, -14460, -13948, -13436, -12924, -12412, -11900, -11388, -10876, -10364, -9852, -9340, -8828, -8316,
    -7932, -7676, -7420, -7164, -6908, -6652, -6396, -6140, -5884, -5628, -5372, -5116, -4860, -4604, -4348, -4092,
    -3900, -3772, -3644, -3516, -3388, -3260, -3132, -3004, -2876, -2748, -2620, -2492, -2364, -2236, -2108, -1980,
    -1884, -1820, -1756, -1692, -1628, -1564, -1500, -1436, -1372, -1308, -1244, -1180, -1116, -1052, -988, -924,
    -876, -844, -812, -780, -748, -716, -684, -652, -620, -588, -556, -524, -492, -460, -428, -396,
    -372, -356, -340, -324, -308, -292, -276, -260, -244, -228, -212, -196, -180, -164, -148, -132,
    -120, -112, -104, -96, -88, -80, -72, -64, -56, -48, -40, -32, -24, -16, -8, 0,
    32124, 31100, 30076, 29052, 28028, 27004, 25980, 24956, 23932, 22908, 21884, 20860, 19836, 18812, 17788, 16764,
    15996, 15484, 14972, 14460, 13948, 13436, 12924, 12412, 11900, 11388, 10876, 10364, 9852, 9340, 8828, 8316,
    7932, 7676, 7420, 7164, 6908, 6652, 6396, 6140, 5884, 5628, 5372, 5116, 4860, 4604, 4348, 4092,
    3900, 3772, 3644, 3516, 3388, 3260, 3132, 3004, 2876, 2748, 2620, 2492, 2364, 2236, 2108, 1980,
    1884, 1820, 1756, 1692, 1628, 1564, 1500, 1436, 1372, 1308, 1244, 1180, 1116, 1052, 988, 924,
    876, 844, 812, 780, 748, 716, 684, 652, 620, 588, 556, 524, 492, 460, 428, 396,
    372, 356, 340, 324, 308, 292, 276, 260, 244, 228, 212, 196, 180, 164, 148, 132,
    120, 112, 104, 96, 88, 80, 72, 64, 56, 48, 40, 32, 24, 16, 8, 0,
];

/// The even-bit mask that A-law applies to every octet on the wire.
pub const ALAW_TOGGLE: u8 = 0x55;

/// The bias that mu-law adds to a magnitude before it looks for the segment.
pub const ULAW_BIAS: i32 = 0x84;

/// The largest magnitude that mu-law encodes without clipping.
pub const ULAW_CLIP: i32 = 32635;

/// Width of one quantisation step in segment `seg`, on the 16-bit scale.
/// Segments 0 and 1 share the finest step; each later one doubles it.
pub open spec fn alaw_step(seg: int) -> int {
    if seg <= 1 {
        16
    } else if seg == 2 {
        32
    } else if seg == 3 {
        64
    } else if seg == 4 {
        128
    } else if seg == 5 {
        256
    } else if seg == 6 {
        512
    } else {
        1024
    }
}

/// Magnitude that an A-law decoder reconstructs for a segment and a mantissa:
/// the midpoint of the quantisation interval. Segment 0 starts at 0, segment
/// `s >= 1` starts at sixteen steps of its own width.
pub open spec fn alaw_level(seg: int, mant: int) -> int {
    if seg == 0 {
        16 * mant + 8
    } else if seg == 1 {
        16 * mant + 264
    } else if seg == 2 {
        32 * mant + 528
    } else if seg == 3 {
        64 * mant + 1056
    } else if seg == 4 {
        128 * mant + 2112
    } else if seg == 5 {
        256 * mant + 4224
    } else if seg == 6 {
        512 * mant + 8448
    } else {
        1024 * mant + 16896
    }
}

/// Amplitude of an A-law octet as G.711 defines it: undo the even-bit
/// toggle, then read sign (bit 7, set for positive), segment (bits 6 to 4)
/// and mantissa (bits 3 to 0).
pub open spec fn alaw_expand(code: u8) -> int {
    let x = (code ^ 0x55u8) as int;
    let level = alaw_level((x / 16) % 8, x % 16);
    if x / 128 == 1 {
        level
    } else {
        -level
    }
}

/// Magnitude that A-law quantises: the sample itself, or its one's complement
/// when it is negative.
pub open spec fn alaw_magnitude(pcm: i16) -> int {
    if pcm >= 0 {
        pcm as int
    } else {
        -(pcm as int) - 1
    }
}

/// Segment of a magnitude: the number of the largest segment boundary
/// (256, 512, ..., 16384) that does not exceed it.
pub open spec fn alaw_segment(mag: int) -> int {
    if mag < 256 {
        0
    } else if mag < 512 {
        1
    } else if mag < 1024 {
        2
    } else if mag < 2048 {
        3
    } else if mag < 4096 {
        4
    } else if mag < 8192 {
        5
    } else if mag < 16384 {
        6
    } else {
        7
    }
}

/// The A-law octet of a 16-bit sample: sign, segment and the four bits below
/// the segment's leading bit, with the even bits toggled.
pub open spec fn alaw_compress(pcm: i16) -> u8 {
    let mag = alaw_magnitude(pcm);
    let seg = alaw_segment(mag);
    let mant = (mag / alaw_step(seg)) % 16;
    let sign: int = if pcm >= 0 {
        128
    } else {
        0
    };
    ((sign + 16 * seg + mant) as u8) ^ 0x55u8
}

/// Biased magnitude that a mu-law decoder reconstructs for a segment and a
/// mantissa: `(8 * mant + 132) * 2^seg`.
pub open spec fn ulaw_level(seg: int, mant: int) -> int {
    if seg == 0 {
        8 * mant + 132
    } else if seg == 1 {
        16 * mant + 264
    } else if seg == 2 {
        32 * mant + 528
    } else if seg == 3 {
        64 * mant + 1056
    } else if seg == 4 {
        128 * mant + 2112
    } else if seg == 5 {
        256 * mant + 4224
    } else if seg == 6 {
        512 * mant + 8448
    } else {
        1024 * mant + 16896
    }
}

/// Amplitude of a mu-law octet as G.711 defines it: invert all bits, then
/// read sign (bit 7, set for negative), segment and mantissa, and take the
/// bias off the level.
pub open spec fn ulaw_expand(code: u8) -> int {
    let x = 255 - code;
    let level = ulaw_level((x / 16) % 8, x % 16) - 132;
    if x / 128 == 1 {
        -level
    } else {
        level
    }
}

/// Magnitude that mu-law quantises: the absolute value, with the most
/// negative sample taken as the most positive one, clipped to 32635 and
/// biased by 132.
pub open spec fn ulaw_magnitude(pcm: i16) -> int {
    let abs: int = if pcm == i16::MIN {
        i16::MAX as int
    } else if pcm < 0 {
        -(pcm as int)
    } else {
        pcm as int
    };
    if abs > 32635 {
        32767
    } else {
        abs + 132
    }
}

/// Width of the mantissa step of a biased magnitude in segment `seg`.
pub open spec fn ulaw_step(seg: int) -> int {
    if seg == 0 {
        8
    } else {
        alaw_step(seg)
    }
}

/// The mu-law octet of a 16-bit sample: sign, segment of the biased
/// magnitude and the four bits below the segment's leading bit, all inverted.
pub open spec fn ulaw_compress(pcm: i16) -> u8 {
    let mag = ulaw_magnitude(pcm);
    let seg = alaw_segment(mag);
    let mant = (mag / ulaw_step(seg)) % 16;
    let sign: int = if pcm < 0 {
        128
    } else {
        0
    };
    (255 - (sign + 16 * seg + mant)) as u8
}

/// Sign, segment and mantissa joined with `|` occupy disjoint bits, so the
/// octet is their weighted sum.
pub(crate) proof fn lemma_pack_fields(sign: u8, seg: u8, mant: u8)
    by (bit_vector)
    requires
        sign == 0 || sign == 128,
        seg < 8,
        mant < 16,
    ensures
        (sign | (seg << 4) | mant) == sign + 16 * seg + mant,
{
}

/// Taking four bits from position `shift` is dividing by `2^shift` and
/// reducing modulo 16.
pub(crate) proof fn lemma_mantissa_bits(mag: u16, shift: u16)
    by (bit_vector)
    requires
        1 <= shift <= 10,
    ensures
        (mag >> shift) & 0x0F == if shift == 1 {
            (mag / 2) % 16
        } else if shift == 2 {
            (mag / 4) % 16
        } else if shift == 3 {
            (mag / 8) % 16
        } else if shift == 4 {
            (mag / 16) % 16
        } else if shift == 5 {
            (mag / 32) % 16
        } else if shift == 6 {
            (mag / 64) % 16
        } else if shift == 7 {
            (mag / 128) % 16
        } else if shift == 8 {
            (mag / 256) % 16
        } else if shift == 9 {
            (mag / 512) % 16
        } else {
            (mag / 1024) % 16
        },
{
}

/// The low four bits of `c` with bits 0 and 2 inverted.
spec fn alaw_mantissa_bits(c: int) -> int {
    c % 16 + (1 - 2 * (c % 2)) + 4 * (1 - 2 * ((c / 4) % 2))
}

/// Bits 4 to 6 of `c` with bits 4 and 6 inverted.
spec fn alaw_segment_bits(c: int) -> int {
    (c / 16) % 8 + (1 - 2 * ((c / 16) % 2)) + 4 * (1 - 2 * ((c / 64) % 2))
}

/// `alaw_expand` read off the bits of the octet itself, so that it can be
/// evaluated on a literal without bit-vector reasoning.
spec fn alaw_expand_by_bits(c: int) -> int {
    let level = alaw_level(alaw_segment_bits(c), alaw_mantissa_bits(c));
    if c / 128 == 1 {
        level
    } else {
        -level
    }
}

proof fn lemma_alaw_expand_by_bits(c: u8)
    ensures
        alaw_expand(c) == alaw_expand_by_bits(c as int),
{
    let x = c ^ 0x55u8;
    assert(x % 16 == c % 16 + (1 - 2 * (c % 2)) + 4 * (1 - 2 * ((c / 4) % 2)) && (x / 16) % 8 == (c
        / 16) % 8 + (1 - 2 * ((c / 16) % 2)) + 4 * (1 - 2 * ((c / 64) % 2)) && x / 128 == c / 128)
        by (bit_vector)
        requires
            x == c ^ 0x55u8,
    ;
}

#[verifier::opaque]
spec fn alaw_entry_ok(c: int) -> bool {
    ALAW_TO_LINEAR_LUT[c] == alaw_expand_by_bits(c)
}

#[verifier::rlimit(40)]
proof fn lemma_alaw_entries(c: int)
    requires
        0 <= c < 256,
    ensures
        alaw_entry_ok(c),
{
    assert(alaw_entry_ok(0) && alaw_entry_ok(1) && alaw_entry_ok(2) && alaw_entry_ok(3) && alaw_entry_ok(4) && alaw_entry_ok(5) && alaw_entry_ok(6) && alaw_entry_ok(7) && alaw_entry_ok(8) && alaw_entry_ok(9) && alaw_entry_ok(10) && alaw_entry_ok(11) && alaw_entry_ok(12) && alaw_entry_ok(13) && alaw_entry_ok(14) && alaw_entry_ok(15)) by {
        reveal(alaw_entry_ok);
    }
    assert(alaw_entry_ok(16) && alaw_entry_ok(17) && alaw_entry_ok(18) && alaw_entry_ok(19) && alaw_entry_ok(20) && alaw_entry_ok(21) && alaw_entry_ok(22) && alaw_entry_ok(23) && alaw_entry_ok(24) && alaw_entry_ok(25) && alaw_entry_ok(26) && alaw_entry_ok(27) && alaw_entry_ok(28) && alaw_entry_ok(29) && alaw_entry_ok(30) && alaw_entry_ok(31)) by {
        reveal(alaw_entry_ok);
    }
    assert(alaw_entry_ok(32) && alaw_entry_ok(33) && alaw_entry_ok(34) && alaw_entry_ok(35) && alaw_entry_ok(36) && alaw_entry_ok(37) && alaw_entry_ok(38) && alaw_entry_ok(39) && alaw_entry_ok(40) && alaw_entry_ok(41) && alaw_entry_ok(42) && alaw_entry_ok(43) && alaw_entry_ok(44) && alaw_entry_ok(45) && alaw_entry_ok(46) && alaw_entry_ok(47)) by {
        reveal(alaw_entry_ok);
    }
    assert(alaw_entry_ok(48) && alaw_entry_ok(49) && alaw_entry_ok(50) && alaw_entry_ok(51) && alaw_entry_ok(52) && alaw_entry_ok(53) && alaw_entry_ok(54) && alaw_entry_ok(55) && alaw_entry_ok(56) && alaw_entry_ok(57) && alaw_entry_ok(58) && alaw_entry_ok(59) && alaw_entry_ok(60) && alaw_entry_ok(61) && alaw_entry_ok(62) && alaw_entry_ok(63)) by {
        reveal(alaw_entry_ok);
    }
    assert(alaw_entry_ok(64) && alaw_entry_ok(65) && alaw_entry_ok(66) && alaw_entry_ok(67) && alaw_entry_ok(68) && alaw_entry_ok(69) && alaw_entry_ok(70) && alaw_entry_ok(71) && alaw_entry_ok(72) && alaw_entry_ok(73) && alaw_entry_ok(74) && alaw_entry_ok(75) && alaw_entry_ok(76) && alaw_entry_ok(77) && alaw_entry_ok(78) && alaw_entry_ok(79)) by {
        reveal(alaw_entry_ok);
    }
    assert(alaw_entry_ok(80) && alaw_entry_ok(81) && alaw_entry_ok(82) && alaw_entry_ok(83) && alaw_entry_ok(84) && alaw_entry_ok(85) && alaw_entry_ok(86) && alaw_entry_ok(87) && alaw_entry_ok(88) && alaw_entry_ok(89) && alaw_entry_ok(90) && alaw_entry_ok(91) && alaw_entry_ok(92) && alaw_entry_ok(93) && alaw_entry_ok(94) && alaw_entry_ok(95)) by {
        reveal(alaw_entry_ok);
    }
    assert(alaw_entry_ok(96) && alaw_entry_ok(97) && alaw_entry_ok(98) && alaw_entry_ok(99) && alaw_entry_ok(100) && alaw_entry_ok(101) && alaw_entry_ok(102) && alaw_entry_ok(103) && alaw_entry_ok(104) && alaw_entry_ok(105) && alaw_entry_ok(106) && alaw_entry_ok(107) && alaw_entry_ok(108) && alaw_entry_ok(109) && alaw_entry_ok(110) && alaw_entry_ok(111)) by {
        reveal(alaw_entry_ok);
    }
    assert(alaw_entry_ok(112) && alaw_entry_ok(113) && alaw_entry_ok(114) && alaw_entry_ok(115) && alaw_entry_ok(116) && alaw_entry_ok(117) && alaw_entry_ok(118) && alaw_entry_ok(119) && alaw_entry_ok(120) && alaw_entry_ok(121) && alaw_entry_ok(122) && alaw_entry_ok(123) && alaw_entry_ok(124) && alaw_entry_ok(125) && alaw_entry_ok(126) && alaw_entry_ok(127)) by {
        reveal(alaw_entry_ok);
    }
    assert(alaw_entry_ok(128) && alaw_entry_ok(129) && alaw_entry_ok(130) && alaw_entry_ok(131) && alaw_entry_ok(132) && alaw_entry_ok(133) && alaw_entry_ok(134) && alaw_entry_ok(135) && alaw_entry_ok(136) && alaw_entry_ok(137) && alaw_entry_ok(138) && alaw_entry_ok(139) && alaw_entry_ok(140) && alaw_entry_ok(141) && alaw_entry_ok(142) && alaw_entry_ok(143)) by {
        reveal(alaw_entry_ok);
    }
    assert(alaw_entry_ok(144) && alaw_entry_ok(145) && alaw_entry_ok(146) && alaw_entry_ok(147) && alaw_entry_ok(148) && alaw_entry_ok(149) && alaw_entry_ok(150) && alaw_entry_ok(151) && alaw_entry_ok(152) && alaw_entry_ok(153) && alaw_entry_ok(154) && alaw_entry_ok(155) && alaw_entry_ok(156) && alaw_entry_ok(157) && alaw_entry_ok(158) && alaw_entry_ok(159)) by {
        reveal(alaw_entry_ok);
    }
    assert(alaw_entry_ok(160) && alaw_entry_ok(161) && alaw_entry_ok(162) && alaw_entry_ok(163) && alaw_entry_ok(164) && alaw_entry_ok(165) && alaw_entry_ok(166) && alaw_entry_ok(167) && alaw_entry_ok(168) && alaw_entry_ok(169) && alaw_entry_ok(170) && alaw_entry_ok(171) && alaw_entry_ok(172) && alaw_entry_ok(173) && alaw_entry_ok(174) && alaw_entry_ok(175)) by {
        reveal(alaw_entry_ok);
    }
    assert(alaw_entry_ok(176) && alaw_entry_ok(177) && alaw_entry_ok(178) && alaw_entry_ok(179) && alaw_entry_ok(180) && alaw_entry_ok(181) && alaw_entry_ok(182) && alaw_entry_ok(183) && alaw_entry_ok(184) && alaw_entry_ok(185) && alaw_entry_ok(186) && alaw_entry_ok(187) && alaw_entry_ok(188) && alaw_entry_ok(189) && alaw_entry_ok(190) && alaw_entry_ok(191)) by {
        reveal(alaw_entry_ok);
    }
    assert(alaw_entry_ok(192) && alaw_entry_ok(193) && alaw_entry_ok(194) && alaw_entry_ok(195) && alaw_entry_ok(196) && alaw_entry_ok(197) && alaw_entry_ok(198) && alaw_entry_ok(199) && alaw_entry_ok(200) && alaw_entry_ok(201) && alaw_entry_ok(202) && alaw_entry_ok(203) && alaw_entry_ok(204) && alaw_entry_ok(205) && alaw_entry_ok(206) && alaw_entry_ok(207)) by {
        reveal(alaw_entry_ok);
    }
    assert(alaw_entry_ok(208) && alaw_entry_ok(209) && alaw_entry_ok(210) && alaw_entry_ok(211) && alaw_entry_ok(212) && alaw_entry_ok(213) && alaw_entry_ok(214) && alaw_entry_ok(215) && alaw_entry_ok(216) && alaw_entry_ok(217) && alaw_entry_ok(218) && alaw_entry_ok(219) && alaw_entry_ok(220) && alaw_entry_ok(221) && alaw_entry_ok(222) && alaw_entry_ok(223)) by {
        reveal(alaw_entry_ok);
    }
    assert(alaw_entry_ok(224) && alaw_entry_ok(225) && alaw_entry_ok(226) && alaw_entry_ok(227) && alaw_entry_ok(228) && alaw_entry_ok(229) && alaw_entry_ok(230) && alaw_entry_ok(231) && alaw_entry_ok(232) && alaw_entry_ok(233) && alaw_entry_ok(234) && alaw_entry_ok(235) && alaw_entry_ok(236) && alaw_entry_ok(237) && alaw_entry_ok(238) && alaw_entry_ok(239)) by {
        reveal(alaw_entry_ok);
    }
    assert(alaw_entry_ok(240) && alaw_entry_ok(241) && alaw_entry_ok(242) && alaw_entry_ok(243) && alaw_entry_ok(244) && alaw_entry_ok(245) && alaw_entry_ok(246) && alaw_entry_ok(247) && alaw_entry_ok(248) && alaw_entry_ok(249) && alaw_entry_ok(250) && alaw_entry_ok(251) && alaw_entry_ok(252) && alaw_entry_ok(253) && alaw_entry_ok(254) && alaw_entry_ok(255)) by {
        reveal(alaw_entry_ok);
    }
}

/// Every entry of the A-law table is the amplitude that G.711 assigns to its
/// index.
pub proof fn lemma_alaw_table_is_canonical(code: u8)
    ensures
        ALAW_TO_LINEAR_LUT[code as int] == alaw_expand(code),
{
    lemma_alaw_expand_by_bits(code);
    lemma_alaw_entries(code as int);
    reveal(alaw_entry_ok);
}

/// `ulaw_expand` with the fields read off the octet itself.
spec fn ulaw_expand_by_bits(c: int) -> int {
    let level = ulaw_level(7 - (c / 16) % 8, 15 - c % 16) - 132;
    if c / 128 == 0 {
        -level
    } else {
        level
    }
}

proof fn lemma_ulaw_expand_by_bits(c: u8)
    ensures
        ulaw_expand(c) == ulaw_expand_by_bits(c as int),
{
    let x: u8 = (255 - c) as u8;
    assert(x % 16 == 15 - c % 16 && (x / 16) % 8 == 7 - (c / 16) % 8 && x / 128 == 1 - c / 128)
        by (bit_vector)
        requires
            x == 255 - c,
    ;
}

#[verifier::opaque]
spec fn ulaw_entry_ok(c: int) -> bool {
    ULAW_TO_LINEAR_LUT[c] == ulaw_expand_by_bits(c)
}

#[verifier::rlimit(40)]
proof fn lemma_ulaw_entries(c: int)
    requires
        0 <= c < 256,
    ensures
        ulaw_entry_ok(c),
{
    assert(ulaw_entry_ok(0) && ulaw_entry_ok(1) && ulaw_entry_ok(2) && ulaw_entry_ok(3) && ulaw_entry_ok(4) && ulaw_entry_ok(5) && ulaw_entry_ok(6) && ulaw_entry_ok(7) && ulaw_entry_ok(8) && ulaw_entry_ok(9) && ulaw_entry_ok(10) && ulaw_entry_ok(11) && ulaw_entry_ok(12) && ulaw_entry_ok(13) && ulaw_entry_ok(14) && ulaw_entry_ok(15)) by {
        reveal(ulaw_entry_ok);
    }
    assert(ulaw_entry_ok(16) && ulaw_entry_ok(17) && ulaw_entry_ok(18) && ulaw_entry_ok(19) && ulaw_entry_ok(20) && ulaw_entry_ok(21) && ulaw_entry_ok(22) && ulaw_entry_ok(23) && ulaw_entry_ok(24) && ulaw_entry_ok(25) && ulaw_entry_ok(26) && ulaw_entry_ok(27) && ulaw_entry_ok(28) && ulaw_entry_ok(29) && ulaw_entry_ok(30) && ulaw_entry_ok(31)) by {
        reveal(ulaw_entry_ok);
    }
    assert(ulaw_entry_ok(32) && ulaw_entry_ok(33) && ulaw_entry_ok(34) && ulaw_entry_ok(35) && ulaw_entry_ok(36) && ulaw_entry_ok(37) && ulaw_entry_ok(38) && ulaw_entry_ok(39) && ulaw_entry_ok(40) && ulaw_entry_ok(41) && ulaw_entry_ok(42) && ulaw_entry_ok(43) && ulaw_entry_ok(44) && ulaw_entry_ok(45) && ulaw_entry_ok(46) && ulaw_entry_ok(47)) by {
        reveal(ulaw_entry_ok);
    }
    assert(ulaw_entry_ok(48) && ulaw_entry_ok(49) && ulaw_entry_ok(50) && ulaw_entry_ok(51) && ulaw_entry_ok(52) && ulaw_entry_ok(53) && ulaw_entry_ok(54) && ulaw_entry_ok(55) && ulaw_entry_ok(56) && ulaw_entry_ok(57) && ulaw_entry_ok(58) && ulaw_entry_ok(59) && ulaw_entry_ok(60) && ulaw_entry_ok(61) && ulaw_entry_ok(62) && ulaw_entry_ok(63)) by {
        reveal(ulaw_entry_ok);
    }
    assert(ulaw_entry_ok(64) && ulaw_entry_ok(65) && ulaw_entry_ok(66) && ulaw_entry_ok(67) && ulaw_entry_ok(68) && ulaw_entry_ok(69) && ulaw_entry_ok(70) && ulaw_entry_ok(71) && ulaw_entry_ok(72) && ulaw_entry_ok(73) && ulaw_entry_ok(74) && ulaw_entry_ok(75) && ulaw_entry_ok(76) && ulaw_entry_ok(77) && ulaw_entry_ok(78) && ulaw_entry_ok(79)) by {
        reveal(ulaw_entry_ok);
    }
    assert(ulaw_entry_ok(80) && ulaw_entry_ok(81) && ulaw_entry_ok(82) && ulaw_entry_ok(83) && ulaw_entry_ok(84) && ulaw_entry_ok(85) && ulaw_entry_ok(86) && ulaw_entry_ok(87) && ulaw_entry_ok(88) && ulaw_entry_ok(89) && ulaw_entry_ok(90) && ulaw_entry_ok(91) && ulaw_entry_ok(92) && ulaw_entry_ok(93) && ulaw_entry_ok(94) && ulaw_entry_ok(95)) by {
        reveal(ulaw_entry_ok);
    }
    assert(ulaw_entry_ok(96) && ulaw_entry_ok(97) && ulaw_entry_ok(98) && ulaw_entry_ok(99) && ulaw_entry_ok(100) && ulaw_entry_ok(101) && ulaw_entry_ok(102) && ulaw_entry_ok(103) && ulaw_entry_ok(104) && ulaw_entry_ok(105) && ulaw_entry_ok(106) && ulaw_entry_ok(107) && ulaw_entry_ok(108) && ulaw_entry_ok(109) && ulaw_entry_ok(110) && ulaw_entry_ok(111)) by {
        reveal(ulaw_entry_ok);
    }
    assert(ulaw_entry_ok(112) && ulaw_entry_ok(113) && ulaw_entry_ok(114) && ulaw_entry_ok(115) && ulaw_entry_ok(116) && ulaw_entry_ok(117) && ulaw_entry_ok(118) && ulaw_entry_ok(119) && ulaw_entry_ok(120) && ulaw_entry_ok(121) && ulaw_entry_ok(122) && ulaw_entry_ok(123) && ulaw_entry_ok(124) && ulaw_entry_ok(125) && ulaw_entry_ok(126) && ulaw_entry_ok(127)) by {
        reveal(ulaw_entry_ok);
    }
    assert(ulaw_entry_ok(128) && ulaw_entry_ok(129) && ulaw_entry_ok(130) && ulaw_entry_ok(131) && ulaw_entry_ok(132) && ulaw_entry_ok(133) && ulaw_entry_ok(134) && ulaw_entry_ok(135) && ulaw_entry_ok(136) && ulaw_entry_ok(137) && ulaw_entry_ok(138) && ulaw_entry_ok(139) && ulaw_entry_ok(140) && ulaw_entry_ok(141) && ulaw_entry_ok(142) && ulaw_entry_ok(143)) by {
        reveal(ulaw_entry_ok);
    }
    assert(ulaw_entry_ok(144) && ulaw_entry_ok(145) && ulaw_entry_ok(146) && ulaw_entry_ok(147) && ulaw_entry_ok(148) && ulaw_entry_ok(149) && ulaw_entry_ok(150) && ulaw_entry_ok(151) && ulaw_entry_ok(152) && ulaw_entry_ok(153) && ulaw_entry_ok(154) && ulaw_entry_ok(155) && ulaw_entry_ok(156) && ulaw_entry_ok(157) && ulaw_entry_ok(158) && ulaw_entry_ok(159)) by {
        reveal(ulaw_entry_ok);
    }
    assert(ulaw_entry_ok(160) && ulaw_entry_ok(161) && ulaw_entry_ok(162) && ulaw_entry_ok(163) && ulaw_entry_ok(164) && ulaw_entry_ok(165) && ulaw_entry_ok(166) && ulaw_entry_ok(167) && ulaw_entry_ok(168) && ulaw_entry_ok(169) && ulaw_entry_ok(170) && ulaw_entry_ok(171) && ulaw_entry_ok(172) && ulaw_entry_ok(173) && ulaw_entry_ok(174) && ulaw_entry_ok(175)) by {
        reveal(ulaw_entry_ok);
    }
    assert(ulaw_entry_ok(176) && ulaw_entry_ok(177) && ulaw_entry_ok(178) && ulaw_entry_ok(179) && ulaw_entry_ok(180) && ulaw_entry_ok(181) && ulaw_entry_ok(182) && ulaw_entry_ok(183) && ulaw_entry_ok(184) && ulaw_entry_ok(185) && ulaw_entry_ok(186) && ulaw_entry_ok(187) && ulaw_entry_ok(188) && ulaw_entry_ok(189) && ulaw_entry_ok(190) && ulaw_entry_ok(191)) by {
        reveal(ulaw_entry_ok);
    }
    assert(ulaw_entry_ok(192) && ulaw_entry_ok(193) && ulaw_entry_ok(194) && ulaw_entry_ok(195) && ulaw_entry_ok(196) && ulaw_entry_ok(197) && ulaw_entry_ok(198) && ulaw_entry_ok(199) && ulaw_entry_ok(200) && ulaw_entry_ok(201) && ulaw_entry_ok(202) && ulaw_entry_ok(203) && ulaw_entry_ok(204) && ulaw_entry_ok(205) && ulaw_entry_ok(206) && ulaw_entry_ok(207)) by {
        reveal(ulaw_entry_ok);
    }
    assert(ulaw_entry_ok(208) && ulaw_entry_ok(209) && ulaw_entry_ok(210) && ulaw_entry_ok(211) && ulaw_entry_ok(212) && ulaw_entry_ok(213) && ulaw_entry_ok(214) && ulaw_entry_ok(215) && ulaw_entry_ok(216) && ulaw_entry_ok(217) && ulaw_entry_ok(218) && ulaw_entry_ok(219) && ulaw_entry_ok(220) && ulaw_entry_ok(221) && ulaw_entry_ok(222) && ulaw_entry_ok(223)) by {
        reveal(ulaw_entry_ok);
    }
    assert(ulaw_entry_ok(224) && ulaw_entry_ok(225) && ulaw_entry_ok(226) && ulaw_entry_ok(227) && ulaw_entry_ok(228) && ulaw_entry_ok(229) && ulaw_entry_ok(230) && ulaw_entry_ok(231) && ulaw_entry_ok(232) && ulaw_entry_ok(233) && ulaw_entry_ok(234) && ulaw_entry_ok(235) && ulaw_entry_ok(236) && ulaw_entry_ok(237) && ulaw_entry_ok(238) && ulaw_entry_ok(239)) by {
        reveal(ulaw_entry_ok);
    }
    assert(ulaw_entry_ok(240) && ulaw_entry_ok(241) && ulaw_entry_ok(242) && ulaw_entry_ok(243) && ulaw_entry_ok(244) && ulaw_entry_ok(245) && ulaw_entry_ok(246) && ulaw_entry_ok(247) && ulaw_entry_ok(248) && ulaw_entry_ok(249) && ulaw_entry_ok(250) && ulaw_entry_ok(251) && ulaw_entry_ok(252) && ulaw_entry_ok(253) && ulaw_entry_ok(254) && ulaw_entry_ok(255)) by {
        reveal(ulaw_entry_ok);
    }
}

/// Every entry of the mu-law table is the amplitude that G.711 assigns to its
/// index.
pub proof fn lemma_ulaw_table_is_canonical(code: u8)
    ensures
        ULAW_TO_LINEAR_LUT[code as int] == ulaw_expand(code),
{
    lemma_ulaw_expand_by_bits(code);
    lemma_ulaw_entries(code as int);
    reveal(ulaw_entry_ok);
}

/// Toggling the even bits twice changes nothing.
proof fn lemma_toggle_twice(b: u8)
    by (bit_vector)
    ensures
        (b ^ 0x55u8) ^ 0x55u8 == b,
{
}

/// The mantissa of a magnitude counts the steps above the start of its
/// segment, and the level of segment and mantissa lies half a step above the
/// foot of the step that holds the magnitude.
proof fn lemma_alaw_level_of_magnitude(mag: int)
    requires
        0 <= mag <= 32767,
    ensures
        ({
            let seg = alaw_segment(mag);
            let step = alaw_step(seg);
            let mant = (mag / step) % 16;
            &&& 0 <= seg <= 7
            &&& 0 <= mant <= 15
            &&& alaw_level(seg, mant) == mag - mag % step + step / 2
            &&& 0 <= mag % step < step
        }),
{
    let seg = alaw_segment(mag);
    if seg == 0 {
        let q = mag / 16;
        assert(0 <= q < 16);
        assert(q % 16 == q - 0);
        assert(mag == 16 * q + mag % 16);
    } else if seg == 1 {
        let q = mag / 16;
        assert(16 <= q < 32);
        assert(q % 16 == q - 16);
        assert(mag == 16 * q + mag % 16);
    } else if seg == 2 {
        let q = mag / 32;
        assert(16 <= q < 32);
        assert(q % 16 == q - 16);
        assert(mag == 32 * q + mag % 32);
    } else if seg == 3 {
        let q = mag / 64;
        assert(16 <= q < 32);
        assert(q % 16 == q - 16);
        assert(mag == 64 * q + mag % 64);
    } else if seg == 4 {
        let q = mag / 128;
        assert(16 <= q < 32);
        assert(q % 16 == q - 16);
        assert(mag == 128 * q + mag % 128);
    } else if seg == 5 {
        let q = mag / 256;
        assert(16 <= q < 32);
        assert(q % 16 == q - 16);
        assert(mag == 256 * q + mag % 256);
    } else if seg == 6 {
        let q = mag / 512;
        assert(16 <= q < 32);
        assert(q % 16 == q - 16);
        assert(mag == 512 * q + mag % 512);
    } else {
        let q = mag / 1024;
        assert(16 <= q < 32);
        assert(q % 16 == q - 16);
        assert(mag == 1024 * q + mag % 1024);
    }
}

/// The fields that `alaw_expand` reads off a compressed sample are the ones
/// that `alaw_compress` wrote.
proof fn lemma_alaw_fields_survive(pcm: i16)
    ensures
        ({
            let mag = alaw_magnitude(pcm);
            let seg = alaw_segment(mag);
            let mant = (mag / alaw_step(seg)) % 16;
            let level = alaw_level(seg, mant);
            alaw_expand(alaw_compress(pcm)) == if pcm >= 0 {
                level
            } else {
                -level
            }
        }),
{
    let mag = alaw_magnitude(pcm);
    let seg = alaw_segment(mag);
    let mant = (mag / alaw_step(seg)) % 16;
    lemma_alaw_level_of_magnitude(mag);
    let sign: int = if pcm >= 0 {
        128
    } else {
        0
    };
    let bits = (sign + 16 * seg + mant) as u8;
    lemma_toggle_twice(bits);
    let x = bits as int;
    assert(x % 16 == mant);
    assert((x / 16) % 8 == seg);
    assert(x / 128 == sign / 128);
}

/// Decoding what was encoded is off by at most half a step of the sample's
/// segment, which is at most 512. The error of a whole signal is therefore
/// at most 512 at every sample, a signal-to-noise ratio against full scale of
/// more than 36 dB.
pub proof fn lemma_alaw_round_trip_error(pcm: i16)
    ensures
        ({
            let step = alaw_step(alaw_segment(alaw_magnitude(pcm)));
            let error = alaw_expand(alaw_compress(pcm)) - pcm;
            &&& -step / 2 <= error <= step / 2
            &&& step / 2 <= 512
        }),
{
    lemma_alaw_fields_survive(pcm);
    lemma_alaw_level_of_magnitude(alaw_magnitude(pcm));
}

/// Encoding what was decoded gives the octet back: the encoder is the
/// inverse of the table on all 256 octets.
pub proof fn lemma_alaw_code_round_trip(code: u8)
    ensures
        -32768 <= alaw_expand(code) <= 32767,
        alaw_compress(alaw_expand(code) as i16) == code,
{
    let x = (code ^ 0x55u8) as int;
    let seg = (x / 16) % 8;
    let mant = x % 16;
    let level = alaw_level(seg, mant);
    let pcm = alaw_expand(code) as i16;
    let mag = alaw_magnitude(pcm);
    assert(mag == if x / 128 == 1 {
        level
    } else {
        level - 1
    });
    assert(alaw_segment(mag) == seg);
    assert((mag / alaw_step(seg)) % 16 == mant) by {
        if seg == 0 {
            assert(mag / 16 == mant);
        } else if seg == 1 {
            assert(mag / 16 == mant + 16);
        } else if seg == 2 {
            assert(mag / 32 == mant + 16);
        } else if seg == 3 {
            assert(mag / 64 == mant + 16);
        } else if seg == 4 {
            assert(mag / 128 == mant + 16);
        } else if seg == 5 {
            assert(mag / 256 == mant + 16);
        } else if seg == 6 {
            assert(mag / 512 == mant + 16);
        } else {
            assert(mag / 1024 == mant + 16);
        }
    }
    let sign: int = if pcm >= 0 {
        128
    } else {
        0
    };
    assert(sign + 16 * seg + mant == x);
    lemma_toggle_twice(code);
}

/// The mantissa of a biased magnitude counts the steps above the start of
/// its segment, and the level of segment and mantissa lies half a step above
/// the foot of the step that holds the magnitude.
proof fn lemma_ulaw_level_of_magnitude(mag: int)
    requires
        132 <= mag <= 32767,
    ensures
        ({
            let seg = alaw_segment(mag);
            let step = ulaw_step(seg);
            let mant = (mag / step) % 16;
            &&& 0 <= seg <= 7
            &&& 0 <= mant <= 15
            &&& ulaw_level(seg, mant) == mag - mag % step + step / 2
            &&& 0 <= mag % step < step
        }),
{
    let seg = alaw_segment(mag);
    if seg == 0 {
        let q = mag / 8;
        assert(16 <= q < 32);
        assert(q % 16 == q - 16);
        assert(mag == 8 * q + mag % 8);
    } else if seg == 1 {
        let q = mag / 16;
        assert(16 <= q < 32);
        assert(q % 16 == q - 16);
        assert(mag == 16 * q + mag % 16);
    } else if seg == 2 {
        let q = mag / 32;
        assert(16 <= q < 32);
        assert(q % 16 == q - 16);
        assert(mag == 32 * q + mag % 32);
    } else if seg == 3 {
        let q = mag / 64;
        assert(16 <= q < 32);
        assert(q % 16 == q - 16);
        assert(mag == 64 * q + mag % 64);
    } else if seg == 4 {
        let q = mag / 128;
        assert(16 <= q < 32);
        assert(q % 16 == q - 16);
        assert(mag == 128 * q + mag % 128);
    } else if seg == 5 {
        let q = mag / 256;
        assert(16 <= q < 32);
        assert(q % 16 == q - 16);
        assert(mag == 256 * q + mag % 256);
    } else if seg == 6 {
        let q = mag / 512;
        assert(16 <= q < 32);
        assert(q % 16 == q - 16);
        assert(mag == 512 * q + mag % 512);
    } else {
        let q = mag / 1024;
        assert(16 <= q < 32);
        assert(q % 16 == q - 16);
        assert(mag == 1024 * q + mag % 1024);
    }
}

/// Decoding what was encoded is off by at most half a step of the sample's
/// segment, which is at most 512, for every sample that is not clipped. The
/// error of a signal within the clipping level is therefore at most 512 at
/// every sample, a signal-to-noise ratio against full scale of more than
/// 36 dB.
pub proof fn lemma_ulaw_round_trip_error(pcm: i16)
    requires
        -32635 <= pcm <= 32635,
    ensures
        ({
            let step = ulaw_step(alaw_segment(ulaw_magnitude(pcm)));
            let error = ulaw_expand(ulaw_compress(pcm)) - pcm;
            &&& -step / 2 <= error <= step / 2
            &&& step / 2 <= 512
        }),
{
    let mag = ulaw_magnitude(pcm);
    let seg = alaw_segment(mag);
    let mant = (mag / ulaw_step(seg)) % 16;
    lemma_ulaw_level_of_magnitude(mag);
    let sign: int = if pcm < 0 {
        128
    } else {
        0
    };
    let bits = sign + 16 * seg + mant;
    let code = (255 - bits) as u8;
    let x = 255 - code;
    assert(x == bits);
    assert(x % 16 == mant);
    assert((x / 16) % 8 == seg);
    assert(x / 128 == sign / 128);
}

/// Encoding what was decoded gives the octet back, for every octet but the
/// negative zero `0x7F`: it decodes to 0 as the positive zero `0xFF` does,
/// and 0 is encoded as the positive one.
pub proof fn lemma_ulaw_code_round_trip(code: u8)
    requires
        code != 0x7F,
    ensures
        -32768 <= ulaw_expand(code) <= 32767,
        ulaw_compress(ulaw_expand(code) as i16) == code,
{
    let x = 255 - code;
    let seg = (x / 16) % 8;
    let mant = x % 16;
    let level = ulaw_level(seg, mant);
    let pcm = ulaw_expand(code) as i16;
    let mag = ulaw_magnitude(pcm);
    assert(mag == level);
    assert(alaw_segment(mag) == seg);
    assert((mag / ulaw_step(seg)) % 16 == mant) by {
        if seg == 0 {
            assert(mag / 8 == mant + 16);
        } else if seg == 1 {
            assert(mag / 16 == mant + 16);
        } else if seg == 2 {
            assert(mag / 32 == mant + 16);
        } else if seg == 3 {
            assert(mag / 64 == mant + 16);
        } else if seg == 4 {
            assert(mag / 128 == mant + 16);
        } else if seg == 5 {
            assert(mag / 256 == mant + 16);
        } else if seg == 6 {
            assert(mag / 512 == mant + 16);
        } else {
            assert(mag / 1024 == mant + 16);
        }
    }
    let sign: int = if pcm < 0 {
        128
    } else {
        0
    };
    assert(sign + 16 * seg + mant == x);
}

} // verus!
