//! Synthetic EDID blocks for virtual monitors, and the validation of the
//! regions that a split configuration cuts a monitor into.

use vstd::prelude::*;

use vstd::string::StringSliceAdditionalSpecFns;

use crate::coverage::{
    bottom_edge, contains_point, lemma_le_lt_trans, right_edge, covers_monitor, in_unit_square, point_covered, positive_denominators, rat_le,
    regions_cover, regions_well_placed,
};
use crate::protocol::{is_equal_horizontal_split, is_equal_vertical_split, SplitRegion};
use crate::ratio::{rat_lt, rat_sum, scaled_length, Ratio};
use vstd::utf8::encode_utf8;
use crate::text::{decimal, indexed_message, push_decimal};

verus! {

/// `n` zero bytes.
pub open spec fn zeros(n: nat) -> Seq<u8> {
    Seq::new(n, |i: int| 0u8)
}

/// Sum of the bytes of `s`.
pub open spec fn byte_sum(s: Seq<u8>) -> nat
    decreases s.len(),
{
    if s.len() == 0 {
        0
    } else {
        byte_sum(s.drop_last()) + s.last() as nat
    }
}

/// The 13-byte display name field: the first 13 bytes of the name, or the
/// whole name followed by a line feed and zero padding.
pub open spec fn name_field(name: Seq<u8>) -> Seq<u8> {
    if name.len() >= 13 {
        name.take(13)
    } else {
        name + seq![0x0Au8] + zeros((12 - name.len()) as nat)
    }
}

/// The high nibble of a 12-bit active pixel count as stored in a detailed
/// timing descriptor: bits 8 to 11 of the 16-bit count, in the upper half of
/// the byte.
pub open spec fn active_high_nibble(active: int) -> int {
    (active / 256) % 16 * 16
}

/// Bytes 0 to 37 of the synthetic EDID block: header, manufacturer "VSP"
/// (letters 22, 19, 16 packed into five bits each, 0x5A70), product 1,
/// serial 1, week 1 of 2024, EDID 1.4, digital 8-bit input, a screen of
/// (width / 40) x (height / 40) cm, gamma 2.2, sRGB chromaticity and no
/// established timings.
pub open spec fn edid_identity(width: u32, height: u32) -> Seq<u8> {
    seq![
        0x00u8, 0xFF, 0xFF, 0xFF, 0xFF, 0xFF, 0xFF, 0x00,
        0x5A, 0x70, 0x01, 0x00, 0x01, 0x00, 0x00, 0x00,
        1, 34, 1, 4, 0xA5,
        ((width / 40) % 256) as u8, ((height / 40) % 256) as u8, 120, 0x06,
        0xEE, 0x91, 0xA3, 0x54, 0x4C, 0x99, 0x26, 0x0F, 0x50, 0x54,
        0x00, 0x00, 0x00,
    ]
}

/// Bytes 54 to 61: the start of the detailed timing descriptor, with a pixel
/// clock of width * height * 60 / 10000 (in 10 kHz units, 16 bits), the
/// active pixel counts (16 bits each) and 160 pixels of horizontal and 35
/// lines of vertical blanking.
pub open spec fn edid_timing(width: u32, height: u32) -> Seq<u8> {
    let pixel_clock = (width * height * 60 / 10000) % 65536;
    let h_active = (width % 65536) as int;
    let v_active = (height % 65536) as int;
    seq![
        (pixel_clock % 256) as u8,
        (pixel_clock / 256) as u8,
        (h_active % 256) as u8,
        160u8,
        active_high_nibble(h_active) as u8,
        (v_active % 256) as u8,
        35u8,
        active_high_nibble(v_active) as u8,
    ]
}

/// The first 127 bytes of the synthetic EDID block for a `width` x `height`
/// display named by the bytes `name`: identity, 16 unused standard timing
/// bytes (0x01), the timing descriptor, and at byte 72 a display name
/// descriptor (tag 0xFC) holding the name field, then zeros.
pub open spec fn edid_body(width: u32, height: u32, name: Seq<u8>) -> Seq<u8> {
    edid_identity(width, height) + Seq::new(16, |i: int| 0x01u8) + edid_timing(width, height)
        + zeros(10) + seq![0x00u8, 0x00, 0x00, 0xFC, 0x00] + name_field(name) + zeros(37)
}

/// The byte that brings the sum of all bytes of a block to a multiple of 256.
pub open spec fn checksum_byte(body: Seq<u8>) -> u8 {
    ((256 - byte_sum(body) % 256) % 256) as u8
}

/// The 128-byte synthetic EDID block: the body and its checksum byte.
pub open spec fn synthetic_edid(width: u32, height: u32, name: Seq<u8>) -> Seq<u8> {
    edid_body(width, height, name).push(checksum_byte(edid_body(width, height, name)))
}

proof fn lemma_byte_of_u32(x: u32) by (bit_vector)
    ensures
        (x as u8) as int == x % 256,
{
}

proof fn lemma_bytes_of_u16(x: u16) by (bit_vector)
    ensures
        (x & 0xFF) as u8 as int == x % 256,
        (x >> 8) as u8 as int == x / 256,
{
}

proof fn lemma_high_nibble(x: u16, blank: u16) by (bit_vector)
    requires
        blank == 160 || blank == 35,
    ensures
        (((x >> 4) & 0xF0) | ((blank >> 8) & 0x0F)) as u8 as int == (x / 256) % 16 * 16,
        (blank & 0xFF) as u8 as int == blank,
{
}

proof fn lemma_u16_of_u32(x: u32) by (bit_vector)
    ensures
        (x as u16) as int == x % 65536,
{
}

proof fn lemma_manufacturer_id(mfg: u16) by (bit_vector)
    requires
        mfg == (22u16 << 10) | (19u16 << 5) | 16u16,
    ensures
        (mfg >> 8) as u8 == 0x5Au8,
        (mfg & 0xFF) as u8 == 0x70u8,
{
}

proof fn lemma_byte_sum_push(s: Seq<u8>, b: u8)
    ensures
        byte_sum(s.push(b)) == byte_sum(s) + b,
{
    assert(s.push(b).drop_last() =~= s);
}

/// The sum of the bytes of a synthetic EDID block is a multiple of 256.
pub proof fn lemma_edid_checksum(width: u32, height: u32, name: Seq<u8>)
    ensures
        byte_sum(synthetic_edid(width, height, name)) % 256 == 0,
{
    let body = edid_body(width, height, name);
    lemma_byte_sum_push(body, checksum_byte(body));
}

/// Appends `count` copies of `value`.
fn push_repeated(b: &mut Vec<u8>, value: u8, count: usize)
    ensures
        final(b)@ == old(b)@ + Seq::new(count as nat, |i: int| value),
{
    let ghost start = b@;
    let mut i: usize = 0;
    while i < count
        invariant
            i <= count,
            b@ =~= start + Seq::new(i as nat, |k: int| value),
        decreases count - i,
    {
        b.push(value);
        i = i + 1;
    }
}

/// Appends bytes 0 to 37 of the block.
fn push_identity(b: &mut Vec<u8>, width: u32, height: u32)
    ensures
        final(b)@ == old(b)@ + edid_identity(width, height),
{
    let ghost start = b@;
    // Header
    b.push(0x00);
    b.push(0xFF);
    b.push(0xFF);
    b.push(0xFF);
    b.push(0xFF);
    b.push(0xFF);
    b.push(0xFF);
    b.push(0x00);
    // Manufacturer ID "VSP": 'V' = 22, 'S' = 19, 'P' = 16, five bits each
    let mfg: u16 = (22 << 10) | (19 << 5) | 16;
    proof {
        lemma_manufacturer_id(mfg);
    }
    b.push((mfg >> 8) as u8);
    b.push((mfg & 0xFF) as u8);
    // Product code
    b.push(0x01);
    b.push(0x00);
    // Serial number
    b.push(0x01);
    b.push(0x00);
    b.push(0x00);
    b.push(0x00);
    // Week and year of manufacture (week 1, 2024 - 1990)
    b.push(1);
    b.push(34);
    // EDID version 1.4
    b.push(1);
    b.push(4);
    // Digital input, 8 bits per color
    b.push(0xA5);
    // Screen size in cm (approximate)
    proof {
        lemma_byte_of_u32(width / 40);
        lemma_byte_of_u32(height / 40);
    }
    b.push((width / 40) as u8);
    b.push((height / 40) as u8);
    // Gamma 2.2
    b.push(120);
    // Supported features
    b.push(0x06);
    // Chromaticity coordinates (sRGB)
    b.push(0xEE);
    b.push(0x91);
    b.push(0xA3);
    b.push(0x54);
    b.push(0x4C);
    b.push(0x99);
    b.push(0x26);
    b.push(0x0F);
    b.push(0x50);
    b.push(0x54);
    // Established timings
    b.push(0x00);
    b.push(0x00);
    b.push(0x00);
    assert(b@ =~= start + edid_identity(width, height));
}

/// Appends bytes 54 to 61 of the block.
fn push_timing(b: &mut Vec<u8>, width: u32, height: u32)
    requires
        width * height * 60 <= u32::MAX,
    ensures
        final(b)@ == old(b)@ + edid_timing(width, height),
{
    let ghost start = b@;
    // Pixel clock in units of 10 kHz
    proof {
        assert(width * height <= width * height * 60) by (nonlinear_arith);
    }
    let pixel_clock_wide: u32 = width * height * 60 / 10000;
    let pixel_clock = pixel_clock_wide as u16;
    proof {
        lemma_u16_of_u32(pixel_clock_wide);
        lemma_bytes_of_u16(pixel_clock);
    }
    b.push((pixel_clock & 0xFF) as u8);
    b.push((pixel_clock >> 8) as u8);
    // Horizontal active pixels and blanking
    let h_active = width as u16;
    let h_blank: u16 = 160;
    proof {
        lemma_u16_of_u32(width);
        lemma_bytes_of_u16(h_active);
        lemma_high_nibble(h_active, h_blank);
    }
    b.push((h_active & 0xFF) as u8);
    b.push((h_blank & 0xFF) as u8);
    b.push((((h_active >> 4) & 0xF0) | ((h_blank >> 8) & 0x0F)) as u8);
    // Vertical active lines and blanking
    let v_active = height as u16;
    let v_blank: u16 = 35;
    proof {
        lemma_u16_of_u32(height);
        lemma_bytes_of_u16(v_active);
        lemma_high_nibble(v_active, v_blank);
    }
    b.push((v_active & 0xFF) as u8);
    b.push((v_blank & 0xFF) as u8);
    b.push((((v_active >> 4) & 0xF0) | ((v_blank >> 8) & 0x0F)) as u8);
    assert(b@ =~= start + edid_timing(width, height));
}

/// Appends the 13-byte display name field.
fn push_name_field(b: &mut Vec<u8>, name_bytes: &[u8])
    ensures
        final(b)@ == old(b)@ + name_field(name_bytes@),
{
    let ghost start = b@;
    let len = if name_bytes.len() < 13 {
        name_bytes.len()
    } else {
        13
    };
    let mut k: usize = 0;
    while k < len
        invariant
            len <= 13,
            len <= name_bytes@.len(),
            len == name_bytes@.len() || len == 13,
            k <= len,
            b@ =~= start + name_bytes@.take(k as int),
        decreases len - k,
    {
        b.push(name_bytes[k]);
        k = k + 1;
    }
    if len < 13 {
        // Line feed terminator, then padding
        b.push(0x0A);
        push_repeated(b, 0x00, 12 - len);
        assert(name_bytes@.take(len as int) =~= name_bytes@);
        assert(b@ =~= start + name_field(name_bytes@));
    } else {
        assert(b@ =~= start + name_field(name_bytes@));
    }
}

/// Sum of the bytes of `b`.
fn sum_bytes(b: &Vec<u8>) -> (sum: u32)
    requires
        b@.len() <= 0x10000,
    ensures
        sum == byte_sum(b@),
{
    let mut sum: u32 = 0;
    let mut j: usize = 0;
    while j < b.len()
        invariant
            j <= b@.len() <= 0x10000,
            sum == byte_sum(b@.take(j as int)),
            sum <= 255 * j,
        decreases b@.len() - j,
    {
        proof {
            assert(b@.take(j + 1).drop_last() =~= b@.take(j as int));
        }
        sum = sum + b[j] as u32;
        j = j + 1;
    }
    assert(b@.take(b@.len() as int) =~= b@);
    sum
}

/// Generate a synthetic EDID for a virtual monitor with the given resolution.
///
/// This produces a minimal 128-byte EDID block that Windows will accept.
pub fn generate_synthetic_edid(width: u32, height: u32, monitor_name: &str) -> (edid: [u8; 128])
    requires
        width * height * 60 <= u32::MAX,
    ensures
        edid@ == synthetic_edid(width, height, monitor_name.spec_bytes()),
        byte_sum(edid@) % 256 == 0,
{
    let mut b: Vec<u8> = Vec::new();
    push_identity(&mut b, width, height);
    // Standard timings (unused)
    push_repeated(&mut b, 0x01, 16);
    // Preferred timing descriptor
    push_timing(&mut b, width, height);
    push_repeated(&mut b, 0x00, 10);
    // Monitor name descriptor at byte 72
    b.push(0x00);
    b.push(0x00);
    b.push(0x00);
    b.push(0xFC);
    b.push(0x00);
    let name_bytes = monitor_name.as_bytes();
    push_name_field(&mut b, name_bytes);
    push_repeated(&mut b, 0x00, 37);
    assert(b@ =~= edid_body(width, height, monitor_name.spec_bytes()));
    // Checksum
    let sum = sum_bytes(&b);
    b.push(((256 - sum % 256) % 256) as u8);
    let mut edid = [0u8; 128];
    let mut m: usize = 0;
    while m < 128
        invariant
            m <= 128,
            b@.len() == 128,
            edid@.len() == 128,
            forall|q: int| 0 <= q < m ==> edid@[q] == b@[q],
        decreases 128 - m,
    {
        edid[m] = b[m];
        m = m + 1;
    }
    assert(edid@ =~= b@);
    proof {
        lemma_edid_checksum(width, height, monitor_name.spec_bytes());
    }
    edid
}

/// The far edge that a region may reach: one ten-thousandth beyond the
/// monitor's edge.
pub open spec fn edge_limit() -> (int, int) {
    (10001, 10000)
}

/// Zero as a fraction.
pub open spec fn rat_zero() -> (int, int) {
    (0, 1)
}

/// A region that starts before the monitor's left or top edge, or has no
/// positive width or height.
pub open spec fn has_invalid_bounds(r: SplitRegion) -> bool {
    ||| rat_lt(r.x@, rat_zero())
    ||| rat_lt(r.y@, rat_zero())
    ||| !rat_lt(rat_zero(), r.width@)
    ||| !rat_lt(rat_zero(), r.height@)
}

/// A region whose right or bottom edge lies beyond the edge limit.
pub open spec fn extends_beyond(r: SplitRegion) -> bool {
    ||| rat_lt(edge_limit(), rat_sum(r.x@, r.width@))
    ||| rat_lt(edge_limit(), rat_sum(r.y@, r.height@))
}

/// A region that lies on the monitor.
pub open spec fn region_fits(r: SplitRegion) -> bool {
    !has_invalid_bounds(r) && !extends_beyond(r)
}

/// The open rectangles of `a` and `b` intersect.
pub open spec fn regions_overlap(a: SplitRegion, b: SplitRegion) -> bool {
    &&& rat_lt(a.x@, rat_sum(b.x@, b.width@))
    &&& rat_lt(b.x@, rat_sum(a.x@, a.width@))
    &&& rat_lt(a.y@, rat_sum(b.y@, b.height@))
    &&& rat_lt(b.y@, rat_sum(a.y@, a.height@))
}

/// Every region lies on the monitor.
pub open spec fn all_regions_fit(rs: Seq<SplitRegion>) -> bool {
    forall|i: int| 0 <= i < rs.len() ==> region_fits(#[trigger] rs[i])
}

/// No two regions overlap.
pub open spec fn regions_disjoint(rs: Seq<SplitRegion>) -> bool {
    forall|i: int, j: int| 0 <= i < j < rs.len() ==> !regions_overlap(#[trigger] rs[i], #[trigger] rs[j])
}

/// `i` is the first region that does not lie on the monitor.
pub open spec fn first_misfit(rs: Seq<SplitRegion>, i: int) -> bool {
    &&& 0 <= i < rs.len()
    &&& !region_fits(rs[i])
    &&& forall|k: int| 0 <= k < i ==> region_fits(#[trigger] rs[k])
}

/// `(i, j)` is the first overlapping pair, in the order `(0, 1), (0, 2), ...,
/// (1, 2), ...`.
pub open spec fn first_overlap(rs: Seq<SplitRegion>, i: int, j: int) -> bool {
    &&& 0 <= i < j < rs.len()
    &&& regions_overlap(rs[i], rs[j])
    &&& forall|k: int, l: int|
        0 <= k < l < rs.len() && (k < i || (k == i && l < j)) ==> !regions_overlap(
            #[trigger] rs[k],
            #[trigger] rs[l],
        )
}

/// The message for region `i` with invalid bounds.
pub open spec fn invalid_bounds_message(i: nat) -> Seq<char> {
    "Region "@ + decimal(i) + " has invalid bounds"@
}

/// The message for region `i` reaching beyond the monitor.
pub open spec fn beyond_bounds_message(i: nat) -> Seq<char> {
    "Region "@ + decimal(i) + " extends beyond monitor bounds"@
}

/// The message for overlapping regions `i` and `j`.
pub open spec fn overlap_message(i: nat, j: nat) -> Seq<char> {
    "Regions "@ + decimal(i) + " and "@ + decimal(j) + " overlap"@
}

/// The message for region `r` at position `i`, which does not fit.
pub open spec fn misfit_message(r: SplitRegion, i: nat) -> Seq<char> {
    if has_invalid_bounds(r) {
        invalid_bounds_message(i)
    } else {
        beyond_bounds_message(i)
    }
}

/// The message for regions that leave part of the monitor uncovered.
pub open spec fn uncovered_message() -> Seq<char> {
    "Regions do not cover the full monitor"@
}

/// What validation says of `rs`: the first region that does not lie on the
/// monitor, else the first overlapping pair, else whether the regions cover
/// the monitor.
pub open spec fn regions_check(rs: Seq<SplitRegion>) -> Result<(), Seq<char>> {
    if exists|i: int| first_misfit(rs, i) {
        let i = choose|i: int| first_misfit(rs, i);
        Err(misfit_message(rs[i], i as nat))
    } else if exists|i: int, j: int| first_overlap(rs, i, j) {
        let (i, j) = choose|i: int, j: int| first_overlap(rs, i, j);
        Err(overlap_message(i as nat, j as nat))
    } else if !regions_cover(rs) {
        Err(uncovered_message())
    } else {
        Ok(())
    }
}

/// A region that does not fit and has every region before it fitting is the
/// one that validation reports.
proof fn lemma_first_misfit_chosen(rs: Seq<SplitRegion>, i: int)
    requires
        first_misfit(rs, i),
    ensures
        (choose|c: int| first_misfit(rs, c)) == i,
{
    let c = choose|c: int| first_misfit(rs, c);
    if c < i {
        assert(region_fits(rs[c]));
    } else if c > i {
        assert(region_fits(rs[i]));
    }
}

/// An overlapping pair with no overlapping pair before it is the one that
/// validation reports.
proof fn lemma_first_overlap_chosen(rs: Seq<SplitRegion>, i: int, j: int)
    requires
        first_overlap(rs, i, j),
    ensures
        (choose|c: int, d: int| first_overlap(rs, c, d)) == (i, j),
{
    let (c, d) = choose|c: int, d: int| first_overlap(rs, c, d);
    if c < i || (c == i && d < j) {
        assert(!regions_overlap(rs[c], rs[d]));
    } else if c != i || d != j {
        assert(!regions_overlap(rs[i], rs[j]));
    }
}

/// A region that lies on the monitor has fractions between 0 and 2.
pub proof fn lemma_fitting_fractions(q: (int, int), w: (int, int))
    requires
        q.1 > 0,
        w.1 > 0,
        !rat_lt(q, rat_zero()),
        rat_lt(rat_zero(), w),
        !rat_lt(edge_limit(), rat_sum(q, w)),
    ensures
        0 <= q.0 <= 2 * q.1,
        0 < w.0 <= 2 * w.1,
{
    assert(q.0 * w.1 * 10000 <= 10001 * q.1 * w.1) by (nonlinear_arith)
        requires
            (q.0 * w.1 + w.0 * q.1) * 10000 <= 10001 * (q.1 * w.1),
            w.0 * q.1 >= 0,
    ;
    assert(q.0 <= 2 * q.1) by (nonlinear_arith)
        requires
            q.0 * w.1 * 10000 <= 10001 * q.1 * w.1,
            w.1 > 0,
            q.1 > 0,
    ;
    assert(w.0 * q.1 * 10000 <= 10001 * q.1 * w.1) by (nonlinear_arith)
        requires
            (q.0 * w.1 + w.0 * q.1) * 10000 <= 10001 * (q.1 * w.1),
            q.0 * w.1 >= 0,
    ;
    assert(w.0 <= 2 * w.1) by (nonlinear_arith)
        requires
            w.0 * q.1 * 10000 <= 10001 * q.1 * w.1,
            w.1 > 0,
            q.1 > 0,
    ;
}

/// Whether `q + w` lies beyond the edge limit.
fn sum_beyond_limit(q: &Ratio, w: &Ratio) -> (r: bool)
    ensures
        r == rat_lt(edge_limit(), rat_sum(q@, w@)),
{
    let qn = q.numerator() as i128;
    let qd = q.denominator() as i128;
    let wn = w.numerator() as i128;
    let wd = w.denominator() as i128;
    proof {
        assert(-0x8000_0000_0000_0000 * 0x1_0000_0000 <= qn * wd <= 0x8000_0000_0000_0000
            * 0x1_0000_0000) by (nonlinear_arith)
            requires
                -0x8000_0000_0000_0000 <= qn <= 0x8000_0000_0000_0000,
                0 < wd <= 0x1_0000_0000,
        ;
        assert(-0x8000_0000_0000_0000 * 0x1_0000_0000 <= wn * qd <= 0x8000_0000_0000_0000
            * 0x1_0000_0000) by (nonlinear_arith)
            requires
                -0x8000_0000_0000_0000 <= wn <= 0x8000_0000_0000_0000,
                0 < qd <= 0x1_0000_0000,
        ;
        assert(0 < qd * wd <= 0x1_0000_0000 * 0x1_0000_0000) by (nonlinear_arith)
            requires
                0 < qd <= 0x1_0000_0000,
                0 < wd <= 0x1_0000_0000,
        ;
    }
    let far = qn * wd + wn * qd;
    10001 * (qd * wd) < far * 10000
}

/// Whether `p < q + w`, for fractions between 0 and 2.
fn less_than_sum(p: &Ratio, q: &Ratio, w: &Ratio) -> (r: bool)
    requires
        0 <= p@.0 <= 2 * p@.1,
        0 <= q@.0 <= 2 * q@.1,
        0 <= w@.0 <= 2 * w@.1,
    ensures
        r == rat_lt(p@, rat_sum(q@, w@)),
{
    let pn = p.numerator() as i128;
    let pd = p.denominator() as i128;
    let qn = q.numerator() as i128;
    let qd = q.denominator() as i128;
    let wn = w.numerator() as i128;
    let wd = w.denominator() as i128;
    proof {
        assert(0 <= qd * wd <= 0x1_0000_0000 * 0x1_0000_0000) by (nonlinear_arith)
            requires
                0 < qd <= 0x1_0000_0000,
                0 < wd <= 0x1_0000_0000,
        ;
        assert(0 <= pn * (qd * wd) <= 0x2_0000_0000 * (0x1_0000_0000 * 0x1_0000_0000))
            by (nonlinear_arith)
            requires
                0 <= pn <= 0x2_0000_0000,
                0 <= qd * wd <= 0x1_0000_0000 * 0x1_0000_0000,
        ;
        assert(0 <= qn * wd <= 0x2_0000_0000 * 0x1_0000_0000) by (nonlinear_arith)
            requires
                0 <= qn <= 0x2_0000_0000,
                0 < wd <= 0x1_0000_0000,
        ;
        assert(0 <= wn * qd <= 0x2_0000_0000 * 0x1_0000_0000) by (nonlinear_arith)
            requires
                0 <= wn <= 0x2_0000_0000,
                0 < qd <= 0x1_0000_0000,
        ;
        assert(0 <= (qn * wd + wn * qd) * pd <= 0x4_0000_0000 * 0x1_0000_0000 * 0x1_0000_0000)
            by (nonlinear_arith)
            requires
                0 <= qn * wd + wn * qd <= 0x4_0000_0000 * 0x1_0000_0000,
                0 < pd <= 0x1_0000_0000,
        ;
    }
    pn * (qd * wd) < (qn * wd + wn * qd) * pd
}

/// Whether two regions that lie on the monitor overlap.
fn rects_overlap(a: &SplitRegion, b: &SplitRegion) -> (r: bool)
    requires
        positive_denominators(*a),
        positive_denominators(*b),
        region_fits(*a),
        region_fits(*b),
    ensures
        r == regions_overlap(*a, *b),
        r == regions_overlap(*b, *a),
        rat_sum(a.x@, a.width@).0 * b.x@.1 == b.x@.0 * rat_sum(a.x@, a.width@).1 ==> !r,
        *a == *b ==> r,
{
    proof {
        lemma_overlap_symmetric(*a, *b);
        if rat_sum(a.x@, a.width@).0 * b.x@.1 == b.x@.0 * rat_sum(a.x@, a.width@).1 {
            lemma_touching_regions_disjoint(*a, *b);
        }
        if *a == *b {
            lemma_region_overlaps_itself(*a);
        }
        lemma_fitting_fractions(a.x@, a.width@);
        lemma_fitting_fractions(a.y@, a.height@);
        lemma_fitting_fractions(b.x@, b.width@);
        lemma_fitting_fractions(b.y@, b.height@);
    }
    less_than_sum(&a.x, &b.x, &b.width) && less_than_sum(&b.x, &a.x, &a.width)
        && less_than_sum(&a.y, &b.y, &b.height) && less_than_sum(&b.y, &a.y, &a.height)
}

/// Every fraction of the region has a positive denominator.
fn region_denominators(r: &SplitRegion)
    ensures
        positive_denominators(*r),
{
    let _ = r.x.denominator();
    let _ = r.y.denominator();
    let _ = r.width.denominator();
    let _ = r.height.denominator();
}

/// Validate that a set of regions covers the full monitor without overlap.
pub fn validate_regions(regions: &[SplitRegion]) -> (r: Result<(), String>)
    ensures
        r is Ok <==> all_regions_fit(regions@) && regions_disjoint(regions@) && regions_cover(
            regions@,
        ),
        r is Ok ==> forall|i: int, j: int, px: (int, int), py: (int, int)|
            0 <= i < regions@.len() && 0 <= j < regions@.len() && i != j && px.1 > 0 && py.1 > 0
                ==> !(#[trigger] contains_point(regions@[i], px, py) && #[trigger] contains_point(
                regions@[j],
                px,
                py,
            )),
        match r {
            Ok(_) => regions_check(regions@) is Ok,
            Err(e) => regions_check(regions@) == Err::<(), Seq<char>>(e@),
        },
{
    let ghost rs = regions@;
    // Check bounds
    let mut i: usize = 0;
    while i < regions.len()
        invariant
            i <= regions@.len(),
            rs == regions@,
            forall|k: int| 0 <= k < i ==> region_fits(#[trigger] rs[k]),
            forall|k: int| 0 <= k < i ==> positive_denominators(#[trigger] rs[k]),
        decreases regions@.len() - i,
    {
        let r = &regions[i];
        region_denominators(r);
        let invalid = r.x.numerator() < 0 || r.y.numerator() < 0 || r.width.numerator() <= 0
            || r.height.numerator() <= 0;
        if invalid {
            proof {
                lemma_first_misfit_chosen(rs, i as int);
            }
            return Err(indexed_message("Region ", i, " has invalid bounds"));
        }
        if sum_beyond_limit(&r.x, &r.width) || sum_beyond_limit(&r.y, &r.height) {
            proof {
                lemma_first_misfit_chosen(rs, i as int);
            }
            return Err(indexed_message("Region ", i, " extends beyond monitor bounds"));
        }
        i = i + 1;
    }
    assert(!exists|c: int| first_misfit(rs, c));
    // Check for overlaps (pairwise)
    let mut i: usize = 0;
    while i < regions.len()
        invariant
            i <= regions@.len(),
            rs == regions@,
            regions_well_placed(rs),
            forall|k: int, l: int|
                0 <= k < l < rs.len() && k < i ==> !regions_overlap(#[trigger] rs[k], #[trigger] rs[l]),
        decreases regions@.len() - i,
    {
        let mut j: usize = i + 1;
        while j < regions.len()
            invariant
                i < regions@.len(),
                i + 1 <= j <= regions@.len(),
                rs == regions@,
                regions_well_placed(rs),
                forall|k: int, l: int|
                    0 <= k < l < rs.len() && (k < i || (k == i && l < j)) ==> !regions_overlap(
                        #[trigger] rs[k],
                        #[trigger] rs[l],
                    ),
            decreases regions@.len() - j,
        {
            if rects_overlap(&regions[i], &regions[j]) {
                proof {
                    assert(first_overlap(rs, i as int, j as int));
                    lemma_first_overlap_chosen(rs, i as int, j as int);
                }
                let mut message = indexed_message("Regions ", i, " and ");
                push_decimal(&mut message, j as u64);
                message.append(" overlap");
                return Err(message);
            }
            j = j + 1;
        }
        i = i + 1;
    }
    assert(!exists|c: int, d: int| first_overlap(rs, c, d));
    // Check that the regions cover the monitor
    if !covers_monitor(regions) {
        return Err(String::from_str("Regions do not cover the full monitor"));
    }
    proof {
        lemma_disjoint_regions_share_no_point(rs);
    }
    Ok(())
}

/// The pixel width and height of `region` on a `physical_width` x
/// `physical_height` monitor.
pub open spec fn region_pixel_size(physical_width: u32, physical_height: u32, region: SplitRegion) -> (int, int) {
    (scaled_length(physical_width as int, region.width@), scaled_length(physical_height as int, region.height@))
}

/// The display name of virtual monitor `index`: "VSplit-" and the index.
pub open spec fn virtual_display_name(index: nat) -> Seq<char> {
    "VSplit-"@ + decimal(index)
}

/// Generate an EDID for a virtual monitor representing a region of a
/// physical display of `physical_width` x `physical_height` pixels, named
/// after `virtual_index`.
pub fn edid_for_region(
    physical_width: u32,
    physical_height: u32,
    region: &SplitRegion,
    virtual_index: u32,
) -> (edid: [u8; 128])
    requires
        region_pixel_size(physical_width, physical_height, *region).0 * region_pixel_size(
            physical_width,
            physical_height,
            *region,
        ).1 * 60 <= u32::MAX,
    ensures
        edid@ == synthetic_edid(
            region_pixel_size(physical_width, physical_height, *region).0 as u32,
            region_pixel_size(physical_width, physical_height, *region).1 as u32,
            encode_utf8(virtual_display_name(virtual_index as nat)),
        ),
        byte_sum(edid@) % 256 == 0,
{
    let width = region.width.scale_length(physical_width);
    let height = region.height.scale_length(physical_height);
    let name = indexed_message("VSplit-", virtual_index as usize, "");
    proof {
        reveal_strlit("");
        assert(name@ =~= virtual_display_name(virtual_index as nat));
    }
    generate_synthetic_edid(width, height, name.as_str())
}

/// Overlap does not depend on the order of the two regions.
pub proof fn lemma_overlap_symmetric(a: SplitRegion, b: SplitRegion)
    ensures
        regions_overlap(a, b) == regions_overlap(b, a),
{
}

/// Regions that only touch, the right edge of `a` being the left edge of
/// `b`, do not overlap.
pub proof fn lemma_touching_regions_disjoint(a: SplitRegion, b: SplitRegion)
    requires
        rat_sum(a.x@, a.width@).0 * b.x@.1 == b.x@.0 * rat_sum(a.x@, a.width@).1,
    ensures
        !regions_overlap(a, b),
{
}

/// A region with positive width and height overlaps itself.
pub proof fn lemma_region_overlaps_itself(r: SplitRegion)
    requires
        positive_denominators(r),
        r.width@.0 > 0,
        r.height@.0 > 0,
    ensures
        regions_overlap(r, r),
{
    assert(r.x@.0 * (r.x@.1 * r.width@.1) < (r.x@.0 * r.width@.1 + r.width@.0 * r.x@.1) * r.x@.1)
        by (nonlinear_arith)
        requires
            r.x@.1 > 0,
            r.width@.0 > 0,
    ;
    assert(r.y@.0 * (r.y@.1 * r.height@.1) < (r.y@.0 * r.height@.1 + r.height@.0 * r.y@.1) * r.y@.1)
        by (nonlinear_arith)
        requires
            r.y@.1 > 0,
            r.height@.0 > 0,
    ;
}

/// A fraction `q` lies strictly before `q + w` for a positive `w`.
proof fn lemma_start_before_end(q: (int, int), w: (int, int))
    requires
        q.1 > 0,
        w.1 > 0,
        w.0 > 0,
    ensures
        rat_lt(q, rat_sum(q, w)),
        rat_sum(q, w).1 > 0,
{
    assert(q.0 * (q.1 * w.1) < (q.0 * w.1 + w.0 * q.1) * q.1) by (nonlinear_arith)
        requires
            q.1 > 0,
            w.0 > 0,
    ;
    assert(q.1 * w.1 > 0) by (nonlinear_arith)
        requires
            q.1 > 0,
            w.1 > 0,
    ;
}

/// Two regions with positive width and height overlap exactly when some
/// point lies in both.
pub proof fn lemma_overlap_means_shared_point(a: SplitRegion, b: SplitRegion)
    requires
        positive_denominators(a),
        positive_denominators(b),
        a.width@.0 > 0,
        a.height@.0 > 0,
        b.width@.0 > 0,
        b.height@.0 > 0,
    ensures
        regions_overlap(a, b) <==> exists|px: (int, int), py: (int, int)|
            px.1 > 0 && py.1 > 0 && contains_point(a, px, py) && contains_point(b, px, py),
{
    lemma_start_before_end(a.x@, a.width@);
    lemma_start_before_end(a.y@, a.height@);
    lemma_start_before_end(b.x@, b.width@);
    lemma_start_before_end(b.y@, b.height@);
    if regions_overlap(a, b) {
        let px = if rat_le(a.x@, b.x@) {
            b.x@
        } else {
            a.x@
        };
        let py = if rat_le(a.y@, b.y@) {
            b.y@
        } else {
            a.y@
        };
        assert(contains_point(a, px, py) && contains_point(b, px, py));
    }
    if exists|px: (int, int), py: (int, int)|
        px.1 > 0 && py.1 > 0 && contains_point(a, px, py) && contains_point(b, px, py) {
        let (px, py) = choose|px: (int, int), py: (int, int)|
            px.1 > 0 && py.1 > 0 && contains_point(a, px, py) && contains_point(b, px, py);
        lemma_le_lt_trans(a.x@, px, right_edge(b));
        lemma_le_lt_trans(b.x@, px, right_edge(a));
        lemma_le_lt_trans(a.y@, py, bottom_edge(b));
        lemma_le_lt_trans(b.y@, py, bottom_edge(a));
    }
}

/// Regions that lie on the monitor and do not overlap share no point.
pub proof fn lemma_disjoint_regions_share_no_point(rs: Seq<SplitRegion>)
    requires
        regions_well_placed(rs),
        regions_disjoint(rs),
    ensures
        forall|i: int, j: int, px: (int, int), py: (int, int)|
            0 <= i < rs.len() && 0 <= j < rs.len() && i != j && px.1 > 0 && py.1 > 0 ==> !(
            #[trigger] contains_point(rs[i], px, py) && #[trigger] contains_point(rs[j], px, py)),
{
    assert forall|i: int, j: int, px: (int, int), py: (int, int)|
        0 <= i < rs.len() && 0 <= j < rs.len() && i != j && px.1 > 0 && py.1 > 0 implies !(
        #[trigger] contains_point(rs[i], px, py) && #[trigger] contains_point(rs[j], px, py)) by {
        if i < j {
            lemma_overlap_means_shared_point(rs[i], rs[j]);
        } else {
            lemma_overlap_means_shared_point(rs[j], rs[i]);
        }
    }
}

/// Regions that all fit, are pairwise disjoint and cover the monitor pass
/// validation.
pub proof fn lemma_check_accepts(rs: Seq<SplitRegion>)
    requires
        all_regions_fit(rs),
        regions_disjoint(rs),
        regions_cover(rs),
    ensures
        regions_check(rs) is Ok,
{
    assert(!exists|i: int| first_misfit(rs, i));
    assert(!exists|i: int, j: int| first_overlap(rs, i, j));
}

/// Part `i` of `n` equal parts ends within the monitor.
proof fn lemma_part_within(i: int, n: int)
    requires
        0 <= i < n,
    ensures
        !rat_lt(edge_limit(), rat_sum((i, n), (1, n))),
{
    assert((i * n + 1 * n) * 10000 <= 10001 * (n * n)) by (nonlinear_arith)
        requires
            0 <= i < n,
    ;
}

/// Part `j` of `n` equal parts starts where part `i` ends or later.
proof fn lemma_parts_apart(i: int, j: int, n: int)
    requires
        0 <= i < j < n,
    ensures
        !rat_lt((j, n), rat_sum((i, n), (1, n))),
{
    assert((i * n + 1 * n) * n <= j * (n * n)) by (nonlinear_arith)
        requires
            0 <= i < j < n,
    ;
}

/// The part of `n` equal parts that holds the coordinate `p` of the monitor.
proof fn lemma_part_of(p: (int, int), n: int) -> (i: int)
    requires
        n >= 1,
        p.1 > 0,
        0 <= p.0 < p.1,
    ensures
        0 <= i < n,
        rat_le((i, n), p),
        rat_lt(p, rat_sum((i, n), (1, n))),
{
    let i = (p.0 * n) / p.1;
    vstd::arithmetic::div_mod::lemma_fundamental_div_mod(p.0 * n, p.1);
    let m = (p.0 * n) % p.1;
    assert(0 <= p.0 * n < p.1 * n) by (nonlinear_arith)
        requires
            0 <= p.0 < p.1,
            n >= 1,
    ;
    assert(0 <= i < n) by (nonlinear_arith)
        requires
            p.0 * n == p.1 * i + m,
            0 <= m < p.1,
            0 <= p.0 * n < p.1 * n,
            p.1 > 0,
    ;
    assert(i * p.1 <= p.0 * n) by (nonlinear_arith)
        requires
            p.0 * n == p.1 * i + m,
            0 <= m,
    ;
    assert(p.0 * (n * n) < (i * n + 1 * n) * p.1) by (nonlinear_arith)
        requires
            p.0 * n == p.1 * i + m,
            m < p.1,
            n >= 1,
    ;
    i
}

/// The regions of an equal split into at least one part lie on the monitor,
/// do not overlap and cover it, so they pass validation.
pub proof fn lemma_equal_split_valid(regions: Seq<SplitRegion>, n: nat)
    requires
        n >= 1,
        is_equal_horizontal_split(regions, n) || is_equal_vertical_split(regions, n),
    ensures
        all_regions_fit(regions),
        regions_disjoint(regions),
        regions_cover(regions),
        regions_check(regions) is Ok,
{
    assert forall|i: int| 0 <= i < regions.len() implies region_fits(#[trigger] regions[i]) by {
        lemma_part_within(i, n as int);
    }
    assert forall|i: int, j: int| 0 <= i < j < regions.len() implies !regions_overlap(
        #[trigger] regions[i],
        #[trigger] regions[j],
    ) by {
        lemma_parts_apart(i, j, n as int);
    }
    assert forall|px: (int, int), py: (int, int)| in_unit_square(px, py) implies #[trigger] point_covered(
        regions,
        px,
        py,
    ) by {
        if is_equal_horizontal_split(regions, n) {
            let i = lemma_part_of(px, n as int);
            assert(contains_point(regions[i], px, py));
        } else {
            let i = lemma_part_of(py, n as int);
            assert(contains_point(regions[i], px, py));
        }
    }
    lemma_check_accepts(regions);
}

} // verus!
