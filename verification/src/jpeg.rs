//! Which byte strings the JPEG decoder can be given: a walk over the segments of a
//! compressed image, and a count of the scans and Huffman tables that may follow.

use vstd::prelude::*;

verus! {

/// What the frame segment of a compressed image says.
#[derive(Clone, Copy)]
pub struct JpegFrame {
    /// The image is sent in several scans, each of which refines the last.
    pub progressive: bool,
    pub components: u8,
    /// The decoder can bring the components to the same size.
    pub usual_sampling: bool,
    /// How many blocks of the first component stand side by side in a unit.
    pub across: u8,
    /// How many of them stand one below the other.
    pub down: u8,
    pub width: u16,
    pub height: u16,
}

/// What the segments of a compressed image have said so far.
#[derive(Clone, Copy)]
pub struct JpegHeader {
    pub frame: Option<JpegFrame>,
    /// The largest factor that a mean brightness or colour is scaled by.
    pub mean_scale: u16,
    /// A segment has been seen that can change how colours are told. A frame of
    /// one component overrules those before it.
    pub adobe: bool,
    /// The image is one of a film, which may leave out the usual Huffman tables.
    pub film: bool,
}

/// Nothing yet.
pub open spec fn empty_header() -> JpegHeader {
    JpegHeader { frame: None, mean_scale: 0, adobe: false, film: false }
}

/// A number in two bytes.
pub open spec fn short_at(s: Seq<u8>, p: int) -> int {
    s[p] * 256 + s[p + 1]
}

/// Where the decoder goes on after the segment that starts at `p`: at its end, but
/// for a segment `E0` of length 6, of which it reads a byte too many.
pub open spec fn segment_end(s: Seq<u8>, p: int) -> int {
    if s[p + 1] == 0xe0 && short_at(s, p + 2) == 6 {
        p + 9
    } else {
        p + 2 + short_at(s, p + 2)
    }
}

/// A marker: `FF`, and a byte that is neither a filling nor stuffed.
pub open spec fn is_marker(s: Seq<u8>, p: int) -> bool {
    s[p] == 0xff && s[p + 1] != 0xff && s[p + 1] != 0
}

/// A frame segment: `C0` and `C1` are baseline, `C2` is progressive.
pub open spec fn is_frame_marker(m: u8) -> bool {
    0xc0 <= m <= 0xc2
}

/// How often component `i` of the frame at `p` is sampled: across in the upper half
/// of the byte, down in the lower.
pub open spec fn sampling(s: Seq<u8>, p: int, i: int) -> u8 {
    s[p + 11 + 3 * i]
}

/// Sampled no more often than another, in either direction.
pub open spec fn no_finer(a: u8, b: u8) -> bool {
    a / 16 <= b / 16 && a % 16 <= b % 16
}

/// No component is sampled more often than the first, and those that are sampled
/// less often are sampled alike. A single component that is sampled more often than
/// once is no wider and no higher than 65528.
pub open spec fn usual_sampling(s: Seq<u8>, p: int) -> bool {
    let n = s[p + 9];
    let first = sampling(s, p, 0);
    &&& n == 1 ==> first == 0x11 || (short_at(s, p + 5) <= 65528 && short_at(s, p + 7) <= 65528)
    &&& forall|i: int| 1 <= i < n ==> no_finer(#[trigger] sampling(s, p, i), first)
    &&& forall|i: int, j: int|
        1 <= i < n && 1 <= j < n && #[trigger] sampling(s, p, i) != first && #[trigger] sampling(
            s,
            p,
            j,
        ) != first ==> sampling(s, p, i) == sampling(s, p, j)
}

/// The frame that the segment at `p` announces.
pub open spec fn frame_at(s: Seq<u8>, p: int) -> JpegFrame {
    JpegFrame {
        progressive: s[p + 1] == 0xc2,
        components: s[p + 9],
        usual_sampling: usual_sampling(s, p),
        across: sampling(s, p, 0) / 16,
        down: sampling(s, p, 0) % 16,
        width: short_at(s, p + 7) as u16,
        height: short_at(s, p + 5) as u16,
    }
}

/// The larger of two factors.
pub open spec fn larger(a: u16, b: u16) -> u16 {
    if a < b {
        b
    } else {
        a
    }
}

/// The largest of `scale` and the first factors of the quantization tables between
/// `p` and `end`. A table is a byte and 64 factors, each of one byte or of two; the
/// first scales the mean of a block.
pub open spec fn largest_scale(s: Seq<u8>, p: int, end: int, scale: u16) -> u16
    decreases end - p,
{
    if p + 65 > end {
        scale
    } else if s[p] < 0x10 {
        largest_scale(s, p + 65, end, larger(scale, s[p + 1] as u16))
    } else if s[p] < 0x20 && p + 129 <= end {
        largest_scale(s, p + 129, end, larger(scale, short_at(s, p + 1) as u16))
    } else {
        scale
    }
}

/// A segment `E0` that says that the image is one of a film.
pub open spec fn is_film(s: Seq<u8>, p: int) -> bool {
    &&& short_at(s, p + 2) > 5
    &&& s[p + 4] == 0x41
    &&& s[p + 5] == 0x56
    &&& s[p + 6] == 0x49
    &&& s[p + 7] == 0x31
    &&& s[p + 8] == 0
}

/// What is known after the segment at `p`.
pub open spec fn after_segment(s: Seq<u8>, p: int, h: JpegHeader) -> JpegHeader {
    let m = s[p + 1];
    if is_frame_marker(m) {
        JpegHeader { frame: Some(frame_at(s, p)), adobe: h.adobe && s[p + 9] != 1, ..h }
    } else if m == 0xdb {
        JpegHeader {
            mean_scale: largest_scale(s, p + 4, segment_end(s, p), h.mean_scale),
            ..h
        }
    } else if m == 0xee {
        JpegHeader { adobe: true, ..h }
    } else if m == 0xe0 {
        JpegHeader { film: h.film || is_film(s, p), ..h }
    } else {
        h
    }
}

/// How many codes a Huffman table has, from how many it has of each of the first
/// `n` lengths.
pub open spec fn code_count(s: Seq<u8>, p: int, n: nat) -> nat
    decreases n,
{
    if n == 0 {
        0
    } else {
        code_count(s, p, (n - 1) as nat) + s[p + n - 1] as nat
    }
}

/// The larger of two bytes.
pub open spec fn larger_byte(a: u8, b: u8) -> u8 {
    if a < b {
        b
    } else {
        a
    }
}

/// The largest byte from `p` up to `end`, or zero.
pub open spec fn largest_byte(s: Seq<u8>, p: int, end: int) -> u8
    decreases end - p,
{
    if p >= end {
        0
    } else {
        larger_byte(s[p], largest_byte(s, p + 1, end))
    }
}

/// How many bits the codes of the Huffman tables for means between `p` and `end`
/// announce at most, up to the first table that is cut short. A table is a byte,
/// below sixteen if it is for means, sixteen counts, and what each code announces.
pub open spec fn table_bits(s: Seq<u8>, p: int, end: int) -> u8
    decreases end - p,
{
    let next = p + 17 + code_count(s, p + 1, 16);
    if p + 17 > end || next > end {
        0
    } else if s[p] < 0x10 {
        larger_byte(largest_byte(s, p + 17, next), table_bits(s, next, end))
    } else {
        table_bits(s, next, end)
    }
}

/// How many bits the codes for means announce at most in whatever may be a segment
/// of Huffman tables, from `k` on.
pub open spec fn mean_bits(s: Seq<u8>, k: int) -> u8
    decreases s.len() - k,
{
    if k + 4 > s.len() {
        0
    } else if s[k] == 0xff && s[k + 1] == 0xc4 && segment_end(s, k) <= s.len() {
        larger_byte(table_bits(s, k + 4, segment_end(s, k)), mean_bits(s, k + 1))
    } else {
        mean_bits(s, k + 1)
    }
}

/// How often a scan may start, from `k` on.
pub open spec fn scan_count(s: Seq<u8>, k: int) -> nat
    decreases s.len() - k,
{
    if k + 1 >= s.len() {
        0
    } else if s[k] == 0xff && s[k + 1] == 0xda {
        1 + scan_count(s, k + 1)
    } else {
        scan_count(s, k + 1)
    }
}

/// The largest number of so many bits. The decoder refuses a table for means that
/// announces more than fifteen.
pub open spec fn largest_number(bits: nat) -> nat
    decreases bits,
{
    if bits == 0 {
        0
    } else if bits > 15 {
        32767
    } else {
        2 * largest_number((bits - 1) as nat) + 1
    }
}

/// How many blocks cover so many pixels, in units of so many blocks.
pub open spec fn blocks_over(pixels: u16, unit: u8) -> int
    recommends
        unit > 0,
{
    (pixels + 8 * unit - 1) / (8 * unit) * unit
}

/// The sum of as many mean differences as a component can have, scaled, is a
/// 32-bit number: in each scan a component has at most the blocks of the first.
pub open spec fn means_fit(f: JpegFrame, scans: nat, bits: nat, scale: u16) -> bool {
    blocks_over(f.width, f.across) * blocks_over(f.height, f.down) * largest_number(bits) * scale
        * scans + 1028 <= 0x7fff_ffff
}

/// The scan whose segment is at `p`, the first of the image, can be decoded within
/// bounds, and so can those that follow it. The colours of a progressive image of
/// one or two components, and of a single one that is sampled more often than once,
/// must not be told otherwise, and four components of a progressive image are not
/// sampled more often than once. The means are added up only in baseline images; the
/// usual Huffman tables announce up to eleven bits for them.
pub open spec fn scan_in_bounds(s: Seq<u8>, p: int, h: JpegHeader) -> bool {
    match h.frame {
        None => true,
        Some(f) => {
            &&& f.usual_sampling
            &&& !(h.adobe && f.components <= 2 && f.progressive)
            &&& !(h.adobe && f.components == 1 && (f.across > 1 || f.down > 1))
            &&& !(f.components == 4 && f.progressive && (f.across > 1 || f.down > 1))
            &&& f.progressive || means_fit(
                f,
                scan_count(s, p),
                larger_byte(
                    mean_bits(s, 2),
                    if h.film {
                        11
                    } else {
                        0
                    },
                ) as nat,
                h.mean_scale,
            )
        },
    }
}

/// Segments that the decoder gives up at: the end of the image, two kinds that it
/// does not know, those that end too soon or too late, and some frames: a second
/// one, one whose length is not that of its components, one of more than four, and
/// one whose first component is sampled otherwise than once, twice or four times
/// across and once to four times down.
pub open spec fn segment_refused(s: Seq<u8>, p: int, h: JpegHeader) -> bool {
    let m = s[p + 1];
    let len = short_at(s, p + 2);
    ||| m == 0xd9 || m == 0xcc || m == 0xdc
    ||| len < 2
    ||| segment_end(s, p) > s.len()
    ||| is_frame_marker(m) && {
        ||| h.frame is Some
        ||| len < 11 || len != 8 + 3 * s[p + 9] || s[p + 9] > 4
        ||| sampling(s, p, 0) / 16 != 1 && sampling(s, p, 0) / 16 != 2 && sampling(s, p, 0) / 16
            != 4
        ||| sampling(s, p, 0) % 16 == 0 || sampling(s, p, 0) % 16 > 4
    }
}

/// The segments from `p` on lead the decoder to an error, or to scans that it can
/// decode within bounds. Bytes between two segments are passed over.
pub open spec fn segments_in_bounds(s: Seq<u8>, p: int, h: JpegHeader) -> bool
    decreases s.len() - p,
{
    if p + 4 > s.len() {
        true
    } else if !is_marker(s, p) {
        segments_in_bounds(s, p + 1, h)
    } else if segment_refused(s, p, h) {
        true
    } else if s[p + 1] == 0xda {
        scan_in_bounds(s, p, h)
    } else {
        segments_in_bounds(s, segment_end(s, p), after_segment(s, p, h))
    }
}

/// Bytes on which the decoder is known to return, with an image or an error: those
/// that do not start as a JPEG, those whose segments it refuses, and images whose
/// components it can bring to the same size and whose means it can add up. It can
/// index out of bounds, or overflow, on others.
pub open spec fn jpeg_in_bounds(jpeg: Seq<u8>) -> bool {
    &&& jpeg.len() <= 0x7fff_ffff
    &&& jpeg.len() < 2 || jpeg[0] != 0xff || jpeg[1] != 0xd8 || segments_in_bounds(
        jpeg,
        2,
        empty_header(),
    )
}

fn get_short(s: &[u8], p: usize) -> (v: u16)
    requires
        p + 1 < s@.len(),
    ensures
        v == short_at(s@, p as int),
{
    s[p] as u16 * 256 + s[p + 1] as u16
}

fn check_sampling(s: &[u8], p: usize, width: u16, height: u16) -> (b: bool)
    requires
        p + 10 + 3 * s@[p + 9] <= s@.len() <= 0x7fff_ffff,
        0 < s@[p + 9] <= 4,
        width == short_at(s@, p + 7),
        height == short_at(s@, p + 5),
    ensures
        b == usual_sampling(s@, p as int),
{
    let n = s[p + 9] as usize;
    let first = s[p + 11];
    assert(first == sampling(s@, p as int, 0));
    if n == 1 && first != 0x11 && (height > 65528 || width > 65528) {
        return false;
    }
    let mut other: u8 = first;
    let mut i: usize = 1;
    while i < n
        invariant
            n == s@[p + 9] as usize,
            0 < n <= 4,
            1 <= i <= n,
            p + 10 + 3 * n <= s@.len() <= 0x7fff_ffff,
            first == sampling(s@, p as int, 0),
            other == first || exists|k: int|
                1 <= k < i && other == #[trigger] sampling(s@, p as int, k),
            forall|k: int|
                1 <= k < i ==> no_finer(#[trigger] sampling(s@, p as int, k), first),
            forall|k: int|
                1 <= k < i && #[trigger] sampling(s@, p as int, k) != first ==> sampling(
                    s@,
                    p as int,
                    k,
                ) == other,
        decreases n - i,
    {
        let here = s[p + 11 + 3 * i];
        assert(here == sampling(s@, p as int, i as int));
        if here / 16 > first / 16 || here % 16 > first % 16 {
            return false;
        }
        if here != first {
            if other != first && here != other {
                return false;
            }
            other = here;
        }
        i = i + 1;
    }
    true
}

fn read_frame(s: &[u8], p: usize) -> (f: JpegFrame)
    requires
        p + 10 + 3 * s@[p + 9] <= s@.len() <= 0x7fff_ffff,
        0 < s@[p + 9] <= 4,
    ensures
        f == frame_at(s@, p as int),
{
    let width = get_short(s, p + 7);
    let height = get_short(s, p + 5);
    JpegFrame {
        progressive: s[p + 1] == 0xc2,
        components: s[p + 9],
        usual_sampling: check_sampling(s, p, width, height),
        across: s[p + 11] / 16,
        down: s[p + 11] % 16,
        width,
        height,
    }
}

fn read_scales(s: &[u8], start: usize, end: usize, before: u16) -> (scale: u16)
    requires
        start <= end <= s@.len() <= 0x7fff_ffff,
    ensures
        scale == largest_scale(s@, start as int, end as int, before),
{
    let mut scale: u16 = before;
    let mut p: usize = start;
    while p + 65 <= end
        invariant
            start <= p <= end <= s@.len() <= 0x7fff_ffff,
            largest_scale(s@, start as int, end as int, before) == largest_scale(
                s@,
                p as int,
                end as int,
                scale,
            ),
        decreases end - p,
    {
        let factor: u16 = if s[p] < 0x10 {
            s[p + 1] as u16
        } else if s[p] < 0x20 && p + 129 <= end {
            get_short(s, p + 1)
        } else {
            return scale;
        };
        p = if s[p] < 0x10 {
            p + 65
        } else {
            p + 129
        };
        if scale < factor {
            scale = factor;
        }
    }
    scale
}

fn says_film(s: &[u8], p: usize) -> (b: bool)
    requires
        segment_end(s@, p as int) <= s@.len() <= 0x7fff_ffff,
        p + 4 <= s@.len(),
        s@[p + 1] == 0xe0,
    ensures
        b == is_film(s@, p as int),
{
    get_short(s, p + 2) > 5 && s[p + 4] == 0x41 && s[p + 5] == 0x56 && s[p + 6] == 0x49 && s[p + 7]
        == 0x31 && s[p + 8] == 0
}

fn read_segment(s: &[u8], p: usize, end: usize, h: JpegHeader) -> (after: JpegHeader)
    requires
        p + 4 <= end <= s@.len() <= 0x7fff_ffff,
        end == segment_end(s@, p as int),
        !segment_refused(s@, p as int, h),
    ensures
        after == after_segment(s@, p as int, h),
{
    let m = s[p + 1];
    if 0xc0 <= m && m <= 0xc2 {
        JpegHeader { frame: Some(read_frame(s, p)), adobe: h.adobe && s[p + 9] != 1, ..h }
    } else if m == 0xdb {
        JpegHeader { mean_scale: read_scales(s, p + 4, end, h.mean_scale), ..h }
    } else if m == 0xee {
        JpegHeader { adobe: true, ..h }
    } else if m == 0xe0 {
        JpegHeader { film: h.film || says_film(s, p), ..h }
    } else {
        h
    }
}

fn count_codes(s: &[u8], p: usize) -> (count: usize)
    requires
        p + 16 <= s@.len() <= 0x7fff_ffff,
    ensures
        count == code_count(s@, p as int, 16),
        count <= 16 * 255,
{
    let mut count: usize = 0;
    let mut n: usize = 0;
    while n < 16
        invariant
            n <= 16,
            p + 16 <= s@.len() <= 0x7fff_ffff,
            count == code_count(s@, p as int, n as nat),
            count <= n * 255,
        decreases 16 - n,
    {
        count = count + s[p + n] as usize;
        n = n + 1;
    }
    count
}

fn get_largest_byte(s: &[u8], start: usize, end: usize) -> (b: u8)
    requires
        start <= end <= s@.len(),
    ensures
        b == largest_byte(s@, start as int, end as int),
{
    let mut b: u8 = 0;
    let mut i: usize = start;
    while i < end
        invariant
            start <= i <= end <= s@.len(),
            largest_byte(s@, start as int, end as int) == larger_byte(
                b,
                largest_byte(s@, i as int, end as int),
            ),
        decreases end - i,
    {
        if b < s[i] {
            b = s[i];
        }
        i = i + 1;
    }
    b
}

fn get_table_bits(s: &[u8], start: usize, end: usize) -> (bits: u8)
    requires
        start <= end <= s@.len() <= 0x7fff_ffff,
    ensures
        bits == table_bits(s@, start as int, end as int),
{
    let mut bits: u8 = 0;
    let mut p: usize = start;
    while p + 17 <= end
        invariant
            start <= p <= end <= s@.len() <= 0x7fff_ffff,
            table_bits(s@, start as int, end as int) == larger_byte(
                bits,
                table_bits(s@, p as int, end as int),
            ),
        decreases end - p,
    {
        let next = p + 17 + count_codes(s, p + 1);
        if next > end {
            return bits;
        }
        if s[p] < 0x10 {
            let own = get_largest_byte(s, p + 17, next);
            if bits < own {
                bits = own;
            }
        }
        p = next;
    }
    bits
}

fn get_mean_bits(s: &[u8], start: usize) -> (bits: u8)
    requires
        start <= s@.len() <= 0x7fff_ffff,
    ensures
        bits == mean_bits(s@, start as int),
{
    let mut bits: u8 = 0;
    let mut k: usize = start;
    while k + 4 <= s.len()
        invariant
            k <= s@.len() <= 0x7fff_ffff,
            mean_bits(s@, start as int) == larger_byte(bits, mean_bits(s@, k as int)),
        decreases s@.len() - k,
    {
        if s[k] == 0xff && s[k + 1] == 0xc4 {
            let end = k + 2 + get_short(s, k + 2) as usize;
            if end <= s.len() {
                let own = if k + 4 <= end {
                    get_table_bits(s, k + 4, end)
                } else {
                    0
                };
                if bits < own {
                    bits = own;
                }
            }
        }
        k = k + 1;
    }
    bits
}

fn count_scans(s: &[u8], start: usize) -> (count: usize)
    requires
        start <= s@.len() <= 0x7fff_ffff,
    ensures
        count == scan_count(s@, start as int),
        count <= 0x7fff_ffff,
{
    let mut count: usize = 0;
    let mut k: usize = start;
    while k + 1 < s.len()
        invariant
            start <= k <= s@.len() <= 0x7fff_ffff,
            scan_count(s@, start as int) == count + scan_count(s@, k as int),
            count <= k - start,
        decreases s@.len() - k,
    {
        if s[k] == 0xff && s[k + 1] == 0xda {
            count = count + 1;
        }
        k = k + 1;
    }
    count
}

proof fn lemma_largest_number(bits: nat)
    requires
        bits <= 15,
    ensures
        largest_number(bits) <= 32767,
    decreases 15 - bits,
{
    if bits == 15 {
        reveal_with_fuel(largest_number, 16);
    } else {
        lemma_largest_number(bits + 1);
    }
}

fn get_largest_number(bits: u8) -> (v: u16)
    ensures
        v == largest_number(bits as nat),
        v <= 32767,
{
    if bits > 15 {
        return 32767;
    }
    let mut v: u16 = 0;
    let mut n: u8 = 0;
    while n < bits
        invariant
            n <= bits <= 15,
            v == largest_number(n as nat),
            v <= 32767,
        decreases bits - n,
    {
        proof {
            lemma_largest_number((n + 1) as nat);
        }
        v = 2 * v + 1;
        n = n + 1;
    }
    v
}

fn get_blocks_over(pixels: u16, unit: u8) -> (n: u32)
    requires
        1 <= unit <= 4,
    ensures
        n == blocks_over(pixels, unit),
        n <= 0x4000,
{
    let unit: u32 = unit as u32;
    let side: u32 = 8 * unit;
    let units: u32 = (pixels as u32 + side - 1) / side;
    assert(units <= 0x1000 * 2) by (nonlinear_arith)
        requires
            units == (pixels as u32 + side - 1) / side as int,
            8 <= side <= 32,
            pixels <= 0xffff,
    ;
    assert(units * unit <= 0x4000) by (nonlinear_arith)
        requires
            units == (pixels as u32 + side - 1) / side as int,
            side == 8 * unit,
            1 <= unit <= 4,
            pixels <= 0xffff,
    ;
    units * unit
}

fn check_means(f: &JpegFrame, scans: usize, bits: u8, scale: u16) -> (b: bool)
    requires
        scans <= 0x7fff_ffff,
        1 <= f.across <= 4,
        1 <= f.down <= 4,
    ensures
        b == means_fit(*f, scans as nat, bits as nat, scale),
{
    let across: u128 = get_blocks_over(f.width, f.across) as u128;
    let down: u128 = get_blocks_over(f.height, f.down) as u128;
    let most: u128 = get_largest_number(bits) as u128;
    let scale: u128 = scale as u128;
    let scans: u128 = scans as u128;
    assert(across * down <= 0x1000_0000) by (nonlinear_arith)
        requires
            across <= 0x4000,
            down <= 0x4000,
    ;
    let blocks: u128 = across * down;
    assert(blocks * most <= 0x1000_0000 * 0x8000) by (nonlinear_arith)
        requires
            blocks <= 0x1000_0000,
            most <= 0x8000,
    ;
    let sum: u128 = blocks * most;
    assert(sum * scale <= 0x1000_0000 * 0x8000 * 0x1_0000) by (nonlinear_arith)
        requires
            sum <= 0x1000_0000 * 0x8000,
            scale <= 0x1_0000,
    ;
    let scaled: u128 = sum * scale;
    assert(scaled * scans <= 0x1000_0000 * 0x8000 * 0x1_0000 * 0x8000_0000) by (nonlinear_arith)
        requires
            scaled <= 0x1000_0000 * 0x8000 * 0x1_0000,
            scans <= 0x8000_0000,
    ;
    scaled * scans + 1028 <= 0x7fff_ffff
}

fn check_scan(s: &[u8], p: usize, h: &JpegHeader) -> (b: bool)
    requires
        2 <= p <= s@.len() <= 0x7fff_ffff,
        h.frame matches Some(f) ==> 1 <= f.across <= 4 && 1 <= f.down <= 4,
    ensures
        b == scan_in_bounds(s@, p as int, *h),
{
    match &h.frame {
        None => true,
        Some(f) => {
            if !f.usual_sampling {
                false
            } else if h.adobe && f.components <= 2 && f.progressive {
                false
            } else if h.adobe && f.components == 1 && (f.across > 1 || f.down > 1) {
                false
            } else if f.components == 4 && f.progressive && (f.across > 1 || f.down > 1) {
                false
            } else if f.progressive {
                true
            } else {
                let found = get_mean_bits(s, 2);
                let bits = if h.film && found < 11 {
                    11
                } else {
                    found
                };
                check_means(f, count_scans(s, p), bits, h.mean_scale)
            }
        },
    }
}

/// Whether the decoder is known to return on a received frame.
pub fn frame_in_bounds(payload: &[u8]) -> (b: bool)
    ensures
        b == jpeg_in_bounds(payload@),
{
    let s = payload;
    if s.len() > 0x7fff_ffff {
        return false;
    }
    if s.len() < 2 || s[0] != 0xff || s[1] != 0xd8 {
        return true;
    }
    let mut p: usize = 2;
    let mut h = JpegHeader { frame: None, mean_scale: 0, adobe: false, film: false };
    while p + 4 <= s.len()
        invariant
            2 <= p <= s@.len() <= 0x7fff_ffff,
            s == payload,
            s@[0] == 0xff,
            s@[1] == 0xd8,
            h.frame matches Some(f) ==> 1 <= f.across <= 4 && 1 <= f.down <= 4,
            segments_in_bounds(s@, 2, empty_header()) == segments_in_bounds(s@, p as int, h),
        decreases s@.len() - p,
    {
        let m = s[p + 1];
        if s[p] != 0xff || m == 0xff || m == 0 {
            p = p + 1;
        } else {
            let len = get_short(s, p + 2);
            let end = if m == 0xe0 && len == 6 {
                p + 9
            } else {
                p + 2 + len as usize
            };
            if m == 0xd9 || m == 0xcc || m == 0xdc || len < 2 || end > s.len() {
                return true;
            }
            if 0xc0 <= m && m <= 0xc2 {
                if h.frame.is_some() || len < 11 || len as usize != 8 + 3 * s[p + 9] as usize
                    || s[p + 9] > 4 {
                    return true;
                }
                let across = s[p + 11] / 16;
                let down = s[p + 11] % 16;
                if (across != 1 && across != 2 && across != 4) || down == 0 || down > 4 {
                    return true;
                }
            }
            if m == 0xda {
                return check_scan(s, p, &h);
            }
            h = read_segment(s, p, end, h);
            p = end;
        }
    }
    true
}

} // verus!
