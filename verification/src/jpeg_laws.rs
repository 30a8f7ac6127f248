//! What the walk over a compressed image finds, said by the places where its segments
//! and its tables stand.

use vstd::arithmetic::power::{lemma_pow0, pow};
use vstd::prelude::*;

use crate::jpeg::{
    after_segment, blocks_over, code_count, empty_header, frame_at, jpeg_in_bounds, largest_byte,
    largest_number, largest_scale, mean_bits, no_finer, sampling, scan_count, segments_in_bounds,
    table_bits, usual_sampling, JpegHeader,
};

verus! {

/// The places from `k` on where a scan may start.
pub open spec fn scan_starts(s: Seq<u8>, k: int) -> Set<int> {
    Set::new(|i: int| k <= i < s.len() - 1 && s[i] == 0xff && s[i + 1] == 0xda)
}

/// Each place where a scan may start is counted once, and no other is.
pub proof fn scans_are_counted(s: Seq<u8>, k: int)
    requires
        0 <= k,
    ensures
        scan_starts(s, k).finite(),
        scan_count(s, k) == scan_starts(s, k).len(),
    decreases s.len() - k,
{
    if k + 1 >= s.len() {
        assert(scan_starts(s, k) =~= Set::empty());
    } else {
        scans_are_counted(s, k + 1);
        if s[k] == 0xff && s[k + 1] == 0xda {
            assert(scan_starts(s, k) =~= scan_starts(s, k + 1).insert(k));
        } else {
            assert(scan_starts(s, k) =~= scan_starts(s, k + 1));
        }
    }
}

/// No byte is larger than the largest, and it is one of them.
pub proof fn largest_byte_is_reached(s: Seq<u8>, p: int, end: int)
    ensures
        forall|i: int| p <= i < end ==> #[trigger] s[i] <= largest_byte(s, p, end),
        p < end ==> exists|i: int| p <= i < end && #[trigger] s[i] == largest_byte(s, p, end),
        p >= end ==> largest_byte(s, p, end) == 0,
    decreases end - p,
{
    if p < end {
        largest_byte_is_reached(s, p + 1, end);
        if largest_byte(s, p, end) == s[p] {
            assert(p <= p < end && s[p] == largest_byte(s, p, end));
        } else {
            assert(p + 1 < end);
            let i = choose|i: int|
                p + 1 <= i < end && #[trigger] s[i] == largest_byte(s, p + 1, end);
            assert(p <= i < end && s[i] == largest_byte(s, p, end));
        }
    }
}

/// The codes of a Huffman table are counted by adding up how many it has of each
/// length.
pub proof fn codes_add_up(s: Seq<u8>, p: int, a: nat, b: nat)
    ensures
        code_count(s, p, 0) == 0,
        code_count(s, p, 1) == s[p],
        code_count(s, p, a + b) == code_count(s, p, a) + code_count(s, p + a, b),
    decreases b,
{
    reveal_with_fuel(code_count, 2);
    if b > 0 {
        codes_add_up(s, p, a, (b - 1) as nat);
        assert((a + b - 1) as nat == a + (b - 1) as nat);
    }
}

/// The largest number of so many bits is one less than that power of two.
pub proof fn largest_number_is_all_ones(bits: nat)
    ensures
        bits <= 15 ==> largest_number(bits) == pow(2, bits) - 1,
        bits > 15 ==> largest_number(bits) == 32767,
    decreases bits,
{
    reveal(pow);
    if bits == 0 {
        lemma_pow0(2);
    } else if bits <= 15 {
        largest_number_is_all_ones((bits - 1) as nat);
    }
}

/// The blocks over some pixels are the fewest whole units that cover them.
pub proof fn blocks_cover_the_pixels(pixels: u16, unit: u8)
    requires
        unit > 0,
    ensures
        blocks_over(pixels, unit) % (unit as int) == 0,
        8 * blocks_over(pixels, unit) >= pixels,
        8 * (blocks_over(pixels, unit) - unit) < pixels,
{
    let d = 8 * unit;
    let q = (pixels + d - 1) / d;
    assert(q * d <= pixels + d - 1 < q * d + d) by (nonlinear_arith)
        requires
            d > 0,
            q == (pixels + d - 1) / d,
    ;
    assert(q * d == 8 * (q * unit)) by (nonlinear_arith)
        requires
            d == 8 * unit,
    ;
    vstd::arithmetic::div_mod::lemma_mod_multiples_basic(q, unit as int);
}

/// A Huffman table stands at place `i` and ends at the next: it is a byte, sixteen
/// counts, and a byte for each code.
pub open spec fn table_stands(s: Seq<u8>, at: Seq<int>, i: int) -> bool {
    at[i] + 17 + code_count(s, at[i] + 1, 16) == at[i + 1]
}

/// Huffman tables stand at these places, one behind the other. The last place is
/// where none stands that ends before `end`.
pub open spec fn tables_stand_at(s: Seq<u8>, at: Seq<int>, end: int) -> bool {
    &&& at.len() > 0
    &&& forall|i: int| 0 <= i < at.len() - 1 ==> #[trigger] table_stands(s, at, i)
    &&& at.last() <= end
    &&& at.last() + 17 + code_count(s, at.last() + 1, 16) > end
}

/// What a code announces in table `i`, which is for means, stands here.
pub open spec fn announced_at(s: Seq<u8>, at: Seq<int>, i: int, j: int) -> bool {
    0 <= i < at.len() - 1 && s[at[i]] < 16 && at[i] + 17 <= j < at[i + 1]
}

proof fn lemma_tables_grow(s: Seq<u8>, at: Seq<int>, end: int)
    requires
        tables_stand_at(s, at, end),
    ensures
        at[0] <= end,
        at.len() > 1 ==> at[1] <= end && tables_stand_at(s, at.drop_first(), end),
    decreases at.len(),
{
    if at.len() > 1 {
        let tail = at.drop_first();
        assert(table_stands(s, at, 0));
        assert(tail.last() == at.last());
        assert forall|i: int| 0 <= i < tail.len() - 1 implies #[trigger] table_stands(
            s,
            tail,
            i,
        ) by {
            assert(table_stands(s, at, i + 1));
        }
        lemma_tables_grow(s, tail, end);
        assert(tail[0] == at[1]);
    }
}

/// No code of a table for means announces more bits than what is taken to be the most
/// for all of them, and one of them announces as many, if any announces some.
pub proof fn tables_announce_their_most(s: Seq<u8>, at: Seq<int>, end: int)
    requires
        tables_stand_at(s, at, end),
    ensures
        forall|i: int, j: int| #[trigger]
            announced_at(s, at, i, j) ==> s[j] <= table_bits(s, at[0], end),
        table_bits(s, at[0], end) == 0 || exists|i: int, j: int| #[trigger]
            announced_at(s, at, i, j) && s[j] == table_bits(s, at[0], end),
    decreases at.len(),
{
    let p = at[0];
    let all = table_bits(s, p, end);
    if at.len() > 1 {
        let next = at[1];
        let tail = at.drop_first();
        assert(table_stands(s, at, 0));
        lemma_tables_grow(s, at, end);
        tables_announce_their_most(s, tail, end);
        largest_byte_is_reached(s, p + 17, next);
        let later = table_bits(s, next, end);
        assert(tail[0] == next);
        assert(later <= all);
        assert forall|i: int, j: int| #[trigger] announced_at(s, at, i, j) implies s[j] <= all by {
            if i > 0 {
                assert(tail[i - 1] == at[i] && tail[i] == at[i + 1]);
                assert(announced_at(s, tail, i - 1, j));
            }
        }
        if all != 0 {
            if all == later {
                let (i, j) = choose|i: int, j: int| #[trigger]
                    announced_at(s, tail, i, j) && s[j] == later;
                assert(at[i + 1] == tail[i] && at[i + 2] == tail[i + 1]);
                assert(announced_at(s, at, i + 1, j));
            } else {
                assert(s[p] < 16 && all == largest_byte(s, p + 17, next));
                let j = choose|j: int|
                    p + 17 <= j < next && #[trigger] s[j] == largest_byte(s, p + 17, next);
                assert(announced_at(s, at, 0, j));
            }
        }
    }
}

/// A segment of Huffman tables may stand here.
pub open spec fn table_segment(s: Seq<u8>, k: int) -> bool {
    &&& k + 4 <= s.len()
    &&& s[k] == 0xff
    &&& s[k + 1] == 0xc4
    &&& k + 2 + s[k + 2] * 256 + s[k + 3] <= s.len()
}

/// The bits that are announced for means in whatever may be a segment of Huffman
/// tables are those of the segment that announces the most.
pub proof fn segments_announce_their_most(s: Seq<u8>, k: int)
    requires
        0 <= k,
    ensures
        forall|i: int|
            k <= i && #[trigger] table_segment(s, i) ==> table_bits(
                s,
                i + 4,
                i + 2 + s[i + 2] * 256 + s[i + 3],
            ) <= mean_bits(s, k),
        mean_bits(s, k) == 0 || exists|i: int|
            k <= i && #[trigger] table_segment(s, i) && table_bits(
                s,
                i + 4,
                i + 2 + s[i + 2] * 256 + s[i + 3],
            ) == mean_bits(s, k),
    decreases s.len() - k,
{
    if k + 4 <= s.len() {
        segments_announce_their_most(s, k + 1);
        let all = mean_bits(s, k);
        let later = mean_bits(s, k + 1);
        assert(later <= all);
        if all != 0 {
            if all == later {
                let i = choose|i: int|
                    k + 1 <= i && #[trigger] table_segment(s, i) && table_bits(
                        s,
                        i + 4,
                        i + 2 + s[i + 2] * 256 + s[i + 3],
                    ) == later;
                assert(k <= i && table_segment(s, i));
            } else {
                assert(k <= k && table_segment(s, k));
            }
        }
    }
}

/// The first factor of the quantization table at this place, which scales the means: a
/// byte, or two if the table says so.
pub open spec fn first_factor(s: Seq<u8>, p: int) -> int {
    if s[p] < 16 {
        s[p + 1] as int
    } else {
        s[p + 1] * 256 + s[p + 2]
    }
}

/// How many bytes the quantization table at this place has.
pub open spec fn factors_len(s: Seq<u8>, p: int) -> int {
    if s[p] < 16 {
        65
    } else {
        129
    }
}

/// A quantization table stands at place `i` and ends at the next.
pub open spec fn factors_stand(s: Seq<u8>, at: Seq<int>, i: int) -> bool {
    s[at[i]] < 32 && at[i] + factors_len(s, at[i]) == at[i + 1]
}

/// Quantization tables stand at these places, one behind the other. The last place is
/// where none stands that ends before `end`.
pub open spec fn factors_stand_at(s: Seq<u8>, at: Seq<int>, end: int) -> bool {
    &&& at.len() > 0
    &&& forall|i: int| 0 <= i < at.len() - 1 ==> #[trigger] factors_stand(s, at, i)
    &&& at.last() <= end
    &&& at.last() + 65 > end || s[at.last()] >= 32 || at.last() + factors_len(s, at.last()) > end
}

/// Place `i` is that of a table.
pub open spec fn has_factors(at: Seq<int>, i: int) -> bool {
    0 <= i < at.len() - 1
}

proof fn lemma_factors_grow(s: Seq<u8>, at: Seq<int>, end: int)
    requires
        factors_stand_at(s, at, end),
    ensures
        at[0] <= end,
        at.len() > 1 ==> at[1] <= end && factors_stand_at(s, at.drop_first(), end),
    decreases at.len(),
{
    if at.len() > 1 {
        let tail = at.drop_first();
        assert(factors_stand(s, at, 0));
        assert(tail.last() == at.last());
        assert forall|i: int| 0 <= i < tail.len() - 1 implies #[trigger] factors_stand(
            s,
            tail,
            i,
        ) by {
            assert(factors_stand(s, at, i + 1));
        }
        lemma_factors_grow(s, tail, end);
        assert(tail[0] == at[1]);
    }
}

/// No table scales the means by more than what is taken to be the largest factor, and
/// one of them scales by as much, unless as much was found before them.
pub proof fn factors_have_a_largest(s: Seq<u8>, at: Seq<int>, end: int, scale: u16)
    requires
        factors_stand_at(s, at, end),
    ensures
        scale <= largest_scale(s, at[0], end, scale),
        forall|i: int| #[trigger]
            has_factors(at, i) ==> first_factor(s, at[i]) <= largest_scale(s, at[0], end, scale),
        largest_scale(s, at[0], end, scale) == scale || exists|i: int| #[trigger]
            has_factors(at, i) && first_factor(s, at[i]) == largest_scale(s, at[0], end, scale),
    decreases at.len(),
{
    let all = largest_scale(s, at[0], end, scale);
    if at.len() > 1 {
        let tail = at.drop_first();
        assert(factors_stand(s, at, 0));
        lemma_factors_grow(s, at, end);
        let f = first_factor(s, at[0]);
        let now = if scale < f {
            f as u16
        } else {
            scale
        };
        factors_have_a_largest(s, tail, end, now);
        assert(tail[0] == at[1]);
        assert(all == largest_scale(s, at[1], end, now));
        assert forall|i: int| #[trigger] has_factors(at, i) implies first_factor(s, at[i])
            <= all by {
            if i > 0 {
                assert(has_factors(tail, i - 1) && tail[i - 1] == at[i]);
            }
        }
        if all != scale {
            if all == now {
                assert(has_factors(at, 0) && first_factor(s, at[0]) == all);
            } else {
                let i = choose|i: int| #[trigger]
                    has_factors(tail, i) && first_factor(s, tail[i]) == all;
                assert(has_factors(at, i + 1) && at[i + 1] == tail[i]);
            }
        }
    }
}

proof fn lemma_largest_scale(s: Seq<u8>, p: int, end: int, scale: u16)
    ensures
        largest_scale(s, p, end, scale) == (if scale < largest_scale(s, p, end, 0) {
            largest_scale(s, p, end, 0)
        } else {
            scale
        }),
    decreases end - p,
{
    if p + 65 <= end {
        if s[p] < 0x10 {
            let f = s[p + 1] as u16;
            lemma_largest_scale(s, p + 65, end, if scale < f { f } else { scale });
            lemma_largest_scale(s, p + 65, end, f);
        } else if s[p] < 0x20 && p + 129 <= end {
            let f = (s[p + 1] * 256 + s[p + 2]) as u16;
            lemma_largest_scale(s, p + 129, end, if scale < f { f } else { scale });
            lemma_largest_scale(s, p + 129, end, f);
        }
    }
}

// The walk from segment to segment.

/// The two bytes that count how long the segment at this place is, from them on.
pub open spec fn segment_len(s: Seq<u8>, p: int) -> int {
    s[p + 2] * 256 + s[p + 3]
}

/// Where the segment at this place is left. A segment `E0` that says that it has four
/// bytes is left one byte behind its end.
pub open spec fn segment_left(s: Seq<u8>, p: int) -> int {
    if s[p + 1] == 0xe0 && segment_len(s, p) == 6 {
        p + 9
    } else {
        p + 2 + segment_len(s, p)
    }
}

/// No segment stands between two places.
pub open spec fn no_segment(s: Seq<u8>, from: int, to: int) -> bool {
    forall|q: int| from <= q < to ==> !(#[trigger] s[q] == 0xff && 0 < s[q + 1] < 0xff)
}

/// A segment stands at this place.
pub open spec fn segment_stands(s: Seq<u8>, p: int) -> bool {
    p + 4 <= s.len() && s[p] == 0xff && 0 < s[p + 1] < 0xff
}

/// A frame segment with all that it must have: the length that goes with its number of
/// components, up to four of them, and a first component that is sampled once, twice or
/// four times across, and one to four times down.
pub open spec fn frame_stands(s: Seq<u8>, p: int) -> bool {
    &&& s[p + 1] == 0xc0 || s[p + 1] == 0xc1 || s[p + 1] == 0xc2
    &&& 1 <= s[p + 9] <= 4
    &&& segment_len(s, p) == 8 + 3 * s[p + 9]
    &&& s[p + 11] / 16 == 1 || s[p + 11] / 16 == 2 || s[p + 11] / 16 == 4
    &&& 1 <= s[p + 11] % 16 <= 4
}

/// Segment `i` is one that the walk goes past: a whole one, and neither a scan nor one
/// that the decoder gives up at. It is a frame if it is segment `f`, and only then.
pub open spec fn passed(s: Seq<u8>, at: Seq<int>, f: int, i: int) -> bool {
    let p = at[i];
    let m = s[p + 1];
    &&& segment_stands(s, p)
    &&& segment_len(s, p) >= 2
    &&& segment_left(s, p) <= s.len()
    &&& m != 0xda && m != 0xd9 && m != 0xcc && m != 0xdc
    &&& if i == f {
        frame_stands(s, p)
    } else {
        m != 0xc0 && m != 0xc1 && m != 0xc2
    }
    &&& segment_left(s, p) <= at[i + 1]
    &&& no_segment(s, segment_left(s, p), at[i + 1])
}

/// An image whose segments stand at these places. The last of them is where the walk
/// ends; segment `f` is the frame, if it comes before that.
pub open spec fn walk(s: Seq<u8>, at: Seq<int>, f: int) -> bool {
    &&& 2 <= s.len() <= 2147483647
    &&& s[0] == 0xff
    &&& s[1] == 0xd8
    &&& at.len() > 0
    &&& 2 <= at[0]
    &&& no_segment(s, 2, at[0])
    &&& segment_stands(s, at.last())
    &&& forall|i: int| 0 <= i < at.len() - 1 ==> #[trigger] passed(s, at, f, i)
}

/// What the first `n` segments say.
spec fn header_after(s: Seq<u8>, at: Seq<int>, n: nat) -> JpegHeader
    decreases n,
{
    if n == 0 {
        empty_header()
    } else {
        after_segment(s, at[n - 1], header_after(s, at, (n - 1) as nat))
    }
}

proof fn lemma_gap(s: Seq<u8>, from: int, to: int, h: JpegHeader)
    requires
        0 <= from <= to,
        to + 4 <= s.len(),
        no_segment(s, from, to),
    ensures
        segments_in_bounds(s, from, h) == segments_in_bounds(s, to, h),
    decreases to - from,
{
    if from < to {
        assert(!(s[from] == 0xff && 0 < s[from + 1] < 0xff));
        lemma_gap(s, from + 1, to, h);
    }
}

proof fn lemma_frame_after(s: Seq<u8>, at: Seq<int>, f: int, n: nat)
    requires
        0 <= f,
        n < at.len(),
        forall|i: int| 0 <= i < at.len() - 1 ==> #[trigger] passed(s, at, f, i),
    ensures
        n <= f ==> header_after(s, at, n).frame is None,
        n > f ==> header_after(s, at, n).frame == Some(frame_at(s, at[f])),
    decreases n,
{
    if n > 0 {
        lemma_frame_after(s, at, f, (n - 1) as nat);
        assert(passed(s, at, f, n - 1));
    }
}

proof fn lemma_walk(s: Seq<u8>, at: Seq<int>, f: int, n: nat)
    requires
        0 <= f,
        walk(s, at, f),
        n < at.len(),
    ensures
        segments_in_bounds(s, 2, empty_header()) == segments_in_bounds(
            s,
            at[n as int],
            header_after(s, at, n),
        ),
        2 <= at[n as int],
        at[n as int] + 4 <= s.len(),
    decreases n,
{
    if at.len() > 1 {
        assert(passed(s, at, f, 0));
    }
    if n == 0 {
        lemma_gap(s, 2, at[0], empty_header());
    } else {
        let i = n - 1;
        let h = header_after(s, at, i as nat);
        lemma_walk(s, at, f, i as nat);
        lemma_frame_after(s, at, f, i as nat);
        assert(passed(s, at, f, i));
        if n < at.len() - 1 {
            assert(passed(s, at, f, n as int));
        }
        lemma_gap(s, segment_left(s, at[i]), at[i + 1], header_after(s, at, n));
    }
}

/// Segment `i` is `EE`, which can change how colours are told, and is not overruled by
/// a frame of one component behind it.
pub open spec fn tells_colours(s: Seq<u8>, at: Seq<int>, f: int, i: int) -> bool {
    s[at[i] + 1] == 0xee && (i > f || s[at[f] + 9] != 1)
}

/// Segment `i` says that the image is one of a film: it is `E0` and starts with the
/// four characters `AVI1` and a zero.
pub open spec fn tells_film(s: Seq<u8>, at: Seq<int>, i: int) -> bool {
    let p = at[i];
    &&& s[p + 1] == 0xe0
    &&& segment_len(s, p) >= 6
    &&& s[p + 4] == 65 && s[p + 5] == 86 && s[p + 6] == 73 && s[p + 7] == 49 && s[p + 8] == 0
}

/// Segment `i` holds quantization tables.
pub open spec fn holds_factors(s: Seq<u8>, at: Seq<int>, i: int) -> bool {
    s[at[i] + 1] == 0xdb
}

/// The largest factor in segment `i`.
pub open spec fn segment_scale(s: Seq<u8>, at: Seq<int>, i: int) -> u16 {
    largest_scale(s, at[i] + 4, segment_left(s, at[i]), 0)
}

proof fn lemma_colours_after(s: Seq<u8>, at: Seq<int>, f: int, n: nat)
    requires
        0 <= f,
        n < at.len(),
        forall|i: int| 0 <= i < at.len() - 1 ==> #[trigger] passed(s, at, f, i),
    ensures
        n <= f ==> (header_after(s, at, n).adobe <==> exists|i: int|
            0 <= i < n && s[#[trigger] at[i] + 1] == 0xee),
        n > f ==> (header_after(s, at, n).adobe <==> exists|i: int|
            0 <= i < n && #[trigger] tells_colours(s, at, f, i)),
    decreases n,
{
    if n > 0 {
        let k = n - 1;
        lemma_colours_after(s, at, f, k as nat);
        assert(passed(s, at, f, k));
        let before = header_after(s, at, k as nat);
        let after = header_after(s, at, n);
        if n <= f {
            if before.adobe {
                let i = choose|i: int| 0 <= i < k && s[#[trigger] at[i] + 1] == 0xee;
                assert(0 <= i < n && s[at[i] + 1] == 0xee);
            } else if after.adobe {
                assert(0 <= k < n && s[at[k] + 1] == 0xee);
            }
        } else {
            if after.adobe {
                if s[at[k] + 1] == 0xee {
                    assert(tells_colours(s, at, f, k));
                } else if k > f {
                    let i = choose|i: int| 0 <= i < k && #[trigger] tells_colours(s, at, f, i);
                    assert(0 <= i < n && tells_colours(s, at, f, i));
                } else {
                    let i = choose|i: int| 0 <= i < k && s[#[trigger] at[i] + 1] == 0xee;
                    assert(0 <= i < n && tells_colours(s, at, f, i));
                }
            }
            if exists|i: int| 0 <= i < n && #[trigger] tells_colours(s, at, f, i) {
                let i = choose|i: int| 0 <= i < n && #[trigger] tells_colours(s, at, f, i);
                if i < k {
                    if k <= f {
                        assert(0 <= i < k && s[at[i] + 1] == 0xee);
                    }
                    assert(before.adobe);
                }
            }
        }
    }
}

proof fn lemma_film_after(s: Seq<u8>, at: Seq<int>, f: int, n: nat)
    requires
        n < at.len(),
        forall|i: int| 0 <= i < at.len() - 1 ==> #[trigger] passed(s, at, f, i),
    ensures
        header_after(s, at, n).film <==> exists|i: int|
            0 <= i < n && #[trigger] tells_film(s, at, i),
    decreases n,
{
    if n > 0 {
        let k = n - 1;
        lemma_film_after(s, at, f, k as nat);
        assert(passed(s, at, f, k));
        let before = header_after(s, at, k as nat);
        if before.film {
            let i = choose|i: int| 0 <= i < k && #[trigger] tells_film(s, at, i);
            assert(0 <= i < n && tells_film(s, at, i));
        } else if header_after(s, at, n).film {
            assert(tells_film(s, at, k));
        }
    }
}

proof fn lemma_scale_after(s: Seq<u8>, at: Seq<int>, f: int, n: nat)
    requires
        n < at.len(),
        forall|i: int| 0 <= i < at.len() - 1 ==> #[trigger] passed(s, at, f, i),
    ensures
        forall|i: int|
            0 <= i < n && #[trigger] holds_factors(s, at, i) ==> segment_scale(s, at, i)
                <= header_after(s, at, n).mean_scale,
        header_after(s, at, n).mean_scale == 0 || exists|i: int|
            0 <= i < n && #[trigger] holds_factors(s, at, i) && segment_scale(s, at, i)
                == header_after(s, at, n).mean_scale,
    decreases n,
{
    if n > 0 {
        let k = n - 1;
        lemma_scale_after(s, at, f, k as nat);
        assert(passed(s, at, f, k));
        let before = header_after(s, at, k as nat).mean_scale;
        let after = header_after(s, at, n).mean_scale;
        if holds_factors(s, at, k) {
            lemma_largest_scale(s, at[k] + 4, segment_left(s, at[k]), before);
        }
        if after != 0 && after == before {
            let i = choose|i: int|
                0 <= i < k && #[trigger] holds_factors(s, at, i) && segment_scale(s, at, i)
                    == before;
            assert(0 <= i < n && holds_factors(s, at, i));
        }
    }
}

/// Component `i` of the frame at this place is sampled no more often than the first,
/// neither across nor down.
pub open spec fn no_finer_than_first(s: Seq<u8>, p: int, i: int) -> bool {
    s[p + 11 + 3 * i] / 16 <= s[p + 11] / 16 && s[p + 11 + 3 * i] % 16 <= s[p + 11] % 16
}

/// The components of the frame at this place can be brought to the same size: none is
/// sampled more often than the first, and two that are sampled less often are sampled
/// alike. A single one is sampled once, or neither wider nor higher than 65528.
pub open spec fn sizes_go_together(s: Seq<u8>, p: int) -> bool {
    let n = s[p + 9];
    &&& n == 1 ==> s[p + 11] == 17 || (s[p + 5] * 256 + s[p + 6] <= 65528 && s[p + 7] * 256 + s[p
        + 8] <= 65528)
    &&& forall|i: int| 1 <= i < n ==> #[trigger] no_finer_than_first(s, p, i)
    &&& forall|i: int, j: int|
        1 <= i < n && 1 <= j < n && s[p + 11 + 3 * i] != s[p + 11] && s[p + 11 + 3 * j] != s[p
            + 11] && #[trigger] no_finer_than_first(s, p, i) && #[trigger] no_finer_than_first(
            s,
            p,
            j,
        ) ==> s[p + 11 + 3 * i] == s[p + 11 + 3 * j]
}

proof fn lemma_sizes(s: Seq<u8>, p: int)
    requires
        frame_stands(s, p),
    ensures
        usual_sampling(s, p) == sizes_go_together(s, p),
{
    let n = s[p + 9];
    let first = sampling(s, p, 0);
    if usual_sampling(s, p) {
        assert forall|i: int| 1 <= i < n implies #[trigger] no_finer_than_first(s, p, i) by {
            assert(no_finer(sampling(s, p, i), first));
        }
        assert forall|i: int, j: int|
            1 <= i < n && 1 <= j < n && s[p + 11 + 3 * i] != s[p + 11] && s[p + 11 + 3 * j] != s[p
                + 11] && #[trigger] no_finer_than_first(s, p, i) && #[trigger] no_finer_than_first(
                s,
                p,
                j,
            ) implies s[p + 11 + 3 * i] == s[p + 11 + 3 * j] by {
            assert(sampling(s, p, i) != first && sampling(s, p, j) != first);
        }
    }
    if sizes_go_together(s, p) {
        assert forall|i: int| 1 <= i < n implies no_finer(#[trigger] sampling(s, p, i), first) by {
            assert(no_finer_than_first(s, p, i));
        }
        assert forall|i: int, j: int|
            1 <= i < n && 1 <= j < n && #[trigger] sampling(s, p, i) != first
                && #[trigger] sampling(s, p, j) != first implies sampling(s, p, i) == sampling(s, p, j) by {
            assert(no_finer_than_first(s, p, i));
            assert(no_finer_than_first(s, p, j));
        }
    }
}

/// A progressive image that the walk leads to a scan of is in bounds if its components
/// can be brought to the same size, unless one or two components have their colours
/// told otherwise, or four of them are sampled more often than once.
pub proof fn progressive_images_in_bounds(s: Seq<u8>, at: Seq<int>, f: int)
    requires
        walk(s, at, f),
        0 <= f < at.len() - 1,
        s[at[f] + 1] == 0xc2,
        s[at.last() + 1] == 0xda,
        segment_len(s, at.last()) >= 2,
        segment_left(s, at.last()) <= s.len(),
    ensures
        jpeg_in_bounds(s) <==> {
            let n = s[at[f] + 9];
            &&& sizes_go_together(s, at[f])
            &&& n == 4 ==> s[at[f] + 11] == 17
            &&& n <= 2 ==> forall|i: int|
                0 <= i < at.len() - 1 ==> !#[trigger] tells_colours(s, at, f, i)
        },
{
    let last = (at.len() - 1) as nat;
    lemma_walk(s, at, f, last);
    lemma_frame_after(s, at, f, last);
    lemma_colours_after(s, at, f, last);
    assert(passed(s, at, f, f));
    lemma_sizes(s, at[f]);
}

/// A baseline image that the walk leads to a scan of is in bounds if its components can
/// be brought to the same size, unless a single one that is sampled more often than once
/// has its colours told otherwise, and if its means can be added up: as many of the
/// largest as its scans can have blocks for, scaled, are a 32-bit number.
pub proof fn baseline_images_in_bounds(s: Seq<u8>, at: Seq<int>, f: int, scale: u16, bits: nat)
    requires
        walk(s, at, f),
        0 <= f < at.len() - 1,
        s[at[f] + 1] != 0xc2,
        s[at.last() + 1] == 0xda,
        segment_len(s, at.last()) >= 2,
        segment_left(s, at.last()) <= s.len(),
        forall|i: int|
            0 <= i < at.len() - 1 && #[trigger] holds_factors(s, at, i) ==> segment_scale(s, at, i)
                <= scale,
        scale == 0 || exists|i: int|
            0 <= i < at.len() - 1 && #[trigger] holds_factors(s, at, i) && segment_scale(s, at, i)
                == scale,
        (exists|i: int| 0 <= i < at.len() - 1 && #[trigger] tells_film(s, at, i)) ==> bits == (
        if mean_bits(s, 2) < 11 {
            11
        } else {
            mean_bits(s, 2)
        }),
        !(exists|i: int| 0 <= i < at.len() - 1 && #[trigger] tells_film(s, at, i)) ==> bits
            == mean_bits(s, 2),
    ensures
        jpeg_in_bounds(s) <==> {
            let p = at[f];
            let across = s[p + 11] / 16;
            let down = s[p + 11] % 16;
            let height = (s[p + 5] * 256 + s[p + 6]) as u16;
            let width = (s[p + 7] * 256 + s[p + 8]) as u16;
            &&& sizes_go_together(s, p)
            &&& s[p + 9] == 1 && s[p + 11] != 17 ==> forall|i: int|
                0 <= i < at.len() - 1 ==> !#[trigger] tells_colours(s, at, f, i)
            &&& blocks_over(width, across) * blocks_over(height, down) * largest_number(bits)
                * scale * scan_count(s, at.last()) + 1028 <= 2147483647
        },
{
    let last = (at.len() - 1) as nat;
    lemma_walk(s, at, f, last);
    lemma_frame_after(s, at, f, last);
    lemma_colours_after(s, at, f, last);
    lemma_film_after(s, at, f, last);
    lemma_scale_after(s, at, f, last);
    let h = header_after(s, at, last);
    assert(h.mean_scale == scale) by {
        if h.mean_scale != 0 {
            let i = choose|i: int|
                0 <= i < last && #[trigger] holds_factors(s, at, i) && segment_scale(s, at, i)
                    == h.mean_scale;
            assert(segment_scale(s, at, i) <= scale);
        }
    }
    assert(passed(s, at, f, f));
    lemma_sizes(s, at[f]);
}

/// An image is in bounds if the decoder gives up at the segment where the walk ends: at
/// the end of the image, at a segment that it does not know, at one that is cut short,
/// at a second frame, at a frame that lacks something, or at a scan without a frame.
pub proof fn refused_images_in_bounds(s: Seq<u8>, at: Seq<int>, f: int)
    requires
        0 <= f,
        walk(s, at, f),
        ({
            let p = at.last();
            let m = s[p + 1];
            ||| m == 0xd9 || m == 0xcc || m == 0xdc
            ||| segment_len(s, p) < 2
            ||| segment_left(s, p) > s.len()
            ||| 0xc0 <= m <= 0xc2 && (f < at.len() - 1 || !frame_stands(s, p))
            ||| m == 0xda && f >= at.len() - 1
        }),
    ensures
        jpeg_in_bounds(s),
{
    let last = (at.len() - 1) as nat;
    lemma_walk(s, at, f, last);
    lemma_frame_after(s, at, f, last);
}

/// Bytes that are no longer than a 32-bit number can tell are in bounds unless they start
/// as an image does, and longer ones are not.
pub proof fn other_bytes_in_bounds(s: Seq<u8>)
    ensures
        s.len() > 2147483647 ==> !jpeg_in_bounds(s),
        s.len() <= 2147483647 && (s.len() < 2 || s[0] != 255 || s[1] != 216) ==> jpeg_in_bounds(s),
{
}

/// So are images in which no segment stands.
pub proof fn empty_images_in_bounds(s: Seq<u8>)
    requires
        2 <= s.len() <= 2147483647,
        no_segment(s, 2, s.len() - 3),
    ensures
        jpeg_in_bounds(s),
{
    lemma_nothing(s, 2, empty_header());
}

/// So are images that end before a scan.
pub proof fn images_without_scan_in_bounds(s: Seq<u8>, at: Seq<int>, f: int)
    requires
        0 <= f,
        walk(s, at, f),
        s[at.last() + 1] != 0xda,
        no_segment(s, segment_left(s, at.last()), s.len() - 3),
    ensures
        jpeg_in_bounds(s),
{
    let last = (at.len() - 1) as nat;
    let p = at.last();
    lemma_walk(s, at, f, last);
    if segment_len(s, p) >= 2 {
        lemma_nothing(s, segment_left(s, p), after_segment(s, p, header_after(s, at, last)));
    }
}

proof fn lemma_nothing(s: Seq<u8>, p: int, h: JpegHeader)
    requires
        2 <= p,
        no_segment(s, p, s.len() - 3),
    ensures
        segments_in_bounds(s, p, h),
    decreases s.len() - p,
{
    if p + 4 <= s.len() {
        assert(!(s[p] == 0xff && 0 < s[p + 1] < 0xff));
        lemma_nothing(s, p + 1, h);
    }
}

} // verus!
