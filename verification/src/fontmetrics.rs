//! Minimal sfnt (TTF / OTF / TTC) line-metrics reader, used to align fallback fonts (e.g. a CJK
//! system font) to the primary face's baseline.
//!
//! Metric selection mirrors skrifa: OS/2 typo metrics when `USE_TYPO_METRICS` is set, else
//! `hhea` (when its ascent or descent is non-zero), else OS/2 win metrics. Values are returned
//! in font units together with the face's units-per-em; dividing by it gives em units.

use vstd::prelude::*;

verus! {

/// Big-endian `u16` at byte offset `o`, if the two bytes are there.
pub open spec fn be_u16(d: Seq<u8>, o: int) -> Option<u16> {
    if 0 <= o && o + 2 <= d.len() {
        Some((d[o] * 256 + d[o + 1]) as u16)
    } else {
        None
    }
}

/// Big-endian two's-complement `i16` at byte offset `o`.
pub open spec fn be_i16(d: Seq<u8>, o: int) -> Option<int> {
    match be_u16(d, o) {
        Some(v) => Some(
            if v >= 32768 {
                v - 65536
            } else {
                v as int
            },
        ),
        None => None,
    }
}

/// Big-endian `u32` at byte offset `o`.
pub open spec fn be_u32(d: Seq<u8>, o: int) -> Option<u32> {
    if 0 <= o && o + 4 <= d.len() {
        Some((d[o] * 16777216 + d[o + 1] * 65536 + d[o + 2] * 256 + d[o + 3]) as u32)
    } else {
        None
    }
}

pub fn u16_at(d: &[u8], o: usize) -> (r: Option<u16>)
    ensures
        r == be_u16(d@, o as int),
{
    if o <= d.len() && d.len() - o >= 2 {
        Some((d[o] as u16) * 256 + (d[o + 1] as u16))
    } else {
        None
    }
}

pub fn i16_at(d: &[u8], o: usize) -> (r: Option<i16>)
    ensures
        match r {
            Some(v) => be_i16(d@, o as int) == Some(v as int),
            None => be_i16(d@, o as int) is None,
        },
{
    match u16_at(d, o) {
        Some(v) => {
            if v >= 32768 {
                Some(((v as i32) - 65536) as i16)
            } else {
                Some(v as i16)
            }
        },
        None => None,
    }
}

pub fn u32_at(d: &[u8], o: usize) -> (r: Option<u32>)
    ensures
        r == be_u32(d@, o as int),
{
    if o <= d.len() && d.len() - o >= 4 {
        Some((d[o] as u32) * 16777216 + (d[o + 1] as u32) * 65536 + (d[o + 2] as u32) * 256 + (d[o
            + 3] as u32))
    } else {
        None
    }
}

/// `o + k`, or `None` when it does not fit in a `usize` (then it is past the end of any slice).
fn offset(o: usize, k: usize) -> (r: Option<usize>)
    ensures
        match r {
            Some(v) => v == o + k,
            None => o + k > usize::MAX,
        },
{
    if o <= usize::MAX - k {
        Some(o + k)
    } else {
        None
    }
}

fn u16_at_off(d: &[u8], o: usize, k: usize) -> (r: Option<u16>)
    ensures
        r == be_u16(d@, o + k),
{
    let n = d.len();
    match offset(o, k) {
        Some(p) => u16_at(d, p),
        None => None,
    }
}

fn i16_at_off(d: &[u8], o: usize, k: usize) -> (r: Option<i32>)
    ensures
        match r {
            Some(v) => be_i16(d@, o + k) == Some(v as int),
            None => be_i16(d@, o + k) is None,
        },
{
    match u16_at_off(d, o, k) {
        Some(v) => {
            if v >= 32768 {
                Some((v as i32) - 65536)
            } else {
                Some(v as i32)
            }
        },
        None => None,
    }
}

fn u32_at_off(d: &[u8], o: usize, k: usize) -> (r: Option<u32>)
    ensures
        r == be_u32(d@, o + k),
{
    let n = d.len();
    match offset(o, k) {
        Some(p) => u32_at(d, p),
        None => None,
    }
}

/// Line metrics in font units: ascent, descent (negative, as in the tables), line gap, and the
/// face's units per em (never 0).
#[derive(Clone, Copy, Debug, PartialEq, Eq)]
pub struct UnitMetrics {
    pub ascent: i32,
    pub descent: i32,
    pub line_gap: i32,
    pub upem: u16,
}

/// Metrics as mathematical integers.
pub struct MetricsSpec {
    pub ascent: int,
    pub descent: int,
    pub line_gap: int,
}

pub open spec fn unit_view(m: UnitMetrics) -> (MetricsSpec, u16) {
    (MetricsSpec { ascent: m.ascent as int, descent: m.descent as int, line_gap: m.line_gap as int }, m.upem)
}

/// The first table record, from record `i` on, whose tag is `tag` and whose offset and length
/// fields can be read: `(offset, length)`.
pub open spec fn find_table(d: Seq<u8>, off: int, num: int, tag: Seq<u8>, i: int) -> Option<(u32, u32)>
    decreases num - i,
{
    if i >= num {
        None
    } else {
        let rec = off + 12 + i * 16;
        if rec + 4 <= d.len() && d.subrange(rec, rec + 4) == tag && be_u32(d, rec + 8) is Some
            && be_u32(d, rec + 12) is Some {
            Some((be_u32(d, rec + 8).unwrap(), be_u32(d, rec + 12).unwrap()))
        } else {
            find_table(d, off, num, tag, i + 1)
        }
    }
}

/// Offset of face `index`'s table directory: 0 for a plain font, from the `ttcf` header for a
/// collection (`None` when the index is out of range or the header is short).
pub open spec fn face_offset(d: Seq<u8>, index: u32) -> Option<int> {
    if d.len() >= 4 && d.subrange(0, 4) == seq![0x74u8, 0x74, 0x63, 0x66] {
        match be_u32(d, 8) {
            None => None,
            Some(n) => if index >= n {
                None
            } else {
                match be_u32(d, 12 + 4 * index) {
                    Some(o) => Some(o as int),
                    None => None,
                }
            },
        }
    } else {
        Some(0)
    }
}

/// `hhea` ascent / descent / line gap of the table at `o`.
pub open spec fn hhea_at(d: Seq<u8>, o: int) -> Option<MetricsSpec> {
    match (be_i16(d, o + 4), be_i16(d, o + 6), be_i16(d, o + 8)) {
        (Some(a), Some(de), Some(g)) => Some(MetricsSpec { ascent: a, descent: de, line_gap: g }),
        _ => None,
    }
}

/// OS/2 of the table at `o` with length `len`: the `USE_TYPO_METRICS` flag, the typo metrics
/// and the win metrics (win descent negated, line gap 0). `None` for a table shorter than 78
/// bytes.
pub open spec fn os2_at(d: Seq<u8>, o: int, len: int) -> Option<(bool, MetricsSpec, MetricsSpec)> {
    if len < 78 {
        None
    } else {
        match (
            be_u16(d, o + 62),
            be_i16(d, o + 68),
            be_i16(d, o + 70),
            be_i16(d, o + 72),
            be_u16(d, o + 74),
            be_u16(d, o + 76),
        ) {
            (Some(sel), Some(ta), Some(td), Some(tg), Some(wa), Some(wd)) => Some(
                (
                    (sel & 128) != 0,
                    MetricsSpec { ascent: ta, descent: td, line_gap: tg },
                    MetricsSpec { ascent: wa as int, descent: -(wd as int), line_gap: 0 },
                ),
            ),
            _ => None,
        }
    }
}

pub open spec fn tag_head() -> Seq<u8> {
    seq![0x68u8, 0x65, 0x61, 0x64]
}

pub open spec fn tag_hhea() -> Seq<u8> {
    seq![0x68u8, 0x68, 0x65, 0x61]
}

pub open spec fn tag_os2() -> Seq<u8> {
    seq![0x4fu8, 0x53, 0x2f, 0x32]
}

/// Line metrics in font units, with the units per em, of the face whose table directory
/// starts at byte `off`.
pub open spec fn directory_metrics(d: Seq<u8>, off: int) -> Option<(MetricsSpec, u16)> {
    match be_u16(d, off + 4) {
            None => None,
            Some(num) => match find_table(d, off, num as int, tag_head(), 0) {
                None => None,
                Some((head, _)) => match be_u16(d, head + 18) {
                    None => None,
                    Some(upem) => if upem == 0 {
                        None
                    } else {
                        let hhea = match find_table(d, off, num as int, tag_hhea(), 0) {
                            Some((o, _)) => hhea_at(d, o as int),
                            None => None,
                        };
                        let os2 = match find_table(d, off, num as int, tag_os2(), 0) {
                            Some((o, len)) => os2_at(d, o as int, len as int),
                            None => None,
                        };
                        let chosen = match (os2, hhea) {
                            (Some((true, typo, _)), _) => Some(typo),
                            (_, Some(h)) if h.ascent != 0 || h.descent != 0 => Some(h),
                            (Some((_, _, win)), _) => Some(win),
                            (None, h) => h,
                        };
                        match chosen {
                            Some(m) => Some((m, upem)),
                            None => None,
                        }
                    },
                },
            },
    }
}

/// Line metrics of face `index` (0 for plain .ttf/.otf) in font units, with the units per em.
pub open spec fn line_metrics_spec(d: Seq<u8>, index: u32) -> Option<(MetricsSpec, u16)> {
    match face_offset(d, index) {
        None => None,
        Some(off) => directory_metrics(d, off),
    }
}

fn tag_matches(d: &[u8], rec: usize, tag: &[u8; 4]) -> (r: bool)
    requires
        rec + 4 <= d.len(),
    ensures
        r == (d@.subrange(rec as int, rec + 4) == tag@),
{
    let r = d[rec] == tag[0] && d[rec + 1] == tag[1] && d[rec + 2] == tag[2] && d[rec + 3] == tag[3];
    proof {
        if r {
            assert(d@.subrange(rec as int, rec + 4) =~= tag@);
        } else {
            assert(!(d@.subrange(rec as int, rec + 4) =~= tag@));
        }
    }
    r
}

fn find_table_exec(d: &[u8], off: usize, num: u16, tag: &[u8; 4]) -> (r: Option<(u32, u32)>)
    ensures
        r == find_table(d@, off as int, num as int, tag@, 0),
{
    let n = d.len();
    let mut i: usize = 0;
    while i < num as usize
        invariant
            n == d@.len(),
            i <= num,
            find_table(d@, off as int, num as int, tag@, 0) == find_table(
                d@,
                off as int,
                num as int,
                tag@,
                i as int,
            ),
        decreases num - i,
    {
        // rec = off + 12 + i * 16, computed without overflow
        let found = match offset(off, 12) {
            None => None,
            Some(a) => match offset(a, i * 16) {
                None => None,
                Some(rec) => {
                    if rec <= d.len() && d.len() - rec >= 4 && tag_matches(d, rec, tag) {
                        match (u32_at_off(d, rec, 8), u32_at_off(d, rec, 12)) {
                            (Some(o), Some(len)) => Some((o, len)),
                            _ => None,
                        }
                    } else {
                        None
                    }
                },
            },
        };
        proof {
            let rec = off + 12 + i * 16;
            if found.is_some() {
                assert(found == find_table(d@, off as int, num as int, tag@, i as int));
            } else {
                assert(find_table(d@, off as int, num as int, tag@, i as int) == find_table(
                    d@,
                    off as int,
                    num as int,
                    tag@,
                    i + 1,
                ));
            }
        }
        if found.is_some() {
            return found;
        }
        i = i + 1;
    }
    None
}

fn face_offset_exec(d: &[u8], index: u32) -> (r: Option<usize>)
    ensures
        match r {
            Some(v) => face_offset(d@, index) == Some(v as int),
            None => face_offset(d@, index) is None,
        },
{
    if d.len() >= 4 && tag_matches(d, 0, &[0x74, 0x74, 0x63, 0x66]) {
        let n = match u32_at(d, 8) {
            Some(n) => n,
            None => return None,
        };
        if index >= n {
            return None;
        }
        let k: u64 = 12 + 4 * (index as u64);
        if k > usize::MAX as u64 {
            return None;
        }
        match u32_at(d, k as usize) {
            Some(o) => {
                if o as u64 > usize::MAX as u64 {
                    // an offset past the address space lies past the end of any slice
                    return None;
                }
                Some(o as usize)
            },
            None => None,
        }
    } else {
        Some(0)
    }
}

fn hhea_exec(d: &[u8], o: usize) -> (r: Option<(i32, i32, i32)>)
    ensures
        match r {
            Some((a, de, g)) => hhea_at(d@, o as int) == Some(
                MetricsSpec { ascent: a as int, descent: de as int, line_gap: g as int },
            ),
            None => hhea_at(d@, o as int) is None,
        },
{
    match (i16_at_off(d, o, 4), i16_at_off(d, o, 6), i16_at_off(d, o, 8)) {
        (Some(a), Some(de), Some(g)) => Some((a, de, g)),
        _ => None,
    }
}

fn os2_exec(d: &[u8], o: usize, len: u32) -> (r: Option<(bool, (i32, i32, i32), (i32, i32, i32))>)
    ensures
        match r {
            Some((u, t, w)) => os2_at(d@, o as int, len as int) == Some(
                (
                    u,
                    MetricsSpec { ascent: t.0 as int, descent: t.1 as int, line_gap: t.2 as int },
                    MetricsSpec { ascent: w.0 as int, descent: w.1 as int, line_gap: w.2 as int },
                ),
            ),
            None => os2_at(d@, o as int, len as int) is None,
        },
{
    if len < 78 {
        return None;
    }
    match (
        u16_at_off(d, o, 62),
        i16_at_off(d, o, 68),
        i16_at_off(d, o, 70),
        i16_at_off(d, o, 72),
        u16_at_off(d, o, 74),
        u16_at_off(d, o, 76),
    ) {
        (Some(sel), Some(ta), Some(td), Some(tg), Some(wa), Some(wd)) => Some(
            ((sel & 128) != 0, (ta, td, tg), (wa as i32, -(wd as i32), 0)),
        ),
        _ => None,
    }
}

/// Read the line metrics of face `index` (0 for plain .ttf/.otf) from raw font bytes, in font
/// units with the face's units per em.
pub fn line_metrics_units(data: &[u8], index: u32) -> (r: Option<UnitMetrics>)
    ensures
        match r {
            Some(m) => line_metrics_spec(data@, index) == Some(unit_view(m)),
            None => line_metrics_spec(data@, index) is None,
        },
{
    let off = match face_offset_exec(data, index) {
        Some(o) => o,
        None => return None,
    };
    let num = match u16_at_off(data, off, 4) {
        Some(n) => n,
        None => return None,
    };
    let head = match find_table_exec(data, off, num, &[0x68, 0x65, 0x61, 0x64]) {
        Some((h, _)) => h,
        None => return None,
    };
    if head as u64 > usize::MAX as u64 {
        proof {
            assert(be_u16(data@, head + 18) is None);
        }
        return None;
    }
    let upem = match u16_at_off(data, head as usize, 18) {
        Some(u) => u,
        None => return None,
    };
    if upem == 0 {
        return None;
    }
    let n = data.len();
    let hhea = match find_table_exec(data, off, num, &[0x68, 0x68, 0x65, 0x61]) {
        Some((o, _)) => {
            if o as u64 > usize::MAX as u64 {
                proof {
                    assert(be_i16(data@, o + 4) is None);
                }
                None
            } else {
                hhea_exec(data, o as usize)
            }
        },
        None => None,
    };
    let os2 = match find_table_exec(data, off, num, &[0x4f, 0x53, 0x2f, 0x32]) {
        Some((o, len)) => {
            if o as u64 > usize::MAX as u64 {
                proof {
                    assert(be_u16(data@, o + 62) is None);
                }
                None
            } else {
                os2_exec(data, o as usize, len)
            }
        },
        None => None,
    };
    let chosen: Option<(i32, i32, i32)> = match (os2, hhea) {
        (Some((true, typo, _)), _) => Some(typo),
        (_, Some(h)) if h.0 != 0 || h.1 != 0 => Some(h),
        (Some((_, _, win)), _) => Some(win),
        (None, h) => h,
    };
    match chosen {
        Some((a, de, g)) => Some(UnitMetrics { ascent: a, descent: de, line_gap: g, upem }),
        None => None,
    }
}

/// `ttcf`: a font collection.
pub open spec fn is_collection(d: Seq<u8>) -> bool {
    d.len() >= 4 && d[0] == 0x74 && d[1] == 0x74 && d[2] == 0x63 && d[3] == 0x66
}

/// The big-endian 32-bit number in bytes `o .. o + 4`.
pub open spec fn word_at(d: Seq<u8>, o: int) -> int {
    d[o] * 16777216 + d[o + 1] * 65536 + d[o + 2] * 256 + d[o + 3]
}

/// Which face is read: in a collection, face `i` (below the face count in bytes 8..12) is the
/// one whose table directory the `i`-th entry of the offset table (bytes `12 + 4 i ..`) points
/// at; a plain font has one directory, at the start, whatever the index; an index at or past
/// the face count reads nothing.
pub proof fn law_faces_follow_the_offset_table(d: Seq<u8>, i: u32)
    ensures
        is_collection(d) && d.len() >= 12 + 4 * i + 4 && i < word_at(d, 8)
            ==> line_metrics_spec(d, i) == directory_metrics(d, word_at(d, 12 + 4 * i)),
        is_collection(d) && d.len() >= 12 && i >= word_at(d, 8) ==> line_metrics_spec(d, i) is None,
        !is_collection(d) ==> line_metrics_spec(d, i) == directory_metrics(d, 0),
{
    if d.len() >= 4 {
        if is_collection(d) {
            assert(d.subrange(0, 4) =~= seq![0x74u8, 0x74, 0x63, 0x66]);
        } else {
            assert(d.subrange(0, 4) != seq![0x74u8, 0x74, 0x63, 0x66]) by {
                if d.subrange(0, 4) == seq![0x74u8, 0x74, 0x63, 0x66] {
                    assert(d.subrange(0, 4)[0] == d[0] && d.subrange(0, 4)[1] == d[1] && d.subrange(0, 4)[2] == d[2]
                        && d.subrange(0, 4)[3] == d[3]);
                }
            }
        }
    }
    if is_collection(d) && d.len() >= 12 {
        assert(0 <= d[8] < 256 && 0 <= d[9] < 256 && 0 <= d[10] < 256 && 0 <= d[11] < 256);
        assert(word_at(d, 8) <= u32::MAX) by (nonlinear_arith)
            requires
                0 <= d[8] < 256,
                0 <= d[9] < 256,
                0 <= d[10] < 256,
                0 <= d[11] < 256,
        ;
        assert(word_at(d, 8) >= 0) by (nonlinear_arith)
            requires
                0 <= d[8],
                0 <= d[9],
                0 <= d[10],
                0 <= d[11],
        ;
        assert(be_u32(d, 8) == Some(word_at(d, 8) as u32));
        if d.len() >= 12 + 4 * i + 4 && i < word_at(d, 8) {
            let o = 12 + 4 * i;
            assert(0 <= d[o] < 256 && 0 <= d[o + 1] < 256 && 0 <= d[o + 2] < 256 && 0 <= d[o + 3] < 256);
            assert(0 <= word_at(d, o) <= u32::MAX) by (nonlinear_arith)
                requires
                    0 <= d[o] < 256,
                    0 <= d[o + 1] < 256,
                    0 <= d[o + 2] < 256,
                    0 <= d[o + 3] < 256,
            ;
            assert(be_u32(d, o) == Some(word_at(d, o) as u32));
        }
    }
}

} // verus!
