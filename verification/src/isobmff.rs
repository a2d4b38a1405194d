//! ISOBMFF box walking and `iloc` extent relocation.
//!
//! A box is a 32-bit big-endian size (header included), a four-byte type, and
//! its payload. The walkers here stop at the first box whose size is below the
//! 8-byte header or that does not fit in the searched range.

use crate::bytes::{
    be_bytes, be_u32_at, be_uint, lemma_be_bytes_of_uint, lemma_be_roundtrip_exact, lemma_be_uint_bound,
    lemma_pow256_values, overwrite, pow256, push_all, read_be, read_u32_be, write_be,
};
use vstd::prelude::*;

verus! {

/// The four type bytes of the box at `pos` equal `typ`.
pub open spec fn box_type_is(s: Seq<u8>, pos: int, typ: Seq<u8>) -> bool {
    s.subrange(pos + 4, pos + 8) == typ
}

/// The end of the searched range, clamped to the buffer.
pub open spec fn scan_limit(s: Seq<u8>, end: int) -> int {
    if end < s.len() {
        end
    } else {
        s.len() as int
    }
}

/// Walking the boxes that start at `pos` and end by `end`: the offset of the
/// first box of type `typ`, or `None` when the walk reaches the end of the range,
/// or a box that is shorter than its header or overruns the range, first.
pub open spec fn box_scan(s: Seq<u8>, pos: int, end: int, typ: Seq<u8>) -> Option<int>
    decreases s.len() - pos,
{
    if pos < 0 || pos + 8 > scan_limit(s, end) {
        None
    } else {
        let size = be_u32_at(s, pos);
        if size < 8 || pos + size > scan_limit(s, end) {
            None
        } else if box_type_is(s, pos, typ) {
            Some(pos)
        } else {
            box_scan(s, pos + size, end, typ)
        }
    }
}

/// A well-formed box header at `pos`: its whole extent lies inside `s`.
pub open spec fn box_fits(s: Seq<u8>, pos: int) -> bool {
    &&& 0 <= pos
    &&& pos + 8 <= s.len()
    &&& 8 <= be_u32_at(s, pos)
    &&& pos + be_u32_at(s, pos) <= s.len()
}

/// A box found by the walk starts inside the range and ends inside it.
pub proof fn lemma_box_scan_found(s: Seq<u8>, pos: int, end: int, typ: Seq<u8>)
    ensures
        box_scan(s, pos, end, typ) matches Some(p) ==> {
            &&& pos <= p
            &&& box_fits(s, p)
            &&& p + be_u32_at(s, p) <= scan_limit(s, end)
            &&& box_type_is(s, p, typ)
        },
    decreases s.len() - pos,
{
    if !(pos < 0 || pos + 8 > scan_limit(s, end)) {
        let size = be_u32_at(s, pos);
        if !(size < 8 || pos + size > scan_limit(s, end)) && !box_type_is(s, pos, typ) {
            lemma_box_scan_found(s, pos + size, end, typ);
        }
    }
}

/// Two walks over the same boxes for different types: the first box of type
/// `t1` ends before the first of type `t2` starts, or the walk for `t1` passes
/// over the box of type `t2`.
pub proof fn lemma_box_scan_order(s: Seq<u8>, pos: int, end: int, t1: Seq<u8>, t2: Seq<u8>)
    requires
        t1 != t2,
        box_scan(s, pos, end, t1) is Some,
        box_scan(s, pos, end, t2) is Some,
    ensures
        ({
            let a = box_scan(s, pos, end, t1)->Some_0;
            let b = box_scan(s, pos, end, t2)->Some_0;
            ||| a + be_u32_at(s, a) <= b
            ||| b < a && box_scan(s, pos, end, t1) == box_scan(s, b, end, t1)
        }),
    decreases s.len() - pos,
{
    let size = be_u32_at(s, pos);
    if box_type_is(s, pos, t1) {
        assert(!box_type_is(s, pos, t2));
        lemma_box_scan_found(s, pos + size, end, t2);
    } else if box_type_is(s, pos, t2) {
        lemma_box_scan_found(s, pos + size, end, t1);
    } else {
        lemma_box_scan_order(s, pos + size, end, t1, t2);
    }
}

/// A walk finds the same box in a buffer that agrees up to that box's header,
/// when the box fits in the new range.
pub proof fn lemma_box_scan_same_prefix(s: Seq<u8>, t: Seq<u8>, pos: int, end: int, end2: int, typ: Seq<u8>)
    requires
        0 <= pos,
        box_scan(s, pos, end, typ) matches Some(a) && (forall|y: int| pos <= y < a + 8 ==> t[y] == s[y])
            && a + be_u32_at(s, a) <= scan_limit(t, end2),
    ensures
        box_scan(t, pos, end2, typ) == box_scan(s, pos, end, typ),
    decreases s.len() - pos,
{
    let a = box_scan(s, pos, end, typ)->Some_0;
    let size = be_u32_at(s, pos);
    lemma_box_scan_found(s, pos, end, typ);
    assert(t.subrange(pos, pos + 4) =~= s.subrange(pos, pos + 4));
    assert(t.subrange(pos + 4, pos + 8) =~= s.subrange(pos + 4, pos + 8));
    if pos != a {
        lemma_box_scan_found(s, pos + size, end, typ);
        lemma_box_scan_same_prefix(s, t, pos + size, end, end2, typ);
    }
}

/// A walk that in `s` passes the box at `b` (found from `pos` for another type)
/// passes it in a buffer that agrees with `s` before `b`.
pub proof fn lemma_box_scan_pass_prefix(
    s: Seq<u8>,
    t: Seq<u8>,
    pos: int,
    end: int,
    end2: int,
    typ: Seq<u8>,
    other: Seq<u8>,
)
    requires
        0 <= pos,
        typ != other,
        box_scan(s, pos, end, other) matches Some(b) && box_scan(s, pos, end, typ) == box_scan(
            s,
            b,
            end,
            typ,
        ) && (forall|y: int| pos <= y < b ==> t[y] == s[y]) && b <= scan_limit(t, end2),
    ensures
        box_scan(t, pos, end2, typ) == box_scan(t, box_scan(s, pos, end, other)->Some_0, end2, typ),
    decreases s.len() - pos,
{
    let b = box_scan(s, pos, end, other)->Some_0;
    if pos != b {
        let size = be_u32_at(s, pos);
        lemma_box_scan_found(s, pos + size, end, other);
        lemma_box_scan_found(s, b, end, typ);
        assert(!box_type_is(s, pos, typ));
        assert(t.subrange(pos, pos + 4) =~= s.subrange(pos, pos + 4));
        assert(t.subrange(pos + 4, pos + 8) =~= s.subrange(pos + 4, pos + 8));
        lemma_box_scan_pass_prefix(s, t, pos + size, end, end2, typ, other);
    }
}

/// A walk over bytes moved by `d` finds the same boxes, moved by `d`.
pub proof fn lemma_box_scan_translate(s: Seq<u8>, t: Seq<u8>, pos: int, end: int, d: int, typ: Seq<u8>)
    requires
        0 <= pos,
        0 <= pos + d,
        end <= s.len(),
        end + d <= t.len(),
        forall|z: int| pos <= z < end ==> t[z + d] == s[z],
    ensures
        box_scan(t, pos + d, end + d, typ) == (match box_scan(s, pos, end, typ) {
            Some(a) => Some(a + d),
            None => None,
        }),
    decreases s.len() - pos,
{
    if pos + 8 <= end {
        assert(t.subrange(pos + d, pos + d + 4) =~= s.subrange(pos, pos + 4));
        assert(t.subrange(pos + d + 4, pos + d + 8) =~= s.subrange(pos + 4, pos + 8));
        let size = be_u32_at(s, pos);
        if !(size < 8 || pos + size > end) && !box_type_is(s, pos, typ) {
            lemma_box_scan_translate(s, t, pos + size, end, d, typ);
            assert(pos + size + d == pos + d + size);
        }
    }
}

/// Walks over equal bytes find the same box.
pub proof fn lemma_box_scan_same_bytes(s: Seq<u8>, t: Seq<u8>, pos: int, end: int, typ: Seq<u8>)
    requires
        0 <= pos,
        end <= s.len(),
        end <= t.len(),
        forall|y: int| pos <= y < end ==> t[y] == s[y],
    ensures
        box_scan(t, pos, end, typ) == box_scan(s, pos, end, typ),
    decreases s.len() - pos,
{
    if pos + 8 <= end {
        assert(t.subrange(pos, pos + 4) =~= s.subrange(pos, pos + 4));
        assert(t.subrange(pos + 4, pos + 8) =~= s.subrange(pos + 4, pos + 8));
        let size = be_u32_at(s, pos);
        if !(size < 8 || pos + size > end) && !box_type_is(s, pos, typ) {
            lemma_box_scan_same_bytes(s, t, pos + size, end, typ);
        }
    }
}

/// A walk still finds a box whose size changed, when the bytes before it and
/// its type are kept and its new size fits the new range.
pub proof fn lemma_box_scan_resized(s: Seq<u8>, t: Seq<u8>, pos: int, end: int, end2: int, typ: Seq<u8>)
    requires
        0 <= pos,
        box_scan(s, pos, end, typ) matches Some(a) && (forall|y: int| pos <= y < a ==> t[y] == s[y])
            && t.subrange(a + 4, a + 8) == s.subrange(a + 4, a + 8) && 8 <= be_u32_at(t, a) && a
            + be_u32_at(t, a) <= scan_limit(t, end2),
    ensures
        box_scan(t, pos, end2, typ) == box_scan(s, pos, end, typ),
    decreases s.len() - pos,
{
    let a = box_scan(s, pos, end, typ)->Some_0;
    lemma_box_scan_found(s, pos, end, typ);
    if pos != a {
        let size = be_u32_at(s, pos);
        lemma_box_scan_found(s, pos + size, end, typ);
        assert(t.subrange(pos, pos + 4) =~= s.subrange(pos, pos + 4));
        assert(t.subrange(pos + 4, pos + 8) =~= s.subrange(pos + 4, pos + 8));
        lemma_box_scan_resized(s, t, pos + size, end, end2, typ);
    }
}

/// Changing bytes inside the body of a box on the walk (past its 8-byte
/// header) changes no walk over the same range.
pub proof fn lemma_box_scan_body_change(
    u: Seq<u8>,
    t: Seq<u8>,
    pos: int,
    end: int,
    a_typ: Seq<u8>,
    typ: Seq<u8>,
)
    requires
        0 <= pos,
        end <= u.len(),
        t.len() == u.len(),
        box_scan(u, pos, end, a_typ) matches Some(a) && forall|y: int|
            pos <= y < end && (y < a + 8 || y >= a + be_u32_at(u, a)) ==> t[y] == u[y],
    ensures
        box_scan(t, pos, end, typ) == box_scan(u, pos, end, typ),
    decreases u.len() - pos,
{
    let a = box_scan(u, pos, end, a_typ)->Some_0;
    lemma_box_scan_found(u, pos, end, a_typ);
    let size = be_u32_at(u, pos);
    assert(t.subrange(pos, pos + 4) =~= u.subrange(pos, pos + 4));
    assert(t.subrange(pos + 4, pos + 8) =~= u.subrange(pos + 4, pos + 8));
    if pos != a {
        lemma_box_scan_found(u, pos + size, end, a_typ);
        if !box_type_is(u, pos, typ) {
            lemma_box_scan_body_change(u, t, pos + size, end, a_typ, typ);
        }
    } else if !box_type_is(u, pos, typ) {
        lemma_box_scan_same_bytes(u, t, pos + size, end, typ);
    }
}

/// Finds the first box of type `typ` among the boxes that start at `start`
/// and end by `end` (clamped to the buffer).
pub fn find_box(data: &[u8], start: usize, end: usize, typ: [u8; 4]) -> (r: Option<usize>)
    ensures
        match r {
            Some(p) => box_scan(data@, start as int, end as int, typ@) == Some(p as int),
            None => box_scan(data@, start as int, end as int, typ@) is None,
        },
{
    let lim = if end < data.len() {
        end
    } else {
        data.len()
    };
    let mut pos = start;
    loop
        invariant
            lim == scan_limit(data@, end as int),
            lim <= data@.len(),
            box_scan(data@, start as int, end as int, typ@) == box_scan(
                data@,
                pos as int,
                end as int,
                typ@,
            ),
        decreases data@.len() - pos,
    {
        if lim < 8 || pos > lim - 8 {
            return None;
        }
        let size = read_u32_be(data, pos) as usize;
        if size < 8 || size > lim - pos {
            return None;
        }
        if data[pos + 4] == typ[0] && data[pos + 5] == typ[1] && data[pos + 6] == typ[2]
            && data[pos + 7] == typ[3] {
            assert(data@.subrange(pos + 4, pos + 8) =~= typ@);
            return Some(pos);
        }
        assert(!box_type_is(data@, pos as int, typ@)) by {
            if data@.subrange(pos + 4, pos + 8) == typ@ {
                assert(data@.subrange(pos + 4, pos + 8)[0] == data@[pos + 4]);
                assert(data@.subrange(pos + 4, pos + 8)[1] == data@[pos + 5]);
                assert(data@.subrange(pos + 4, pos + 8)[2] == data@[pos + 6]);
                assert(data@.subrange(pos + 4, pos + 8)[3] == data@[pos + 7]);
            }
        }
        pos = pos + size;
    }
}


/// Why an `iloc` box could not be relocated.
#[derive(Debug, Clone, Copy, PartialEq, Eq)]
pub enum IlocError {
    /// A field lies past the end of the box.
    Truncated,
    /// The box version is not 0, 1 or 2.
    UnsupportedVersion,
    /// An offset, length, base-offset or index field is not 0, 4 or 8 bytes wide.
    UnsupportedFieldSize,
    /// A relocated offset would be negative or would not fit its field.
    OffsetOutOfRange,
}

/// The field widths declared in an `iloc` header (ISO/IEC 14496-12, 8.11.3).
#[derive(Debug, Clone, Copy, PartialEq, Eq)]
pub struct IlocLayout {
    pub version: u8,
    pub offset_size: u8,
    pub length_size: u8,
    pub base_offset_size: u8,
    /// Zero for version 0, whose nibble is reserved.
    pub index_size: u8,
}

/// The layout declared by the `iloc` box at `p`.
pub open spec fn iloc_layout(s: Seq<u8>, p: int) -> IlocLayout {
    IlocLayout {
        version: s[p + 8],
        offset_size: s[p + 12] / 16,
        length_size: s[p + 12] % 16,
        base_offset_size: s[p + 13] / 16,
        index_size: if s[p + 8] >= 1 {
            s[p + 13] % 16
        } else {
            0
        },
    }
}

pub open spec fn field_size_ok(n: u8) -> bool {
    n == 0 || n == 4 || n == 8
}

/// Width of an item ID.
pub open spec fn item_id_width(l: IlocLayout) -> int {
    if l.version == 2 {
        4
    } else {
        2
    }
}

/// Width of the reserved/construction-method word (versions 1 and 2).
pub open spec fn method_width(l: IlocLayout) -> int {
    if l.version >= 1 {
        2
    } else {
        0
    }
}

/// Bytes from an item's start to its first extent: ID, method word,
/// data reference index, base offset, extent count.
pub open spec fn item_header_len(l: IlocLayout) -> int {
    item_id_width(l) + method_width(l) + 2 + l.base_offset_size + 2
}

/// Bytes per extent: index, offset, length.
pub open spec fn extent_len(l: IlocLayout) -> int {
    l.index_size + l.offset_size + l.length_size
}

/// The offset fields (position, width) of one item at `q` that locate data in
/// this file: for an item with construction method 0 and data reference 0, its
/// base offset when it has one, otherwise each extent's offset; nothing else.
pub open spec fn item_offset_fields(s: Seq<u8>, q: int, l: IlocLayout) -> Seq<(int, int)> {
    let method = if l.version >= 1 {
        s[q + item_id_width(l) + 1] % 16
    } else {
        0
    };
    let data_ref = be_uint(s.subrange(q + item_id_width(l) + method_width(l), q + item_id_width(l) + method_width(l) + 2));
    let extents = be_uint(s.subrange(q + item_header_len(l) - 2, q + item_header_len(l)));
    if method == 0 && data_ref == 0 {
        if l.base_offset_size > 0 {
            seq![(q + item_id_width(l) + method_width(l) + 2, l.base_offset_size as int)]
        } else if l.offset_size > 0 {
            Seq::new(
                extents,
                |j: int| (q + item_header_len(l) + j * extent_len(l) + l.index_size, l.offset_size as int),
            )
        } else {
            Seq::empty()
        }
    } else {
        Seq::empty()
    }
}

/// The end of the item at `q`.
pub open spec fn item_end(s: Seq<u8>, q: int, l: IlocLayout) -> int {
    q + item_header_len(l) + be_uint(s.subrange(q + item_header_len(l) - 2, q + item_header_len(l)))
        * extent_len(l)
}

/// The offset fields of the `n` items starting at `q`, each of which must end by `end`.
pub open spec fn iloc_items(s: Seq<u8>, q: int, end: int, l: IlocLayout, n: nat) -> Result<
    Seq<(int, int)>,
    IlocError,
>
    decreases n,
{
    if n == 0 {
        Ok(Seq::empty())
    } else if q + item_header_len(l) > end || item_end(s, q, l) > end {
        Err(IlocError::Truncated)
    } else {
        match iloc_items(s, item_end(s, q, l), end, l, (n - 1) as nat) {
            Ok(rest) => Ok(item_offset_fields(s, q, l) + rest),
            Err(e) => Err(e),
        }
    }
}

/// The file-offset fields of the `iloc` box at `p`, in box order.
pub open spec fn iloc_offset_fields(s: Seq<u8>, p: int) -> Result<Seq<(int, int)>, IlocError> {
    let end = p + be_u32_at(s, p);
    let l = iloc_layout(s, p);
    let count_width = if l.version == 2 {
        4int
    } else {
        2
    };
    if p + 14 > end {
        Err(IlocError::Truncated)
    } else if l.version > 2 {
        Err(IlocError::UnsupportedVersion)
    } else if !(field_size_ok(l.offset_size) && field_size_ok(l.length_size) && field_size_ok(
        l.base_offset_size,
    ) && field_size_ok(l.index_size)) {
        Err(IlocError::UnsupportedFieldSize)
    } else if p + 14 + count_width > end {
        Err(IlocError::Truncated)
    } else {
        iloc_items(
            s,
            p + 14 + count_width,
            end,
            l,
            be_uint(s.subrange(p + 14, p + 14 + count_width)),
        )
    }
}

/// Adds `delta` to each big-endian field in turn; `None` as soon as a result
/// is negative or does not fit its field.
pub open spec fn shift_fields(s: Seq<u8>, fields: Seq<(int, int)>, delta: int) -> Option<Seq<u8>>
    decreases fields.len(),
{
    if fields.len() == 0 {
        Some(s)
    } else {
        let (pos, w) = fields[0];
        let v = be_uint(s.subrange(pos, pos + w)) + delta;
        if 0 <= v < pow256(w as nat) {
            shift_fields(overwrite(s, pos, be_bytes(v as nat, w as nat)), fields.drop_first(), delta)
        } else {
            None
        }
    }
}

/// The buffer after moving every file offset of the `iloc` box at `p` by `delta` bytes.
pub open spec fn iloc_shifted(s: Seq<u8>, p: int, delta: int) -> Result<Seq<u8>, IlocError> {
    match iloc_offset_fields(s, p) {
        Err(e) => Err(e),
        Ok(fields) => match shift_fields(s, fields, delta) {
            Some(out) => Ok(out),
            None => Err(IlocError::OffsetOutOfRange),
        },
    }
}

pub open spec fn prepend_fields(a: Seq<(int, int)>, r: Result<Seq<(int, int)>, IlocError>) -> Result<
    Seq<(int, int)>,
    IlocError,
> {
    match r {
        Ok(x) => Ok(a + x),
        Err(e) => Err(e),
    }
}

pub open spec fn int_pairs(v: Seq<(usize, usize)>) -> Seq<(int, int)> {
    v.map_values(|t: (usize, usize)| (t.0 as int, t.1 as int))
}

/// Fields that lie inside `[lo, hi)` and are 4 or 8 bytes wide.
pub open spec fn fields_within(f: Seq<(int, int)>, lo: int, hi: int) -> bool {
    forall|k: int|
        0 <= k < f.len() ==> lo <= (#[trigger] f[k]).0 && f[k].0 + f[k].1 <= hi && (f[k].1 == 4
            || f[k].1 == 8)
}

/// Field sizes an `iloc` header may declare here.
pub open spec fn layout_ok(l: IlocLayout) -> bool {
    &&& l.version <= 2
    &&& field_size_ok(l.offset_size)
    &&& field_size_ok(l.length_size)
    &&& field_size_ok(l.base_offset_size)
    &&& field_size_ok(l.index_size)
}

/// Fields within a range lie within any range around it.
proof fn lemma_fields_within_widen(f: Seq<(int, int)>, lo: int, hi: int, lo2: int, hi2: int)
    requires
        fields_within(f, lo, hi),
        lo2 <= lo,
        hi <= hi2,
    ensures
        fields_within(f, lo2, hi2),
{
}

/// The offset fields of one item lie between its start and its end.
proof fn lemma_item_fields_within(s: Seq<u8>, q: int, l: IlocLayout)
    requires
        layout_ok(l),
    ensures
        fields_within(item_offset_fields(s, q, l), q, item_end(s, q, l)),
{
    let f = item_offset_fields(s, q, l);
    let h = item_header_len(l);
    let e = extent_len(l);
    let n = be_uint(s.subrange(q + h - 2, q + h));
    assert(n * e >= 0) by (nonlinear_arith)
        requires
            n >= 0,
            e >= 0,
    ;
    assert forall|k: int| 0 <= k < f.len() implies q <= (#[trigger] f[k]).0 && f[k].0 + f[k].1
        <= item_end(s, q, l) && (f[k].1 == 4 || f[k].1 == 8) by {
        if l.base_offset_size == 0 && l.offset_size > 0 {
            assert(0 <= k < n);
            assert(k * e + e <= n * e) by (nonlinear_arith)
                requires
                    0 <= k < n,
                    e >= 0,
            ;
            assert(k * e >= 0) by (nonlinear_arith)
                requires
                    0 <= k,
                    e >= 0,
            ;
        }
    }
}

/// The offset fields of a run of items lie within the run's range.
proof fn lemma_iloc_items_within(s: Seq<u8>, q: int, end: int, l: IlocLayout, n: nat)
    requires
        layout_ok(l),
    ensures
        iloc_items(s, q, end, l, n) matches Ok(f) ==> fields_within(f, q, end),
    decreases n,
{
    if n > 0 && !(q + item_header_len(l) > end || item_end(s, q, l) > end) {
        let qe = item_end(s, q, l);
        lemma_iloc_items_within(s, qe, end, l, (n - 1) as nat);
        lemma_item_fields_within(s, q, l);
        let h = item_header_len(l);
        assert(be_uint(s.subrange(q + h - 2, q + h)) * extent_len(l) >= 0) by (nonlinear_arith)
            requires
                extent_len(l) >= 0,
        ;
        if let Ok(rest) = iloc_items(s, qe, end, l, (n - 1) as nat) {
            let mine = item_offset_fields(s, q, l);
            let all = mine + rest;
            assert forall|k: int| 0 <= k < all.len() implies q <= (#[trigger] all[k]).0 && all[k].0
                + all[k].1 <= end && (all[k].1 == 4 || all[k].1 == 8) by {
                if k < mine.len() {
                    assert(all[k] == mine[k]);
                } else {
                    assert(all[k] == rest[k - mine.len()]);
                }
            }
        }
    }
}

/// The file-offset fields of an `iloc` box lie inside the box.
pub proof fn lemma_iloc_fields_within(s: Seq<u8>, p: int)
    ensures
        iloc_offset_fields(s, p) matches Ok(f) ==> fields_within(f, p, p + be_u32_at(s, p)),
{
    let l = iloc_layout(s, p);
    if l.version <= 2 && field_size_ok(l.offset_size) && field_size_ok(l.length_size)
        && field_size_ok(l.base_offset_size) && field_size_ok(l.index_size) {
        let w = if l.version == 2 {
            4int
        } else {
            2
        };
        lemma_iloc_items_within(
            s,
            p + 14 + w,
            p + be_u32_at(s, p),
            l,
            be_uint(s.subrange(p + 14, p + 14 + w)),
        );
    }
}

/// Shifting fields that lie in `[lo, hi)` keeps the length and every byte
/// outside that range.
proof fn lemma_shift_fields_frame(s: Seq<u8>, fields: Seq<(int, int)>, delta: int, lo: int, hi: int)
    requires
        fields_within(fields, lo, hi),
        0 <= lo,
        hi <= s.len(),
    ensures
        shift_fields(s, fields, delta) matches Some(out) ==> {
            &&& out.len() == s.len()
            &&& forall|q: int| 0 <= q < s.len() && !(lo <= q < hi) ==> out[q] == s[q]
        },
    decreases fields.len(),
{
    if fields.len() > 0 {
        let (pos, w) = fields[0];
        let v = be_uint(s.subrange(pos, pos + w)) + delta;
        if 0 <= v < pow256(w as nat) {
            let t = overwrite(s, pos, be_bytes(v as nat, w as nat));
            assert(fields.drop_first().len() == fields.len() - 1);
            assert forall|k: int| 0 <= k < fields.drop_first().len() implies lo <= (
            #[trigger] fields.drop_first()[k]).0 && fields.drop_first()[k].0 + fields.drop_first()[k].1
                <= hi && (fields.drop_first()[k].1 == 4 || fields.drop_first()[k].1 == 8) by {
                assert(fields.drop_first()[k] == fields[k + 1]);
            }
            assert(t.len() == s.len());
            assert forall|q: int| 0 <= q < s.len() && !(lo <= q < hi) implies t[q] == s[q] by {
                if q < pos {
                    assert(t[q] == s.subrange(0, pos)[q]);
                } else {
                    assert(q >= pos + w);
                    assert(t[q] == s.subrange(pos + w, s.len() as int)[q - pos - w]);
                }
            }
            lemma_shift_fields_frame(t, fields.drop_first(), delta, lo, hi);
        }
    }
}

/// Relocating the offsets of the `iloc` box at `p` keeps the buffer's length
/// and every byte outside that box.
pub proof fn lemma_iloc_shift_frame(s: Seq<u8>, p: int, delta: int)
    requires
        box_fits(s, p),
    ensures
        iloc_shifted(s, p, delta) matches Ok(out) ==> {
            &&& out.len() == s.len()
            &&& forall|q: int|
                0 <= q < s.len() && !(p <= q < p + be_u32_at(s, p)) ==> #[trigger] out[q] == s[q]
        },
{
    lemma_iloc_fields_within(s, p);
    if let Ok(f) = iloc_offset_fields(s, p) {
        lemma_shift_fields_frame(s, f, delta, p, p + be_u32_at(s, p));
    }
}

/// No field starts before the one listed ahead of it ends.
pub open spec fn fields_ordered(f: Seq<(int, int)>) -> bool {
    forall|i: int, j: int| #![trigger f[i], f[j]] 0 <= i < j < f.len() ==> f[i].0 + f[i].1 <= f[j].0
}

/// No field covers byte `x`.
pub open spec fn uncovered(f: Seq<(int, int)>, x: int) -> bool {
    forall|k: int| 0 <= k < f.len() ==> !((#[trigger] f[k]).0 <= x < f[k].0 + f[k].1)
}

/// The offset fields of one item come in order and leave its header bytes
/// (ID, method word, data reference, extent count) alone.
proof fn lemma_item_fields_shape(s: Seq<u8>, q: int, l: IlocLayout)
    requires
        layout_ok(l),
    ensures
        fields_ordered(item_offset_fields(s, q, l)),
        forall|k: int|
            0 <= k < item_offset_fields(s, q, l).len() ==> {
                let f = #[trigger] item_offset_fields(s, q, l)[k];
                &&& f.0 >= q + item_id_width(l) + method_width(l) + 2
                &&& (f.0 + f.1 <= q + item_header_len(l) - 2 || f.0 >= q + item_header_len(l))
            },
{
    let f = item_offset_fields(s, q, l);
    let e = extent_len(l);
    assert forall|i: int, j: int| 0 <= i < j < f.len() implies f[i].0 + f[i].1 <= #[trigger] f[j].0
        && #[trigger] f[i] == f[i] by {
        if l.base_offset_size == 0 && l.offset_size > 0 {
            assert(i * e + e <= j * e) by (nonlinear_arith)
                requires
                    0 <= i < j,
                    e >= 0,
            ;
        }
    }
    assert forall|k: int| 0 <= k < f.len() implies #[trigger] f[k].0 >= q + item_id_width(l) + method_width(l)
        + 2 && (f[k].0 + f[k].1 <= q + item_header_len(l) - 2 || f[k].0 >= q + item_header_len(l)) by {
        if l.base_offset_size == 0 && l.offset_size > 0 {
            assert(k * e >= 0) by (nonlinear_arith)
                requires
                    0 <= k,
                    e >= 0,
            ;
        }
    }
}

/// The offset fields of a run of items come in order.
proof fn lemma_iloc_items_ordered(s: Seq<u8>, q: int, end: int, l: IlocLayout, n: nat)
    requires
        layout_ok(l),
    ensures
        iloc_items(s, q, end, l, n) matches Ok(f) ==> fields_ordered(f),
    decreases n,
{
    if n > 0 && !(q + item_header_len(l) > end || item_end(s, q, l) > end) {
        let qe = item_end(s, q, l);
        lemma_iloc_items_ordered(s, qe, end, l, (n - 1) as nat);
        lemma_iloc_items_within(s, qe, end, l, (n - 1) as nat);
        lemma_item_fields_within(s, q, l);
        lemma_item_fields_shape(s, q, l);
        if let Ok(rest) = iloc_items(s, qe, end, l, (n - 1) as nat) {
            let mine = item_offset_fields(s, q, l);
            let all = mine + rest;
            assert forall|i: int, j: int| 0 <= i < j < all.len() implies all[i].0 + all[i].1
                <= #[trigger] all[j].0 && #[trigger] all[i] == all[i] by {
                if j < mine.len() {
                    assert(all[i] == mine[i] && all[j] == mine[j]);
                } else if i < mine.len() {
                    assert(all[i] == mine[i] && all[j] == rest[j - mine.len()]);
                } else {
                    assert(all[i] == rest[i - mine.len()] && all[j] == rest[j - mine.len()]);
                }
            }
        }
    }
}

/// Shifting fields changes only the bytes they cover.
proof fn lemma_shift_fields_covered(s: Seq<u8>, f: Seq<(int, int)>, delta: int)
    requires
        fields_within(f, 0, s.len() as int),
    ensures
        shift_fields(s, f, delta) matches Some(t) ==> {
            &&& t.len() == s.len()
            &&& forall|x: int| 0 <= x < s.len() && uncovered(f, x) ==> t[x] == s[x]
        },
    decreases f.len(),
{
    if f.len() > 0 {
        let (pos, w) = f[0];
        let v = be_uint(s.subrange(pos, pos + w)) + delta;
        if 0 <= v < pow256(w as nat) {
            let s1 = overwrite(s, pos, be_bytes(v as nat, w as nat));
            let rest = f.drop_first();
            assert forall|k: int| 0 <= k < rest.len() implies 0 <= (#[trigger] rest[k]).0 && rest[k].0
                + rest[k].1 <= s1.len() && (rest[k].1 == 4 || rest[k].1 == 8) by {
                assert(rest[k] == f[k + 1]);
            }
            lemma_shift_fields_covered(s1, rest, delta);
            if let Some(t) = shift_fields(s, f, delta) {
                assert forall|x: int| 0 <= x < s.len() && uncovered(f, x) implies t[x] == s[x] by {
                    assert forall|k: int| 0 <= k < rest.len() implies !((#[trigger] rest[k]).0 <= x
                        < rest[k].0 + rest[k].1) by {
                        assert(rest[k] == f[k + 1]);
                    }
                    assert(!(f[0].0 <= x < f[0].0 + f[0].1));
                    if x < pos {
                        assert(s1[x] == s.subrange(0, pos)[x]);
                    } else {
                        assert(s1[x] == s.subrange(pos + w, s.len() as int)[x - pos - w]);
                    }
                }
            }
        }
    }
}

/// Items read the same from two buffers that agree outside the items' offset fields.
proof fn lemma_iloc_items_congruent(s: Seq<u8>, t: Seq<u8>, q: int, end: int, l: IlocLayout, n: nat)
    requires
        layout_ok(l),
        0 <= q,
        end <= s.len(),
        t.len() == s.len(),
        iloc_items(s, q, end, l, n) matches Ok(f) && forall|x: int|
            q <= x < end && uncovered(f, x) ==> t[x] == s[x],
    ensures
        iloc_items(t, q, end, l, n) == iloc_items(s, q, end, l, n),
    decreases n,
{
    if n > 0 {
        let f = iloc_items(s, q, end, l, n)->Ok_0;
        let qe = item_end(s, q, l);
        let h = item_header_len(l);
        let a = q + item_id_width(l);
        let b = a + method_width(l);
        lemma_item_fields_shape(s, q, l);
        lemma_item_fields_within(s, q, l);
        lemma_iloc_items_within(s, qe, end, l, (n - 1) as nat);
        assert(be_uint(s.subrange(q + h - 2, q + h)) * extent_len(l) >= 0) by (nonlinear_arith)
            requires
                extent_len(l) >= 0,
        ;
        let mine = item_offset_fields(s, q, l);
        let rest = iloc_items(s, qe, end, l, (n - 1) as nat)->Ok_0;
        assert(f == mine + rest);
        // The header bytes of this item are not covered by any field.
        assert forall|x: int|
            (a + 1 == x && method_width(l) > 0) || (b <= x < b + 2) || (q + h - 2 <= x < q + h) implies t[x]
            == s[x] by {
            assert forall|k: int| 0 <= k < f.len() implies !((#[trigger] f[k]).0 <= x < f[k].0 + f[k].1) by {
                if k < mine.len() {
                    assert(f[k] == mine[k]);
                } else {
                    assert(f[k] == rest[k - mine.len()]);
                }
            }
        }
        if l.version >= 1 {
            assert(t[a + 1] == s[a + 1]);
        }
        assert(t.subrange(b, b + 2) =~= s.subrange(b, b + 2));
        assert(t.subrange(q + h - 2, q + h) =~= s.subrange(q + h - 2, q + h));
        assert(item_offset_fields(t, q, l) == mine);
        assert(item_end(t, q, l) == qe);
        assert forall|x: int| qe <= x < end && uncovered(rest, x) implies t[x] == s[x] by {
            assert forall|k: int| 0 <= k < f.len() implies !((#[trigger] f[k]).0 <= x < f[k].0 + f[k].1) by {
                if k < mine.len() {
                    assert(f[k] == mine[k]);
                } else {
                    assert(f[k] == rest[k - mine.len()]);
                }
            }
        }
        lemma_iloc_items_congruent(s, t, qe, end, l, (n - 1) as nat);
    }
}

/// An `iloc` box reads the same from two buffers that agree outside its offset fields.
proof fn lemma_iloc_offset_fields_congruent(s: Seq<u8>, t: Seq<u8>, p: int)
    requires
        box_fits(s, p),
        t.len() == s.len(),
        iloc_offset_fields(s, p) matches Ok(f) && forall|x: int|
            0 <= x < s.len() && uncovered(f, x) ==> t[x] == s[x],
    ensures
        iloc_offset_fields(t, p) == iloc_offset_fields(s, p),
{
    let f = iloc_offset_fields(s, p)->Ok_0;
    let l = iloc_layout(s, p);
    let w = if l.version == 2 {
        4int
    } else {
        2
    };
    let q0 = p + 14 + w;
    let end = p + be_u32_at(s, p);
    let n = be_uint(s.subrange(p + 14, q0));
    lemma_iloc_items_within(s, q0, end, l, n);
    assert forall|x: int| p <= x < q0 implies t[x] == s[x] by {
        assert forall|k: int| 0 <= k < f.len() implies !((#[trigger] f[k]).0 <= x < f[k].0 + f[k].1) by {
        }
    }
    assert(t.subrange(p, p + 4) =~= s.subrange(p, p + 4));
    assert(t.subrange(p + 14, q0) =~= s.subrange(p + 14, q0));
    assert(iloc_layout(t, p) == l);
    lemma_iloc_items_congruent(s, t, q0, end, l, n);
}

/// Overwriting bytes below every field commutes with shifting the fields.
proof fn lemma_shift_fields_commute(t: Seq<u8>, f: Seq<(int, int)>, delta: int, pos: int, x: Seq<u8>)
    requires
        0 <= pos,
        pos + x.len() <= t.len(),
        fields_within(f, pos + x.len(), t.len() as int),
    ensures
        match shift_fields(t, f, delta) {
            Some(u) => shift_fields(overwrite(t, pos, x), f, delta) == Some(overwrite(u, pos, x)),
            None => shift_fields(overwrite(t, pos, x), f, delta) is None,
        },
    decreases f.len(),
{
    let ow = overwrite(t, pos, x);
    if f.len() > 0 {
        let (p1, w1) = f[0];
        assert(ow.subrange(p1, p1 + w1) =~= t.subrange(p1, p1 + w1));
        let v = be_uint(t.subrange(p1, p1 + w1)) + delta;
        if 0 <= v < pow256(w1 as nat) {
            let y = be_bytes(v as nat, w1 as nat);
            let t1 = overwrite(t, p1, y);
            assert(overwrite(ow, p1, y) =~= overwrite(t1, pos, x));
            let rest = f.drop_first();
            assert forall|k: int| 0 <= k < rest.len() implies pos + x.len() <= (#[trigger] rest[k]).0
                && rest[k].0 + rest[k].1 <= t1.len() && (rest[k].1 == 4 || rest[k].1 == 8) by {
                assert(rest[k] == f[k + 1]);
            }
            lemma_shift_fields_commute(t1, rest, delta, pos, x);
        }
    } else {
        assert(shift_fields(ow, f, delta) == Some(ow));
    }
}

/// Shifting ordered fields by `delta` and then by `-delta` gives back the buffer.
proof fn lemma_shift_fields_round_trip(s: Seq<u8>, f: Seq<(int, int)>, delta: int)
    requires
        fields_ordered(f),
        fields_within(f, 0, s.len() as int),
    ensures
        shift_fields(s, f, delta) matches Some(t) ==> shift_fields(t, f, -delta) == Some(s),
    decreases f.len(),
{
    if f.len() > 0 {
        let (pos, w) = f[0];
        let orig = s.subrange(pos, pos + w);
        let v = be_uint(orig) + delta;
        if 0 <= v < pow256(w as nat) {
            let y = be_bytes(v as nat, w as nat);
            let s1 = overwrite(s, pos, y);
            let rest = f.drop_first();
            assert forall|k: int| 0 <= k < rest.len() implies pos + w <= (#[trigger] rest[k]).0 && rest[k].0
                + rest[k].1 <= s1.len() && (rest[k].1 == 4 || rest[k].1 == 8) by {
                assert(rest[k] == f[k + 1]);
                assert(f[0].0 + f[0].1 <= f[k + 1].0);
            }
            assert forall|i: int, j: int| 0 <= i < j < rest.len() implies rest[i].0 + rest[i].1
                <= #[trigger] rest[j].0 && #[trigger] rest[i] == rest[i] by {
                assert(rest[i] == f[i + 1] && rest[j] == f[j + 1]);
            }
            lemma_shift_fields_round_trip(s1, rest, delta);
            lemma_shift_fields_frame(s1, rest, delta, pos + w, s.len() as int);
            if let Some(t) = shift_fields(s, f, delta) {
                // The first field of `t` still holds `v`.
                assert(t.subrange(pos, pos + w) =~= y);
                lemma_be_roundtrip_exact(v as nat, w as nat);
                lemma_be_uint_bound(orig);
                lemma_be_bytes_of_uint(orig);
                assert(be_uint(t.subrange(pos, pos + w)) + (-delta) == be_uint(orig));
                lemma_shift_fields_commute(t, rest, -delta, pos, orig);
                assert(overwrite(s1, pos, orig) =~= s);
            }
        }
    }
}

/// Shifting ordered fields adds `delta` to the value each of them holds.
proof fn lemma_shift_fields_values(s: Seq<u8>, f: Seq<(int, int)>, delta: int)
    requires
        fields_ordered(f),
        fields_within(f, 0, s.len() as int),
    ensures
        shift_fields(s, f, delta) matches Some(t) ==> forall|k: int|
            0 <= k < f.len() ==> be_uint(t.subrange((#[trigger] f[k]).0, f[k].0 + f[k].1)) == be_uint(
                s.subrange(f[k].0, f[k].0 + f[k].1),
            ) + delta,
    decreases f.len(),
{
    if f.len() > 0 {
        let (pos, w) = f[0];
        let v = be_uint(s.subrange(pos, pos + w)) + delta;
        if 0 <= v < pow256(w as nat) {
            let y = be_bytes(v as nat, w as nat);
            let s1 = overwrite(s, pos, y);
            let rest = f.drop_first();
            assert forall|k: int| 0 <= k < rest.len() implies pos + w <= (#[trigger] rest[k]).0 && rest[k].0
                + rest[k].1 <= s1.len() && (rest[k].1 == 4 || rest[k].1 == 8) by {
                assert(rest[k] == f[k + 1]);
                assert(f[0].0 + f[0].1 <= f[k + 1].0);
            }
            assert forall|i: int, j: int| 0 <= i < j < rest.len() implies rest[i].0 + rest[i].1
                <= #[trigger] rest[j].0 && #[trigger] rest[i] == rest[i] by {
                assert(rest[i] == f[i + 1] && rest[j] == f[j + 1]);
            }
            lemma_shift_fields_values(s1, rest, delta);
            lemma_shift_fields_frame(s1, rest, delta, pos + w, s.len() as int);
            if let Some(t) = shift_fields(s, f, delta) {
                assert forall|k: int| 0 <= k < f.len() implies be_uint(
                    t.subrange((#[trigger] f[k]).0, f[k].0 + f[k].1),
                ) == be_uint(s.subrange(f[k].0, f[k].0 + f[k].1)) + delta by {
                    if k == 0 {
                        assert(t.subrange(pos, pos + w) =~= y);
                        lemma_be_roundtrip_exact(v as nat, w as nat);
                    } else {
                        assert(f[k] == rest[k - 1]);
                        assert(f[0].0 + f[0].1 <= f[k].0);
                        assert(s1.subrange(f[k].0, f[k].0 + f[k].1) =~= s.subrange(
                            f[k].0,
                            f[k].0 + f[k].1,
                        ));
                    }
                }
            }
        }
    }
}

/// After relocation by `delta`, each file-offset field of the `iloc` box at
/// `p` holds its old value plus `delta`.
pub proof fn lemma_iloc_shift_moves_each_offset(s: Seq<u8>, p: int, delta: int)
    requires
        box_fits(s, p),
    ensures
        iloc_shifted(s, p, delta) matches Ok(t) ==> iloc_offset_fields(s, p) matches Ok(f) && forall|k: int|
            0 <= k < f.len() ==> be_uint(t.subrange((#[trigger] f[k]).0, f[k].0 + f[k].1)) == be_uint(
                s.subrange(f[k].0, f[k].0 + f[k].1),
            ) + delta,
{
    if let Ok(t) = iloc_shifted(s, p, delta) {
        let f = iloc_offset_fields(s, p)->Ok_0;
        let l = iloc_layout(s, p);
        let w = if l.version == 2 {
            4int
        } else {
            2
        };
        lemma_iloc_items_ordered(s, p + 14 + w, p + be_u32_at(s, p), l, be_uint(s.subrange(p + 14, p + 14 + w)));
        lemma_iloc_fields_within(s, p);
        lemma_fields_within_widen(f, p, p + be_u32_at(s, p), 0, s.len() as int);
        lemma_shift_fields_values(s, f, delta);
    }
}

/// Moving the offsets of the `iloc` box at `p` by `delta` and then by
/// `-delta` gives back the buffer it started from.
pub proof fn lemma_iloc_shift_round_trip(s: Seq<u8>, p: int, delta: int)
    requires
        box_fits(s, p),
    ensures
        iloc_shifted(s, p, delta) matches Ok(t) ==> iloc_shifted(t, p, -delta) == Ok::<
            Seq<u8>,
            IlocError,
        >(s),
{
    if let Ok(t) = iloc_shifted(s, p, delta) {
        let f = iloc_offset_fields(s, p)->Ok_0;
        let l = iloc_layout(s, p);
        let w = if l.version == 2 {
            4int
        } else {
            2
        };
        lemma_iloc_items_ordered(s, p + 14 + w, p + be_u32_at(s, p), l, be_uint(s.subrange(p + 14, p + 14 + w)));
        lemma_iloc_fields_within(s, p);
        lemma_fields_within_widen(f, p, p + be_u32_at(s, p), 0, s.len() as int);
        lemma_shift_fields_covered(s, f, delta);
        lemma_iloc_offset_fields_congruent(s, t, p);
        lemma_shift_fields_round_trip(s, f, delta);
    }
}

/// Fields moved by `o` bytes.
pub open spec fn moved_fields(f: Seq<(int, int)>, o: int) -> Seq<(int, int)> {
    f.map_values(|x: (int, int)| (x.0 + o, x.1))
}

/// Items read from bytes moved by `o` are the same items with fields moved by `o`.
proof fn lemma_iloc_items_translate(s: Seq<u8>, t: Seq<u8>, q: int, end: int, l: IlocLayout, n: nat, o: int)
    requires
        layout_ok(l),
        0 <= q,
        0 <= q + o,
        end <= s.len(),
        end + o <= t.len(),
        forall|y: int| q <= y < end ==> t[y + o] == s[y],
    ensures
        iloc_items(t, q + o, end + o, l, n) == (match iloc_items(s, q, end, l, n) {
            Ok(f) => Ok(moved_fields(f, o)),
            Err(e) => Err(e),
        }),
    decreases n,
{
    if n == 0 {
        assert(moved_fields(Seq::<(int, int)>::empty(), o) =~= Seq::<(int, int)>::empty());
    } else {
        let h = item_header_len(l);
        if q + h <= end {
            let a = q + item_id_width(l);
            let b = a + method_width(l);
            assert(t.subrange(q + o + h - 2, q + o + h) =~= s.subrange(q + h - 2, q + h));
            assert(t.subrange(b + o, b + o + 2) =~= s.subrange(b, b + 2));
            if l.version >= 1 {
                assert(t[a + o + 1] == s[a + 1]);
            }
            assert(item_end(t, q + o, l) == item_end(s, q, l) + o);
            let mine = item_offset_fields(s, q, l);
            assert(item_offset_fields(t, q + o, l) =~= moved_fields(mine, o));
            let qe = item_end(s, q, l);
            assert(be_uint(s.subrange(q + h - 2, q + h)) * extent_len(l) >= 0) by (nonlinear_arith)
                requires
                    extent_len(l) >= 0,
            ;
            if qe <= end {
                lemma_iloc_items_translate(s, t, qe, end, l, (n - 1) as nat, o);
                assert(qe + o == item_end(t, q + o, l));
                if let Ok(rest) = iloc_items(s, qe, end, l, (n - 1) as nat) {
                    assert(moved_fields(mine, o) + moved_fields(rest, o) =~= moved_fields(mine + rest, o));
                }
            }
        }
    }
}

/// An `iloc` box read from bytes moved by `o` has the same fields, moved by `o`.
pub proof fn lemma_iloc_offset_fields_translate(s: Seq<u8>, t: Seq<u8>, p: int, o: int)
    requires
        box_fits(s, p),
        0 <= p + o,
        p + o + be_u32_at(s, p) <= t.len(),
        forall|y: int| p <= y < p + be_u32_at(s, p) ==> t[y + o] == s[y],
    ensures
        iloc_offset_fields(t, p + o) == (match iloc_offset_fields(s, p) {
            Ok(f) => Ok(moved_fields(f, o)),
            Err(e) => Err(e),
        }),
{
    let end = p + be_u32_at(s, p);
    assert(t.subrange(p + o, p + o + 4) =~= s.subrange(p, p + 4));
    if p + 14 <= end {
        assert(t[p + o + 8] == s[p + 8]);
        assert(t[p + o + 12] == s[p + 12]);
        assert(t[p + o + 13] == s[p + 13]);
        let l = iloc_layout(s, p);
        assert(iloc_layout(t, p + o) == l);
        let w = if l.version == 2 {
            4int
        } else {
            2
        };
        if p + 14 + w <= end {
            assert(t.subrange(p + o + 14, p + o + 14 + w) =~= s.subrange(p + 14, p + 14 + w));
            if layout_ok(l) {
                lemma_iloc_items_translate(
                    s,
                    t,
                    p + 14 + w,
                    end,
                    l,
                    be_uint(s.subrange(p + 14, p + 14 + w)),
                    o,
                );
                assert(p + 14 + w + o == p + o + 14 + w);
            }
        }
    }
}

/// An `iloc` box copied `o` bytes further on and then relocated by `delta`
/// holds, in each field, the copied value plus `delta`.
pub proof fn lemma_iloc_moved_box_shift(
    s: Seq<u8>,
    t: Seq<u8>,
    p: int,
    o: int,
    delta: int,
    f: Seq<(int, int)>,
    k: int,
)
    requires
        box_fits(s, p),
        0 <= p + o,
        p + o + be_u32_at(s, p) <= t.len(),
        forall|y: int| p <= y < p + be_u32_at(s, p) ==> t[y + o] == s[y],
        iloc_offset_fields(s, p) == Ok::<Seq<(int, int)>, IlocError>(f),
        iloc_shifted(t, p + o, delta) is Ok,
        0 <= k < f.len(),
    ensures
        be_uint(iloc_shifted(t, p + o, delta)->Ok_0.subrange(f[k].0 + o, f[k].0 + o + f[k].1)) == be_uint(
            s.subrange(f[k].0, f[k].0 + f[k].1),
        ) + delta,
{
    lemma_iloc_offset_fields_translate(s, t, p, o);
    let g = moved_fields(f, o);
    assert(t.subrange(p + o, p + o + 4) =~= s.subrange(p, p + 4));
    assert(box_fits(t, p + o));
    lemma_iloc_shift_moves_each_offset(t, p + o, delta);
    lemma_iloc_fields_within(s, p);
    assert(g[k] == (f[k].0 + o, f[k].1));
    assert(t.subrange(f[k].0 + o, f[k].0 + o + f[k].1) =~= s.subrange(f[k].0, f[k].0 + f[k].1));
}

/// Shifting fields by zero leaves the buffer as it is.
proof fn lemma_shift_fields_zero(s: Seq<u8>, f: Seq<(int, int)>)
    requires
        fields_within(f, 0, s.len() as int),
    ensures
        shift_fields(s, f, 0) == Some(s),
    decreases f.len(),
{
    if f.len() > 0 {
        let (pos, w) = f[0];
        let sub = s.subrange(pos, pos + w);
        lemma_be_uint_bound(sub);
        lemma_be_bytes_of_uint(sub);
        assert(overwrite(s, pos, be_bytes(be_uint(sub) as nat, w as nat)) =~= s);
        let rest = f.drop_first();
        assert forall|k: int| 0 <= k < rest.len() implies 0 <= (#[trigger] rest[k]).0 && rest[k].0
            + rest[k].1 <= s.len() && (rest[k].1 == 4 || rest[k].1 == 8) by {
            assert(rest[k] == f[k + 1]);
        }
        lemma_shift_fields_zero(s, rest);
    }
}

/// A relocated `iloc` box keeps its 8-byte header and everything outside it,
/// and relocating it again by zero changes nothing.
pub proof fn lemma_iloc_shift_then_zero(s: Seq<u8>, p: int, delta: int)
    requires
        box_fits(s, p),
    ensures
        iloc_shifted(s, p, delta) matches Ok(t) ==> {
            &&& t.len() == s.len()
            &&& forall|y: int|
                0 <= y < s.len() && !(p + 8 <= y < p + be_u32_at(s, p)) ==> #[trigger] t[y] == s[y]
            &&& iloc_shifted(t, p, 0) == Ok::<Seq<u8>, IlocError>(t)
        },
{
    if let Ok(t) = iloc_shifted(s, p, delta) {
        let f = iloc_offset_fields(s, p)->Ok_0;
        let l = iloc_layout(s, p);
        let w = if l.version == 2 {
            4int
        } else {
            2
        };
        let q0 = p + 14 + w;
        lemma_iloc_items_within(s, q0, p + be_u32_at(s, p), l, be_uint(s.subrange(p + 14, q0)));
        lemma_fields_within_widen(f, q0, p + be_u32_at(s, p), 0, s.len() as int);
        lemma_shift_fields_covered(s, f, delta);
        assert forall|y: int|
            0 <= y < s.len() && !(p + 8 <= y < p + be_u32_at(s, p)) implies #[trigger] t[y] == s[y] by {
            assert forall|k: int| 0 <= k < f.len() implies !((#[trigger] f[k]).0 <= y < f[k].0 + f[k].1) by {}
        }
        lemma_iloc_offset_fields_congruent(s, t, p);
        lemma_shift_fields_zero(t, f);
    }
}

/// An item at `q` stored in this file without a base offset (construction
/// method 0, always so in version 0; data reference 0; base-offset size 0)
/// and with offset fields (nonzero offset size) has every one of its
/// `extent_count` extents' offset fields listed, in order: extent `j`'s offset
/// follows the item's header (ID, method word in versions 1 and 2, data
/// reference, extent count) after `j` whole extents and the extent's index.
pub proof fn lemma_item_lists_every_extent(s: Seq<u8>, q: int, l: IlocLayout)
    requires
        l.base_offset_size == 0,
        l.offset_size > 0,
        l.version >= 1 ==> s[q + (if l.version == 2 { 4int } else { 2 }) + 1] % 16 == 0,
        ({
            let dr = q + (if l.version == 2 { 4int } else { 2 }) + (if l.version >= 1 { 2int } else { 0 });
            be_uint(s.subrange(dr, dr + 2)) == 0
        }),
    ensures
        ({
            let hdr = (if l.version == 2 { 4int } else { 2 }) + (if l.version >= 1 { 2int } else { 0 }) + 4;
            let n = be_uint(s.subrange(q + hdr - 2, q + hdr));
            let ext = l.index_size + l.offset_size + l.length_size;
            &&& item_offset_fields(s, q, l).len() == n
            &&& forall|j: int|
                0 <= j < n ==> #[trigger] item_offset_fields(s, q, l)[j] == (
                    q + hdr + j * ext + l.index_size,
                    l.offset_size as int,
                )
        }),
{
}

/// An item at `q` stored in this file with a base offset (construction method
/// 0, data reference 0, nonzero base-offset size) is relocated through its
/// base offset alone: that field, after the ID, method word and data
/// reference, is the only one listed.
pub proof fn lemma_item_lists_base_offset(s: Seq<u8>, q: int, l: IlocLayout)
    requires
        l.base_offset_size > 0,
        l.version >= 1 ==> s[q + (if l.version == 2 { 4int } else { 2 }) + 1] % 16 == 0,
        ({
            let dr = q + (if l.version == 2 { 4int } else { 2 }) + (if l.version >= 1 { 2int } else { 0 });
            be_uint(s.subrange(dr, dr + 2)) == 0
        }),
    ensures
        ({
            let dr = q + (if l.version == 2 { 4int } else { 2 }) + (if l.version >= 1 { 2int } else { 0 });
            item_offset_fields(s, q, l) == seq![(dr + 2, l.base_offset_size as int)]
        }),
{
}

/// An item that is not stored in this file as plain data (construction method
/// other than 0, or a data reference other than 0) contributes no field.
pub proof fn lemma_item_elsewhere_lists_nothing(s: Seq<u8>, q: int, l: IlocLayout)
    requires
        ({
            let idw = if l.version == 2 { 4int } else { 2 };
            let dr = q + idw + (if l.version >= 1 { 2int } else { 0 });
            (l.version >= 1 && s[q + idw + 1] % 16 != 0) || be_uint(s.subrange(dr, dr + 2)) != 0
        }),
    ensures
        item_offset_fields(s, q, l).len() == 0,
{
}

/// Relocating an `iloc` box whose first item is stored in this file without a
/// base offset moves every extent offset of that item by `delta`.
pub proof fn lemma_iloc_first_item_extents_moved(s: Seq<u8>, p: int, delta: int, j: int)
    requires
        box_fits(s, p),
        ({
            let l = iloc_layout(s, p);
            let cw = if l.version == 2 { 4int } else { 2 };
            let q = p + 14 + cw;
            let idw = if l.version == 2 { 4int } else { 2 };
            let mw = if l.version >= 1 { 2int } else { 0 };
            &&& be_uint(s.subrange(p + 14, q)) >= 1
            &&& l.base_offset_size == 0
            &&& l.offset_size > 0
            &&& (l.version >= 1 ==> s[q + idw + 1] % 16 == 0)
            &&& be_uint(s.subrange(q + idw + mw, q + idw + mw + 2)) == 0
        }),
    ensures
        ({
            let l = iloc_layout(s, p);
            let cw = if l.version == 2 { 4int } else { 2 };
            let q = p + 14 + cw;
            let hdr = (if l.version == 2 { 4int } else { 2 }) + (if l.version >= 1 { 2int } else { 0 }) + 4;
            let n = be_uint(s.subrange(q + hdr - 2, q + hdr));
            let pos = q + hdr + j * (l.index_size + l.offset_size + l.length_size) + l.index_size;
            let w = l.offset_size as int;
            iloc_shifted(s, p, delta) matches Ok(t) ==> (0 <= j < n ==> be_uint(t.subrange(pos, pos + w))
                == be_uint(s.subrange(pos, pos + w)) + delta)
        }),
{
    if let Ok(t) = iloc_shifted(s, p, delta) {
        let l = iloc_layout(s, p);
        let cw = if l.version == 2 { 4int } else { 2 };
        let q = p + 14 + cw;
        let end = p + be_u32_at(s, p);
        let count = be_uint(s.subrange(p + 14, q));
        let f = iloc_offset_fields(s, p)->Ok_0;
        assert(f == iloc_items(s, q, end, l, count)->Ok_0);
        let qe = item_end(s, q, l);
        let mine = item_offset_fields(s, q, l);
        let rest = iloc_items(s, qe, end, l, (count - 1) as nat)->Ok_0;
        assert(f == mine + rest);
        lemma_item_lists_every_extent(s, q, l);
        lemma_iloc_shift_moves_each_offset(s, p, delta);
        let hdr = (if l.version == 2 { 4int } else { 2 }) + (if l.version >= 1 { 2int } else { 0 }) + 4;
        let n = be_uint(s.subrange(q + hdr - 2, q + hdr));
        if 0 <= j < n {
            assert(f[j] == mine[j]);
        }
    }
}

/// Collects the offset fields of the `count` items starting at `q0`.
fn collect_item_fields(data: &[u8], q0: usize, end: usize, l: IlocLayout, count: u64) -> (r: Result<
    Vec<(usize, usize)>,
    IlocError,
>)
    requires
        q0 <= end <= data@.len(),
        l.version <= 2,
        field_size_ok(l.offset_size),
        field_size_ok(l.length_size),
        field_size_ok(l.base_offset_size),
        field_size_ok(l.index_size),
        l.version == 0 ==> l.index_size == 0,
    ensures
        match r {
            Ok(f) => iloc_items(data@, q0 as int, end as int, l, count as nat) == Ok::<
                Seq<(int, int)>,
                IlocError,
            >(int_pairs(f@)) && fields_within(int_pairs(f@), q0 as int, end as int),
            Err(e) => iloc_items(data@, q0 as int, end as int, l, count as nat) == Err::<
                Seq<(int, int)>,
                IlocError,
            >(e),
        },
{
    let id_w: usize = if l.version == 2 {
        4
    } else {
        2
    };
    let cm_w: usize = if l.version >= 1 {
        2
    } else {
        0
    };
    let bos = l.base_offset_size as usize;
    let hdr: usize = id_w + cm_w + 2 + bos + 2;
    let ew: usize = l.index_size as usize + l.offset_size as usize + l.length_size as usize;
    let mut fields: Vec<(usize, usize)> = Vec::new();
    let mut q = q0;
    let mut i: u64 = 0;
    while i < count
        invariant
            q0 <= q <= end <= data@.len(),
            i <= count,
            id_w == item_id_width(l),
            cm_w == method_width(l),
            bos == l.base_offset_size,
            hdr == item_header_len(l),
            ew == extent_len(l),
            l.version <= 2,
            field_size_ok(l.offset_size),
            field_size_ok(l.base_offset_size),
            field_size_ok(l.length_size),
            field_size_ok(l.index_size),
            iloc_items(data@, q0 as int, end as int, l, count as nat) == prepend_fields(
                int_pairs(fields@),
                iloc_items(data@, q as int, end as int, l, (count - i) as nat),
            ),
            fields_within(int_pairs(fields@), q0 as int, end as int),
        decreases count - i,
    {
        if hdr > end - q {
            return Err(IlocError::Truncated);
        }
        let method: u8 = if l.version >= 1 {
            data[q + id_w + 1] % 16
        } else {
            0
        };
        let data_ref = read_be(data, q + id_w + cm_w, 2);
        let extents = read_be(data, q + hdr - 2, 2) as usize;
        proof {
            lemma_be_uint_bound(data@.subrange(q + hdr - 2, q + hdr as int));
            lemma_pow256_values();
        }
        proof {
            assert(extents * ew <= 65535 * 24) by (nonlinear_arith)
                requires
                    extents <= 65535,
                    ew <= 24,
            ;
        }
        let span: usize = extents * ew;
        if span > end - q - hdr {
            return Err(IlocError::Truncated);
        }
        let ghost before = fields@;
        if method == 0 && data_ref == 0 {
            if bos > 0 {
                fields.push((q + id_w + cm_w + 2, bos));
            } else if l.offset_size > 0 {
                let mut j: usize = 0;
                while j < extents
                    invariant
                        j <= extents,
                        q + hdr + extents * ew <= end,
                        ew == extent_len(l),
                        hdr == item_header_len(l),
                        l.offset_size > 0,
                        field_size_ok(l.offset_size),
                        fields@ == before + Seq::new(
                            j as nat,
                            |k: int|
                                (
                                    (q + hdr + k * ew + l.index_size) as usize,
                                    l.offset_size as usize,
                                ),
                        ),
                    decreases extents - j,
                {
                    proof {
                        assert(j * ew + ew <= extents * ew) by (nonlinear_arith)
                            requires
                                j < extents,
                        ;
                    }
                    fields.push((q + hdr + j * ew + l.index_size as usize, l.offset_size as usize));
                    j += 1;
                    proof {
                        assert(fields@ =~= before + Seq::new(
                            j as nat,
                            |k: int|
                                (
                                    (q + hdr + k * ew + l.index_size) as usize,
                                    l.offset_size as usize,
                                ),
                        ));
                    }
                }
            }
        }
        proof {
            let mine = item_offset_fields(data@, q as int, l);
            assert forall|k: int| 0 <= k < int_pairs(fields@).len() implies #[trigger] int_pairs(
                fields@,
            )[k] == (int_pairs(before) + mine)[k] by {
                if k >= before.len() && method == 0 && data_ref == 0 && bos == 0 && l.offset_size
                    > 0 {
                    let m = k - before.len();
                    assert(m * ew + ew <= extents * ew) by (nonlinear_arith)
                        requires
                            m < extents,
                    ;
                }
            }
            assert(int_pairs(fields@) =~= int_pairs(before) + mine);
            assert forall|k: int| 0 <= k < int_pairs(fields@).len() implies {
                let f = #[trigger] int_pairs(fields@)[k];
                q0 <= f.0 && f.0 + f.1 <= end && (f.1 == 4 || f.1 == 8)
            } by {
                if k >= before.len() {
                    let m = k - before.len();
                    if bos == 0 {
                        assert(m * ew + ew <= extents * ew) by (nonlinear_arith)
                            requires
                                m < extents,
                        ;
                    }
                } else {
                    assert(int_pairs(fields@)[k] == int_pairs(before)[k]);
                }
            }
            let next_q = q + hdr + span;
            assert(item_end(data@, q as int, l) == next_q);
            let rest = iloc_items(data@, next_q, end as int, l, (count - i - 1) as nat);
            assert(iloc_items(data@, q as int, end as int, l, (count - i) as nat) == prepend_fields(
                mine,
                rest,
            ));
            if let Ok(x) = rest {
                assert(int_pairs(before) + (mine + x) =~= (int_pairs(before) + mine) + x);
            }
        }
        q = q + hdr + span;
        i = i + 1;
    }
    proof {
        assert(int_pairs(fields@) + Seq::<(int, int)>::empty() =~= int_pairs(fields@));
    }
    Ok(fields)
}


/// Moves every file offset recorded by the `iloc` box at `iloc_start` by
/// `delta` bytes, for use after the bytes following the box's referents have
/// shifted.
///
/// Item data located in this file through construction method 0 and data
/// reference 0 is relocated through its base offset when it has one, otherwise
/// through each extent's offset. On error the buffer is left untouched.
pub fn patch_iloc_extents(data: &mut Vec<u8>, iloc_start: usize, delta: i128) -> (r: Result<
    (),
    IlocError,
>)
    requires
        box_fits(old(data)@, iloc_start as int),
    ensures
        match iloc_shifted(old(data)@, iloc_start as int, delta as int) {
            Ok(out) => r == Ok::<(), IlocError>(()) && final(data)@ == out,
            Err(e) => r == Err::<(), IlocError>(e) && final(data)@ == old(data)@,
        },
{
    let p = iloc_start;
    let n = data.len();
    let size = read_u32_be(data.as_slice(), p) as usize;
    let end = p + size;
    if size < 14 {
        return Err(IlocError::Truncated);
    }
    let version = data[p + 8];
    if version > 2 {
        return Err(IlocError::UnsupportedVersion);
    }
    let b12 = data[p + 12];
    let b13 = data[p + 13];
    let l = IlocLayout {
        version,
        offset_size: b12 / 16,
        length_size: b12 % 16,
        base_offset_size: b13 / 16,
        index_size: if version >= 1 {
            b13 % 16
        } else {
            0
        },
    };
    assert(l == iloc_layout(data@, p as int));
    let sizes_ok = (l.offset_size == 0 || l.offset_size == 4 || l.offset_size == 8) && (
    l.length_size == 0 || l.length_size == 4 || l.length_size == 8) && (l.base_offset_size == 0
        || l.base_offset_size == 4 || l.base_offset_size == 8) && (l.index_size == 0
        || l.index_size == 4 || l.index_size == 8);
    if !sizes_ok {
        return Err(IlocError::UnsupportedFieldSize);
    }
    let count_width: usize = if version == 2 {
        4
    } else {
        2
    };
    if 14 + count_width > size {
        return Err(IlocError::Truncated);
    }
    let count = read_be(data.as_slice(), p + 14, count_width);
    let fields = match collect_item_fields(data.as_slice(), p + 14 + count_width, end, l, count) {
        Ok(f) => f,
        Err(e) => {
            return Err(e);
        },
    };
    let ghost all = int_pairs(fields@);
    assert(data@ == old(data)@);
    assert(iloc_offset_fields(old(data)@, iloc_start as int) == Ok::<Seq<(int, int)>, IlocError>(
        all,
    ));
    let mut out: Vec<u8> = Vec::new();
    push_all(&mut out, data.as_slice());
    assert(out@ =~= old(data)@);
    assert(all.subrange(0, all.len() as int) =~= all);
    let mut k: usize = 0;
    while k < fields.len()
        invariant
            k <= fields@.len(),
            all == int_pairs(fields@),
            iloc_offset_fields(old(data)@, iloc_start as int) == Ok::<Seq<(int, int)>, IlocError>(
                all,
            ),
            fields_within(all, 0, old(data)@.len() as int),
            out@.len() == old(data)@.len(),
            shift_fields(old(data)@, all, delta as int) == shift_fields(
                out@,
                all.subrange(k as int, all.len() as int),
                delta as int,
            ),
        decreases fields@.len() - k,
    {
        let (pos, w) = fields[k];
        assert(all[k as int] == (pos as int, w as int));
        let v = read_be(out.as_slice(), pos, w);
        let limit: i128 = if w == 4 {
            0x1_0000_0000
        } else {
            0x1_0000_0000_0000_0000
        };
        let ghost rest = all.subrange(k as int, all.len() as int);
        proof {
            lemma_pow256_values();
            assert(rest[0] == all[k as int]);
            assert(rest.drop_first() =~= all.subrange(k + 1, all.len() as int));
        }
        if delta < -(v as i128) || delta >= limit - v as i128 {
            return Err(IlocError::OffsetOutOfRange);
        }
        let nv: i128 = v as i128 + delta;
        write_be(&mut out, pos, w, nv as u64);
        k += 1;
    }
    proof {
        assert(all.subrange(k as int, all.len() as int) =~= Seq::<(int, int)>::empty());
    }
    *data = out;
    Ok(())
}

} // verus!
