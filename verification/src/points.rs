//! The point-cloud record and its binary field decoder: named, typed,
//! offset-addressed columns are extracted from a packed per-point blob.
//!
//! `FLOAT32` / `FLOAT64` elements are decoded to their IEEE-754 bit patterns
//! (`u32` / `u64`); reinterpreting the bits as floating point is left to the
//! caller.

use vstd::prelude::*;

use crate::msg::{Header, HeaderView};
use crate::wire::{
    as_signed16, as_signed32, as_signed8, be16, be32, be64, le16, le32, le64, read_u16_be,
    read_u16_le, read_u32_be, read_u32_le, read_u64_be, read_u64_le, signed16_of, signed32_of,
    signed8_of,
};

verus! {

/// One decoded element of a point field. The variant is chosen by the field's
/// datatype code; the two float variants carry the raw IEEE-754 bit pattern.
#[derive(Debug, Clone, Copy, PartialEq, Eq, Structural)]
pub enum Datatype {
    INT8(i8),
    UINT8(u8),
    INT16(i16),
    UINT16(u16),
    INT32(i32),
    UINT32(u32),
    FLOAT32(u32),
    FLOAT64(u64),
}

/// The datatype codes of the wire format, in order:
/// 1 INT8, 2 UINT8, 3 INT16, 4 UINT16, 5 INT32, 6 UINT32, 7 FLOAT32, 8 FLOAT64.
pub open spec fn dt_valid(code: u8) -> bool {
    1 <= code <= 8
}

/// Element size in bytes for each datatype code (0 for unknown codes).
pub open spec fn dt_size(code: u8) -> nat {
    if code == 1 || code == 2 {
        1
    } else if code == 3 || code == 4 {
        2
    } else if code == 5 || code == 6 || code == 7 {
        4
    } else if code == 8 {
        8
    } else {
        0
    }
}

/// The element decoded from `s` at `pos` for a datatype code, big-endian when
/// `big` is set and little-endian (native order) otherwise.
pub open spec fn decode_elem(code: u8, big: bool, s: Seq<u8>, pos: int) -> Datatype
    recommends
        dt_valid(code),
        0 <= pos,
        pos + dt_size(code) <= s.len(),
{
    if code == 1 {
        Datatype::INT8(as_signed8(s[pos] as nat) as i8)
    } else if code == 2 {
        Datatype::UINT8(s[pos])
    } else if code == 3 {
        Datatype::INT16(as_signed16(if big { be16(s, pos) } else { le16(s, pos) }) as i16)
    } else if code == 4 {
        Datatype::UINT16((if big { be16(s, pos) } else { le16(s, pos) }) as u16)
    } else if code == 5 {
        Datatype::INT32(as_signed32(if big { be32(s, pos) } else { le32(s, pos) }) as i32)
    } else if code == 6 {
        Datatype::UINT32((if big { be32(s, pos) } else { le32(s, pos) }) as u32)
    } else if code == 7 {
        Datatype::FLOAT32((if big { be32(s, pos) } else { le32(s, pos) }) as u32)
    } else {
        Datatype::FLOAT64((if big { be64(s, pos) } else { le64(s, pos) }) as u64)
    }
}

/// Decodes one element of the given datatype from `data` at `pos`.
pub fn decode_elem_at(code: u8, big: bool, data: &Vec<u8>, pos: usize) -> (r: Datatype)
    requires
        dt_valid(code),
        pos + dt_size(code) <= data.len(),
    ensures
        r == decode_elem(code, big, data@, pos as int),
{
    if code == 1 {
        Datatype::INT8(signed8_of(data[pos]))
    } else if code == 2 {
        Datatype::UINT8(data[pos])
    } else if code == 3 {
        Datatype::INT16(signed16_of(if big { read_u16_be(data, pos) } else { read_u16_le(data, pos) }))
    } else if code == 4 {
        Datatype::UINT16(if big { read_u16_be(data, pos) } else { read_u16_le(data, pos) })
    } else if code == 5 {
        Datatype::INT32(signed32_of(if big { read_u32_be(data, pos) } else { read_u32_le(data, pos) }))
    } else if code == 6 {
        Datatype::UINT32(if big { read_u32_be(data, pos) } else { read_u32_le(data, pos) })
    } else if code == 7 {
        Datatype::FLOAT32(if big { read_u32_be(data, pos) } else { read_u32_le(data, pos) })
    } else {
        Datatype::FLOAT64(if big { read_u64_be(data, pos) } else { read_u64_le(data, pos) })
    }
}

/// Abstract value of a [`PointField`].
pub struct PointFieldView {
    pub name: Seq<char>,
    pub offset: u32,
    pub datatype: u8,
    pub count: u32,
}

/// Description of one point entry: a named column at a byte offset within the
/// per-point record, holding `count` elements of the given datatype.
#[derive(Debug, Clone)]
pub struct PointField {
    pub name: String,
    pub offset: u32,
    pub datatype: u8,
    pub count: u32,
}

impl View for PointField {
    type V = PointFieldView;

    open spec fn view(&self) -> PointFieldView {
        PointFieldView {
            name: self.name@,
            offset: self.offset,
            datatype: self.datatype,
            count: self.count,
        }
    }
}

impl PointField {
    /// Size in bytes of one element of this field's datatype.
    pub fn size(&self) -> (r: usize)
        requires
            dt_valid(self.datatype),
        ensures
            r == dt_size(self.datatype),
    {
        if self.datatype == 1 || self.datatype == 2 {
            1
        } else if self.datatype == 3 || self.datatype == 4 {
            2
        } else if self.datatype == 8 {
            8
        } else {
            4
        }
    }

    /// Decodes this field's `count` consecutive elements from its byte window,
    /// each element read from `size(datatype)` bytes in native order.
    pub fn decode_bytes(&self, data: &Vec<u8>) -> (r: Vec<Datatype>)
        requires
            dt_valid(self.datatype),
            data.len() == self.count * dt_size(self.datatype),
        ensures
            r.len() == self.count,
            forall|k: int|
                0 <= k < self.count ==> r[k] == decode_elem(
                    self.datatype,
                    false,
                    data@,
                    k * dt_size(self.datatype) as int,
                ),
    {
        let size = self.size();
        let mut r: Vec<Datatype> = Vec::new();
        let mut k: usize = 0;
        let mut pos: usize = 0;
        while k < self.count as usize
            invariant
                dt_valid(self.datatype),
                size == dt_size(self.datatype),
                data.len() == self.count * size,
                k <= self.count,
                pos == k * size,
                r.len() == k,
                forall|j: int|
                    0 <= j < k ==> r[j] == decode_elem(
                        self.datatype,
                        false,
                        data@,
                        j * dt_size(self.datatype) as int,
                    ),
            decreases self.count - k,
        {
            proof {
                assert((k + 1) * size <= self.count * size) by (nonlinear_arith)
                    requires
                        k < self.count,
                        size >= 0,
                ;
            }
            let v = decode_elem_at(self.datatype, false, data, pos);
            r.push(v);
            k = k + 1;
            pos = pos + size;
        }
        r
    }
}

/// Abstract value of a [`PointCloud2`].
pub struct PointCloud2View {
    pub header: HeaderView,
    pub height: u32,
    pub width: u32,
    pub fields: Seq<PointFieldView>,
    pub is_bigendian: u8,
    pub point_step: u32,
    pub row_step: u32,
    pub data: Seq<u8>,
    pub is_dense: u8,
}

/// A collection of `width * height` points stored as a packed binary blob,
/// its per-point layout described by `fields`.
#[derive(Debug, Clone)]
pub struct PointCloud2 {
    pub header: Header,
    pub height: u32,
    pub width: u32,
    pub fields: Vec<PointField>,
    pub is_bigendian: u8,
    pub point_step: u32,
    pub row_step: u32,
    pub data: Vec<u8>,
    pub is_dense: u8,
}

impl View for PointCloud2 {
    type V = PointCloud2View;

    open spec fn view(&self) -> PointCloud2View {
        PointCloud2View {
            header: self.header@,
            height: self.height,
            width: self.width,
            fields: Seq::new(self.fields@.len(), |i: int| self.fields@[i]@),
            is_bigendian: self.is_bigendian,
            point_step: self.point_step,
            row_step: self.row_step,
            data: self.data@,
            is_dense: self.is_dense,
        }
    }
}

/// The structural invariants of a point cloud: every field's window fits
/// inside one point record, every field has a known datatype, and the data
/// blob covers all rows and all point records.
pub open spec fn cloud_wf(c: PointCloud2View) -> bool {
    &&& forall|i: int|
        0 <= i < c.fields.len() ==> {
            &&& dt_valid((#[trigger] c.fields[i]).datatype)
            &&& c.fields[i].offset + c.fields[i].count * dt_size(c.fields[i].datatype)
                <= c.point_step
        }
    &&& c.data.len() >= c.row_step * c.height
    &&& c.data.len() >= c.point_step * (c.width * c.height)
}

/// Each field of a cloud's abstract value carries the fields of the record.
pub proof fn lemma_cloud_view_fields(c: &PointCloud2)
    ensures
        c@.fields.len() == c.fields@.len(),
        forall|i: int|
            0 <= i < c.fields@.len() ==> {
                &&& (#[trigger] c@.fields[i]).datatype == c.fields@[i].datatype
                &&& c@.fields[i].offset == c.fields@[i].offset
                &&& c@.fields[i].count == c.fields@[i].count
                &&& c@.fields[i].name == c.fields@[i].name@
            },
{
    assert forall|i: int| 0 <= i < c.fields@.len() implies {
        &&& (#[trigger] c@.fields[i]).datatype == c.fields@[i].datatype
        &&& c@.fields[i].offset == c.fields@[i].offset
        &&& c@.fields[i].count == c.fields@[i].count
        &&& c@.fields[i].name == c.fields@[i].name@
    } by {
        assert(c@.fields[i] == c.fields@[i]@);
    }
}

impl PointCloud2 {
    /// The structural invariants, read off the abstract value.
    pub open spec fn wf(self) -> bool {
        cloud_wf(self@)
    }

    /// Decides [`Self::wf`] at run time.
    pub fn check_wf(&self) -> (r: bool)
        ensures
            r == self.wf(),
    {
        proof {
            lemma_cloud_view_fields(self);
        }
        let mut i: usize = 0;
        while i < self.fields.len()
            invariant
                i <= self.fields.len(),
                forall|j: int|
                    0 <= j < i ==> {
                        &&& dt_valid(#[trigger] self.fields@[j].datatype)
                        &&& self.fields@[j].offset + self.fields@[j].count * dt_size(
                            self.fields@[j].datatype,
                        ) <= self.point_step
                    },
            decreases self.fields.len() - i,
        {
            proof {
                lemma_cloud_view_fields(self);
            }
            let f = &self.fields[i];
            if f.datatype < 1 || f.datatype > 8 {
                proof {
                    assert(!dt_valid(self@.fields[i as int].datatype));
                }
                return false;
            }
            let size = f.size();
            proof {
                assert(f.count * size <= 0xffff_ffffu64 * 8) by (nonlinear_arith)
                    requires
                        f.count <= 0xffff_ffffu64,
                        0 <= size <= 8,
                ;
            }
            let need = f.offset as u64 + f.count as u64 * size as u64;
            if need > self.point_step as u64 {
                proof {
                    assert(self@.fields[i as int].offset + self@.fields[i as int].count
                        * dt_size(self@.fields[i as int].datatype) > self.point_step);
                }
                return false;
            }
            i = i + 1;
        }
        proof {
            lemma_cloud_view_fields(self);
            assert forall|q: int| 0 <= q < self@.fields.len() implies {
                &&& dt_valid((#[trigger] self@.fields[q]).datatype)
                &&& self@.fields[q].offset + self@.fields[q].count * dt_size(
                    self@.fields[q].datatype,
                ) <= self@.point_step
            } by {
                assert(dt_valid(self.fields@[q].datatype));
            }
            assert(self.row_step as u128 * self.height as u128 <= 0xffff_ffffu128
                * 0xffff_ffffu128) by (nonlinear_arith)
                requires
                    self.row_step <= 0xffff_ffffu128 && self.height <= 0xffff_ffffu128,
            ;
            assert(self.width as u128 * self.height as u128 <= 0xffff_ffffu128
                * 0xffff_ffffu128) by (nonlinear_arith)
                requires
                    self.width <= 0xffff_ffffu128 && self.height <= 0xffff_ffffu128,
            ;
            assert(self.point_step as u128 * (self.width as u128 * self.height as u128)
                <= 0xffff_ffffu128 * (0xffff_ffffu128 * 0xffff_ffffu128)) by (nonlinear_arith)
                requires
                    self.point_step <= 0xffff_ffffu128,
                    self.width as u128 * self.height as u128 <= 0xffff_ffffu128
                        * 0xffff_ffffu128,
            ;
        }
        let rows = self.row_step as u128 * self.height as u128;
        if (self.data.len() as u128) < rows {
            return false;
        }
        let points = self.width as u128 * self.height as u128;
        let span = self.point_step as u128 * points;
        if (self.data.len() as u128) < span {
            return false;
        }
        true
    }

    /// The number of points held: `width * height`.
    pub fn len(&self) -> (r: usize)
        requires
            self.width * self.height <= usize::MAX,
        ensures
            r == self.width * self.height,
    {
        self.width as usize * self.height as usize
    }

    /// Decodes every field of the point at `idx`. The point's byte window is
    /// `data[point_step * idx .. point_step * (idx + 1)]`; within it, field
    /// `f` occupies `[f.offset .. f.offset + f.count * size(f.datatype)]`.
    /// Elements are read big-endian iff `is_bigendian` is set, else in native
    /// order. Returns `None` iff `idx` is not below the point count.
    pub fn decode_by_idx(&self, idx: usize) -> (r: Option<Vec<Vec<Datatype>>>)
        requires
            self.wf(),
            self.width * self.height <= usize::MAX,
        ensures
            match r {
                None => idx >= self.width * self.height,
                Some(rs) => {
                    &&& idx < self.width * self.height
                    &&& rs@.len() == self.fields@.len()
                    &&& forall|fi: int, k: int|
                        0 <= fi < self.fields@.len() && 0 <= k < self.fields@[fi].count
                            ==> #[trigger] rs@[fi]@[k] == decode_elem(
                            self.fields@[fi].datatype,
                            self.is_bigendian != 0,
                            self.data@,
                            self.point_step * idx + self.fields@[fi].offset + k * dt_size(
                                self.fields@[fi].datatype,
                            ),
                        )
                    &&& forall|fi: int|
                        0 <= fi < self.fields@.len() ==> #[trigger] rs@[fi]@.len()
                            == self.fields@[fi].count
                },
            },
    {
        if idx >= self.len() {
            return None;
        }
        proof {
            lemma_cloud_view_fields(self);
        }
        let big = self.is_bigendian != 0;
        let dlen = self.data.len();
        proof {
            assert(self.point_step * (idx + 1) <= self.point_step * (self.width
                * self.height)) by (nonlinear_arith)
                requires
                    idx < self.width * self.height,
                    self.point_step >= 0,
            ;
            assert(self.point_step * (idx + 1) == self.point_step * idx + self.point_step)
                by (nonlinear_arith);
        }
        let base = self.point_step as usize * idx;
        let mut rs: Vec<Vec<Datatype>> = Vec::new();
        let mut fi: usize = 0;
        while fi < self.fields.len()
            invariant
                self.wf(),
                idx < self.width * self.height,
                base == self.point_step * idx,
                base + self.point_step <= self.data.len(),
                fi <= self.fields.len(),
                rs@.len() == fi,
                forall|j: int, k: int|
                    0 <= j < fi && 0 <= k < self.fields@[j].count ==> #[trigger] rs@[j]@[k]
                        == decode_elem(
                        self.fields@[j].datatype,
                        self.is_bigendian != 0,
                        self.data@,
                        self.point_step * idx + self.fields@[j].offset + k * dt_size(
                            self.fields@[j].datatype,
                        ),
                    ),
                forall|j: int|
                    0 <= j < fi ==> #[trigger] rs@[j]@.len() == self.fields@[j].count,
                big == (self.is_bigendian != 0),
            decreases self.fields.len() - fi,
        {
            proof {
                lemma_cloud_view_fields(self);
                assert(dt_valid(self@.fields[fi as int].datatype));
                assert(self@.fields[fi as int].offset + self@.fields[fi as int].count * dt_size(
                    self@.fields[fi as int].datatype,
                ) <= self@.point_step);
            }
            let f = &self.fields[fi];
            let size = f.size();
            let mut col: Vec<Datatype> = Vec::new();
            let mut k: usize = 0;
            while k < f.count as usize
                invariant
                    dt_valid(f.datatype),
                    size == dt_size(f.datatype),
                    f.offset + f.count * size <= self.point_step,
                    base + self.point_step <= self.data.len(),
                    k <= f.count,
                    col@.len() == k,
                    forall|k2: int|
                        0 <= k2 < k ==> #[trigger] col@[k2] == decode_elem(
                            f.datatype,
                            big,
                            self.data@,
                            base + f.offset + k2 * dt_size(f.datatype),
                        ),
                    big == (self.is_bigendian != 0),
                decreases f.count - k,
            {
                proof {
                    assert((k + 1) * size <= f.count * size) by (nonlinear_arith)
                        requires
                            k < f.count,
                            size >= 0,
                    ;
                }
                let pos = base + f.offset as usize + k * size;
                let v = decode_elem_at(f.datatype, big, &self.data, pos);
                col.push(v);
                k = k + 1;
            }
            rs.push(col);
            fi = fi + 1;
        }
        Some(rs)
    }
}

/// An element decode reads only its own `size(datatype)` bytes: two blobs
/// that agree there decode the element identically.
pub proof fn lemma_decode_elem_local(code: u8, big: bool, d1: Seq<u8>, d2: Seq<u8>, pos: int)
    requires
        dt_valid(code),
        0 <= pos,
        pos + dt_size(code) <= d1.len(),
        pos + dt_size(code) <= d2.len(),
        forall|q: int| pos <= q < pos + dt_size(code) ==> d1[q] == d2[q],
    ensures
        decode_elem(code, big, d1, pos) == decode_elem(code, big, d2, pos),
{
    assert(d1[pos] == d2[pos]);
    if dt_size(code) >= 2 {
        assert(d1[pos + 1] == d2[pos + 1]);
    }
    if dt_size(code) >= 4 {
        assert(d1[pos + 2] == d2[pos + 2]);
        assert(d1[pos + 3] == d2[pos + 3]);
    }
    if dt_size(code) >= 8 {
        assert(d1[pos + 4] == d2[pos + 4]);
        assert(d1[pos + 5] == d2[pos + 5]);
        assert(d1[pos + 6] == d2[pos + 6]);
        assert(d1[pos + 7] == d2[pos + 7]);
    }
}

/// Decoding the point at `idx` reads only that point's byte window
/// `data[point_step * idx .. point_step * (idx + 1)]`: two well-formed
/// clouds sharing fields, stride and endianness that agree on the window
/// decode every field element of the point identically, whatever their
/// other bytes hold — so no other point's bytes ever reach point `idx`.
pub proof fn lemma_point_decode_local(c1: PointCloud2View, c2: PointCloud2View, idx: int)
    requires
        cloud_wf(c1),
        cloud_wf(c2),
        c1.fields == c2.fields,
        c1.point_step == c2.point_step,
        c1.is_bigendian == c2.is_bigendian,
        0 <= idx,
        idx < c1.width * c1.height,
        idx < c2.width * c2.height,
        forall|q: int|
            c1.point_step * idx <= q < c1.point_step * (idx + 1) ==> c1.data[q] == c2.data[q],
    ensures
        forall|fi: int, k: int|
            0 <= fi < c1.fields.len() && 0 <= k < c1.fields[fi].count ==> decode_elem(
                (#[trigger] c1.fields[fi]).datatype,
                c1.is_bigendian != 0,
                c1.data,
                c1.point_step * idx + c1.fields[fi].offset + #[trigger] (k * dt_size(
                    c1.fields[fi].datatype,
                )),
            ) == decode_elem(
                c1.fields[fi].datatype,
                c1.is_bigendian != 0,
                c2.data,
                c1.point_step * idx + c1.fields[fi].offset + k * dt_size(
                    c1.fields[fi].datatype,
                ),
            ),
{
    let ps = c1.point_step as int;
    assert forall|fi: int, k: int|
        0 <= fi < c1.fields.len() && 0 <= k < c1.fields[fi].count implies decode_elem(
        (#[trigger] c1.fields[fi]).datatype,
        c1.is_bigendian != 0,
        c1.data,
        c1.point_step * idx + c1.fields[fi].offset + #[trigger] (k * dt_size(
            c1.fields[fi].datatype,
        )),
    ) == decode_elem(
        c1.fields[fi].datatype,
        c1.is_bigendian != 0,
        c2.data,
        c1.point_step * idx + c1.fields[fi].offset + k * dt_size(c1.fields[fi].datatype),
    ) by {
        let f = c1.fields[fi];
        let size = dt_size(f.datatype) as int;
        let pos = ps * idx + f.offset + k * size;
        assert(dt_valid(f.datatype));
        assert(f.offset + f.count * dt_size(f.datatype) <= c1.point_step);
        assert((k + 1) * size <= f.count * size) by (nonlinear_arith)
            requires
                k < f.count,
                size >= 0,
        ;
        assert(k * size >= 0) by (nonlinear_arith)
            requires
                k >= 0,
                size >= 0,
        ;
        assert(ps * (idx + 1) == ps * idx + ps) by (nonlinear_arith);
        assert(ps * idx >= 0) by (nonlinear_arith)
            requires
                ps >= 0,
                idx >= 0,
        ;
        assert(ps * (idx + 1) <= ps * (c1.width * c1.height)) by (nonlinear_arith)
            requires
                ps >= 0,
                idx + 1 <= c1.width * c1.height,
        ;
        assert(ps * (idx + 1) <= ps * (c2.width * c2.height)) by (nonlinear_arith)
            requires
                ps >= 0,
                idx + 1 <= c2.width * c2.height,
        ;
        assert((k + 1) * size == k * size + size) by (nonlinear_arith);
        assert(pos + size <= ps * (idx + 1));
        assert(pos + size <= c1.data.len());
        assert(pos + size <= c2.data.len());
        assert forall|q: int| pos <= q < pos + size implies c1.data[q] == c2.data[q] by {
            assert(ps * idx <= q < ps * (idx + 1));
        }
        lemma_decode_elem_local(f.datatype, c1.is_bigendian != 0, c1.data, c2.data, pos);
    }
}

/// Distinct points read disjoint byte windows: for `i < j`, the window of
/// point `i` ends at or before the window of point `j` begins.
pub proof fn lemma_point_windows_disjoint(point_step: int, i: int, j: int)
    requires
        point_step >= 0,
        0 <= i < j,
    ensures
        point_step * (i + 1) <= point_step * j,
{
    assert(point_step * (i + 1) <= point_step * j) by (nonlinear_arith)
        requires
            point_step >= 0,
            i + 1 <= j,
    ;
}

} // verus!
