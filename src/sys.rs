//! Layouts of the runtime's structs whose flags are packed in bit fields.
use vstd::prelude::*;

use crate::bitfield::{field_written, holds_low_bits, reads_field, __BindgenBitfieldUnit};

verus! {

/// The flags of an array: how its data is owned, its number of dimensions, and five
/// one-bit flags.
#[allow(non_camel_case_types)]
#[derive(Debug, Copy, Clone)]
pub struct jl_array_flags_t {
    pub _bitfield_1: __BindgenBitfieldUnit<2>,
}

impl jl_array_flags_t {
    pub fn how(&self) -> (r: u16)
        ensures
            reads_field(self._bitfield_1.bytes(), 0, 2, r as u64),
    {
        self._bitfield_1.get_u16(0, 2)
    }

    pub fn set_how(&mut self, val: u16)
        ensures
            field_written(old(self)._bitfield_1.bytes(), final(self)._bitfield_1.bytes(), 0, 2, val as u64),
    {
        self._bitfield_1.set(0, 2, val as u64)
    }

    pub fn ndims(&self) -> (r: u16)
        ensures
            reads_field(self._bitfield_1.bytes(), 2, 9, r as u64),
    {
        self._bitfield_1.get_u16(2, 9)
    }

    pub fn set_ndims(&mut self, val: u16)
        ensures
            field_written(old(self)._bitfield_1.bytes(), final(self)._bitfield_1.bytes(), 2, 9, val as u64),
    {
        self._bitfield_1.set(2, 9, val as u64)
    }

    pub fn pooled(&self) -> (r: u16)
        ensures
            reads_field(self._bitfield_1.bytes(), 11, 1, r as u64),
    {
        self._bitfield_1.get_u16(11, 1)
    }

    pub fn set_pooled(&mut self, val: u16)
        ensures
            field_written(old(self)._bitfield_1.bytes(), final(self)._bitfield_1.bytes(), 11, 1, val as u64),
    {
        self._bitfield_1.set(11, 1, val as u64)
    }

    pub fn ptrarray(&self) -> (r: u16)
        ensures
            reads_field(self._bitfield_1.bytes(), 12, 1, r as u64),
    {
        self._bitfield_1.get_u16(12, 1)
    }

    pub fn set_ptrarray(&mut self, val: u16)
        ensures
            field_written(old(self)._bitfield_1.bytes(), final(self)._bitfield_1.bytes(), 12, 1, val as u64),
    {
        self._bitfield_1.set(12, 1, val as u64)
    }

    pub fn hasptr(&self) -> (r: u16)
        ensures
            reads_field(self._bitfield_1.bytes(), 13, 1, r as u64),
    {
        self._bitfield_1.get_u16(13, 1)
    }

    pub fn set_hasptr(&mut self, val: u16)
        ensures
            field_written(old(self)._bitfield_1.bytes(), final(self)._bitfield_1.bytes(), 13, 1, val as u64),
    {
        self._bitfield_1.set(13, 1, val as u64)
    }

    pub fn isshared(&self) -> (r: u16)
        ensures
            reads_field(self._bitfield_1.bytes(), 14, 1, r as u64),
    {
        self._bitfield_1.get_u16(14, 1)
    }

    pub fn set_isshared(&mut self, val: u16)
        ensures
            field_written(old(self)._bitfield_1.bytes(), final(self)._bitfield_1.bytes(), 14, 1, val as u64),
    {
        self._bitfield_1.set(14, 1, val as u64)
    }

    pub fn isaligned(&self) -> (r: u16)
        ensures
            reads_field(self._bitfield_1.bytes(), 15, 1, r as u64),
    {
        self._bitfield_1.get_u16(15, 1)
    }

    pub fn set_isaligned(&mut self, val: u16)
        ensures
            field_written(old(self)._bitfield_1.bytes(), final(self)._bitfield_1.bytes(), 15, 1, val as u64),
    {
        self._bitfield_1.set(15, 1, val as u64)
    }

    /// Packs the seven fields, each truncated to its width.
    pub fn new_bitfield_1(
        how: u16,
        ndims: u16,
        pooled: u16,
        ptrarray: u16,
        hasptr: u16,
        isshared: u16,
        isaligned: u16,
    ) -> (r: __BindgenBitfieldUnit<2>)
        ensures
            holds_low_bits(r.bytes(), 0, 2, how as u64),
            holds_low_bits(r.bytes(), 2, 9, ndims as u64),
            holds_low_bits(r.bytes(), 11, 1, pooled as u64),
            holds_low_bits(r.bytes(), 12, 1, ptrarray as u64),
            holds_low_bits(r.bytes(), 13, 1, hasptr as u64),
            holds_low_bits(r.bytes(), 14, 1, isshared as u64),
            holds_low_bits(r.bytes(), 15, 1, isaligned as u64),
    {
        let mut unit = __BindgenBitfieldUnit::new([0u8, 0u8]);
        unit.set(0, 2, how as u64);
        let ghost b1 = unit.bytes();
        unit.set(2, 9, ndims as u64);
        let ghost b2 = unit.bytes();
        unit.set(11, 1, pooled as u64);
        let ghost b3 = unit.bytes();
        unit.set(12, 1, ptrarray as u64);
        let ghost b4 = unit.bytes();
        unit.set(13, 1, hasptr as u64);
        let ghost b5 = unit.bytes();
        unit.set(14, 1, isshared as u64);
        let ghost b6 = unit.bytes();
        unit.set(15, 1, isaligned as u64);
        proof {
            let b7 = unit.bytes();
            assert forall|i: int| 0 <= i < 2 implies #[trigger] crate::bitfield::bit_of(b7, 0 + i)
                == crate::bitfield::bit_of_u64(how as u64, i) by {
                assert(crate::bitfield::bit_of(b1, 0 + i) == crate::bitfield::bit_of(b7, 0 + i));
            }
        }
        unit
    }
}

/// The description of a field in a type whose fields all lie within 256 bytes.
#[allow(non_camel_case_types)]
#[derive(Debug, Copy, Clone)]
pub struct jl_fielddesc8_t {
    pub _bitfield_1: __BindgenBitfieldUnit<1>,
    pub offset: u8,
}

impl jl_fielddesc8_t {
    pub fn isptr(&self) -> (r: u8)
        ensures
            reads_field(self._bitfield_1.bytes(), 0, 1, r as u64),
    {
        self._bitfield_1.get_u8(0, 1)
    }

    pub fn set_isptr(&mut self, val: u8)
        ensures
            field_written(old(self)._bitfield_1.bytes(), final(self)._bitfield_1.bytes(), 0, 1, val as u64),
    {
        self._bitfield_1.set(0, 1, val as u64)
    }

    pub fn size(&self) -> (r: u8)
        ensures
            reads_field(self._bitfield_1.bytes(), 1, 7, r as u64),
    {
        self._bitfield_1.get_u8(1, 7)
    }

    pub fn set_size(&mut self, val: u8)
        ensures
            field_written(old(self)._bitfield_1.bytes(), final(self)._bitfield_1.bytes(), 1, 7, val as u64),
    {
        self._bitfield_1.set(1, 7, val as u64)
    }

    /// Packs the two fields, each truncated to its width.
    pub fn new_bitfield_1(isptr: u8, size: u8) -> (r: __BindgenBitfieldUnit<1>)
        ensures
            holds_low_bits(r.bytes(), 0, 1, isptr as u64),
            holds_low_bits(r.bytes(), 1, 7, size as u64),
    {
        let mut unit = __BindgenBitfieldUnit::new([0u8]);
        unit.set(0, 1, isptr as u64);
        unit.set(1, 7, size as u64);
        unit
    }
}

/// The description of a field in a type whose fields all lie within 65536 bytes.
#[allow(non_camel_case_types)]
#[derive(Debug, Copy, Clone)]
pub struct jl_fielddesc16_t {
    pub _bitfield_1: __BindgenBitfieldUnit<2>,
    pub offset: u16,
}

impl jl_fielddesc16_t {
    pub fn isptr(&self) -> (r: u16)
        ensures
            reads_field(self._bitfield_1.bytes(), 0, 1, r as u64),
    {
        self._bitfield_1.get_u16(0, 1)
    }

    pub fn set_isptr(&mut self, val: u16)
        ensures
            field_written(old(self)._bitfield_1.bytes(), final(self)._bitfield_1.bytes(), 0, 1, val as u64),
    {
        self._bitfield_1.set(0, 1, val as u64)
    }

    pub fn size(&self) -> (r: u16)
        ensures
            reads_field(self._bitfield_1.bytes(), 1, 15, r as u64),
    {
        self._bitfield_1.get_u16(1, 15)
    }

    pub fn set_size(&mut self, val: u16)
        ensures
            field_written(old(self)._bitfield_1.bytes(), final(self)._bitfield_1.bytes(), 1, 15, val as u64),
    {
        self._bitfield_1.set(1, 15, val as u64)
    }

    /// Packs the two fields, each truncated to its width.
    pub fn new_bitfield_1(isptr: u16, size: u16) -> (r: __BindgenBitfieldUnit<2>)
        ensures
            holds_low_bits(r.bytes(), 0, 1, isptr as u64),
            holds_low_bits(r.bytes(), 1, 15, size as u64),
    {
        let mut unit = __BindgenBitfieldUnit::new([0u8, 0u8]);
        unit.set(0, 1, isptr as u64);
        unit.set(1, 15, size as u64);
        unit
    }
}

/// The description of a field in any other type.
#[allow(non_camel_case_types)]
#[derive(Debug, Copy, Clone)]
pub struct jl_fielddesc32_t {
    pub _bitfield_1: __BindgenBitfieldUnit<4>,
    pub offset: u32,
}

impl jl_fielddesc32_t {
    pub fn isptr(&self) -> (r: u32)
        ensures
            reads_field(self._bitfield_1.bytes(), 0, 1, r as u64),
    {
        self._bitfield_1.get_u32(0, 1)
    }

    pub fn set_isptr(&mut self, val: u32)
        ensures
            field_written(old(self)._bitfield_1.bytes(), final(self)._bitfield_1.bytes(), 0, 1, val as u64),
    {
        self._bitfield_1.set(0, 1, val as u64)
    }

    pub fn size(&self) -> (r: u32)
        ensures
            reads_field(self._bitfield_1.bytes(), 1, 31, r as u64),
    {
        self._bitfield_1.get_u32(1, 31)
    }

    pub fn set_size(&mut self, val: u32)
        ensures
            field_written(old(self)._bitfield_1.bytes(), final(self)._bitfield_1.bytes(), 1, 31, val as u64),
    {
        self._bitfield_1.set(1, 31, val as u64)
    }

    /// Packs the two fields, each truncated to its width.
    pub fn new_bitfield_1(isptr: u32, size: u32) -> (r: __BindgenBitfieldUnit<4>)
        ensures
            holds_low_bits(r.bytes(), 0, 1, isptr as u64),
            holds_low_bits(r.bytes(), 1, 31, size as u64),
    {
        let mut unit = __BindgenBitfieldUnit::new([0u8, 0u8, 0u8, 0u8]);
        unit.set(0, 1, isptr as u64);
        unit.set(1, 31, size as u64);
        unit
    }
}

/// The layout of a type: its fields, its pointers, its alignment and two packed flags.
#[allow(non_camel_case_types)]
#[derive(Debug, Copy, Clone)]
pub struct jl_datatype_layout_t {
    pub _bitfield_1: __BindgenBitfieldUnit<1>,
    pub nfields: u32,
    pub npointers: u32,
    pub first_ptr: i32,
    pub alignment: u16,
}

impl jl_datatype_layout_t {
    pub fn haspadding(&self) -> (r: u16)
        ensures
            reads_field(self._bitfield_1.bytes(), 0, 1, r as u64),
    {
        self._bitfield_1.get_u16(0, 1)
    }

    pub fn set_haspadding(&mut self, val: u16)
        ensures
            field_written(old(self)._bitfield_1.bytes(), final(self)._bitfield_1.bytes(), 0, 1, val as u64),
    {
        self._bitfield_1.set(0, 1, val as u64)
    }

    pub fn fielddesc_type(&self) -> (r: u16)
        ensures
            reads_field(self._bitfield_1.bytes(), 1, 2, r as u64),
    {
        self._bitfield_1.get_u16(1, 2)
    }

    pub fn set_fielddesc_type(&mut self, val: u16)
        ensures
            field_written(old(self)._bitfield_1.bytes(), final(self)._bitfield_1.bytes(), 1, 2, val as u64),
    {
        self._bitfield_1.set(1, 2, val as u64)
    }

    /// Packs the two fields, each truncated to its width.
    pub fn new_bitfield_1(haspadding: u16, fielddesc_type: u16) -> (r: __BindgenBitfieldUnit<1>)
        ensures
            holds_low_bits(r.bytes(), 0, 1, haspadding as u64),
            holds_low_bits(r.bytes(), 1, 2, fielddesc_type as u64),
    {
        let mut unit = __BindgenBitfieldUnit::new([0u8]);
        unit.set(0, 1, haspadding as u64);
        unit.set(1, 2, fielddesc_type as u64);
        unit
    }
}

/// The header bits of a value that the collector marks.
#[allow(non_camel_case_types)]
#[derive(Debug, Copy, Clone)]
pub struct _jl_taggedvalue_bits {
    pub _bitfield_1: __BindgenBitfieldUnit<1>,
}

impl _jl_taggedvalue_bits {
    pub fn gc(&self) -> (r: usize)
        ensures
            reads_field(self._bitfield_1.bytes(), 0, 2, r as u64),
    {
        self._bitfield_1.get_u8(0, 2) as usize
    }

    pub fn set_gc(&mut self, val: usize)
        ensures
            field_written(old(self)._bitfield_1.bytes(), final(self)._bitfield_1.bytes(), 0, 2, val as u64),
    {
        self._bitfield_1.set(0, 2, val as u64)
    }

    /// Packs the mark bits, truncated to their width.
    pub fn new_bitfield_1(gc: usize) -> (r: __BindgenBitfieldUnit<1>)
        ensures
            holds_low_bits(r.bytes(), 0, 2, gc as u64),
    {
        let mut unit = __BindgenBitfieldUnit::new([0u8]);
        unit.set(0, 2, gc as u64);
        unit
    }
}

} // verus!
