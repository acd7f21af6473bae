use jlrs::bitfield::__BindgenBitfieldUnit;
use jlrs::error::JlrsError;
use jlrs::field_index::{DataType, Dimensions, FieldIndexPriv};
use jlrs::runtime::{CCall, Julia};
use jlrs::stack::{FrameIdx, StackPage};
use jlrs::sys::{_jl_taggedvalue_bits, jl_array_flags_t, jl_datatype_layout_t, jl_fielddesc16_t, jl_fielddesc32_t, jl_fielddesc8_t};
use jlrs::task::BlockingFn;
use jlrs::value::{Symbol, UnionAll, Value};

#[test]
fn bits_are_read_least_significant_first() {
    let unit = __BindgenBitfieldUnit::new([0b0000_0101u8, 0b1000_0000u8]);
    assert!(unit.get_bit(0));
    assert!(!unit.get_bit(1));
    assert!(unit.get_bit(2));
    assert!(unit.get_bit(15));
    assert!(!unit.get_bit(14));
    assert_eq!(unit.get(0, 3), 0b101);
    assert_eq!(unit.get(1, 2), 0b10);
    assert_eq!(unit.get(0, 16), 0x8005);
    assert_eq!(unit.get(4, 0), 0);
}

#[test]
fn set_bit_changes_one_bit() {
    let mut unit = __BindgenBitfieldUnit::new([0u8; 2]);
    unit.set_bit(9, true);
    assert_eq!(unit.get(0, 16), 0x0200);
    unit.set_bit(0, true);
    unit.set_bit(9, false);
    assert_eq!(unit.get(0, 16), 0x0001);
}

#[test]
fn set_then_get_keeps_low_bits() {
    let mut unit = __BindgenBitfieldUnit::new([0xffu8; 4]);
    unit.set(3, 7, 0b1010101);
    assert_eq!(unit.get(3, 7), 0b1010101);
    assert_eq!(unit.get(0, 3), 0b111);
    assert_eq!(unit.get(10, 22), (1 << 22) - 1);
    unit.set(3, 2, 0xff);
    assert_eq!(unit.get(3, 7), 0b1010111);
    let mut wide = __BindgenBitfieldUnit::new([0u8; 8]);
    wide.set(0, 64, u64::MAX - 1);
    assert_eq!(wide.get(0, 64), u64::MAX - 1);
}

#[test]
fn array_flags_pack_and_unpack() {
    let mut flags = jl_array_flags_t { _bitfield_1: jl_array_flags_t::new_bitfield_1(2, 3, 0, 1, 1, 0, 1) };
    assert_eq!(flags.how(), 2);
    assert_eq!(flags.ndims(), 3);
    assert_eq!(flags.pooled(), 0);
    assert_eq!(flags.ptrarray(), 1);
    assert_eq!(flags.hasptr(), 1);
    assert_eq!(flags.isshared(), 0);
    assert_eq!(flags.isaligned(), 1);
    flags.set_ndims(511);
    flags.set_how(1);
    flags.set_pooled(1);
    flags.set_isshared(1);
    flags.set_ptrarray(0);
    flags.set_hasptr(0);
    flags.set_isaligned(0);
    assert_eq!(flags.ndims(), 511);
    assert_eq!(flags.how(), 1);
    assert_eq!(flags.pooled(), 1);
    assert_eq!(flags.isshared(), 1);
    assert_eq!(flags.ptrarray(), 0);
    assert_eq!(flags.hasptr(), 0);
    assert_eq!(flags.isaligned(), 0);
    // A value wider than its field is truncated.
    flags.set_how(7);
    assert_eq!(flags.how(), 3);
    assert_eq!(flags.ndims(), 511);
}

#[test]
fn field_descriptions_pack_and_unpack() {
    let mut d8 = jl_fielddesc8_t { _bitfield_1: jl_fielddesc8_t::new_bitfield_1(1, 100), offset: 4 };
    assert_eq!(d8.isptr(), 1);
    assert_eq!(d8.size(), 100);
    d8.set_size(127);
    d8.set_isptr(0);
    assert_eq!((d8.isptr(), d8.size(), d8.offset), (0, 127, 4));
    let mut d16 = jl_fielddesc16_t { _bitfield_1: jl_fielddesc16_t::new_bitfield_1(0, 30000), offset: 8 };
    assert_eq!((d16.isptr(), d16.size()), (0, 30000));
    d16.set_isptr(1);
    assert_eq!((d16.isptr(), d16.size()), (1, 30000));
    let mut d32 = jl_fielddesc32_t { _bitfield_1: jl_fielddesc32_t::new_bitfield_1(1, 0x7fff_ffff), offset: 16 };
    assert_eq!((d32.isptr(), d32.size()), (1, 0x7fff_ffff));
    d32.set_size(12);
    assert_eq!((d32.isptr(), d32.size()), (1, 12));
    let mut layout = jl_datatype_layout_t {
        _bitfield_1: jl_datatype_layout_t::new_bitfield_1(1, 2),
        nfields: 3,
        npointers: 1,
        first_ptr: 0,
        alignment: 8,
    };
    assert_eq!((layout.haspadding(), layout.fielddesc_type()), (1, 2));
    layout.set_fielddesc_type(1);
    layout.set_haspadding(0);
    assert_eq!((layout.haspadding(), layout.fielddesc_type()), (0, 1));
}

fn sym(name: &str) -> Symbol {
    Symbol::from_parts(name.as_bytes().to_vec(), name.len())
}

#[test]
fn symbol_name_as_string() {
    let s = sym("a_field");
    assert_eq!(s.as_string().unwrap(), "a_field");
    assert_eq!(s.as_bytes(), b"a_field");
    assert_eq!(s.hash(), 7);
    let bad = Symbol::from_parts(vec![0x66, 0xff, 0x66], 0);
    assert!(matches!(bad.as_string(), Err(JlrsError::NotUtf8)));
    let uni = Symbol::from_parts("λx".as_bytes().to_vec(), 1);
    assert_eq!(uni.as_string().unwrap(), "λx");
}

#[test]
fn union_all_as_value_keeps_address() {
    let u = UnionAll { ptr: 0x1000 };
    assert_eq!(u.as_value(), Value { ptr: 0x1000 });
}

#[test]
fn fields_are_indexed_by_name_and_number() {
    let ty = DataType::new(vec![sym("a"), sym("b"), sym("b")]);
    assert_eq!(ty.n_fields(), 3);
    assert_eq!(sym("b").field_index(&ty).unwrap(), 1);
    assert!(matches!(sym("c").field_index(&ty), Err(JlrsError::NoSuchField)));
    assert_eq!(2usize.field_index(&ty).unwrap(), 2);
    assert!(matches!(3usize.field_index(&ty), Err(JlrsError::OutOfBounds { idx: 3, n_fields: 3 })));
    assert_eq!(vec![0usize].field_index(&ty).unwrap(), 0);
    assert!(matches!(vec![0usize, 1].field_index(&ty), Err(JlrsError::FieldNeedsSimpleIndex)));
}

#[test]
fn array_elements_are_indexed_column_major() {
    let dims = Dimensions::new(vec![2, 3, 4]).unwrap();
    assert_eq!(dims.n_dimensions(), 3);
    assert_eq!(dims.index_of(&[0, 0, 0]).unwrap(), 0);
    assert_eq!(dims.index_of(&[1, 0, 0]).unwrap(), 1);
    assert_eq!(dims.index_of(&[1, 2, 3]).unwrap(), 1 + 2 * 2 + 3 * 6);
    assert!(matches!(dims.index_of(&[2, 0, 0]), Err(JlrsError::InvalidIndex)));
    assert!(matches!(
        dims.index_of(&[0, 0]),
        Err(JlrsError::IllegalNumberOfDimensions { expected: 3, found: 2 })
    ));
    assert_eq!(vec![1usize, 1, 1].array_index(&dims).unwrap(), 9);
    let line = Dimensions::new(vec![5]).unwrap();
    assert_eq!(4usize.array_index(&line).unwrap(), 4);
    assert!(matches!(5usize.array_index(&line), Err(JlrsError::InvalidIndex)));
    assert!(matches!(sym("a").array_index(&line), Err(JlrsError::ArrayNeedsNumericalIndex)));
}

#[test]
fn dimensions_must_fit_in_usize() {
    assert!(Dimensions::new(vec![usize::MAX, 2]).is_none());
    assert!(Dimensions::new(vec![usize::MAX, 2, 0]).is_some());
    assert!(Dimensions::new(vec![]).is_some());
}

struct RootAll(usize);

impl BlockingFn<usize> for RootAll {
    fn call(self, page: &mut StackPage, frame: FrameIdx) -> Result<usize, JlrsError> {
        for i in 0..self.0 {
            page.set_root(frame, i, i + 1).map_err(JlrsError::Alloc)?;
        }
        Ok(page.occupancy())
    }
}

#[test]
fn julia_scope_grows_its_page() {
    let mut julia = Julia::new();
    assert_eq!(julia.page().size(), 64);
    assert_eq!(julia.scope(RootAll(0)).unwrap(), 2);
    assert_eq!(julia.scope_with_slots(100, RootAll(100)).unwrap(), 102);
    assert_eq!(julia.page().size(), 103);
    assert_eq!(julia.page().occupancy(), 0);
    assert!(matches!(julia.scope_with_slots(1, RootAll(2)), Err(JlrsError::Alloc(_))));
    assert_eq!(julia.page().occupancy(), 0);
}

#[test]
fn ccall_scope_allocates_on_first_use() {
    let mut ccall = CCall::new();
    assert_eq!(ccall.page_size(), None);
    assert_eq!(ccall.scope_with_slots(3, RootAll(3)).unwrap(), 5);
    assert_eq!(ccall.page_size(), Some(64));
    assert_eq!(ccall.scope(RootAll(0)).unwrap(), 2);
    assert_eq!(ccall.scope_with_slots(100, RootAll(100)).unwrap(), 102);
    assert_eq!(ccall.page_size(), Some(103));
}

#[test]
fn mark_bits_pack_and_unpack() {
    let mut bits = _jl_taggedvalue_bits { _bitfield_1: _jl_taggedvalue_bits::new_bitfield_1(3) };
    assert_eq!(bits.gc(), 3);
    bits.set_gc(1);
    assert_eq!(bits.gc(), 1);
    bits.set_gc(6);
    assert_eq!(bits.gc(), 2);
}

#[test]
fn include_outcomes() {
    assert!(matches!(
        Julia::include_outcome("a.jl".to_string(), false, None),
        Err(JlrsError::IncludeNotFound(ref p)) if p == "a.jl"
    ));
    assert!(matches!(
        Julia::include_outcome("b.jl".to_string(), true, Some("LoadError".to_string())),
        Err(JlrsError::IncludeError(ref p, ref t)) if p == "b.jl" && t == "LoadError"
    ));
    assert!(Julia::include_outcome("c.jl".to_string(), true, None).is_ok());
}
