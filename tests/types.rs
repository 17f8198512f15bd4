use nomvm::instructions::IntSize;
use nomvm::types::{BuiltIn, Type, TypeInfo};

#[test]
fn signedness_of_builtins() {
    assert!(BuiltIn::I8.is_signed() && BuiltIn::I64.is_signed());
    assert!(!BuiltIn::U16.is_signed() && !BuiltIn::Unit.is_signed());
    assert!(BuiltIn::U32.is_unsigned() && BuiltIn::U8.is_unsigned());
    assert!(!BuiltIn::I32.is_unsigned() && !BuiltIn::Unit.is_unsigned());
}

#[test]
fn int_sizes_of_builtins() {
    assert_eq!(BuiltIn::U8.get_int_size(), Some(IntSize::OneByte));
    assert_eq!(BuiltIn::I16.get_int_size(), Some(IntSize::TwoByte));
    assert_eq!(BuiltIn::U32.get_int_size(), Some(IntSize::FourByte));
    assert_eq!(BuiltIn::I64.get_int_size(), Some(IntSize::EightByte));
    assert_eq!(BuiltIn::Unit.get_int_size(), None);
}

#[test]
fn types_from_names() {
    assert_eq!(Type::from("i8".to_string()), Type::BuiltIn(BuiltIn::I8));
    assert_eq!(Type::from("u64".to_string()), Type::BuiltIn(BuiltIn::U64));
    assert_eq!(Type::from("unit".to_string()), Type::BuiltIn(BuiltIn::Unit));
    assert_eq!(Type::from("Point".to_string()), Type::NotYetImplemented);
}

#[test]
fn type_info_holds_layout() {
    let info = TypeInfo { size: 4, alignment: 4 };
    assert_eq!(info.size, info.alignment);
}
