use starcoin::access_path::{self, AccessPath, DataType, InvalidDataType};
use starcoin::language_storage::{Identifier, ModuleId, MoveType, ResourceKey, StructType};
use starcoin::primitives::{hex_encode, AccountAddress, HashValue};

fn core_address() -> AccountAddress {
    let mut bytes = [0u8; 16];
    bytes[15] = 1;
    AccountAddress::new(bytes)
}

fn ident(name: &str) -> Identifier {
    Identifier::new(name.to_string()).unwrap()
}

fn account_struct_tag() -> StructType {
    StructType {
        address: core_address(),
        module: ident("Account"),
        name: ident("Account"),
        type_params: vec![],
    }
}

// The account resource is named here by its struct tag. The module of the
// code path is "TransactionManager" rather than "Test": access vectors are the
// tag byte followed by the binary encoding of the key, and a path under "Test"
// is 22 bytes long, shorter than the 32 bytes of the hash that `into_inner`
// reads, so it would be refused.
#[test]
fn test_data_type() {
    let (_address, data_type, _hash) = access_path::into_inner(AccessPath::new(
        AccountAddress::random(),
        AccessPath::resource_access_vec(&account_struct_tag()),
    ))
    .unwrap();
    assert_eq!(data_type, DataType::RESOURCE);

    let (_address, data_type, _hash) = access_path::into_inner(AccessPath::code_access_path(
        &ModuleId::new(AccountAddress::random(), ident("TransactionManager")),
    ))
    .unwrap();
    assert_eq!(data_type, DataType::CODE);
}

#[test]
fn account_tag_is_encodable() {
    assert!(account_struct_tag().encodable());
    let mut tag = account_struct_tag();
    tag.type_params = vec![MoveType::U64, MoveType::Vector(Box::new(MoveType::Struct(Box::new(account_struct_tag()))))];
    assert!(tag.encodable());
}

#[test]
fn too_deep_nesting_is_not_encodable() {
    let mut t = MoveType::U8;
    for _ in 0..600 {
        t = MoveType::Vector(Box::new(t));
    }
    let mut tag = account_struct_tag();
    tag.type_params = vec![t];
    assert!(!tag.encodable());
}

#[test]
fn resource_access_vec_encodes_tag() {
    let path = AccessPath::resource_access_vec(&account_struct_tag());
    let mut expected = vec![1u8];
    expected.extend_from_slice(&core_address().address);
    expected.push(7);
    expected.extend_from_slice(b"Account");
    expected.push(7);
    expected.extend_from_slice(b"Account");
    expected.push(0);
    assert_eq!(path, expected);
}

#[test]
fn resource_access_vec_encodes_type_params() {
    let mut tag = account_struct_tag();
    tag.type_params = vec![MoveType::U64, MoveType::Vector(Box::new(MoveType::U8))];
    let path = AccessPath::resource_access_vec(&tag);
    let tail = &path[path.len() - 4..];
    assert_eq!(tail, &[2u8, 2, 6, 1]);
}

#[test]
fn resource_access_path_uses_key_address() {
    let owner = AccountAddress::new([7u8; 16]);
    let key = ResourceKey::new(owner, account_struct_tag());
    let ap = AccessPath::resource_access_path(&key);
    assert!(ap.address == owner);
    assert_eq!(ap.path, AccessPath::resource_access_vec(&account_struct_tag()));
}

#[test]
fn code_access_path_encodes_module_id() {
    let module = ModuleId::new(core_address(), ident("Test"));
    let ap = AccessPath::code_access_path(&module);
    let mut expected = vec![0u8];
    expected.extend_from_slice(&core_address().address);
    expected.push(4);
    expected.extend_from_slice(b"Test");
    assert!(ap.address == core_address());
    assert_eq!(ap.path, expected);
}

#[test]
fn identifier_validation() {
    assert!(Identifier::new("Test".to_string()).is_ok());
    assert!(Identifier::new("_x1".to_string()).is_ok());
    assert!(Identifier::new("<SELF>".to_string()).is_ok());
    assert!(Identifier::new("_".to_string()).is_err());
    assert!(Identifier::new("1abc".to_string()).is_err());
    assert!(Identifier::new("a-b".to_string()).is_err());
    assert!(Identifier::new("".to_string()).is_err());
    assert_eq!(Identifier::new("a b".to_string()).unwrap_err().name, "a b");
}

#[test]
fn new_builds_compact_path() {
    let address = AccountAddress::new([3u8; 16]);
    let hash = HashValue::new([9u8; 32]);
    let ap = access_path::new(address, DataType::RESOURCE, hash);
    assert!(ap.address == address);
    assert_eq!(ap.path.len(), 33);
    assert_eq!(ap.path[0], 1);
    assert!(ap.path[1..].iter().all(|b| *b == 9));
}

#[test]
fn into_inner_of_new_keeps_address_and_type() {
    let address = AccountAddress::new([3u8; 16]);
    let mut bytes = [0u8; 32];
    for (i, b) in bytes.iter_mut().enumerate() {
        *b = i as u8 + 100;
    }
    let ap = access_path::new(address, DataType::CODE, HashValue::new(bytes));
    let (a, t, h) = access_path::into_inner(ap).unwrap();
    assert!(a == address);
    assert_eq!(t, DataType::CODE);
    // The hash is read from the path's first 32 bytes, type byte included.
    let mut expected = vec![0u8];
    expected.extend_from_slice(&bytes[..31]);
    assert_eq!(h.to_vec(), expected);
}

#[test]
fn into_inner_rejects_unknown_type_byte() {
    let ap = AccessPath::new(AccountAddress::new([0u8; 16]), vec![5u8; 40]);
    assert_eq!(access_path::into_inner(ap).unwrap_err(), InvalidDataType { number: 5 });
    let short = AccessPath::new(AccountAddress::new([0u8; 16]), vec![2u8]);
    assert_eq!(access_path::into_inner(short).unwrap_err(), InvalidDataType { number: 2 });
}

#[test]
fn random_paths_have_their_tags() {
    let code = access_path::random_code();
    assert_eq!(code.path.len(), 33);
    assert_eq!(code.path[0], AccessPath::CODE_TAG);
    let resource = access_path::random_resource();
    assert_eq!(resource.path.len(), 33);
    assert_eq!(resource.path[0], AccessPath::RESOURCE_TAG);
    assert_eq!(access_path::into_inner(resource).unwrap().1, DataType::RESOURCE);
}

#[test]
fn data_type_indices() {
    assert!(DataType::CODE.is_code());
    assert!(!DataType::CODE.is_resource());
    assert!(DataType::RESOURCE.is_resource());
    assert!(!DataType::RESOURCE.is_code());
    assert_eq!(DataType::CODE.type_index(), 0);
    assert_eq!(DataType::RESOURCE.type_index(), 1);
    assert_eq!(DataType::CODE.storage_index(), 0);
    assert_eq!(DataType::RESOURCE.storage_index(), 1);
    assert_eq!(DataType::LENGTH, 2);
    assert_eq!(u8::from(DataType::RESOURCE), 1);
    assert_eq!(DataType::try_from(0u8), Ok(DataType::CODE));
    assert_eq!(DataType::try_from(1u8), Ok(DataType::RESOURCE));
    assert_eq!(DataType::try_from(2u8), Err(InvalidDataType { number: 2 }));
}

#[test]
fn debug_string_shows_hex() {
    let ap = AccessPath::new(AccountAddress::new([0xabu8; 16]), vec![0x01, 0xff, 0x10]);
    assert_eq!(
        ap.debug_string(),
        "AccessPath { address: abababababababababababababababab, path: 01ff10 }"
    );
}

#[test]
fn display_string_of_short_path_is_debug_string() {
    let ap = AccessPath::new(AccountAddress::new([1u8; 16]), vec![1u8; 32]);
    assert_eq!(ap.display_string(), ap.debug_string());
}

#[test]
fn display_string_of_resource_path() {
    let mut path = vec![1u8];
    path.extend_from_slice(&[0x22u8; 32]);
    path.extend_from_slice(b"abc");
    let ap = AccessPath::new(AccountAddress::new([0u8; 16]), path);
    let hash_hex = "22".repeat(32);
    assert_eq!(
        ap.display_string(),
        format!(
            "AccessPath {{ address: {}, type: Resource, hash: \"{}\", suffix: \"abc\" }} ",
            "00".repeat(16),
            hash_hex
        )
    );
}

#[test]
fn display_string_of_module_and_other_tags() {
    let mut path = vec![0u8];
    path.extend_from_slice(&[0u8; 32]);
    let ap = AccessPath::new(AccountAddress::new([0u8; 16]), path.clone());
    assert!(ap.display_string().contains(", type: Module, hash: "));
    assert!(ap.display_string().ends_with("suffix: \"\" } "));
    path[0] = 7;
    let other = AccessPath::new(AccountAddress::new([0u8; 16]), path);
    assert!(other.display_string().contains(", type: 7, hash: "));
}

#[test]
fn display_string_quotes_invalid_utf8_suffix() {
    let mut path = vec![1u8];
    path.extend_from_slice(&[0u8; 32]);
    path.push(0xff);
    let ap = AccessPath::new(AccountAddress::new([0u8; 16]), path);
    assert!(ap.display_string().ends_with("suffix: \"\u{fffd}\" } "));
}

#[test]
fn hex_encode_is_lowercase() {
    assert_eq!(hex_encode(&[0x00, 0x0a, 0xbc, 0xff]), "000abcff");
    assert_eq!(AccountAddress::new([0xffu8; 16]).to_hex(), "f".repeat(32));
}

#[test]
fn hash_value_from_slice_checks_length() {
    let h = HashValue::from_slice(&[4u8; 32]).unwrap();
    assert_eq!(h.to_vec(), vec![4u8; 32]);
    assert_eq!(HashValue::from_slice(&[4u8; 31]).unwrap_err().found, 31);
    assert_eq!(HashValue::from_slice(&[4u8; 33]).unwrap_err().found, 33);
    assert!(HashValue::zero().same_as(&HashValue::new([0u8; 32])));
    assert!(!HashValue::zero().same_as(&h));
}

#[test]
fn struct_type_module_id() {
    let m = account_struct_tag().module_id();
    assert!(m.address == core_address());
    assert_eq!(m.name().as_str(), "Account");
}

#[test]
fn u8_debug_writes_decimal() {
    assert_eq!(starcoin::text::u8_debug(0), "0");
    assert_eq!(starcoin::text::u8_debug(7), "7");
    assert_eq!(starcoin::text::u8_debug(42), "42");
    assert_eq!(starcoin::text::u8_debug(100), "100");
    assert_eq!(starcoin::text::u8_debug(255), "255");
}
