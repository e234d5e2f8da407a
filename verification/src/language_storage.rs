//! Identifiers, module ids and struct tags of Move, and the storage access
//! vectors computed from them.

use vstd::prelude::*;
use crate::primitives::AccountAddress;
use move_core_types::account_address as move_address;
use move_core_types::identifier as move_identifier;
use move_core_types::language_storage as move_storage;

verus! {

/// Tag byte that starts the access vector of a module.
pub const CODE_TAG: u8 = 0;

/// Tag byte that starts the access vector of a resource.
pub const RESOURCE_TAG: u8 = 1;

/// The longest sequence the binary encoding of access vectors accepts.
pub const MAX_SEQUENCE_LENGTH: usize = 0x7fff_ffff;

/// The deepest nesting of structs and enums the binary encoding accepts.
pub const MAX_CONTAINER_DEPTH: usize = 500;

pub open spec fn is_ident_letter(c: char) -> bool {
    ('a' <= c && c <= 'z') || ('A' <= c && c <= 'Z')
}

pub open spec fn is_ident_char(c: char) -> bool {
    c == '_' || is_ident_letter(c) || ('0' <= c && c <= '9')
}

/// A valid Move identifier: `<SELF>`, or a letter followed by letters, digits or
/// underscores, or an underscore followed by at least one of those.
pub open spec fn is_valid_identifier(s: Seq<char>) -> bool {
    ||| s == seq!['<', 'S', 'E', 'L', 'F', '>']
    ||| (s.len() >= 1 && is_ident_letter(s[0]) && forall|i: int| 1 <= i < s.len() ==> #[trigger] is_ident_char(s[i]))
    ||| (s.len() > 1 && s[0] == '_' && forall|i: int| 1 <= i < s.len() ==> #[trigger] is_ident_char(s[i]))
}

/// `move_core_types::identifier::Identifier::is_valid`: whether `s` is a valid identifier.
/// Claimed: the result is exactly [`is_valid_identifier`], which restates the
/// byte test of the source (valid identifiers are ASCII, so bytes and chars agree).
#[verifier::external_body]
fn identifier_is_valid(s: &str) -> (res: bool)
    ensures
        res == is_valid_identifier(s@),
{
    move_identifier::Identifier::is_valid(s)
}

/// Error of [`Identifier::new`]: the string is not a valid identifier.
#[derive(Clone, Debug, PartialEq, Eq)]
pub struct InvalidIdentifier {
    pub name: String,
}

/// The name of a Move module, struct or function.
#[derive(Debug, PartialEq, Eq, Hash, PartialOrd, Ord)]
pub struct Identifier {
    name: String,
}

impl Clone for Identifier {
    fn clone(&self) -> (res: Self)
        ensures
            res@ == self@,
    {
        proof {
            use_type_invariant(self);
        }
        Identifier { name: self.name.clone() }
    }
}

impl View for Identifier {
    type V = Seq<char>;

    closed spec fn view(&self) -> Seq<char> {
        self.name@
    }
}

impl Identifier {
    #[verifier::type_invariant]
    spec fn well_formed(self) -> bool {
        is_valid_identifier(self.name@)
    }

    /// Accepts `name` when it is a valid identifier.
    pub fn new(name: String) -> (res: Result<Identifier, InvalidIdentifier>)
        ensures
            is_valid_identifier(name@) <==> res is Ok,
            res matches Ok(id) ==> id@ == name@,
            res matches Err(e) ==> e.name@ == name@,
    {
        if identifier_is_valid(name.as_str()) {
            Ok(Identifier { name })
        } else {
            Err(InvalidIdentifier { name })
        }
    }

    pub fn as_str(&self) -> (res: &str)
        ensures
            res@ == self@,
            is_valid_identifier(self@),
    {
        proof {
            use_type_invariant(self);
        }
        self.name.as_str()
    }
}

/// The unsigned LEB128 encoding of a length.
pub open spec fn uleb128(n: nat) -> Seq<u8>
    decreases n,
{
    if n < 128 {
        seq![n as u8]
    } else {
        seq![((n % 128) + 128) as u8] + uleb128(n / 128)
    }
}

/// A LEB128 encoding takes at least one byte.
pub proof fn lemma_uleb128_nonempty(n: nat)
    ensures
        uleb128(n).len() >= 1,
{
    reveal_with_fuel(uleb128, 2);
}

/// The bytes of an ASCII string.
pub open spec fn ascii_bytes(s: Seq<char>) -> Seq<u8> {
    s.map_values(|c: char| c as u8)
}

/// The access vector of a module: the code tag, then the binary encoding of the
/// module id (the 16 address bytes, the name's length in LEB128, the name's bytes).
pub open spec fn module_access_vector(address: Seq<u8>, name: Seq<char>) -> Seq<u8> {
    seq![CODE_TAG] + address + uleb128(name.len()) + ascii_bytes(name)
}

/// `ModuleId::access_vector` of `move_core_types`, on the module at `address`
/// named `name`. Claimed: `[CODE_TAG]` followed by the BCS encoding of the module
/// id, as [`module_access_vector`] spells it out; valid names are ASCII and the
/// length bound keeps the encoder from failing.
#[verifier::external_body]
fn module_id_access_vector(address: &AccountAddress, name: &str) -> (res: Vec<u8>)
    requires
        is_valid_identifier(name@),
        name@.len() <= MAX_SEQUENCE_LENGTH,
    ensures
        res@ == module_access_vector(address@, name@),
{
    let name = move_identifier::Identifier::new(name).expect("a valid identifier");
    let address = move_address::AccountAddress::new(address.address);
    move_storage::ModuleId::new(address, name).access_vector()
}

/// A module: the account it is published under and its name.
#[derive(Clone, Debug, PartialEq, Eq, Hash, PartialOrd, Ord)]
pub struct ModuleId {
    pub address: AccountAddress,
    pub name: Identifier,
}

impl ModuleId {
    pub fn new(address: AccountAddress, name: Identifier) -> (res: ModuleId)
        ensures
            res.address == address,
            res.name == name,
    {
        ModuleId { address, name }
    }

    pub fn address(&self) -> (res: &AccountAddress)
        ensures
            *res == self.address,
    {
        &self.address
    }

    pub fn name(&self) -> (res: &Identifier)
        ensures
            *res == self.name,
    {
        &self.name
    }

    /// The storage key of the module's code: [`module_access_vector`] of its
    /// address and name.
    pub fn access_vector(&self) -> (res: Vec<u8>)
        requires
            self.name@.len() <= MAX_SEQUENCE_LENGTH,
        ensures
            res@ == module_access_vector(self.address@, self.name@),
    {
        let name = self.name.as_str();
        module_id_access_vector(&self.address, name)
    }
}

/// The type of a Move value, as it appears among a struct's type parameters.
#[derive(Debug, PartialEq, Eq, Hash, PartialOrd, Ord)]
pub enum MoveType {
    Bool,
    U8,
    U64,
    U128,
    Address,
    Signer,
    Vector(Box<MoveType>),
    Struct(Box<StructType>),
}

/// A struct type: the module that declares it, its name and its type arguments.
#[derive(Debug, PartialEq, Eq, Hash, PartialOrd, Ord)]
pub struct StructType {
    pub address: AccountAddress,
    pub module: Identifier,
    pub name: Identifier,
    pub type_params: Vec<MoveType>,
}

/// The key of a resource in global storage: the owning account and the resource's type.
#[derive(Debug, PartialEq, Eq, Hash, PartialOrd, Ord)]
pub struct ResourceKey {
    pub address: AccountAddress,
    pub type_: StructType,
}

/// Whether a type tag can be encoded: every name and list short enough, and no
/// more than `budget` structs and enums nested along any path.
pub open spec fn move_type_encodable(t: MoveType, budget: int) -> bool
    decreases t, 0int, 0int,
{
    budget >= 1 && match t {
        MoveType::Vector(inner) => move_type_encodable(*inner, budget - 1),
        MoveType::Struct(s) => struct_type_encodable(*s, budget - 1),
        _ => true,
    }
}

/// Whether a struct tag can be encoded within `budget` levels of nesting
/// (see [`move_type_encodable`]): its names and its list of type arguments
/// short enough, and each type argument encodable within one level less.
pub open spec fn struct_type_encodable(s: StructType, budget: int) -> bool
    decreases s, 1int, 0int,
{
    &&& budget >= 2
    &&& s.module@.len() <= MAX_SEQUENCE_LENGTH
    &&& s.name@.len() <= MAX_SEQUENCE_LENGTH
    &&& s.type_params@.len() <= MAX_SEQUENCE_LENGTH
    &&& type_params_encodable(s, 0, budget - 1)
}

/// Whether a struct type's type arguments from the `k`-th on are each
/// encodable within `budget` levels of nesting.
pub open spec fn type_params_encodable(s: StructType, k: int, budget: int) -> bool
    decreases s, 0int, s.type_params@.len() - k,
{
    if 0 <= k < s.type_params@.len() {
        proof {
            assert(decreases_to!(s => s.type_params));
            assert(decreases_to!(s.type_params => s.type_params@));
            assert(decreases_to!(s.type_params@ => s.type_params@[k]));
        }
        move_type_encodable(s.type_params@[k], budget) && type_params_encodable(s, k + 1, budget)
    } else {
        true
    }
}

/// The binary encoding of a type: the index of its variant (in the order
/// `Bool`, `U8`, `U64`, `U128`, `Address`, `Signer`, `Vector`, `Struct`),
/// then the encoding of what the variant holds.
pub open spec fn move_type_bytes(t: MoveType) -> Seq<u8>
    decreases t, 0int, 0int,
{
    match t {
        MoveType::Bool => seq![0u8],
        MoveType::U8 => seq![1u8],
        MoveType::U64 => seq![2u8],
        MoveType::U128 => seq![3u8],
        MoveType::Address => seq![4u8],
        MoveType::Signer => seq![5u8],
        MoveType::Vector(inner) => seq![6u8] + move_type_bytes(*inner),
        MoveType::Struct(s) => seq![7u8] + struct_type_bytes(*s),
    }
}

/// The binary encoding of a struct type: the 16 address bytes, the module and
/// struct names each after its length in LEB128, then the number of type
/// arguments in LEB128 and their encodings in order.
pub open spec fn struct_type_bytes(s: StructType) -> Seq<u8>
    decreases s, 1int, 0int,
{
    s.address@ + uleb128(s.module@.len()) + ascii_bytes(s.module@) + uleb128(s.name@.len())
        + ascii_bytes(s.name@) + uleb128(s.type_params@.len()) + type_params_bytes(s, 0)
}

/// The encodings of a struct type's type arguments from the `k`-th on, in order.
pub open spec fn type_params_bytes(s: StructType, k: int) -> Seq<u8>
    decreases s, 0int, s.type_params@.len() - k,
{
    if 0 <= k < s.type_params@.len() {
        proof {
            assert(decreases_to!(s => s.type_params));
            assert(decreases_to!(s.type_params => s.type_params@));
            assert(decreases_to!(s.type_params@ => s.type_params@[k]));
        }
        move_type_bytes(s.type_params@[k]) + type_params_bytes(s, k + 1)
    } else {
        Seq::empty()
    }
}

/// The access vector of resources of a struct type: the resource tag, then
/// the binary encoding of the type.
pub open spec fn struct_access_vector(tag: StructType) -> Seq<u8> {
    seq![RESOURCE_TAG] + struct_type_bytes(tag)
}

/// The type-tag type of `move_core_types`, built from a [`MoveType`] to compute access vectors.
#[verifier::external_type_specification]
#[verifier::external_body]
pub struct ExMoveTypeTag(move_storage::TypeTag);

/// Converts a type, level by level, into the `move_core_types` type tag it
/// stands for, for [`struct_tag_access_vector`]: each variant becomes the
/// variant of the same name, and a struct type the struct tag with the same
/// address, names and (converted) type arguments.
#[verifier::external_body]
fn to_move_type_tag(t: &MoveType) -> move_storage::TypeTag {
    match t {
        MoveType::Bool => move_storage::TypeTag::Bool,
        MoveType::U8 => move_storage::TypeTag::U8,
        MoveType::U64 => move_storage::TypeTag::U64,
        MoveType::U128 => move_storage::TypeTag::U128,
        MoveType::Address => move_storage::TypeTag::Address,
        MoveType::Signer => move_storage::TypeTag::Signer,
        MoveType::Vector(inner) => move_storage::TypeTag::Vector(Box::new(to_move_type_tag(inner))),
        MoveType::Struct(s) => move_storage::TypeTag::Struct(move_storage::StructTag {
            address: move_address::AccountAddress::new(s.address.address),
            module: move_identifier::Identifier::new(s.module.as_str()).expect("a valid identifier"),
            name: move_identifier::Identifier::new(s.name.as_str()).expect("a valid identifier"),
            type_params: s.type_params.iter().map(to_move_type_tag).collect(),
        }),
    }
}

/// `StructTag::access_vector` of `move_core_types`, on the struct tag that
/// `tag` stands for. Claimed: `[RESOURCE_TAG]` followed by the BCS encoding of
/// the tag, as [`struct_access_vector`] spells it out (BCS writes a struct's
/// fields in order, a fixed-size array as its bytes, a string or sequence after
/// its length in LEB128, an enum value after its variant index). The encoder
/// fails (and the call panics) beyond the bounds that [`struct_type_encodable`]
/// states; they are required.
#[verifier::external_body]
fn struct_tag_access_vector(tag: &StructType) -> (res: Vec<u8>)
    requires
        struct_type_encodable(*tag, MAX_CONTAINER_DEPTH as int),
    ensures
        res@ == struct_access_vector(*tag),
{
    let tag = move_storage::StructTag {
        address: move_address::AccountAddress::new(tag.address.address),
        module: move_identifier::Identifier::new(tag.module.as_str()).expect("a valid identifier"),
        name: move_identifier::Identifier::new(tag.name.as_str()).expect("a valid identifier"),
        type_params: tag.type_params.iter().map(to_move_type_tag).collect(),
    };
    tag.access_vector()
}

/// Whether a type can be encoded within `budget` levels of nesting: the
/// executable form of [`move_type_encodable`].
fn move_type_fits(t: &MoveType, budget: usize) -> (res: bool)
    ensures
        res == move_type_encodable(*t, budget as int),
    decreases *t,
{
    if budget < 1 {
        return false;
    }
    match t {
        MoveType::Vector(inner) => move_type_fits(inner, budget - 1),
        MoveType::Struct(s) => struct_type_fits(s, budget - 1),
        _ => true,
    }
}

/// Whether a struct type can be encoded within `budget` levels of nesting:
/// the executable form of [`struct_type_encodable`].
fn struct_type_fits(s: &StructType, budget: usize) -> (res: bool)
    ensures
        res == struct_type_encodable(*s, budget as int),
    decreases *s,
{
    if budget < 2 {
        return false;
    }
    if s.module.as_str().unicode_len() > MAX_SEQUENCE_LENGTH || s.name.as_str().unicode_len() > MAX_SEQUENCE_LENGTH
        || s.type_params.len() > MAX_SEQUENCE_LENGTH {
        return false;
    }
    let mut i: usize = 0;
    while i < s.type_params.len()
        invariant
            budget >= 2,
            i <= s.type_params@.len(),
            type_params_encodable(*s, 0, budget - 1) == type_params_encodable(*s, i as int, budget - 1),
        decreases s.type_params@.len() - i,
    {
        proof {
            assert(decreases_to!(*s => s.type_params));
            assert(decreases_to!(s.type_params => s.type_params@));
            assert(decreases_to!(s.type_params@ => s.type_params@[i as int]));
        }
        if !move_type_fits(&s.type_params[i], budget - 1) {
            return false;
        }
        i = i + 1;
    }
    true
}

impl StructType {
    /// Whether resources of this type have an access vector: every name and
    /// list short enough, and the nesting of the type within the encoder's depth.
    pub fn encodable(&self) -> (res: bool)
        ensures
            res == struct_type_encodable(*self, MAX_CONTAINER_DEPTH as int),
    {
        struct_type_fits(self, MAX_CONTAINER_DEPTH)
    }

    /// The storage key of resources of this type.
    pub fn access_vector(&self) -> (res: Vec<u8>)
        requires
            struct_type_encodable(*self, MAX_CONTAINER_DEPTH as int),
        ensures
            res@ == struct_access_vector(*self),
            res@.len() >= 20 + self.module@.len() + self.name@.len(),
            res@[0] == RESOURCE_TAG,
    {
        let res = struct_tag_access_vector(self);
        proof {
            lemma_uleb128_nonempty(self.module@.len());
            lemma_uleb128_nonempty(self.name@.len());
            lemma_uleb128_nonempty(self.type_params@.len());
        }
        res
    }

    /// The module that declares the struct.
    pub fn module_id(&self) -> (res: ModuleId)
        ensures
            res.address == self.address,
            res.name@ == self.module@,
    {
        ModuleId::new(self.address, self.module.clone())
    }
}

impl ResourceKey {
    pub fn new(address: AccountAddress, type_: StructType) -> (res: ResourceKey)
        ensures
            res.address == address,
            res.type_ == type_,
    {
        ResourceKey { address, type_ }
    }

    pub fn address(&self) -> (res: AccountAddress)
        ensures
            res == self.address,
    {
        self.address
    }

    pub fn type_(&self) -> (res: &StructType)
        ensures
            *res == self.type_,
    {
        &self.type_
    }
}

} // verus!
