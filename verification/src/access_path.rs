//! Access paths: the keys under which an account's code and resources are
//! kept in the state store.
//!
//! An account keeps its data in a directory-like structure. A module is found
//! under the code tag followed by the encoding of its module id; a resource
//! under the resource tag followed by the encoding of its struct type. The
//! compact form built by [`new`] is a data-type byte followed by a 32-byte hash.

use vstd::prelude::*;
use vstd::string::StringExecFns;
use crate::language_storage::{
    lemma_uleb128_nonempty, module_access_vector, struct_access_vector, struct_type_encodable, ModuleId, ResourceKey,
    StructType, CODE_TAG, MAX_CONTAINER_DEPTH, MAX_SEQUENCE_LENGTH, RESOURCE_TAG,
};
use crate::primitives::{hex_encode, hex_lower, AccountAddress, HashValue, HASH_LENGTH};
use crate::text::{debug_quoted, debug_str, decimal, u8_debug, utf8_lossy, utf8_lossy_text};

verus! {

/// The key of a piece of account data: the account and the path below it.
#[derive(Clone, PartialEq, Eq, Hash, PartialOrd, Ord)]
pub struct AccessPath {
    pub address: AccountAddress,
    pub path: Vec<u8>,
}

/// The kind of data an access path leads to.
#[derive(Clone, Copy, Debug, PartialEq, Eq, Hash, PartialOrd, Ord, Structural)]
#[allow(non_camel_case_types)]
pub enum DataType {
    CODE,
    RESOURCE,
}

/// Error of decoding a [`DataType`] from a byte that names none.
#[derive(Clone, Copy, Debug, PartialEq, Eq, Structural)]
pub struct InvalidDataType {
    pub number: u8,
}

/// The byte that stands for a data type.
pub open spec fn data_type_index(t: DataType) -> u8 {
    match t {
        DataType::CODE => 0,
        DataType::RESOURCE => 1,
    }
}

/// The data type a byte stands for, if any.
pub open spec fn data_type_of(n: u8) -> Option<DataType> {
    if n == 0 {
        Some(DataType::CODE)
    } else if n == 1 {
        Some(DataType::RESOURCE)
    } else {
        None
    }
}

impl DataType {
    /// Number of data types.
    pub const LENGTH: usize = 2;

    pub fn is_code(self) -> (res: bool)
        ensures
            res == (self == DataType::CODE),
    {
        match self {
            DataType::CODE => true,
            _ => false,
        }
    }

    pub fn is_resource(self) -> (res: bool)
        ensures
            res == (self == DataType::RESOURCE),
    {
        match self {
            DataType::RESOURCE => true,
            _ => false,
        }
    }

    /// The byte that stands for this data type.
    pub fn type_index(self) -> (res: u8)
        ensures
            res == data_type_index(self),
    {
        u8::from(self)
    }

    /// Every data type has a storage root in an account's state; this is its slot.
    pub fn storage_index(self) -> (res: usize)
        ensures
            res == data_type_index(self) as usize,
            res < DataType::LENGTH,
    {
        self.type_index() as usize
    }
}

impl From<DataType> for u8 {
    fn from(t: DataType) -> (res: u8) {
        match t {
            DataType::CODE => 0,
            DataType::RESOURCE => 1,
        }
    }
}

impl vstd::std_specs::convert::FromSpecImpl<DataType> for u8 {
    open spec fn obeys_from_spec() -> bool {
        true
    }

    open spec fn from_spec(t: DataType) -> u8 {
        data_type_index(t)
    }
}

impl TryFrom<u8> for DataType {
    type Error = InvalidDataType;

    fn try_from(number: u8) -> (res: Result<DataType, InvalidDataType>) {
        if number == 0 {
            Ok(DataType::CODE)
        } else if number == 1 {
            Ok(DataType::RESOURCE)
        } else {
            Err(InvalidDataType { number })
        }
    }
}

impl vstd::std_specs::convert::TryFromSpecImpl<u8> for DataType {
    open spec fn obeys_try_from_spec() -> bool {
        true
    }

    open spec fn try_from_spec(number: u8) -> Result<DataType, InvalidDataType> {
        match data_type_of(number) {
            Some(t) => Ok(t),
            None => Err(InvalidDataType { number }),
        }
    }
}

/// The path that [`new`] builds: the data type's byte, then the hash bytes.
pub open spec fn compact_path(data_type: DataType, hash: Seq<u8>) -> Seq<u8> {
    seq![data_type_index(data_type)] + hash
}

/// Whether [`into_inner`] returns on a path rather than panicking: the path has
/// a first byte, and when that byte names a data type, at least 32 bytes.
pub open spec fn into_inner_defined(path: Seq<u8>) -> bool {
    path.len() > 0 && (data_type_of(path[0]) is Some ==> path.len() >= HASH_LENGTH)
}

/// What [`into_inner`] gives back of a path: the data type named by the first
/// byte and, as the hash, the first 32 bytes of the path (the type byte
/// included); or the error for a first byte that names no data type.
pub open spec fn inner_parts(path: Seq<u8>) -> Result<(DataType, Seq<u8>), InvalidDataType> {
    match data_type_of(path[0]) {
        Some(t) => Ok((t, path.subrange(0, HASH_LENGTH as int))),
        None => Err(InvalidDataType { number: path[0] }),
    }
}

impl AccessPath {
    pub const CODE_TAG: u8 = 0;
    pub const RESOURCE_TAG: u8 = 1;

    pub fn new(address: AccountAddress, path: Vec<u8>) -> (res: AccessPath)
        ensures
            res.address == address,
            res.path@ == path@,
    {
        AccessPath { address, path }
    }

    /// The access vector of resources of type `tag`.
    pub fn resource_access_vec(tag: &StructType) -> (res: Vec<u8>)
        requires
            struct_type_encodable(*tag, MAX_CONTAINER_DEPTH as int),
        ensures
            res@ == struct_access_vector(*tag),
            res@[0] == RESOURCE_TAG,
    {
        tag.access_vector()
    }

    /// The access path of the resource that `key` names: under the key's
    /// account, at the access vector of the key's type.
    pub fn resource_access_path(key: &ResourceKey) -> (res: AccessPath)
        requires
            struct_type_encodable(key.type_, MAX_CONTAINER_DEPTH as int),
        ensures
            res.address == key.address,
            res.path@ == struct_access_vector(key.type_),
            res.path@[0] == RESOURCE_TAG,
    {
        let path = AccessPath::resource_access_vec(key.type_());
        AccessPath { address: key.address(), path }
    }

    fn code_access_path_vec(key: &ModuleId) -> (res: Vec<u8>)
        requires
            key.name@.len() <= MAX_SEQUENCE_LENGTH,
        ensures
            res@ == module_access_vector(key.address@, key.name@),
    {
        key.access_vector()
    }

    /// The access path of a module's code: under the module's account, at the
    /// module's access vector.
    pub fn code_access_path(key: &ModuleId) -> (res: AccessPath)
        requires
            key.name@.len() <= MAX_SEQUENCE_LENGTH,
        ensures
            res.address == key.address,
            res.path@ == module_access_vector(key.address@, key.name@),
    {
        let path = AccessPath::code_access_path_vec(key);
        AccessPath { address: *key.address(), path }
    }
}

/// Splits an access path of the compact form into its account, data type and hash.
/// The first byte must name a data type; the hash is read from the first 32
/// bytes of the path.
pub fn into_inner(access_path: AccessPath) -> (res: Result<(AccountAddress, DataType, HashValue), InvalidDataType>)
    requires
        into_inner_defined(access_path.path@),
    ensures
        match inner_parts(access_path.path@) {
            Ok((t, hash)) => res matches Ok((a, t2, h)) && a == access_path.address && t2 == t && h@ == hash,
            Err(e) => res == Err::<(AccountAddress, DataType, HashValue), InvalidDataType>(e),
        },
        res is Ok <==> access_path.path@[0] < DataType::LENGTH,
        res matches Ok((a, t, h)) ==> a == access_path.address && data_type_index(t) == access_path.path@[0]
            && h@ == access_path.path@.subrange(0, 32),
        res matches Err(e) ==> e.number == access_path.path@[0],
{
    let address = access_path.address;
    let path = access_path.path;
    let data_type = match DataType::try_from(path[0]) {
        Ok(t) => t,
        Err(e) => return Err(e),
    };
    let hash = match HashValue::from_slice(vstd::slice::slice_subrange(path.as_slice(), 0, HASH_LENGTH)) {
        Ok(h) => h,
        Err(_) => {
            // A 32-byte slice always makes a hash value.
            assert(false);
            return Err(InvalidDataType { number: path[0] });
        },
    };
    Ok((address, data_type, hash))
}

/// The compact access path of `hash` under `address`: the data type's byte
/// followed by the 32 hash bytes.
pub fn new(address: AccountAddress, data_type: DataType, hash: HashValue) -> (res: AccessPath)
    ensures
        res.address == address,
        res.path@ == compact_path(data_type, hash@),
        res.path@.len() == 33,
        res.path@[0] == data_type_index(data_type),
        res.path@.subrange(1, 33) == hash@,
{
    let mut path: Vec<u8> = Vec::new();
    path.push(data_type.type_index());
    let mut bytes = hash.to_vec();
    path.append(&mut bytes);
    AccessPath::new(address, path)
}

/// A compact code access path of a random account and hash.
pub fn random_code() -> (res: AccessPath)
    ensures
        res.path@.len() == 1 + HASH_LENGTH,
        res.path@[0] == CODE_TAG,
{
    new(AccountAddress::random(), DataType::CODE, HashValue::random())
}

/// A compact resource access path of a random account and hash.
pub fn random_resource() -> (res: AccessPath)
    ensures
        res.path@.len() == 1 + HASH_LENGTH,
        res.path@[0] == RESOURCE_TAG,
{
    new(AccountAddress::random(), DataType::RESOURCE, HashValue::random())
}

/// The debugging text of an access path: its account and its path, both in
/// lowercase hexadecimal.
pub open spec fn debug_text(address: Seq<u8>, path: Seq<u8>) -> Seq<char> {
    "AccessPath { address: "@ + hex_lower(address) + ", path: "@ + hex_lower(path) + " }"@
}

/// How the display text names the kind of data a path's first byte stands for.
pub open spec fn type_text(tag: u8) -> Seq<char> {
    if tag == RESOURCE_TAG {
        "type: Resource, "@
    } else if tag == CODE_TAG {
        "type: Module, "@
    } else {
        "type: "@ + decimal(tag as nat) + ", "@
    }
}

/// The display text of an access path. A path shorter than a tag byte and a
/// hash is shown as its debugging text; a longer one as its kind, the quoted
/// hex of the 32 bytes after the tag (hex digits need no escaping), and the
/// quoted text of the rest.
pub open spec fn display_text(address: Seq<u8>, path: Seq<u8>) -> Seq<char> {
    if path.len() < 1 + HASH_LENGTH {
        debug_text(address, path)
    } else {
        "AccessPath { address: "@ + hex_lower(address) + ", "@ + type_text(path[0])
            + "hash: "@ + seq!['"'] + hex_lower(path.subrange(1, 1 + HASH_LENGTH as int)) + seq!['"']
            + ", "@ + "suffix: "@
            + debug_quoted(utf8_lossy_text(path.subrange(1 + HASH_LENGTH as int, path.len() as int)))
            + " } "@
    }
}

impl AccessPath {
    /// The debugging text, as `{:?}` shows an access path.
    pub fn debug_string(&self) -> (res: String)
        ensures
            res@ == debug_text(self.address@, self.path@),
            res@ == "AccessPath { address: "@ + hex_lower(self.address@) + ", path: "@ + hex_lower(self.path@) + " }"@,
    {
        let mut out = String::new();
        out.append("AccessPath { address: ");
        let address = self.address.to_hex();
        out.append(address.as_str());
        out.append(", path: ");
        let path = hex_encode(self.path.as_slice());
        out.append(path.as_str());
        out.append(" }");
        out
    }

    /// The display text, as `{}` shows an access path.
    pub fn display_string(&self) -> (res: String)
        ensures
            res@ == display_text(self.address@, self.path@),
            self.path@.len() < 33 ==> res@ == "AccessPath { address: "@ + hex_lower(self.address@) + ", path: "@
                + hex_lower(self.path@) + " }"@,
            self.path@.len() >= 33 ==> res@ == "AccessPath { address: "@ + hex_lower(self.address@) + ", "@
                + (if self.path@[0] == 1 {
                    "type: Resource, "@
                } else if self.path@[0] == 0 {
                    "type: Module, "@
                } else {
                    "type: "@ + decimal(self.path@[0] as nat) + ", "@
                }) + "hash: "@ + seq!['"'] + hex_lower(self.path@.subrange(1, 33))
                + seq!['"'] + ", "@ + "suffix: "@
                + debug_quoted(utf8_lossy_text(self.path@.subrange(33, self.path@.len() as int))) + " } "@,
    {
        if self.path.len() < 1 + HASH_LENGTH {
            return self.debug_string();
        }
        let mut out = String::new();
        out.append("AccessPath { address: ");
        let address = self.address.to_hex();
        out.append(address.as_str());
        out.append(", ");
        let tag = self.path[0];
        if tag == RESOURCE_TAG {
            out.append("type: Resource, ");
        } else if tag == CODE_TAG {
            out.append("type: Module, ");
        } else {
            out.append("type: ");
            let number = u8_debug(tag);
            out.append(number.as_str());
            out.append(", ");
        }
        out.append("hash: ");
        let hash = hex_encode(vstd::slice::slice_subrange(self.path.as_slice(), 1, 1 + HASH_LENGTH));
        proof {
            crate::primitives::lemma_hex_lower_alphanumeric(self.path@.subrange(1, 1 + HASH_LENGTH as int));
        }
        let quoted_hash = debug_str(hash.as_str());
        out.append(quoted_hash.as_str());
        out.append(", ");
        out.append("suffix: ");
        let suffix = utf8_lossy(vstd::slice::slice_subrange(self.path.as_slice(), 1 + HASH_LENGTH, self.path.len()));
        let quoted_suffix = debug_str(suffix.as_str());
        out.append(quoted_suffix.as_str());
        out.append(" } ");
        out
    }
}

/// Decoding the byte of a data type gives that data type back.
pub proof fn lemma_data_type_round_trip(t: DataType)
    ensures
        data_type_of(data_type_index(t)) == Some(t),
        data_type_index(t) < DataType::LENGTH,
{
}

/// A byte that decodes to a data type is that data type's byte; only the
/// bytes 0 and 1 decode.
pub proof fn lemma_data_type_decodes(n: u8)
    ensures
        data_type_of(n) matches Some(t) ==> data_type_index(t) == n,
        data_type_of(n) is Some <==> n < DataType::LENGTH,
{
}

/// Splitting a compact path built by [`new`] gives back its data type, and
/// never panics. The hash it gives back is the first 32 bytes of the path: the
/// type byte and the first 31 bytes of the hash that went in.
pub proof fn lemma_into_inner_of_new(data_type: DataType, hash: Seq<u8>)
    requires
        hash.len() == HASH_LENGTH,
    ensures
        into_inner_defined(compact_path(data_type, hash)),
        inner_parts(compact_path(data_type, hash))
            == Ok::<(DataType, Seq<u8>), InvalidDataType>((
            data_type,
            seq![data_type_index(data_type)] + hash.take(HASH_LENGTH as int - 1),
        )),
{
    let path = compact_path(data_type, hash);
    assert(path[0] == data_type_index(data_type));
    assert(path.subrange(0, HASH_LENGTH as int) =~= seq![data_type_index(data_type)] + hash.take(HASH_LENGTH as int - 1));
}

/// Splitting a path reads its data type from the first byte and takes the
/// first 32 bytes of the path, type byte included, as the hash; a first byte
/// that names no data type is the error, carrying that byte.
pub proof fn lemma_into_inner_reads_prefix(path: Seq<u8>)
    requires
        into_inner_defined(path),
    ensures
        inner_parts(path) is Ok <==> path[0] < DataType::LENGTH,
        inner_parts(path) matches Ok((t, h)) ==> data_type_index(t) == path[0] && h.len() == 32
            && forall|i: int| 0 <= i < 32 ==> #[trigger] h[i] == path[i],
        inner_parts(path) matches Err(e) ==> e.number == path[0],
{
}

/// A compact path is the data type's byte followed by every byte of the hash,
/// in order; so two compact paths are equal only when their data types and
/// hashes are.
pub proof fn lemma_compact_path_parts(data_type: DataType, hash: Seq<u8>, other_type: DataType, other_hash: Seq<u8>)
    ensures
        compact_path(data_type, hash).len() == hash.len() + 1,
        compact_path(data_type, hash)[0] == data_type_index(data_type),
        forall|i: int| 0 <= i < hash.len() ==> #[trigger] compact_path(data_type, hash)[i + 1] == hash[i],
        compact_path(data_type, hash) == compact_path(other_type, other_hash) ==> data_type == other_type
            && hash == other_hash,
{
    let p = compact_path(data_type, hash);
    assert forall|i: int| 0 <= i < hash.len() implies #[trigger] p[i + 1] == hash[i] by {}
    if p == compact_path(other_type, other_hash) {
        let q = compact_path(other_type, other_hash);
        assert(data_type_index(data_type) == data_type_index(other_type)) by {
            assert(p[0] == q[0]);
        }
        assert(hash =~= other_hash) by {
            assert(p.len() == q.len());
            assert forall|i: int| 0 <= i < hash.len() implies hash[i] == other_hash[i] by {
                assert(p[i + 1] == hash[i]);
                assert(q[i + 1] == other_hash[i]);
            }
        }
    }
}

/// In the display text of a path of at least 33 bytes, the hash appears right
/// after the account's hex, the kind and `hash: `, as the quoted lowercase hex
/// of path bytes 1 to 32 in order, two digits per byte.
pub proof fn lemma_display_shows_hash(address: Seq<u8>, path: Seq<u8>)
    requires
        path.len() >= 33,
    ensures
        ({
            let k = (31 + hex_lower(address).len() + type_text(path[0]).len()) as int;
            let text = display_text(address, path);
            &&& text[k - 1] == '"'
            &&& text.subrange(k, k + 64) == hex_lower(path.subrange(1, 33))
            &&& text[k + 64] == '"'
        }),
{
    reveal_strlit("AccessPath { address: ");
    reveal_strlit(", ");
    reveal_strlit("hash: ");
    crate::primitives::lemma_hex_lower_alphanumeric(path.subrange(1, 33));
    let head = "AccessPath { address: "@ + hex_lower(address) + ", "@ + type_text(path[0]) + "hash: "@;
    let hex = hex_lower(path.subrange(1, 33));
    let rest = ", "@ + "suffix: "@ + debug_quoted(utf8_lossy_text(path.subrange(33, path.len() as int))) + " } "@;
    let text = display_text(address, path);
    assert(head.len() == 30 + hex_lower(address).len() + type_text(path[0]).len());
    assert(text == head + seq!['"'] + hex + seq!['"'] + rest);
    let k = (head.len() + 1) as int;
    assert(text.subrange(k, k + 64) =~= hex);
}

/// The code access path of a module whose name has at least 14 characters is
/// long enough to split, and splits as code.
pub proof fn lemma_code_path_is_code(address: Seq<u8>, name: Seq<char>)
    requires
        address.len() == 16,
        name.len() >= 14,
    ensures
        into_inner_defined(module_access_vector(address, name)),
        inner_parts(module_access_vector(address, name)) matches Ok((t, _)) && t == DataType::CODE,
{
    let path = module_access_vector(address, name);
    lemma_uleb128_nonempty(name.len());
    assert(path[0] == CODE_TAG);
    assert(path.len() >= 1 + 16 + 1 + 14);
}

/// The access path of resources of a struct type whose module and struct
/// names have at least 12 characters between them is long enough to split,
/// and splits as a resource.
pub proof fn lemma_resource_path_is_resource(tag: StructType)
    requires
        tag.module@.len() + tag.name@.len() >= 12,
    ensures
        into_inner_defined(struct_access_vector(tag)),
        inner_parts(struct_access_vector(tag)) matches Ok((t, _)) && t == DataType::RESOURCE,
{
    lemma_uleb128_nonempty(tag.module@.len());
    lemma_uleb128_nonempty(tag.name@.len());
    lemma_uleb128_nonempty(tag.type_params@.len());
    let path = struct_access_vector(tag);
    assert(path[0] == RESOURCE_TAG);
    assert(tag.address@.len() == 16);
}

} // verus!
