//! Named Binary Tag data: what the `nbt` crate holds, and the fields that are read from and
//! written to it.
use crate::json::{parsed_fields, JsonItem};
use vstd::prelude::*;

verus! {

/// `nbt::Blob`: a map from names to tags, the root of an NBT file.
#[verifier::external_type_specification]
#[verifier::external_body]
pub struct ExBlob(nbt::Blob);

/// `nbt::Value`: a single tag.
#[verifier::external_type_specification]
#[verifier::external_body]
pub struct ExNbtValue(nbt::Value);

/// `nbt::Error`: why NBT data could not be read or written.
#[verifier::external_type_specification]
#[verifier::external_body]
pub struct ExNbtError(nbt::Error);

/// A tag as contracts speak of it. Floating-point numbers and strings, which nothing here
/// reads, are `Other`.
pub ghost enum Tag {
    Byte(i8),
    Short(i16),
    Int(i32),
    Long(i64),
    ByteArray(Seq<i8>),
    IntArray(Seq<i32>),
    LongArray(Seq<i64>),
    List(Seq<Tag>),
    Compound(Map<Seq<char>, Tag>),
    Other,
}

/// The named tags that a blob holds.
pub uninterp spec fn blob_tags(blob: nbt::Blob) -> Map<Seq<char>, Tag>;

/// The name of a blob itself.
pub uninterp spec fn blob_title(blob: nbt::Blob) -> Seq<char>;

/// What a value of the `nbt` crate holds: a number, an array, or the tags of a list or compound.
pub uninterp spec fn value_tag(value: nbt::Value) -> Tag;

/// The root tags of a gzip-compressed NBT file with the given bytes, if they are one, by the
/// reader that gives every number the narrowest type that holds it.
pub uninterp spec fn gzip_tags(bytes: Seq<u8>) -> Option<Map<Seq<char>, Tag>>;

/// The root tags of a gzip-compressed NBT file with the given bytes, if they are one, by the
/// reader that keeps the types of the file.
pub uninterp spec fn typed_gzip_tags(bytes: Seq<u8>) -> Option<Map<Seq<char>, Tag>>;

/// A tag of one of the types that are read and written here.
pub enum NbtField {
    Byte(i8),
    Int(i32),
    Long(i64),
    ByteArray(Vec<i8>),
}

impl View for NbtField {
    type V = Tag;

    open spec fn view(&self) -> Tag {
        match *self {
            NbtField::Byte(n) => Tag::Byte(n),
            NbtField::Int(n) => Tag::Int(n),
            NbtField::Long(n) => Tag::Long(n),
            NbtField::ByteArray(b) => Tag::ByteArray(b@),
        }
    }
}

/// Why a field could not be read.
#[derive(Debug, Clone, Copy, PartialEq, Eq, Structural)]
pub enum FieldError {
    /// There is no field of that name.
    Missing,
    /// The field holds another type of tag.
    WrongType,
}

impl FieldError {
    /// A description of the error.
    pub fn message(&self) -> (r: &'static str)
        ensures
            r@ == match *self {
                FieldError::Missing => "Field does not exist!"@,
                FieldError::WrongType => "Field has wrong type!"@,
            },
    {
        match self {
            FieldError::Missing => "Field does not exist!",
            FieldError::WrongType => "Field has wrong type!",
        }
    }
}

/// Whether `NbtField` has a variant for the tag.
pub open spec fn is_plain(tag: Tag) -> bool {
    tag is Byte || tag is Int || tag is Long || tag is ByteArray
}

/// No tags at all.
pub open spec fn no_tags() -> Map<Seq<char>, Tag> {
    Map::empty()
}

/// The tag of the given name, if there is one.
pub open spec fn tag_named(tags: Map<Seq<char>, Tag>, name: Seq<char>) -> Option<Tag> {
    if tags.contains_key(name) {
        Some(tags[name])
    } else {
        None
    }
}

/// A field to be read as an `i64`.
pub open spec fn as_long(field: Option<Tag>) -> Result<i64, FieldError> {
    match field {
        None => Err(FieldError::Missing),
        Some(Tag::Long(n)) => Ok(n),
        Some(_) => Err(FieldError::WrongType),
    }
}

/// A field to be read as an `i32`.
pub open spec fn as_int(field: Option<Tag>) -> Result<i32, FieldError> {
    match field {
        None => Err(FieldError::Missing),
        Some(Tag::Int(n)) => Ok(n),
        Some(_) => Err(FieldError::WrongType),
    }
}

/// A field to be read as an `i8`.
pub open spec fn as_byte(field: Option<Tag>) -> Result<i8, FieldError> {
    match field {
        None => Err(FieldError::Missing),
        Some(Tag::Byte(n)) => Ok(n),
        Some(_) => Err(FieldError::WrongType),
    }
}

/// A field to be read as a `bool`: a byte, true if it is positive.
pub open spec fn as_bool(field: Option<Tag>) -> Result<bool, FieldError> {
    match as_byte(field) {
        Ok(n) => Ok(n > 0),
        Err(e) => Err(e),
    }
}

/// The same bit patterns as unsigned bytes.
pub open spec fn unsigned_bytes(bytes: Seq<i8>) -> Seq<u8> {
    Seq::new(bytes.len(), |i: int| bytes[i] as u8)
}

/// The same bit patterns as signed bytes.
pub open spec fn signed_bytes(bytes: Seq<u8>) -> Seq<i8> {
    Seq::new(bytes.len(), |i: int| bytes[i] as i8)
}

/// A field to be read as bytes.
pub open spec fn as_bytes(field: Option<Tag>) -> Result<Seq<u8>, FieldError> {
    match field {
        None => Err(FieldError::Missing),
        Some(Tag::ByteArray(b)) => Ok(unsigned_bytes(b)),
        Some(_) => Err(FieldError::WrongType),
    }
}

/// The tags of a list of named fields; the last of several fields of one name counts.
pub open spec fn compound_tags(fields: Seq<(&'static str, NbtField)>) -> Map<Seq<char>, Tag>
    decreases fields.len(),
{
    if fields.len() == 0 {
        Map::empty()
    } else {
        compound_tags(fields.drop_last()).insert(fields.last().0@, fields.last().1@)
    }
}

/// The tag of the narrowest integer type that holds `n`.
pub open spec fn narrowest(n: i64) -> Tag {
    if i8::MIN <= n <= i8::MAX {
        Tag::Byte(n as i8)
    } else if i16::MIN <= n <= i16::MAX {
        Tag::Short(n as i16)
    } else if i32::MIN <= n <= i32::MAX {
        Tag::Int(n as i32)
    } else {
        Tag::Long(n)
    }
}

/// A number or byte array with a number's type narrowed as far as its value allows.
pub open spec fn narrowed(tag: Tag) -> Tag {
    match tag {
        Tag::Byte(n) => narrowest(n as i64),
        Tag::Int(n) => narrowest(n as i64),
        Tag::Long(n) => narrowest(n),
        _ => tag,
    }
}

/// A map of compounds with all numbers in them narrowed.
pub open spec fn narrowed_compounds(tags: Map<Seq<char>, Tag>) -> Map<Seq<char>, Tag> {
    tags.map_values(
        |tag: Tag|
            match tag {
                Tag::Compound(fields) => Tag::Compound(fields.map_values(|t: Tag| narrowed(t))),
                _ => tag,
            },
    )
}

/// Whether a name is short enough for its length to be stored.
pub open spec fn name_fits(name: Seq<char>) -> bool {
    name.len() <= 10_000
}

/// Whether a field can be stored: a number, or a byte array with a length that an `i32` holds.
pub open spec fn field_fits(name: Seq<char>, tag: Tag) -> bool {
    name_fits(name) && is_plain(tag) && (tag matches Tag::ByteArray(b) ==> b.len() <= i32::MAX)
}

/// Whether all of a blob's tags are compounds of fields that can be stored.
pub open spec fn blob_fits(tags: Map<Seq<char>, Tag>) -> bool {
    forall|name: Seq<char>| #[trigger]
        tags.contains_key(name) ==> name_fits(name) && tags[name] is Compound && (forall|
            field: Seq<char>,
        | #[trigger]
            tags[name]->Compound_0.contains_key(field) ==> field_fits(
                field,
                tags[name]->Compound_0[field],
            ))
}

/// Whether arrays, lists and compounds are nested at most `depth` deep in the tag.
pub open spec fn nested_within(tag: Tag, depth: nat) -> bool
    decreases depth,
{
    match tag {
        Tag::ByteArray(_) | Tag::IntArray(_) | Tag::LongArray(_) => depth > 0,
        Tag::List(items) => depth > 0 && forall|i: int|
            0 <= i < items.len() ==> nested_within(#[trigger] items[i], (depth - 1) as nat),
        Tag::Compound(fields) => depth > 0 && forall|name: Seq<char>| #[trigger]
            fields.contains_key(name) ==> nested_within(fields[name], (depth - 1) as nat),
        _ => true,
    }
}

/// The number that a tag holds, if it is an integer.
pub open spec fn integer_of(tag: Tag) -> Option<i64> {
    match tag {
        Tag::Byte(n) => Some(n as i64),
        Tag::Short(n) => Some(n as i64),
        Tag::Int(n) => Some(n as i64),
        Tag::Long(n) => Some(n),
        _ => None,
    }
}

/// A tag as an item of JSON: integers stay integers, arrays and lists become arrays.
pub open spec fn json_item(tag: Tag) -> JsonItem {
    match tag {
        Tag::ByteArray(b) => JsonItem::Array(Seq::new(b.len(), |i: int| Some(b[i] as i64))),
        Tag::IntArray(b) => JsonItem::Array(Seq::new(b.len(), |i: int| Some(b[i] as i64))),
        Tag::LongArray(b) => JsonItem::Array(Seq::new(b.len(), |i: int| Some(b[i]))),
        Tag::List(items) => JsonItem::Array(
            Seq::new(items.len(), |i: int| integer_of(items[i])),
        ),
        _ => match integer_of(tag) {
            Some(n) => JsonItem::Integer(n as int),
            None => JsonItem::Other,
        },
    }
}

/// The fields of a tag's JSON form: those of a compound, and none of any other tag.
pub open spec fn json_fields_of(tag: Tag) -> Map<Seq<char>, JsonItem> {
    match tag {
        Tag::Compound(fields) => fields.map_values(|t: Tag| json_item(t)),
        _ => Map::empty(),
    }
}

/// `nbt::from_gzip_reader`: reads a gzip-compressed NBT file. It succeeds on exactly the bytes
/// that have root tags, and the blob holds those tags. It calls itself for every level of
/// nesting; that the stack is deep enough for the data is not stated.
#[verifier::external_body]
pub(crate) fn blob_from_gzip(bytes: &[u8]) -> (r: Result<nbt::Blob, nbt::Error>)
    ensures
        r is Ok <==> gzip_tags(bytes@) is Some,
        r matches Ok(blob) ==> gzip_tags(bytes@) == Some(blob_tags(blob)),
{
    nbt::from_gzip_reader(bytes)
}

/// `nbt::Blob::from_gzip_reader`: reads a gzip-compressed NBT file and keeps the types of its
/// tags. It succeeds on exactly the bytes that have root tags, and the blob holds those tags. It
/// panics on arrays and lists of negative length. Bytes that `nbt::from_gzip_reader` reads have
/// none: that reader takes such a length for one of at least 2^31 elements, and fails unless they
/// all follow, which is left aside like running out of memory. It calls
/// itself for every level of nesting; that the stack is deep enough for the data is not stated.
#[verifier::external_body]
pub(crate) fn typed_blob_from_gzip(bytes: &[u8]) -> (r: Result<nbt::Blob, nbt::Error>)
    requires
        gzip_tags(bytes@) is Some,
    ensures
        r is Ok <==> typed_gzip_tags(bytes@) is Some,
        r matches Ok(blob) ==> typed_gzip_tags(bytes@) == Some(blob_tags(blob)),
{
    let mut reader = bytes;
    nbt::Blob::from_gzip_reader(&mut reader)
}

/// `nbt::Blob::to_gzip_writer`: the bytes of a gzip-compressed NBT file with the blob's tags, in
/// any order. For a blob of compounds of storable fields it succeeds, and reading the bytes back
/// gives the same tags, or, by the reader that narrows, the same compounds with every number in
/// the narrowest type that holds it. Nothing is said of other blobs.
#[verifier::external_body]
pub(crate) fn blob_to_gzip(blob: &nbt::Blob) -> (r: Result<Vec<u8>, nbt::Error>)
    ensures
        name_fits(blob_title(*blob)) && blob_fits(blob_tags(*blob)) ==> r is Ok,
        name_fits(blob_title(*blob)) && blob_fits(blob_tags(*blob)) ==> (r matches Ok(bytes) ==> {
            &&& gzip_tags(bytes@) == Some(narrowed_compounds(blob_tags(*blob)))
            &&& typed_gzip_tags(bytes@) == Some(blob_tags(*blob))
        }),
{
    let mut bytes: Vec<u8> = Vec::new();
    blob.to_gzip_writer(&mut bytes)?;
    Ok(bytes)
}

/// `nbt::Blob::new`: a blob without tags, with an empty name.
#[verifier::external_body]
pub(crate) fn new_blob() -> (blob: nbt::Blob)
    ensures
        blob_tags(blob) == no_tags(),
        blob_title(blob).len() == 0,
{
    nbt::Blob::new()
}

/// `nbt::Blob::insert` of a compound: adds or replaces the tag of the given name. The blob's own
/// name stays. It fails for lists only, of which a compound is none.
#[verifier::external_body]
pub(crate) fn blob_insert(
    blob: &mut nbt::Blob,
    name: &str,
    fields: Vec<(&'static str, NbtField)>,
) -> (r: Result<(), nbt::Error>)
    ensures
        r is Ok,
        blob_title(*final(blob)) == blob_title(*old(blob)),
        blob_tags(*final(blob)) == blob_tags(*old(blob)).insert(
            name@,
            Tag::Compound(compound_tags(fields@)),
        ),
{
    let values = fields.into_iter().map(|(name, field)| match field {
        NbtField::Byte(n) => (name.to_string(), nbt::Value::Byte(n)),
        NbtField::Int(n) => (name.to_string(), nbt::Value::Int(n)),
        NbtField::Long(n) => (name.to_string(), nbt::Value::Long(n)),
        NbtField::ByteArray(bytes) => (name.to_string(), nbt::Value::ByteArray(bytes)),
    });
    blob.insert(name, nbt::Value::Compound(values.collect()))
}

/// `nbt::Blob::get`: the value of the given name, if there is one.
#[verifier::external_body]
pub(crate) fn blob_get<'a>(blob: &'a nbt::Blob, name: &'static str) -> (r: Option<&'a nbt::Value>)
    ensures
        r is Some <==> blob_tags(*blob).contains_key(name@),
        r matches Some(value) ==> value_tag(*value) == blob_tags(*blob)[name@],
{
    blob.get(name)
}

/// The variant of an `nbt::Value` and what it holds, for the four types of tag that `NbtField`
/// has.
#[verifier::external_body]
fn value_field(value: &nbt::Value) -> (r: Option<NbtField>)
    ensures
        r is Some <==> is_plain(value_tag(*value)),
        r matches Some(field) ==> field@ == value_tag(*value),
{
    match value {
        nbt::Value::Byte(n) => Some(NbtField::Byte(*n)),
        nbt::Value::Int(n) => Some(NbtField::Int(*n)),
        nbt::Value::Long(n) => Some(NbtField::Long(*n)),
        nbt::Value::ByteArray(bytes) => Some(NbtField::ByteArray(bytes.clone())),
        _ => None,
    }
}

/// `serde_json::to_string` of an NBT value: the JSON text of the value, which there always is.
/// The text can be parsed again exactly if the value is nested at most 127 deep, the limit of
/// `serde_json`, and the fields that are then found are those of the value.
#[verifier::external_body]
pub(crate) fn value_to_json(value: &nbt::Value) -> (r: Result<String, serde_json::Error>)
    ensures
        r is Ok,
        r matches Ok(text) ==> parsed_fields(text@) == if nested_within(value_tag(*value), 127) {
            Some(json_fields_of(value_tag(*value)))
        } else {
            None
        },
{
    serde_json::to_string(value)
}

/// What `read_nbt_i64` makes of a field that was looked up: `None` if there is no such field,
/// `Some(None)` if it has none of the types of `NbtField`.
pub fn long_field(field: Option<Option<NbtField>>) -> (r: Result<i64, FieldError>)
    ensures
        r == match field {
            None => Err::<i64, FieldError>(FieldError::Missing),
            Some(Some(NbtField::Long(n))) => Ok(n),
            Some(_) => Err(FieldError::WrongType),
        },
{
    match field {
        None => Err(FieldError::Missing),
        Some(Some(NbtField::Long(n))) => Ok(n),
        Some(_) => Err(FieldError::WrongType),
    }
}

/// What `read_nbt_i32` makes of a field that was looked up.
pub fn int_field(field: Option<Option<NbtField>>) -> (r: Result<i32, FieldError>)
    ensures
        r == match field {
            None => Err::<i32, FieldError>(FieldError::Missing),
            Some(Some(NbtField::Int(n))) => Ok(n),
            Some(_) => Err(FieldError::WrongType),
        },
{
    match field {
        None => Err(FieldError::Missing),
        Some(Some(NbtField::Int(n))) => Ok(n),
        Some(_) => Err(FieldError::WrongType),
    }
}

/// What `read_nbt_byte` makes of a field that was looked up.
pub fn byte_field(field: Option<Option<NbtField>>) -> (r: Result<i8, FieldError>)
    ensures
        r == match field {
            None => Err::<i8, FieldError>(FieldError::Missing),
            Some(Some(NbtField::Byte(n))) => Ok(n),
            Some(_) => Err(FieldError::WrongType),
        },
{
    match field {
        None => Err(FieldError::Missing),
        Some(Some(NbtField::Byte(n))) => Ok(n),
        Some(_) => Err(FieldError::WrongType),
    }
}

/// What `read_nbt_byte_array` makes of a field that was looked up.
pub fn bytes_field(field: Option<Option<NbtField>>) -> (r: Result<Vec<u8>, FieldError>)
    ensures
        match field {
            None => r == Err::<Vec<u8>, FieldError>(FieldError::Missing),
            Some(Some(NbtField::ByteArray(bytes))) => r is Ok && r->Ok_0@ == unsigned_bytes(
                bytes@,
            ),
            Some(_) => r == Err::<Vec<u8>, FieldError>(FieldError::WrongType),
        },
{
    match field {
        None => Err(FieldError::Missing),
        Some(Some(NbtField::ByteArray(bytes))) => Ok(to_unsigned(&bytes)),
        Some(_) => Err(FieldError::WrongType),
    }
}

/// Reinterprets signed bytes as unsigned ones.
fn to_unsigned(bytes: &Vec<i8>) -> (r: Vec<u8>)
    ensures
        r@ == unsigned_bytes(bytes@),
{
    let mut out: Vec<u8> = Vec::new();
    for i in 0..bytes.len()
        invariant
            out@ =~= unsigned_bytes(bytes@).take(i as int),
    {
        out.push(bytes[i] as u8);
    }
    assert(out@ =~= unsigned_bytes(bytes@));
    out
}

/// Reinterprets unsigned bytes as signed ones.
pub(crate) fn to_signed(bytes: &Vec<u8>) -> (r: Vec<i8>)
    ensures
        r@ == signed_bytes(bytes@),
{
    let mut out: Vec<i8> = Vec::new();
    for i in 0..bytes.len()
        invariant
            out@ =~= signed_bytes(bytes@).take(i as int),
    {
        out.push(bytes[i] as i8);
    }
    assert(out@ =~= signed_bytes(bytes@));
    out
}

/// Looks up a field of a blob.
fn find_field(blob: &nbt::Blob, name: &'static str) -> (r: Option<Option<NbtField>>)
    ensures
        r is Some <==> blob_tags(*blob).contains_key(name@),
        r matches Some(field) ==> {
            &&& field is Some <==> is_plain(blob_tags(*blob)[name@])
            &&& field matches Some(f) ==> f@ == blob_tags(*blob)[name@]
        },
{
    match blob_get(blob, name) {
        Some(value) => Some(value_field(value)),
        None => None,
    }
}

/// Reads a field of type `Long`.
pub fn read_nbt_i64(blob: &nbt::Blob, name: &'static str) -> (r: Result<i64, FieldError>)
    ensures
        r == as_long(tag_named(blob_tags(*blob), name@)),
        r matches Ok(n) ==> blob_tags(*blob).contains_key(name@) && blob_tags(*blob)[name@]
            == Tag::Long(n),
        r == Err::<i64, FieldError>(FieldError::Missing) <==> !blob_tags(*blob).contains_key(name@),
        r is Ok <==> blob_tags(*blob).contains_key(name@) && blob_tags(*blob)[name@] is Long,
{
    long_field(find_field(blob, name))
}

/// Reads a field of type `Int`.
pub fn read_nbt_i32(blob: &nbt::Blob, name: &'static str) -> (r: Result<i32, FieldError>)
    ensures
        r == as_int(tag_named(blob_tags(*blob), name@)),
        r matches Ok(n) ==> blob_tags(*blob).contains_key(name@) && blob_tags(*blob)[name@]
            == Tag::Int(n),
        r == Err::<i32, FieldError>(FieldError::Missing) <==> !blob_tags(*blob).contains_key(name@),
        r is Ok <==> blob_tags(*blob).contains_key(name@) && blob_tags(*blob)[name@] is Int,
{
    int_field(find_field(blob, name))
}

/// Reads a field of type `Byte`.
pub fn read_nbt_byte(blob: &nbt::Blob, name: &'static str) -> (r: Result<i8, FieldError>)
    ensures
        r == as_byte(tag_named(blob_tags(*blob), name@)),
        r matches Ok(n) ==> blob_tags(*blob).contains_key(name@) && blob_tags(*blob)[name@]
            == Tag::Byte(n),
        r == Err::<i8, FieldError>(FieldError::Missing) <==> !blob_tags(*blob).contains_key(name@),
        r is Ok <==> blob_tags(*blob).contains_key(name@) && blob_tags(*blob)[name@] is Byte,
{
    byte_field(find_field(blob, name))
}

/// Reads a field of type `Byte` as a truth value: true if the byte is positive.
pub fn read_nbt_bool(blob: &nbt::Blob, name: &'static str) -> (r: Result<bool, FieldError>)
    ensures
        r == as_bool(tag_named(blob_tags(*blob), name@)),
        r is Ok <==> blob_tags(*blob).contains_key(name@) && blob_tags(*blob)[name@] is Byte,
        r matches Ok(b) ==> b == (blob_tags(*blob)[name@]->Byte_0 > 0),
        r == Err::<bool, FieldError>(FieldError::Missing) <==> !blob_tags(*blob).contains_key(name@),
{
    match read_nbt_byte(blob, name) {
        Ok(n) => Ok(n > 0),
        Err(e) => Err(e),
    }
}

/// Reads a field of type `ByteArray`.
pub fn read_nbt_byte_array(blob: &nbt::Blob, name: &'static str) -> (r: Result<
    Vec<u8>,
    FieldError,
>)
    ensures
        match as_bytes(tag_named(blob_tags(*blob), name@)) {
            Ok(bytes) => r is Ok && r->Ok_0@ == bytes,
            Err(e) => r == Err::<Vec<u8>, FieldError>(e),
        },
        r is Ok <==> blob_tags(*blob).contains_key(name@) && blob_tags(*blob)[name@] is ByteArray,
        r matches Ok(bytes) ==> bytes@ == unsigned_bytes(blob_tags(*blob)[name@]->ByteArray_0),
        r == Err::<Vec<u8>, FieldError>(FieldError::Missing) <==> !blob_tags(*blob).contains_key(
            name@,
        ),
{
    bytes_field(find_field(blob, name))
}

/// Signed and unsigned bytes of the same bits differ by a multiple of 256, so they stay as they
/// are from 0 to 127.
pub proof fn law_bytes_keep_their_bits(signed: Seq<i8>, unsigned: Seq<u8>, i: int)
    ensures
        unsigned_bytes(signed).len() == signed.len(),
        signed_bytes(unsigned).len() == unsigned.len(),
        0 <= i < signed.len() ==> unsigned_bytes(signed)[i] == if signed[i] >= 0 {
            signed[i] as int
        } else {
            signed[i] + 256
        },
        0 <= i < unsigned.len() ==> signed_bytes(unsigned)[i] == if unsigned[i] < 128 {
            unsigned[i] as int
        } else {
            unsigned[i] - 256
        },
        unsigned_bytes(signed_bytes(unsigned)) == unsigned,
{
    assert forall|j: int| 0 <= j < unsigned.len() implies #[trigger] unsigned_bytes(
        signed_bytes(unsigned),
    )[j] == unsigned[j] by {
        let b = unsigned[j];
        assert((b as i8) as u8 == b) by (bit_vector);
    }
    assert(unsigned_bytes(signed_bytes(unsigned)) =~= unsigned);
    if 0 <= i < signed.len() {
        let a = signed[i];
        assert(a >= 0 ==> a as u8 == a) by (bit_vector);
        assert(a < 0 ==> a as u8 == a + 256) by (bit_vector);
    }
    if 0 <= i < unsigned.len() {
        let b = unsigned[i];
        assert(b < 128 ==> b as i8 == b) by (bit_vector);
        assert(b >= 128 ==> b as i8 == b - 256) by (bit_vector);
    }
}

/// The JSON form of a compound has the same names; integers of every type are the same integers,
/// and arrays the same integers in the same order.
pub proof fn law_json_form(fields: Map<Seq<char>, Tag>, name: Seq<char>)
    ensures
        json_fields_of(Tag::Compound(fields)).contains_key(name) <==> fields.contains_key(name),
        fields.contains_key(name) ==> ({
            let item = json_fields_of(Tag::Compound(fields))[name];
            match fields[name] {
                Tag::Byte(n) => item == JsonItem::Integer(n as int),
                Tag::Short(n) => item == JsonItem::Integer(n as int),
                Tag::Int(n) => item == JsonItem::Integer(n as int),
                Tag::Long(n) => item == JsonItem::Integer(n as int),
                Tag::ByteArray(b) => item matches JsonItem::Array(items) && items.len() == b.len()
                    && forall|i: int| 0 <= i < b.len() ==> #[trigger] items[i] == Some(b[i] as i64),
                Tag::IntArray(b) => item matches JsonItem::Array(items) && items.len() == b.len()
                    && forall|i: int| 0 <= i < b.len() ==> #[trigger] items[i] == Some(b[i] as i64),
                Tag::LongArray(b) => item matches JsonItem::Array(items) && items.len() == b.len()
                    && forall|i: int| 0 <= i < b.len() ==> #[trigger] items[i] == Some(b[i]),
                Tag::List(b) => item matches JsonItem::Array(items) && items.len() == b.len(),
                Tag::Compound(_) | Tag::Other => item == JsonItem::Other,
            }
        }),
{
}

/// Narrowing keeps the number, and gives the first type of 8, 16, 32 and 64 bits that holds it.
pub proof fn law_narrowest(n: i64)
    ensures
        integer_of(narrowest(n)) == Some(n),
        narrowest(n) is Byte <==> -128 <= n <= 127,
        narrowest(n) is Long <==> n < -0x8000_0000 || n > 0x7fff_ffff,
        narrowest(n) is Short ==> -0x8000 <= n <= 0x7fff,
{
}

/// A list of named fields holds each field under its name, the last one of a name.
pub proof fn law_compound_holds_fields(
    fields: Seq<(&'static str, NbtField)>,
    name: &'static str,
    field: NbtField,
    other: Seq<char>,
)
    ensures
        compound_tags(fields.push((name, field)))[name@] == field@,
        compound_tags(fields.push((name, field))).contains_key(name@),
        other != name@ ==> (compound_tags(fields.push((name, field))).contains_key(other)
            <==> compound_tags(fields).contains_key(other)) && compound_tags(
            fields.push((name, field)),
        )[other] == compound_tags(fields)[other],
        field@ == match field {
            NbtField::Byte(n) => Tag::Byte(n),
            NbtField::Int(n) => Tag::Int(n),
            NbtField::Long(n) => Tag::Long(n),
            NbtField::ByteArray(b) => Tag::ByteArray(b@),
        },
{
    assert(fields.push((name, field)).drop_last() =~= fields);
}

} // verus!
