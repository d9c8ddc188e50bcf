//! Files that hold one compound of fields: gzip-compressed NBT whose root has a single tag.
use crate::json::{json_fields, parse_json};
use crate::nbt_data::{
    blob_fits, blob_from_gzip, blob_get, blob_insert, blob_tags, blob_to_gzip, compound_tags,
    field_fits, gzip_tags, json_fields_of, name_fits, narrowed_compounds, nested_within, new_blob,
    no_tags, typed_blob_from_gzip, typed_gzip_tags, value_to_json, NbtField, Tag,
};
use vstd::prelude::*;

verus! {

/// Why a file could not be read or written.
#[derive(Debug)]
pub enum StoreError {
    /// The bytes are no gzip-compressed NBT file, or could not be made into one.
    Nbt(nbt::Error),
    /// The root has no tag of the expected name.
    Missing,
    /// The tag of that name has no JSON form that can be parsed.
    Json(serde_json::Error),
    /// A field is missing, or holds something else than expected.
    Malformed,
}

/// The root tags of a file that holds one compound.
pub open spec fn single_compound(name: Seq<char>, fields: Map<Seq<char>, Tag>) -> Map<
    Seq<char>,
    Tag,
> {
    no_tags().insert(name, Tag::Compound(fields))
}

/// Whether a compound of these fields can be stored under the name.
pub open spec fn compound_fits(name: Seq<char>, fields: Map<Seq<char>, Tag>) -> bool {
    name_fits(name) && forall|field: Seq<char>| #[trigger]
        fields.contains_key(field) ==> field_fits(field, fields[field])
}

/// Whether these are the tag of the given name, in its JSON form, or the reason why there is none.
pub open spec fn reads_tag(
    r: Result<serde_json::Value, StoreError>,
    tags: Map<Seq<char>, Tag>,
    name: Seq<char>,
) -> bool {
    if !tags.contains_key(name) {
        r matches Err(StoreError::Missing)
    } else if nested_within(tags[name], 127) {
        r is Ok && json_fields(r->Ok_0) == json_fields_of(tags[name])
    } else {
        r matches Err(StoreError::Json(_))
    }
}

/// Looks up the tag of the given name, in its JSON form.
fn tag_as_json(blob: &nbt::Blob, name: &'static str) -> (r: Result<serde_json::Value, StoreError>)
    ensures
        reads_tag(r, blob_tags(*blob), name@),
{
    let tag: &nbt::Value = match blob_get(blob, name) {
        Some(tag) => tag,
        None => return Err(StoreError::Missing),
    };
    let text: String = match value_to_json(tag) {
        Ok(text) => text,
        Err(e) => return Err(StoreError::Json(e)),
    };
    match parse_json(text.as_str()) {
        Ok(value) => Ok(value),
        Err(e) => Err(StoreError::Json(e)),
    }
}

/// Reads the tag of the given name from a file, in its JSON form.
pub(crate) fn read_compound(bytes: &[u8], name: &'static str) -> (r: Result<
    serde_json::Value,
    StoreError,
>)
    ensures
        match gzip_tags(bytes@) {
            None => r matches Err(StoreError::Nbt(_)),
            Some(tags) => reads_tag(r, tags, name@),
        },
{
    match blob_from_gzip(bytes) {
        Ok(blob) => tag_as_json(&blob, name),
        Err(e) => Err(StoreError::Nbt(e)),
    }
}

/// The root tags of a file, with their types, if both readers can read it.
pub open spec fn file_tags(bytes: Seq<u8>) -> Option<Map<Seq<char>, Tag>> {
    match gzip_tags(bytes) {
        None => None,
        Some(_) => typed_gzip_tags(bytes),
    }
}

/// Reads the tag of the given name from a file by the reader that keeps types, in its JSON form.
/// A file that this reader must not be given is found out by the other one.
pub(crate) fn read_typed_compound(bytes: &[u8], name: &'static str) -> (r: Result<
    serde_json::Value,
    StoreError,
>)
    ensures
        match file_tags(bytes@) {
            None => r matches Err(StoreError::Nbt(_)),
            Some(tags) => reads_tag(r, tags, name@),
        },
{
    match blob_from_gzip(bytes) {
        Ok(_) => {},
        Err(e) => return Err(StoreError::Nbt(e)),
    }
    match typed_blob_from_gzip(bytes) {
        Ok(blob) => tag_as_json(&blob, name),
        Err(e) => Err(StoreError::Nbt(e)),
    }
}

/// Makes a file that holds one compound of the given fields. Where all fields can be stored, the
/// bytes are those of a file with that compound, and the reader that narrows finds its numbers
/// narrowed.
pub(crate) fn write_compound(name: &'static str, fields: Vec<(&'static str, NbtField)>) -> (r:
    Result<Vec<u8>, StoreError>)
    ensures
        r matches Err(e) ==> e is Nbt,
        compound_fits(name@, compound_tags(fields@)) ==> {
            &&& r is Ok
            &&& typed_gzip_tags(r->Ok_0@) == Some(
                single_compound(name@, compound_tags(fields@)),
            )
            &&& gzip_tags(r->Ok_0@) == Some(
                narrowed_compounds(single_compound(name@, compound_tags(fields@))),
            )
        },
{
    let ghost tags = single_compound(name@, compound_tags(fields@));
    let mut blob: nbt::Blob = new_blob();
    match blob_insert(&mut blob, name, fields) {
        Ok(_) => {},
        Err(e) => return Err(StoreError::Nbt(e)),
    }
    assert(compound_fits(name@, compound_tags(fields@)) ==> blob_fits(tags));
    match blob_to_gzip(&blob) {
        Ok(bytes) => Ok(bytes),
        Err(e) => Err(StoreError::Nbt(e)),
    }
}

/// Adds a field to a list of fields.
pub(crate) fn add_field(
    fields: &mut Vec<(&'static str, NbtField)>,
    name: &'static str,
    field: NbtField,
)
    ensures
        compound_tags(final(fields)@) == compound_tags(old(fields)@).insert(name@, field@),
{
    fields.push((name, field));
    assert(fields@.drop_last() =~= old(fields)@);
}

/// A file has tags exactly if both readers can read it, and they are those that keep their types.
pub proof fn law_file_tags(bytes: Seq<u8>)
    ensures
        file_tags(bytes) is Some <==> gzip_tags(bytes) is Some && typed_gzip_tags(bytes) is Some,
        file_tags(bytes) is Some ==> file_tags(bytes) == typed_gzip_tags(bytes),
{
}

/// A file that holds one compound has the compound under its name, and nothing else.
pub proof fn law_single_compound(name: Seq<char>, fields: Map<Seq<char>, Tag>, other: Seq<char>)
    ensures
        single_compound(name, fields).contains_key(other) <==> other == name,
        single_compound(name, fields)[name] == Tag::Compound(fields),
{
}

} // verus!
