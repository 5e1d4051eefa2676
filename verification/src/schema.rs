//! The layout schema: errors, the supported schema version, and its model.

// For future schema versions, a migration system shall be implemented.
pub mod v1;

use vstd::prelude::*;

pub use v1::Fragment;

verus! {

/// Schema load errors.
#[derive(Debug)]
pub enum SchemaError {
    /// The schema file was not found.
    FileNotFoundError,
    /// The schema file could not be read.
    FileReadError,
    /// The schema document could not be decoded.
    SchemaDecodeError,
    /// The schema document is malformed: a required field is absent or mistyped.
    MalformedSchema(String),
    /// Unknown schema version.
    UnknownVersion(u64),
}

pub type Schema = v1::Schema;

pub type SchemaTextFragment = v1::TextFragment;

pub type SchemaImageFragment = v1::ImageFragment;

pub type SchemaShapeFragment = v1::ShapeFragment;

pub type SchemaFragmentType = v1::FragmentType;


/// Load a decoded schema document, routing it to the schema version it
/// declares. Only version 1 is accepted; a document without a numeric
/// `schemaVersion` field is malformed, any other version is unknown.
pub fn load_schema_doc(schema_fp: &str, doc: &crate::json::JsonValue) -> (r: Result<
    Schema,
    SchemaError,
>)
    ensures
        !v1::u64_field_ok(*doc, "schemaVersion"@) ==> (r matches Err(e) && e matches
            SchemaError::MalformedSchema(_)),
        v1::u64_field_ok(*doc, "schemaVersion"@) && v1::spec_num_field(*doc, "schemaVersion"@)
            != 1 ==> (r matches Err(e) && e == SchemaError::UnknownVersion(
            v1::spec_num_field(*doc, "schemaVersion"@),
        )),
        v1::u64_field_ok(*doc, "schemaVersion"@) && v1::spec_num_field(*doc, "schemaVersion"@)
            == 1 ==> {
            &&& r is Ok <==> v1::schema_doc_ok(*doc)
            &&& (r matches Ok(s) ==> v1::schema_matches_doc(s, *doc, schema_fp@))
            &&& (r matches Err(e) ==> e matches SchemaError::MalformedSchema(_))
        },
{
    let schema_version = match v1::parse_u64_field(doc, "schemaVersion") {
        Some(n) => n,
        None => {
            return Err(
                SchemaError::MalformedSchema(String::from_str("Missing 'schemaVersion'")),
            );
        },
    };
    if schema_version == 1 {
        v1::load_schema_v1(schema_fp, doc)
    } else {
        Err(SchemaError::UnknownVersion(schema_version))
    }
}

/// Load a schema from the text of a schema file: decode the JSON document
/// and route it to the schema version it declares.
///
/// # Parameters
/// - `schema_fp` - The path to the schema file.
/// - `content` - The text read from it.
pub fn load_schema_from_str(schema_fp: &str, content: &str) -> (r: Result<Schema, SchemaError>)
    ensures
        ({
            match crate::json::spec_parsed_doc(content@) {
                None => r matches Err(e) && e == SchemaError::SchemaDecodeError,
                Some(doc) => {
                    &&& (r is Ok <==> (v1::u64_field_ok(doc, "schemaVersion"@)
                        && v1::spec_num_field(doc, "schemaVersion"@) == 1 && v1::schema_doc_ok(
                        doc,
                    )))
                    &&& (r matches Ok(s) ==> v1::schema_matches_doc(s, doc, schema_fp@))
                    &&& (!v1::u64_field_ok(doc, "schemaVersion"@) ==> (r matches Err(e)
                        && e matches SchemaError::MalformedSchema(_)))
                    &&& (v1::u64_field_ok(doc, "schemaVersion"@) && v1::spec_num_field(
                        doc,
                        "schemaVersion"@,
                    ) != 1 ==> (r matches Err(e) && e == SchemaError::UnknownVersion(
                        v1::spec_num_field(doc, "schemaVersion"@),
                    )))
                    &&& (v1::u64_field_ok(doc, "schemaVersion"@) && v1::spec_num_field(
                        doc,
                        "schemaVersion"@,
                    ) == 1 && !v1::schema_doc_ok(doc) ==> (r matches Err(e)
                        && e matches SchemaError::MalformedSchema(_)))
                },
            }
        }),
        r matches Ok(s) ==> s.schema_version == 1 && s.schema_file@ == schema_fp@,
{
    let doc = match crate::json::parse_document(content) {
        Some(doc) => doc,
        None => {
            return Err(SchemaError::SchemaDecodeError);
        },
    };
    load_schema_doc(schema_fp, &doc)
}

} // verus!
