//! The data formats: documents as the crates for these formats hold them, and the calls that read
//! and write them. What the contracts of these calls claim is believed, not proved.
use crate::nesting::{self, DEPTH_LIMIT};
use vstd::prelude::*;

verus! {

/// A document of `serde_json`. Nothing is claimed of it.
#[verifier::external_type_specification]
#[verifier::external_body]
pub struct ExJsonDocument(serde_json::Value);

/// A document of `serde_yaml`. Nothing is claimed of it.
#[verifier::external_type_specification]
#[verifier::external_body]
pub struct ExYamlDocument(serde_yaml::Value);

/// A document of `serde_cbor`. Nothing is claimed of it.
#[verifier::external_type_specification]
#[verifier::external_body]
pub struct ExCborDocument(serde_cbor::Value);

/// A document of `ron`. Nothing is claimed of it.
#[verifier::external_type_specification]
#[verifier::external_body]
pub struct ExRonDocument(ron::Value);

/// A document of `toml`. Nothing is claimed of it.
#[verifier::external_type_specification]
#[verifier::external_body]
pub struct ExTomlDocument(toml::Value);

/// A document of `bson`. Nothing is claimed of it.
#[verifier::external_type_specification]
#[verifier::external_body]
pub struct ExBsonDocument(bson::Bson);

/// The error of `serde_json`. Nothing is claimed of it.
#[verifier::external_type_specification]
#[verifier::external_body]
pub struct ExJsonError(serde_json::Error);

/// The error of `serde_yaml`. Nothing is claimed of it.
#[verifier::external_type_specification]
#[verifier::external_body]
pub struct ExYamlError(serde_yaml::Error);

/// The error of `serde_cbor`. Nothing is claimed of it.
#[verifier::external_type_specification]
#[verifier::external_body]
pub struct ExCborError(serde_cbor::Error);

/// The error of `ron` where it cannot read. Nothing is claimed of it.
#[verifier::external_type_specification]
#[verifier::external_body]
pub struct ExRonReadError(ron::error::SpannedError);

/// The error of `ron` where it cannot write. Nothing is claimed of it.
#[verifier::external_type_specification]
#[verifier::external_body]
pub struct ExRonWriteError(ron::error::Error);

/// The error of `toml` where it cannot read. Nothing is claimed of it.
#[verifier::external_type_specification]
#[verifier::external_body]
pub struct ExTomlReadError(toml::de::Error);

/// The error of `toml` where it cannot write. Nothing is claimed of it.
#[verifier::external_type_specification]
#[verifier::external_body]
pub struct ExTomlWriteError(toml::ser::Error);

/// The error of `bson` where it cannot read. Nothing is claimed of it.
#[verifier::external_type_specification]
#[verifier::external_body]
pub struct ExBsonReadError(bson::de::Error);

/// The error of `bson` where it cannot write. Nothing is claimed of it.
#[verifier::external_type_specification]
#[verifier::external_body]
pub struct ExBsonWriteError(bson::ser::Error);

/// The error of `serde_pickle`. Nothing is claimed of it.
#[verifier::external_type_specification]
#[verifier::external_body]
pub struct ExPickleError(serde_pickle::Error);

/// The error of `bincode`. Nothing is claimed of it.
#[verifier::external_type_specification]
#[verifier::external_body]
pub struct ExBincodeError(bincode::ErrorKind);

/// The error of `postcard`. Nothing is claimed of it.
#[verifier::external_type_specification]
#[verifier::external_body]
pub struct ExPostcardError(postcard::Error);

/// The error of `bson` for bytes that are no BSON. Nothing is claimed of it.
#[verifier::external_type_specification]
#[verifier::external_body]
pub struct ExBsonStructureError(bson::raw::Error);

/// The error of `flexbuffers` where it cannot write. Nothing is claimed of it.
#[verifier::external_type_specification]
#[verifier::external_body]
pub struct ExFlexbuffersError(flexbuffers::SerializationError);

/// A document of one of the formats that can be read.
pub enum Document {
    Json(serde_json::Value),
    Yaml(serde_yaml::Value),
    Cbor(serde_cbor::Value),
    Ron(ron::Value),
    Toml(toml::Value),
    Bson(bson::Bson),
}

/// How many arrays and maps of a document stand inside each other. What is written is written by
/// going down into each of them, so the writers below take no document that would exhaust the
/// stack.
pub uninterp spec fn depth(document: Document) -> nat;

/// The JSON document that `serde_json` reads in bytes; none where it finds an error.
pub uninterp spec fn json_document(bytes: Seq<u8>) -> Option<serde_json::Value>;

/// `serde_json::from_slice` into a `serde_json::Value`. Claims that the document is determined by
/// the bytes, and so is whether there is an error, and that the document is within the limit: the
/// crate refuses to go down more than 128 times.
#[verifier::external_body]
pub(crate) fn read_json(bytes: &[u8]) -> (r: Result<serde_json::Value, serde_json::Error>)
    ensures
        match r {
            Ok(document) => json_document(bytes@) == Some(document) && depth(
                Document::Json(document),
            ) <= DEPTH_LIMIT,
            Err(_) => json_document(bytes@) is None,
        },
{
    serde_json::from_slice(bytes)
}

/// The YAML document that `serde_yaml` reads in bytes; none where it finds an error.
pub uninterp spec fn yaml_document(bytes: Seq<u8>) -> Option<serde_yaml::Value>;

/// `serde_yaml::from_slice` into a `serde_yaml::Value`. Claims that the document is determined by
/// the bytes, and so is whether there is an error, and that the document is within the limit: the
/// crate refuses to go down into more than 128 sequences and mappings, each with one tag at most.
#[verifier::external_body]
pub(crate) fn read_yaml(bytes: &[u8]) -> (r: Result<serde_yaml::Value, serde_yaml::Error>)
    ensures
        match r {
            Ok(document) => yaml_document(bytes@) == Some(document) && depth(
                Document::Yaml(document),
            ) <= DEPTH_LIMIT,
            Err(_) => yaml_document(bytes@) is None,
        },
{
    serde_yaml::from_slice(bytes)
}

/// The CBOR document that `serde_cbor` reads in bytes; none where it finds an error.
pub uninterp spec fn cbor_document(bytes: Seq<u8>) -> Option<serde_cbor::Value>;

/// `serde_cbor::from_slice` into a `serde_cbor::Value`. Claims that the document is determined by
/// the bytes, and so is whether there is an error, and that the document is within the limit: the
/// crate refuses to go down more than 128 times.
#[verifier::external_body]
pub(crate) fn read_cbor(bytes: &[u8]) -> (r: Result<serde_cbor::Value, serde_cbor::Error>)
    ensures
        match r {
            Ok(document) => cbor_document(bytes@) == Some(document) && depth(
                Document::Cbor(document),
            ) <= DEPTH_LIMIT,
            Err(_) => cbor_document(bytes@) is None,
        },
{
    serde_cbor::from_slice(bytes)
}

/// The RON document that `ron` reads in bytes; none where it finds an error.
pub uninterp spec fn ron_document(bytes: Seq<u8>) -> Option<ron::Value>;

/// `ron::de::from_bytes` into a `ron::Value`. Claims that the document is determined by the bytes,
/// and so is whether there is an error, and that the document is within the limit: the crate
/// refuses to go down more than 128 times.
#[verifier::external_body]
pub(crate) fn read_ron(bytes: &[u8]) -> (r: Result<ron::Value, ron::error::SpannedError>)
    ensures
        match r {
            Ok(document) => ron_document(bytes@) == Some(document) && depth(
                Document::Ron(document),
            ) <= DEPTH_LIMIT,
            Err(_) => ron_document(bytes@) is None,
        },
{
    ron::de::from_bytes(bytes)
}

/// The TOML document that `toml` reads in a text; none where it finds an error.
pub uninterp spec fn toml_document(text: Seq<char>) -> Option<toml::Value>;

/// `toml::from_str` into a `toml::Value`. The crate goes down 80 times at most in brackets, and as
/// often in each dotted key, but the keys of nested inline tables add up, and a text with many of
/// them exhausts the stack: `requires` leaves such texts out. Claims that the document is
/// determined by the text, and so is whether there is an error, and that the document is within the
/// limit: below what one statement opens lie the parts of a table's header, each of which may be an
/// array of tables.
#[verifier::external_body]
pub(crate) fn read_toml(text: &str) -> (r: Result<toml::Value, toml::de::Error>)
    requires
        nesting::toml_fits(text@, nesting::TOML_LIMIT as nat),
    ensures
        match r {
            Ok(document) => toml_document(text@) == Some(document) && depth(
                Document::Toml(document),
            ) <= DEPTH_LIMIT,
            Err(_) => toml_document(text@) is None,
        },
{
    toml::from_str(text)
}

/// The elements of a BSON document as far as nesting goes: the bytes of each that is a document, an
/// array or the scope of a piece of code. None where `bson` finds an error among them.
pub uninterp spec fn bson_elements(bytes: Seq<u8>) -> Option<Seq<Option<Seq<u8>>>>;

/// What a list of elements says.
pub open spec fn parts_view(parts: Seq<Option<Vec<u8>>>) -> Seq<Option<Seq<u8>>> {
    parts.map_values(
        |part: Option<Vec<u8>>|
            match part {
                Some(bytes) => Some(bytes@),
                None => None::<Seq<u8>>,
            },
    )
}

/// `bson::RawDocument::from_bytes` and `bson::RawDocument::iter`, which do not go down into what
/// they find. Claims that the elements are determined by the bytes, and so is whether there is an
/// error.
#[verifier::external_body]
pub(crate) fn bson_parts(bytes: &[u8]) -> (r: Result<Vec<Option<Vec<u8>>>, bson::raw::Error>)
    ensures
        match r {
            Ok(parts) => bson_elements(bytes@) == Some(parts_view(parts@)),
            Err(_) => bson_elements(bytes@) is None,
        },
{
    let elements = bson::RawDocument::from_bytes(bytes)?.iter();
    let inner = |value: bson::RawBsonRef| match value {
        bson::RawBsonRef::Document(document) => Some(document.as_bytes().to_vec()),
        bson::RawBsonRef::Array(array) => Some(array.as_bytes().to_vec()),
        bson::RawBsonRef::JavaScriptCodeWithScope(code) => Some(code.scope.as_bytes().to_vec()),
        _ => None,
    };
    elements.map(|element| element.map(|(_, value)| inner(value))).collect()
}

/// The BSON document that `bson` reads in bytes; none where it finds an error.
pub uninterp spec fn bson_document(bytes: Seq<u8>) -> Option<bson::Bson>;

/// `bson::from_slice` into a `bson::Bson`. It goes down once for each document, array and scope
/// inside another, however many there are: `requires` leaves out what would exhaust the stack.
/// Claims that the document is determined by the bytes, and so is whether there is an error, and
/// that the document is as deep as its bytes.
#[verifier::external_body]
pub(crate) fn read_bson(bytes: &[u8]) -> (r: Result<bson::Bson, bson::de::Error>)
    requires
        nesting::bson_shape(bytes@, nesting::BSON_LIMIT as nat) == nesting::Shape::Fits,
    ensures
        match r {
            Ok(document) => bson_document(bytes@) == Some(document) && depth(
                Document::Bson(document),
            ) <= DEPTH_LIMIT,
            Err(_) => bson_document(bytes@) is None,
        },
{
    bson::from_slice(bytes)
}

/// What `serde_pickle::to_vec` writes for a document; none where it cannot write it.
pub uninterp spec fn pickle_bytes(document: Document) -> Option<Seq<u8>>;

/// `serde_pickle::to_vec` with default options. Claims that what is written is determined by the
/// document, and so is whether there is an error.
#[verifier::external_body]
pub(crate) fn write_pickle(document: &Document) -> (r: Result<Vec<u8>, serde_pickle::Error>)
    requires
        depth(*document) <= DEPTH_LIMIT,
    ensures
        match r {
            Ok(written) => pickle_bytes(*document) == Some(written@),
            Err(_) => pickle_bytes(*document) is None,
        },
{
    let value: &dyn erased_serde::Serialize = match document {
        Document::Json(v) => v,
        Document::Yaml(v) => v,
        Document::Cbor(v) => v,
        Document::Ron(v) => v,
        Document::Toml(v) => v,
        Document::Bson(v) => v,
    };
    serde_pickle::to_vec(&value, serde_pickle::SerOptions::new())
}

/// What `bincode::serialize` writes for a document; none where it cannot write it.
pub uninterp spec fn bincode_bytes(document: Document) -> Option<Seq<u8>>;

/// `bincode::serialize`. Claims that what is written is determined by the document, and so is
/// whether there is an error.
#[verifier::external_body]
pub(crate) fn write_bincode(document: &Document) -> (r: Result<Vec<u8>, Box<bincode::ErrorKind>>)
    requires
        depth(*document) <= DEPTH_LIMIT,
    ensures
        match r {
            Ok(written) => bincode_bytes(*document) == Some(written@),
            Err(_) => bincode_bytes(*document) is None,
        },
{
    let value: &dyn erased_serde::Serialize = match document {
        Document::Json(v) => v,
        Document::Yaml(v) => v,
        Document::Cbor(v) => v,
        Document::Ron(v) => v,
        Document::Toml(v) => v,
        Document::Bson(v) => v,
    };
    bincode::serialize(&value)
}

/// What `postcard::to_allocvec` writes for a document; none where it cannot write it.
pub uninterp spec fn postcard_bytes(document: Document) -> Option<Seq<u8>>;

/// `postcard::to_allocvec`. Claims that what is written is determined by the document, and so is
/// whether there is an error.
#[verifier::external_body]
pub(crate) fn write_postcard(document: &Document) -> (r: Result<Vec<u8>, postcard::Error>)
    requires
        depth(*document) <= DEPTH_LIMIT,
    ensures
        match r {
            Ok(written) => postcard_bytes(*document) == Some(written@),
            Err(_) => postcard_bytes(*document) is None,
        },
{
    let value: &dyn erased_serde::Serialize = match document {
        Document::Json(v) => v,
        Document::Yaml(v) => v,
        Document::Cbor(v) => v,
        Document::Ron(v) => v,
        Document::Toml(v) => v,
        Document::Bson(v) => v,
    };
    postcard::to_allocvec(&value)
}

/// What `serde_json::to_vec` writes for a document; none where it cannot write it.
pub uninterp spec fn json_bytes(document: Document) -> Option<Seq<u8>>;

/// `serde_json::to_vec`. Claims that what is written is determined by the document, and so is
/// whether there is an error.
#[verifier::external_body]
pub(crate) fn write_json(document: &Document) -> (r: Result<Vec<u8>, serde_json::Error>)
    requires
        depth(*document) <= DEPTH_LIMIT,
    ensures
        match r {
            Ok(written) => json_bytes(*document) == Some(written@),
            Err(_) => json_bytes(*document) is None,
        },
{
    let value: &dyn erased_serde::Serialize = match document {
        Document::Json(v) => v,
        Document::Yaml(v) => v,
        Document::Cbor(v) => v,
        Document::Ron(v) => v,
        Document::Toml(v) => v,
        Document::Bson(v) => v,
    };
    serde_json::to_vec(&value)
}

/// What `serde_json::to_vec_pretty` writes for a document; none where it cannot write it.
pub uninterp spec fn pretty_json_bytes(document: Document) -> Option<Seq<u8>>;

/// `serde_json::to_vec_pretty`. Claims that what is written is determined by the document, and so
/// is whether there is an error.
#[verifier::external_body]
pub(crate) fn write_pretty_json(document: &Document) -> (r: Result<Vec<u8>, serde_json::Error>)
    requires
        depth(*document) <= DEPTH_LIMIT,
    ensures
        match r {
            Ok(written) => pretty_json_bytes(*document) == Some(written@),
            Err(_) => pretty_json_bytes(*document) is None,
        },
{
    let value: &dyn erased_serde::Serialize = match document {
        Document::Json(v) => v,
        Document::Yaml(v) => v,
        Document::Cbor(v) => v,
        Document::Ron(v) => v,
        Document::Toml(v) => v,
        Document::Bson(v) => v,
    };
    serde_json::to_vec_pretty(&value)
}

/// What `serde_yaml::to_string` writes for a document; none where it cannot write it.
pub uninterp spec fn yaml_text(document: Document) -> Option<Seq<char>>;

/// `serde_yaml::to_string`. Claims that what is written is determined by the document, and so is
/// whether there is an error.
#[verifier::external_body]
pub(crate) fn write_yaml(document: &Document) -> (r: Result<String, serde_yaml::Error>)
    requires
        depth(*document) <= DEPTH_LIMIT,
    ensures
        match r {
            Ok(written) => yaml_text(*document) == Some(written@),
            Err(_) => yaml_text(*document) is None,
        },
{
    let value: &dyn erased_serde::Serialize = match document {
        Document::Json(v) => v,
        Document::Yaml(v) => v,
        Document::Cbor(v) => v,
        Document::Ron(v) => v,
        Document::Toml(v) => v,
        Document::Bson(v) => v,
    };
    serde_yaml::to_string(&value)
}

/// What `serde_cbor::to_vec` writes for a document; none where it cannot write it.
pub uninterp spec fn cbor_bytes(document: Document) -> Option<Seq<u8>>;

/// `serde_cbor::to_vec`. Claims that what is written is determined by the document, and so is
/// whether there is an error.
#[verifier::external_body]
pub(crate) fn write_cbor(document: &Document) -> (r: Result<Vec<u8>, serde_cbor::Error>)
    requires
        depth(*document) <= DEPTH_LIMIT,
    ensures
        match r {
            Ok(written) => cbor_bytes(*document) == Some(written@),
            Err(_) => cbor_bytes(*document) is None,
        },
{
    let value: &dyn erased_serde::Serialize = match document {
        Document::Json(v) => v,
        Document::Yaml(v) => v,
        Document::Cbor(v) => v,
        Document::Ron(v) => v,
        Document::Toml(v) => v,
        Document::Bson(v) => v,
    };
    serde_cbor::to_vec(&value)
}

/// What `ron::to_string` writes for a document; none where it cannot write it.
pub uninterp spec fn ron_text(document: Document) -> Option<Seq<char>>;

/// `ron::to_string`. Claims that what is written is determined by the document, and so is
/// whether there is an error.
#[verifier::external_body]
pub(crate) fn write_ron(document: &Document) -> (r: Result<String, ron::error::Error>)
    requires
        depth(*document) <= DEPTH_LIMIT,
    ensures
        match r {
            Ok(written) => ron_text(*document) == Some(written@),
            Err(_) => ron_text(*document) is None,
        },
{
    let value: &dyn erased_serde::Serialize = match document {
        Document::Json(v) => v,
        Document::Yaml(v) => v,
        Document::Cbor(v) => v,
        Document::Ron(v) => v,
        Document::Toml(v) => v,
        Document::Bson(v) => v,
    };
    ron::to_string(&value)
}

/// What `ron::ser::to_string_pretty` writes for a document; none where it cannot write it.
pub uninterp spec fn pretty_ron_text(document: Document) -> Option<Seq<char>>;

/// `ron::ser::to_string_pretty` with default settings. Claims that what is written is determined by
/// the document, and so is whether there is an error.
#[verifier::external_body]
pub(crate) fn write_pretty_ron(document: &Document) -> (r: Result<String, ron::error::Error>)
    requires
        depth(*document) <= DEPTH_LIMIT,
    ensures
        match r {
            Ok(written) => pretty_ron_text(*document) == Some(written@),
            Err(_) => pretty_ron_text(*document) is None,
        },
{
    let value: &dyn erased_serde::Serialize = match document {
        Document::Json(v) => v,
        Document::Yaml(v) => v,
        Document::Cbor(v) => v,
        Document::Ron(v) => v,
        Document::Toml(v) => v,
        Document::Bson(v) => v,
    };
    ron::ser::to_string_pretty(&value, ron::ser::PrettyConfig::new())
}

/// What `toml::to_string` writes for a document; none where it cannot write it.
pub uninterp spec fn toml_text(document: Document) -> Option<Seq<char>>;

/// `toml::to_string`. Claims that what is written is determined by the document, and so is
/// whether there is an error.
#[verifier::external_body]
pub(crate) fn write_toml(document: &Document) -> (r: Result<String, toml::ser::Error>)
    requires
        depth(*document) <= DEPTH_LIMIT,
    ensures
        match r {
            Ok(written) => toml_text(*document) == Some(written@),
            Err(_) => toml_text(*document) is None,
        },
{
    let value: &dyn erased_serde::Serialize = match document {
        Document::Json(v) => v,
        Document::Yaml(v) => v,
        Document::Cbor(v) => v,
        Document::Ron(v) => v,
        Document::Toml(v) => v,
        Document::Bson(v) => v,
    };
    toml::to_string(&value)
}

/// What `bson::to_vec` writes for a document; none where it cannot write it.
pub uninterp spec fn bson_bytes(document: Document) -> Option<Seq<u8>>;

/// `bson::to_vec`. Claims that what is written is determined by the document, and so is
/// whether there is an error.
#[verifier::external_body]
pub(crate) fn write_bson(document: &Document) -> (r: Result<Vec<u8>, bson::ser::Error>)
    requires
        depth(*document) <= DEPTH_LIMIT,
    ensures
        match r {
            Ok(written) => bson_bytes(*document) == Some(written@),
            Err(_) => bson_bytes(*document) is None,
        },
{
    let value: &dyn erased_serde::Serialize = match document {
        Document::Json(v) => v,
        Document::Yaml(v) => v,
        Document::Cbor(v) => v,
        Document::Ron(v) => v,
        Document::Toml(v) => v,
        Document::Bson(v) => v,
    };
    bson::to_vec(&value)
}

/// What `serde_ini::to_vec` writes for a document; none where it cannot write it.
pub uninterp spec fn ini_bytes(document: Document) -> Option<Seq<u8>>;

/// `serde_ini::to_vec`. Claims that what is written is determined by the document, and so is
/// whether there is an error.
#[verifier::external_body]
pub(crate) fn write_ini(document: &Document) -> (r: Result<Vec<u8>, serde_ini::ser::Error>)
    requires
        depth(*document) <= DEPTH_LIMIT,
    ensures
        match r {
            Ok(written) => ini_bytes(*document) == Some(written@),
            Err(_) => ini_bytes(*document) is None,
        },
{
    let value: &dyn erased_serde::Serialize = match document {
        Document::Json(v) => v,
        Document::Yaml(v) => v,
        Document::Cbor(v) => v,
        Document::Ron(v) => v,
        Document::Toml(v) => v,
        Document::Bson(v) => v,
    };
    serde_ini::to_vec(&value)
}

/// What `flexbuffers::to_vec` writes for a document; none where it cannot write it.
pub uninterp spec fn flexbuffers_bytes(document: Document) -> Option<Seq<u8>>;

/// `flexbuffers::to_vec`. It panics on keys that hold a NUL, and on two keys of a map that read
/// alike up to a NUL; maps of documents have each key once, so neither comes up where the JSON text
/// of the document has no key with a NUL. Claims that what is written is determined by the
/// document, and so is whether there is an error.
#[verifier::external_body]
pub(crate) fn write_flexbuffers(document: &Document) -> (r: Result<
    Vec<u8>,
    flexbuffers::SerializationError,
>)
    requires
        depth(*document) <= DEPTH_LIMIT,
        json_bytes(*document) matches Some(json) && !nesting::has_nul_key(json),
    ensures
        match r {
            Ok(written) => flexbuffers_bytes(*document) == Some(written@),
            Err(_) => flexbuffers_bytes(*document) is None,
        },
{
    let value: &dyn erased_serde::Serialize = match document {
        Document::Json(v) => v,
        Document::Yaml(v) => v,
        Document::Cbor(v) => v,
        Document::Ron(v) => v,
        Document::Toml(v) => v,
        Document::Bson(v) => v,
    };
    flexbuffers::to_vec(value)
}

} // verus!
