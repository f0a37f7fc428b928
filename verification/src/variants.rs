//! The formats that can be read and written, their file extensions, and the conversion between them.
use crate::documents::{self, Document};
use crate::nesting::{self, check_bson, find_nul_key, toml_nests_within, BsonProblem};
use crate::outside::text_from_utf8;
use crate::paths::{self, extension};
use crate::text::same;
use vstd::prelude::*;

verus! {

/// The formats that can be read.
#[derive(Debug, Clone, Copy, PartialEq, Eq, Structural)]
pub enum FromVariant {
    Json,
    Yaml,
    Cbor,
    Ron,
    Toml,
    Bson,
}

/// The formats that can be written.
#[derive(Debug, Clone, Copy, PartialEq, Eq, Structural)]
pub enum ToVariant {
    Pickle,
    Bincode,
    Postcard,
    Flexbuffers,
    Json,
    PrettyJson,
    Yaml,
    Cbor,
    Ron,
    PrettyRon,
    Toml,
    Bson,
    Ini,
    Systemd,
    Quadlet,
}

/// The format that is written where nothing but the format read is known: the same.
pub open spec fn same_format(variant: FromVariant) -> ToVariant {
    match variant {
        FromVariant::Json => ToVariant::Json,
        FromVariant::Yaml => ToVariant::Yaml,
        FromVariant::Cbor => ToVariant::Cbor,
        FromVariant::Ron => ToVariant::Ron,
        FromVariant::Toml => ToVariant::Toml,
        FromVariant::Bson => ToVariant::Bson,
    }
}

impl From<FromVariant> for ToVariant {
    fn from(variant: FromVariant) -> (r: Self) {
        match variant {
            FromVariant::Json => ToVariant::Json,
            FromVariant::Yaml => ToVariant::Yaml,
            FromVariant::Cbor => ToVariant::Cbor,
            FromVariant::Ron => ToVariant::Ron,
            FromVariant::Toml => ToVariant::Toml,
            FromVariant::Bson => ToVariant::Bson,
        }
    }
}

impl vstd::std_specs::convert::FromSpecImpl<FromVariant> for ToVariant {
    open spec fn obeys_from_spec() -> bool {
        true
    }

    open spec fn from_spec(variant: FromVariant) -> Self {
        same_format(variant)
    }
}

/// The format read from files with an extension.
pub open spec fn from_extension(ext: Seq<char>) -> Option<FromVariant> {
    if ext == "bson"@ || ext == "bs"@ {
        Some(FromVariant::Bson)
    } else if ext == "cbor"@ || ext == "cb"@ {
        Some(FromVariant::Cbor)
    } else if ext == "json"@ {
        Some(FromVariant::Json)
    } else if ext == "ron"@ {
        Some(FromVariant::Ron)
    } else if ext == "toml"@ || ext == "service"@ {
        Some(FromVariant::Toml)
    } else if ext == "yaml"@ || ext == "yml"@ {
        Some(FromVariant::Yaml)
    } else {
        None
    }
}

/// The format written to files with an extension.
pub open spec fn to_extension(ext: Seq<char>) -> Option<ToVariant> {
    if ext == "bson"@ || ext == "bs"@ {
        Some(ToVariant::Bson)
    } else if ext == "cbor"@ || ext == "cb"@ {
        Some(ToVariant::Cbor)
    } else if ext == "json"@ {
        Some(ToVariant::Json)
    } else if ext == "ron"@ {
        Some(ToVariant::Ron)
    } else if ext == "toml"@ {
        Some(ToVariant::Toml)
    } else if ext == "yaml"@ || ext == "yml"@ {
        Some(ToVariant::Yaml)
    } else if ext == "bincode"@ || ext == "bc"@ {
        Some(ToVariant::Bincode)
    } else if ext == "flexbuffers"@ || ext == "fb"@ {
        Some(ToVariant::Flexbuffers)
    } else if ext == "postcard"@ || ext == "pc"@ {
        Some(ToVariant::Postcard)
    } else if ext == "pickle"@ || ext == "pkl"@ {
        Some(ToVariant::Pickle)
    } else if ext == "hjson"@ {
        Some(ToVariant::PrettyJson)
    } else if ext == "hron"@ {
        Some(ToVariant::PrettyRon)
    } else if ext == "ini"@ {
        Some(ToVariant::Ini)
    } else {
        None
    }
}

/// Why the format of a file could not be inferred.
#[derive(Debug, Clone, Copy, PartialEq, Eq, Structural)]
pub enum InferError {
    /// The file has no extension.
    NoExtension,
    /// The extension is that of no format.
    UnknownExtension,
}

/// What an extension, where there is one, says of the format.
pub open spec fn inferred(ext: Option<Seq<char>>) -> Result<FromVariant, InferError> {
    match ext {
        None => Err(InferError::NoExtension),
        Some(e) => match from_extension(e) {
            Some(variant) => Ok(variant),
            None => Err(InferError::UnknownExtension),
        },
    }
}

impl InferError {
    /// The message for the user.
    pub fn message(&self) -> (r: String)
        ensures
            r@ == (match self {
                InferError::NoExtension
                    => "Extension not found, the type of the file could not be inferred."@,
                InferError::UnknownExtension => "Type of the file could not be inferred"@,
            }),
    {
        match self {
            InferError::NoExtension => {
                "Extension not found, the type of the file could not be inferred.".to_owned()
            },
            InferError::UnknownExtension => "Type of the file could not be inferred".to_owned(),
        }
    }
}

impl FromVariant {
    /// The format that an extension, where there is one, stands for.
    pub fn from_ext(ext: Option<&str>) -> (r: Result<FromVariant, InferError>)
        ensures
            r == inferred(crate::text::str_view(ext)),
    {
        let e = match ext {
            None => {
                return Err(InferError::NoExtension);
            },
            Some(e) => e,
        };
        if same(e, "bson") || same(e, "bs") {
            Ok(FromVariant::Bson)
        } else if same(e, "cbor") || same(e, "cb") {
            Ok(FromVariant::Cbor)
        } else if same(e, "json") {
            Ok(FromVariant::Json)
        } else if same(e, "ron") {
            Ok(FromVariant::Ron)
        } else if same(e, "toml") || same(e, "service") {
            Ok(FromVariant::Toml)
        } else if same(e, "yaml") || same(e, "yml") {
            Ok(FromVariant::Yaml)
        } else {
            Err(InferError::UnknownExtension)
        }
    }

    /// The format of a file to read.
    pub fn from_path(path: &str) -> (r: Result<FromVariant, InferError>)
        ensures
            r == inferred(paths::extension_of(path@)),
    {
        FromVariant::from_ext(extension(path))
    }
}

/// The format of a file to write.
pub open spec fn to_path(path: Seq<char>) -> Option<ToVariant> {
    match paths::extension_of(path) {
        Some(ext) => to_extension(ext),
        None => None,
    }
}

impl ToVariant {
    /// The format of a file to write.
    pub fn from_path(path: &str) -> (r: Option<ToVariant>)
        ensures
            r == to_path(path@),
    {
        let e = match extension(path) {
            None => {
                return None;
            },
            Some(e) => e,
        };
        if same(e, "bson") || same(e, "bs") {
            Some(ToVariant::Bson)
        } else if same(e, "cbor") || same(e, "cb") {
            Some(ToVariant::Cbor)
        } else if same(e, "json") {
            Some(ToVariant::Json)
        } else if same(e, "ron") {
            Some(ToVariant::Ron)
        } else if same(e, "toml") {
            Some(ToVariant::Toml)
        } else if same(e, "yaml") || same(e, "yml") {
            Some(ToVariant::Yaml)
        } else if same(e, "bincode") || same(e, "bc") {
            Some(ToVariant::Bincode)
        } else if same(e, "flexbuffers") || same(e, "fb") {
            Some(ToVariant::Flexbuffers)
        } else if same(e, "postcard") || same(e, "pc") {
            Some(ToVariant::Postcard)
        } else if same(e, "pickle") || same(e, "pkl") {
            Some(ToVariant::Pickle)
        } else if same(e, "hjson") {
            Some(ToVariant::PrettyJson)
        } else if same(e, "hron") {
            Some(ToVariant::PrettyRon)
        } else if same(e, "ini") {
            Some(ToVariant::Ini)
        } else {
            None
        }
    }
}

/// A file is written in the format in which files with its extension are read. The one extension
/// that is only read is that of a systemd service.
pub proof fn law_extensions_agree(ext: Seq<char>)
    ensures
        from_extension(ext) matches Some(variant) ==> ext == "service"@ || to_extension(ext)
            == Some(same_format(variant)),
{
}

/// Why a document could not be read.
#[derive(Debug)]
pub enum DecodeError {
    Json(serde_json::Error),
    Yaml(serde_yaml::Error),
    Cbor(serde_cbor::Error),
    Ron(ron::error::SpannedError),
    NotUtf8(core::str::Utf8Error),
    Toml(toml::de::Error),
    Bson(bson::de::Error),
    /// The bytes are no BSON document, or hold one that is none.
    BsonStructure(bson::raw::Error),
    /// It nests too deep.
    TooDeep,
}

/// Why a document could not be written.
#[derive(Debug)]
pub enum EncodeError {
    Pickle(serde_pickle::Error),
    Bincode(Box<bincode::ErrorKind>),
    Postcard(postcard::Error),
    Json(serde_json::Error),
    Yaml(serde_yaml::Error),
    Cbor(serde_cbor::Error),
    Ron(ron::error::Error),
    Toml(toml::ser::Error),
    Bson(bson::ser::Error),
    Ini(serde_ini::ser::Error),
    Flexbuffers(flexbuffers::SerializationError),
    /// A key holds a NUL, which keys of flexbuffers cannot.
    NulKey,
}

/// Why a document could not be converted.
#[derive(Debug)]
pub enum ConvertError {
    /// It could not be read.
    Decode(DecodeError),
    /// It could not be written.
    Encode(EncodeError),
}

/// The document that bytes hold in a format.
pub open spec fn decoded(from: FromVariant, bytes: Seq<u8>) -> Option<Document> {
    match from {
        FromVariant::Json => match documents::json_document(bytes) {
            Some(v) => Some(Document::Json(v)),
            None => None,
        },
        FromVariant::Yaml => match documents::yaml_document(bytes) {
            Some(v) => Some(Document::Yaml(v)),
            None => None,
        },
        FromVariant::Cbor => match documents::cbor_document(bytes) {
            Some(v) => Some(Document::Cbor(v)),
            None => None,
        },
        FromVariant::Ron => match documents::ron_document(bytes) {
            Some(v) => Some(Document::Ron(v)),
            None => None,
        },
        FromVariant::Toml => if is_toml_text(bytes) {
            match documents::toml_document(vstd::utf8::decode_utf8(bytes)) {
                Some(v) => Some(Document::Toml(v)),
                None => None,
            }
        } else {
            None
        },
        FromVariant::Bson => if shape_of(bytes) == nesting::Shape::Fits {
            match documents::bson_document(bytes) {
                Some(v) => Some(Document::Bson(v)),
                None => None,
            }
        } else {
            None
        },
    }
}

/// What is found of the levels of a BSON document.
pub open spec fn shape_of(bytes: Seq<u8>) -> nesting::Shape {
    nesting::bson_shape(bytes, nesting::BSON_LIMIT as nat)
}

/// The bytes are a text that may be read as TOML.
pub open spec fn is_toml_text(bytes: Seq<u8>) -> bool {
    vstd::utf8::valid_utf8(bytes) && nesting::toml_fits(
        vstd::utf8::decode_utf8(bytes),
        nesting::TOML_LIMIT as nat,
    )
}

/// The error is one of the format's own. Bytes that are not UTF-8, that nest too deep or that are
/// no BSON are errors of their own.
pub open spec fn is_decode_error(from: FromVariant, bytes: Seq<u8>, e: DecodeError) -> bool {
    match e {
        DecodeError::Json(_) => from == FromVariant::Json,
        DecodeError::Yaml(_) => from == FromVariant::Yaml,
        DecodeError::Cbor(_) => from == FromVariant::Cbor,
        DecodeError::Ron(_) => from == FromVariant::Ron,
        DecodeError::NotUtf8(_) => from == FromVariant::Toml && !vstd::utf8::valid_utf8(bytes),
        DecodeError::Toml(_) => from == FromVariant::Toml && is_toml_text(bytes),
        DecodeError::Bson(_) => from == FromVariant::Bson && shape_of(bytes)
            == nesting::Shape::Fits,
        DecodeError::BsonStructure(_) => from == FromVariant::Bson && shape_of(bytes)
            == nesting::Shape::Malformed,
        DecodeError::TooDeep => match from {
            FromVariant::Toml => vstd::utf8::valid_utf8(bytes) && !is_toml_text(bytes),
            FromVariant::Bson => shape_of(bytes) == nesting::Shape::TooDeep,
            _ => false,
        },
    }
}

/// The formats that a document can be written in. Systemd and quadlet units are made by rules of
/// their own.
pub open spec fn is_encodable(to: ToVariant) -> bool {
    to != ToVariant::Systemd && to != ToVariant::Quadlet
}

/// The bytes of a text.
pub open spec fn text_bytes(s: Option<Seq<char>>) -> Option<Seq<u8>> {
    match s {
        Some(content) => Some(vstd::utf8::encode_utf8(content)),
        None => None,
    }
}

/// What is written for a document in a format.
pub open spec fn encoded(to: ToVariant, document: Document) -> Option<Seq<u8>> {
    match to {
        ToVariant::Pickle => documents::pickle_bytes(document),
        ToVariant::Bincode => documents::bincode_bytes(document),
        ToVariant::Postcard => documents::postcard_bytes(document),
        ToVariant::Json => documents::json_bytes(document),
        ToVariant::PrettyJson => documents::pretty_json_bytes(document),
        ToVariant::Yaml => text_bytes(documents::yaml_text(document)),
        ToVariant::Cbor => documents::cbor_bytes(document),
        ToVariant::Ron => text_bytes(documents::ron_text(document)),
        ToVariant::PrettyRon => text_bytes(documents::pretty_ron_text(document)),
        ToVariant::Toml => text_bytes(documents::toml_text(document)),
        ToVariant::Bson => documents::bson_bytes(document),
        ToVariant::Ini => documents::ini_bytes(document),
        ToVariant::Flexbuffers => match documents::json_bytes(document) {
            Some(json) => if nesting::has_nul_key(json) {
                None
            } else {
                documents::flexbuffers_bytes(document)
            },
            None => None,
        },
        ToVariant::Systemd | ToVariant::Quadlet => None,
    }
}

/// The error is one of the format's own. Flexbuffers have the keys of JSON, and none with a NUL.
pub open spec fn is_encode_error(to: ToVariant, document: Document, e: EncodeError) -> bool {
    match e {
        EncodeError::Pickle(_) => to == ToVariant::Pickle,
        EncodeError::Bincode(_) => to == ToVariant::Bincode,
        EncodeError::Postcard(_) => to == ToVariant::Postcard,
        EncodeError::Json(_) => to == ToVariant::Json || to == ToVariant::PrettyJson || (to
            == ToVariant::Flexbuffers && documents::json_bytes(document) is None),
        EncodeError::Yaml(_) => to == ToVariant::Yaml,
        EncodeError::Cbor(_) => to == ToVariant::Cbor,
        EncodeError::Ron(_) => to == ToVariant::Ron || to == ToVariant::PrettyRon,
        EncodeError::Toml(_) => to == ToVariant::Toml,
        EncodeError::Bson(_) => to == ToVariant::Bson,
        EncodeError::Ini(_) => to == ToVariant::Ini,
        EncodeError::Flexbuffers(_) => to == ToVariant::Flexbuffers && (
        documents::json_bytes(document) matches Some(json) && !nesting::has_nul_key(json)),
        EncodeError::NulKey => to == ToVariant::Flexbuffers && (documents::json_bytes(
            document,
        ) matches Some(json) && nesting::has_nul_key(json)),
    }
}

impl FromVariant {
    /// Reads a document.
    pub fn decode(&self, bytes: &[u8]) -> (r: Result<Document, DecodeError>)
        ensures
            match r {
                Ok(document) => decoded(*self, bytes@) == Some(document) && documents::depth(
                    document,
                ) <= nesting::DEPTH_LIMIT,
                Err(e) => decoded(*self, bytes@) is None && is_decode_error(*self, bytes@, e),
            },
    {
        match self {
            FromVariant::Json => match documents::read_json(bytes) {
                Ok(v) => Ok(Document::Json(v)),
                Err(e) => Err(DecodeError::Json(e)),
            },
            FromVariant::Yaml => match documents::read_yaml(bytes) {
                Ok(v) => Ok(Document::Yaml(v)),
                Err(e) => Err(DecodeError::Yaml(e)),
            },
            FromVariant::Cbor => match documents::read_cbor(bytes) {
                Ok(v) => Ok(Document::Cbor(v)),
                Err(e) => Err(DecodeError::Cbor(e)),
            },
            FromVariant::Ron => match documents::read_ron(bytes) {
                Ok(v) => Ok(Document::Ron(v)),
                Err(e) => Err(DecodeError::Ron(e)),
            },
            FromVariant::Toml => match text_from_utf8(bytes) {
                Ok(text) => {
                    proof {
                        vstd::utf8::encode_utf8_decode_utf8(text@);
                    }
                    if !toml_nests_within(text, nesting::TOML_LIMIT) {
                        return Err(DecodeError::TooDeep);
                    }
                    match documents::read_toml(text) {
                        Ok(v) => Ok(Document::Toml(v)),
                        Err(e) => Err(DecodeError::Toml(e)),
                    }
                },
                Err(e) => Err(DecodeError::NotUtf8(e)),
            },
            FromVariant::Bson => match check_bson(bytes, nesting::BSON_LIMIT) {
                Ok(_) => match documents::read_bson(bytes) {
                    Ok(v) => Ok(Document::Bson(v)),
                    Err(e) => Err(DecodeError::Bson(e)),
                },
                Err(BsonProblem::TooDeep) => Err(DecodeError::TooDeep),
                Err(BsonProblem::Malformed(e)) => Err(DecodeError::BsonStructure(e)),
            },
        }
    }

    /// Reads a document and writes it in another format.
    pub fn serialize(&self, input: &[u8], to: ToVariant) -> (r: Result<Vec<u8>, ConvertError>)
        requires
            is_encodable(to),
        ensures
            match decoded(*self, input@) {
                Some(document) => match r {
                    Ok(output) => encoded(to, document) == Some(output@),
                    Err(ConvertError::Encode(e)) => encoded(to, document) is None
                        && is_encode_error(to, document, e),
                    Err(ConvertError::Decode(_)) => false,
                },
                None => r matches Err(ConvertError::Decode(e)) && is_decode_error(
                    *self,
                    input@,
                    e,
                ),
            },
    {
        match self.decode(input) {
            Ok(document) => match to.to_buf(&document) {
                Ok(output) => Ok(output),
                Err(e) => Err(ConvertError::Encode(e)),
            },
            Err(e) => Err(ConvertError::Decode(e)),
        }
    }
}

impl ToVariant {
    /// Writes a document.
    pub fn to_buf(self, document: &Document) -> (r: Result<Vec<u8>, EncodeError>)
        requires
            is_encodable(self),
            documents::depth(*document) <= nesting::DEPTH_LIMIT,
        ensures
            match r {
                Ok(output) => encoded(self, *document) == Some(output@),
                Err(e) => encoded(self, *document) is None && is_encode_error(
                    self,
                    *document,
                    e,
                ),
            },
    {
        match self {
            ToVariant::Pickle => match documents::write_pickle(document) {
                Ok(output) => Ok(output),
                Err(e) => Err(EncodeError::Pickle(e)),
            },
            ToVariant::Bincode => match documents::write_bincode(document) {
                Ok(output) => Ok(output),
                Err(e) => Err(EncodeError::Bincode(e)),
            },
            ToVariant::Postcard => match documents::write_postcard(document) {
                Ok(output) => Ok(output),
                Err(e) => Err(EncodeError::Postcard(e)),
            },
            ToVariant::Json => match documents::write_json(document) {
                Ok(output) => Ok(output),
                Err(e) => Err(EncodeError::Json(e)),
            },
            ToVariant::PrettyJson => match documents::write_pretty_json(document) {
                Ok(output) => Ok(output),
                Err(e) => Err(EncodeError::Json(e)),
            },
            ToVariant::Yaml => match documents::write_yaml(document) {
                Ok(text) => Ok(text.as_str().as_bytes_vec()),
                Err(e) => Err(EncodeError::Yaml(e)),
            },
            ToVariant::Cbor => match documents::write_cbor(document) {
                Ok(output) => Ok(output),
                Err(e) => Err(EncodeError::Cbor(e)),
            },
            ToVariant::Ron => match documents::write_ron(document) {
                Ok(text) => Ok(text.as_str().as_bytes_vec()),
                Err(e) => Err(EncodeError::Ron(e)),
            },
            ToVariant::PrettyRon => match documents::write_pretty_ron(document) {
                Ok(text) => Ok(text.as_str().as_bytes_vec()),
                Err(e) => Err(EncodeError::Ron(e)),
            },
            ToVariant::Toml => match documents::write_toml(document) {
                Ok(text) => Ok(text.as_str().as_bytes_vec()),
                Err(e) => Err(EncodeError::Toml(e)),
            },
            ToVariant::Bson => match documents::write_bson(document) {
                Ok(output) => Ok(output),
                Err(e) => Err(EncodeError::Bson(e)),
            },
            ToVariant::Flexbuffers => match documents::write_json(document) {
                Ok(json) => if find_nul_key(&json) {
                    Err(EncodeError::NulKey)
                } else {
                    match documents::write_flexbuffers(document) {
                        Ok(output) => Ok(output),
                        Err(e) => Err(EncodeError::Flexbuffers(e)),
                    }
                },
                Err(e) => Err(EncodeError::Json(e)),
            },
            _ => match documents::write_ini(document) {
                Ok(output) => Ok(output),
                Err(e) => Err(EncodeError::Ini(e)),
            },
        }
    }
}

/// The format read from a file goes by its extension: each extension stands for one format, and no
/// other extension for any.
pub proof fn law_formats_are_read_by_extension(ext: Seq<char>)
    ensures
        from_extension(ext) == Some(FromVariant::Json) <==> ext == "json"@,
        from_extension(ext) == Some(FromVariant::Yaml) <==> ext == "yaml"@ || ext == "yml"@,
        from_extension(ext) == Some(FromVariant::Cbor) <==> ext == "cbor"@ || ext == "cb"@,
        from_extension(ext) == Some(FromVariant::Ron) <==> ext == "ron"@,
        from_extension(ext) == Some(FromVariant::Toml) <==> ext == "toml"@ || ext == "service"@,
        from_extension(ext) == Some(FromVariant::Bson) <==> ext == "bson"@ || ext == "bs"@,
{
    lemma_extensions();
}

/// The format written to a file goes by its extension: each extension stands for one format, and no
/// other extension for any. Systemd units and quadlets have none.
pub proof fn law_formats_are_written_by_extension(ext: Seq<char>)
    ensures
        to_extension(ext) == Some(ToVariant::Json) <==> ext == "json"@,
        to_extension(ext) == Some(ToVariant::PrettyJson) <==> ext == "hjson"@,
        to_extension(ext) == Some(ToVariant::Yaml) <==> ext == "yaml"@ || ext == "yml"@,
        to_extension(ext) == Some(ToVariant::Cbor) <==> ext == "cbor"@ || ext == "cb"@,
        to_extension(ext) == Some(ToVariant::Ron) <==> ext == "ron"@,
        to_extension(ext) == Some(ToVariant::PrettyRon) <==> ext == "hron"@,
        to_extension(ext) == Some(ToVariant::Toml) <==> ext == "toml"@,
        to_extension(ext) == Some(ToVariant::Bson) <==> ext == "bson"@ || ext == "bs"@,
        to_extension(ext) == Some(ToVariant::Pickle) <==> ext == "pickle"@ || ext == "pkl"@,
        to_extension(ext) == Some(ToVariant::Bincode) <==> ext == "bincode"@ || ext == "bc"@,
        to_extension(ext) == Some(ToVariant::Postcard) <==> ext == "postcard"@ || ext == "pc"@,
        to_extension(ext) == Some(ToVariant::Flexbuffers) <==> ext == "flexbuffers"@ || ext
            == "fb"@,
        to_extension(ext) == Some(ToVariant::Ini) <==> ext == "ini"@,
        to_extension(ext) != Some(ToVariant::Systemd),
        to_extension(ext) != Some(ToVariant::Quadlet),
{
    lemma_extensions();
}

/// What each extension says.
proof fn lemma_extensions()
    ensures
        "bson"@ == seq!['b', 's', 'o', 'n'],
        "bs"@ == seq!['b', 's'],
        "cbor"@ == seq!['c', 'b', 'o', 'r'],
        "cb"@ == seq!['c', 'b'],
        "json"@ == seq!['j', 's', 'o', 'n'],
        "ron"@ == seq!['r', 'o', 'n'],
        "toml"@ == seq!['t', 'o', 'm', 'l'],
        "service"@ == seq!['s', 'e', 'r', 'v', 'i', 'c', 'e'],
        "yaml"@ == seq!['y', 'a', 'm', 'l'],
        "yml"@ == seq!['y', 'm', 'l'],
        "bincode"@ == seq!['b', 'i', 'n', 'c', 'o', 'd', 'e'],
        "bc"@ == seq!['b', 'c'],
        "flexbuffers"@ == seq!['f', 'l', 'e', 'x', 'b', 'u', 'f', 'f', 'e', 'r', 's'],
        "fb"@ == seq!['f', 'b'],
        "postcard"@ == seq!['p', 'o', 's', 't', 'c', 'a', 'r', 'd'],
        "pc"@ == seq!['p', 'c'],
        "pickle"@ == seq!['p', 'i', 'c', 'k', 'l', 'e'],
        "pkl"@ == seq!['p', 'k', 'l'],
        "hjson"@ == seq!['h', 'j', 's', 'o', 'n'],
        "hron"@ == seq!['h', 'r', 'o', 'n'],
        "ini"@ == seq!['i', 'n', 'i'],
        "bson"@[0] == 'b' && "bs"@[1] == 's' && "cbor"@[0] == 'c' && "cb"@[0] == 'c' && "json"@[0]
            == 'j',
        "ron"@[0] == 'r' && "toml"@[0] == 't' && "service"@[0] == 's' && "yaml"@[0] == 'y'
            && "yml"@[0] == 'y',
        "bincode"@[0] == 'b' && "bc"@[1] == 'c' && "fb"@[0] == 'f' && "pc"@[0] == 'p' && "bs"@[0]
            == 'b' && "bc"@[0] == 'b',
        "pkl"@[0] == 'p' && "hjson"@[0] == 'h' && "hron"@[0] == 'h' && "ini"@[0] == 'i',
{
    reveal_strlit("bson");
    reveal_strlit("bs");
    reveal_strlit("cbor");
    reveal_strlit("cb");
    reveal_strlit("json");
    reveal_strlit("ron");
    reveal_strlit("toml");
    reveal_strlit("service");
    reveal_strlit("yaml");
    reveal_strlit("yml");
    reveal_strlit("bincode");
    reveal_strlit("bc");
    reveal_strlit("flexbuffers");
    reveal_strlit("fb");
    reveal_strlit("postcard");
    reveal_strlit("pc");
    reveal_strlit("pickle");
    reveal_strlit("pkl");
    reveal_strlit("hjson");
    reveal_strlit("hron");
    reveal_strlit("ini");
    assert("bson"@ =~= seq!['b', 's', 'o', 'n']);
    assert("bs"@ =~= seq!['b', 's']);
    assert("cbor"@ =~= seq!['c', 'b', 'o', 'r']);
    assert("cb"@ =~= seq!['c', 'b']);
    assert("json"@ =~= seq!['j', 's', 'o', 'n']);
    assert("ron"@ =~= seq!['r', 'o', 'n']);
    assert("toml"@ =~= seq!['t', 'o', 'm', 'l']);
    assert("service"@ =~= seq!['s', 'e', 'r', 'v', 'i', 'c', 'e']);
    assert("yaml"@ =~= seq!['y', 'a', 'm', 'l']);
    assert("yml"@ =~= seq!['y', 'm', 'l']);
    assert("bincode"@ =~= seq!['b', 'i', 'n', 'c', 'o', 'd', 'e']);
    assert("bc"@ =~= seq!['b', 'c']);
    assert("flexbuffers"@ =~= seq!['f', 'l', 'e', 'x', 'b', 'u', 'f', 'f', 'e', 'r', 's']);
    assert("fb"@ =~= seq!['f', 'b']);
    assert("postcard"@ =~= seq!['p', 'o', 's', 't', 'c', 'a', 'r', 'd']);
    assert("pc"@ =~= seq!['p', 'c']);
    assert("pickle"@ =~= seq!['p', 'i', 'c', 'k', 'l', 'e']);
    assert("pkl"@ =~= seq!['p', 'k', 'l']);
    assert("hjson"@ =~= seq!['h', 'j', 's', 'o', 'n']);
    assert("hron"@ =~= seq!['h', 'r', 'o', 'n']);
    assert("ini"@ =~= seq!['i', 'n', 'i']);
}

/// Each format that can be read is written as itself.
pub proof fn law_formats_are_kept()
    ensures
        same_format(FromVariant::Json) == ToVariant::Json,
        same_format(FromVariant::Yaml) == ToVariant::Yaml,
        same_format(FromVariant::Cbor) == ToVariant::Cbor,
        same_format(FromVariant::Ron) == ToVariant::Ron,
        same_format(FromVariant::Toml) == ToVariant::Toml,
        same_format(FromVariant::Bson) == ToVariant::Bson,
{
}

/// Without an extension, or with one that is that of no format, no format can be told.
pub proof fn law_format_is_told_or_not(ext: Seq<char>)
    ensures
        inferred(None) == Err::<FromVariant, InferError>(InferError::NoExtension),
        from_extension(ext) is None ==> inferred(Some(ext)) == Err::<FromVariant, InferError>(
            InferError::UnknownExtension,
        ),
        from_extension(ext) matches Some(variant) ==> inferred(Some(ext)) == Ok::<
            FromVariant,
            InferError,
        >(variant),
{
}

/// Bytes are read by the reader of their format, and into a document of that format. Only TOML has
/// to be text, and only TOML and BSON can nest too deep.
pub proof fn law_documents_are_read_in_their_format(bytes: Seq<u8>)
    ensures
        documents::json_document(bytes) matches Some(v) ==> decoded(FromVariant::Json, bytes)
            == Some(Document::Json(v)),
        documents::json_document(bytes) is None ==> decoded(FromVariant::Json, bytes) is None,
        documents::yaml_document(bytes) matches Some(v) ==> decoded(FromVariant::Yaml, bytes)
            == Some(Document::Yaml(v)),
        documents::yaml_document(bytes) is None ==> decoded(FromVariant::Yaml, bytes) is None,
        documents::cbor_document(bytes) matches Some(v) ==> decoded(FromVariant::Cbor, bytes)
            == Some(Document::Cbor(v)),
        documents::cbor_document(bytes) is None ==> decoded(FromVariant::Cbor, bytes) is None,
        documents::ron_document(bytes) matches Some(v) ==> decoded(FromVariant::Ron, bytes) == Some(
            Document::Ron(v),
        ),
        documents::ron_document(bytes) is None ==> decoded(FromVariant::Ron, bytes) is None,
        !vstd::utf8::valid_utf8(bytes) ==> decoded(FromVariant::Toml, bytes) is None,
        vstd::utf8::valid_utf8(bytes) && nesting::toml_fits(vstd::utf8::decode_utf8(bytes), 128)
            ==> decoded(FromVariant::Toml, bytes) == (match documents::toml_document(
            vstd::utf8::decode_utf8(bytes),
        ) {
            Some(v) => Some(Document::Toml(v)),
            None => None,
        }),
        nesting::bson_shape(bytes, 128) == nesting::Shape::Fits ==> decoded(FromVariant::Bson, bytes)
            == (match documents::bson_document(bytes) {
            Some(v) => Some(Document::Bson(v)),
            None => None,
        }),
        nesting::bson_shape(bytes, 128) != nesting::Shape::Fits ==> decoded(FromVariant::Bson, bytes)
            is None,
{
}

/// A document is written by the writer of the format that is asked for, whatever format it was read
/// in. Texts are written in UTF-8.
pub proof fn law_documents_are_written_in_their_format(document: Document)
    ensures
        encoded(ToVariant::Pickle, document) == documents::pickle_bytes(document),
        encoded(ToVariant::Bincode, document) == documents::bincode_bytes(document),
        encoded(ToVariant::Postcard, document) == documents::postcard_bytes(document),
        encoded(ToVariant::Json, document) == documents::json_bytes(document),
        encoded(ToVariant::PrettyJson, document) == documents::pretty_json_bytes(document),
        encoded(ToVariant::Cbor, document) == documents::cbor_bytes(document),
        encoded(ToVariant::Bson, document) == documents::bson_bytes(document),
        encoded(ToVariant::Ini, document) == documents::ini_bytes(document),
        documents::yaml_text(document) matches Some(s) ==> encoded(ToVariant::Yaml, document)
            == Some(vstd::utf8::encode_utf8(s)),
        documents::yaml_text(document) is None ==> encoded(ToVariant::Yaml, document) is None,
        documents::ron_text(document) matches Some(s) ==> encoded(ToVariant::Ron, document) == Some(
            vstd::utf8::encode_utf8(s),
        ),
        documents::ron_text(document) is None ==> encoded(ToVariant::Ron, document) is None,
        documents::pretty_ron_text(document) matches Some(s) ==> encoded(
            ToVariant::PrettyRon,
            document,
        ) == Some(vstd::utf8::encode_utf8(s)),
        documents::pretty_ron_text(document) is None ==> encoded(ToVariant::PrettyRon, document) is None,
        documents::toml_text(document) matches Some(s) ==> encoded(ToVariant::Toml, document)
            == Some(vstd::utf8::encode_utf8(s)),
        documents::toml_text(document) is None ==> encoded(ToVariant::Toml, document) is None,
        documents::json_bytes(document) matches Some(json) ==> encoded(
            ToVariant::Flexbuffers,
            document,
        ) == (if nesting::has_nul_key(json) {
            None
        } else {
            documents::flexbuffers_bytes(document)
        }),
{
}

/// An error of a reader comes from the reader of the format that was read. Only TOML can be no
/// text, and nesting is held against TOML and BSON alone.
pub proof fn law_reading_errors_belong_to_their_format(
    from: FromVariant,
    bytes: Seq<u8>,
    e: DecodeError,
)
    requires
        is_decode_error(from, bytes, e),
    ensures
        from == FromVariant::Json <==> e is Json,
        from == FromVariant::Yaml <==> e is Yaml,
        from == FromVariant::Cbor <==> e is Cbor,
        from == FromVariant::Ron <==> e is Ron,
        from == FromVariant::Toml && !vstd::utf8::valid_utf8(bytes) <==> e is NotUtf8,
        from == FromVariant::Toml && vstd::utf8::valid_utf8(bytes) && nesting::toml_fits(
            vstd::utf8::decode_utf8(bytes),
            128,
        ) <==> e is Toml,
        from == FromVariant::Bson && nesting::bson_shape(bytes, 128) == nesting::Shape::Fits
            <==> e is Bson,
        from == FromVariant::Bson && nesting::bson_shape(bytes, 128) == nesting::Shape::Malformed
            <==> e is BsonStructure,
        e is TooDeep ==> from == FromVariant::Toml || from == FromVariant::Bson,
{
}

/// An error of a writer comes from the writer of the format that was asked for. Flexbuffers refuse
/// the documents that JSON refuses, and keys that hold a NUL.
pub proof fn law_writing_errors_belong_to_their_format(
    to: ToVariant,
    document: Document,
    e: EncodeError,
)
    requires
        is_encode_error(to, document, e),
        is_encodable(to),
    ensures
        to == ToVariant::Pickle <==> e is Pickle,
        to == ToVariant::Bincode <==> e is Bincode,
        to == ToVariant::Postcard <==> e is Postcard,
        to == ToVariant::Yaml <==> e is Yaml,
        to == ToVariant::Cbor <==> e is Cbor,
        to == ToVariant::Ron || to == ToVariant::PrettyRon <==> e is Ron,
        to == ToVariant::Toml <==> e is Toml,
        to == ToVariant::Bson <==> e is Bson,
        to == ToVariant::Ini <==> e is Ini,
        to == ToVariant::Json || to == ToVariant::PrettyJson ==> e is Json,
        e is NulKey ==> to == ToVariant::Flexbuffers && (documents::json_bytes(
            document,
        ) matches Some(json) && nesting::has_nul_key(json)),
        e is Flexbuffers ==> to == ToVariant::Flexbuffers,
        e is Json && to == ToVariant::Flexbuffers ==> documents::json_bytes(document) is None,
{
}

/// Every format but systemd units and quadlets can be written as it is.
pub proof fn law_documents_can_be_written(to: ToVariant)
    ensures
        is_encodable(to) <==> !(to == ToVariant::Systemd || to == ToVariant::Quadlet),
{
}

} // verus!
