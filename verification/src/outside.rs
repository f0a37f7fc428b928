//! The calls into other crates. What their contracts claim is believed, not proved.
use crate::formats::{self, Ini};
use std::collections::BTreeMap;
use crate::text;
use crate::env;
use vstd::prelude::*;
#[allow(unused_imports)]
use crate::formats::{IniView, SectionView};

verus! {

/// The error of `serde_ini` where it cannot write. Nothing is claimed of it.
#[verifier::external_type_specification]
#[verifier::external_body]
pub struct ExIniWriteError(serde_ini::ser::Error);

/// The error of `serde_ini` where it cannot read. Nothing is claimed of it.
#[verifier::external_type_specification]
#[verifier::external_body]
pub struct ExIniReadError(serde_ini::de::Error);

/// The error of `regex` for a pattern that it refuses. Nothing is claimed of it.
#[verifier::external_type_specification]
#[verifier::external_body]
pub struct ExRegexError(regex::Error);

/// The error of `tera`. Nothing is claimed of it.
#[verifier::external_type_specification]
#[verifier::external_body]
pub struct ExTemplateError(tera::Error);

/// The error of the standard library for bytes that are not UTF-8. Nothing is claimed of it.
#[verifier::external_type_specification]
#[verifier::external_body]
pub struct ExUtf8Error(core::str::Utf8Error);

/// `serde_ini::to_string`, on a `serde_yaml::Mapping` that holds the sections in their order.
/// Claims that writing maps of strings never fails, and that each section gives its header line
/// and one line `key=value` for each entry, with nothing escaped and CR LF behind each line.
#[verifier::external_body]
pub(crate) fn ini_to_string(ini: &Ini) -> (r: Result<String, serde_ini::ser::Error>)
    ensures
        r is Ok,
        r->Ok_0@ == formats::ini_text(ini.ordered()),
{
    let sections = ini.0.entries.iter().map(|(name, section)| {
        let pairs = section.entries.iter();
        let lines = pairs.map(|(k, v)| (k.as_str().into(), v.as_str().into()));
        (name.as_str().into(), serde_yaml::Value::Mapping(lines.collect()))
    });
    serde_ini::to_string(&sections.collect::<serde_yaml::Mapping>())
}

/// The map that a list of pairs stands for: the last value given to a key.
pub open spec fn pairs_map(pairs: Seq<(String, String)>) -> SectionView
    decreases pairs.len(),
{
    if pairs.len() == 0 {
        Map::empty()
    } else {
        pairs_map(pairs.drop_last()).insert(pairs.last().0@, pairs.last().1@)
    }
}

/// The document that a list of sections stands for: the last one under a name.
pub open spec fn sections_map(sections: Seq<(String, Vec<(String, String)>)>) -> IniView
    decreases sections.len(),
{
    if sections.len() == 0 {
        Map::empty()
    } else {
        sections_map(sections.drop_last()).insert(
            sections.last().0@,
            pairs_map(sections.last().1@),
        )
    }
}

/// The document that `serde_ini` reads in a text; none where it finds an error.
pub uninterp spec fn ini_content(text: Seq<char>) -> Option<IniView>;

/// `serde_ini::from_str` into maps of strings. Claims that the sections read are determined by
/// the text, and so is whether there is an error.
#[verifier::external_body]
pub(crate) fn ini_from_str(text: &str) -> (r: Result<
    Vec<(String, Vec<(String, String)>)>,
    serde_ini::de::Error,
>)
    ensures
        match r {
            Ok(sections) => ini_content(text@) == Some(sections_map(sections@)),
            Err(_) => ini_content(text@) is None,
        },
{
    let content: BTreeMap<String, BTreeMap<String, String>> = serde_ini::from_str(text)?;
    Ok(content.into_iter().map(|(name, pairs)| (name, pairs.into_iter().collect())).collect())
}

/// `regex::Regex::new` and `regex::Regex::captures_iter`, each match taken as a whole, for the
/// pattern of a placeholder, which is a dollar sign and a name in braces. Claims that the crate
/// takes this pattern, and that the matches are the placeholders of the text.
#[verifier::external_body]
pub(crate) fn regex_match_texts(pattern: &str, text: &str) -> (r: Result<Vec<String>, regex::Error>)
    requires
        pattern@ == env::placeholder_pattern(),
    ensures
        r is Ok,
        text::string_views(r->Ok_0@) == env::placeholders(text@),
{
    let re = regex::Regex::new(pattern)?;
    Ok(re.captures_iter(text).map(|found| found[0].to_string()).collect())
}

/// A JSON document as far as strings two levels deep go: the elements of an array, none where the
/// document is no array; of each element that is an object its members; of each member that is a
/// string its text.
pub type JsonOutline = Option<Vec<Option<Vec<(String, Option<String>)>>>>;

/// What an outline says.
pub type JsonOutlineView = Option<Seq<Option<Seq<(Seq<char>, Option<Seq<char>>)>>>>;

/// What a member of an outline says.
pub open spec fn member_view(member: (String, Option<String>)) -> (Seq<char>, Option<Seq<char>>) {
    (
        member.0@,
        match member.1 {
            Some(text) => Some(text@),
            None => None,
        },
    )
}

/// What the members of an object say.
pub open spec fn members_view(members: Seq<(String, Option<String>)>) -> Seq<
    (Seq<char>, Option<Seq<char>>),
> {
    members.map_values(|member: (String, Option<String>)| member_view(member))
}

/// What an element of an outline says.
pub open spec fn element_view(element: Option<Vec<(String, Option<String>)>>) -> Option<
    Seq<(Seq<char>, Option<Seq<char>>)>,
> {
    match element {
        Some(members) => Some(members_view(members@)),
        None => None,
    }
}

/// What an outline says.
pub open spec fn outline_view(outline: JsonOutline) -> JsonOutlineView {
    match outline {
        Some(elements) => Some(
            elements@.map_values(
                |element: Option<Vec<(String, Option<String>)>>| element_view(element),
            ),
        ),
        None => None,
    }
}

/// The outline of a JSON document.
pub uninterp spec fn json_outline(document: serde_json::Value) -> JsonOutlineView;

/// `serde_json::Value::as_array`, `as_object` and `as_str`, as far as the outline goes. Claims that
/// the outline is determined by the document.
#[verifier::external_body]
pub(crate) fn outline_json(document: &serde_json::Value) -> (r: JsonOutline)
    ensures
        outline_view(r) == json_outline(*document),
{
    let members = |object: &serde_json::Map<String, serde_json::Value>| {
        object.iter().map(|(name, v)| (name.clone(), v.as_str().map(str::to_string))).collect()
    };
    let elements = document.as_array();
    elements.map(|all| all.iter().map(|e| e.as_object().map(members)).collect())
}

/// `std::str::from_utf8`. Claims that it takes exactly the bytes that are valid UTF-8, and that the
/// text it gives is encoded by them.
#[verifier::external_body]
pub(crate) fn text_from_utf8(bytes: &[u8]) -> (r: Result<&str, core::str::Utf8Error>)
    ensures
        r is Ok <==> vstd::utf8::valid_utf8(bytes@),
        r is Ok ==> vstd::utf8::encode_utf8(r->Ok_0@) == bytes@,
{
    core::str::from_utf8(bytes)
}

} // verus!
