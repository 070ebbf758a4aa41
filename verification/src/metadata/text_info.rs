//! The text information: what the user and the software wrote about the
//! image.

use crate::error::Nd2Error;
use crate::metadata::fields::{field_text, get_text};
use crate::parse::value::{ClxTree, ClxValue};
use crate::types::experiment::text_of;
use crate::types::text_info::TextInfo;
use vstd::prelude::*;

verus! {

/// Whether each field of `info` is the text of the entry that bears its
/// name in the file, and absent where the entries have no such text.
pub open spec fn spells_text_info(entries: Seq<(Seq<char>, ClxTree)>, info: TextInfo) -> bool {
    &&& text_of(info.image_id) == field_text(entries, "ImageId"@)
    &&& text_of(info.info_type) == field_text(entries, "Type"@)
    &&& text_of(info.group) == field_text(entries, "Group"@)
    &&& text_of(info.sample_id) == field_text(entries, "SampleId"@)
    &&& text_of(info.author) == field_text(entries, "Author"@)
    &&& text_of(info.description) == field_text(entries, "Description"@)
    &&& text_of(info.capturing) == field_text(entries, "Capturing"@)
    &&& text_of(info.sampling) == field_text(entries, "Sampling"@)
    &&& text_of(info.location) == field_text(entries, "Location"@)
    &&& text_of(info.date) == field_text(entries, "Date"@)
    &&& text_of(info.conclusion) == field_text(entries, "Conclusion"@)
    &&& text_of(info.info1) == field_text(entries, "Info1"@)
    &&& text_of(info.info2) == field_text(entries, "Info2"@)
    &&& text_of(info.optics) == field_text(entries, "Optics"@)
    &&& text_of(info.app_version) == field_text(entries, "AppVersion"@)
}

/// Whether `info` is what a decoded tree says: the texts of its entries
/// where it is an object, and nothing where it is not.
pub open spec fn is_text_info_of(t: ClxTree, info: TextInfo) -> bool {
    match t {
        ClxTree::Object(entries) => spells_text_info(entries, info),
        _ => info.is_empty(),
    }
}

/// Interprets a decoded text-info tree. It never fails: a field that the
/// tree does not hold as text is absent.
pub fn parse_text_info(clx: ClxValue) -> (parsed: Result<TextInfo, Nd2Error>)
    ensures
        parsed matches Ok(info) && is_text_info_of(clx@, info),
{
    let obj = match clx.as_object() {
        Some(o) => o,
        None => {
            return Ok(TextInfo::default());
        },
    };
    Ok(
        TextInfo {
            image_id: get_text(obj, "ImageId"),
            info_type: get_text(obj, "Type"),
            group: get_text(obj, "Group"),
            sample_id: get_text(obj, "SampleId"),
            author: get_text(obj, "Author"),
            description: get_text(obj, "Description"),
            capturing: get_text(obj, "Capturing"),
            sampling: get_text(obj, "Sampling"),
            location: get_text(obj, "Location"),
            date: get_text(obj, "Date"),
            conclusion: get_text(obj, "Conclusion"),
            info1: get_text(obj, "Info1"),
            info2: get_text(obj, "Info2"),
            optics: get_text(obj, "Optics"),
            app_version: get_text(obj, "AppVersion"),
        },
    )
}

} // verus!
