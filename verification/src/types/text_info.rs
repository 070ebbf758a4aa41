//! Free-form text that the acquisition software stored with the image.

use vstd::prelude::*;

verus! {

/// The text fields of a file; each is absent unless the file holds it.
#[derive(Debug, Clone, PartialEq)]
pub struct TextInfo {
    pub image_id: Option<String>,
    pub info_type: Option<String>,
    pub group: Option<String>,
    pub sample_id: Option<String>,
    pub author: Option<String>,
    pub description: Option<String>,
    pub capturing: Option<String>,
    pub sampling: Option<String>,
    pub location: Option<String>,
    pub date: Option<String>,
    pub conclusion: Option<String>,
    pub info1: Option<String>,
    pub info2: Option<String>,
    pub optics: Option<String>,
    pub app_version: Option<String>,
}

impl TextInfo {
    /// Whether every field is absent.
    pub open spec fn is_empty(&self) -> bool {
        &&& self.image_id is None
        &&& self.info_type is None
        &&& self.group is None
        &&& self.sample_id is None
        &&& self.author is None
        &&& self.description is None
        &&& self.capturing is None
        &&& self.sampling is None
        &&& self.location is None
        &&& self.date is None
        &&& self.conclusion is None
        &&& self.info1 is None
        &&& self.info2 is None
        &&& self.optics is None
        &&& self.app_version is None
    }
}

impl Default for TextInfo {
    /// The text info of a file that stores none.
    fn default() -> (info: TextInfo)
        ensures
            info.is_empty(),
    {
        TextInfo {
            image_id: None,
            info_type: None,
            group: None,
            sample_id: None,
            author: None,
            description: None,
            capturing: None,
            sampling: None,
            location: None,
            date: None,
            conclusion: None,
            info1: None,
            info2: None,
            optics: None,
            app_version: None,
        }
    }
}

} // verus!
