//! What a packager may set for one package in place of what is found.

use crate::text::{clone_text_option, text_option};
use vstd::prelude::*;

verus! {

/// Settings for one package. Each one is optional.
#[derive(Debug)]
pub struct PkgData {
    /// The component id to write in place of the document's own.
    pub id: Option<String>,
    /// The address of an icon to fetch in place of the themed icon.
    pub icon: Option<String>,
    /// The file name under which the icons are written.
    pub outputicon: Option<String>,
    /// The name under which the document is written.
    pub outputmetainfo: Option<String>,
}

/// The view of `PkgData`.
pub struct PkgDataModel {
    pub id: Option<Seq<char>>,
    pub icon: Option<Seq<char>>,
    pub outputicon: Option<Seq<char>>,
    pub outputmetainfo: Option<Seq<char>>,
}

impl PkgDataModel {
    /// No setting at all.
    pub open spec fn none() -> PkgDataModel {
        PkgDataModel { id: None, icon: None, outputicon: None, outputmetainfo: None }
    }
}

impl View for PkgData {
    type V = PkgDataModel;

    open spec fn view(&self) -> PkgDataModel {
        PkgDataModel {
            id: text_option(self.id),
            icon: text_option(self.icon),
            outputicon: text_option(self.outputicon),
            outputmetainfo: text_option(self.outputmetainfo),
        }
    }
}

impl Default for PkgData {
    fn default() -> (r: PkgData)
        ensures
            r@ == PkgDataModel::none(),
    {
        PkgData { id: None, icon: None, outputicon: None, outputmetainfo: None }
    }
}

impl PkgData {
    /// A copy of these settings.
    pub fn duplicate(&self) -> (r: PkgData)
        ensures
            r@ == self@,
    {
        PkgData {
            id: clone_text_option(&self.id),
            icon: clone_text_option(&self.icon),
            outputicon: clone_text_option(&self.outputicon),
            outputmetainfo: clone_text_option(&self.outputmetainfo),
        }
    }
}

} // verus!
