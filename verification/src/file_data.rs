//! The file backend's layout: where the info blob and each tile blob live
//! under a profile directory. Reading and decoding the blobs is I/O and
//! stays with the caller; this module only computes the paths.

use vstd::prelude::*;

use crate::codec::spec_slug;
use crate::data::DataSourceDescription;
use crate::deferred_data::TileRequest;

verus! {

/// A directory holding an `info` blob and one compressed blob per tile,
/// keyed by the tile request's slug, under a subdirectory per tile kind.
pub struct FileDataSource {
    pub basedir: String,
}

impl FileDataSource {
    pub fn new(basedir: String) -> (r: FileDataSource)
        ensures
            r.basedir@ == basedir@,
    {
        FileDataSource { basedir }
    }

    /// The backend's locator: the directory itself.
    pub fn fetch_description(&self) -> (r: DataSourceDescription)
        ensures
            r.source_locator@.len() == 1,
            r.source_locator@[0]@ == self.basedir@,
    {
        let mut source_locator: Vec<String> = Vec::new();
        source_locator.push(self.basedir.clone());
        DataSourceDescription { source_locator }
    }

    /// The path of the startup info blob.
    pub fn info_path(&self) -> (r: String)
        ensures
            r@ == self.basedir@ + "/info"@,
    {
        let mut out = self.basedir.clone();
        out.append("/info");
        out
    }

    /// The path of a summary tile blob.
    pub fn summary_tile_path(&self, req: &TileRequest) -> (r: String)
        ensures
            r@ == self.basedir@ + "/summary_tile/"@ + spec_slug(req@),
    {
        let mut out = self.basedir.clone();
        out.append("/summary_tile/");
        let slug = req.to_slug();
        out.append(slug.as_str());
        out
    }

    /// The path of a slot tile blob.
    pub fn slot_tile_path(&self, req: &TileRequest) -> (r: String)
        ensures
            r@ == self.basedir@ + "/slot_tile/"@ + spec_slug(req@),
    {
        let mut out = self.basedir.clone();
        out.append("/slot_tile/");
        let slug = req.to_slug();
        out.append(slug.as_str());
        out
    }

    /// The path of a metadata tile blob.
    pub fn slot_meta_tile_path(&self, req: &TileRequest) -> (r: String)
        ensures
            r@ == self.basedir@ + "/slot_meta_tile/"@ + spec_slug(req@),
    {
        let mut out = self.basedir.clone();
        out.append("/slot_meta_tile/");
        let slug = req.to_slug();
        out.append(slug.as_str());
        out
    }
}

} // verus!
