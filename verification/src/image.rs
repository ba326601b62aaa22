//! The record that is kept of each source image.

use crate::pyramid::{Metadata, MetadataState};
use vstd::prelude::*;

verus! {

/// A source file, as it was found on disk.
#[derive(Debug, Clone, PartialEq, Eq, PartialOrd, Ord, Default)]
pub struct File {
    /// The file's canonical path.
    pub path: String,
    /// When the file was last modified, in seconds since the Unix epoch.
    pub modified: u64,
    /// The file's size in bytes.
    pub file_size: u64,
}

/// One image of the collection.
#[derive(Debug)]
pub struct Image {
    /// The source file.
    pub file: File,
    /// What is known of the image's pyramid.
    pub metadata: MetadataState,
    /// The pyramid level whose tiles are in the cache, if any is.
    pub size: Option<usize>,
}

impl Image {
    /// The pyramid, where it is present, is valid, and a loaded level is
    /// one of its levels.
    pub open spec fn wf(self) -> bool {
        &&& self.metadata.wf()
        &&& self.size matches Some(level) ==> (self.metadata matches MetadataState::Present(m)
            && level < m.thumbs@.len())
    }

    /// Whether the record is consistent.
    pub fn valid(&self) -> (r: bool)
        ensures
            r == self.wf(),
    {
        if !self.metadata.valid() {
            return false;
        }
        match self.size {
            None => true,
            Some(level) => match &self.metadata {
                MetadataState::Present(m) => level < m.thumbs.len(),
                _ => false,
            },
        }
    }

    /// The record of `file`, with the pyramid that was recovered for it, if
    /// one was, and no level loaded.
    pub fn from(file: File, metadata: Option<Metadata>) -> (r: Image)
        requires
            metadata matches Some(m) ==> m.wf(),
        ensures
            r.file == file,
            r.size is None,
            r.metadata == (match metadata {
                Some(m) => MetadataState::Present(m),
                None => MetadataState::Missing,
            }),
            r.wf(),
    {
        let metadata = match metadata {
            Some(m) => MetadataState::Present(m),
            None => MetadataState::Missing,
        };
        Image { file, metadata, size: None }
    }

    /// Whether the image has no pyramid yet.
    pub fn is_missing(&self) -> (r: bool)
        ensures
            r == (self.metadata is Missing),
    {
        match self.metadata {
            MetadataState::Missing => true,
            _ => false,
        }
    }

    /// Whether the image can still be shown: building its pyramid has not failed.
    pub fn loadable(&self) -> (r: bool)
        ensures
            r == !(self.metadata is Errored),
    {
        match self.metadata {
            MetadataState::Errored => false,
            _ => true,
        }
    }

    /// Forgets which level is loaded.
    pub fn reset(&mut self)
        ensures
            final(self).size is None,
            final(self).file == old(self).file,
            final(self).metadata == old(self).metadata,
            old(self).metadata.wf() ==> final(self).wf(),
    {
        self.size = None;
    }
}

} // verus!
