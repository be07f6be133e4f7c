//! The stream inventory.
//!
//! Probing a media file yields one record per stream: its index, the kind
//! of media it carries, the identifier of its codec where the backend
//! recognized one, and the `language` tag of its metadata where present.
//! These plain values are all the decision engine consults.

use vstd::prelude::*;

use crate::codec::MediaKind;

verus! {

/// One stream of a probed media file.
pub struct StreamInfo {
    pub index: u32,
    pub kind: MediaKind,
    pub codec_id: Option<u64>,
    pub language: Option<String>,
}

impl Clone for StreamInfo {
    fn clone(&self) -> (r: Self)
        ensures
            r == *self,
    {
        StreamInfo {
            index: self.index,
            kind: self.kind,
            codec_id: self.codec_id,
            language: match &self.language {
                Some(s) => Some(s.clone()),
                None => None,
            },
        }
    }
}

impl StreamInfo {
    /// The stream's position in the container.
    pub fn get_index(&self) -> (r: u32)
        ensures
            r == self.index,
    {
        self.index
    }

    /// The kind of media the stream carries.
    pub fn get_media_type(&self) -> (r: MediaKind)
        ensures
            r == self.kind,
    {
        self.kind
    }

    /// The identifier of the stream's codec, where the backend recognized
    /// one.
    pub fn get_codec_id(&self) -> (r: Option<u64>)
        ensures
            r == self.codec_id,
    {
        self.codec_id
    }
}

} // verus!
