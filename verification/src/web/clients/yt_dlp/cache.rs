//! The files that yt-dlp writes for a video.
use vstd::prelude::*;

verus! {

/// The extension of the caption files.
pub const CAPTIONS_EXT: &'static str = "en.vtt";

/// The extension of the metadata files.
pub const METADATA_EXT: &'static str = "info.json";

/// A file written by yt-dlp, with the directory it is written to.
#[derive(Debug, Clone)]
pub enum Artifact {
    Captions(String),
    Metadata(String),
}

impl Artifact {
    /// The extension of the kind of file.
    pub open spec fn spec_extension(&self) -> Seq<char> {
        match self {
            Artifact::Captions(_) => CAPTIONS_EXT@,
            Artifact::Metadata(_) => METADATA_EXT@,
        }
    }

    /// The directory of the file.
    pub open spec fn spec_dir(&self) -> Seq<char> {
        match self {
            Artifact::Captions(d) | Artifact::Metadata(d) => d@,
        }
    }

    /// The extension of the kind of file.
    pub fn extension(&self) -> (e: &'static str)
        ensures
            e@ == self.spec_extension(),
    {
        match self {
            Artifact::Captions(_) => CAPTIONS_EXT,
            Artifact::Metadata(_) => METADATA_EXT,
        }
    }

    /// The directory of the file.
    pub fn dir(&self) -> (d: &str)
        ensures
            d@ == self.spec_dir(),
    {
        match self {
            Artifact::Captions(d) | Artifact::Metadata(d) => d.as_str(),
        }
    }

    /// The name of the file for the video `id`: the id, a dot and the extension.
    pub fn file_name(&self, id: &str) -> (n: String)
        ensures
            n@ == id@ + seq!['.'] + self.spec_extension(),
    {
        let mut n = String::from_str(id);
        n.append(".");
        n.append(self.extension());
        proof {
            reveal_strlit(".");
        }
        n
    }
}

} // verus!
