//! The video source: the file that the encoder reads in a loop.
use vstd::prelude::*;

verus! {

/// A video file that an external encoder turns into an H.264 Annex-B stream.
pub struct FileSource {
    pub file_path: String,
}

impl FileSource {
    pub fn new(file_path: String) -> (s: FileSource)
        ensures
            s.file_path@ == file_path@,
    {
        FileSource { file_path }
    }
}

} // verus!
