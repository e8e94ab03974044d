//! Which entries of the input directory are images to redact: regular files
//! whose extension, in lower case, is one of the configured formats.

use crate::processor::ImageProcessor;
use std::path::PathBuf;
use vstd::prelude::*;

verus! {

/// One entry of the input directory, as the caller found it.
pub struct FileEntry {
    pub path: PathBuf,
    /// Whether the entry is a regular file.
    pub is_file: bool,
    /// The extension of the file name, without the dot, in the case it was
    /// written in; `None` where the name has none.
    pub extension: Option<String>,
}

/// The lower-case form of a text, as `str::to_lowercase` gives it.
pub uninterp spec fn lowercase(text: Seq<char>) -> Seq<char>;

/// `str::to_lowercase`: the result depends on the text alone.
#[verifier::external_body]
fn lowercase_of(text: &str) -> (lowered: String)
    ensures
        lowered@ == lowercase(text@),
{
    text.to_lowercase()
}

/// `PathBuf::clone`: a copy equal to the path.
#[verifier::external_body]
fn clone_path(path: &PathBuf) -> (copy: PathBuf)
    ensures
        copy == *path,
{
    path.clone()
}

/// Whether `formats` holds the text `wanted`.
pub open spec fn lists(formats: Seq<String>, wanted: Seq<char>) -> bool {
    exists|i: int| 0 <= i < formats.len() && (#[trigger] formats[i])@ == wanted
}

impl ImageProcessor {
    /// Whether an entry is taken: a regular file with an extension whose
    /// lower-case form is a configured format.
    pub open spec fn accepts(&self, entry: FileEntry) -> bool {
        entry.is_file && (match entry.extension {
            Some(extension) => lists(self.config.paths.supported_formats@, lowercase(extension@)),
            None => false,
        })
    }

    /// The paths of the entries that are taken, in the order of the entries.
    pub open spec fn selection(&self, entries: Seq<FileEntry>) -> Seq<PathBuf>
        decreases entries.len(),
    {
        if entries.len() == 0 {
            Seq::<PathBuf>::empty()
        } else if self.accepts(entries.last()) {
            self.selection(entries.drop_last()).push(entries.last().path)
        } else {
            self.selection(entries.drop_last())
        }
    }

    /// Whether `format`, already in lower case, is one of the configured
    /// formats. The comparison is of whole extensions.
    pub fn has_format(&self, format: &String) -> (found: bool)
        ensures
            found == lists(self.config.paths.supported_formats@, format@),
    {
        let mut at: usize = 0;
        while at < self.config.paths.supported_formats.len()
            invariant
                at <= self.config.paths.supported_formats@.len(),
                forall|i: int| 0 <= i < at ==> (#[trigger] self.config.paths.supported_formats@[i])@ != format@,
            decreases self.config.paths.supported_formats@.len() - at,
        {
            if self.config.paths.supported_formats[at] == *format {
                return true;
            }
            at = at + 1;
        }
        false
    }

    /// Whether a file with this extension is an image to redact, whatever
    /// the case the extension is written in.
    pub fn is_supported(&self, extension: &str) -> (found: bool)
        ensures
            found == lists(self.config.paths.supported_formats@, lowercase(extension@)),
    {
        let lowered: String = lowercase_of(extension);
        self.has_format(&lowered)
    }

    /// Picks the images among the entries of the input directory and returns
    /// their paths, in the order of the entries.
    pub fn get_image_files(&self, entries: &Vec<FileEntry>) -> (files: Vec<PathBuf>)
        ensures
            files@ == self.selection(entries@),
    {
        let mut files: Vec<PathBuf> = Vec::new();
        let mut at: usize = 0;
        assert(entries@.take(0).len() == 0);
        while at < entries.len()
            invariant
                at <= entries@.len(),
                files@ == self.selection(entries@.take(at as int)),
            decreases entries@.len() - at,
        {
            let entry: &FileEntry = &entries[at];
            let taken: bool = entry.is_file && match &entry.extension {
                Some(extension) => self.is_supported(extension.as_str()),
                None => false,
            };
            proof {
                let next = entries@.take(at + 1);
                assert(next.drop_last() == entries@.take(at as int));
                assert(next.last() == entries@[at as int]);
            }
            if taken {
                files.push(clone_path(&entry.path));
            }
            at = at + 1;
        }
        assert(entries@.take(at as int) == entries@);
        files
    }
}

} // verus!
