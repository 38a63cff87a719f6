//! The manifest: the ordered list of files that make up the virtual
//! concatenation.

use vstd::prelude::*;

verus! {

/// One file of the virtual concatenation: a region of one remote object.
#[derive(Debug, PartialEq, Eq)]
pub struct FileInfo {
    /// Length of the file's content in bytes.
    pub size: usize,
    /// Key of the remote object that holds the file.
    pub key: String,
    /// Bucket of the remote object that holds the file.
    pub bucket_name: String,
    /// Path of the file inside a container archive, if it lives in one.
    /// Carried along untouched.
    pub zip_filepath: Option<String>,
    /// Position of the file's first byte within the virtual concatenation.
    pub file_start_offset: usize,
    /// Position of the file's first byte within the remote object.
    pub data_start_offset: usize,
}

/// Mathematical value of a [`FileInfo`].
pub struct FileInfoView {
    pub size: nat,
    pub key: Seq<char>,
    pub bucket_name: Seq<char>,
    pub zip_filepath: Option<Seq<char>>,
    pub file_start_offset: nat,
    pub data_start_offset: nat,
}

impl FileInfoView {
    /// The last byte of the file, if it has one, lies at an offset of the
    /// remote object that a `usize` can hold.
    pub open spec fn addressable(self) -> bool {
        self.size > 0 ==> self.data_start_offset + self.size - 1 <= usize::MAX
    }

    /// The logical position `p` falls inside this file.
    pub open spec fn holds(self, p: int) -> bool {
        self.file_start_offset <= p < self.file_start_offset + self.size
    }
}

impl View for FileInfo {
    type V = FileInfoView;

    open spec fn view(&self) -> FileInfoView {
        FileInfoView {
            size: self.size as nat,
            key: self.key@,
            bucket_name: self.bucket_name@,
            zip_filepath: match self.zip_filepath {
                Some(p) => Some(p@),
                None => None,
            },
            file_start_offset: self.file_start_offset as nat,
            data_start_offset: self.data_start_offset as nat,
        }
    }
}

impl Clone for FileInfo {
    fn clone(&self) -> (res: FileInfo)
        ensures
            res == *self,
    {
        let zip_filepath = match &self.zip_filepath {
            Some(p) => Some(p.clone()),
            None => None,
        };
        FileInfo {
            size: self.size,
            key: self.key.clone(),
            bucket_name: self.bucket_name.clone(),
            zip_filepath,
            file_start_offset: self.file_start_offset,
            data_start_offset: self.data_start_offset,
        }
    }
}

impl FileInfo {
    /// Tells whether every byte of the file can be named by a `usize` offset
    /// into its remote object.
    pub fn is_addressable(&self) -> (ok: bool)
        ensures
            ok == self@.addressable(),
    {
        self.size == 0 || self.data_start_offset <= usize::MAX - (self.size - 1)
    }
}

/// The mathematical value of a whole manifest.
pub open spec fn manifest_view(files: Seq<FileInfo>) -> Seq<FileInfoView> {
    files.map_values(|f: FileInfo| f@)
}

/// Every file of the manifest is addressable.
pub open spec fn all_addressable(files: Seq<FileInfoView>) -> bool {
    forall|i: int| 0 <= i < files.len() ==> (#[trigger] files[i]).addressable()
}

/// The files lie end to end: each one starts where the one before it stops.
pub open spec fn contiguous(files: Seq<FileInfoView>) -> bool {
    forall|i: int|
        0 <= i < files.len() - 1 ==> (#[trigger] files[i + 1]).file_start_offset
            == files[i].file_start_offset + files[i].size
}

/// Tells whether every file of the manifest is addressable.
pub fn manifest_is_addressable(files: &Vec<FileInfo>) -> (ok: bool)
    ensures
        ok == all_addressable(manifest_view(files@)),
{
    let mut i: usize = 0;
    while i < files.len()
        invariant
            i <= files.len(),
            forall|j: int| 0 <= j < i ==> (#[trigger] manifest_view(files@)[j]).addressable(),
        decreases files.len() - i,
    {
        if !files[i].is_addressable() {
            assert(!manifest_view(files@)[i as int].addressable());
            return false;
        }
        i += 1;
    }
    true
}

} // verus!
