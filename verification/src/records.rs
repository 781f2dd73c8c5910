//! The data model: logical file records, one-time link records, and the
//! transient storage-side metadata.
//!
//! Timestamps are carried as UTC epoch seconds; the process boundary converts
//! them to and from its clock's own type.

use vstd::prelude::*;

verus! {

use vstd::string::StrSliceExecFns;

/// A character the random identifiers are drawn from.
pub open spec fn is_id_char(c: char) -> bool {
    ||| ('A' <= c && c <= 'Z')
    ||| ('a' <= c && c <= 'z')
    ||| ('0' <= c && c <= '9')
}

/// A valid identifier: exactly ten characters from the 62-symbol alphabet.
pub open spec fn is_valid_id(s: Seq<char>) -> bool {
    s.len() == 10 && forall|i: int| 0 <= i < s.len() ==> is_id_char(#[trigger] s[i])
}

/// Visibility of a file for download.
#[derive(Clone, Copy, Debug, PartialEq, Eq, Structural)]
pub enum FileAccess {
    /// Downloading needs the configured token.
    Private,
    /// Anyone may download.
    Public,
}

impl FileAccess {
    /// The stored integer form: Private is 0, Public is 1; any other stored
    /// value is read as Private.
    pub open spec fn spec_from_i64(value: i64) -> FileAccess {
        if value == 1 {
            FileAccess::Public
        } else {
            FileAccess::Private
        }
    }

    /// The integer this access level is stored as.
    pub open spec fn spec_to_i64(self) -> i64 {
        match self {
            FileAccess::Private => 0,
            FileAccess::Public => 1,
        }
    }

    /// The display name of this access level.
    pub fn to_string(&self) -> (r: String)
        ensures
            *self == FileAccess::Private ==> r@ == "Private"@,
            *self == FileAccess::Public ==> r@ == "Public"@,
    {
        match self {
            FileAccess::Private => "Private".to_owned(),
            FileAccess::Public => "Public".to_owned(),
        }
    }
}

impl Default for FileAccess {
    /// A file is Private unless something says otherwise.
    fn default() -> (r: Self)
        ensures
            r == FileAccess::Private,
    {
        FileAccess::Private
    }
}

impl From<i64> for FileAccess {
    fn from(value: i64) -> (r: Self) {
        if value == 1 {
            FileAccess::Public
        } else {
            FileAccess::Private
        }
    }
}

impl vstd::std_specs::convert::FromSpecImpl<i64> for FileAccess {
    open spec fn obeys_from_spec() -> bool {
        true
    }

    open spec fn from_spec(v: i64) -> Self {
        FileAccess::spec_from_i64(v)
    }
}

impl From<FileAccess> for i64 {
    fn from(value: FileAccess) -> (r: Self) {
        match value {
            FileAccess::Private => 0,
            FileAccess::Public => 1,
        }
    }
}

impl vstd::std_specs::convert::FromSpecImpl<FileAccess> for i64 {
    open spec fn obeys_from_spec() -> bool {
        true
    }

    open spec fn from_spec(v: FileAccess) -> Self {
        v.spec_to_i64()
    }
}

impl core::str::FromStr for FileAccess {
    type Err = String;

    /// Read an access level from text: the empty string and any number but
    /// 1 mean Private, 1 means Public, and the two names are accepted in
    /// any ASCII case.
    fn from_str(s: &str) -> (r: Result<FileAccess, String>) {
        let n = s.unicode_len();
        if n == 0 {
            return Ok(FileAccess::Private);
        }
        let mut all_digits = true;
        let mut i: usize = 0;
        while i < n
            invariant
                n == s@.len(),
                i <= n,
            decreases n - i,
        {
            let c = s.get_char(i);
            if c < '0' || c > '9' {
                all_digits = false;
            }
            i = i + 1;
        }
        if all_digits {
            return Ok(
                if crate::text::str_eq(s, "1") {
                    FileAccess::Public
                } else {
                    FileAccess::Private
                },
            );
        }
        if crate::text::str_eq_ignore_ascii_case(s, "private") {
            return Ok(FileAccess::Private);
        }
        if crate::text::str_eq_ignore_ascii_case(s, "public") {
            return Ok(FileAccess::Public);
        }
        Err("not an access level".to_owned())
    }
}

/// One logical file: the index's authoritative metadata for one byte blob.
#[derive(Clone, Debug)]
pub struct File {
    pub id: String,
    pub path: String,
    pub size: i64,
    pub download_count: i64,
    pub last_downloaded_at: Option<i64>,
    pub created_at: i64,
    pub updated_at: i64,
    pub access: i64,
    pub chunk_index: i64,
    pub total_chunks: i64,
}

/// Mathematical model of a file record.
pub struct FileV {
    pub id: Seq<char>,
    pub path: Seq<char>,
    pub size: i64,
    pub download_count: i64,
    pub last_downloaded_at: Option<i64>,
    pub created_at: i64,
    pub updated_at: i64,
    pub access: i64,
    pub chunk_index: i64,
    pub total_chunks: i64,
}

impl View for File {
    type V = FileV;

    open spec fn view(&self) -> FileV {
        FileV {
            id: self.id@,
            path: self.path@,
            size: self.size,
            download_count: self.download_count,
            last_downloaded_at: self.last_downloaded_at,
            created_at: self.created_at,
            updated_at: self.updated_at,
            access: self.access,
            chunk_index: self.chunk_index,
            total_chunks: self.total_chunks,
        }
    }
}

impl FileV {
    /// Record invariant: a valid identifier, non-negative size and counter,
    /// the resume pointer within `0 ..= max(total_chunks, 0)`, and
    /// `total_chunks` either a chunk count or the reconciliation mark -1.
    pub open spec fn wf(self) -> bool {
        &&& is_valid_id(self.id)
        &&& self.size >= 0
        &&& self.download_count >= 0
        &&& 0 <= self.chunk_index
        &&& self.total_chunks >= 0 ==> self.chunk_index <= self.total_chunks
        &&& self.total_chunks < 0 ==> self.chunk_index == 0
        &&& self.total_chunks >= -1
    }
}

impl File {
    /// The access level this record stores.
    pub fn get_access(&self) -> (r: FileAccess)
        ensures
            r == FileAccess::spec_from_i64(self@.access),
    {
        if self.access == 1 {
            FileAccess::Public
        } else {
            FileAccess::Private
        }
    }

    /// Store a new access level.
    pub fn set_access(&mut self, access: FileAccess)
        ensures
            final(self)@ == (FileV { access: access.spec_to_i64(), ..old(self)@ }),
    {
        self.access = i64::from(access);
    }
}

/// One one-time upload grant.
#[derive(Clone, Debug)]
pub struct FileLink {
    pub id: String,
    pub uploaded_file: Option<String>,
    pub uploaded_at: Option<i64>,
    pub created_at: i64,
}

/// Mathematical model of a link record.
pub struct FileLinkV {
    pub id: Seq<char>,
    pub uploaded_file: Option<Seq<char>>,
    pub uploaded_at: Option<i64>,
    pub created_at: i64,
}

impl View for FileLink {
    type V = FileLinkV;

    open spec fn view(&self) -> FileLinkV {
        FileLinkV {
            id: self.id@,
            uploaded_file: match &self.uploaded_file {
                Some(f) => Some(f@),
                None => None,
            },
            uploaded_at: self.uploaded_at,
            created_at: self.created_at,
        }
    }
}

impl FileLinkV {
    /// Link invariant: a valid identifier, and the file binding and its
    /// timestamp set together or not at all.
    pub open spec fn wf(self) -> bool {
        &&& is_valid_id(self.id)
        &&& (self.uploaded_file is Some <==> self.uploaded_at is Some)
    }

    /// A link grants an upload only while both the file binding and the
    /// upload instant are absent.
    pub open spec fn spec_is_valid_to_use(self) -> bool {
        self.uploaded_file is None && self.uploaded_at is None
    }
}

impl FileLink {
    /// Whether this link still grants an upload.
    pub fn is_valid_to_use(&self) -> (r: bool)
        ensures
            r == self@.spec_is_valid_to_use(),
    {
        self.uploaded_file.is_none() && self.uploaded_at.is_none()
    }
}

/// What the backing store reports about one entry; never persisted.
#[derive(Clone, Debug)]
pub struct FileMetadata {
    pub path: String,
    pub is_dir: bool,
    pub size: u64,
    pub modified: u64,
}

/// Mathematical model of a storage-side entry.
pub struct FileMetadataV {
    pub path: Seq<char>,
    pub is_dir: bool,
    pub size: u64,
    pub modified: u64,
}

impl View for FileMetadata {
    type V = FileMetadataV;

    open spec fn view(&self) -> FileMetadataV {
        FileMetadataV { path: self.path@, is_dir: self.is_dir, size: self.size, modified: self.modified }
    }
}

/// One row of a directory listing as the client sees it: the storage entry
/// joined with its index record, when one exists.
#[derive(Clone, Debug)]
pub struct ClientFile {
    pub path: String,
    pub is_dir: bool,
    pub size: u64,
    pub modified: u64,
    pub id: Option<String>,
    pub access: Option<i64>,
}

/// Mathematical model of a listing row.
pub struct ClientFileV {
    pub path: Seq<char>,
    pub is_dir: bool,
    pub size: u64,
    pub modified: u64,
    pub id: Option<Seq<char>>,
    pub access: Option<i64>,
}

impl View for ClientFile {
    type V = ClientFileV;

    open spec fn view(&self) -> ClientFileV {
        ClientFileV {
            path: self.path@,
            is_dir: self.is_dir,
            size: self.size,
            modified: self.modified,
            id: match &self.id {
                Some(i) => Some(i@),
                None => None,
            },
            access: self.access,
        }
    }
}

/// What the preview endpoint reports about one file.
#[derive(Clone, Debug)]
pub struct PreviewData {
    pub size: i64,
    pub file_name: String,
    pub id: String,
    pub created_at: i64,
    pub mime_type: String,
    pub access: i64,
    pub path: Option<String>,
    pub cant_preview: bool,
}

} // verus!
