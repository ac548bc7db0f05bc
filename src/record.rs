use vstd::prelude::*;
use crate::paths::{ScanPath, bytes_equal, is_prefix_of};
use sha2::{Digest, Sha256};

verus! {

/// The SHA-256 digest of a byte string.
pub uninterp spec fn sha256_of(content: Seq<u8>) -> Seq<u8>;

/// Relies on sha2's `Sha256` (`new`, `update`, `finalize`): the 32-byte SHA-256
/// digest of `content`, which depends on the bytes alone.
#[verifier::external_body]
fn sha256_digest(content: &[u8]) -> (r: [u8; 32])
    ensures
        r@ == sha256_of(content@),
{
    let mut hasher = Sha256::new();
    hasher.update(content);
    <[u8; 32]>::from(hasher.finalize())
}

/// Why one discovered file yields no record.
#[derive(Debug, Clone, Copy, PartialEq, Eq, Structural)]
pub enum FileError {
    /// The file's path does not lie under the scan root.
    NotUnderRoot,
    /// The file's content could not be read.
    Unreadable,
}

/// One discovered chart file: where it is, its content and that content's
/// SHA-256 digest.
#[derive(Debug)]
pub struct FileInfo {
    absolute_path: ScanPath,
    relative_path: ScanPath,
    content: Vec<u8>,
    sha256: [u8; 32],
}

impl FileInfo {
    pub closed spec fn absolute_view(&self) -> Seq<Seq<u8>> {
        self.absolute_path@
    }

    pub closed spec fn relative_view(&self) -> Seq<Seq<u8>> {
        self.relative_path@
    }

    pub closed spec fn content_view(&self) -> Seq<u8> {
        self.content@
    }

    pub closed spec fn sha256_view(&self) -> Seq<u8> {
        self.sha256@
    }

    /// The record was made from a file at `root` joined with its relative path,
    /// and its digest is that of its content.
    pub open spec fn made_under(&self, root: Seq<Seq<u8>>) -> bool {
        &&& is_prefix_of(root, self.absolute_view())
        &&& self.relative_view() == self.absolute_view().subrange(
            root.len() as int,
            self.absolute_view().len() as int,
        )
        &&& self.sha256_view() == sha256_of(self.content_view())
    }

    pub fn absolute_path(&self) -> (r: &ScanPath)
        ensures
            r@ == self.absolute_view(),
    {
        &self.absolute_path
    }

    pub fn relative_path(&self) -> (r: &ScanPath)
        ensures
            r@ == self.relative_view(),
    {
        &self.relative_path
    }

    pub fn content(&self) -> (r: &[u8])
        ensures
            r@ == self.content_view(),
    {
        self.content.as_slice()
    }

    pub fn sha256(&self) -> (r: [u8; 32])
        ensures
            r@ == self.sha256_view(),
    {
        self.sha256
    }

    /// Hashes the content again and compares with the stored digest.
    pub fn fingerprint_matches(&self) -> (r: bool)
        ensures
            r == (self.sha256_view() == sha256_of(self.content_view())),
    {
        let again = sha256_digest(self.content.as_slice());
        bytes_equal(self.sha256.as_slice(), again.as_slice())
    }
}

/// Builds the record of the file at `path`, found under `root`, whose bytes are
/// `content`. Fails exactly when `root` is not a prefix of `path`.
pub fn process_file(path: &ScanPath, root: &ScanPath, content: Vec<u8>) -> (r: Result<
    FileInfo,
    FileError,
>)
    ensures
        r is Err <==> !is_prefix_of(root@, path@),
        r is Err ==> r->Err_0 == FileError::NotUnderRoot,
        r matches Ok(f) ==> {
            &&& f.absolute_view() == path@
            &&& f.relative_view() == path@.subrange(root@.len() as int, path@.len() as int)
            &&& f.content_view() == content@
            &&& f.sha256_view() == sha256_of(content@)
            &&& f.made_under(root@)
        },
{
    let relative_path = match path.strip_prefix(root) {
        Some(p) => p,
        None => return Err(FileError::NotUnderRoot),
    };
    let sha256 = sha256_digest(content.as_slice());
    Ok(FileInfo { absolute_path: path.duplicate(), relative_path, content, sha256 })
}

/// A record's relative path is its absolute path with the scan root taken off,
/// and hashing its content again gives its stored digest.
pub proof fn lemma_record_consistent(rec: FileInfo, root: Seq<Seq<u8>>)
    requires
        rec.made_under(root),
    ensures
        rec.relative_view() == rec.absolute_view().subrange(root.len() as int, rec.absolute_view().len() as int),
        rec.sha256_view() == sha256_of(rec.content_view()),
        root + rec.relative_view() == rec.absolute_view(),
{
    assert(root + rec.relative_view() =~= rec.absolute_view());
}

} // verus!
