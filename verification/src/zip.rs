//! Validation of an archive's directory layout, and the errors an archive
//! read can report.
//!
//! The reader accepts a flat archive of image slabs: optionally one folder,
//! with every file directly inside it (or at the root when no folder entry
//! appears before it). Walking the archive and extracting bytes is host work;
//! the decision of whether the layout is acceptable is made here, over plain
//! values.

use crate::source::DicomDataInternal;
use vstd::prelude::*;
use vstd::string::StringExecFns;

verus! {

/// A fully assembled source volume, ready for brick-grid construction.
pub struct ZipResult {
    pub internal: DicomDataInternal,
}

#[derive(Clone, Copy, PartialEq, Eq, Structural, Debug)]
pub enum ZipReadErrorType {
    /// The archive or one of its entries could not be read.
    ExtractFailed,
    /// The archive holds more than one folder, or files outside its folder.
    MoreThanOneFolder,
    /// The archive holds no entries at all.
    NoFiles,
}

/// An archive read failure: its kind and an optional detail message.
pub struct ZipReadError(pub ZipReadErrorType, pub Option<String>);

impl ZipReadError {
    /// A short label for the error kind.
    pub fn kind_label(&self) -> (s: &'static str)
        ensures
            self.0 is ExtractFailed ==> s@ == "extract failed"@,
            self.0 is MoreThanOneFolder ==> s@ == "more than one folder"@,
            self.0 is NoFiles ==> s@ == "no files"@,
    {
        match self.0 {
            ZipReadErrorType::ExtractFailed => "extract failed",
            ZipReadErrorType::MoreThanOneFolder => "more than one folder",
            ZipReadErrorType::NoFiles => "no files",
        }
    }

    /// The error rendered as text: the kind label, then the detail message
    /// if one was recorded.
    pub fn message(self) -> (s: String)
        ensures
            self.1 matches Some(m) ==> s@ == self.kind_label_spec() + ": "@ + m@,
            self.1 is None ==> s@ == self.kind_label_spec() + ": "@ + "no message specified"@,
    {
        let mut s = String::new();
        s.append(self.kind_label());
        s.append(": ");
        match self.1 {
            Some(m) => {
                s.append(m.as_str());
            },
            None => {
                s.append("no message specified");
            },
        }
        s
    }

    /// View of the kind label.
    pub open spec fn kind_label_spec(self) -> Seq<char> {
        match self.0 {
            ZipReadErrorType::ExtractFailed => "extract failed"@,
            ZipReadErrorType::MoreThanOneFolder => "more than one folder"@,
            ZipReadErrorType::NoFiles => "no files"@,
        }
    }
}

/// One archive entry, reduced to what the layout rule reads: whether it is a
/// folder, and an identifier of the directory it names (for folders) or sits
/// in (for files). The host assigns equal identifiers to equal paths, with
/// zero for the archive root.
#[derive(Clone, Copy, PartialEq, Eq, Structural, Debug)]
pub struct ArchiveEntry {
    pub is_dir: bool,
    pub dir_id: u32,
}

/// The layout scan over the first `n` entries: the folder seen so far, or
/// the first violation. A second folder entry is a violation; so is a file
/// outside the folder once one has been seen.
pub open spec fn scan_layout(entries: Seq<ArchiveEntry>, n: int) -> Result<
    Option<u32>,
    ZipReadErrorType,
>
    decreases n,
{
    if n <= 0 {
        Ok(None)
    } else {
        match scan_layout(entries, n - 1) {
            Err(e) => Err(e),
            Ok(dir) => {
                let e = entries[n - 1];
                if e.is_dir {
                    if dir is Some {
                        Err(ZipReadErrorType::MoreThanOneFolder)
                    } else {
                        Ok(Some(e.dir_id))
                    }
                } else {
                    match dir {
                        Some(d) => if e.dir_id != d {
                            Err(ZipReadErrorType::MoreThanOneFolder)
                        } else {
                            Ok(dir)
                        },
                        None => Ok(dir),
                    }
                }
            },
        }
    }
}

/// Decide whether an archive's layout is acceptable: it must have at least
/// one entry, at most one folder, and no file outside that folder once the
/// folder has been seen.
pub fn check_archive_layout(entries: &Vec<ArchiveEntry>) -> (r: Result<(), ZipReadErrorType>)
    ensures
        entries@.len() == 0 ==> r == Err::<(), ZipReadErrorType>(ZipReadErrorType::NoFiles),
        entries@.len() > 0 ==> (match scan_layout(entries@, entries@.len() as int) {
            Ok(_) => r is Ok,
            Err(e) => r == Err::<(), ZipReadErrorType>(e),
        }),
{
    if entries.len() == 0 {
        return Err(ZipReadErrorType::NoFiles);
    }
    let mut directory: Option<u32> = None;
    let mut i: usize = 0;
    while i < entries.len()
        invariant
            i <= entries@.len(),
            scan_layout(entries@, i as int) == Ok::<Option<u32>, ZipReadErrorType>(directory),
        decreases entries@.len() - i,
    {
        let e = entries[i];
        if e.is_dir {
            if directory.is_some() {
                proof {
                    lemma_scan_err_persists(entries@, i as int + 1, entries@.len() as int);
                }
                return Err(ZipReadErrorType::MoreThanOneFolder);
            }
            directory = Some(e.dir_id);
        } else {
            match directory {
                Some(d) => {
                    if e.dir_id != d {
                        proof {
                            lemma_scan_err_persists(entries@, i as int + 1, entries@.len() as int);
                        }
                        return Err(ZipReadErrorType::MoreThanOneFolder);
                    }
                },
                None => {},
            }
        }
        i = i + 1;
    }
    Ok(())
}

/// Once the scan has failed, it stays failed with the same error.
proof fn lemma_scan_err_persists(entries: Seq<ArchiveEntry>, n: int, m: int)
    requires
        scan_layout(entries, n) is Err,
        n <= m,
    ensures
        scan_layout(entries, m) == scan_layout(entries, n),
    decreases m,
{
    if m > n {
        lemma_scan_err_persists(entries, n, m - 1);
    }
}

} // verus!
