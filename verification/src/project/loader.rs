//! Locating and decoding the `.als` file of a project.
//!
//! Looking at the file system is left to the caller, which reports what it
//! found; the decisions taken on it, and the decoding of the file's bytes,
//! are made here.

use vstd::prelude::*;

use crate::error::{Error, ErrorModel};
use crate::paths::{extension, path_extension};
use crate::text::{ascii_lower, chars_equal, chars_of, to_ascii_lower};

verus! {

/// Whether an extension is `als`, ignoring ASCII case.
pub open spec fn is_als_ext(ext: Option<Seq<char>>) -> bool {
    match ext {
        Some(e) => ascii_lower(e) == "als"@,
        None => false,
    }
}

/// Law: a project file is one whose extension is `als` in any ASCII case.
pub proof fn law_als_extension(e: Seq<char>)
    ensures
        is_als_ext(Some(e)) <==> ascii_lower(e) == "als"@,
        !is_als_ext(None),
{
}

/// Whether the extension of `p` is `als`, ignoring ASCII case.
pub open spec fn has_als_ext(p: Seq<char>) -> bool {
    is_als_ext(path_extension(p))
}

/// Whether an extension (absent when the path has none) is `als`, ignoring
/// ASCII case.
pub fn is_als_extension(ext: Option<&str>) -> (r: bool)
    ensures
        r == is_als_ext(
            match ext {
                Some(e) => Some(e@),
                None => None,
            },
        ),
{
    match ext {
        Some(e) => chars_equal(&to_ascii_lower(&chars_of(e)), &chars_of("als")),
        None => false,
    }
}

/// Whether `path` ends in `.als` (case-insensitively).
pub fn has_als_extension(path: &str) -> (r: bool)
    ensures
        r == has_als_ext(path@),
{
    let ext = extension(path);
    match &ext {
        Some(e) => is_als_extension(Some(e.as_str())),
        None => is_als_extension(None),
    }
}

/// What a user-supplied path names on disk.
#[derive(Debug, Clone, Copy, PartialEq, Eq)]
pub enum PathKind {
    /// Nothing exists at the path.
    Missing,
    /// A regular file.
    File,
    /// A directory.
    Directory,
    /// Something else (neither a file nor a directory).
    Other,
}

/// One entry of a directory listing.
#[derive(Debug, Clone, PartialEq, Eq)]
pub struct DirEntryInfo {
    pub path: String,
    pub is_file: bool,
}

pub struct DirEntryModel {
    pub path: Seq<char>,
    pub is_file: bool,
}

impl View for DirEntryInfo {
    type V = DirEntryModel;

    open spec fn view(&self) -> DirEntryModel {
        DirEntryModel { path: self.path@, is_file: self.is_file }
    }
}

/// A directory listing: the error of opening the directory, or its entries,
/// each of which may have failed to be read.
pub type Listing = Result<Vec<Result<DirEntryInfo, String>>, String>;

pub open spec fn entry_view(e: Result<DirEntryInfo, String>) -> Result<DirEntryModel, Seq<char>> {
    match e {
        Ok(d) => Ok(d@),
        Err(m) => Err(m@),
    }
}

pub open spec fn entries_view(es: Seq<Result<DirEntryInfo, String>>) -> Seq<
    Result<DirEntryModel, Seq<char>>,
> {
    es.map_values(|e: Result<DirEntryInfo, String>| entry_view(e))
}

/// The message of the first entry that failed to be read, from `k` on.
pub open spec fn first_entry_error(es: Seq<Result<DirEntryModel, Seq<char>>>, k: int) -> Option<
    Seq<char>,
>
    decreases es.len() - k,
{
    if k < 0 || k >= es.len() {
        None
    } else {
        match es[k] {
            Err(m) => Some(m),
            Ok(_) => first_entry_error(es, k + 1),
        }
    }
}

/// The entries from `k` on that are files with an `.als` extension.
pub open spec fn als_entries(es: Seq<Result<DirEntryModel, Seq<char>>>, k: int) -> Seq<Seq<char>>
    decreases es.len() - k,
{
    if k < 0 || k >= es.len() {
        Seq::empty()
    } else {
        let rest = als_entries(es, k + 1);
        match es[k] {
            Ok(d) => if d.is_file && has_als_ext(d.path) {
                seq![d.path] + rest
            } else {
                rest
            },
            Err(_) => rest,
        }
    }
}

/// Where a user-supplied path leads: the path itself when it is an `.als`
/// file; the single `.als` file of a directory (non-recursive); an error
/// otherwise.
pub open spec fn resolved_target(
    path: Seq<char>,
    kind: PathKind,
    listing: Result<Seq<Result<DirEntryModel, Seq<char>>>, Seq<char>>,
) -> Result<Seq<char>, ErrorModel> {
    match kind {
        PathKind::Missing => Err(ErrorModel::PathNotFound(path)),
        PathKind::File => if has_als_ext(path) {
            Ok(path)
        } else {
            Err(ErrorModel::NotAnAlsTarget(path))
        },
        PathKind::Directory => match listing {
            Err(m) => Err(ErrorModel::Io { path, message: m }),
            Ok(es) => match first_entry_error(es, 0) {
                Some(m) => Err(ErrorModel::Io { path, message: m }),
                None => {
                    let hits = als_entries(es, 0);
                    if hits.len() == 0 {
                        Err(ErrorModel::NoAlsInFolder(path))
                    } else if hits.len() == 1 {
                        Ok(hits[0])
                    } else {
                        Err(ErrorModel::MultipleAlsInFolder(path))
                    }
                },
            },
        },
        PathKind::Other => Err(ErrorModel::NotAnAlsTarget(path)),
    }
}

pub open spec fn listing_view(l: Listing) -> Result<Seq<Result<DirEntryModel, Seq<char>>>, Seq<char>> {
    match l {
        Ok(es) => Ok(entries_view(es@)),
        Err(m) => Err(m@),
    }
}

pub open spec fn text_result_view(r: Result<String, Error>) -> Result<Seq<char>, ErrorModel> {
    match r {
        Ok(s) => Ok(s@),
        Err(e) => Err(e@),
    }
}

/// Resolve a user-supplied path to a concrete `.als` file, given what the
/// path names on disk and, for a directory, its listing.
///
/// - If `path` is a file ending in `.als`, returns it directly.
/// - If `path` is a directory, looks for exactly one `.als` file inside it
///   (non-recursive). Errors on zero or multiple matches.
pub fn resolve_als_target(path: &str, kind: PathKind, listing: &Listing) -> (r: Result<
    String,
    Error,
>)
    ensures
        text_result_view(r) == resolved_target(path@, kind, listing_view(*listing)),
{
    match kind {
        PathKind::Missing => Err(Error::PathNotFound(path.to_owned())),
        PathKind::File => if has_als_extension(path) {
            Ok(path.to_owned())
        } else {
            Err(Error::NotAnAlsTarget(path.to_owned()))
        },
        PathKind::Other => Err(Error::NotAnAlsTarget(path.to_owned())),
        PathKind::Directory => {
            let entries = match listing {
                Err(m) => return Err(Error::Io { path: path.to_owned(), message: m.clone() }),
                Ok(es) => es,
            };
            let ghost es = entries_view(entries@);
            let n = entries.len();
            // Scan from the end so that the hits come out in listing order.
            let mut hits: Vec<String> = Vec::new();
            let mut k = n;
            let mut err: Option<String> = None;
            while k > 0
                invariant
                    n == entries@.len(),
                    es == entries_view(entries@),
                    k <= n,
                    hits@.map_values(|h: String| h@) == als_entries(es, k as int),
                    match err {
                        Some(m) => first_entry_error(es, k as int) == Some(m@),
                        None => first_entry_error(es, k as int) is None,
                    },
                decreases k,
            {
                k = k - 1;
                assert(es[k as int] == entry_view(entries@[k as int]));
                match &entries[k] {
                    Err(m) => {
                        err = Some(m.clone());
                    },
                    Ok(d) => {
                        if d.is_file && has_als_extension(d.path.as_str()) {
                            let ghost before = hits@.map_values(|h: String| h@);
                            hits.insert(0, d.path.clone());
                            assert(hits@.map_values(|h: String| h@) =~= seq![d.path@] + before);
                        }
                    },
                }
            }
            if let Some(m) = err {
                return Err(Error::Io { path: path.to_owned(), message: m });
            }
            if hits.len() == 0 {
                Err(Error::NoAlsInFolder(path.to_owned()))
            } else if hits.len() == 1 {
                let h = hits[0].clone();
                Ok(h)
            } else {
                Err(Error::MultipleAlsInFolder(path.to_owned()))
            }
        },
    }
}

proof fn lemma_als_entries(es: Seq<Result<DirEntryModel, Seq<char>>>, k: int)
    requires
        0 <= k,
    ensures
        forall|m: int|
            0 <= m < als_entries(es, k).len() ==> has_als_ext(#[trigger] als_entries(es, k)[m]),
    decreases es.len() - k,
{
    if k < es.len() {
        lemma_als_entries(es, k + 1);
        let rest = als_entries(es, k + 1);
        match es[k] {
            Ok(d) => if d.is_file && has_als_ext(d.path) {
                assert forall|m: int| 0 <= m < als_entries(es, k).len() implies has_als_ext(
                    #[trigger] als_entries(es, k)[m],
                ) by {
                    if m > 0 {
                        assert(als_entries(es, k)[m] == rest[m - 1]);
                    }
                }
            },
            Err(_) => {},
        }
    }
}

/// Whether listing entry `e` is a file with the `.als` extension.
pub open spec fn is_als_file(e: Result<DirEntryModel, Seq<char>>) -> bool {
    e matches Ok(d) && d.is_file && has_als_ext(d.path)
}

proof fn lemma_als_entries_count(es: Seq<Result<DirEntryModel, Seq<char>>>, k: int)
    requires
        0 <= k <= es.len(),
    ensures
        (forall|j: int| k <= j < es.len() ==> !is_als_file(#[trigger] es[j])) ==> als_entries(
            es,
            k,
        ).len() == 0,
        forall|i: int|
            k <= i < es.len() && is_als_file(#[trigger] es[i]) && (forall|j: int|
                k <= j < es.len() && j != i ==> !is_als_file(#[trigger] es[j])) ==> als_entries(
                es,
                k,
            ) == seq![es[i]->Ok_0.path],
        forall|i: int, j: int|
            k <= i < j < es.len() && is_als_file(#[trigger] es[i]) && is_als_file(#[trigger] es[j])
                ==> als_entries(es, k).len() >= 2,
        forall|i: int|
            k <= i < es.len() && is_als_file(#[trigger] es[i]) ==> als_entries(es, k).len() >= 1,
    decreases es.len() - k,
{
    if k < es.len() {
        lemma_als_entries_count(es, k + 1);
        assert forall|i: int, j: int|
            k <= i < j < es.len() && is_als_file(#[trigger] es[i]) && is_als_file(
                #[trigger] es[j],
            ) implies als_entries(es, k).len() >= 2 by {
            if i > k {
                assert(als_entries(es, k + 1).len() >= 2);
            } else {
                assert(als_entries(es, k + 1).len() >= 1);
            }
        }
    }
}

/// Law: a folder resolves to its one `.als` file. When the listing of a
/// folder was read without error, the folder resolves to the path of its
/// `.als` file when it holds exactly one, is an error naming the folder when
/// it holds none, and another when it holds two or more. A file resolves to
/// itself when it has the `.als` extension, and a missing path is reported
/// as not found.
pub proof fn law_folder_resolves_to_its_single_als(
    path: Seq<char>,
    es: Seq<Result<DirEntryModel, Seq<char>>>,
)
    ensures
        (forall|j: int| 0 <= j < es.len() ==> es[j] is Ok) ==> {
            let r = resolved_target(path, PathKind::Directory, Ok(es));
            &&& (forall|j: int| 0 <= j < es.len() ==> !is_als_file(#[trigger] es[j])) ==> r
                == Err::<Seq<char>, ErrorModel>(ErrorModel::NoAlsInFolder(path))
            &&& forall|i: int|
                0 <= i < es.len() && is_als_file(#[trigger] es[i]) && (forall|j: int|
                    0 <= j < es.len() && j != i ==> !is_als_file(#[trigger] es[j])) ==> r == Ok::<
                    Seq<char>,
                    ErrorModel,
                >(es[i]->Ok_0.path)
            &&& forall|i: int, j: int|
                0 <= i < j < es.len() && is_als_file(#[trigger] es[i]) && is_als_file(
                    #[trigger] es[j],
                ) ==> r == Err::<Seq<char>, ErrorModel>(ErrorModel::MultipleAlsInFolder(path))
        },
        has_als_ext(path) ==> resolved_target(path, PathKind::File, Ok(es)) == Ok::<
            Seq<char>,
            ErrorModel,
        >(path),
        !has_als_ext(path) ==> resolved_target(path, PathKind::File, Ok(es)) == Err::<
            Seq<char>,
            ErrorModel,
        >(ErrorModel::NotAnAlsTarget(path)),
        resolved_target(path, PathKind::Missing, Ok(es)) == Err::<Seq<char>, ErrorModel>(
            ErrorModel::PathNotFound(path),
        ),
{
    lemma_als_entries_count(es, 0);
    if forall|j: int| 0 <= j < es.len() ==> es[j] is Ok {
        lemma_no_entry_error(es, 0);
    }
}

proof fn lemma_no_entry_error(es: Seq<Result<DirEntryModel, Seq<char>>>, k: int)
    requires
        0 <= k <= es.len(),
        forall|j: int| 0 <= j < es.len() ==> es[j] is Ok,
    ensures
        first_entry_error(es, k) is None,
    decreases es.len() - k,
{
    if k < es.len() {
        lemma_no_entry_error(es, k + 1);
    }
}

/// Law: whatever a path resolves to has the `.als` extension; a directory
/// resolves only when its listing holds exactly one `.als` file.
pub proof fn law_resolved_target_is_als(
    path: Seq<char>,
    kind: PathKind,
    listing: Result<Seq<Result<DirEntryModel, Seq<char>>>, Seq<char>>,
)
    ensures
        resolved_target(path, kind, listing) matches Ok(p) ==> has_als_ext(p),
        kind == PathKind::Directory && resolved_target(path, kind, listing) is Ok ==> (listing
            matches Ok(es) && als_entries(es, 0).len() == 1),
{
    if let Ok(es) = listing {
        lemma_als_entries(es, 0);
    }
}

/// What `flate2::read::GzDecoder` followed by `Read::read_to_string` makes of
/// `bytes`: the decoded text, or the error message.
pub uninterp spec fn gunzip_text(bytes: Seq<u8>) -> Result<Seq<char>, Seq<char>>;

/// Decompresses gzip `bytes` into UTF-8 text (`flate2::read::GzDecoder`,
/// `Read::read_to_string`). The contract claims only that the result is the
/// named value for `bytes`.
#[verifier::external_body]
fn gunzip_to_string(bytes: &[u8]) -> (r: Result<String, String>)
    ensures
        match r {
            Ok(s) => gunzip_text(bytes@) == Ok::<Seq<char>, Seq<char>>(s@),
            Err(m) => gunzip_text(bytes@) == Err::<Seq<char>, Seq<char>>(m@),
        },
{
    let mut text = String::new();
    std::io::Read::read_to_string(&mut flate2::read::GzDecoder::new(bytes), &mut text)
        .map(|_| text)
        .map_err(|e| e.to_string())
}

/// The raw XML of an `.als` file from its bytes, read from `path`.
pub open spec fn decoded_als(path: Seq<char>, bytes: Seq<u8>) -> Result<Seq<char>, ErrorModel> {
    match gunzip_text(bytes) {
        Ok(s) => Ok(s),
        Err(m) => Err(ErrorModel::Gunzip { path, message: m }),
    }
}

/// Gunzip the bytes of the `.als` file at `path` into its raw XML string.
pub fn decode_als(path: &str, bytes: &[u8]) -> (r: Result<String, Error>)
    ensures
        text_result_view(r) == decoded_als(path@, bytes@),
{
    match gunzip_to_string(bytes) {
        Ok(s) => Ok(s),
        Err(m) => Err(Error::Gunzip { path: path.to_owned(), message: m }),
    }
}

} // verus!
