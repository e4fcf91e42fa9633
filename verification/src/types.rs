//! The data model: indexed files, score diagnostics, scoring context and
//! search results.

use vstd::prelude::*;

use crate::path_util::{
    dir_components, directory_of, extension_of, file_name_of, is_normal_segment,
    normal_components, path_dir_components, path_directory, path_file_name, name_stem, stem_of,
};

verus! {

/// One workspace file as the index holds it.
#[derive(Clone, Debug)]
pub struct FileItem {
    /// Absolute path of the file.
    pub path: String,
    /// Path relative to the workspace root; the index's sort key.
    pub relative_path: String,
    /// Base name of the file.
    pub file_name: String,
    /// Extension of the base name, empty when there is none.
    pub extension: String,
    /// Parent directory of the relative path, empty at the root.
    pub directory: String,
    /// Size in bytes.
    pub size: u64,
    /// Modification time in seconds since the epoch, zero if unreadable.
    pub modified: u64,
    /// Frecency of user access, from the external tracker.
    pub access_frecency_score: i64,
    /// Frecency of modification, from the external tracker.
    pub modification_frecency_score: i64,
    /// Sum of the access and modification frecencies.
    pub total_frecency_score: i64,
    /// Git status bits, if the file is in a repository.
    pub git_status: Option<u32>,
    /// Whether this file is the one currently open.
    pub is_current_file: bool,
}

/// The mathematical value of a `FileItem`.
pub ghost struct FileItemView {
    pub path: Seq<char>,
    pub relative_path: Seq<char>,
    pub file_name: Seq<char>,
    pub extension: Seq<char>,
    pub directory: Seq<char>,
    pub size: u64,
    pub modified: u64,
    pub access_frecency_score: i64,
    pub modification_frecency_score: i64,
    pub total_frecency_score: i64,
    pub git_status: Option<u32>,
    pub is_current_file: bool,
}

impl View for FileItem {
    type V = FileItemView;

    open spec fn view(&self) -> FileItemView {
        FileItemView {
            path: self.path@,
            relative_path: self.relative_path@,
            file_name: self.file_name@,
            extension: self.extension@,
            directory: self.directory@,
            size: self.size,
            modified: self.modified,
            access_frecency_score: self.access_frecency_score,
            modification_frecency_score: self.modification_frecency_score,
            total_frecency_score: self.total_frecency_score,
            git_status: self.git_status,
            is_current_file: self.is_current_file,
        }
    }
}

impl DeepView for FileItem {
    type V = FileItemView;

    open spec fn deep_view(&self) -> FileItemView {
        self.view()
    }
}

impl FileItem {
    /// Builds a file item from its plain attributes, deriving the base name
    /// from the path and the directory from the relative path.  Frecency
    /// scores start at zero and are filled in by the index.
    pub fn new(
        path: String,
        relative_path: String,
        size: u64,
        modified: u64,
        git_status: Option<u32>,
    ) -> (r: FileItem)
        ensures
            r@.path == path@,
            r@.relative_path == relative_path@,
            r@.file_name == file_name_of(path@),
            r@.extension == extension_of(file_name_of(path@)),
            r@.directory == directory_of(relative_path@),
            r@.size == size,
            r@.modified == modified,
            r@.access_frecency_score == 0,
            r@.modification_frecency_score == 0,
            r@.total_frecency_score == 0,
            r@.git_status == git_status,
            r@.is_current_file == false,
    {
        let file_name = path_file_name(path.as_str());
        let extension = crate::path_util::name_extension(file_name.as_str());
        let directory = path_directory(relative_path.as_str());
        FileItem {
            path,
            relative_path,
            file_name,
            extension,
            directory,
            size,
            modified,
            access_frecency_score: 0,
            modification_frecency_score: 0,
            total_frecency_score: 0,
            git_status,
            is_current_file: false,
        }
    }

    /// Stores the access and modification frecencies read from the external
    /// tracker, and their sum as the total.
    pub fn update_frecency_scores(&mut self, access: i64, modification: i64)
        requires
            i64::MIN <= access + modification <= i64::MAX,
        ensures
            final(self)@ == (FileItemView {
                access_frecency_score: access,
                modification_frecency_score: modification,
                total_frecency_score: (access + modification) as i64,
                ..old(self)@
            }),
    {
        self.access_frecency_score = access;
        self.modification_frecency_score = modification;
        self.total_frecency_score = access + modification;
    }

    /// A copy of the item, equal to it in every attribute.
    pub fn clone_item(&self) -> (r: FileItem)
        ensures
            r@ == self@,
    {
        FileItem {
            path: self.path.clone(),
            relative_path: self.relative_path.clone(),
            file_name: self.file_name.clone(),
            extension: self.extension.clone(),
            directory: self.directory.clone(),
            size: self.size,
            modified: self.modified,
            access_frecency_score: self.access_frecency_score,
            modification_frecency_score: self.modification_frecency_score,
            total_frecency_score: self.total_frecency_score,
            git_status: self.git_status,
            is_current_file: self.is_current_file,
        }
    }
}

/// How a search hit matched the query.
#[derive(Clone, Copy, Debug, PartialEq, Eq, Structural)]
pub enum MatchType {
    ExactFilename,
    FuzzyFilename,
    FuzzyPath,
    Frecency,
}

/// The symbolic label of a match type.
pub open spec fn match_type_label(t: MatchType) -> Seq<char> {
    match t {
        MatchType::ExactFilename => "exact_filename"@,
        MatchType::FuzzyFilename => "fuzzy_filename"@,
        MatchType::FuzzyPath => "fuzzy_path"@,
        MatchType::Frecency => "frecency"@,
    }
}

impl MatchType {
    /// The symbolic name of the match type.
    pub fn as_str(&self) -> (r: &'static str)
        ensures
            r@ == match_type_label(*self),
    {
        match self {
            MatchType::ExactFilename => "exact_filename",
            MatchType::FuzzyFilename => "fuzzy_filename",
            MatchType::FuzzyPath => "fuzzy_path",
            MatchType::Frecency => "frecency",
        }
    }
}

/// Per-candidate score diagnostics, computed fresh for every query.
#[derive(Clone, Copy, Debug, PartialEq, Eq, Structural)]
pub struct Score {
    pub total: i32,
    pub base_score: i32,
    pub filename_bonus: i32,
    pub special_filename_bonus: i32,
    pub frecency_boost: i32,
    pub distance_penalty: i32,
    /// Kept for wire compatibility; the scorer always emits zero.
    pub relation_bonus: i32,
    pub match_type: MatchType,
}

/// The stem and parent-directory components of the currently open file,
/// precomputed once per query.
#[derive(Clone, Debug)]
pub struct CurrentFileData {
    pub stem: String,
    pub directory_parts: Vec<String>,
}

impl CurrentFileData {
    /// Splits a path into the stem of its file name and the components of
    /// its parent directory; nothing when the path has no file name.
    pub fn from_path(path: &str) -> (r: Option<CurrentFileData>)
        ensures
            r is Some <==> normal_components(path@).len() > 0,
            r is Some ==> r->Some_0.stem@ == stem_of(file_name_of(path@)),
            r is Some ==> r->Some_0.directory_parts.deep_view() == dir_components(path@),
    {
        let name = path_file_name(path);
        if name.as_str().is_empty() {
            proof {
                crate::path_util::lemma_normal_components_normal(path@);
                if normal_components(path@).len() > 0 {
                    assert(is_normal_segment(normal_components(path@).last()));
                }
            }
            return None;
        }
        let stem = name_stem(name.as_str());
        let directory_parts = path_dir_components(path);
        proof {
            assert(normal_components(path@).len() > 0) by {
                if normal_components(path@).len() == 0 {
                    assert(file_name_of(path@).len() == 0);
                }
            }
        }
        Some(CurrentFileData { stem, directory_parts })
    }
}

/// Everything the scorer needs to rank one query.
#[derive(Clone, Debug)]
pub struct ScoringContext {
    /// The query text.
    pub query: String,
    /// Relative path of the currently open file, if any.
    pub current_file: Option<String>,
    /// Typo budget handed to the approximate matcher.
    pub max_typos: u16,
    /// Upper bound on worker threads for the matcher.
    pub max_threads: usize,
    /// Penalty per directory level between a candidate and the current file.
    pub directory_distance_penalty: i32,
}

/// A ranked answer: items and their scores in rank order, with the match
/// count before truncation and the snapshot size.
#[derive(Clone, Debug)]
pub struct SearchResult {
    pub items: Vec<FileItem>,
    pub scores: Vec<Score>,
    pub total_matched: usize,
    pub total_files: usize,
}

impl Default for SearchResult {
    /// The empty result: no items, no scores, nothing matched or held.
    fn default() -> (r: SearchResult)
        ensures
            r.items@.len() == 0,
            r.scores@.len() == 0,
            r.total_matched == 0,
            r.total_files == 0,
    {
        SearchResult { items: Vec::new(), scores: Vec::new(), total_matched: 0, total_files: 0 }
    }
}

/// Progress of a workspace scan.
#[derive(Clone, Copy, Debug, PartialEq, Eq, Structural)]
pub struct ScanProgress {
    pub total_files: usize,
    pub scanned_files: usize,
    pub is_scanning: bool,
}

/// The errors the picker surfaces to its caller.
#[derive(Clone, Debug)]
pub enum Error {
    /// The workspace path does not exist.
    InvalidPath(String),
    /// The frecency tracker's lock could not be acquired.
    AcquireFrecencyLock,
    /// The picker's lock could not be acquired.
    AcquireItemLock,
}

impl Error {
    /// A description of the error.
    pub fn message(&self) -> (r: String)
        ensures
            self is InvalidPath ==> r@ == "invalid path: "@ + self->InvalidPath_0@,
            self is AcquireFrecencyLock ==> r@ == "failed to acquire frecency lock"@,
            self is AcquireItemLock ==> r@ == "failed to acquire file picker lock"@,
    {
        match self {
            Error::InvalidPath(p) => String::from_str("invalid path: ").concat(p.as_str()),
            Error::AcquireFrecencyLock => String::from_str("failed to acquire frecency lock"),
            Error::AcquireItemLock => String::from_str("failed to acquire file picker lock"),
        }
    }
}

} // verus!
