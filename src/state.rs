//! The records the engine works on and the state that owns them.

use vstd::prelude::*;

verus! {

/// One file: its path, the base name proposed for it, and the search
/// settings it was computed with (kept for display).
pub struct FileEntry {
    pub original_path: String,
    pub new_name: String,
    pub search_pattern: String,
    pub replace_pattern: String,
    pub case_sensitive: bool,
}

/// What a `FileEntry` holds, as sequences.
pub struct RecordView {
    pub path: Seq<char>,
    pub new_name: Seq<char>,
    pub search: Seq<char>,
    pub replace: Seq<char>,
    pub case_sensitive: bool,
}

impl View for FileEntry {
    type V = RecordView;

    open spec fn view(&self) -> RecordView {
        RecordView {
            path: self.original_path@,
            new_name: self.new_name@,
            search: self.search_pattern@,
            replace: self.replace_pattern@,
            case_sensitive: self.case_sensitive,
        }
    }
}

/// The views of a list of records.
pub open spec fn records(v: Seq<FileEntry>) -> Seq<RecordView> {
    v.map_values(|e: FileEntry| e@)
}

impl FileEntry {
    /// A copy of the record.
    pub fn duplicate(&self) -> (r: FileEntry)
        ensures
            r@ == self@,
    {
        FileEntry {
            original_path: self.original_path.clone(),
            new_name: self.new_name.clone(),
            search_pattern: self.search_pattern.clone(),
            replace_pattern: self.replace_pattern.clone(),
            case_sensitive: self.case_sensitive,
        }
    }
}

/// The whole state: the settings that come from the user, the scanned
/// records, the preview, the status line and the progress of a rename run.
pub struct AppState {
    pub selected_dir: String,
    pub files: Vec<FileEntry>,
    pub preview_files: Vec<FileEntry>,
    pub search_pattern: String,
    pub replace_pattern: String,
    pub exclude_pattern: String,
    pub case_sensitive: bool,
    pub use_regex: bool,
    pub include_subdirectories: bool,
    pub auto_number_on_conflict: bool,
    /// Compare rename targets as on a case-insensitive file system.
    pub case_insensitive_targets: bool,
    pub status_message: String,
    pub conversion_in_progress: bool,
    pub conversion_total: usize,
    pub conversion_done: usize,
}

/// The settings a preview is computed from.
pub struct PreviewInputs {
    pub search: Seq<char>,
    pub replace: Seq<char>,
    pub exclude: Seq<char>,
    pub case_sensitive: bool,
    pub use_regex: bool,
    pub auto_number: bool,
    pub fold_case: bool,
}

impl AppState {
    pub open spec fn inputs(&self) -> PreviewInputs {
        PreviewInputs {
            search: self.search_pattern@,
            replace: self.replace_pattern@,
            exclude: self.exclude_pattern@,
            case_sensitive: self.case_sensitive,
            use_regex: self.use_regex,
            auto_number: self.auto_number_on_conflict,
            fold_case: self.case_insensitive_targets,
        }
    }

    /// Everything but the records, the preview and the status line is the
    /// same in `self` and `other`.
    pub open spec fn same_settings(&self, other: &AppState) -> bool {
        &&& self.selected_dir@ == other.selected_dir@
        &&& self.inputs() == other.inputs()
        &&& self.include_subdirectories == other.include_subdirectories
        &&& self.conversion_in_progress == other.conversion_in_progress
        &&& self.conversion_total == other.conversion_total
        &&& self.conversion_done == other.conversion_done
    }

    /// The state before anything was chosen.
    pub fn new() -> (r: AppState)
        ensures
            r.selected_dir@.len() == 0,
            r.files@.len() == 0,
            r.preview_files@.len() == 0,
            r.search_pattern@.len() == 0,
            r.replace_pattern@.len() == 0,
            r.exclude_pattern@.len() == 0,
            !r.case_sensitive,
            !r.use_regex,
            !r.include_subdirectories,
            !r.auto_number_on_conflict,
            r.case_insensitive_targets,
            r.status_message@ == "準備完了"@,
            !r.conversion_in_progress,
            r.conversion_total == 0,
            r.conversion_done == 0,
    {
        AppState {
            selected_dir: String::new(),
            files: Vec::new(),
            preview_files: Vec::new(),
            search_pattern: String::new(),
            replace_pattern: String::new(),
            exclude_pattern: String::new(),
            case_sensitive: false,
            use_regex: false,
            include_subdirectories: false,
            auto_number_on_conflict: false,
            case_insensitive_targets: true,
            status_message: String::from_str("準備完了"),
            conversion_in_progress: false,
            conversion_total: 0,
            conversion_done: 0,
        }
    }
}

} // verus!
