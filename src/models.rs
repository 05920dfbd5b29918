//! The records the library hands to its callers and takes from them.
use vstd::prelude::*;

verus! {

/// Current version of the configuration format.
pub const CONFIG_VERSION: u32 = 2;

/// Most files that safe mode lets through.
pub const SAFE_MODE_MAX_FILES: usize = 30;

/// Most bytes, over all selected files, that safe mode lets through.
pub const SAFE_MODE_MAX_LENGTH: usize = 100_000;

/// The settings record, in either storage scope.
#[derive(Clone)]
pub struct Config {
    pub version: u32,
    pub use_git_ignore: bool,
    pub include_file_types: String,
    pub exclude_file_types: Vec<String>,
    pub output_file: String,
    pub save_output_file: bool,
    pub output_file_locally: bool,
    pub copy_to_clipboard: bool,
    pub safe_mode: bool,
    pub store_files_chosen: bool,
    pub line_numbers: bool,
    pub show_ignored_in_tree: bool,
    pub show_default_ignored_in_tree: bool,
    pub previous_files: Vec<String>,
    pub last_directory: Option<String>,
}

/// What an entry of the selectable tree holds.
pub struct ItemView {
    pub name: Seq<char>,
    pub path: Seq<char>,
    pub is_dir: bool,
    pub is_selected: bool,
    pub is_excluded_by_config: bool,
    pub children: Seq<ItemView>,
}

/// A node of the selectable tree shown to the user.
pub struct DirectoryItem {
    pub name: String,
    pub path: String,
    pub is_dir: bool,
    pub is_selected: bool,
    pub is_excluded_by_config: bool,
    pub children: Vec<DirectoryItem>,
}

/// What the node `d` holds, all the way down.
pub open spec fn item_view(d: DirectoryItem) -> ItemView
    decreases d, 1int, 0int,
{
    ItemView {
        name: d.name@,
        path: d.path@,
        is_dir: d.is_dir,
        is_selected: d.is_selected,
        is_excluded_by_config: d.is_excluded_by_config,
        children: item_views(d, d.children@.len() as int),
    }
}

/// The views of the first `n` children of `d`.
pub open spec fn item_views(d: DirectoryItem, n: int) -> Seq<ItemView>
    decreases d, 0int, n,
{
    if n <= 0 || n > d.children@.len() {
        Seq::<ItemView>::empty()
    } else {
        item_views(d, n - 1).push(item_view(d.children@[n - 1]))
    }
}

pub open spec fn views_of_items(s: Seq<DirectoryItem>) -> Seq<ItemView> {
    s.map_values(|x: DirectoryItem| item_view(x))
}

proof fn lemma_item_views_prefix(d: DirectoryItem, n: int)
    requires
        0 <= n <= d.children@.len(),
    ensures
        item_views(d, n) == views_of_items(d.children@.subrange(0, n)),
    decreases n,
{
    if n > 0 {
        lemma_item_views_prefix(d, n - 1);
        assert(views_of_items(d.children@.subrange(0, n)) =~= views_of_items(
            d.children@.subrange(0, n - 1),
        ).push(item_view(d.children@[n - 1])));
    } else {
        assert(views_of_items(d.children@.subrange(0, n)) =~= Seq::<ItemView>::empty());
    }
}

pub proof fn lemma_item_view_children(d: DirectoryItem)
    ensures
        item_view(d).children == views_of_items(d.children@),
{
    lemma_item_views_prefix(d, d.children@.len() as int);
    assert(d.children@.subrange(0, d.children@.len() as int) =~= d.children@);
}

/// A directory read from disk: its name, its kind, whether the ignore
/// patterns match it, and for a directory the entries it holds.
pub struct FsEntry {
    pub name: String,
    pub is_dir: bool,
    pub is_file: bool,
    pub ignored_by_pattern: bool,
    pub children: Vec<FsEntry>,
}

/// Per-file share of the token estimate.
pub struct FileDetail {
    pub path: String,
    pub tokens: usize,
}

/// The text tree and the files it lists, in the order it lists them.
pub struct TreeStructure {
    pub tree_text: String,
    pub file_list: Vec<String>,
}

/// The assembled output.
pub struct OutputContent {
    pub tree_structure: String,
    pub combined_content: String,
    pub file_details: Vec<FileDetail>,
    pub token_estimate: usize,
    pub saved_path: Option<String>,
}

/// The envelope in which a command hands back its data or its error.
pub struct CommandResult<T> {
    pub success: bool,
    pub data: Option<T>,
    pub error: Option<String>,
}

impl<T> CommandResult<T> {
    pub fn success(data: T) -> (r: Self)
        ensures
            r.success,
            r.data == Some(data),
            r.error is None,
    {
        CommandResult { success: true, data: Some(data), error: None }
    }

    pub fn error(error: String) -> (r: Self)
        ensures
            !r.success,
            r.data is None,
            r.error == Some(error),
    {
        CommandResult { success: false, data: None, error: Some(error) }
    }
}

/// The ways an operation fails; each carries a message for the user.
pub enum AppError {
    Io(String),
    SafeMode(String),
    Config(String),
    PathNotFound(String),
    Json(String),
}

impl AppError {
    pub open spec fn spec_message(&self) -> Seq<char> {
        match self {
            AppError::Io(m) => "IO error: "@ + m@,
            AppError::SafeMode(m) => "Safe mode error: "@ + m@,
            AppError::Config(m) => "Config error: "@ + m@,
            AppError::PathNotFound(m) => "Path not found: "@ + m@,
            AppError::Json(m) => "JSON error: "@ + m@,
        }
    }

    /// The message shown to the user: what failed, then the detail.
    pub fn message(&self) -> (r: String)
        ensures
            r@ == self.spec_message(),
    {
        match self {
            AppError::Io(m) => String::from_str("IO error: ").concat(m.as_str()),
            AppError::SafeMode(m) => String::from_str("Safe mode error: ").concat(m.as_str()),
            AppError::Config(m) => String::from_str("Config error: ").concat(m.as_str()),
            AppError::PathNotFound(m) => String::from_str("Path not found: ").concat(m.as_str()),
            AppError::Json(m) => String::from_str("JSON error: ").concat(m.as_str()),
        }
    }
}

} // verus!
