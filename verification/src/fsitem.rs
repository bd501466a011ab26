//! One entry of a listed folder, as the surrounding folder view shows it.

use vstd::prelude::*;
use crate::paths::after_last_slash;
use crate::paths::file_name_or_root;

verus! {

/// One entry of a listed folder: its path, the name shown for it, whether
/// it is a regular file, and whether it is ticked.
#[derive(Debug, Clone)]
pub struct FileSystemItem {
    pub path: String,
    pub name: String,
    pub is_file: bool,
    pub selected: bool,
}

impl FileSystemItem {
    /// A fresh, unticked entry for `path`. `is_file` is the caller's answer
    /// to whether the path currently names a regular file. The shown name
    /// is the final path component, or `/` when the path has none.
    pub fn new(path: String, is_file: bool) -> (r: FileSystemItem)
        ensures
            r.path@ == path@,
            r.name@ == (if after_last_slash(path@).len() == 0 {
                "/"@
            } else {
                after_last_slash(path@)
            }),
            r.is_file == is_file,
            !r.selected,
    {
        let name = file_name_or_root(path.as_str());
        FileSystemItem { path, name, is_file, selected: false }
    }
}

} // verus!
