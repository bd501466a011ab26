//! The folder-view state around the store: the listed folders with their
//! tickable entries, and the dispatch that one tick performs. The
//! surrounding application owns the event loop and the disk; it hands the
//! listings and disk answers in as plain values.

use vstd::prelude::*;
use vstd::string::*;
use crate::fsitem::FileSystemItem;
use crate::store::PromptBuilder;

verus! {

/// One listed folder: its path and its immediate entries.
#[derive(Debug, Clone)]
pub struct Folder {
    pub path: String,
    pub items: Vec<FileSystemItem>,
}

/// Whether `after` is `before` with the tick of the first entry matching
/// `p` set to `v`: entries before the first match are untouched, the first
/// match keeps everything but its tick, and with no match nothing changes.
pub open spec fn items_toggled(
    before: Seq<FileSystemItem>,
    after: Seq<FileSystemItem>,
    p: Seq<char>,
    v: bool,
) -> bool {
    if forall|k: int| 0 <= k < before.len() ==> before[k].path@ != p {
        after == before
    } else {
        exists|m: int|
            {
                &&& 0 <= m < before.len()
                &&& before[m].path@ == p
                &&& (forall|k: int| 0 <= k < m ==> before[k].path@ != p)
                &&& after == before.update(
                    m,
                    (FileSystemItem {
                        path: before[m].path,
                        name: before[m].name,
                        is_file: before[m].is_file,
                        selected: v,
                    }),
                )
            }
    }
}

/// The index of the first entry whose path equals `p`, if any.
fn find_item(items: &Vec<FileSystemItem>, p: &String) -> (r: Option<usize>)
    ensures
        r is Some ==> {
            &&& r->Some_0 < items@.len()
            &&& items@[r->Some_0 as int].path@ == p@
            &&& forall|k: int| 0 <= k < r->Some_0 ==> items@[k].path@ != p@
        },
        r is None ==> forall|k: int| 0 <= k < items@.len() ==> items@[k].path@ != p@,
{
    let n = items.len();
    let mut i: usize = 0;
    while i < n
        invariant
            i <= n,
            n == items@.len(),
            forall|k: int| 0 <= k < i ==> items@[k].path@ != p@,
        decreases n - i,
    {
        if items[i].path == *p {
            return Some(i);
        }
        i = i + 1;
    }
    None
}

/// Sets the tick of the first entry of `items` matching `p` to `v`, if any.
fn toggle_in_items(items: &mut Vec<FileSystemItem>, p: &String, v: bool)
    ensures
        items_toggled(old(items)@, final(items)@, p@, v),
{
    let found = find_item(items, p);
    match found {
        Some(m) => {
            let mut item = items.remove(m);
            let ghost before_sel = item;
            item.selected = v;
            items.insert(m, item);
            proof {
                assert(items@ =~= old(items)@.update(
                    m as int,
                    (FileSystemItem {
                        path: before_sel.path,
                        name: before_sel.name,
                        is_file: before_sel.is_file,
                        selected: v,
                    }),
                ));
            }
        },
        None => {},
    }
}

/// The whole session state: the listed folders, the store of files picked
/// for the prompt, and whether the summary panel is shown.
#[derive(Debug, Clone)]
pub struct FileManager {
    pub folders: Vec<Folder>,
    pub prompt_builder: PromptBuilder,
    pub show_prompt_panel: bool,
}

impl FileManager {
    /// A fresh session: no folders listed, an empty store, panel hidden.
    pub fn new() -> (r: FileManager)
        ensures
            r.folders@.len() == 0,
            r.prompt_builder.refs().len() == 0,
            r.prompt_builder.next_order() == 0,
            r.prompt_builder.wf(),
            !r.show_prompt_panel,
    {
        FileManager {
            folders: Vec::new(),
            prompt_builder: PromptBuilder::new(),
            show_prompt_panel: false,
        }
    }

    /// The window title.
    pub fn title(&self) -> (r: String)
        ensures
            r@ == "Hyprland File Manager"@,
    {
        "Hyprland File Manager".to_owned()
    }

    /// Records a picked folder with the entries the caller listed in it.
    pub fn folder_selected(&mut self, path: String, items: Vec<FileSystemItem>)
        ensures
            final(self).folders@.len() == old(self).folders@.len() + 1,
            final(self).folders@.drop_last() == old(self).folders@,
            final(self).folders@.last().path@ == path@,
            final(self).folders@.last().items@ == items@,
            final(self).prompt_builder == old(self).prompt_builder,
            final(self).show_prompt_panel == old(self).show_prompt_panel,
    {
        let ghost before = self.folders@;
        self.folders.push(Folder { path, items });
        proof {
            assert(self.folders@.drop_last() =~= before);
        }
    }

    /// One tick on an entry: marks the first matching entry of every listed
    /// folder, then drives the store the way `apply_toggle` does, with the
    /// caller's disk answers.
    pub fn toggle_item_selected(
        &mut self,
        path: String,
        selected: bool,
        is_file: bool,
        is_dir: bool,
        walk: Result<Vec<String>, String>,
    )
        requires
            old(self).prompt_builder.wf(),
            selected && is_file ==> old(self).prompt_builder.next_order() < usize::MAX,
            selected && !is_file && is_dir && walk is Ok ==> old(
                self,
            ).prompt_builder.next_order() + walk->Ok_0@.len() <= usize::MAX,
        ensures
            final(self).prompt_builder.wf(),
            final(self).folders@.len() == old(self).folders@.len(),
            forall|fi: int|
                0 <= fi < old(self).folders@.len() ==> (#[trigger] final(self).folders@[fi]).path
                    == old(self).folders@[fi].path,
            forall|fi: int|
                0 <= fi < old(self).folders@.len() ==> items_toggled(
                    old(self).folders@[fi].items@,
                    (#[trigger] final(self).folders@[fi]).items@,
                    path@,
                    selected,
                ),
            final(self).show_prompt_panel == old(self).show_prompt_panel,
    {
        let mut source: Vec<Folder> = Vec::new();
        core::mem::swap(&mut source, &mut self.folders);
        let ghost orig = source@;
        let n = source.len();
        let mut i: usize = 0;
        while i < n
            invariant
                i <= n,
                n == orig.len(),
                source@ == orig.skip(i as int),
                self.prompt_builder == old(self).prompt_builder,
                self.show_prompt_panel == old(self).show_prompt_panel,
                self.folders@.len() == i,
                forall|fi: int|
                    0 <= fi < i ==> (#[trigger] self.folders@[fi]).path == orig[fi].path,
                forall|fi: int|
                    0 <= fi < i ==> items_toggled(
                        orig[fi].items@,
                        (#[trigger] self.folders@[fi]).items@,
                        path@,
                        selected,
                    ),
            decreases n - i,
        {
            let mut folder = source.remove(0);
            let ghost gfolder = folder;
            proof {
                assert(gfolder == orig[i as int]);
                assert(source@ =~= orig.skip(i as int + 1));
            }
            toggle_in_items(&mut folder.items, &path, selected);
            self.folders.push(folder);
            i = i + 1;
        }
        self.prompt_builder.apply_toggle(path, selected, is_file, is_dir, walk);
    }

    /// Shows the summary panel when it is hidden, and hides it otherwise.
    pub fn toggle_prompt_panel(&mut self)
        ensures
            final(self).show_prompt_panel == !old(self).show_prompt_panel,
            final(self).folders@ == old(self).folders@,
            final(self).prompt_builder == old(self).prompt_builder,
    {
        self.show_prompt_panel = !self.show_prompt_panel;
    }
}

} // verus!
