//! Connection-organizing folders shown in the Connection Manager grid. A folder is
//! its own entity so an empty folder can exist before any connection is moved in.

use vstd::prelude::*;
use crate::text::str_eq;
use crate::seqs::{keep_where, lemma_keep_step};

verus! {

/// A folder. `parent_id` is reserved for nesting; in the flat model it is `None`.
pub struct Folder {
    pub id: String,
    pub name: String,
    pub parent_id: Option<String>,
    pub created_at: String,
}

/// A folder, as values.
pub struct FolderView {
    pub id: Seq<char>,
    pub name: Seq<char>,
    pub parent_id: Option<Seq<char>>,
    pub created_at: Seq<char>,
}

impl View for Folder {
    type V = FolderView;

    open spec fn view(&self) -> FolderView {
        FolderView {
            id: self.id@,
            name: self.name@,
            parent_id: match self.parent_id {
                Some(p) => Some(p@),
                None => None,
            },
            created_at: self.created_at@,
        }
    }
}

impl Folder {
    /// A field-by-field copy.
    pub fn duplicate(&self) -> (r: Folder)
        ensures
            r@ == self@,
    {
        Folder {
            id: self.id.clone(),
            name: self.name.clone(),
            parent_id: match &self.parent_id {
                Some(p) => Some(p.clone()),
                None => None,
            },
            created_at: self.created_at.clone(),
        }
    }
}

/// The folders after the first one with `id` is given `name`; unchanged if none has it.
pub open spec fn renamed(folders: Seq<FolderView>, id: Seq<char>, name: Seq<char>) -> Seq<FolderView>
    decreases folders.len(),
{
    if folders.len() == 0 {
        folders
    } else if folders[0].id == id {
        seq![FolderView { name: name, ..folders[0] }] + folders.drop_first()
    } else {
        seq![folders[0]] + renamed(folders.drop_first(), id, name)
    }
}

/// Whether a folder does not have the given id.
pub open spec fn other_than(id: Seq<char>) -> spec_fn(FolderView) -> bool {
    |f: FolderView| f.id != id
}

/// The folders, in creation order.
pub struct FolderStorage {
    folders: Vec<Folder>,
}

impl View for FolderStorage {
    type V = Seq<FolderView>;

    closed spec fn view(&self) -> Seq<FolderView> {
        self.folders@.map_values(|f: Folder| f@)
    }
}

impl FolderStorage {
    /// No folders.
    pub fn new() -> (r: FolderStorage)
        ensures
            r@ == Seq::<FolderView>::empty(),
    {
        let r = FolderStorage { folders: Vec::new() };
        assert(r@ =~= Seq::<FolderView>::empty());
        r
    }

    /// The given folders, in order (as read back from disk).
    pub fn from_folders(folders: Vec<Folder>) -> (r: FolderStorage)
        ensures
            r@ == folders@.map_values(|f: Folder| f@),
    {
        FolderStorage { folders }
    }

    /// Every folder, in order.
    pub fn load(&self) -> (r: Vec<Folder>)
        ensures
            r@.map_values(|f: Folder| f@) == self@,
    {
        let mut out: Vec<Folder> = Vec::new();
        let mut i: usize = 0;
        while i < self.folders.len()
            invariant
                i <= self.folders@.len(),
                out@.map_values(|f: Folder| f@) == self@.take(i as int),
            decreases self.folders@.len() - i,
        {
            let ghost before = out@.map_values(|f: Folder| f@);
            out.push(self.folders[i].duplicate());
            assert(out@.map_values(|f: Folder| f@) =~= before.push(self@[i as int]));
            assert(out@.map_values(|f: Folder| f@) =~= self@.take(i as int + 1));
            i = i + 1;
        }
        assert(self@.take(self.folders@.len() as int) =~= self@);
        out
    }

    /// Adds a folder at the end.
    pub fn insert(&mut self, folder: Folder)
        ensures
            final(self)@ == old(self)@.push(folder@),
    {
        let ghost before = self@;
        self.folders.push(folder);
        assert(self@ =~= before.push(folder@));
    }

    /// Renames the first folder with `id`; no folder with that id leaves all as they are.
    pub fn rename(&mut self, id: &str, name: &str)
        ensures
            final(self)@ == renamed(old(self)@, id@, name@),
    {
        let ghost start = self@;
        let mut i: usize = 0;
        let mut found = false;
        assert(start.skip(0) =~= start);
        assert(start.take(0) + renamed(start.skip(0), id@, name@) =~= renamed(start, id@, name@));
        while i < self.folders.len()
            invariant_except_break
                self@ == start,
                i <= self.folders@.len(),
                !found,
                renamed(start, id@, name@) == start.take(i as int) + renamed(start.skip(i as int), id@, name@),
            ensures
                self@ == start,
                i <= self.folders@.len(),
                renamed(start, id@, name@) == start.take(i as int) + renamed(start.skip(i as int), id@, name@),
                found ==> i < self.folders@.len() && start[i as int].id == id@,
                !found ==> i == self.folders@.len(),
            decreases self.folders@.len() - i,
        {
            if str_eq(self.folders[i].id.as_str(), id) {
                found = true;
                break;
            }
            assert(start.skip(i as int)[0] == start[i as int]);
            assert(start.skip(i as int).drop_first() =~= start.skip(i as int + 1));
            assert(start.take(i as int) + (seq![start[i as int]] + renamed(start.skip(i as int + 1), id@, name@))
                =~= start.take(i as int + 1) + renamed(start.skip(i as int + 1), id@, name@));
            i = i + 1;
        }
        if found {
            assert(start.skip(i as int)[0] == start[i as int]);
            assert(start.skip(i as int).drop_first() =~= start.skip(i as int + 1));
            let old_folder = self.folders[i].duplicate();
            let folder = Folder {
                id: old_folder.id,
                name: name.to_owned(),
                parent_id: old_folder.parent_id,
                created_at: old_folder.created_at,
            };
            self.folders.set(i, folder);
            assert(self@ =~= start.take(i as int) + (seq![FolderView { name: name@, ..start[i as int] }] + start.skip(i as int + 1)));
        } else {
            assert(start.skip(i as int) =~= Seq::<FolderView>::empty());
            assert(start.take(i as int) =~= start);
        }
    }

    /// Removes every folder with `id`.
    pub fn delete(&mut self, id: &str)
        ensures
            final(self)@ == keep_where(old(self)@, other_than(id@)),
    {
        let ghost p = other_than(id@);
        let ghost start = self@;
        let mut out: Vec<Folder> = Vec::new();
        let mut i: usize = 0;
        assert(start.skip(0) =~= start);
        assert(out@.map_values(|f: Folder| f@) + keep_where(start, p) =~= keep_where(start, p));
        while i < self.folders.len()
            invariant
                self@ == start,
                p == other_than(id@),
                i <= self.folders@.len(),
                keep_where(start, p) == out@.map_values(|f: Folder| f@) + keep_where(start.skip(i as int), p),
            decreases self.folders@.len() - i,
        {
            proof { lemma_keep_step(start, p, i as int); }
            if !str_eq(self.folders[i].id.as_str(), id) {
                let ghost prev = out@.map_values(|f: Folder| f@);
                out.push(self.folders[i].duplicate());
                assert(out@.map_values(|f: Folder| f@) =~= prev.push(start[i as int]));
                assert(prev + (seq![start[i as int]] + keep_where(start.skip(i as int + 1), p))
                    =~= out@.map_values(|f: Folder| f@) + keep_where(start.skip(i as int + 1), p));
            }
            i = i + 1;
        }
        assert(start.skip(i as int) =~= Seq::<FolderView>::empty());
        assert(out@.map_values(|f: Folder| f@) + Seq::<FolderView>::empty() =~= out@.map_values(|f: Folder| f@));
        self.folders = out;
    }
}

}
