//! Enumeration of a directory tree into relative path keys.
//!
//! The walk is driven from outside: the caller lists the directory that
//! [`FileList::next_dir`] asks for and hands the listing to [`FileList::visit`].
use vstd::prelude::*;
use vstd::string::*;
use crate::FileError;

verus! {

/// What a directory entry is, without following symbolic links.
#[derive(Debug, Clone, Copy, PartialEq, Eq, Structural)]
pub enum EntryKind {
    File,
    Dir,
    Other,
}

/// One entry of a directory listing.
pub struct DirEntry {
    pub name: String,
    pub kind: EntryKind,
}

/// What the root handed to an enumeration is.
pub enum Root {
    Missing,
    /// A regular file, with its own file name.
    File(String),
    Dir,
    Other,
}

/// The views of a sequence of strings.
pub open spec fn views(v: Seq<String>) -> Seq<Seq<char>> {
    v.map_values(|s: String| s@)
}

/// `name` under the relative directory `dir`; the empty `dir` is the root.
pub open spec fn join_spec(dir: Seq<char>, name: Seq<char>) -> Seq<char> {
    if dir.len() == 0 {
        name
    } else {
        dir + seq!['/'] + name
    }
}

/// The paths of the regular files of a listing of `dir`, in listing order.
pub open spec fn files_of(dir: Seq<char>, entries: Seq<DirEntry>) -> Seq<Seq<char>>
    decreases entries.len(),
{
    if entries.len() == 0 {
        Seq::empty()
    } else {
        let e = entries.last();
        let rest = files_of(dir, entries.drop_last());
        if e.kind == EntryKind::File {
            rest.push(join_spec(dir, e.name@))
        } else {
            rest
        }
    }
}

/// The paths of the subdirectories of a listing of `dir`, in listing order.
pub open spec fn dirs_of(dir: Seq<char>, entries: Seq<DirEntry>) -> Seq<Seq<char>>
    decreases entries.len(),
{
    if entries.len() == 0 {
        Seq::empty()
    } else {
        let e = entries.last();
        let rest = dirs_of(dir, entries.drop_last());
        if e.kind == EntryKind::Dir {
            rest.push(join_spec(dir, e.name@))
        } else {
            rest
        }
    }
}

/// Joins `name` under `dir` with a `/`, or returns `name` where `dir` is empty.
pub fn join_key(dir: &str, name: &str) -> (r: String)
    ensures
        r@ == join_spec(dir@, name@),
{
    if dir.unicode_len() == 0 {
        String::from_str(name)
    } else {
        let mut r = String::from_str(dir);
        r.append("/");
        proof {
            reveal_strlit("/");
        }
        assert("/"@ =~= seq!['/']);
        r.append(name);
        r
    }
}

/// Records one listing of the relative directory `dir`: regular files are
/// appended to `files` and subdirectories to `dirs`, as paths relative to the
/// root; other entries are skipped.
pub fn get_file_list_from_dir(
    dir: &String,
    entries: &Vec<DirEntry>,
    files: &mut Vec<String>,
    dirs: &mut Vec<String>,
)
    ensures
        views(final(files)@) == views(old(files)@) + files_of(dir@, entries@),
        views(final(dirs)@) == views(old(dirs)@) + dirs_of(dir@, entries@),
{
    let mut i: usize = 0;
    while i < entries.len()
        invariant
            i <= entries@.len(),
            views(files@) == views(old(files)@) + files_of(dir@, entries@.subrange(0, i as int)),
            views(dirs@) == views(old(dirs)@) + dirs_of(dir@, entries@.subrange(0, i as int)),
        decreases entries@.len() - i,
    {
        let ghost pre = entries@.subrange(0, i as int);
        let ghost next = entries@.subrange(0, i + 1);
        assert(next.drop_last() == pre);
        assert(next.last() == entries@[i as int]);
        let e = &entries[i];
        match e.kind {
            EntryKind::File => {
                let p = join_key(dir.as_str(), e.name.as_str());
                let ghost v0 = files@;
                files.push(p);
                assert(views(files@) =~= views(v0).push(p@));
                assert(files_of(dir@, next) == files_of(dir@, pre).push(p@));
                assert(views(files@) =~= views(old(files)@) + files_of(dir@, next));
                assert(views(dirs@) =~= views(old(dirs)@) + dirs_of(dir@, next));
            },
            EntryKind::Dir => {
                let p = join_key(dir.as_str(), e.name.as_str());
                let ghost v0 = dirs@;
                dirs.push(p);
                assert(views(dirs@) =~= views(v0).push(p@));
                assert(dirs_of(dir@, next) == dirs_of(dir@, pre).push(p@));
                assert(views(files@) =~= views(old(files)@) + files_of(dir@, next));
                assert(views(dirs@) =~= views(old(dirs)@) + dirs_of(dir@, next));
            },
            EntryKind::Other => {
                assert(views(files@) =~= views(old(files)@) + files_of(dir@, next));
                assert(views(dirs@) =~= views(old(dirs)@) + dirs_of(dir@, next));
            },
        }
        i = i + 1;
    }
    assert(entries@.subrange(0, entries@.len() as int) == entries@);
}

/// Every path that a listing contributes names an entry of that listing that
/// is a regular file: joined under the listed directory, it is that file.
pub proof fn lemma_listed_files_are_regular(dir: Seq<char>, entries: Seq<DirEntry>, i: int)
    requires
        0 <= i < files_of(dir, entries).len(),
    ensures
        exists|j: int|
            0 <= j < entries.len() && (#[trigger] entries[j]).kind == EntryKind::File
                && files_of(dir, entries)[i] == join_spec(dir, entries[j].name@),
    decreases entries.len(),
{
    let rest = files_of(dir, entries.drop_last());
    if i < rest.len() {
        lemma_listed_files_are_regular(dir, entries.drop_last(), i);
        let j = choose|j: int|
            0 <= j < entries.drop_last().len() && (#[trigger] entries.drop_last()[j]).kind
                == EntryKind::File && rest[i] == join_spec(dir, entries.drop_last()[j].name@);
        assert(entries[j] == entries.drop_last()[j]);
    } else {
        let j = entries.len() - 1;
        assert(entries[j] == entries.last());
    }
}

/// The state of one enumeration: directories still to list, and the files
/// found so far, relative to the root.
pub struct FileList {
    pub pending: Vec<String>,
    pub files: Vec<String>,
}

/// Starts enumerating `root`. A missing root fails with `NotFound`; a regular
/// file yields its own name alone; a directory is listed from its top, the
/// empty relative path; anything else yields nothing.
pub fn get_file_list(root: Root) -> (r: Result<FileList, FileError>)
    ensures
        root is Missing <==> r == Err::<FileList, FileError>(FileError::NotFound),
        root is File ==> r is Ok && views(r->Ok_0.files@) == seq![root->File_0@]
            && r->Ok_0.pending@.len() == 0,
        root is Dir ==> r is Ok && r->Ok_0.files@.len() == 0
            && views(r->Ok_0.pending@) == seq![Seq::<char>::empty()],
        root is Other ==> r is Ok && r->Ok_0.files@.len() == 0 && r->Ok_0.pending@.len() == 0,
{
    match root {
        Root::Missing => Err(FileError::NotFound),
        Root::File(name) => {
            let mut files = Vec::new();
            files.push(name);
            assert(views(files@) =~= seq![root->File_0@]);
            Ok(FileList { pending: Vec::new(), files })
        },
        Root::Dir => {
            let mut pending = Vec::new();
            pending.push(String::new());
            assert(views(pending@) =~= seq![Seq::<char>::empty()]);
            Ok(FileList { pending, files: Vec::new() })
        },
        Root::Other => Ok(FileList { pending: Vec::new(), files: Vec::new() }),
    }
}

impl FileList {
    /// The next directory to list, relative to the root, taken off the
    /// pending ones; `None` once the enumeration is complete.
    pub fn next_dir(&mut self) -> (r: Option<String>)
        ensures
            old(self).pending@.len() == 0 ==> r is None && final(self).pending@ == old(self).pending@
                && final(self).files@ == old(self).files@,
            old(self).pending@.len() > 0 ==> r == Some(old(self).pending@.last())
                && final(self).pending@ == old(self).pending@.drop_last()
                && final(self).files@ == old(self).files@,
    {
        self.pending.pop()
    }

    /// Records the listing of the relative directory `dir`.
    pub fn visit(&mut self, dir: &String, entries: &Vec<DirEntry>)
        ensures
            views(final(self).files@) == views(old(self).files@) + files_of(dir@, entries@),
            views(final(self).pending@) == views(old(self).pending@) + dirs_of(dir@, entries@),
    {
        get_file_list_from_dir(dir, entries, &mut self.files, &mut self.pending);
    }

    /// The files found, relative to the root, in the order found.
    pub fn into_files(self) -> (r: Vec<String>)
        ensures
            r == self.files,
    {
        self.files
    }
}

} // verus!
