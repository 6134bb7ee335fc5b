//! Directory listings as plain values, and the two selections made from
//! them: the definition files of a folder and the model folders of the root.

use crate::text::chars_of;
use vstd::prelude::*;

verus! {

/// One entry of a directory, as the file system reported it.
#[derive(Debug, PartialEq, Eq)]
pub struct DirEntryData {
    /// The entry's full path.
    pub path: String,
    /// The entry's name; `None` where the name is not valid Unicode.
    pub file_name: Option<String>,
    /// Whether the entry is a directory.
    pub is_dir: bool,
}

/// What a `DirEntryData` holds, as mathematical text.
pub ghost struct DirEntryView {
    pub path: Seq<char>,
    pub file_name: Option<Seq<char>>,
    pub is_dir: bool,
}

impl View for DirEntryData {
    type V = DirEntryView;

    open spec fn view(&self) -> DirEntryView {
        DirEntryView {
            path: self.path@,
            file_name: self.file_name.deep_view(),
            is_dir: self.is_dir,
        }
    }
}

impl DeepView for DirEntryData {
    type V = DirEntryView;

    open spec fn deep_view(&self) -> DirEntryView {
        self@
    }
}

/// A definition file: where it lies and what it is called.
#[derive(Debug, PartialEq, Eq)]
pub struct FileData {
    /// The file's full path.
    pub path: String,
    /// The file's name within its folder.
    pub file_name: String,
}

/// What a `FileData` holds, as mathematical text.
pub ghost struct FileDataView {
    pub path: Seq<char>,
    pub file_name: Seq<char>,
}

impl View for FileData {
    type V = FileDataView;

    open spec fn view(&self) -> FileDataView {
        FileDataView { path: self.path@, file_name: self.file_name@ }
    }
}

impl DeepView for FileData {
    type V = FileDataView;

    open spec fn deep_view(&self) -> FileDataView {
        self@
    }
}

/// A model folder: where it lies and what it is called.
#[derive(Debug, PartialEq, Eq)]
pub struct FolderData {
    /// The folder's full path.
    pub path: String,
    /// The folder's name within the root.
    pub folder_name: String,
}

/// What a `FolderData` holds, as mathematical text.
pub ghost struct FolderDataView {
    pub path: Seq<char>,
    pub folder_name: Seq<char>,
}

impl View for FolderData {
    type V = FolderDataView;

    open spec fn view(&self) -> FolderDataView {
        FolderDataView { path: self.path@, folder_name: self.folder_name@ }
    }
}

impl DeepView for FolderData {
    type V = FolderDataView;

    open spec fn deep_view(&self) -> FolderDataView {
        self@
    }
}

/// The extension that definition files carry.
pub open spec fn definition_extension() -> Seq<char> {
    "sii"@
}

/// The position of the last dot of `name`.
pub open spec fn last_dot(name: Seq<char>) -> Option<int>
    decreases name.len(),
{
    if name.len() == 0 {
        None
    } else if name.last() == '.' {
        Some(name.len() - 1)
    } else {
        last_dot(name.drop_last())
    }
}

/// The extension of a file name: the text after its last dot. A name without
/// a dot has none, and neither has a name whose only dot is its first
/// character.
pub open spec fn extension(name: Seq<char>) -> Option<Seq<char>> {
    match last_dot(name) {
        Some(i) => {
            if i > 0 {
                Some(name.subrange(i + 1, name.len() as int))
            } else {
                None
            }
        },
        None => None,
    }
}

/// Whether a file of this name is a definition file.
pub open spec fn is_definition(name: Seq<char>) -> bool {
    extension(name) == Some(definition_extension())
}

/// The definition file that an entry stands for, if it is one: its name is
/// valid Unicode and carries the definition extension.
pub open spec fn as_file(entry: DirEntryView) -> Option<FileDataView> {
    match entry.file_name {
        Some(name) => {
            if is_definition(name) {
                Some(FileDataView { path: entry.path, file_name: name })
            } else {
                None
            }
        },
        None => None,
    }
}

/// The folder that an entry stands for, if it is one: it is a directory and
/// its name is valid Unicode.
pub open spec fn as_folder(entry: DirEntryView) -> Option<FolderDataView> {
    match entry.file_name {
        Some(name) => {
            if entry.is_dir {
                Some(FolderDataView { path: entry.path, folder_name: name })
            } else {
                None
            }
        },
        None => None,
    }
}

/// The definition files among `entries`, in the order of the listing.
pub open spec fn files_among(entries: Seq<DirEntryView>) -> Seq<FileDataView>
    decreases entries.len(),
{
    if entries.len() == 0 {
        Seq::empty()
    } else {
        match as_file(entries.last()) {
            Some(file) => files_among(entries.drop_last()).push(file),
            None => files_among(entries.drop_last()),
        }
    }
}

/// The folders among `entries`, in the order of the listing.
pub open spec fn folders_among(entries: Seq<DirEntryView>) -> Seq<FolderDataView>
    decreases entries.len(),
{
    if entries.len() == 0 {
        Seq::empty()
    } else {
        match as_folder(entries.last()) {
            Some(folder) => folders_among(entries.drop_last()).push(folder),
            None => folders_among(entries.drop_last()),
        }
    }
}

/// The file listing of a directory: its definition files, where the
/// directory could be read and holds at least one.
pub open spec fn file_listing(dir: Option<Seq<DirEntryView>>) -> Option<Seq<FileDataView>> {
    match dir {
        Some(entries) => {
            if files_among(entries).len() > 0 {
                Some(files_among(entries))
            } else {
                None
            }
        },
        None => None,
    }
}

/// The folder listing of a directory: its folders, where the directory could
/// be read and holds at least one.
pub open spec fn folder_listing(dir: Option<Seq<DirEntryView>>) -> Option<Seq<FolderDataView>> {
    match dir {
        Some(entries) => {
            if folders_among(entries).len() > 0 {
                Some(folders_among(entries))
            } else {
                None
            }
        },
        None => None,
    }
}

/// Whether a file of this name is a definition file.
pub fn has_definition_extension(file_name: &String) -> (r: bool)
    ensures
        r == is_definition(file_name@),
{
    let name = chars_of(file_name.as_str());
    let suffix = chars_of("sii");
    let n: usize = name.len();
    let mut i: usize = n;
    assert(name@.take(n as int) =~= name@);
    while i > 0 && name[i - 1] != '.'
        invariant
            n == name.len(),
            i <= n,
            last_dot(name@) == last_dot(name@.take(i as int)),
        decreases i,
    {
        assert(name@.take(i as int).drop_last() =~= name@.take(i - 1));
        i -= 1;
    }
    if i <= 1 {
        return false;
    }
    assert(last_dot(name@) == Some(i - 1));
    if n - i != suffix.len() {
        assert(name@.subrange(i as int, n as int).len() != suffix@.len());
        return false;
    }
    let mut k: usize = 0;
    while k < suffix.len()
        invariant
            n == name.len(),
            1 < i <= n,
            n - i == suffix.len(),
            k <= suffix.len(),
            last_dot(name@) == Some(i - 1),
            suffix@ == definition_extension(),
            name@ == file_name@,
            forall|j: int| 0 <= j < k ==> name@[i + j] == suffix@[j],
        decreases suffix.len() - k,
    {
        if name[i + k] != suffix[k] {
            assert(name@.subrange(i as int, n as int)[k as int] != suffix@[k as int]);
            return false;
        }
        k += 1;
    }
    assert(name@.subrange(i as int, n as int) =~= suffix@);
    true
}

/// Lists the definition files of a directory from the directory's entries;
/// `None` for the entries of a directory that could not be read.
pub fn list_files(entries: &Option<Vec<DirEntryData>>) -> (r: Option<Vec<FileData>>)
    ensures
        r.deep_view() == file_listing(entries.deep_view()),
{
    let entries = match entries {
        Some(entries) => entries,
        None => {
            return None;
        },
    };
    let mut files: Vec<FileData> = Vec::new();
    let mut i: usize = 0;
    assert(entries.deep_view().take(0) =~= Seq::<DirEntryView>::empty());
    assert(files.deep_view() =~= Seq::<FileDataView>::empty());
    while i < entries.len()
        invariant
            i <= entries.len(),
            files.deep_view() == files_among(entries.deep_view().take(i as int)),
        decreases entries.len() - i,
    {
        proof {
            let now = entries.deep_view().take(i + 1);
            assert(now.drop_last() =~= entries.deep_view().take(i as int));
            assert(now.last() == entries@[i as int]@);
        }
        let entry = &entries[i];
        i += 1;
        let file_name = match &entry.file_name {
            Some(name) => name,
            None => {
                continue ;
            },
        };
        if !has_definition_extension(file_name) {
            continue ;
        }
        let ghost before = files.deep_view();
        let file = FileData { path: entry.path.clone(), file_name: file_name.clone() };
        files.push(file);
        assert(files.deep_view() =~= before.push(file@));
    }
    assert(entries.deep_view().take(entries.len() as int) =~= entries.deep_view());
    if files.len() == 0 {
        return None;
    }
    Some(files)
}

/// Lists the folders of a directory from the directory's entries; `None` for
/// the entries of a directory that could not be read.
pub fn list_folders(entries: &Option<Vec<DirEntryData>>) -> (r: Option<Vec<FolderData>>)
    ensures
        r.deep_view() == folder_listing(entries.deep_view()),
{
    let entries = match entries {
        Some(entries) => entries,
        None => {
            return None;
        },
    };
    let mut folders: Vec<FolderData> = Vec::new();
    let mut i: usize = 0;
    assert(entries.deep_view().take(0) =~= Seq::<DirEntryView>::empty());
    assert(folders.deep_view() =~= Seq::<FolderDataView>::empty());
    while i < entries.len()
        invariant
            i <= entries.len(),
            folders.deep_view() == folders_among(entries.deep_view().take(i as int)),
        decreases entries.len() - i,
    {
        proof {
            let now = entries.deep_view().take(i + 1);
            assert(now.drop_last() =~= entries.deep_view().take(i as int));
            assert(now.last() == entries@[i as int]@);
        }
        let entry = &entries[i];
        i += 1;
        if !entry.is_dir {
            continue ;
        }
        let folder_name = match &entry.file_name {
            Some(name) => name,
            None => {
                continue ;
            },
        };
        let ghost before = folders.deep_view();
        let folder = FolderData { path: entry.path.clone(), folder_name: folder_name.clone() };
        folders.push(folder);
        assert(folders.deep_view() =~= before.push(folder@));
    }
    assert(entries.deep_view().take(entries.len() as int) =~= entries.deep_view());
    if folders.len() == 0 {
        return None;
    }
    Some(folders)
}

} // verus!
