//! A model of the slice of the filesystem that the tool owns: the page
//! files and directories under the data root.
//!
//! The model is the intended state of the disk.  Every mutating operation
//! records the real filesystem action it stands for in an ordered log, and
//! states the new model as the exact effect of that action — a caller that
//! replays the log against a disk that matched the old model brings it to
//! the new one.  Faults during replay are the documented cross-resource
//! risk: the model (like the store rows) says what should exist.

use vstd::prelude::*;

use crate::seq_facts::lemma_filter_elements;
use crate::seq_facts::lemma_filter_preserves_pairwise;
use crate::seq_facts::lemma_filter_push;

verus! {

/// One file: its path and the bytes that belong at it.
pub struct FsFile {
    pub path: String,
    pub bytes: Vec<u8>,
}

/// Spec-level image of a file.
pub struct FileModel {
    pub path: Seq<char>,
    pub bytes: Seq<u8>,
}

impl View for FsFile {
    type V = FileModel;

    open spec fn view(&self) -> FileModel {
        FileModel { path: self.path@, bytes: self.bytes@ }
    }
}

/// One filesystem action, in the order it must be replayed on the real
/// disk.
pub enum FsAction {
    /// Create a directory (and any missing parents).
    CreateDir(String),
    /// Write a whole file, replacing any previous content.
    WriteFile(String, Vec<u8>),
    /// Move one file to a new path.
    RenameFile(String, String),
    /// Remove a directory and everything below it.
    RemoveDirAll(String),
}

/// Spec-level image of an action.
pub enum ActionModel {
    CreateDir(Seq<char>),
    WriteFile(Seq<char>, Seq<u8>),
    RenameFile(Seq<char>, Seq<char>),
    RemoveDirAll(Seq<char>),
}

impl View for FsAction {
    type V = ActionModel;

    open spec fn view(&self) -> ActionModel {
        match self {
            FsAction::CreateDir(d) => ActionModel::CreateDir(d@),
            FsAction::WriteFile(p, b) => ActionModel::WriteFile(p@, b@),
            FsAction::RenameFile(f, t) => ActionModel::RenameFile(f@, t@),
            FsAction::RemoveDirAll(d) => ActionModel::RemoveDirAll(d@),
        }
    }
}

pub open spec fn files_view(v: Seq<FsFile>) -> Seq<FileModel> {
    v.map_values(|f: FsFile| f@)
}

pub open spec fn dirs_view(v: Seq<String>) -> Seq<Seq<char>> {
    v.map_values(|d: String| d@)
}

pub open spec fn log_view(v: Seq<FsAction>) -> Seq<ActionModel> {
    v.map_values(|a: FsAction| a@)
}

/// Spec-level image of the whole model: files, directories, and the
/// actions logged since the model was created.
pub struct FsModel {
    pub files: Seq<FileModel>,
    pub dirs: Seq<Seq<char>>,
    pub log: Seq<ActionModel>,
}

/// `pre` is a prefix of `s`.
pub open spec fn is_prefix(pre: Seq<char>, s: Seq<char>) -> bool {
    pre.len() <= s.len() && s.subrange(0, pre.len() as int) == pre
}

/// The path `p` lies strictly below the directory `dir`.
pub open spec fn under_dir(dir: Seq<char>, p: Seq<char>) -> bool {
    is_prefix(dir + "/"@, p)
}

pub open spec fn has_file(files: Seq<FileModel>, p: Seq<char>) -> bool {
    exists|i: int| 0 <= i < files.len() && (#[trigger] files[i]).path == p
}

pub open spec fn has_dir(dirs: Seq<Seq<char>>, d: Seq<char>) -> bool {
    exists|i: int| 0 <= i < dirs.len() && dirs[i] == d
}

/// The bytes stored at `p` (meaningful when `has_file` holds and paths
/// are unique).
pub open spec fn file_bytes(files: Seq<FileModel>, p: Seq<char>) -> Seq<u8> {
    files[choose|i: int| 0 <= i < files.len() && (#[trigger] files[i]).path == p].bytes
}

/// Well-formedness: one entry per path, one entry per directory.
pub open spec fn fs_wf(m: FsModel) -> bool {
    &&& forall|i: int, j: int|
        0 <= i < j < m.files.len() ==> (#[trigger] m.files[i]).path != (
        #[trigger] m.files[j]).path
    &&& forall|i: int, j: int| 0 <= i < j < m.dirs.len() ==> m.dirs[i] != m.dirs[j]
}

/// The file table after writing `b` at `p`.
pub open spec fn spec_write_file(files: Seq<FileModel>, p: Seq<char>, b: Seq<u8>) -> Seq<
    FileModel,
> {
    if has_file(files, p) {
        files.map_values(
            |f: FileModel|
                if f.path == p {
                    (FileModel { path: p, bytes: b })
                } else {
                    f
                },
        )
    } else {
        files.push((FileModel { path: p, bytes: b }))
    }
}

/// The file table after moving the file at `from` to `to`.
pub open spec fn spec_rename_file(files: Seq<FileModel>, from: Seq<char>, to: Seq<char>) -> Seq<
    FileModel,
> {
    files.map_values(
        |f: FileModel|
            if f.path == from {
                (FileModel { path: to, bytes: f.bytes })
            } else {
                f
            },
    )
}

/// The file table after removing everything below `d`.
pub open spec fn spec_remove_dir_files(files: Seq<FileModel>, d: Seq<char>) -> Seq<FileModel> {
    files.filter(|f: FileModel| !under_dir(d, f.path))
}

/// A directory that survives the recursive removal of `d`.
pub open spec fn dir_survives(d: Seq<char>, x: Seq<char>) -> bool {
    x != d && !under_dir(d, x)
}

/// The directory list after removing `d` and everything below it.
pub open spec fn spec_remove_dir_dirs(dirs: Seq<Seq<char>>, d: Seq<char>) -> Seq<Seq<char>> {
    dirs.filter(|x: Seq<char>| dir_survives(d, x))
}

/// The directory list after creating `d`.
pub open spec fn spec_create_dir(dirs: Seq<Seq<char>>, d: Seq<char>) -> Seq<Seq<char>> {
    if has_dir(dirs, d) {
        dirs
    } else {
        dirs.push(d)
    }
}

/// What one logged action does to the files and directories of a model.
/// Every mutating operation's contract says its final state is exactly
/// the application of the action it logged.
pub open spec fn spec_apply(m: FsModel, a: ActionModel) -> FsModel {
    match a {
        ActionModel::CreateDir(d) => FsModel {
            dirs: spec_create_dir(m.dirs, d),
            ..m
        },
        ActionModel::WriteFile(p, b) => FsModel { files: spec_write_file(m.files, p, b), ..m },
        ActionModel::RenameFile(f, t) => FsModel { files: spec_rename_file(m.files, f, t), ..m },
        ActionModel::RemoveDirAll(d) => FsModel {
            files: spec_remove_dir_files(m.files, d),
            dirs: spec_remove_dir_dirs(m.dirs, d),
            ..m
        },
    }
}

/// Checks `is_prefix` on real strings.
pub fn str_has_prefix(s: &str, pre: &str) -> (b: bool)
    ensures
        b == is_prefix(pre@, s@),
{
    let n = pre.unicode_len();
    let m = s.unicode_len();
    if n > m {
        return false;
    }
    let mut k: usize = 0;
    while k < n
        invariant
            0 <= k <= n,
            n == pre@.len(),
            n <= m == s@.len(),
            forall|t: int| 0 <= t < k ==> s@[t] == pre@[t],
        decreases n - k,
    {
        if s.get_char(k) != pre.get_char(k) {
            proof {
                assert(s@.subrange(0, n as int)[k as int] != pre@[k as int]);
            }
            return false;
        }
        k = k + 1;
    }
    proof {
        assert(s@.subrange(0, n as int) =~= pre@);
    }
    true
}

/// Checks whether the path `p` lies below the directory `d`.
pub fn path_under_dir(p: &String, d: &String) -> (b: bool)
    ensures
        b == under_dir(d@, p@),
{
    let mut pre = d.clone();
    pre.append("/");
    str_has_prefix(p.as_str(), pre.as_str())
}

/// Copies a byte buffer, byte for byte.
pub fn clone_bytes(v: &Vec<u8>) -> (r: Vec<u8>)
    ensures
        r@ == v@,
{
    let mut r: Vec<u8> = Vec::new();
    let mut i: usize = 0;
    while i < v.len()
        invariant
            i <= v.len(),
            r@ == v@.subrange(0, i as int),
        decreases v.len() - i,
    {
        r.push(v[i]);
        proof {
            assert(r@ =~= v@.subrange(0, i + 1));
        }
        i = i + 1;
    }
    proof {
        assert(v@.subrange(0, v@.len() as int) =~= v@);
    }
    r
}

/// The modelled filesystem state, with the replay log of the real
/// actions it stands for.
pub struct FsState {
    pub files: Vec<FsFile>,
    pub dirs: Vec<String>,
    pub log: Vec<FsAction>,
}

impl View for FsState {
    type V = FsModel;

    open spec fn view(&self) -> FsModel {
        FsModel {
            files: files_view(self.files@),
            dirs: dirs_view(self.dirs@),
            log: log_view(self.log@),
        }
    }
}

impl FsState {
    /// An empty model: nothing owned yet, nothing to replay.
    pub fn new() -> (s: FsState)
        ensures
            fs_wf(s@),
            s@.files.len() == 0,
            s@.dirs.len() == 0,
            s@.log.len() == 0,
    {
        let s = FsState { files: Vec::new(), dirs: Vec::new(), log: Vec::new() };
        proof {
            assert(s@.files =~= Seq::<FileModel>::empty());
            assert(s@.dirs =~= Seq::<Seq<char>>::empty());
            assert(s@.log =~= Seq::<ActionModel>::empty());
        }
        s
    }

    /// Whether a directory exists in the model.
    pub fn dir_exists(&self, d: &String) -> (b: bool)
        ensures
            b == has_dir(self@.dirs, d@),
    {
        let mut i: usize = 0;
        while i < self.dirs.len()
            invariant
                i <= self.dirs.len(),
                forall|k: int| 0 <= k < i ==> self@.dirs[k] != d@,
            decreases self.dirs.len() - i,
        {
            if self.dirs[i] == *d {
                proof {
                    assert(self@.dirs[i as int] == d@);
                }
                return true;
            }
            i = i + 1;
        }
        false
    }

    fn find_file(&self, p: &String) -> (r: Option<usize>)
        ensures
            match r {
                Some(k) => k < self@.files.len() && self@.files[k as int].path == p@,
                None => !has_file(self@.files, p@),
            },
    {
        let mut i: usize = 0;
        while i < self.files.len()
            invariant
                i <= self.files.len(),
                forall|k: int| 0 <= k < i ==> (#[trigger] self@.files[k]).path != p@,
            decreases self.files.len() - i,
        {
            if self.files[i].path == *p {
                return Some(i);
            }
            i = i + 1;
        }
        None
    }

    /// The bytes at a path, if the model holds the file — a missing file
    /// is the detectable consistency fault, never a crash.
    pub fn read_file(&self, p: &String) -> (r: Option<&Vec<u8>>)
        requires
            fs_wf(self@),
        ensures
            match r {
                Some(b) => has_file(self@.files, p@) && b@ == file_bytes(self@.files, p@),
                None => !has_file(self@.files, p@),
            },
    {
        match self.find_file(p) {
            Some(k) => {
                let b = &self.files[k].bytes;
                proof {
                    let w = choose|i: int|
                        0 <= i < self@.files.len() && (#[trigger] self@.files[i]).path == p@;
                    assert(w == k as int);
                }
                Some(b)
            },
            None => None,
        }
    }

    /// Records a directory creation.
    pub fn create_dir(&mut self, d: &String)
        requires
            fs_wf(old(self)@),
        ensures
            fs_wf(final(self)@),
            final(self)@.files == old(self)@.files,
            final(self)@.dirs == spec_create_dir(old(self)@.dirs, d@),
            final(self)@.log == old(self)@.log.push(ActionModel::CreateDir(d@)),
            (FsModel { log: old(self)@.log, ..final(self)@ }) == spec_apply(
                old(self)@,
                ActionModel::CreateDir(d@),
            ),
    {
        let present = self.dir_exists(d);
        if !present {
            self.dirs.push(d.clone());
        }
        self.log.push(FsAction::CreateDir(d.clone()));
        proof {
            assert(final(self)@.log =~= old(self)@.log.push(ActionModel::CreateDir(d@)));
            if !has_dir(old(self)@.dirs, d@) {
                assert(final(self)@.dirs =~= old(self)@.dirs.push(d@));
                assert forall|i: int, j: int|
                    0 <= i < j < final(self)@.dirs.len() implies final(self)@.dirs[i] != final(self)@.dirs[j] by {
                    if j == final(self)@.dirs.len() - 1 {
                        if final(self)@.dirs[i] == d@ {
                            assert(has_dir(old(self)@.dirs, d@));
                        }
                    }
                }
            } else {
                assert(final(self)@.dirs =~= old(self)@.dirs);
            }
            assert(final(self)@.files =~= old(self)@.files);
        }
    }

    /// Records a whole-file write; an existing file at the path is
    /// replaced.
    pub fn write_file(&mut self, p: &String, bytes: Vec<u8>)
        requires
            fs_wf(old(self)@),
        ensures
            fs_wf(final(self)@),
            final(self)@.dirs == old(self)@.dirs,
            final(self)@.files == spec_write_file(old(self)@.files, p@, bytes@),
            final(self)@.log == old(self)@.log.push(ActionModel::WriteFile(p@, bytes@)),
            (FsModel { log: old(self)@.log, ..final(self)@ }) == spec_apply(
                old(self)@,
                ActionModel::WriteFile(p@, bytes@),
            ),
    {
        let logged = clone_bytes(&bytes);
        match self.find_file(p) {
            Some(k) => {
                let old_file = self.files.remove(k);
                self.files.insert(k, FsFile { path: p.clone(), bytes });
                proof {
                    let updated = spec_write_file(old(self)@.files, p@, bytes@);
                    assert forall|i: int| 0 <= i < updated.len() implies self@.files[i]
                        == updated[i] by {
                        if i != k {
                            assert(old(self)@.files[i].path != p@);
                        }
                    }
                    assert(self@.files =~~= updated);
                    assert forall|i: int, j: int|
                        0 <= i < j < self@.files.len() implies (
                    #[trigger] self@.files[i]).path != (
                    #[trigger] self@.files[j]).path by {
                        assert(old(self)@.files[i].path != old(self)@.files[j].path);
                        if i != k && j != k {
                            assert(self@.files[i] == old(self)@.files[i]);
                            assert(self@.files[j] == old(self)@.files[j]);
                        }
                    }
                }
            },
            None => {
                self.files.push(FsFile { path: p.clone(), bytes });
                proof {
                    assert(self@.files =~~= old(self)@.files.push(
                        (FileModel { path: p@, bytes: bytes@ }),
                    ));
                    assert forall|i: int, j: int|
                        0 <= i < j < self@.files.len() implies (
                    #[trigger] self@.files[i]).path != (
                    #[trigger] self@.files[j]).path by {
                        if j == self@.files.len() - 1 {
                            if self@.files[i].path == p@ {
                                assert(has_file(old(self)@.files, p@));
                            }
                        } else {
                            assert(self@.files[i] == old(self)@.files[i]);
                            assert(self@.files[j] == old(self)@.files[j]);
                        }
                    }
                }
            },
        }
        self.log.push(FsAction::WriteFile(p.clone(), logged));
        proof {
            assert(final(self)@.log =~= old(self)@.log.push(ActionModel::WriteFile(p@, bytes@)));
            assert(final(self)@.dirs =~= old(self)@.dirs);
        }
    }

    /// Records a file move.  The destination must be free (or be the
    /// source itself, which makes the move a no-op on the table).
    pub fn rename_file(&mut self, from: &String, to: &String)
        requires
            fs_wf(old(self)@),
            has_file(old(self)@.files, from@),
            to@ == from@ || !has_file(old(self)@.files, to@),
        ensures
            fs_wf(final(self)@),
            final(self)@.dirs == old(self)@.dirs,
            final(self)@.files == spec_rename_file(old(self)@.files, from@, to@),
            final(self)@.log == old(self)@.log.push(ActionModel::RenameFile(from@, to@)),
            (FsModel { log: old(self)@.log, ..final(self)@ }) == spec_apply(
                old(self)@,
                ActionModel::RenameFile(from@, to@),
            ),
    {
        let ghost old_model = self@;
        let mut i: usize = 0;
        while i < self.files.len()
            invariant
                i <= self.files.len(),
                self@.dirs == old_model.dirs,
                self@.log == old_model.log,
                self@.files.len() == old_model.files.len(),
                forall|k: int|
                    0 <= k < i ==> final_or(self@.files[k], old_model.files[k], from@, to@),
                forall|k: int| i <= k < self@.files.len() ==> self@.files[k] == old_model.files[k],
            decreases self.files.len() - i,
        {
            if self.files[i].path == *from {
                let old_file = self.files.remove(i);
                self.files.insert(i, FsFile { path: to.clone(), bytes: old_file.bytes });
                proof {
                    assert(self@.files[i as int] == (FileModel {
                        path: to@,
                        bytes: old_model.files[i as int].bytes,
                    }));
                    assert forall|k: int|
                        0 <= k < i + 1 implies final_or(
                        self@.files[k],
                        old_model.files[k],
                        from@,
                        to@,
                    ) by {}
                }
            }
            i = i + 1;
        }
        self.log.push(FsAction::RenameFile(from.clone(), to.clone()));
        proof {
            let renamed = spec_rename_file(old_model.files, from@, to@);
            assert forall|k: int| 0 <= k < renamed.len() implies final(self)@.files[k]
                == renamed[k] by {}
            assert(final(self)@.files =~~= renamed);
            assert(final(self)@.log =~= old_model.log.push(ActionModel::RenameFile(from@, to@)));
            assert forall|a: int, b: int| 0 <= a < b < final(self)@.files.len() implies (
            #[trigger] final(self)@.files[a]).path != (
            #[trigger] final(self)@.files[b]).path by {
                assert(old_model.files[a].path != old_model.files[b].path);
                if to@ != from@ {
                    if old_model.files[a].path == from@ {
                        if old_model.files[b].path == to@ {
                            assert(has_file(old_model.files, to@));
                        }
                    } else if old_model.files[b].path == from@ {
                        if old_model.files[a].path == to@ {
                            assert(has_file(old_model.files, to@));
                        }
                    }
                }
            }
        }
    }

    /// Records the recursive removal of a directory: the directory, every
    /// directory below it, and every file below it leave the model.
    pub fn remove_dir_all(&mut self, d: &String)
        requires
            fs_wf(old(self)@),
        ensures
            fs_wf(final(self)@),
            final(self)@.files == spec_remove_dir_files(old(self)@.files, d@),
            final(self)@.dirs == spec_remove_dir_dirs(old(self)@.dirs, d@),
            final(self)@.log == old(self)@.log.push(ActionModel::RemoveDirAll(d@)),
            (FsModel { log: old(self)@.log, ..final(self)@ }) == spec_apply(
                old(self)@,
                ActionModel::RemoveDirAll(d@),
            ),
    {
        let ghost old_model = self@;
        let ghost file_pred = |f: FileModel| !under_dir(d@, f.path);
        let ghost dir_pred = |x: Seq<char>| x != d@ && !under_dir(d@, x);

        let mut kept_files: Vec<FsFile> = Vec::new();
        let mut i: usize = 0;
        while i < self.files.len()
            invariant
                i <= self.files.len(),
                self@ == old_model,
                files_view(kept_files@) == old_model.files.subrange(0, i as int).filter(file_pred),
            decreases self.files.len() - i,
        {
            let ghost prefix = old_model.files.subrange(0, i as int);
            let f = &self.files[i];
            if !path_under_dir(&f.path, d) {
                let b = clone_bytes(&f.bytes);
                kept_files.push(FsFile { path: f.path.clone(), bytes: b });
            }
            proof {
                assert(old_model.files.subrange(0, i + 1) =~= prefix.push(
                    old_model.files[i as int],
                ));
                lemma_filter_push(prefix, old_model.files[i as int], file_pred);
                assert(files_view(kept_files@) =~~= old_model.files.subrange(0, i + 1).filter(
                    file_pred,
                ));
            }
            i = i + 1;
        }

        let mut kept_dirs: Vec<String> = Vec::new();
        let mut j: usize = 0;
        while j < self.dirs.len()
            invariant
                j <= self.dirs.len(),
                self@ == old_model,
                dirs_view(kept_dirs@) == spec_remove_dir_dirs(
                    old_model.dirs.subrange(0, j as int),
                    d@,
                ),
            decreases self.dirs.len() - j,
        {
            let ghost prefix = old_model.dirs.subrange(0, j as int);
            let x = &self.dirs[j];
            if !(*x == *d || path_under_dir(x, d)) {
                kept_dirs.push(x.clone());
            }
            proof {
                assert(old_model.dirs.subrange(0, j + 1) =~= prefix.push(
                    old_model.dirs[j as int],
                ));
                lemma_remove_dir_dirs_push(prefix, old_model.dirs[j as int], d@);
                assert(dirs_view(kept_dirs@) =~~= spec_remove_dir_dirs(
                    old_model.dirs.subrange(0, j + 1),
                    d@,
                ));
            }
            j = j + 1;
        }

        proof {
            assert(old_model.files.subrange(0, old_model.files.len() as int) =~= old_model.files);
            assert(old_model.dirs.subrange(0, old_model.dirs.len() as int) =~= old_model.dirs);
        }
        self.files = kept_files;
        self.dirs = kept_dirs;
        self.log.push(FsAction::RemoveDirAll(d.clone()));
        proof {
            assert(final(self)@.log =~= old_model.log.push(ActionModel::RemoveDirAll(d@)));
            lemma_filter_preserves_pairwise(
                old_model.files,
                file_pred,
                |x: FileModel, y: FileModel| x.path != y.path,
            );
            lemma_remove_dir_dirs_effect(old_model.dirs, d@);
        }
    }
}

/// Either the entry was left alone, or it was the moved file.
pub open spec fn final_or(f: FileModel, orig: FileModel, from: Seq<char>, to: Seq<char>) -> bool {
    if orig.path == from {
        f == (FileModel { path: to, bytes: orig.bytes })
    } else {
        f == orig
    }
}

} // verus!

verus! {

/// Effect of one write on presence and content, path by path.
pub proof fn lemma_write_file_effect(files: Seq<FileModel>, p: Seq<char>, b: Seq<u8>)
    requires
        forall|i: int, j: int|
            0 <= i < j < files.len() ==> (#[trigger] files[i]).path != (#[trigger] files[j]).path,
    ensures
        has_file(spec_write_file(files, p, b), p),
        file_bytes(spec_write_file(files, p, b), p) == b,
        forall|q: Seq<char>|
            q != p ==> #[trigger] has_file(spec_write_file(files, p, b), q) == has_file(files, q),
        forall|q: Seq<char>|
            q != p && has_file(files, q) ==> #[trigger] file_bytes(spec_write_file(files, p, b), q)
                == file_bytes(files, q),
        forall|i: int, j: int|
            0 <= i < j < spec_write_file(files, p, b).len() ==> (#[trigger] spec_write_file(
                files,
                p,
                b,
            )[i]).path != (#[trigger] spec_write_file(files, p, b)[j]).path,
{
    let out = spec_write_file(files, p, b);
    if has_file(files, p) {
        let k = choose|k: int| 0 <= k < files.len() && (#[trigger] files[k]).path == p;
        assert(out[k].path == p);
        assert(has_file(out, p));
        assert forall|i: int| 0 <= i < out.len() && (#[trigger] out[i]).path == p implies i
            == k by {
            if i != k {
                assert(files[i].path != files[k].path);
                assert(out[i] == files[i]);
            }
        }
        assert(file_bytes(out, p) == b);
        assert forall|q: Seq<char>| q != p implies #[trigger] has_file(out, q) == has_file(
            files,
            q,
        ) by {
            if has_file(files, q) {
                let w = choose|w: int| 0 <= w < files.len() && (#[trigger] files[w]).path == q;
                assert(out[w] == files[w]);
            }
            if has_file(out, q) {
                let w = choose|w: int| 0 <= w < out.len() && (#[trigger] out[w]).path == q;
                assert(files[w].path == q);
            }
        }
        assert forall|q: Seq<char>| q != p && has_file(files, q) implies #[trigger] file_bytes(
            out,
            q,
        ) == file_bytes(files, q) by {
            let w1 = choose|w: int| 0 <= w < files.len() && (#[trigger] files[w]).path == q;
            assert(out[w1] == files[w1]);
            assert(has_file(out, q));
            let w2 = choose|w: int| 0 <= w < out.len() && (#[trigger] out[w]).path == q;
            if w1 != w2 {
                if w2 == k {
                    assert(out[w2].path == p);
                } else {
                    assert(out[w2] == files[w2]);
                    assert(files[w1].path == files[w2].path);
                }
            }
            assert(out[w2] == files[w1]);
        }
        assert forall|i: int, j: int| 0 <= i < j < out.len() implies (#[trigger] out[i]).path != (
        #[trigger] out[j]).path by {
            assert(files[i].path != files[j].path);
            if i != k {
                assert(out[i] == files[i]);
            }
            if j != k {
                assert(out[j] == files[j]);
            }
        }
    } else {
        assert(out == files.push((FileModel { path: p, bytes: b })));
        assert(out[out.len() - 1].path == p);
        assert(has_file(out, p));
        assert forall|i: int| 0 <= i < out.len() && (#[trigger] out[i]).path == p implies i
            == out.len() - 1 by {
            if i < files.len() {
                assert(files[i].path == p);
            }
        }
        assert(file_bytes(out, p) == b);
        assert forall|q: Seq<char>| q != p implies #[trigger] has_file(out, q) == has_file(
            files,
            q,
        ) by {
            if has_file(files, q) {
                let w = choose|w: int| 0 <= w < files.len() && (#[trigger] files[w]).path == q;
                assert(out[w] == files[w]);
            }
            if has_file(out, q) {
                let w = choose|w: int| 0 <= w < out.len() && (#[trigger] out[w]).path == q;
                assert(w < files.len());
                assert(files[w].path == q);
            }
        }
        assert forall|q: Seq<char>| q != p && has_file(files, q) implies #[trigger] file_bytes(
            out,
            q,
        ) == file_bytes(files, q) by {
            let w1 = choose|w: int| 0 <= w < files.len() && (#[trigger] files[w]).path == q;
            assert(out[w1] == files[w1]);
            assert(has_file(out, q));
            let w2 = choose|w: int| 0 <= w < out.len() && (#[trigger] out[w]).path == q;
            if w1 != w2 {
                assert(w2 < files.len());
                assert(out[w2] == files[w2]);
                assert(files[w1].path == files[w2].path);
            }
            assert(out[w2] == files[w1]);
        }
        assert forall|i: int, j: int| 0 <= i < j < out.len() implies (#[trigger] out[i]).path != (
        #[trigger] out[j]).path by {
            if j < files.len() {
                assert(files[i].path != files[j].path);
            } else {
                assert(out[j].path == p);
                assert(files[i].path != p);
            }
        }
    }
}

/// Effect of one move on presence and content, path by path.
pub proof fn lemma_rename_file_effect(files: Seq<FileModel>, from: Seq<char>, to: Seq<char>)
    requires
        forall|i: int, j: int|
            0 <= i < j < files.len() ==> (#[trigger] files[i]).path != (#[trigger] files[j]).path,
        has_file(files, from),
        to == from || !has_file(files, to),
    ensures
        has_file(spec_rename_file(files, from, to), to),
        file_bytes(spec_rename_file(files, from, to), to) == file_bytes(files, from),
        to != from ==> !has_file(spec_rename_file(files, from, to), from),
        forall|q: Seq<char>|
            q != from && q != to ==> #[trigger] has_file(spec_rename_file(files, from, to), q)
                == has_file(files, q),
        forall|q: Seq<char>|
            q != from && q != to && has_file(files, q) ==> #[trigger] file_bytes(
                spec_rename_file(files, from, to),
                q,
            ) == file_bytes(files, q),
        forall|i: int, j: int|
            0 <= i < j < spec_rename_file(files, from, to).len() ==> (#[trigger] spec_rename_file(
                files,
                from,
                to,
            )[i]).path != (#[trigger] spec_rename_file(files, from, to)[j]).path,
        spec_rename_file(files, from, to).len() == files.len(),
    decreases files.len(),
{
    let out = spec_rename_file(files, from, to);
    let k = choose|k: int| 0 <= k < files.len() && (#[trigger] files[k]).path == from;
    assert forall|i: int| 0 <= i < files.len() && i != k implies (#[trigger] files[i]).path
        != from by {
        assert(files[i].path != files[k].path);
    }
    assert(out[k].path == to);
    assert(out[k].bytes == files[k].bytes);
    assert(has_file(out, to));
    assert forall|i: int| 0 <= i < out.len() && (#[trigger] out[i]).path == to implies i == k by {
        if i != k {
            assert(out[i] == files[i]);
            if to == from {
                assert(files[i].path != from);
            } else {
                assert(has_file(files, to));
            }
        }
    }
    assert(file_bytes(out, to) == files[k].bytes);
    assert(file_bytes(files, from) == files[k].bytes);
    if to != from {
        assert forall|i: int| 0 <= i < out.len() implies (#[trigger] out[i]).path != from by {
            if i == k {
                assert(out[i].path == to);
            } else {
                assert(out[i] == files[i]);
            }
        }
    }
    assert forall|q: Seq<char>| q != from && q != to implies #[trigger] has_file(out, q)
        == has_file(files, q) by {
        if has_file(files, q) {
            let w = choose|w: int| 0 <= w < files.len() && (#[trigger] files[w]).path == q;
            assert(w != k);
            assert(out[w] == files[w]);
        }
        if has_file(out, q) {
            let w = choose|w: int| 0 <= w < out.len() && (#[trigger] out[w]).path == q;
            assert(w != k);
            assert(out[w] == files[w]);
        }
    }
    assert forall|q: Seq<char>| q != from && q != to && has_file(files, q) implies
        #[trigger] file_bytes(out, q) == file_bytes(files, q) by {
        let w1 = choose|w: int| 0 <= w < files.len() && (#[trigger] files[w]).path == q;
        assert(w1 != k);
        assert(out[w1] == files[w1]);
        assert(has_file(out, q));
        let w2 = choose|w: int| 0 <= w < out.len() && (#[trigger] out[w]).path == q;
        assert(w2 != k);
        assert(out[w2] == files[w2]);
        if w1 != w2 {
            assert(files[w1].path == files[w2].path);
        }
        assert(out[w2] == files[w1]);
    }
    assert forall|i: int, j: int| 0 <= i < j < out.len() implies (#[trigger] out[i]).path != (
    #[trigger] out[j]).path by {
        assert(files[i].path != files[j].path);
        if i != k {
            assert(out[i] == files[i]);
        }
        if j != k {
            assert(out[j] == files[j]);
        }
        if i == k && out[j].path == to {
            assert(files[j].path == to);
            if to != from {
                assert(has_file(files, to));
            }
        }
        if j == k && out[i].path == to {
            assert(files[i].path == to);
            if to != from {
                assert(has_file(files, to));
            }
        }
    }
}

/// Effect of a recursive directory removal, path by path.
pub proof fn lemma_remove_dir_effect(files: Seq<FileModel>, d: Seq<char>)
    requires
        forall|i: int, j: int|
            0 <= i < j < files.len() ==> (#[trigger] files[i]).path != (#[trigger] files[j]).path,
    ensures
        forall|q: Seq<char>|
            under_dir(d, q) ==> !#[trigger] has_file(spec_remove_dir_files(files, d), q),
        forall|q: Seq<char>|
            !under_dir(d, q) ==> #[trigger] has_file(spec_remove_dir_files(files, d), q)
                == has_file(files, q),
        forall|q: Seq<char>|
            !under_dir(d, q) && has_file(files, q) ==> #[trigger] file_bytes(
                spec_remove_dir_files(files, d),
                q,
            ) == file_bytes(files, q),
        forall|i: int, j: int|
            0 <= i < j < spec_remove_dir_files(files, d).len() ==> (
            #[trigger] spec_remove_dir_files(files, d)[i]).path != (#[trigger] spec_remove_dir_files(
                files,
                d,
            )[j]).path,
{
    let pred = |f: FileModel| !under_dir(d, f.path);
    let out = spec_remove_dir_files(files, d);
    crate::seq_facts::lemma_filter_elements(files, pred);
    crate::seq_facts::lemma_filter_preserves_pairwise(
        files,
        pred,
        |x: FileModel, y: FileModel| x.path != y.path,
    );
    assert forall|q: Seq<char>| under_dir(d, q) implies !#[trigger] has_file(out, q) by {
        if has_file(out, q) {
            let w = choose|w: int| 0 <= w < out.len() && (#[trigger] out[w]).path == q;
            files.lemma_filter_pred(pred, w);
        }
    }
    assert forall|q: Seq<char>| !under_dir(d, q) implies #[trigger] has_file(out, q) == has_file(
        files,
        q,
    ) by {
        if has_file(files, q) {
            let w = choose|w: int| 0 <= w < files.len() && (#[trigger] files[w]).path == q;
            files.lemma_filter_contains(pred, w);
            let v = choose|v: int| 0 <= v < out.len() && out[v] == files[w];
            assert(out[v].path == q);
        }
        if has_file(out, q) {
            let w = choose|w: int| 0 <= w < out.len() && (#[trigger] out[w]).path == q;
            assert(files.contains(out[w]));
            let v = choose|v: int| 0 <= v < files.len() && files[v] == out[w];
            assert(files[v].path == q);
        }
    }
    assert forall|q: Seq<char>| !under_dir(d, q) && has_file(files, q) implies #[trigger] file_bytes(
        out,
        q,
    ) == file_bytes(files, q) by {
        let w1 = choose|w: int| 0 <= w < files.len() && (#[trigger] files[w]).path == q;
        files.lemma_filter_contains(pred, w1);
        let v = choose|v: int| 0 <= v < out.len() && out[v] == files[w1];
        assert(out[v].path == q);
        let w2 = choose|w: int| 0 <= w < out.len() && (#[trigger] out[w]).path == q;
        if w2 != v {
            assert(out[v].path == out[w2].path);
        }
        assert(out[w2] == files[w1]);
    }
}

/// Unfolds the directory removal over one appended entry.
pub proof fn lemma_remove_dir_dirs_push(dirs: Seq<Seq<char>>, x: Seq<char>, d: Seq<char>)
    ensures
        spec_remove_dir_dirs(dirs.push(x), d) == if dir_survives(d, x) {
            spec_remove_dir_dirs(dirs, d).push(x)
        } else {
            spec_remove_dir_dirs(dirs, d)
        },
{
    reveal(Seq::filter);
    assert(dirs.push(x).drop_last() =~= dirs);
    assert(dirs.push(x).last() == x);
}

/// Effect of a directory removal on the directory list.
pub proof fn lemma_remove_dir_dirs_effect(dirs: Seq<Seq<char>>, d: Seq<char>)
    requires
        forall|i: int, j: int| 0 <= i < j < dirs.len() ==> dirs[i] != dirs[j],
    ensures
        !has_dir(spec_remove_dir_dirs(dirs, d), d),
        forall|x: Seq<char>|
            under_dir(d, x) ==> !#[trigger] has_dir(spec_remove_dir_dirs(dirs, d), x),
        forall|x: Seq<char>|
            x != d && !under_dir(d, x) ==> #[trigger] has_dir(spec_remove_dir_dirs(dirs, d), x)
                == has_dir(dirs, x),
        forall|i: int|
            0 <= i < spec_remove_dir_dirs(dirs, d).len() ==> dirs.contains(
                #[trigger] spec_remove_dir_dirs(dirs, d)[i],
            ),
        forall|i: int, j: int|
            0 <= i < j < spec_remove_dir_dirs(dirs, d).len() ==> spec_remove_dir_dirs(dirs, d)[i]
                != spec_remove_dir_dirs(dirs, d)[j],
    decreases dirs.len(),
{
    let out = spec_remove_dir_dirs(dirs, d);
    if dirs.len() == 0 {
        reveal(Seq::filter);
        assert forall|x: Seq<char>| x != d && !under_dir(d, x) implies #[trigger] has_dir(out, x)
            == has_dir(dirs, x) by {}
    } else {
        let dl = dirs.drop_last();
        let last = dirs.last();
        lemma_remove_dir_dirs_effect(dl, d);
        assert(dl.push(last) =~= dirs);
        lemma_remove_dir_dirs_push(dl, last, d);
        let sub = spec_remove_dir_dirs(dl, d);
        assert forall|i: int| 0 <= i < out.len() implies dirs.contains(#[trigger] out[i]) by {
            if dir_survives(d, last) && i == out.len() - 1 {
                assert(dirs[dirs.len() - 1] == out[i]);
            } else {
                assert(dl.contains(sub[i]));
                let w = choose|w: int| 0 <= w < dl.len() && dl[w] == sub[i];
                assert(dirs[w] == out[i]);
            }
        }
        assert forall|x: Seq<char>| x == d || under_dir(d, x) implies !#[trigger] has_dir(
            out,
            x,
        ) by {
            if has_dir(out, x) {
                let w = choose|w: int| 0 <= w < out.len() && out[w] == x;
                if dir_survives(d, last) && w == out.len() - 1 {
                    assert(out[w] == last);
                } else {
                    assert(!has_dir(sub, x));
                    assert(sub[w] == x);
                }
            }
        }
        assert forall|x: Seq<char>| x != d && !under_dir(d, x) implies #[trigger] has_dir(out, x)
            == has_dir(dirs, x) by {
            if has_dir(dirs, x) {
                let w = choose|w: int| 0 <= w < dirs.len() && dirs[w] == x;
                if w == dirs.len() - 1 {
                    assert(dir_survives(d, last));
                    assert(out[out.len() - 1] == x);
                } else {
                    assert(dl[w] == x);
                    assert(has_dir(dl, x));
                    assert(has_dir(sub, x));
                    let v = choose|v: int| 0 <= v < sub.len() && sub[v] == x;
                    assert(out[v] == x);
                }
            }
            if has_dir(out, x) {
                let w = choose|w: int| 0 <= w < out.len() && out[w] == x;
                if dir_survives(d, last) && w == out.len() - 1 {
                    assert(dirs[dirs.len() - 1] == x);
                } else {
                    assert(sub[w] == x);
                    assert(has_dir(sub, x));
                    assert(has_dir(dl, x));
                    let v = choose|v: int| 0 <= v < dl.len() && dl[v] == x;
                    assert(dirs[v] == x);
                }
            }
        }
        assert forall|i: int, j: int| 0 <= i < j < out.len() implies out[i] != out[j] by {
            if dir_survives(d, last) && j == out.len() - 1 {
                assert(out[i] == sub[i]);
                assert(dl.contains(sub[i]));
                let w = choose|w: int| 0 <= w < dl.len() && dl[w] == sub[i];
                assert(dirs[w] != dirs[dirs.len() - 1]);
            } else {
                assert(out[i] == sub[i]);
                assert(out[j] == sub[j]);
            }
        }
    }
}

/// Effect of a directory creation on presence, entry by entry.
pub proof fn lemma_create_dir_effect(dirs: Seq<Seq<char>>, d: Seq<char>)
    ensures
        forall|x: Seq<char>|
            #[trigger] has_dir(spec_create_dir(dirs, d), x) == (x == d || has_dir(dirs, x)),
{
    let out = spec_create_dir(dirs, d);
    assert forall|x: Seq<char>| #[trigger] has_dir(out, x) == (x == d || has_dir(dirs, x)) by {
        if has_dir(dirs, d) {
            if x == d {
                assert(has_dir(out, x));
            }
        } else {
            assert(out[out.len() - 1] == d);
            if x == d {
                assert(has_dir(out, x));
            }
            if x != d {
                if has_dir(dirs, x) {
                    let w = choose|w: int| 0 <= w < dirs.len() && dirs[w] == x;
                    assert(out[w] == x);
                }
                if has_dir(out, x) {
                    let w = choose|w: int| 0 <= w < out.len() && out[w] == x;
                    assert(w < dirs.len());
                    assert(dirs[w] == x);
                }
            }
        }
    }
}

/// A concatenation extends its left operand.
pub proof fn lemma_prefix_of_concat(a: Seq<char>, b: Seq<char>)
    ensures
        is_prefix(a, a + b),
{
    assert((a + b).subrange(0, a.len() as int) =~= a);
}

} // verus!
