//! Tracking of the game files that mods extract, read and write, and the
//! in-memory cache through which several mods chain their modifications of
//! one file before it is written to disk.
use vstd::prelude::*;
use crate::text::{ascii_lower, ascii_lower_char, copy_str, is_ascii_text, replace_char, replace_char_spec, str_equal};

verus! {

/// The name of what `str::to_lowercase` returns for a string: its lowercase
/// equivalent by Unicode's Lowercase property, where one character may become
/// several and a capital sigma depends on its place in a word.
pub uninterp spec fn lowercase(s: Seq<char>) -> Seq<char>;

/// Calls `str::to_lowercase`. Its result is a function of the string alone
/// (Unicode's lowercase mapping, independent of locale). Of an ASCII text it
/// is stated that 'A'..='Z' become 'a'..='z' and every other character stays,
/// as the documentation of `to_ascii_lowercase` and of the Unicode mapping
/// gives it; of other texts nothing more is stated.
#[verifier::external_body]
fn to_lowercase(s: &str) -> (r: String)
    ensures
        r@ == lowercase(s@),
        is_ascii_text(s@) ==> r@ == ascii_lower(s@),
{
    s.to_lowercase()
}

/// A normalized file path: backslashes become '/', then the path is lowercased.
pub open spec fn normalize_spec(p: Seq<char>) -> Seq<char> {
    lowercase(replace_char_spec(p, '\\', '/'))
}

/// The normalized form of an ASCII path: backslashes become '/', and
/// 'A'..='Z' become 'a'..='z'.
pub open spec fn ascii_normalize(p: Seq<char>) -> Seq<char> {
    ascii_lower(replace_char_spec(p, '\\', '/'))
}

/// Two characters are the same up to ASCII case and the path separator.
pub open spec fn same_path_char(a: char, b: char) -> bool {
    ascii_lower_char(if a == '\\' { '/' } else { a }) == ascii_lower_char(
        if b == '\\' { '/' } else { b },
    )
}

proof fn lemma_ascii_lower_char(c: char)
    ensures
        (c as u32) < 128 ==> (ascii_lower_char(c) as u32) < 128,
        ascii_lower_char(ascii_lower_char(c)) == ascii_lower_char(c),
        ascii_lower_char(c) == '\\' <==> c == '\\',
        ascii_lower_char(c) == '/' <==> c == '/',
{
    if 'A' <= c && c <= 'Z' {
        assert(65 <= (c as u32) <= 90);
        let d = ((c as u32) + 32) as char;
        assert(97 <= (d as u32) <= 122);
    }
}

/// Of an ASCII path, the normalized form holds no backslash and no capital
/// letter: it is ASCII and normalizing it again changes nothing. Two ASCII
/// paths that differ only in case and in the separator have the same
/// normalized form, so they name the same tracked file (`normalize_path`
/// gives this form for every ASCII path).
pub proof fn law_ascii_normalize(p: Seq<char>, q: Seq<char>)
    requires
        is_ascii_text(p),
    ensures
        !ascii_normalize(p).contains('\\'),
        is_ascii_text(ascii_normalize(p)),
        ascii_normalize(ascii_normalize(p)) == ascii_normalize(p),
        p.len() == q.len() && (forall|i: int| 0 <= i < p.len() ==> same_path_char(p[i], q[i]))
            ==> ascii_normalize(p) == ascii_normalize(q),
{
    let n = ascii_normalize(p);
    assert forall|i: int| 0 <= i < n.len() implies n[i] != '\\' && (n[i] as u32) < 128 && ascii_lower_char(
        if n[i] == '\\' { '/' } else { n[i] },
    ) == n[i] by {
        let c = if p[i] == '\\' { '/' } else { p[i] };
        lemma_ascii_lower_char(c);
        lemma_ascii_lower_char(p[i]);
    }
    assert(ascii_normalize(n) =~= n);
    if p.len() == q.len() && (forall|i: int| 0 <= i < p.len() ==> same_path_char(p[i], q[i])) {
        assert(ascii_normalize(p) =~= ascii_normalize(q));
    }
}

/// Two paths that differ only in the separator ('\\' or '/') name the same
/// tracked file.
pub proof fn law_separators_are_equivalent(p: Seq<char>, q: Seq<char>)
    requires
        p.len() == q.len(),
        forall|i: int|
            0 <= i < p.len() ==> (p[i] == q[i] || ((p[i] == '\\' || p[i] == '/') && (q[i] == '\\'
                || q[i] == '/'))),
    ensures
        normalize_spec(p) == normalize_spec(q),
{
    assert(replace_char_spec(p, '\\', '/') =~= replace_char_spec(q, '\\', '/'));
}

/// Type of file operation.
#[derive(Debug, Clone, Copy, PartialEq, Eq, Structural)]
pub enum FileOperationType {
    /// The file was extracted from game data.
    Extract,
    /// The file was read by a mod.
    Read,
    /// The file was written by a mod.
    Write,
}

/// A single file operation record.
#[derive(Debug)]
pub struct FileOperation {
    /// Type of operation.
    pub op_type: FileOperationType,
    /// ID of the mod that performed the operation.
    pub mod_id: String,
}

/// Status and history of a file.
#[derive(Debug)]
pub struct FileStatus {
    /// Whether the file currently exists.
    pub exists: bool,
    /// Whether the file has been extracted from game data.
    pub extracted: bool,
    /// Normalized file path.
    pub file_path: String,
    /// Whether this is a game file (true) or a mod file (false).
    pub game_file: Option<bool>,
    /// Whether the file has been modified.
    pub modified: bool,
    /// History of operations on this file.
    pub operations: Vec<FileOperation>,
}

/// In-memory content of a file.
#[derive(Debug)]
pub struct CachedFile {
    /// File content.
    pub content: Vec<u8>,
    /// Whether the content still has to be written to disk.
    pub dirty: bool,
}

/// The mathematical value of a [`FileStatus`].
pub struct StatusView {
    pub exists: bool,
    pub extracted: bool,
    pub file_path: Seq<char>,
    pub game_file: Option<bool>,
    pub modified: bool,
    pub operations: Seq<(FileOperationType, Seq<char>)>,
}

impl View for FileStatus {
    type V = StatusView;

    open spec fn view(&self) -> StatusView {
        StatusView {
            exists: self.exists,
            extracted: self.extracted,
            file_path: self.file_path@,
            game_file: self.game_file,
            modified: self.modified,
            operations: Seq::new(
                self.operations@.len(),
                |i: int| (self.operations@[i].op_type, self.operations@[i].mod_id@),
            ),
        }
    }
}

/// The status of a file that nothing has touched yet.
pub open spec fn fresh_status(key: Seq<char>) -> StatusView {
    StatusView {
        exists: false,
        extracted: false,
        file_path: key,
        game_file: None,
        modified: false,
        operations: Seq::empty(),
    }
}

/// A status after one more operation by mod `m`: every operation marks the file
/// as existing and adds to its history; an extraction marks it extracted and a
/// game file; a write marks it modified.
pub open spec fn recorded(s: StatusView, op: FileOperationType, m: Seq<char>) -> StatusView {
    StatusView {
        exists: true,
        extracted: if op == FileOperationType::Extract {
            true
        } else {
            s.extracted
        },
        file_path: s.file_path,
        game_file: if op == FileOperationType::Extract {
            Some(true)
        } else {
            s.game_file
        },
        modified: if op == FileOperationType::Write {
            true
        } else {
            s.modified
        },
        operations: s.operations.push((op, m)),
    }
}

/// Whether a status records a write by mod `m`.
pub open spec fn written_by(s: StatusView, m: Seq<char>) -> bool {
    exists|i: int|
        0 <= i < s.operations.len() && s.operations[i].0 == FileOperationType::Write
            && s.operations[i].1 == m
}

/// The statuses, in order, that record a write by mod `m`.
pub open spec fn modified_by_spec(files: Seq<StatusView>, m: Seq<char>) -> Seq<StatusView>
    decreases files.len(),
{
    if files.len() == 0 {
        Seq::empty()
    } else {
        modified_by_spec(files.drop_last(), m) + if written_by(files.last(), m) {
            seq![files.last()]
        } else {
            Seq::empty()
        }
    }
}

/// A history records a write by mod `m`.
pub open spec fn has_write_by(s: StatusView, m: Seq<char>) -> bool {
    exists|i: int|
        0 <= i < s.operations.len() && #[trigger] s.operations[i] == (FileOperationType::Write, m)
}

/// The files reported as modified by a mod are exactly those whose history
/// holds a write by that mod, in their order: an extraction or a read by the
/// mod alone never lists a file.
pub proof fn law_modified_by_means_written(files: Seq<StatusView>, m: Seq<char>)
    ensures
        forall|s: StatusView| written_by(s, m) <==> has_write_by(s, m),
        forall|j: int|
            0 <= j < modified_by_spec(files, m).len() ==> has_write_by(
                #[trigger] modified_by_spec(files, m)[j],
                m,
            ) && files.contains(modified_by_spec(files, m)[j]),
        forall|k: int|
            0 <= k < files.len() && has_write_by(#[trigger] files[k], m) ==> modified_by_spec(
                files,
                m,
            ).contains(files[k]),
    decreases files.len(),
{
    assert forall|s: StatusView| written_by(s, m) <==> has_write_by(s, m) by {
        if written_by(s, m) {
            let i = choose|i: int|
                0 <= i < s.operations.len() && s.operations[i].0 == FileOperationType::Write
                    && s.operations[i].1 == m;
            assert(s.operations[i] == (FileOperationType::Write, m));
        }
        if has_write_by(s, m) {
            let i = choose|i: int|
                0 <= i < s.operations.len() && #[trigger] s.operations[i] == (
                    FileOperationType::Write,
                    m,
                );
            assert(s.operations[i].0 == FileOperationType::Write && s.operations[i].1 == m);
        }
    }
    if files.len() > 0 {
        let init = files.drop_last();
        law_modified_by_means_written(init, m);
        let r = modified_by_spec(files, m);
        let ri = modified_by_spec(init, m);
        assert forall|j: int| 0 <= j < r.len() implies has_write_by(#[trigger] r[j], m)
            && files.contains(r[j]) by {
            if j < ri.len() {
                assert(r[j] == ri[j]);
                let k = choose|k: int| 0 <= k < init.len() && init[k] == ri[j];
                assert(files[k] == init[k]);
            } else {
                assert(r[j] == files.last());
                assert(files[files.len() - 1] == files.last());
            }
        }
        assert forall|k: int| 0 <= k < files.len() && has_write_by(#[trigger] files[k], m) implies r.contains(
            files[k],
        ) by {
            if k < init.len() {
                assert(init[k] == files[k]);
                let j = choose|j: int| 0 <= j < ri.len() && ri[j] == init[k];
                assert(r[j] == ri[j]);
            } else {
                assert(files[k] == files.last());
                assert(r[r.len() - 1] == files.last());
            }
        }
    }
}

/// What reading a file through the cache gives.
#[derive(Debug)]
pub enum CacheRead {
    /// The cached content; the read has been recorded.
    Cached(Vec<u8>),
    /// Not cached: the file is to be read from `relative_path` below
    /// `output_path`, and the read recorded once it succeeds.
    OnDisk { output_path: String, relative_path: String },
    /// Not cached, and no output path has been set.
    NoOutputPath,
}

/// Errors of the file manager.
#[derive(Debug, PartialEq, Eq, Structural)]
pub enum FileManagerError {
    /// No output path has been set.
    OutputPathNotSet,
}

/// How a file that a mod asks for is to be made available.
#[derive(Debug, PartialEq, Eq, Structural)]
pub enum ExtractAction {
    /// It has been extracted before and is still in the output directory.
    UseExisting,
    /// Extract it from the CASC storage into the output directory.
    ExtractFromCasc,
    /// Copy it from the game directory into the output directory.
    CopyFromGame,
    /// None of these is possible.
    NotFound,
}

/// Counts over the tracked files.
#[derive(Debug, PartialEq, Eq, Structural)]
pub struct FileSummary {
    pub total: usize,
    pub extracted: usize,
    pub modified: usize,
}

/// Number of statuses with `extracted` set.
pub open spec fn count_extracted(files: Seq<StatusView>) -> nat
    decreases files.len(),
{
    if files.len() == 0 {
        0
    } else {
        count_extracted(files.drop_last()) + if files.last().extracted {
            1nat
        } else {
            0nat
        }
    }
}

/// Number of statuses with `modified` set.
pub open spec fn count_modified(files: Seq<StatusView>) -> nat
    decreases files.len(),
{
    if files.len() == 0 {
        0
    } else {
        count_modified(files.drop_last()) + if files.last().modified {
            1nat
        } else {
            0nat
        }
    }
}

/// File manager that tracks all file operations.
pub struct FileManager {
    files: Vec<FileStatus>,
    output_path: Option<String>,
    game_path: Option<String>,
    file_cache: Vec<(String, CachedFile)>,
}

/// The status under `key` in a sequence of statuses.
pub closed spec fn status_lookup(files: Seq<FileStatus>, key: Seq<char>) -> Option<StatusView> {
    if exists|i: int| 0 <= i < files.len() && files[i].file_path@ == key {
        let i = choose|i: int| 0 <= i < files.len() && files[i].file_path@ == key;
        Some(files[i]@)
    } else {
        None
    }
}

/// The entry under `key` in a cache.
pub closed spec fn cache_lookup(cache: Seq<(String, CachedFile)>, key: Seq<char>) -> Option<
    (Seq<u8>, bool),
> {
    if exists|i: int| 0 <= i < cache.len() && cache[i].0@ == key {
        let i = choose|i: int| 0 <= i < cache.len() && cache[i].0@ == key;
        Some((cache[i].1.content@, cache[i].1.dirty))
    } else {
        None
    }
}

/// Some operation of a history is of kind `op`.
pub open spec fn has_op(ops: Seq<(FileOperationType, Seq<char>)>, op: FileOperationType) -> bool {
    exists|i: int| 0 <= i < ops.len() && ops[i].0 == op
}

/// What holds of every tracked status: it is kept under its own path, the
/// file exists, its history is not empty, it is extracted (and a game file)
/// exactly when an extraction was recorded, and modified exactly when a write was.
pub open spec fn status_consistent(s: StatusView, key: Seq<char>) -> bool {
    &&& s.file_path == key
    &&& s.exists
    &&& s.operations.len() > 0
    &&& s.extracted == has_op(s.operations, FileOperationType::Extract)
    &&& s.game_file == (if s.extracted {
        Some(true)
    } else {
        None::<bool>
    })
    &&& s.modified == has_op(s.operations, FileOperationType::Write)
}

/// Recording an operation on an untouched or consistent status gives a consistent one.
proof fn lemma_recorded_consistent(s: StatusView, key: Seq<char>, op: FileOperationType, m: Seq<char>)
    requires
        s == fresh_status(key) || status_consistent(s, key),
    ensures
        status_consistent(recorded(s, op, m), key),
{
    let ops = s.operations.push((op, m));
    assert(ops[ops.len() - 1] == (op, m));
    assert forall|o: FileOperationType| has_op(ops, o) == (has_op(s.operations, o) || op == o) by {
        if has_op(s.operations, o) {
            let i = choose|i: int| 0 <= i < s.operations.len() && s.operations[i].0 == o;
            assert(ops[i] == s.operations[i]);
        }
        if has_op(ops, o) && op != o {
            let i = choose|i: int| 0 <= i < ops.len() && ops[i].0 == o;
            assert(ops[i] == s.operations[i]);
        }
    }
    if s == fresh_status(key) {
        assert(!has_op(s.operations, FileOperationType::Extract));
        assert(!has_op(s.operations, FileOperationType::Write));
    }
}

/// The views of the statuses.
pub open spec fn status_views(files: Seq<FileStatus>) -> Seq<StatusView> {
    Seq::new(files.len(), |i: int| files[i]@)
}

impl FileManager {
    /// No two statuses and no two cache entries share a path.
    pub closed spec fn wf(&self) -> bool {
        &&& forall|i: int, j: int|
            0 <= i < j < self.files@.len() ==> self.files@[i].file_path@
                != self.files@[j].file_path@
        &&& forall|i: int|
            #![trigger self.files@[i]]
            0 <= i < self.files@.len() ==> status_consistent(
                self.files@[i]@,
                self.files@[i].file_path@,
            )
        &&& forall|i: int, j: int|
            0 <= i < j < self.file_cache@.len() ==> self.file_cache@[i].0@
                != self.file_cache@[j].0@
    }

    /// The tracked statuses, in an order of no meaning.
    pub closed spec fn statuses(&self) -> Seq<StatusView> {
        status_views(self.files@)
    }

    /// The status tracked under a normalized path.
    pub closed spec fn status(&self, key: Seq<char>) -> Option<StatusView> {
        status_lookup(self.files@, key)
    }

    /// The status under a key, or that of an untouched file.
    pub open spec fn base(&self, key: Seq<char>) -> StatusView {
        match self.status(key) {
            Some(s) => s,
            None => fresh_status(key),
        }
    }

    /// The cache entry (content, dirty) under a normalized path.
    pub closed spec fn cache_entry(&self, key: Seq<char>) -> Option<(Seq<u8>, bool)> {
        cache_lookup(self.file_cache@, key)
    }

    /// The output path, if set.
    pub closed spec fn output_path_view(&self) -> Option<Seq<char>> {
        match self.output_path {
            Some(p) => Some(p@),
            None => None,
        }
    }

    /// The game path, if set.
    pub closed spec fn game_path_view(&self) -> Option<Seq<char>> {
        match self.game_path {
            Some(p) => Some(p@),
            None => None,
        }
    }

    /// `new` records one more operation `op` by `m` on the file under `key`
    /// and leaves every other status alone.
    pub open spec fn statuses_after(
        old: &FileManager,
        new: &FileManager,
        key: Seq<char>,
        op: FileOperationType,
        m: Seq<char>,
    ) -> bool {
        &&& new.status(key) == Some(recorded(old.base(key), op, m))
        &&& forall|k: Seq<char>| k != key ==> new.status(k) == old.status(k)
    }

    /// The cache of `new` is that of `old`.
    pub open spec fn same_cache(old: &FileManager, new: &FileManager) -> bool {
        forall|k: Seq<char>| new.cache_entry(k) == old.cache_entry(k)
    }

    /// The statuses of `new` are those of `old`.
    pub open spec fn same_statuses(old: &FileManager, new: &FileManager) -> bool {
        forall|k: Seq<char>| new.status(k) == old.status(k)
    }

    /// The paths of `new` are those of `old`.
    pub open spec fn same_paths(old: &FileManager, new: &FileManager) -> bool {
        &&& new.output_path_view() == old.output_path_view()
        &&& new.game_path_view() == old.game_path_view()
    }

    proof fn lemma_status_view_at(&self, i: int)
        requires
            self.wf(),
            0 <= i < self.statuses().len(),
        ensures
            status_consistent(self.statuses()[i], self.statuses()[i].file_path),
            self.status(self.statuses()[i].file_path) == Some(self.statuses()[i]),
    {
        assert(self.statuses()[i] == self.files@[i]@);
        assert(status_consistent(self.files@[i]@, self.files@[i].file_path@));
        self.lemma_status_at(i);
    }

    proof fn lemma_status_at(&self, i: int)
        requires
            self.wf(),
            0 <= i < self.files@.len(),
        ensures
            self.status(self.files@[i].file_path@) == Some(self.files@[i]@),
    {
        let key = self.files@[i].file_path@;
        let c = choose|c: int| 0 <= c < self.files@.len() && self.files@[c].file_path@ == key;
        if c != i {
            if c < i {
                assert(self.files@[c].file_path@ != self.files@[i].file_path@);
            } else {
                assert(self.files@[i].file_path@ != self.files@[c].file_path@);
            }
        }
    }

    proof fn lemma_cache_at(&self, i: int)
        requires
            self.wf(),
            0 <= i < self.file_cache@.len(),
        ensures
            self.cache_entry(self.file_cache@[i].0@) == Some(
                (self.file_cache@[i].1.content@, self.file_cache@[i].1.dirty),
            ),
    {
        let key = self.file_cache@[i].0@;
        let c = choose|c: int|
            0 <= c < self.file_cache@.len() && self.file_cache@[c].0@ == key;
        if c != i {
            if c < i {
                assert(self.file_cache@[c].0@ != self.file_cache@[i].0@);
            } else {
                assert(self.file_cache@[i].0@ != self.file_cache@[c].0@);
            }
        }
    }

    /// Every tracked status of a well-formed manager is consistent.
    proof fn lemma_statuses_consistent(&self, key: Seq<char>)
        requires
            self.wf(),
        ensures
            self.status(key) matches Some(s) ==> status_consistent(s, key),
    {
        if let Some(s) = self.status(key) {
            let i = choose|i: int| 0 <= i < self.files@.len() && self.files@[i].file_path@ == key;
            assert(status_consistent(self.files@[i]@, self.files@[i].file_path@));
        }
    }

    /// Creates an empty file manager.
    pub fn new() -> (r: FileManager)
        ensures
            r.wf(),
            forall|k: Seq<char>| r.status(k) is None,
            forall|k: Seq<char>| r.cache_entry(k) is None,
            r.output_path_view() is None,
            r.game_path_view() is None,
            r.statuses().len() == 0,
    {
        FileManager {
            files: Vec::new(),
            output_path: None,
            game_path: None,
            file_cache: Vec::new(),
        }
    }

    /// Sets the game path.
    pub fn set_game_path(&mut self, path: String)
        requires
            old(self).wf(),
        ensures
            final(self).wf(),
            final(self).game_path_view() == Some(path@),
            final(self).output_path_view() == old(self).output_path_view(),
            Self::same_statuses(old(self), final(self)),
            Self::same_cache(old(self), final(self)),
    {
        self.game_path = Some(path);
    }

    /// Sets the output path for extracted and written files.
    pub fn set_output_path(&mut self, path: String)
        requires
            old(self).wf(),
        ensures
            final(self).wf(),
            final(self).output_path_view() == Some(path@),
            final(self).game_path_view() == old(self).game_path_view(),
            Self::same_statuses(old(self), final(self)),
            Self::same_cache(old(self), final(self)),
    {
        self.output_path = Some(path);
    }

    /// The output path, if set.
    pub fn output_path(&self) -> (r: Option<&String>)
        ensures
            r matches Some(p) ==> self.output_path_view() == Some(p@),
            r is None ==> self.output_path_view() is None,
    {
        match &self.output_path {
            Some(p) => Some(p),
            None => None,
        }
    }

    /// The game path, if set.
    pub fn game_path(&self) -> (r: Option<&String>)
        ensures
            r matches Some(p) ==> self.game_path_view() == Some(p@),
            r is None ==> self.game_path_view() is None,
    {
        match &self.game_path {
            Some(p) => Some(p),
            None => None,
        }
    }

    /// Normalizes a file path: backslashes become '/', then lowercase.
    pub fn normalize_path(path: &str) -> (r: String)
        ensures
            r@ == normalize_spec(path@),
            is_ascii_text(path@) ==> r@ == ascii_normalize(path@),
    {
        let replaced = replace_char(path, '\\', '/');
        proof {
            if is_ascii_text(path@) {
                assert forall|i: int| 0 <= i < replaced@.len() implies (replaced@[i] as u32) < 128 by {
                    assert(replaced@[i] == '/' || replaced@[i] == path@[i]);
                }
            }
        }
        to_lowercase(replaced.as_str())
    }

    fn find_status(&self, key: &String) -> (r: Option<usize>)
        requires
            self.wf(),
        ensures
            r matches Some(i) ==> i < self.files@.len() && self.files@[i as int].file_path@ == key@
                && self.status(key@) == Some(self.files@[i as int]@),
            r is None ==> self.status(key@) is None,
    {
        let mut i: usize = 0;
        while i < self.files.len()
            invariant
                self.wf(),
                i <= self.files@.len(),
                forall|j: int| 0 <= j < i ==> self.files@[j].file_path@ != key@,
            decreases self.files.len() - i,
        {
            if self.files[i].file_path == *key {
                proof {
                    self.lemma_status_at(i as int);
                }
                return Some(i);
            }
            i = i + 1;
        }
        None
    }

    fn find_cached(&self, key: &String) -> (r: Option<usize>)
        requires
            self.wf(),
        ensures
            r matches Some(i) ==> i < self.file_cache@.len() && self.file_cache@[i as int].0@
                == key@ && self.cache_entry(key@) == Some(
                (
                    self.file_cache@[i as int].1.content@,
                    self.file_cache@[i as int].1.dirty,
                ),
            ),
            r is None ==> self.cache_entry(key@) is None,
    {
        let mut i: usize = 0;
        while i < self.file_cache.len()
            invariant
                self.wf(),
                i <= self.file_cache@.len(),
                forall|j: int| 0 <= j < i ==> self.file_cache@[j].0@ != key@,
            decreases self.file_cache.len() - i,
        {
            if self.file_cache[i].0 == *key {
                proof {
                    self.lemma_cache_at(i as int);
                }
                return Some(i);
            }
            i = i + 1;
        }
        None
    }

    /// Records operation `op` by `mod_id` on the file under the normalized path of `file_path`.
    fn record(&mut self, file_path: &str, op: FileOperationType, mod_id: &str)
        requires
            old(self).wf(),
        ensures
            is_ascii_text(file_path@) ==> normalize_spec(file_path@) == ascii_normalize(file_path@),
            final(self).wf(),
            Self::statuses_after(old(self), final(self), normalize_spec(file_path@), op, mod_id@),
            Self::same_cache(old(self), final(self)),
            Self::same_paths(old(self), final(self)),
    {
        let key = Self::normalize_path(file_path);
        self.record_key(key, op, mod_id);
    }

    /// Records operation `op` by `mod_id` on the file under `key`, a path
    /// that is normalized already.
    fn record_key(&mut self, key: String, op: FileOperationType, mod_id: &str)
        requires
            old(self).wf(),
        ensures
            final(self).wf(),
            Self::statuses_after(old(self), final(self), key@, op, mod_id@),
            Self::same_cache(old(self), final(self)),
            Self::same_paths(old(self), final(self)),
    {
        let ghost old_self = *self;
        let ghost kv = key@;
        let entry = FileOperation { op_type: op, mod_id: copy_str(mod_id) };
        match self.find_status(&key) {
            Some(i) => {
                self.files[i].exists = true;
                if op == FileOperationType::Extract {
                    self.files[i].extracted = true;
                    self.files[i].game_file = Some(true);
                }
                if op == FileOperationType::Write {
                    self.files[i].modified = true;
                }
                self.files[i].operations.push(entry);
                proof {
                    assert(self.files@[i as int]@.operations =~= old_self.files@[i as int]@.operations.push(
                    (op, mod_id@)));
                    let olds = old_self.files@[i as int]@;
                    assert(status_consistent(olds, old_self.files@[i as int].file_path@));
                    lemma_recorded_consistent(olds, kv, op, mod_id@);
                    assert(self.files@[i as int]@ == recorded(olds, op, mod_id@));
                    assert forall|j: int| 0 <= j < self.files@.len() implies status_consistent(
                        #[trigger] self.files@[j]@,
                        self.files@[j].file_path@,
                    ) by {
                        if j != i {
                            assert(self.files@[j] == old_self.files@[j]);
                        }
                    }
                    self.lemma_status_at(i as int);
                    assert forall|k: Seq<char>| k != kv implies self.status(k) == old_self.status(
                        k,
                    ) by {
                        if exists|j: int|
                            0 <= j < old_self.files@.len() && old_self.files@[j].file_path@ == k {
                            let j = choose|j: int|
                                0 <= j < old_self.files@.len() && old_self.files@[j].file_path@
                                    == k;
                            old_self.lemma_status_at(j);
                            self.lemma_status_at(j);
                        } else {
                            assert forall|j: int|
                                0 <= j < self.files@.len() implies self.files@[j].file_path@
                                != k by {
                                assert(self.files@[j].file_path@ == old_self.files@[j].file_path@);
                            }
                        }
                    }
                }
            },
            None => {
                let mut st = FileStatus {
                    exists: true,
                    extracted: false,
                    file_path: key,
                    game_file: None,
                    modified: false,
                    operations: Vec::new(),
                };
                if op == FileOperationType::Extract {
                    st.extracted = true;
                    st.game_file = Some(true);
                }
                if op == FileOperationType::Write {
                    st.modified = true;
                }
                st.operations.push(entry);
                self.files.push(st);
                proof {
                    let n = old_self.files@.len() as int;
                    assert(self.files@[n]@.operations =~= seq![(op, mod_id@)]);
                    assert(self.files@[n]@.operations =~= fresh_status(kv).operations.push(
                        (op, mod_id@),
                    ));
                    lemma_recorded_consistent(fresh_status(kv), kv, op, mod_id@);
                    assert(self.files@[n]@ == recorded(fresh_status(kv), op, mod_id@));
                    assert forall|j: int| 0 <= j < self.files@.len() implies status_consistent(
                        #[trigger] self.files@[j]@,
                        self.files@[j].file_path@,
                    ) by {
                        if j < n {
                            assert(self.files@[j] == old_self.files@[j]);
                        }
                    }
                    assert(self.files@[n]@.operations =~= fresh_status(kv).operations.push(
                        (op, mod_id@),
                    ));
                    self.lemma_status_at(n);
                    assert forall|k: Seq<char>|
                        k != kv implies self.status(k) == old_self.status(
                        k,
                    ) by {
                        if exists|j: int|
                            0 <= j < old_self.files@.len() && old_self.files@[j].file_path@ == k {
                            let j = choose|j: int|
                                0 <= j < old_self.files@.len() && old_self.files@[j].file_path@
                                    == k;
                            old_self.lemma_status_at(j);
                            self.lemma_status_at(j);
                        } else {
                            assert forall|j: int|
                                0 <= j < self.files@.len() implies self.files@[j].file_path@
                                != k by {
                                if j < n {
                                    assert(self.files@[j] == old_self.files@[j]);
                                }
                            }
                        }
                    }
                }
            },
        }
    }

    /// Records that a file was extracted.
    pub fn record_extract(&mut self, file_path: &str, mod_id: &str)
        requires
            old(self).wf(),
        ensures
            is_ascii_text(file_path@) ==> normalize_spec(file_path@) == ascii_normalize(file_path@),
            final(self).wf(),
            Self::statuses_after(
                old(self),
                final(self),
                normalize_spec(file_path@),
                FileOperationType::Extract,
                mod_id@,
            ),
            Self::same_cache(old(self), final(self)),
            Self::same_paths(old(self), final(self)),
    {
        self.record(file_path, FileOperationType::Extract, mod_id);
    }

    /// Records that a file was read.
    pub fn record_read(&mut self, file_path: &str, mod_id: &str)
        requires
            old(self).wf(),
        ensures
            is_ascii_text(file_path@) ==> normalize_spec(file_path@) == ascii_normalize(file_path@),
            final(self).wf(),
            Self::statuses_after(
                old(self),
                final(self),
                normalize_spec(file_path@),
                FileOperationType::Read,
                mod_id@,
            ),
            Self::same_cache(old(self), final(self)),
            Self::same_paths(old(self), final(self)),
    {
        self.record(file_path, FileOperationType::Read, mod_id);
    }

    /// Records that a file was written.
    pub fn record_write(&mut self, file_path: &str, mod_id: &str)
        requires
            old(self).wf(),
        ensures
            is_ascii_text(file_path@) ==> normalize_spec(file_path@) == ascii_normalize(file_path@),
            final(self).wf(),
            Self::statuses_after(
                old(self),
                final(self),
                normalize_spec(file_path@),
                FileOperationType::Write,
                mod_id@,
            ),
            Self::same_cache(old(self), final(self)),
            Self::same_paths(old(self), final(self)),
    {
        self.record(file_path, FileOperationType::Write, mod_id);
    }

    /// Whether a file has been extracted.
    pub fn is_extracted(&self, file_path: &str) -> (b: bool)
        requires
            self.wf(),
        ensures
            is_ascii_text(file_path@) ==> normalize_spec(file_path@) == ascii_normalize(file_path@),
            b == (self.status(normalize_spec(file_path@)) matches Some(s) && s.extracted),
    {
        let key = Self::normalize_path(file_path);
        match self.find_status(&key) {
            Some(i) => self.files[i].extracted,
            None => false,
        }
    }

    /// Whether a file exists.
    pub fn file_exists(&self, file_path: &str) -> (b: bool)
        requires
            self.wf(),
        ensures
            is_ascii_text(file_path@) ==> normalize_spec(file_path@) == ascii_normalize(file_path@),
            b == (self.status(normalize_spec(file_path@)) matches Some(s) && s.exists),
    {
        let key = Self::normalize_path(file_path);
        match self.find_status(&key) {
            Some(i) => self.files[i].exists,
            None => false,
        }
    }

    /// Whether a file has been modified.
    pub fn is_modified(&self, file_path: &str) -> (b: bool)
        requires
            self.wf(),
        ensures
            is_ascii_text(file_path@) ==> normalize_spec(file_path@) == ascii_normalize(file_path@),
            b == (self.status(normalize_spec(file_path@)) matches Some(s) && s.modified),
    {
        let key = Self::normalize_path(file_path);
        match self.find_status(&key) {
            Some(i) => self.files[i].modified,
            None => false,
        }
    }

    /// The status of a file.
    pub fn get_status(&self, file_path: &str) -> (r: Option<&FileStatus>)
        requires
            self.wf(),
        ensures
            is_ascii_text(file_path@) ==> normalize_spec(file_path@) == ascii_normalize(file_path@),
            r matches Some(s) ==> self.status(normalize_spec(file_path@)) == Some(s@),
            r is None ==> self.status(normalize_spec(file_path@)) is None,
    {
        let key = Self::normalize_path(file_path);
        match self.find_status(&key) {
            Some(i) => Some(&self.files[i]),
            None => None,
        }
    }

    /// All tracked statuses.
    pub fn get_all_statuses(&self) -> (r: &Vec<FileStatus>)
        ensures
            status_views(r@) == self.statuses(),
    {
        &self.files
    }

    /// Whether any status records a write by `mod_id`.
    fn wrote(status: &FileStatus, mod_id: &str) -> (b: bool)
        ensures
            b == written_by(status@, mod_id@),
    {
        let mut i: usize = 0;
        while i < status.operations.len()
            invariant
                i <= status.operations@.len(),
                forall|j: int|
                    0 <= j < i ==> !(status@.operations[j].0 == FileOperationType::Write
                        && status@.operations[j].1 == mod_id@),
            decreases status.operations.len() - i,
        {
            if status.operations[i].op_type == FileOperationType::Write && str_equal(
                status.operations[i].mod_id.as_str(),
                mod_id,
            ) {
                assert(status@.operations[i as int].0 == FileOperationType::Write);
                return true;
            }
            i = i + 1;
        }
        false
    }

    /// The files that `mod_id` wrote.
    pub fn get_files_modified_by(&self, mod_id: &str) -> (r: Vec<&FileStatus>)
        ensures
            r@.len() == modified_by_spec(self.statuses(), mod_id@).len(),
            forall|i: int|
                0 <= i < r@.len() ==> r@[i]@ == modified_by_spec(self.statuses(), mod_id@)[i],
    {
        let mut r: Vec<&FileStatus> = Vec::new();
        let mut i: usize = 0;
        let ghost all = self.statuses();
        while i < self.files.len()
            invariant
                i <= self.files@.len(),
                all == status_views(self.files@),
                r@.len() == modified_by_spec(all.take(i as int), mod_id@).len(),
                forall|j: int|
                    0 <= j < r@.len() ==> r@[j]@ == modified_by_spec(all.take(i as int), mod_id@)[j],
            decreases self.files.len() - i,
        {
            assert(all.take(i + 1).drop_last() =~= all.take(i as int));
            if Self::wrote(&self.files[i], mod_id) {
                r.push(&self.files[i]);
            }
            i = i + 1;
        }
        assert(all.take(self.files@.len() as int) =~= all);
        r
    }

    /// Counts of tracked, extracted and modified files.
    pub fn summary(&self) -> (s: FileSummary)
        ensures
            s.total == self.statuses().len(),
            s.extracted == count_extracted(self.statuses()),
            s.modified == count_modified(self.statuses()),
    {
        let ghost all = self.statuses();
        let mut extracted: usize = 0;
        let mut modified: usize = 0;
        let mut i: usize = 0;
        while i < self.files.len()
            invariant
                i <= self.files@.len(),
                all == status_views(self.files@),
                extracted == count_extracted(all.take(i as int)),
                modified == count_modified(all.take(i as int)),
                extracted <= i,
                modified <= i,
            decreases self.files.len() - i,
        {
            assert(all.take(i + 1).drop_last() =~= all.take(i as int));
            if self.files[i].extracted {
                extracted = extracted + 1;
            }
            if self.files[i].modified {
                modified = modified + 1;
            }
            i = i + 1;
        }
        assert(all.take(self.files@.len() as int) =~= all);
        FileSummary { total: self.files.len(), extracted, modified }
    }

    /// Whether a file is in the cache.
    pub fn is_cached(&self, file_path: &str) -> (b: bool)
        requires
            self.wf(),
        ensures
            is_ascii_text(file_path@) ==> normalize_spec(file_path@) == ascii_normalize(file_path@),
            b == self.cache_entry(normalize_spec(file_path@)) is Some,
    {
        let key = Self::normalize_path(file_path);
        self.find_cached(&key).is_some()
    }
}


impl FileManager {
    /// The content cached for a path, if any.
    pub open spec fn cached_content(fm: &FileManager, p: Seq<char>) -> Option<Seq<u8>> {
        match fm.cache_entry(normalize_spec(p)) {
            Some(e) => Some(e.0),
            None => None,
        }
    }

    /// What `write_file_to_cache(p, c, m)` makes of `old`: the cache holds `c`
    /// (to be written) under the normalized path and nothing else changes in
    /// it; the write is recorded under the normalized form of that path.
    pub open spec fn cache_write_post(
        old: &FileManager,
        new: &FileManager,
        p: Seq<char>,
        c: Seq<u8>,
        m: Seq<char>,
    ) -> bool {
        &&& new.wf()
        &&& new.cache_entry(normalize_spec(p)) == Some((c, true))
        &&& forall|k: Seq<char>|
            k != normalize_spec(p) ==> new.cache_entry(k) == old.cache_entry(k)
        &&& Self::statuses_after(
            old,
            new,
            normalize_spec(p),
            FileOperationType::Write,
            m,
        )
        &&& Self::same_paths(old, new)
    }

    /// Writes content to the cache (not to disk yet), so that later mods read
    /// it and can modify it further, and records the write.
    pub fn write_file_to_cache(&mut self, file_path: &str, content: Vec<u8>, mod_id: &str)
        requires
            old(self).wf(),
        ensures
            is_ascii_text(file_path@) ==> normalize_spec(file_path@) == ascii_normalize(file_path@),
            Self::cache_write_post(old(self), final(self), file_path@, content@, mod_id@),
    {
        let key = Self::normalize_path(file_path);
        let ghost old_self = *self;
        let ghost cv = content@;
        match self.find_cached(&key) {
            Some(i) => {
                self.file_cache[i].1 = CachedFile { content, dirty: true };
                proof {
                    self.lemma_cache_at(i as int);
                    assert forall|k: Seq<char>| k != key@ implies self.cache_entry(k)
                        == old_self.cache_entry(k) by {
                        if exists|j: int|
                            0 <= j < old_self.file_cache@.len() && old_self.file_cache@[j].0@
                                == k {
                            let j = choose|j: int|
                                0 <= j < old_self.file_cache@.len()
                                    && old_self.file_cache@[j].0@ == k;
                            old_self.lemma_cache_at(j);
                            self.lemma_cache_at(j);
                        } else {
                            assert forall|j: int|
                                0 <= j < self.file_cache@.len() implies self.file_cache@[j].0@
                                != k by {
                                assert(self.file_cache@[j].0@ == old_self.file_cache@[j].0@);
                            }
                        }
                    }
                }
            },
            None => {
                let stored_key = key.clone();
                self.file_cache.push((stored_key, CachedFile { content, dirty: true }));
                proof {
                    let n = old_self.file_cache@.len() as int;
                    self.lemma_cache_at(n);
                    assert forall|k: Seq<char>| k != key@ implies self.cache_entry(k)
                        == old_self.cache_entry(k) by {
                        if exists|j: int|
                            0 <= j < old_self.file_cache@.len() && old_self.file_cache@[j].0@
                                == k {
                            let j = choose|j: int|
                                0 <= j < old_self.file_cache@.len()
                                    && old_self.file_cache@[j].0@ == k;
                            old_self.lemma_cache_at(j);
                            self.lemma_cache_at(j);
                        } else {
                            assert forall|j: int|
                                0 <= j < self.file_cache@.len() implies self.file_cache@[j].0@
                                != k by {
                                if j < n {
                                    assert(self.file_cache@[j] == old_self.file_cache@[j]);
                                }
                            }
                        }
                    }
                }
            },
        }
        let ghost mid = *self;
        self.record_key(key, FileOperationType::Write, mod_id);
        proof {
            assert(Self::same_statuses(&old_self, &mid));
        }
    }

    /// Reads a file through the cache. A cached file is returned at once and
    /// the read recorded; otherwise the caller is told where on disk to read
    /// it (and records the read once it succeeds), or that no output path is set.
    pub fn read_file_with_cache(&mut self, file_path: &str, mod_id: &str) -> (r: CacheRead)
        requires
            old(self).wf(),
        ensures
            is_ascii_text(file_path@) ==> normalize_spec(file_path@) == ascii_normalize(file_path@),
            final(self).wf(),
            Self::same_cache(old(self), final(self)),
            Self::same_paths(old(self), final(self)),
            Self::cached_content(old(self), file_path@) matches Some(c) ==> {
                &&& r matches CacheRead::Cached(content) && content@ == c
                &&& Self::statuses_after(
                    old(self),
                    final(self),
                    normalize_spec(file_path@),
                    FileOperationType::Read,
                    mod_id@,
                )
            },
            Self::cached_content(old(self), file_path@) is None ==> {
                &&& Self::same_statuses(old(self), final(self))
                &&& old(self).output_path_view() matches Some(o) ==> r matches CacheRead::OnDisk {
                    output_path,
                    relative_path,
                } && output_path@ == o && relative_path@ == normalize_spec(file_path@)
                &&& old(self).output_path_view() is None ==> r is NoOutputPath
            },
    {
        let key = Self::normalize_path(file_path);
        match self.find_cached(&key) {
            Some(i) => {
                let content = self.file_cache[i].1.content.clone();
                assert(content@ =~= self.file_cache@[i as int].1.content@);
                self.record_key(key, FileOperationType::Read, mod_id);
                CacheRead::Cached(content)
            },
            None => match &self.output_path {
                Some(o) => CacheRead::OnDisk { output_path: o.clone(), relative_path: key },
                None => CacheRead::NoOutputPath,
            },
        }
    }

    /// Empties the cache and returns the output path and the files (normalized
    /// path, content) that are to be written below it: every cache entry that
    /// is still to be written. Without an output path nothing changes.
    pub fn flush_cache(&mut self) -> (r: Result<(String, Vec<(String, Vec<u8>)>), FileManagerError>)
        requires
            old(self).wf(),
        ensures
            final(self).wf(),
            Self::same_statuses(old(self), final(self)),
            Self::same_paths(old(self), final(self)),
            r is Err ==> old(self).output_path_view() is None && Self::same_cache(
                old(self),
                final(self),
            ),
            r is Err ==> r == Err::<(String, Vec<(String, Vec<u8>)>), FileManagerError>(
                FileManagerError::OutputPathNotSet,
            ),
            r matches Ok((o, files)) ==> {
                &&& old(self).output_path_view() == Some(o@)
                &&& forall|k: Seq<char>| final(self).cache_entry(k) is None
                &&& forall|i: int|
                    0 <= i < files@.len() ==> old(self).cache_entry(files@[i].0@) == Some(
                        (files@[i].1@, true),
                    )
                &&& forall|k: Seq<char>, c: Seq<u8>|
                    old(self).cache_entry(k) == Some((c, true)) ==> exists|i: int|
                        0 <= i < files@.len() && files@[i].0@ == k && files@[i].1@ == c
                &&& forall|i: int, j: int|
                    0 <= i < j < files@.len() ==> files@[i].0@ != files@[j].0@
            },
    {
        let o = match &self.output_path {
            Some(o) => o.clone(),
            None => return Err(FileManagerError::OutputPathNotSet),
        };
        let ghost old_self = *self;
        let mut cache: Vec<(String, CachedFile)> = Vec::new();
        std::mem::swap(&mut cache, &mut self.file_cache);
        let mut files: Vec<(String, Vec<u8>)> = Vec::new();
        let mut i: usize = 0;
        let ghost mut from: Seq<int> = Seq::empty();
        while i < cache.len()
            invariant
                i <= cache@.len(),
                cache@ == old_self.file_cache@,
                old_self.wf(),
                from.len() == files@.len(),
                forall|a: int|
                    0 <= a < files@.len() ==> 0 <= #[trigger] from[a] < i && cache@[from[a]].0@
                        == files@[a].0@ && cache@[from[a]].1.content@ == files@[a].1@
                        && cache@[from[a]].1.dirty,
                forall|a1: int, a2: int|
                    0 <= a1 < a2 < files@.len() ==> #[trigger] from[a1] < #[trigger] from[a2],
                forall|b: int|
                    0 <= b < i && #[trigger] cache@[b].1.dirty ==> exists|a: int|
                        0 <= a < files@.len() && from[a] == b,
            decreases cache.len() - i,
        {
            if cache[i].1.dirty {
                let k = cache[i].0.clone();
                let c = cache[i].1.content.clone();
                assert(c@ =~= cache@[i as int].1.content@);
                let ghost before = files@;
                let ghost old_from = from;
                files.push((k, c));
                proof {
                    from = from.push(i as int);
                    let n = before.len() as int;
                    assert(from[n] == i as int);
                    assert forall|b: int| 0 <= b < i + 1 && #[trigger] cache@[b].1.dirty implies exists|a: int|
                        0 <= a < files@.len() && from[a] == b by {
                        if b < i {
                            let a = choose|a: int| 0 <= a < before.len() && old_from[a] == b;
                            assert(from[a] == b);
                        } else {
                            assert(from[n] == b);
                        }
                    }
                }
            }
            i = i + 1;
        }
        proof {
            assert forall|a: int| 0 <= a < files@.len() implies old_self.cache_entry(files@[a].0@)
                == Some((files@[a].1@, true)) by {
                old_self.lemma_cache_at(from[a]);
            }
            assert forall|k: Seq<char>, c: Seq<u8>|
                old_self.cache_entry(k) == Some((c, true)) implies exists|a: int|
                0 <= a < files@.len() && files@[a].0@ == k && files@[a].1@ == c by {
                let b = choose|b: int| 0 <= b < cache@.len() && cache@[b].0@ == k;
                old_self.lemma_cache_at(b);
                let a = choose|a: int| 0 <= a < files@.len() && from[a] == b;
                assert(files@[a].0@ == k && files@[a].1@ == c);
            }
            assert forall|a1: int, a2: int|
                0 <= a1 < a2 < files@.len() implies files@[a1].0@ != files@[a2].0@ by {
                assert(from[a1] < from[a2]);
            }
        }
        Ok((o, files))
    }

    /// How a file that a mod asks for is to be made available, given whether a
    /// CASC storage is open, whether the extracted copy is present in the
    /// output directory, and whether the file is present in the game
    /// directory: a file extracted before and still present is used as it is;
    /// otherwise it is extracted from CASC when storage and output path are
    /// set, or copied from the game directory when it is there and both paths
    /// are set.
    pub fn extraction_action(
        &self,
        file_path: &str,
        casc_available: bool,
        extracted_copy_present: bool,
        present_in_game_dir: bool,
    ) -> (a: ExtractAction)
        requires
            self.wf(),
        ensures
            is_ascii_text(file_path@) ==> normalize_spec(file_path@) == ascii_normalize(file_path@),
            a == (if (self.status(normalize_spec(file_path@)) matches Some(s)
                && s.extracted) && self.output_path_view() is Some && extracted_copy_present {
                ExtractAction::UseExisting
            } else if casc_available && self.output_path_view() is Some {
                ExtractAction::ExtractFromCasc
            } else if self.game_path_view() is Some && self.output_path_view() is Some
                && present_in_game_dir {
                ExtractAction::CopyFromGame
            } else {
                ExtractAction::NotFound
            }),
            a == ExtractAction::UseExisting ==> (self.status(normalize_spec(file_path@)) matches Some(
                s,
            ) && s.extracted && s.exists && s.game_file == Some(true)),
    {
        proof {
            self.lemma_statuses_consistent(normalize_spec(file_path@));
        }
        let normalized = Self::normalize_path(file_path);
        let has_output = self.output_path.is_some();
        let extracted = match self.find_status(&normalized) {
            Some(i) => self.files[i].extracted,
            None => false,
        };
        if extracted && has_output && extracted_copy_present {
            ExtractAction::UseExisting
        } else if casc_available && has_output {
            ExtractAction::ExtractFromCasc
        } else if self.game_path.is_some() && has_output && present_in_game_dir {
            ExtractAction::CopyFromGame
        } else {
            ExtractAction::NotFound
        }
    }
}

/// In every state that the public operations reach from `new` (all of them
/// keep the manager well-formed), every tracked status is consistent: kept
/// under its own normalized path, existing, with a non-empty history, extracted
/// and a game file exactly when an extraction was recorded, and modified
/// exactly when a write was.
pub proof fn law_statuses_are_consistent(fm: &FileManager, key: Seq<char>)
    requires
        fm.wf(),
    ensures
        fm.status(key) matches Some(s) ==> status_consistent(s, key),
        forall|i: int|
            0 <= i < fm.statuses().len() ==> {
                let s = #[trigger] fm.statuses()[i];
                &&& status_consistent(s, s.file_path)
                &&& fm.status(s.file_path) == Some(s)
            },
{
    fm.lemma_statuses_consistent(key);
    assert forall|i: int| 0 <= i < fm.statuses().len() implies {
        let s = #[trigger] fm.statuses()[i];
        &&& status_consistent(s, s.file_path)
        &&& fm.status(s.file_path) == Some(s)
    } by {
        fm.lemma_status_view_at(i);
    }
}

/// A read through the cache gives what the last write to the cache put there,
/// so several mods chain their modifications of one file.
pub proof fn law_read_after_write(
    before: &FileManager,
    after: &FileManager,
    p: Seq<char>,
    c: Seq<u8>,
    m: Seq<char>,
)
    requires
        FileManager::cache_write_post(before, after, p, c, m),
    ensures
        FileManager::cached_content(after, p) == Some(c),
{
}

/// A write through the cache is recorded in the history of the file under
/// the same normalized path: the file exists, is modified, and its last
/// operation is the write by that mod.
pub proof fn law_cache_write_is_recorded(
    before: &FileManager,
    after: &FileManager,
    p: Seq<char>,
    c: Seq<u8>,
    m: Seq<char>,
)
    requires
        FileManager::cache_write_post(before, after, p, c, m),
    ensures
        after.status(normalize_spec(p)) matches Some(s) && {
            &&& s.exists
            &&& s.modified
            &&& s.operations.len() > 0
            &&& s.operations.last() == (FileOperationType::Write, m)
        },
{
}

/// A read through the cache gives what the last write to the cache put
/// there, whatever happened in between, as long as each step kept the cache
/// entry of that file: every public operation keeps it except a write to the
/// cache under the same normalized path (see [`law_last_write_wins`]) and
/// `flush_cache`. `states` runs from before the write to the state read from.
pub proof fn law_read_after_write_across(
    states: Seq<FileManager>,
    p: Seq<char>,
    q: Seq<char>,
    c: Seq<u8>,
    m: Seq<char>,
)
    requires
        states.len() >= 2,
        FileManager::cache_write_post(&states[0], &states[1], p, c, m),
        forall|i: int|
            1 < i < states.len() ==> #[trigger] states[i].cache_entry(normalize_spec(p))
                == states[i - 1].cache_entry(normalize_spec(p)),
        normalize_spec(q) == normalize_spec(p),
    ensures
        FileManager::cached_content(&states.last(), q) == Some(c),
    decreases states.len(),
{
    if states.len() > 2 {
        let n = states.len() - 1;
        let init = states.drop_last();
        assert forall|i: int| 1 < i < init.len() implies #[trigger] init[i].cache_entry(
            normalize_spec(p),
        ) == init[i - 1].cache_entry(normalize_spec(p)) by {
            assert(init[i] == states[i]);
            assert(init[i - 1] == states[i - 1]);
            assert(states[i].cache_entry(normalize_spec(p)) == states[i - 1].cache_entry(
                normalize_spec(p),
            ));
        }
        assert(init[0] == states[0] && init[1] == states[1]);
        law_read_after_write_across(init, p, q, c, m);
        assert(init.last() == states[n - 1]);
        assert(states[n].cache_entry(normalize_spec(p)) == states[n - 1].cache_entry(
            normalize_spec(p),
        ));
    }
}

/// Of two writes to one file, the second wins.
pub proof fn law_last_write_wins(
    fm0: &FileManager,
    fm1: &FileManager,
    fm2: &FileManager,
    p: Seq<char>,
    c1: Seq<u8>,
    c2: Seq<u8>,
    m1: Seq<char>,
    m2: Seq<char>,
)
    requires
        FileManager::cache_write_post(fm0, fm1, p, c1, m1),
        FileManager::cache_write_post(fm1, fm2, p, c2, m2),
    ensures
        FileManager::cached_content(fm2, p) == Some(c2),
{
}

/// A write to one file leaves the cached content of every file with another
/// normalized path as it was.
pub proof fn law_writes_are_independent(
    before: &FileManager,
    after: &FileManager,
    p: Seq<char>,
    q: Seq<char>,
    c: Seq<u8>,
    m: Seq<char>,
)
    requires
        FileManager::cache_write_post(before, after, p, c, m),
        normalize_spec(q) != normalize_spec(p),
    ensures
        FileManager::cached_content(after, q) == FileManager::cached_content(before, q),
{
}

/// Recording an operation keeps the history of every file: a file's history
/// only grows (by one operation, for the file recorded), and its flags
/// (exists, extracted, modified) never turn off.
pub proof fn law_history_only_grows(
    before: &FileManager,
    after: &FileManager,
    key: Seq<char>,
    op: FileOperationType,
    m: Seq<char>,
    k: Seq<char>,
)
    requires
        FileManager::statuses_after(before, after, key, op, m),
    ensures
        before.status(k) matches Some(s) ==> after.status(k) matches Some(t) && {
            &&& (s.exists ==> t.exists)
            &&& (s.extracted ==> t.extracted)
            &&& (s.modified ==> t.modified)
            &&& s.operations.len() <= t.operations.len()
            &&& t.operations.subrange(0, s.operations.len() as int) == s.operations
        },
        after.base(k).operations.len() == before.base(k).operations.len() + if k == key {
            1int
        } else {
            0int
        },
{
    if k == key {
        let s = before.base(k);
        assert(s.operations.push((op, m)).subrange(0, s.operations.len() as int) =~= s.operations);
    } else {
        if let Some(s) = before.status(k) {
            assert(s.operations.subrange(0, s.operations.len() as int) =~= s.operations);
        }
    }
}
} // verus!
