//! The editing history: the list of operations done on the image, a cursor
//! for undo and redo, and the bookkeeping of the temporary files that hold
//! precomputed previews of earlier states.

use vstd::prelude::*;

verus! {

#[verifier::external_type_specification]
#[verifier::external_body]
pub struct ExPathBuf(std::path::PathBuf);

/// The kinds of operation the history records.
#[derive(Debug, Clone, Copy, PartialEq, Eq, Structural)]
pub enum OperationType {
    Filter,
    Logic,
    Geometric,
    Mask,
    Curve,
}

/// A quantity of memory that can be given in bytes.
pub trait FileSize {
    /// The quantity in bytes.
    spec fn bytes(&self) -> int;

    /// The quantity in bytes fits in a `usize`.
    spec fn fits(&self) -> bool;

    fn size_as_bytes(&self) -> (r: usize)
        requires
            self.fits(),
        ensures
            r == self.bytes(),
    ;
}

/// Bytes in a mebibyte.
pub const MB: usize = 1048576;

/// A memory size in mebibytes or gibibytes.
pub enum FileSizes {
    MB(usize),
    GB(usize),
}

impl FileSize for FileSizes {
    open spec fn bytes(&self) -> int {
        match self {
            FileSizes::MB(x) => x * MB,
            FileSizes::GB(x) => x * 1024 * MB,
        }
    }

    open spec fn fits(&self) -> bool {
        self.bytes() <= usize::MAX
    }

    fn size_as_bytes(&self) -> (r: usize) {
        match self {
            FileSizes::MB(x) => *x * MB,
            FileSizes::GB(x) => *x * 1024 * MB,
        }
    }
}

impl FileSize for u8 {
    open spec fn bytes(&self) -> int {
        *self as int
    }

    open spec fn fits(&self) -> bool {
        true
    }

    fn size_as_bytes(&self) -> (r: usize) {
        *self as usize
    }
}

impl FileSize for u16 {
    open spec fn bytes(&self) -> int {
        *self as int
    }

    open spec fn fits(&self) -> bool {
        true
    }

    fn size_as_bytes(&self) -> (r: usize) {
        *self as usize
    }
}

impl FileSize for u32 {
    open spec fn bytes(&self) -> int {
        *self as int
    }

    open spec fn fits(&self) -> bool {
        true
    }

    fn size_as_bytes(&self) -> (r: usize) {
        *self as usize
    }
}

impl FileSize for u64 {
    open spec fn bytes(&self) -> int {
        *self as int
    }

    open spec fn fits(&self) -> bool {
        *self <= usize::MAX
    }

    fn size_as_bytes(&self) -> (r: usize) {
        *self as usize
    }
}

impl FileSize for usize {
    open spec fn bytes(&self) -> int {
        *self as int
    }

    open spec fn fits(&self) -> bool {
        true
    }

    fn size_as_bytes(&self) -> (r: usize) {
        *self
    }
}

impl FileSize for i32 {
    open spec fn bytes(&self) -> int {
        *self as int
    }

    /// A negative count of bytes has no size.
    open spec fn fits(&self) -> bool {
        *self >= 0
    }

    fn size_as_bytes(&self) -> (r: usize) {
        *self as usize
    }
}

impl FileSize for i64 {
    open spec fn bytes(&self) -> int {
        *self as int
    }

    /// A negative count of bytes has no size.
    open spec fn fits(&self) -> bool {
        0 <= *self <= usize::MAX
    }

    fn size_as_bytes(&self) -> (r: usize) {
        *self as usize
    }
}

impl FileSize for u128 {
    open spec fn bytes(&self) -> int {
        *self as int
    }

    open spec fn fits(&self) -> bool {
        *self <= usize::MAX
    }

    fn size_as_bytes(&self) -> (r: usize) {
        *self as usize
    }
}

impl FileSize for i8 {
    open spec fn bytes(&self) -> int {
        *self as int
    }

    /// A negative count of bytes has no size.
    open spec fn fits(&self) -> bool {
        *self >= 0
    }

    fn size_as_bytes(&self) -> (r: usize) {
        *self as usize
    }
}

impl FileSize for i16 {
    open spec fn bytes(&self) -> int {
        *self as int
    }

    /// A negative count of bytes has no size.
    open spec fn fits(&self) -> bool {
        *self >= 0
    }

    fn size_as_bytes(&self) -> (r: usize) {
        *self as usize
    }
}

impl FileSize for i128 {
    open spec fn bytes(&self) -> int {
        *self as int
    }

    /// A negative count of bytes has no size.
    open spec fn fits(&self) -> bool {
        0 <= *self <= usize::MAX
    }

    fn size_as_bytes(&self) -> (r: usize) {
        *self as usize
    }
}

impl FileSize for isize {
    open spec fn bytes(&self) -> int {
        *self as int
    }

    /// A negative count of bytes has no size.
    open spec fn fits(&self) -> bool {
        *self >= 0
    }

    fn size_as_bytes(&self) -> (r: usize) {
        *self as usize
    }
}

/// Largest memory budget the temporary files may take: 10 GiB.
pub open spec fn max_budget() -> int {
    10 * 1024 * MB
}

/// Budget used when none, or zero, is asked for: 3 GiB.
pub open spec fn default_budget() -> int {
    3 * 1024 * MB
}

/// The budget granted for a requested one: capped at 10 GiB, and 3 GiB for
/// none or zero.
pub open spec fn granted_budget(requested: Option<int>) -> int {
    match requested {
        Some(b) => if b > max_budget() {
            max_budget()
        } else if b == 0 {
            default_budget()
        } else {
            b
        },
        None => default_budget(),
    }
}

/// Sum of the sizes of the files kept.
pub open spec fn total(sizes: Seq<usize>) -> int
    decreases sizes.len(),
{
    if sizes.len() == 0 {
        0
    } else {
        total(sizes.drop_last()) + sizes.last()
    }
}

/// The temporary files that hold the previews of earlier states, newest
/// last, with their sizes and a cursor counting how many of the newest
/// states have been undone.
#[derive(Debug)]
pub struct FileHandler {
    root_path: std::path::PathBuf,
    max_mem_size: usize,
    current_mem_size: Vec<usize>,
    current_files: Vec<std::path::PathBuf>,
    current_index: usize,
}

impl FileHandler {
    pub closed spec fn budget(&self) -> int {
        self.max_mem_size as int
    }

    pub closed spec fn sizes(&self) -> Seq<usize> {
        self.current_mem_size@
    }

    pub closed spec fn files(&self) -> Seq<std::path::PathBuf> {
        self.current_files@
    }

    pub closed spec fn cursor(&self) -> int {
        self.current_index as int
    }

    pub closed spec fn root(&self) -> std::path::PathBuf {
        self.root_path
    }

    pub open spec fn well_formed(&self) -> bool {
        &&& self.sizes().len() == self.files().len()
        &&& 0 <= self.cursor() <= self.files().len()
        &&& total(self.sizes()) <= self.budget()
    }

    /// A handler keeping its files under `root`, with the memory budget
    /// granted for `max_mem_size`, holding no file yet.
    pub fn new<F: FileSize>(root: std::path::PathBuf, max_mem_size: Option<F>) -> (h: FileHandler)
        requires
            max_budget() <= usize::MAX,
            match max_mem_size {
                Some(m) => m.fits(),
                None => true,
            },
        ensures
            h.well_formed(),
            h.root() == root,
            h.budget() == granted_budget(
                match max_mem_size {
                    Some(m) => Some(m.bytes()),
                    None => None,
                },
            ),
            h.files().len() == 0,
            h.sizes().len() == 0,
            h.cursor() == 0,
    {
        let max_mem_size: usize = match max_mem_size {
            Some(max_mem_size) => {
                let requested = max_mem_size.size_as_bytes();
                if requested > FileSizes::GB(10).size_as_bytes() {
                    FileSizes::GB(10).size_as_bytes()
                } else if requested == 0 {
                    FileSizes::GB(3).size_as_bytes()
                } else {
                    requested
                }
            },
            None => FileSizes::GB(3).size_as_bytes(),
        };
        FileHandler {
            root_path: root,
            max_mem_size,
            current_mem_size: Vec::new(),
            current_files: Vec::new(),
            current_index: 0,
        }
    }

    pub fn root_path(&self) -> (r: &std::path::PathBuf)
        ensures
            *r == self.root(),
    {
        &self.root_path
    }

    pub fn current_files(&self) -> (r: &Vec<std::path::PathBuf>)
        ensures
            r@ == self.files(),
    {
        &self.current_files
    }

    pub fn current_mem_size(&self) -> (r: &Vec<usize>)
        ensures
            r@ == self.sizes(),
    {
        &self.current_mem_size
    }

    pub fn max_mem_size(&self) -> (r: usize)
        ensures
            r == self.budget(),
    {
        self.max_mem_size
    }

    /// Position in the list of files from which a new write drops the
    /// files: the states undone, unless all of them were undone (then the
    /// list is emptied without removing anything) or none was.
    pub open spec fn stale_from(&self) -> int {
        if self.cursor() != 0 && self.cursor() != self.files().len() {
            self.files().len() - self.cursor()
        } else {
            self.files().len() as int
        }
    }

    /// Position from which the next write drops files; the files from there
    /// on are to be removed from disk before the write is recorded.
    pub fn first_stale(&self) -> (r: usize)
        requires
            self.well_formed(),
        ensures
            r == self.stale_from(),
    {
        if self.current_index != 0 && self.current_index != self.current_files.len() {
            self.current_files.len() - self.current_index
        } else {
            self.current_files.len()
        }
    }

    /// List of files kept once the undone states are dropped.
    pub open spec fn kept(&self) -> int {
        if self.cursor() == 0 {
            self.files().len() as int
        } else {
            self.files().len() - self.cursor()
        }
    }

    /// Number of files the next write keeps.
    pub fn kept_files(&self) -> (r: usize)
        requires
            self.well_formed(),
        ensures
            r == self.kept(),
    {
        if self.current_index == 0 {
            self.current_files.len()
        } else {
            self.current_files.len() - self.current_index
        }
    }

    /// Records a snapshot of `size` bytes written to `out_path`: the undone
    /// states are dropped, the new file is appended and the cursor is reset.
    /// If the files then exceed the memory budget, the new file is taken off
    /// the list again and returned, to be removed if it exists.
    pub fn record_write(&mut self, out_path: std::path::PathBuf, size: usize) -> (dropped: Option<
        std::path::PathBuf,
    >)
        requires
            old(self).well_formed(),
            total(old(self).sizes().subrange(0, old(self).kept())) + size <= usize::MAX,
        ensures
            final(self).well_formed(),
            final(self).root() == old(self).root(),
            final(self).budget() == old(self).budget(),
            final(self).cursor() == 0,
            ({
                let before = old(self).files().len() - old(self).cursor();
                &&& final(self).files().len() == before + if dropped is None {
                    1int
                } else {
                    0
                }
                &&& final(self).files().subrange(0, before) == old(self).files().subrange(0, before)
                &&& dropped is None ==> final(self).files()[before] == out_path
            }),
            ({
                let kept_files = old(self).files().subrange(0, old(self).kept());
                let kept_sizes = old(self).sizes().subrange(0, old(self).kept());
                if total(kept_sizes) + size > old(self).budget() {
                    &&& dropped == Some(out_path)
                    &&& final(self).files() == kept_files
                    &&& final(self).sizes() == kept_sizes
                } else {
                    &&& dropped.is_none()
                    &&& final(self).files() == kept_files.push(out_path)
                    &&& final(self).sizes() == kept_sizes.push(size)
                }
            }),
    {
        let ghost before = *self;
        if self.current_index != 0 {
            if self.current_index == self.current_files.len() {
                self.current_files.clear();
                self.current_mem_size.clear();
            } else {
                let keep = self.current_files.len() - self.current_index;
                self.current_mem_size.truncate(keep);
                self.current_files.truncate(keep);
            }
        }
        proof {
            assert(self.current_files@ == before.current_files@.subrange(0, before.kept()));
            assert(self.current_mem_size@ == before.current_mem_size@.subrange(0, before.kept()));
        }
        self.current_files.push(out_path);
        self.current_mem_size.push(size);
        self.current_index = 0;
        proof {
            assert(self.current_mem_size@.drop_last() =~= before.current_mem_size@.subrange(0, before.kept()));
        }
        let sum = sum_sizes(&self.current_mem_size);
        if sum > self.max_mem_size {
            let f = self.current_files.pop();
            self.current_mem_size.pop();
            proof {
                assert(self.current_mem_size@ =~= before.current_mem_size@.subrange(0, before.kept()));
                assert(self.current_files@ =~= before.current_files@.subrange(0, before.kept()));
                lemma_total_prefix(before.current_mem_size@, before.kept());
            }
            f
        } else {
            None
        }
    }

    /// Which file a read opens: none when no file is kept; the oldest when
    /// every state is undone; otherwise the one just before the newest
    /// `cursor` undone states.
    pub open spec fn read_slot(&self) -> Option<int> {
        if self.files().len() == 0 {
            None
        } else if self.cursor() == self.files().len() {
            Some(0)
        } else {
            Some(self.files().len() - (self.cursor() + 1))
        }
    }

    /// Position in the list of the file a read opens.
    pub fn file_to_read(&self) -> (r: Option<usize>)
        requires
            self.well_formed(),
        ensures
            r matches Some(i) ==> self.read_slot() == Some(i as int) && i < self.files().len(),
            r is None <==> self.read_slot() is None,
    {
        let len = self.current_files.len();
        if len == 0 {
            None
        } else {
            Some(
                len - {
                    if self.current_index == len {
                        len
                    } else {
                        self.current_index + 1
                    }
                },
            )
        }
    }

    /// After a successful read the cursor moves one state back, up to the
    /// oldest one.
    pub fn advance_after_read(&mut self)
        requires
            old(self).well_formed(),
        ensures
            final(self).well_formed(),
            final(self).files() == old(self).files(),
            final(self).sizes() == old(self).sizes(),
            final(self).budget() == old(self).budget(),
            final(self).root() == old(self).root(),
            final(self).cursor() == if old(self).cursor() + 1 <= old(self).files().len() {
                old(self).cursor() + 1
            } else {
                old(self).files().len() as int
            },
    {
        let len = self.current_files.len();
        self.current_index = if self.current_index < len {
            self.current_index + 1
        } else {
            len
        };
    }
}

/// A write drops exactly the undone states: it keeps the files before the
/// `cursor` newest ones; it removes from disk the files from there on,
/// except when every state was undone, when the list is emptied and no file
/// is removed; and the file a read opens, when not every state is undone, is
/// the newest of the files a write keeps.
pub proof fn law_write_drops_undone(h: FileHandler)
    requires
        h.well_formed(),
    ensures
        h.kept() == h.files().len() - h.cursor(),
        0 < h.cursor() < h.files().len() ==> h.stale_from() == h.files().len() - h.cursor(),
        h.cursor() == 0 || h.cursor() == h.files().len() ==> h.stale_from() == h.files().len(),
        h.cursor() < h.files().len() ==> h.read_slot() == Some(h.files().len() - h.cursor() - 1),
{
}

/// Sum of a list of sizes.
fn sum_sizes(sizes: &Vec<usize>) -> (s: usize)
    requires
        total(sizes@) <= usize::MAX,
    ensures
        s == total(sizes@),
{
    let mut s: usize = 0;
    let mut i: usize = 0;
    while i < sizes.len()
        invariant
            i <= sizes.len(),
            total(sizes@) <= usize::MAX,
            s == total(sizes@.subrange(0, i as int)),
        decreases sizes.len() - i,
    {
        proof {
            assert(sizes@.subrange(0, i + 1).drop_last() =~= sizes@.subrange(0, i as int));
            lemma_total_prefix(sizes@, i + 1);
        }
        s = s + sizes[i];
        i = i + 1;
    }
    assert(sizes@.subrange(0, i as int) =~= sizes@);
    s
}

/// The total of a prefix never exceeds the total.
proof fn lemma_total_prefix(sizes: Seq<usize>, k: int)
    requires
        0 <= k <= sizes.len(),
    ensures
        0 <= total(sizes.subrange(0, k)) <= total(sizes),
    decreases sizes.len(),
{
    if sizes.len() > 0 {
        if k == sizes.len() {
            assert(sizes.subrange(0, k) =~= sizes);
            lemma_total_prefix(sizes.drop_last(), k - 1);
        } else {
            assert(sizes.subrange(0, k) =~= sizes.drop_last().subrange(0, k));
            lemma_total_prefix(sizes.drop_last(), k);
        }
    }
}

/// The editing history: every operation done, in order, with whether a
/// preview of the state after it was saved to a temporary file, and a cursor
/// counting how many of the newest operations are undone.
#[derive(Debug)]
pub struct History<O> {
    history: Vec<(bool, OperationType, O)>,
    use_temp_files: bool,
    file_handler: FileHandler,
    current_index: usize,
}

impl<O> History<O> {
    pub closed spec fn entries(&self) -> Seq<(bool, OperationType, O)> {
        self.history@
    }

    pub closed spec fn cursor(&self) -> int {
        self.current_index as int
    }

    pub closed spec fn uses_temp_files(&self) -> bool {
        self.use_temp_files
    }

    pub closed spec fn handler(&self) -> FileHandler {
        self.file_handler
    }

    /// The cursor stays within the list and the file bookkeeping is sound.
    pub open spec fn well_formed(&self) -> bool {
        &&& 0 <= self.cursor() <= self.entries().len() <= usize::MAX
        &&& self.handler().well_formed()
    }

    /// An empty history whose previews go under `temp_file_directory`, saved
    /// only if `use_temp_files`, within the budget granted for
    /// `max_mem_size`.
    pub fn init<F: FileSize>(
        temp_file_directory: std::path::PathBuf,
        use_temp_files: bool,
        max_mem_size: Option<F>,
    ) -> (h: History<O>)
        requires
            max_budget() <= usize::MAX,
            match max_mem_size {
                Some(m) => m.fits(),
                None => true,
            },
        ensures
            h.well_formed(),
            h.entries().len() == 0,
            h.cursor() == 0,
            h.uses_temp_files() == use_temp_files,
            h.handler().root() == temp_file_directory,
            h.handler().files().len() == 0,
            h.handler().cursor() == 0,
            h.handler().budget() == granted_budget(
                match max_mem_size {
                    Some(m) => Some(m.bytes()),
                    None => None,
                },
            ),
    {
        let fh = FileHandler::new(temp_file_directory, max_mem_size);
        History { history: Vec::new(), use_temp_files, file_handler: fh, current_index: 0 }
    }

    /// Some operation is left to undo.
    pub open spec fn undoable(&self) -> bool {
        self.cursor() < self.entries().len()
    }

    pub fn can_undo(&self) -> (r: bool)
        ensures
            r == self.undoable(),
    {
        self.current_index < self.history.len()
    }

    /// Some undone operation is left to redo.
    pub open spec fn redoable(&self) -> bool {
        self.cursor() > 0
    }

    pub fn can_redo(&self) -> (r: bool)
        ensures
            r == self.redoable(),
    {
        self.current_index > 0
    }

    /// The history after an undo: the cursor moves one operation back if
    /// one is left to undo.
    pub closed spec fn undone(self) -> History<O> {
        if self.undoable() {
            History { current_index: (self.current_index + 1) as usize, ..self }
        } else {
            self
        }
    }

    /// The history after a redo: the cursor moves one operation forward if
    /// one is left to redo.
    pub closed spec fn redone(self) -> History<O> {
        if self.redoable() {
            History { current_index: (self.current_index - 1) as usize, ..self }
        } else {
            self
        }
    }

    /// Position of the operation an undo hands back.
    pub open spec fn undo_target(self) -> int {
        self.entries().len() - self.cursor() - 1
    }

    /// Position of the operation a redo hands back.
    pub open spec fn redo_target(self) -> int {
        self.entries().len() - self.cursor()
    }

    /// The transitions keep the list, the file bookkeeping and the cursor
    /// bounds, and move the cursor by one when they can.
    pub proof fn lemma_transitions(self)
        requires
            self.well_formed(),
        ensures
            self.undone().well_formed(),
            self.redone().well_formed(),
            self.undone().entries() == self.entries(),
            self.redone().entries() == self.entries(),
            self.undone().handler() == self.handler(),
            self.redone().handler() == self.handler(),
            self.undone().uses_temp_files() == self.uses_temp_files(),
            self.redone().uses_temp_files() == self.uses_temp_files(),
            self.undone().cursor() == if self.undoable() {
                self.cursor() + 1
            } else {
                self.cursor()
            },
            self.redone().cursor() == if self.redoable() {
                self.cursor() - 1
            } else {
                self.cursor()
            },
    {
    }

    /// Kind of the operation the next undo reverts.
    pub fn next_undo_type(&self) -> (r: Option<&OperationType>)
        requires
            self.well_formed(),
        ensures
            self.undoable() ==> r == Some(&self.entries()[self.undo_target()].1),
            !self.undoable() ==> r is None,
    {
        if self.can_undo() {
            Some(&self.history[self.history.len() - self.current_index - 1].1)
        } else {
            None
        }
    }

    /// Undoes the newest operation not yet undone and returns it.
    pub fn undo(&mut self) -> (r: Option<&O>)
        requires
            old(self).well_formed(),
        ensures
            *final(self) == old(self).undone(),
            old(self).undoable() ==> r == Some(&old(self).entries()[old(self).undo_target()].2),
            !old(self).undoable() ==> r is None,
    {
        if self.current_index < self.history.len() {
            self.current_index += 1;
            Some(&self.history[self.history.len() - self.current_index].2)
        } else {
            None
        }
    }

    /// Redoes the oldest undone operation and returns it.
    pub fn redo(&mut self) -> (r: Option<&O>)
        requires
            old(self).well_formed(),
        ensures
            *final(self) == old(self).redone(),
            old(self).redoable() ==> r == Some(&old(self).entries()[old(self).redo_target()].2),
            !old(self).redoable() ==> r is None,
    {
        if self.current_index > 0 {
            self.current_index -= 1;
            Some(&self.history[self.history.len() - 1 - self.current_index].2)
        } else {
            None
        }
    }

    /// A saved preview exists for the state the cursor points at. With temp
    /// files in use, the cursor has to have undone at least one operation.
    pub fn preview_aviable(&self) -> (r: bool)
        requires
            self.well_formed(),
            self.uses_temp_files() ==> self.cursor() >= 1,
        ensures
            r == (self.uses_temp_files() && self.entries()[self.entries().len() - self.cursor()].0),
    {
        self.use_temp_files && self.history[self.history.len() - self.current_index].0
    }

    /// Whether the preview of the state the cursor points at is to be read
    /// from its temporary file (the read itself goes through the file
    /// handler).
    pub fn get_precomputed_preview(&self) -> (r: bool)
        requires
            self.well_formed(),
            self.cursor() >= 1,
        ensures
            r == (self.entries()[self.entries().len() - self.cursor()].0 && self.uses_temp_files()),
    {
        self.history[self.history.len() - self.current_index].0 && self.use_temp_files
    }

    /// Appends an operation of kind `op_type`, with no preview saved.
    pub fn register_operation_without_saving(&mut self, op_type: OperationType, args: &O)
        where O: Clone,
        requires
            old(self).well_formed(),
            old(self).entries().len() < usize::MAX,
        ensures
            final(self).well_formed(),
            final(self).entries().len() == old(self).entries().len() + 1,
            final(self).entries().subrange(0, old(self).entries().len() as int) == old(self).entries(),
            final(self).entries().last().0 == false,
            final(self).entries().last().1 == op_type,
            cloned(*args, final(self).entries().last().2),
            final(self).cursor() == old(self).cursor(),
            final(self).uses_temp_files() == old(self).uses_temp_files(),
            final(self).handler() == old(self).handler(),
    {
        self.history.push((false, op_type, args.clone()));
        proof {
            assert(self.history@.subrange(0, self.history@.len() - 1) =~= old(self).history@);
        }
    }

    /// Appends an operation of kind `op_type` whose preview is saved; the
    /// result says whether the preview is to be written to a temporary file
    /// (only when temp files are in use).
    pub fn register_operation_and_save(&mut self, op_type: OperationType, args: &O) -> (write: bool)
        where O: Clone,
        requires
            old(self).well_formed(),
            old(self).entries().len() < usize::MAX,
        ensures
            final(self).well_formed(),
            final(self).entries().len() == old(self).entries().len() + 1,
            final(self).entries().subrange(0, old(self).entries().len() as int) == old(self).entries(),
            final(self).entries().last().0 == true,
            final(self).entries().last().1 == op_type,
            cloned(*args, final(self).entries().last().2),
            final(self).cursor() == old(self).cursor(),
            final(self).uses_temp_files() == old(self).uses_temp_files(),
            final(self).handler() == old(self).handler(),
            write == old(self).uses_temp_files(),
    {
        self.history.push((true, op_type, args.clone()));
        proof {
            assert(self.history@.subrange(0, self.history@.len() - 1) =~= old(self).history@);
        }
        self.use_temp_files
    }

    /// The bookkeeping of the preview files.
    pub fn file_handler(&self) -> (r: &FileHandler)
        ensures
            *r == self.handler(),
    {
        &self.file_handler
    }

    /// Records a preview of `size` bytes written to `out_path` (see
    /// `FileHandler::record_write`).
    pub fn record_preview(&mut self, out_path: std::path::PathBuf, size: usize) -> (dropped: Option<
        std::path::PathBuf,
    >)
        requires
            old(self).well_formed(),
            total(old(self).handler().sizes().subrange(0, old(self).handler().kept())) + size
                <= usize::MAX,
        ensures
            final(self).well_formed(),
            final(self).entries() == old(self).entries(),
            final(self).cursor() == old(self).cursor(),
            final(self).uses_temp_files() == old(self).uses_temp_files(),
            final(self).handler().root() == old(self).handler().root(),
            final(self).handler().budget() == old(self).handler().budget(),
            final(self).handler().cursor() == 0,
            ({
                let h = old(self).handler();
                let kept_files = h.files().subrange(0, h.kept());
                let kept_sizes = h.sizes().subrange(0, h.kept());
                if total(kept_sizes) + size > h.budget() {
                    &&& dropped == Some(out_path)
                    &&& final(self).handler().files() == kept_files
                    &&& final(self).handler().sizes() == kept_sizes
                } else {
                    &&& dropped.is_none()
                    &&& final(self).handler().files() == kept_files.push(out_path)
                    &&& final(self).handler().sizes() == kept_sizes.push(size)
                }
            }),
    {
        self.file_handler.record_write(out_path, size)
    }

    /// Moves the preview cursor after a successful read (see
    /// `FileHandler::advance_after_read`).
    pub fn advance_preview_read(&mut self)
        requires
            old(self).well_formed(),
        ensures
            final(self).well_formed(),
            final(self).entries() == old(self).entries(),
            final(self).cursor() == old(self).cursor(),
            final(self).uses_temp_files() == old(self).uses_temp_files(),
            final(self).handler().files() == old(self).handler().files(),
            final(self).handler().sizes() == old(self).handler().sizes(),
            final(self).handler().budget() == old(self).handler().budget(),
            final(self).handler().root() == old(self).handler().root(),
            final(self).handler().cursor() == if old(self).handler().cursor() + 1 <= old(
                self,
            ).handler().files().len() {
                old(self).handler().cursor() + 1
            } else {
                old(self).handler().files().len() as int
            },
    {
        self.file_handler.advance_after_read();
    }
}

/// Undo and redo revert each other: a redo right after an undo restores
/// the history and hands back the operation the undo handed back, and an
/// undo right after a redo does the same.
pub proof fn law_undo_redo_inverse<O>(h: History<O>)
    requires
        h.well_formed(),
    ensures
        h.undoable() ==> h.undone().redoable() && h.undone().redone() == h && h.undone().redo_target()
            == h.undo_target(),
        h.redoable() ==> h.redone().undoable() && h.redone().undone() == h && h.redone().undo_target()
            == h.redo_target(),
{
    h.lemma_transitions();
    if h.undoable() {
        h.undone().lemma_transitions();
        assert(h.undone().redone() =~= h);
    }
    if h.redoable() {
        h.redone().lemma_transitions();
        assert(h.redone().undone() =~= h);
    }
}

} // verus!
