use vstd::prelude::*;
use vstd::string::*;
use crate::file::{decimal_value, lemma_decimal_value, parse_decimal, FileSize};
use crate::helpers::{
    backup_name_of, decimal, decimal_text, is_valid_location, join_with, lemma_locations_distinct,
    stem_of, suffix_of, FileError, FileObj, MAX_BACKUP_INDEX,
};

verus! {

broadcast use vstd::string::group_string_axioms;

/// A step of a rotation, on locations.
pub enum PathOp {
    Rename(Seq<char>, Seq<char>),
    Create(Seq<char>),
}

/// A step of a rotation that the caller performs on the file system.
#[derive(Debug, Clone)]
pub enum FileOp {
    /// Move the file at `from` to `to`, replacing what is there.
    Rename { from: String, to: String },
    /// Create an empty file at `path`, or empty the one there.
    Create { path: String },
}

impl View for FileOp {
    type V = PathOp;

    open spec fn view(&self) -> PathOp {
        match self {
            FileOp::Rename { from, to } => PathOp::Rename(from@, to@),
            FileOp::Create { path } => PathOp::Create(path@),
        }
    }
}

/// The steps of a plan, on locations.
pub open spec fn ops_view(ops: Seq<FileOp>) -> Seq<PathOp> {
    ops.map_values(|o: FileOp| o@)
}

/// A directory tree as the contents of the files at each location.
pub type Directory = Map<Seq<char>, Seq<u8>>;

/// One step on a directory: a rename needs its source and replaces its
/// target; a create leaves an empty file. `None` where the step fails.
pub open spec fn apply_op(dir: Directory, op: PathOp) -> Option<Directory> {
    match op {
        PathOp::Rename(from, to) => {
            if dir.contains_key(from) {
                Some(dir.remove(from).insert(to, dir[from]))
            } else {
                None
            }
        },
        PathOp::Create(path) => Some(dir.insert(path, seq![])),
    }
}

/// The steps in order; `None` where one of them fails.
pub open spec fn apply_ops(dir: Directory, ops: Seq<PathOp>) -> Option<Directory>
    decreases ops.len(),
{
    if ops.len() == 0 {
        Some(dir)
    } else {
        match apply_op(dir, ops[0]) {
            Some(d) => apply_ops(d, ops.drop_first()),
            None => None,
        }
    }
}

impl FileObj {
    /// Backup `n` is among the file names of the directory.
    pub open spec fn backup_listed(&self, listing: Seq<String>, n: nat) -> bool {
        exists|k: int|
            0 <= k < listing.len() && #[trigger] listing[k]@ == backup_name_of(
                self.file_name@,
                n,
                self.extension@,
            )
    }

    /// Backup `n` is among the first `upto` file names of the listing.
    pub open spec fn backup_listed_before(&self, listing: Seq<String>, n: nat, upto: int) -> bool {
        exists|k: int|
            0 <= k < upto && #[trigger] listing[k]@ == backup_name_of(
                self.file_name@,
                n,
                self.extension@,
            )
    }

    /// Backups `1..=k` are all among the file names of the directory.
    pub open spec fn backups_listed_through(&self, listing: Seq<String>, k: nat) -> bool {
        forall|i: nat| 1 <= i <= k ==> #[trigger] self.backup_listed(listing, i)
    }

    /// `r` is what probing backups `1, 2, ...` among the file names gives:
    /// `None` where backup `1` is missing; `k` where backups `1..=k` are
    /// there and `k + 1` is not; `TooManyBackups` where all backups up to
    /// the probe limit are there.
    pub open spec fn highest_count_is(&self, listing: Seq<String>, r: Result<Option<u32>, FileError>) -> bool {
        match r {
            Ok(None) => !self.backup_listed(listing, 1),
            Ok(Some(k)) => {
                &&& 1 <= k < MAX_BACKUP_INDEX
                &&& self.backups_listed_through(listing, k as nat)
                &&& !self.backup_listed(listing, k as nat + 1)
            },
            Err(e) => {
                &&& e == FileError::TooManyBackups
                &&& self.backups_listed_through(listing, MAX_BACKUP_INDEX as nat)
            },
        }
    }

    /// The rename that moves backup `j` to backup `j + 1`.
    pub open spec fn shift_op(&self, j: nat) -> PathOp {
        PathOp::Rename(self.backup_location(j), self.backup_location(j + 1))
    }

    /// The rotation over backups `1..=k`: backups `k` down to `1` each move
    /// up by one, the base file becomes backup `1`, and an empty base file
    /// is created.
    pub open spec fn rotation_plan(&self, k: nat) -> Seq<PathOp> {
        Seq::new(k, |t: int| self.shift_op((k - t) as nat)) + seq![
            PathOp::Rename(self.location(), self.backup_location(1)),
            PathOp::Create(self.location()),
        ]
    }

    /// A location that a rotation over backups `1..=k` touches.
    pub open spec fn rotation_touches(&self, k: nat, p: Seq<char>) -> bool {
        p == self.location() || exists|i: nat| 1 <= i <= k + 1 && p == #[trigger] self.backup_location(i)
    }
}

/// Facts about the parts of a backup name.
proof fn lemma_backup_name_parts(stem: Seq<char>, n: nat, suffix: Seq<char>)
    ensures
        ({
            let name = backup_name_of(stem, n, suffix);
            let start: int = stem.len() as int + 1;
            let end: int = name.len() - suffix.len() - 1;
            &&& name.len() == stem.len() + decimal(n).len() + suffix.len() + 2
            &&& decimal(n).len() >= 1
            &&& name.subrange(0, start) == stem + seq!['.']
            &&& name.subrange(end, name.len() as int) == seq!['.'] + suffix
            &&& name.subrange(start, end) == decimal(n)
            &&& decimal_value(decimal(n)) == Some(n as u64) <== n <= u64::MAX
        }),
{
    let name = backup_name_of(stem, n, suffix);
    let start: int = stem.len() as int + 1;
    let end: int = name.len() - suffix.len() - 1;
    lemma_decimal_value(n);
    assert(name.subrange(0, start) =~= stem + seq!['.']);
    assert(name.subrange(end, name.len() as int) =~= seq!['.'] + suffix);
    assert(name.subrange(start, end) =~= decimal(n));
}

impl FileObj {
    /// The index `n` of a file name `stem.n.suffix` of this file, with `n`
    /// between `1` and the probe limit; `None` for any other name.
    fn backup_index(&self, name: &String) -> (r: Option<u32>)
        ensures
            r is Some ==> 1 <= r->0 <= MAX_BACKUP_INDEX && name@ == backup_name_of(
                self.file_name@,
                r->0 as nat,
                self.extension@,
            ),
            r is None ==> forall|n: nat|
                1 <= n <= MAX_BACKUP_INDEX ==> name@ != #[trigger] backup_name_of(
                    self.file_name@,
                    n,
                    self.extension@,
                ),
    {
        proof {
            assert forall|n: nat| 1 <= n <= MAX_BACKUP_INDEX && name@ == #[trigger] backup_name_of(
                self.file_name@,
                n,
                self.extension@,
            ) implies ({
                let start: int = self.file_name@.len() as int + 1;
                let end: int = name@.len() - self.extension@.len() - 1;
                &&& name@.len() == self.file_name@.len() + decimal(n).len() + self.extension@.len() + 2
                &&& decimal(n).len() >= 1
                &&& name@.subrange(0, start) == self.file_name@ + seq!['.']
                &&& name@.subrange(end, name@.len() as int) == seq!['.'] + self.extension@
                &&& name@.subrange(start, end) == decimal(n)
                &&& decimal_value(decimal(n)) == Some(n as u64)
            }) by {
                lemma_backup_name_parts(self.file_name@, n, self.extension@);
            }
        }
        let stem_len = self.file_name.as_str().unicode_len();
        let ext_len = self.extension.as_str().unicode_len();
        let len = name.as_str().unicode_len();
        if stem_len > len || ext_len > len - stem_len || len - stem_len - ext_len < 3 {
            return None;
        }
        let start = stem_len + 1;
        let end = len - ext_len - 1;
        let empty = String::new();
        proof { reveal_strlit("."); }
        let want_prefix = join_with(&self.file_name, ".", &empty);
        let want_suffix = join_with(&empty, ".", &self.extension);
        assert(want_prefix@ =~= self.file_name@ + seq!['.']);
        assert(want_suffix@ =~= seq!['.'] + self.extension@);
        let prefix = String::from_str(name.as_str().substring_char(0, start));
        let suffix = String::from_str(name.as_str().substring_char(end, len));
        if !(prefix == want_prefix) || !(suffix == want_suffix) {
            return None;
        }
        let middle = name.as_str().substring_char(start, end);
        let v = match parse_decimal(middle) {
            Some(v) => v,
            None => return None,
        };
        if v < 1 || v > MAX_BACKUP_INDEX as u64 {
            return None;
        }
        let text = decimal_text(v as u32);
        if text == String::from_str(middle) {
            assert(name@ =~= name@.subrange(0, start as int) + name@.subrange(start as int, end as int)
                + name@.subrange(end as int, len as int));
            assert(name@ =~= backup_name_of(self.file_name@, v as nat, self.extension@));
            Some(v as u32)
        } else {
            proof { lemma_decimal_value(v as nat); }
            None
        }
    }
}

/// The file operations that rotation and size checks rest on.
pub trait FileTrait: Sized {
    /// The highest backup index present among the file names of the
    /// directory, found by probing `1, 2, ...` up to the first gap.
    fn get_highest_count(&self, names: &Vec<String>) -> Result<Option<u32>, FileError>;

    /// The steps that shift every backup from `from_number` down to `1` up
    /// by one, move the base file to backup `1` and create it again empty.
    fn rotate(&self, from_number: Option<u32>) -> Vec<FileOp>
        requires
            from_number is Some ==> from_number->0 < u32::MAX,
    ;

    /// Whether a file of `file_len` bytes has reached `size`.
    fn is_bigger_than(&self, file_len: u64, size: FileSize) -> (r: bool)
        requires
            size.fits(),
        ensures
            r == (file_len >= size.byte_count()),
    ;
}

impl FileTrait for FileObj {
    fn get_highest_count(&self, names: &Vec<String>) -> (r: Result<Option<u32>, FileError>)
        ensures
            self.highest_count_is(names@, r),
    {
        let limit: usize = MAX_BACKUP_INDEX as usize;
        let mut present: Vec<bool> = Vec::new();
        while present.len() <= limit
            invariant
                limit == MAX_BACKUP_INDEX,
                present@.len() <= limit + 1,
                forall|j: int| 0 <= j < present@.len() ==> !#[trigger] present@[j],
            decreases limit + 1 - present@.len(),
        {
            present.push(false);
        }
        let mut i: usize = 0;
        while i < names.len()
            invariant
                i <= names@.len(),
                limit == MAX_BACKUP_INDEX,
                present@.len() == limit + 1,
                forall|n: nat|
                    1 <= n <= MAX_BACKUP_INDEX ==> present@[n as int] == #[trigger] self.backup_listed_before(
                        names@,
                        n,
                        i as int,
                    ),
            decreases names@.len() - i,
        {
            let found = self.backup_index(&names[i]);
            let ghost before = present@;
            if let Some(m) = found {
                present.set(m as usize, true);
            }
            assert(forall|n: int| 0 <= n < present@.len() ==> present@[n] == if found is Some && found->0 == n {
                true
            } else {
                before[n]
            });
            assert forall|n: nat| 1 <= n <= MAX_BACKUP_INDEX implies present@[n as int]
                == #[trigger] self.backup_listed_before(names@, n, i + 1) by {
                let bn = backup_name_of(self.file_name@, n, self.extension@);
                if names@[i as int]@ == bn {
                    assert(found is Some);
                    let m = found->0 as nat;
                    if m != n {
                        lemma_locations_distinct(*self, m, n);
                    }
                } else {
                    if self.backup_listed_before(names@, n, i + 1) {
                        let k = choose|k: int| 0 <= k < i + 1 && #[trigger] names@[k]@ == bn;
                        assert(self.backup_listed_before(names@, n, i as int));
                    }
                    if self.backup_listed_before(names@, n, i as int) {
                        let k = choose|k: int| 0 <= k < i && #[trigger] names@[k]@ == bn;
                        assert(self.backup_listed_before(names@, n, i + 1));
                    }
                }
            }
            i = i + 1;
        }
        let mut count: u32 = 1;
        while count <= MAX_BACKUP_INDEX
            invariant
                1 <= count <= MAX_BACKUP_INDEX + 1,
                limit == MAX_BACKUP_INDEX,
                present@.len() == limit + 1,
                forall|n: nat|
                    1 <= n <= MAX_BACKUP_INDEX ==> present@[n as int] == #[trigger] self.backup_listed_before(
                        names@,
                        n,
                        names@.len() as int,
                    ),
                self.backups_listed_through(names@, (count - 1) as nat),
            decreases MAX_BACKUP_INDEX + 1 - count,
        {
            assert(present@[count as int] == self.backup_listed_before(names@, count as nat, names@.len() as int));
            if !present[count as usize] {
                assert(!self.backup_listed(names@, count as nat));
                if count == 1 {
                    return Ok(None);
                } else {
                    return Ok(Some(count - 1));
                }
            }
            assert forall|i: nat| 1 <= i <= count implies #[trigger] self.backup_listed(names@, i) by {
                if i == count {
                    assert(self.backup_listed(names@, i));
                }
            }
            count = count + 1;
        }
        Err(FileError::TooManyBackups)
    }

    fn rotate(&self, from_number: Option<u32>) -> (r: Vec<FileOp>)
        ensures
            ops_view(r@) == self.rotation_plan(
                match from_number {
                    Some(k) => k as nat,
                    None => 0,
                },
            ),
    {
        let top: u32 = match from_number {
            Some(k) => k,
            None => 0,
        };
        let ghost k = top as nat;
        let mut ops: Vec<FileOp> = Vec::new();
        let mut i: u32 = top;
        while i > 0
            invariant
                i <= top < u32::MAX,
                k == top as nat,
                ops_view(ops@) =~= Seq::new((top - i) as nat, |t: int| self.shift_op((k - t) as nat)),
            decreases i,
        {
            let from = self.incremented(i);
            let to = self.incremented(i + 1);
            let op = FileOp::Rename { from, to };
            assert(op@ == self.shift_op(i as nat));
            let ghost before = ops@;
            ops.push(op);
            assert(ops_view(ops@) =~= ops_view(before).push(self.shift_op(i as nat)));
            i = i - 1;
        }
        let base = self.to_string();
        let first = self.incremented(1);
        let ghost before = ops@;
        ops.push(FileOp::Rename { from: base, to: first });
        assert(ops_view(ops@) =~= ops_view(before).push(
            PathOp::Rename(self.location(), self.backup_location(1)),
        ));
        let path = self.to_string();
        let ghost before = ops@;
        ops.push(FileOp::Create { path });
        assert(ops_view(ops@) =~= ops_view(before).push(PathOp::Create(self.location())));
        assert(ops_view(ops@) =~= self.rotation_plan(k));
        ops
    }

    fn is_bigger_than(&self, file_len: u64, size: FileSize) -> (r: bool) {
        file_len >= size.bytes()
    }
}

/// The base location and all backup locations of `f` are pairwise different.
proof fn lemma_all_distinct(f: FileObj)
    ensures
        forall|i: nat| f.location() != #[trigger] f.backup_location(i),
        forall|i: nat, j: nat|
            i != j ==> #[trigger] f.backup_location(i) != #[trigger] f.backup_location(j),
{
    assert forall|i: nat| f.location() != #[trigger] f.backup_location(i) by {
        lemma_locations_distinct(f, i, i);
    }
    assert forall|i: nat, j: nat|
        i != j implies #[trigger] f.backup_location(i) != #[trigger] f.backup_location(j) by {
        lemma_locations_distinct(f, i, j);
    }
}

/// A rotation over backups `1..=k`, on a directory that holds the base file
/// and those backups, succeeds; afterwards backups `1..=k+1` exist, each
/// holding what the next lower one held (backup `1` what the base file
/// held), the base file exists and is empty, and every other file is as it
/// was.
pub proof fn lemma_rotation_shifts(f: FileObj, dir: Directory, k: nat)
    requires
        dir.contains_key(f.location()),
        forall|i: nat| 1 <= i <= k ==> dir.contains_key(#[trigger] f.backup_location(i)),
    ensures
        apply_ops(dir, f.rotation_plan(k)) is Some,
        ({
            let d = apply_ops(dir, f.rotation_plan(k))->0;
            &&& d.contains_key(f.location())
            &&& d[f.location()] == Seq::<u8>::empty()
            &&& forall|i: nat| 1 <= i <= k + 1 ==> d.contains_key(#[trigger] f.backup_location(i))
            &&& d[f.backup_location(1)] == dir[f.location()]
            &&& forall|i: nat|
                2 <= i <= k + 1 ==> d[#[trigger] f.backup_location(i)] == dir[f.backup_location(
                    (i - 1) as nat,
                )]
            &&& forall|p: Seq<char>|
                !f.rotation_touches(k, p) ==> (#[trigger] d.contains_key(p) == dir.contains_key(p)
                    && (dir.contains_key(p) ==> d[p] == dir[p]))
        }),
    decreases k,
{
    lemma_all_distinct(f);
    let base = f.location();
    let b1 = f.backup_location(1);
    if k == 0 {
        let plan = f.rotation_plan(0);
        let d1 = dir.remove(base).insert(b1, dir[base]);
        let d2 = d1.insert(base, seq![]);
        assert(plan[0] == PathOp::Rename(base, b1));
        assert(plan.drop_first()[0] == PathOp::Create(base));
        assert(plan.drop_first().drop_first().len() == 0);
        assert(apply_ops(d2, plan.drop_first().drop_first()) == Some(d2));
        assert(apply_ops(d1, plan.drop_first()) == Some(d2));
        assert(apply_ops(dir, plan) == Some(d2));
        assert forall|p: Seq<char>| !f.rotation_touches(0, p) implies (#[trigger] d2.contains_key(p)
            == dir.contains_key(p) && (dir.contains_key(p) ==> d2[p] == dir[p])) by {
            assert(p != b1);
        }
    } else {
        let bk = f.backup_location(k);
        let bk1 = f.backup_location(k + 1);
        let plan = f.rotation_plan(k);
        assert(plan =~= seq![f.shift_op(k)] + f.rotation_plan((k - 1) as nat));
        assert(plan.drop_first() =~= f.rotation_plan((k - 1) as nat));
        let d1 = dir.remove(bk).insert(bk1, dir[bk]);
        assert(dir.contains_key(bk));
        assert(apply_op(dir, plan[0]) == Some(d1));
        assert forall|i: nat| 1 <= i <= k - 1 implies d1.contains_key(#[trigger] f.backup_location(i)) by {
            assert(dir.contains_key(f.backup_location(i)));
        }
        lemma_rotation_shifts(f, d1, (k - 1) as nat);
        let d = apply_ops(d1, f.rotation_plan((k - 1) as nat))->0;
        assert(apply_ops(dir, plan) == Some(d));
        assert(!f.rotation_touches((k - 1) as nat, bk1)) by {
            if f.rotation_touches((k - 1) as nat, bk1) {
                let i = choose|i: nat| 1 <= i <= k && bk1 == #[trigger] f.backup_location(i);
            }
        }
        assert forall|i: nat| 1 <= i <= k + 1 implies d.contains_key(#[trigger] f.backup_location(i)) by {
            if i == k + 1 {
                assert(d.contains_key(bk1));
            }
        }
        assert forall|i: nat| 2 <= i <= k + 1 implies d[#[trigger] f.backup_location(i)]
            == dir[f.backup_location((i - 1) as nat)] by {
            if i == k + 1 {
                assert(d[bk1] == d1[bk1]);
            } else {
                assert(d[f.backup_location(i)] == d1[f.backup_location((i - 1) as nat)]);
            }
        }
        assert forall|p: Seq<char>| !f.rotation_touches(k, p) implies (#[trigger] d.contains_key(p)
            == dir.contains_key(p) && (dir.contains_key(p) ==> d[p] == dir[p])) by {
            assert(p != bk1);
            assert(p != bk);
            if f.rotation_touches((k - 1) as nat, p) {
                if p != base {
                    let i = choose|i: nat| 1 <= i <= k && p == #[trigger] f.backup_location(i);
                    assert(f.rotation_touches(k, p));
                }
            }
            assert(!f.rotation_touches((k - 1) as nat, p));
            assert(d.contains_key(p) == d1.contains_key(p));
            assert(d1.contains_key(p) == dir.contains_key(p));
            if dir.contains_key(p) {
                assert(d[p] == d1[p]);
                assert(d1[p] == dir[p]);
            }
        }
    }
}

/// Probing finds the end of the run of backups: where backup `1` is
/// missing it gives `None`, and where backups `1..=k` are there and `k + 1`
/// is not (below the probe limit) it gives `k`.
pub proof fn lemma_highest_count_exact(f: FileObj, listing: Seq<String>, k: nat, r: Result<Option<u32>, FileError>)
    requires
        f.highest_count_is(listing, r),
    ensures
        !f.backup_listed(listing, 1) ==> r == Ok::<Option<u32>, FileError>(None),
        1 <= k < MAX_BACKUP_INDEX && f.backups_listed_through(listing, k) && !f.backup_listed(
            listing,
            k + 1,
        ) ==> r == Ok::<Option<u32>, FileError>(Some(k as u32)),
{
    if !f.backup_listed(listing, 1) {
        match r {
            Ok(Some(j)) => { assert(f.backup_listed(listing, 1)); },
            Err(_) => { assert(f.backup_listed(listing, 1)); },
            Ok(None) => {},
        }
    }
    if 1 <= k < MAX_BACKUP_INDEX && f.backups_listed_through(listing, k) && !f.backup_listed(listing, k + 1) {
        match r {
            Ok(Some(j)) => {
                if (j as nat) < k {
                    assert(f.backup_listed(listing, j as nat + 1));
                } else if (j as nat) > k {
                    assert(f.backup_listed(listing, k + 1));
                }
            },
            Err(_) => { assert(f.backup_listed(listing, k + 1)); },
            Ok(None) => { assert(f.backup_listed(listing, 1)); },
        }
    }
}

/// The first rotation of a directory that holds only the base file leaves
/// exactly two files: backup `1` with what the base file held, and an empty
/// base file.
pub proof fn lemma_first_rotation(f: FileObj, dir: Directory)
    requires
        dir.dom() == set![f.location()],
    ensures
        apply_ops(dir, f.rotation_plan(0)) is Some,
        ({
            let d = apply_ops(dir, f.rotation_plan(0))->0;
            &&& d.dom() == set![f.location(), f.backup_location(1)]
            &&& d[f.backup_location(1)] == dir[f.location()]
            &&& d[f.location()] == Seq::<u8>::empty()
        }),
{
    lemma_rotation_shifts(f, dir, 0);
    let d = apply_ops(dir, f.rotation_plan(0))->0;
    assert forall|p: Seq<char>| d.dom().contains(p) <==> set![f.location(), f.backup_location(1)].contains(p) by {
        if p != f.location() && p != f.backup_location(1) {
            if f.rotation_touches(0, p) {
                let i = choose|i: nat| 1 <= i <= 1 && p == #[trigger] f.backup_location(i);
            }
            assert(d.contains_key(p) == dir.contains_key(p));
        }
    }
    assert(d.dom() =~= set![f.location(), f.backup_location(1)]);
}

/// A folder of files that a test sets up.
pub struct FolderOperator {
    pub files: Vec<FileObj>,
    pub folder: Option<String>,
}

/// Building a folder of files step by step.
pub trait FolderTrait: Sized {
    /// A folder is set.
    spec fn has_folder(&self) -> bool;

    /// No folder and no files yet.
    fn new() -> (r: Self)
        ensures
            !r.has_folder(),
    ;

    /// Sets the folder; it must be relative, starting with `./`.
    fn with_directory(self, dir: &str) -> (r: Self)
        requires
            dir@.len() >= 2,
            dir@[0] == '.',
            dir@[1] == '/',
        ensures
            r.has_folder(),
    ;

    /// Adds a file of the folder, given by a name with a stem and a suffix.
    fn add_file(self, file_name: &str) -> (r: Self)
        requires
            self.has_folder(),
            is_valid_location(file_name@),
        ensures
            r.has_folder(),
    ;
}

impl FolderTrait for FolderOperator {
    open spec fn has_folder(&self) -> bool {
        self.folder is Some
    }

    fn new() -> (r: FolderOperator)
        ensures
            r.files@.len() == 0,
            r.folder is None,
    {
        FolderOperator { files: Vec::new(), folder: None }
    }

    fn with_directory(self, dir: &str) -> (r: FolderOperator)
        ensures
            r.files@ == self.files@,
            r.folder is Some && r.folder->0@ == dir@,
    {
        FolderOperator { files: self.files, folder: Some(String::from_str(dir)) }
    }

    fn add_file(self, file_name: &str) -> (r: FolderOperator)
        ensures
            r.folder == self.folder,
            r.files@.len() == self.files@.len() + 1,
            r.files@.subrange(0, self.files@.len() as int) == self.files@,
            r.files@.last().parent@ == self.folder->0@,
            r.files@.last().file_name@ == stem_of(file_name@),
            r.files@.last().extension@ == suffix_of(file_name@),
    {
        let parsed = match FileObj::parse(file_name) {
            Ok(f) => f,
            Err(_) => {
                assert(false);
                FileObj { parent: String::new(), file_name: String::new(), extension: String::new() }
            },
        };
        let folder = match &self.folder {
            Some(d) => d.clone(),
            None => String::new(),
        };
        let file = FileObj { parent: folder, file_name: parsed.file_name, extension: parsed.extension };
        let mut files = self.files;
        files.push(file);
        FolderOperator { files, folder: self.folder }
    }
}

} // verus!
