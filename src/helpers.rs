use vstd::prelude::*;
use vstd::string::*;
use crate::files::FileTrait;

verus! {

broadcast use vstd::string::group_string_axioms;

/// The character of a decimal digit.
pub open spec fn digit_char(d: nat) -> char {
    if d == 0 { '0' }
    else if d == 1 { '1' }
    else if d == 2 { '2' }
    else if d == 3 { '3' }
    else if d == 4 { '4' }
    else if d == 5 { '5' }
    else if d == 6 { '6' }
    else if d == 7 { '7' }
    else if d == 8 { '8' }
    else { '9' }
}

/// The decimal text of a natural number, without leading zeros.
pub open spec fn decimal(n: nat) -> Seq<char>
    decreases n,
{
    if n < 10 {
        seq![digit_char(n)]
    } else {
        decimal(n / 10).push(digit_char(n % 10))
    }
}

/// Whether a character is an ASCII decimal digit.
pub open spec fn is_digit(c: char) -> bool {
    '0' <= c && c <= '9'
}

/// The index of the last occurrence of `c` in `s`, or -1.
pub open spec fn last_index_of(s: Seq<char>, c: char) -> int
    decreases s.len(),
{
    if s.len() == 0 {
        -1
    } else if s.last() == c {
        s.len() - 1
    } else {
        last_index_of(s.drop_last(), c)
    }
}

/// `a` then a separator then `b`.
pub open spec fn joined(a: Seq<char>, sep: char, b: Seq<char>) -> Seq<char> {
    a + seq![sep] + b
}

/// The file name `stem.suffix`.
pub open spec fn file_name_of(stem: Seq<char>, suffix: Seq<char>) -> Seq<char> {
    joined(stem, '.', suffix)
}

/// The file name of backup `n`: `stem.n.suffix`.
pub open spec fn backup_name_of(stem: Seq<char>, n: nat, suffix: Seq<char>) -> Seq<char> {
    joined(joined(stem, '.', decimal(n)), '.', suffix)
}

/// A file name placed in a directory: the name alone for the empty
/// directory, else `directory/name`.
pub open spec fn in_directory(directory: Seq<char>, name: Seq<char>) -> Seq<char> {
    if directory.len() == 0 {
        name
    } else {
        joined(directory, '/', name)
    }
}

/// A file name pushed onto a directory path: the name alone onto an empty
/// path, no second `/` after a path that ends in one.
pub open spec fn pushed_onto(directory: Seq<char>, name: Seq<char>) -> Seq<char> {
    if directory.len() == 0 {
        name
    } else if directory.last() == '/' {
        directory + name
    } else {
        joined(directory, '/', name)
    }
}

/// The directory part of a location: what precedes its last `/`; the root
/// `/` where that `/` comes first; the empty directory where there is none.
pub open spec fn directory_of(location: Seq<char>) -> Seq<char> {
    let t = trimmed(location);
    let i = last_index_of(t, '/');
    if i < 0 {
        seq![]
    } else if i == 0 {
        seq!['/']
    } else {
        t.subrange(0, i)
    }
}

/// A location without the `/` characters that end it.
pub open spec fn trimmed(location: Seq<char>) -> Seq<char>
    decreases location.len(),
{
    if location.len() > 0 && location.last() == '/' {
        trimmed(location.drop_last())
    } else {
        location
    }
}

/// The file name part of a location: what follows its last `/`, once the
/// `/` characters that end it are set aside.
pub open spec fn name_of(location: Seq<char>) -> Seq<char> {
    let t = trimmed(location);
    t.subrange(last_index_of(t, '/') + 1, t.len() as int)
}

/// A location names a file with a stem and a suffix: its file name is not
/// `..` and has a `.` that is not its first character.
pub open spec fn is_valid_location(location: Seq<char>) -> bool {
    &&& last_index_of(name_of(location), '.') > 0
    &&& name_of(location) != seq!['.', '.']
}

/// The stem of a valid location: its file name up to the last `.`.
pub open spec fn stem_of(location: Seq<char>) -> Seq<char> {
    let name = name_of(location);
    name.subrange(0, last_index_of(name, '.'))
}

/// The suffix of a valid location: its file name after the last `.`.
pub open spec fn suffix_of(location: Seq<char>) -> Seq<char> {
    let name = name_of(location);
    name.subrange(last_index_of(name, '.') + 1, name.len() as int)
}

/// Errors of the file operations.
#[derive(Debug, Clone, Copy, PartialEq, Eq, Structural)]
pub enum FileError {
    /// The file is not there.
    NotFound,
    /// A size specification that cannot be read.
    FileSizeInvalid,
    /// A location without a directory, a stem or a suffix.
    InvalidPath,
    /// More backups than the probe limit allows.
    TooManyBackups,
}

/// A file location split into directory, stem and suffix.
#[derive(Debug, Clone)]
pub struct FileObj {
    pub parent: String,
    pub file_name: String,
    pub extension: String,
}

/// The largest backup index that is ever probed.
pub const MAX_BACKUP_INDEX: u32 = 99_999;

impl FileObj {
    /// The location of the base file.
    pub open spec fn location(&self) -> Seq<char> {
        in_directory(self.parent@, file_name_of(self.file_name@, self.extension@))
    }

    /// The location of backup `n`.
    pub open spec fn backup_location(&self, n: nat) -> Seq<char> {
        in_directory(self.parent@, backup_name_of(self.file_name@, n, self.extension@))
    }

    /// The parts can be joined and read back: a stem that is not empty and
    /// holds no `/`, a suffix with neither `/` nor `.`, and not the file name
    /// `..`.
    pub open spec fn wf(&self) -> bool {
        &&& self.file_name@.len() > 0
        &&& file_name_of(self.file_name@, self.extension@) != seq!['.', '.']
        &&& !self.file_name@.contains('/')
        &&& !self.extension@.contains('/')
        &&& !self.extension@.contains('.')
    }

    /// The three parts are those read from `location`.
    pub open spec fn parsed_from(&self, location: Seq<char>) -> bool {
        &&& self.parent@ == directory_of(location)
        &&& self.file_name@ == stem_of(location)
        &&& self.extension@ == suffix_of(location)
    }

    /// The location of backup `number`: `parent/file_name.number.extension`,
    /// or without `parent/` where the parent is empty.
    pub fn incremented(&self, number: u32) -> (r: String)
        ensures
            r@ == self.backup_location(number as nat),
    {
        let name = backup_name(&self.file_name, number, &self.extension);
        place_in(&self.parent, name)
    }

    /// The path of the base file, with `file_name.extension` pushed onto the
    /// parent path.
    pub fn to_pathbuf(&self) -> (r: String)
        ensures
            r@ == pushed_onto(self.parent@, file_name_of(self.file_name@, self.extension@)),
    {
        let name = file_name(&self.file_name, &self.extension);
        let n = self.parent.as_str().unicode_len();
        if n == 0 {
            name
        } else if self.parent.as_str().get_char(n - 1) == '/' {
            let mut s = self.parent.clone();
            s.append(name.as_str());
            s
        } else {
            proof { reveal_strlit("/"); }
            join_with(&self.parent, "/", &name)
        }
    }

    /// The location of the base file: `parent/file_name.extension`, or
    /// without `parent/` where the parent is empty.
    pub fn to_string(&self) -> (r: String)
        ensures
            r@ == self.location(),
    {
        let name = file_name(&self.file_name, &self.extension);
        place_in(&self.parent, name)
    }
}

/// Appends a character that is given as a one-character literal.
fn push_literal(s: &mut String, lit: &str)
    requires
        lit@.len() == 1,
    ensures
        final(s)@ == old(s)@.push(lit@[0]),
{
    s.append(lit);
    assert(final(s)@ =~= old(s)@.push(lit@[0]));
}

/// The decimal text of `n`.
pub fn decimal_text(n: u32) -> (r: String)
    ensures
        r@ == decimal(n as nat),
    decreases n,
{
    let mut s = if n < 10 {
        String::new()
    } else {
        decimal_text(n / 10)
    };
    let d = n % 10;
    let lit = if d == 0 { "0" }
        else if d == 1 { "1" }
        else if d == 2 { "2" }
        else if d == 3 { "3" }
        else if d == 4 { "4" }
        else if d == 5 { "5" }
        else if d == 6 { "6" }
        else if d == 7 { "7" }
        else if d == 8 { "8" }
        else { "9" };
    proof {
        reveal_strlit("0"); reveal_strlit("1"); reveal_strlit("2"); reveal_strlit("3");
        reveal_strlit("4"); reveal_strlit("5"); reveal_strlit("6"); reveal_strlit("7");
        reveal_strlit("8"); reveal_strlit("9");
    }
    push_literal(&mut s, lit);
    assert(s@ =~= decimal(n as nat));
    s
}

/// `a`, `sep`, `b` as one string; `sep` is a one-character literal.
pub(crate) fn join_with(a: &String, sep: &str, b: &String) -> (r: String)
    requires
        sep@.len() == 1,
    ensures
        r@ == joined(a@, sep@[0], b@),
{
    let mut s = a.clone();
    push_literal(&mut s, sep);
    s.append(b.as_str());
    assert(s@ =~= joined(a@, sep@[0], b@));
    s
}

fn file_name(stem: &String, suffix: &String) -> (r: String)
    ensures
        r@ == file_name_of(stem@, suffix@),
{
    proof { reveal_strlit("."); }
    join_with(stem, ".", suffix)
}

pub(crate) fn backup_name(stem: &String, n: u32, suffix: &String) -> (r: String)
    ensures
        r@ == backup_name_of(stem@, n as nat, suffix@),
{
    proof { reveal_strlit("."); }
    let num = decimal_text(n);
    let first = join_with(stem, ".", &num);
    join_with(&first, ".", suffix)
}

fn place_in(directory: &String, name: String) -> (r: String)
    ensures
        r@ == in_directory(directory@, name@),
{
    if directory.as_str().unicode_len() == 0 {
        name
    } else {
        proof { reveal_strlit("/"); }
        join_with(directory, "/", &name)
    }
}

/// The index of the last occurrence of `c` in `s`.
fn last_index(s: &str, c: char) -> (r: Option<usize>)
    ensures
        r is None ==> last_index_of(s@, c) == -1,
        r is Some ==> last_index_of(s@, c) == r->0 as int,
        r is Some ==> r->0 < s@.len() && s@[r->0 as int] == c,
{
    let mut i: usize = s.unicode_len();
    assert(s@.subrange(0, i as int) =~= s@);
    while i > 0
        invariant
            i <= s@.len(),
            last_index_of(s@, c) == last_index_of(s@.subrange(0, i as int), c),
        decreases i,
    {
        assert(s@.subrange(0, i as int).drop_last() =~= s@.subrange(0, i - 1));
        if s.get_char(i - 1) == c {
            return Some(i - 1);
        }
        i = i - 1;
    }
    None
}

/// A character that does not occur in `b` is last found just before `b`.
pub proof fn lemma_last_index_before(a: Seq<char>, c: char, b: Seq<char>)
    requires
        !b.contains(c),
    ensures
        last_index_of(a + seq![c] + b, c) == a.len(),
    decreases b.len(),
{
    let s = a + seq![c] + b;
    if b.len() > 0 {
        assert(s.last() == b.last() && b.contains(b.last()) ==> b.last() != c);
        assert(b.contains(b.last()));
        assert(s.drop_last() =~= a + seq![c] + b.drop_last());
        assert forall|x: char| b.drop_last().contains(x) implies b.contains(x) by {
            let k = choose|k: int| 0 <= k < b.drop_last().len() && b.drop_last()[k] == x;
            assert(b[k] == x);
        }
        lemma_last_index_before(a, c, b.drop_last());
    } else {
        assert(s.last() == c);
    }
}

/// A character that does not occur in `s` has no last occurrence.
pub proof fn lemma_last_index_absent(s: Seq<char>, c: char)
    requires
        !s.contains(c),
    ensures
        last_index_of(s, c) == -1,
    decreases s.len(),
{
    if s.len() > 0 {
        assert(s.contains(s.last()));
        assert forall|x: char| s.drop_last().contains(x) implies s.contains(x) by {
            let k = choose|k: int| 0 <= k < s.drop_last().len() && s.drop_last()[k] == x;
            assert(s[k] == x);
        }
        lemma_last_index_absent(s.drop_last(), c);
    }
}

/// Every character of a decimal text is a digit.
pub proof fn lemma_decimal_digits(n: nat)
    ensures
        forall|k: int| 0 <= k < decimal(n).len() ==> is_digit(#[trigger] decimal(n)[k]),
        decimal(n).len() > 0,
    decreases n,
{
    if n >= 10 {
        lemma_decimal_digits(n / 10);
    }
}

/// Nothing after the last occurrence of `c` is `c`.
pub proof fn lemma_after_last_index(s: Seq<char>, c: char)
    ensures
        forall|k: int| last_index_of(s, c) < k < s.len() ==> s[k] != c,
        last_index_of(s, c) >= 0 ==> s[last_index_of(s, c)] == c,
        -1 <= last_index_of(s, c) < s.len(),
    decreases s.len(),
{
    if s.len() > 0 && s.last() != c {
        lemma_after_last_index(s.drop_last(), c);
        assert forall|k: int| last_index_of(s, c) < k < s.len() implies s[k] != c by {
            if k < s.len() - 1 {
                assert(s.drop_last()[k] == s[k]);
            }
        }
    }
}

/// The parts read from a valid location can be joined and read back.
pub proof fn lemma_parsed_wf(f: FileObj, location: Seq<char>)
    requires
        is_valid_location(location),
        f.parsed_from(location),
    ensures
        f.wf(),
{
    let name = name_of(location);
    let j = last_index_of(name, '.');
    lemma_after_last_index(trimmed(location), '/');
    lemma_after_last_index(name, '.');
    assert(name =~= file_name_of(f.file_name@, f.extension@));
    assert(!f.file_name@.contains('/')) by {
        if f.file_name@.contains('/') {
            let k = choose|k: int| 0 <= k < f.file_name@.len() && f.file_name@[k] == '/';
            assert(name[k] == '/');
        }
    }
    assert(!f.extension@.contains('/') && !f.extension@.contains('.')) by {
        if f.extension@.contains('/') {
            let k = choose|k: int| 0 <= k < f.extension@.len() && f.extension@[k] == '/';
            assert(name[j + 1 + k] == '/');
        }
        if f.extension@.contains('.') {
            let k = choose|k: int| 0 <= k < f.extension@.len() && f.extension@[k] == '.';
            assert(name[j + 1 + k] == '.');
        }
    }
}

impl FileObj {
    /// Reads the three parts of `location`, or fails with `InvalidPath`
    /// where its file name has no stem or no suffix.
    pub fn parse(location: &str) -> (r: Result<FileObj, FileError>)
        ensures
            r is Ok <==> is_valid_location(location@),
            r is Ok ==> r->Ok_0.parsed_from(location@) && r->Ok_0.wf(),
            r is Err ==> r->Err_0 == FileError::InvalidPath,
    {
        let t = trim_end_slashes(location);
        let n = t.unicode_len();
        let slash = last_index(t, '/');
        let parent: String;
        let start: usize;
        match slash {
            None => {
                parent = String::new();
                start = 0;
            },
            Some(i) => {
                if i == 0 {
                    parent = String::from_str(t.substring_char(0, 1));
                    assert(parent@ =~= seq!['/']);
                } else {
                    parent = String::from_str(t.substring_char(0, i));
                }
                start = i + 1;
            },
        }
        assert(parent@ =~= directory_of(location@));
        let name = t.substring_char(start, n);
        assert(name@ =~= name_of(location@));
        let name_len = name.unicode_len();
        match last_index(name, '.') {
            Some(j) => {
                if j == 0 {
                    return Err(FileError::InvalidPath);
                }
                if name_len == 2 && name.get_char(0) == '.' {
                    assert(name@ =~= seq!['.', '.']);
                    return Err(FileError::InvalidPath);
                }
                assert(name@ != seq!['.', '.']);
                let file_name = String::from_str(name.substring_char(0, j));
                let extension = String::from_str(name.substring_char(j + 1, name_len));
                let f = FileObj { parent, file_name, extension };
                proof { lemma_parsed_wf(f, location@); }
                Ok(f)
            },
            None => Err(FileError::InvalidPath),
        }
    }

    /// Splits a location into directory, stem and suffix; `InvalidPath`
    /// where its file name has no stem or no suffix.
    pub fn new(file_location: String) -> (r: Result<FileObj, FileError>)
        ensures
            r is Ok <==> is_valid_location(file_location@),
            r is Ok ==> r->Ok_0.parsed_from(file_location@) && r->Ok_0.wf(),
            r is Err ==> r->Err_0 == FileError::InvalidPath,
    {
        FileObj::parse(file_location.as_str())
    }
}

/// The location without the `/` characters that end it.
fn trim_end_slashes(location: &str) -> (r: &str)
    ensures
        r@ == trimmed(location@),
{
    let mut i: usize = location.unicode_len();
    assert(location@.subrange(0, i as int) =~= location@);
    while i > 0 && location.get_char(i - 1) == '/'
        invariant
            i <= location@.len(),
            trimmed(location@) == trimmed(location@.subrange(0, i as int)),
        decreases i,
    {
        assert(location@.subrange(0, i as int).drop_last() =~= location@.subrange(0, i - 1));
        i = i - 1;
    }
    location.substring_char(0, i)
}

/// Different numbers have different decimal texts.
pub proof fn lemma_decimal_injective(a: nat, b: nat)
    requires
        decimal(a) == decimal(b),
    ensures
        a == b,
    decreases a,
{
    if a >= 10 && b >= 10 {
        let da = decimal(a);
        assert(da.last() == digit_char(a % 10));
        assert(decimal(b).last() == digit_char(b % 10));
        assert(decimal(a / 10) =~= da.drop_last());
        assert(decimal(b / 10) =~= decimal(b).drop_last());
        lemma_decimal_injective(a / 10, b / 10);
        assert(a % 10 == b % 10);
    } else if a >= 10 {
        lemma_decimal_digits(a / 10);
        assert(decimal(a).len() == decimal(a / 10).len() + 1);
        assert(decimal(b).len() == 1);
    } else if b >= 10 {
        lemma_decimal_digits(b / 10);
        assert(decimal(b).len() == decimal(b / 10).len() + 1);
        assert(decimal(a).len() == 1);
    } else {
        assert(decimal(a)[0] == digit_char(a));
        assert(decimal(b)[0] == digit_char(b));
    }
}

/// The base location and the backup locations of one file are pairwise
/// different.
pub proof fn lemma_locations_distinct(f: FileObj, i: nat, j: nat)
    ensures
        f.location() != f.backup_location(i),
        i != j ==> f.backup_location(i) != f.backup_location(j),
{
    lemma_decimal_digits(i);
    lemma_decimal_digits(j);
    let d = f.parent@;
    let s = f.file_name@;
    let x = f.extension@;
    assert(f.location().len() < f.backup_location(i).len());
    if i != j && f.backup_location(i) == f.backup_location(j) {
        let bi = f.backup_location(i);
        let bj = f.backup_location(j);
        let off: int = if d.len() == 0 { 0 } else { d.len() as int + 1 };
        let di = decimal(i);
        let dj = decimal(j);
        assert(di.len() == dj.len());
        assert(di =~= bi.subrange(off + s.len() + 1, off + s.len() + 1 + di.len() as int));
        assert(dj =~= bj.subrange(off + s.len() + 1, off + s.len() + 1 + dj.len() as int));
        lemma_decimal_injective(i, j);
    }
}

/// A directory, a stem and a suffix make locations that read back as the
/// same three parts; a backup location reads back with `stem.n` as its stem.
/// Where the directory does not end in `/`, the path that `to_pathbuf`
/// builds is that same location.
pub proof fn lemma_location_round_trip(
    directory: Seq<char>,
    stem: Seq<char>,
    suffix: Seq<char>,
    n: nat,
)
    requires
        stem.len() > 0,
        !stem.contains('/'),
        !suffix.contains('/'),
        !suffix.contains('.'),
        file_name_of(stem, suffix) != seq!['.', '.'],
    ensures
        directory.len() == 0 || directory.last() != '/' ==> pushed_onto(
            directory,
            file_name_of(stem, suffix),
        ) == in_directory(directory, file_name_of(stem, suffix)),
        is_valid_location(in_directory(directory, file_name_of(stem, suffix))),
        directory_of(in_directory(directory, file_name_of(stem, suffix))) == directory,
        stem_of(in_directory(directory, file_name_of(stem, suffix))) == stem,
        suffix_of(in_directory(directory, file_name_of(stem, suffix))) == suffix,
        is_valid_location(in_directory(directory, backup_name_of(stem, n, suffix))),
        directory_of(in_directory(directory, backup_name_of(stem, n, suffix))) == directory,
        stem_of(in_directory(directory, backup_name_of(stem, n, suffix))) == joined(
            stem,
            '.',
            decimal(n),
        ),
        suffix_of(in_directory(directory, backup_name_of(stem, n, suffix))) == suffix,
{
    lemma_decimal_digits(n);
    let dn = decimal(n);
    assert(!dn.contains('/') && !dn.contains('.')) by {
        if dn.contains('/') {
            let k = choose|k: int| 0 <= k < dn.len() && dn[k] == '/';
            assert(is_digit(dn[k]));
        }
        if dn.contains('.') {
            let k = choose|k: int| 0 <= k < dn.len() && dn[k] == '.';
            assert(is_digit(dn[k]));
        }
    }
    let base = file_name_of(stem, suffix);
    let numbered = joined(stem, '.', dn);
    let backup = backup_name_of(stem, n, suffix);
    assert(!base.contains('/')) by {
        if base.contains('/') {
            let k = choose|k: int| 0 <= k < base.len() && base[k] == '/';
            if k < stem.len() {
                assert(stem[k] == '/');
            } else if k > stem.len() {
                assert(suffix[k - stem.len() - 1] == '/');
            }
        }
    }
    assert(!backup.contains('/')) by {
        if backup.contains('/') {
            let k = choose|k: int| 0 <= k < backup.len() && backup[k] == '/';
            if k < stem.len() {
                assert(stem[k] == '/');
            } else if stem.len() < k < numbered.len() {
                assert(dn[k - stem.len() - 1] == '/');
            } else if k > numbered.len() {
                assert(suffix[k - numbered.len() - 1] == '/');
            }
        }
    }
    lemma_last_index_before(stem, '.', suffix);
    lemma_last_index_before(numbered, '.', suffix);
    assert(base =~= stem + seq!['.'] + suffix);
    assert(backup =~= numbered + seq!['.'] + suffix);
    let names = seq![base, backup];
    assert forall|i: int| 0 <= i < 2 implies {
        let name = #[trigger] names[i];
        let loc = in_directory(directory, name);
        &&& directory_of(loc) == directory
        &&& name_of(loc) == name
    } by {
        let name = names[i];
        let loc = in_directory(directory, name);
        assert(!name.contains('/'));
        assert(name.len() > 0);
        assert(name[name.len() - 1] != '/');
        assert(loc.len() > 0 && loc.last() == name.last());
        assert(trimmed(loc) == loc);
        if directory.len() == 0 {
            lemma_last_index_absent(name, '/');
            assert(loc.subrange(0, loc.len() as int) =~= name);
        } else {
            lemma_last_index_before(directory, '/', name);
            assert(loc =~= directory + seq!['/'] + name);
            assert(loc.subrange(0, directory.len() as int) =~= directory);
            assert(loc.subrange(directory.len() as int + 1, loc.len() as int) =~= name);
        }
    }
    assert(names[0] == base);
    assert(names[1] == backup);
    assert(backup.len() > 2);
    assert(base.subrange(0, stem.len() as int) =~= stem);
    assert(base.subrange(stem.len() as int + 1, base.len() as int) =~= suffix);
    assert(backup.subrange(0, numbered.len() as int) =~= numbered);
    assert(backup.subrange(numbered.len() as int + 1, backup.len() as int) =~= suffix);
}

/// The parts read from a valid location rejoin, by `to_pathbuf`, to that
/// location, where it does not end in `/` and has no doubled `/` before its
/// file name.
pub proof fn lemma_location_rejoins(location: Seq<char>)
    requires
        is_valid_location(location),
        location.len() > 0,
        location.last() != '/',
        ({
            let i = last_index_of(location, '/');
            i <= 0 || location[i - 1] != '/'
        }),
    ensures
        pushed_onto(
            directory_of(location),
            file_name_of(stem_of(location), suffix_of(location)),
        ) == location,
{
    assert(trimmed(location) == location);
    let i = last_index_of(location, '/');
    let name = name_of(location);
    let j = last_index_of(name, '.');
    lemma_after_last_index(location, '/');
    lemma_after_last_index(name, '.');
    assert(file_name_of(stem_of(location), suffix_of(location)) =~= name);
    let d = directory_of(location);
    if i < 0 {
        assert(location.subrange(0, location.len() as int) =~= location);
    } else if i == 0 {
        assert(d =~= seq!['/']);
        assert(d + name =~= location);
    } else {
        assert(d.last() == location[i - 1]);
        assert(d + seq!['/'] + name =~= location);
    }
}

/// A list of file locations that a test creates and removes.
pub struct TestFile {
    pub files: Vec<String>,
}

impl TestFile {
    /// The first location, split into its parts.
    pub fn get_path(&self) -> (r: Result<FileObj, FileError>)
        requires
            self.files@.len() > 0,
        ensures
            r is Ok <==> is_valid_location(self.files@[0]@),
            r is Ok ==> r->Ok_0.parsed_from(self.files@[0]@),
            r is Err ==> r->Err_0 == FileError::InvalidPath,
    {
        FileObj::new(self.files[0].clone())
    }
}

/// The first backup index of `file_location` that is not among the file
/// names of its directory; `TooManyBackups` where every backup up to the
/// probe limit is there.
pub fn get_highest_file(file_location: FileObj, names: &Vec<String>) -> (r: Result<u32, FileError>)
    ensures
        match r {
            Ok(c) => {
                &&& 1 <= c <= MAX_BACKUP_INDEX
                &&& file_location.backups_listed_through(names@, (c - 1) as nat)
                &&& !file_location.backup_listed(names@, c as nat)
            },
            Err(e) => {
                &&& e == FileError::TooManyBackups
                &&& file_location.backups_listed_through(names@, MAX_BACKUP_INDEX as nat)
            },
        },
{
    match file_location.get_highest_count(names) {
        Ok(None) => Ok(1),
        Ok(Some(k)) => Ok(k + 1),
        Err(e) => Err(e),
    }
}

} // verus!
