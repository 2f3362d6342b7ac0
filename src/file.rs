use vstd::prelude::*;
use vstd::string::*;
use crate::files::{ops_view, FileOp, FileTrait};
use crate::helpers::{
    decimal, is_valid_location, joined, lemma_location_round_trip, FileError, FileObj,
    MAX_BACKUP_INDEX,
};

verus! {

broadcast use vstd::string::group_string_axioms;

/// A size threshold as a magnitude and a unit.
#[derive(Debug, Clone, Copy, PartialEq, Eq, Structural)]
pub enum FileSize {
    Mb(u64),
    Kb(u64),
    Bytes(u64),
}

/// Bytes in a kilobyte; a megabyte is a thousand of them.
pub const BYTES: u64 = 1000;

impl FileSize {
    /// The number of bytes, counted in decimal units.
    pub open spec fn byte_count(&self) -> int {
        match self {
            FileSize::Mb(x) => x * 1_000_000,
            FileSize::Kb(x) => x * 1000,
            FileSize::Bytes(x) => *x as int,
        }
    }

    /// The number of bytes fits in a `u64`.
    pub open spec fn fits(&self) -> bool {
        self.byte_count() <= u64::MAX
    }

    /// The number of bytes: a megabyte is 1,000,000 bytes, a kilobyte 1,000.
    pub fn bytes(&self) -> (r: u64)
        requires
            self.fits(),
        ensures
            r == self.byte_count(),
    {
        match self {
            FileSize::Mb(x) => {
                let per_mb: u64 = BYTES * BYTES;
                assert(per_mb == 1_000_000);
                assert(per_mb * *x == *x * 1_000_000) by (nonlinear_arith)
                    requires
                        per_mb == 1_000_000;
                per_mb * *x
            },
            FileSize::Kb(x) => BYTES * *x,
            FileSize::Bytes(x) => *x,
        }
    }
}

impl FileSize {
    /// The number of bytes, or `None` where it does not fit in a `u64`.
    pub fn checked_bytes(&self) -> (r: Option<u64>)
        ensures
            r == (if self.fits() { Some(self.byte_count() as u64) } else { None::<u64> }),
    {
        if crate::models::fits_as_bytes(*self) {
            Some(self.bytes())
        } else {
            None
        }
    }
}

/// The value of a text of decimal digits.
pub open spec fn digits_value(s: Seq<char>) -> nat
    decreases s.len(),
{
    if s.len() == 0 {
        0
    } else {
        digits_value(s.drop_last()) * 10 + (s.last() as nat - '0' as nat) as nat
    }
}

/// Every character is an ASCII decimal digit.
pub open spec fn all_digits(s: Seq<char>) -> bool {
    forall|k: int| 0 <= k < s.len() ==> crate::helpers::is_digit(#[trigger] s[k])
}

/// The number that a text of decimal digits spells, where it fits in a `u64`.
pub open spec fn decimal_value(s: Seq<char>) -> Option<u64> {
    if s.len() > 0 && all_digits(s) && digits_value(s) <= u64::MAX {
        Some(digits_value(s) as u64)
    } else {
        None
    }
}

/// Whether a character is an uppercase ASCII letter.
pub open spec fn is_upper(c: char) -> bool {
    'A' <= c && c <= 'Z'
}

/// Whether a text holds an uppercase ASCII letter.
pub open spec fn has_upper(s: Seq<char>) -> bool {
    exists|k: int| 0 <= k < s.len() && is_upper(#[trigger] s[k])
}

/// The size that a magnitude text and a unit tag give: `mb`, `kb`, and
/// bytes for any other lowercase tag. Unit tags are case-sensitive: a tag
/// with an uppercase letter is not read.
pub open spec fn size_from_parts(number: Seq<char>, unit: Seq<char>) -> Option<FileSize> {
    if has_upper(unit) {
        None
    } else {
        match decimal_value(number) {
        Some(v) => Some(
            if unit == seq!['m', 'b'] {
                FileSize::Mb(v)
            } else if unit == seq!['k', 'b'] {
                FileSize::Kb(v)
            } else {
                FileSize::Bytes(v)
            },
        ),
        None => None,
        }
    }
}

/// Whether `s` holds an uppercase ASCII letter.
fn holds_upper(s: &str) -> (r: bool)
    ensures
        r == has_upper(s@),
{
    let n = s.unicode_len();
    let mut i: usize = 0;
    while i < n
        invariant
            n == s@.len(),
            i <= n,
            forall|k: int| 0 <= k < i ==> !is_upper(#[trigger] s@[k]),
        decreases n - i,
    {
        let c = s.get_char(i);
        if 'A' <= c && c <= 'Z' {
            assert(is_upper(s@[i as int]));
            return true;
        }
        i = i + 1;
    }
    false
}

/// The decimal text of a number spells that number.
pub proof fn lemma_decimal_value(n: nat)
    ensures
        all_digits(decimal(n)),
        digits_value(decimal(n)) == n,
    decreases n,
{
    crate::helpers::lemma_decimal_digits(n);
    let d = if n < 10 { n } else { n % 10 };
    assert(crate::helpers::digit_char(d) as nat - '0' as nat == d);
    assert(decimal(n).last() == crate::helpers::digit_char(d));
    if n >= 10 {
        lemma_decimal_value(n / 10);
        assert(decimal(n).drop_last() =~= decimal(n / 10));
        assert(n == (n / 10) * 10 + n % 10);
    } else {
        assert(decimal(n).drop_last() =~= Seq::<char>::empty());
        assert(digits_value(Seq::<char>::empty()) == 0);
    }
}

/// A longer text of digits has at least the value of its prefix.
proof fn lemma_digits_value_grows(s: Seq<char>, i: int)
    requires
        0 <= i <= s.len(),
        all_digits(s),
    ensures
        digits_value(s.subrange(0, i)) <= digits_value(s),
    decreases s.len() - i,
{
    if i < s.len() {
        lemma_digits_value_grows(s, i + 1);
        let p = s.subrange(0, i + 1);
        assert(p.drop_last() =~= s.subrange(0, i));
        assert(crate::helpers::is_digit(s[i]));
    } else {
        assert(s.subrange(0, i) =~= s);
    }
}

/// Reads a text of decimal digits into a `u64`.
pub fn parse_decimal(s: &str) -> (r: Option<u64>)
    ensures
        r == decimal_value(s@),
{
    let n = s.unicode_len();
    if n == 0 {
        return None;
    }
    let mut v: u64 = 0;
    let mut i: usize = 0;
    while i < n
        invariant
            n == s@.len(),
            i <= n,
            all_digits(s@.subrange(0, i as int)),
            v == digits_value(s@.subrange(0, i as int)),
        decreases n - i,
    {
        let c = s.get_char(i);
        if !('0' <= c && c <= '9') {
            assert(!all_digits(s@));
            return None;
        }
        let d = (c as u32 - '0' as u32) as u64;
        let ghost next = s@.subrange(0, i + 1);
        assert(next.drop_last() =~= s@.subrange(0, i as int));
        assert(all_digits(next));
        if v > (u64::MAX - d) / 10 {
            proof {
                assert(digits_value(next) > u64::MAX) by (nonlinear_arith)
                    requires
                        digits_value(next) == v * 10 + d,
                        v > (u64::MAX - d) / 10,
                        d <= 9;
            }
            proof {
                if all_digits(s@) {
                    lemma_digits_value_grows(s@, i + 1);
                }
            }
            return None;
        }
        proof {
            assert(v * 10 + d <= u64::MAX) by (nonlinear_arith)
                requires
                    v <= (u64::MAX - d) / 10,
                    d <= 9;
        }
        v = v * 10 + d;
        i = i + 1;
    }
    assert(s@.subrange(0, n as int) =~= s@);
    Some(v)
}

/// The pattern of a size text: digits followed by a two-letter unit.
pub const SIZE_PATTERN: &'static str = "(?P<number>\\d+)(?P<_type>[A-Za-z]{2})";

/// What the named groups `first` and `second` of the leftmost match of
/// `pattern` in `text` hold.
pub uninterp spec fn regex_named_pair(
    pattern: Seq<char>,
    first: Seq<char>,
    second: Seq<char>,
    text: Seq<char>,
) -> Option<(Seq<char>, Seq<char>)>;

/// Relies on regex::Regex::new, Regex::captures and Captures::name: the text
/// of two named groups of the leftmost match, `None` where the pattern does
/// not compile, nothing matches or a group took no part in the match.
#[verifier::external_body]
fn named_pair(pattern: &str, first: &str, second: &str, text: &str) -> (r: Option<(String, String)>)
    ensures
        match r {
            Some(p) => regex_named_pair(pattern@, first@, second@, text@) == Some((p.0@, p.1@)),
            None => regex_named_pair(pattern@, first@, second@, text@) is None,
        },
{
    let re = regex::Regex::new(pattern).ok()?;
    let caps = re.captures(text)?;
    let a = caps.name(first)?.as_str().to_string();
    let b = caps.name(second)?.as_str().to_string();
    Some((a, b))
}

impl FileSize {
    /// The size that a magnitude text and a unit tag give.
    pub fn from_parts(number: &str, unit: &str) -> (r: Option<FileSize>)
        ensures
            r == size_from_parts(number@, unit@),
    {
        proof {
            reveal_strlit("mb");
            reveal_strlit("kb");
            assert("mb"@ =~= seq!['m', 'b']);
            assert("kb"@ =~= seq!['k', 'b']);
        }
        if holds_upper(unit) {
            return None;
        }
        match parse_decimal(number) {
            None => None,
            Some(v) => {
                let u = String::from_str(unit);
                if u == String::from_str("mb") {
                    Some(FileSize::Mb(v))
                } else if u == String::from_str("kb") {
                    Some(FileSize::Kb(v))
                } else {
                    Some(FileSize::Bytes(v))
                }
            },
        }
    }

    /// The size written in `text` as digits and a two-letter unit (`1mb`,
    /// `512kb`), found where it first occurs in the text.
    pub fn from_size_text(text: &str) -> (r: Option<FileSize>)
        ensures
            r == match regex_named_pair(SIZE_PATTERN@, "number"@, "_type"@, text@) {
                Some(p) => size_from_parts(p.0, p.1),
                None => None,
            },
    {
        match named_pair(SIZE_PATTERN, "number", "_type", text) {
            Some((number, unit)) => FileSize::from_parts(number.as_str(), unit.as_str()),
            None => None,
        }
    }
}

/// The backups `top_number` down to `1` of a file, highest first.
pub fn rotate_files(file_location: FileObj, top_number: u32) -> (r: Vec<FileObj>)
    requires
        file_location.wf(),
    ensures
        r@.len() == top_number,
        forall|t: int|
            0 <= t < top_number ==> {
                &&& (#[trigger] r@[t]).parent@ == file_location.parent@
                &&& r@[t].file_name@ == joined(
                    file_location.file_name@,
                    '.',
                    decimal((top_number - t) as nat),
                )
                &&& r@[t].extension@ == file_location.extension@
            },
{
    let mut files: Vec<FileObj> = Vec::new();
    let mut i: u32 = top_number;
    while i > 0
        invariant
            i <= top_number,
            file_location.wf(),
            files@.len() == top_number - i,
            forall|t: int|
                0 <= t < top_number - i ==> {
                    &&& (#[trigger] files@[t]).parent@ == file_location.parent@
                    &&& files@[t].file_name@ == joined(
                        file_location.file_name@,
                        '.',
                        decimal((top_number - t) as nat),
                    )
                    &&& files@[t].extension@ == file_location.extension@
                },
        decreases i,
    {
        let file_name = file_location.incremented(i);
        proof {
            lemma_location_round_trip(
                file_location.parent@,
                file_location.file_name@,
                file_location.extension@,
                i as nat,
            );
        }
        match FileObj::new(file_name) {
            Ok(f) => files.push(f),
            Err(_) => {
                assert(false);
            },
        }
        i = i - 1;
    }
    files
}

/// The rotation of the file at `file_location`, given the file names of
/// its directory: the steps that shift every backup up by one, from the
/// highest present down to `1`, move the file to backup `1` and create it
/// again empty.
pub fn rotate_file(file_location: String, names: &Vec<String>) -> (r: Result<Vec<FileOp>, FileError>)
    ensures
        !is_valid_location(file_location@) ==> r == Err::<Vec<FileOp>, FileError>(
            FileError::InvalidPath,
        ),
        is_valid_location(file_location@) ==> exists|f: FileObj, h: Result<Option<u32>, FileError>|
            {
                &&& f.parsed_from(file_location@)
                &&& #[trigger] f.highest_count_is(names@, h)
                &&& match h {
                    Err(e) => r == Err::<Vec<FileOp>, FileError>(e),
                    Ok(top) => r is Ok && ops_view(r->Ok_0@) == f.rotation_plan(
                        match top {
                            Some(k) => k as nat,
                            None => 0,
                        },
                    ),
                }
            },
{
    let f = match FileObj::parse(file_location.as_str()) {
        Ok(f) => f,
        Err(e) => return Err(e),
    };
    let top = match f.get_highest_count(names) {
        Ok(top) => top,
        Err(e) => return Err(e),
    };
    Ok(f.rotate(top))
}

} // verus!
