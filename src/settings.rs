use vstd::prelude::*;
use vstd::string::*;
use crate::file::FileSize;
use crate::helpers::FileError;

verus! {

broadcast use vstd::string::group_string_axioms;

/// The members of a JSON object whose values are all unsigned integers that
/// fit in a `u64`, in the order of their keys; `None` for any other text.
pub uninterp spec fn json_u64_fields(text: Seq<char>) -> Option<Seq<(Seq<char>, u64)>>;

/// The members of an object, on views.
pub open spec fn fields_view(fields: Seq<(String, u64)>) -> Seq<(Seq<char>, u64)> {
    fields.map_values(|p: (String, u64)| (p.0@, p.1))
}

/// Relies on serde_json::from_str into a `BTreeMap<String, u64>`: the
/// members of a JSON object of unsigned integers, in the order of their keys.
#[verifier::external_body]
pub(crate) fn object_u64_fields(text: &str) -> (r: Option<Vec<(String, u64)>>)
    ensures
        match r {
            Some(v) => json_u64_fields(text@) == Some(fields_view(v@)),
            None => json_u64_fields(text@) is None,
        },
{
    match serde_json::from_str::<std::collections::BTreeMap<String, u64>>(text) {
        Ok(m) => Some(m.into_iter().collect()),
        Err(_) => None,
    }
}

/// The key of the sleep interval.
pub open spec fn sleep_key() -> Seq<char> {
    seq!['s', 'l', 'e', 'e', 'p', '_', 'c', 'o', 'u', 'n', 't', 'e', 'r']
}

/// The keys of a size: lowercase `mb`, `kb` and `bytes`.
pub open spec fn is_size_key(k: Seq<char>) -> bool {
    k == seq!['m', 'b'] || k == seq!['k', 'b'] || k == seq!['b', 'y', 't', 'e', 's']
}

/// The size that a size key and its magnitude give.
pub open spec fn size_of_field(k: Seq<char>, v: u64) -> FileSize {
    if k == seq!['m', 'b'] {
        FileSize::Mb(v)
    } else if k == seq!['k', 'b'] {
        FileSize::Kb(v)
    } else {
        FileSize::Bytes(v)
    }
}

/// A size alone: exactly one member, whose key is a size key.
pub open spec fn size_from_fields(fields: Seq<(Seq<char>, u64)>) -> Result<FileSize, FileError> {
    if fields.len() == 1 && is_size_key(fields[0].0) {
        Ok(size_of_field(fields[0].0, fields[0].1))
    } else {
        Err(FileError::FileSizeInvalid)
    }
}

/// Which key a member has, in exec code.
pub(crate) enum FieldKey {
    Sleep,
    Size,
    Unknown,
}

/// Classifies a key, and gives the size that it names with `v`.
pub(crate) fn classify(k: &String, v: u64) -> (r: (FieldKey, FileSize))
    ensures
        r.0 is Sleep <==> k@ == sleep_key(),
        r.0 is Size <==> is_size_key(k@),
        r.0 is Size ==> r.1 == size_of_field(k@, v),
{
    proof {
        reveal_strlit("mb");
        reveal_strlit("kb");
        reveal_strlit("bytes");
        reveal_strlit("sleep_counter");
        assert("mb"@ =~= seq!['m', 'b']);
        assert("kb"@ =~= seq!['k', 'b']);
        assert("bytes"@ =~= seq!['b', 'y', 't', 'e', 's']);
        assert("sleep_counter"@ =~= sleep_key());
    }
    if *k == String::from_str("sleep_counter") {
        (FieldKey::Sleep, FileSize::Bytes(v))
    } else if *k == String::from_str("mb") {
        (FieldKey::Size, FileSize::Mb(v))
    } else if *k == String::from_str("kb") {
        (FieldKey::Size, FileSize::Kb(v))
    } else if *k == String::from_str("bytes") {
        (FieldKey::Size, FileSize::Bytes(v))
    } else {
        (FieldKey::Unknown, FileSize::Bytes(v))
    }
}

impl FileSize {
    /// The size in a list of members: exactly one, with key `mb`, `kb` or
    /// `bytes` (lowercase); anything else is `FileSizeInvalid`.
    pub fn from_fields(fields: &Vec<(String, u64)>) -> (r: Result<FileSize, FileError>)
        ensures
            r == size_from_fields(fields_view(fields@)),
    {
        if fields.len() != 1 {
            return Err(FileError::FileSizeInvalid);
        }
        let (kind, size) = classify(&fields[0].0, fields[0].1);
        match kind {
            FieldKey::Size => Ok(size),
            _ => Err(FileError::FileSizeInvalid),
        }
    }

    /// The size in a JSON object such as `{"kb": 100}`.
    pub fn from_json(text: &str) -> (r: Result<FileSize, FileError>)
        ensures
            r == match json_u64_fields(text@) {
                Some(fields) => size_from_fields(fields),
                None => Err(FileError::FileSizeInvalid),
            },
    {
        match object_u64_fields(text) {
            Some(fields) => FileSize::from_fields(&fields),
            None => Err(FileError::FileSizeInvalid),
        }
    }
}

} // verus!
