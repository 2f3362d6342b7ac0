use vstd::prelude::*;
use crate::file::FileSize;
use crate::helpers::{FileError, FileObj};
use crate::settings::{
    fields_view, is_size_key, json_u64_fields, size_of_field, sleep_key, FieldKey,
};

verus! {

/// The two files that the watcher follows.
pub struct FileSetting {
    pub settings_path: FileObj,
    pub log_path: FileObj,
}

/// The parameters that can be reloaded while running: how many seconds the
/// timer waits before a forced rotation, and the size that triggers one.
#[derive(Debug, Clone, Copy, PartialEq, Eq, Structural)]
pub struct Settings {
    pub sleep_counter: u64,
    pub file_size: FileSize,
}

/// The sleep interval and the size read from the members so far; `None`
/// once a key is unknown or given twice, or a second size key appears.
pub open spec fn settings_fold(fields: Seq<(Seq<char>, u64)>) -> Option<(Option<u64>, Option<FileSize>)>
    decreases fields.len(),
{
    if fields.len() == 0 {
        Some((None, None))
    } else {
        match settings_fold(fields.drop_last()) {
            None => None,
            Some((sleep, size)) => {
                let (k, v) = fields.last();
                if k == sleep_key() {
                    if sleep is Some { None } else { Some((Some(v), size)) }
                } else if is_size_key(k) {
                    if size is Some { None } else { Some((sleep, Some(size_of_field(k, v)))) }
                } else {
                    None
                }
            },
        }
    }
}

/// The settings that a list of members gives: `sleep_counter` and at most
/// one of `mb`, `kb`, `bytes`, each at most once, no other key; a member
/// that is missing takes its value from `defaults`; the size must fit in a
/// `u64` as bytes.
pub open spec fn settings_from_fields(fields: Seq<(Seq<char>, u64)>, defaults: Settings) -> Result<Settings, FileError> {
    match settings_fold(fields) {
        None => Err(FileError::FileSizeInvalid),
        Some((sleep, size)) => {
            let s = Settings {
                sleep_counter: match sleep {
                    Some(v) => v,
                    None => defaults.sleep_counter,
                },
                file_size: match size {
                    Some(v) => v,
                    None => defaults.file_size,
                },
            };
            if s.file_size.fits() {
                Ok(s)
            } else {
                Err(FileError::FileSizeInvalid)
            }
        },
    }
}

impl Settings {
    /// The size threshold can be counted in bytes.
    pub open spec fn wf(&self) -> bool {
        self.file_size.fits()
    }

    /// The size threshold in bytes.
    pub fn threshold(&self) -> (r: u64)
        requires
            self.wf(),
        ensures
            r == self.file_size.byte_count(),
    {
        self.file_size.bytes()
    }

    /// The settings in a list of members; see `settings_from_fields`.
    pub fn from_fields(fields: &Vec<(String, u64)>, defaults: Settings) -> (r: Result<Settings, FileError>)
        ensures
            r == settings_from_fields(fields_view(fields@), defaults),
            r is Ok ==> r->Ok_0.wf(),
    {
        let mut sleep: Option<u64> = None;
        let mut size: Option<FileSize> = None;
        let mut i: usize = 0;
        while i < fields.len()
            invariant
                i <= fields@.len(),
                settings_fold(fields_view(fields@).subrange(0, i as int)) == Some((sleep, size)),
            decreases fields@.len() - i,
        {
            let ghost prefix = fields_view(fields@).subrange(0, i + 1);
            assert(prefix.drop_last() =~= fields_view(fields@).subrange(0, i as int));
            assert(prefix.last() == (fields@[i as int].0@, fields@[i as int].1));
            let (kind, s) = crate::settings::classify(&fields[i].0, fields[i].1);
            match kind {
                FieldKey::Sleep => {
                    if sleep.is_some() {
                        proof { lemma_fold_fails_after(fields_view(fields@), i as int + 1); }
                        return Err(FileError::FileSizeInvalid);
                    }
                    sleep = Some(fields[i].1);
                },
                FieldKey::Size => {
                    if size.is_some() {
                        proof { lemma_fold_fails_after(fields_view(fields@), i as int + 1); }
                        return Err(FileError::FileSizeInvalid);
                    }
                    size = Some(s);
                },
                FieldKey::Unknown => {
                    proof { lemma_fold_fails_after(fields_view(fields@), i as int + 1); }
                    return Err(FileError::FileSizeInvalid);
                },
            }
            i = i + 1;
        }
        assert(fields_view(fields@).subrange(0, fields@.len() as int) =~= fields_view(fields@));
        let result = Settings {
            sleep_counter: match sleep {
                Some(v) => v,
                None => defaults.sleep_counter,
            },
            file_size: match size {
                Some(v) => v,
                None => defaults.file_size,
            },
        };
        if fits_as_bytes(result.file_size) {
            Ok(result)
        } else {
            Err(FileError::FileSizeInvalid)
        }
    }

    /// The settings in a JSON object such as `{"sleep_counter": 2, "mb": 1}`.
    pub fn from_json(text: &str, defaults: Settings) -> (r: Result<Settings, FileError>)
        ensures
            r == match json_u64_fields(text@) {
                Some(fields) => settings_from_fields(fields, defaults),
                None => Err(FileError::FileSizeInvalid),
            },
            r is Ok ==> r->Ok_0.wf(),
    {
        match crate::settings::object_u64_fields(text) {
            Some(fields) => Settings::from_fields(&fields, defaults),
            None => Err(FileError::FileSizeInvalid),
        }
    }
}

/// Once the fold fails on a prefix, it fails on every longer prefix.
proof fn lemma_fold_fails_after(fields: Seq<(Seq<char>, u64)>, i: int)
    requires
        0 <= i <= fields.len(),
        settings_fold(fields.subrange(0, i)) is None,
    ensures
        settings_fold(fields) is None,
    decreases fields.len() - i,
{
    if i < fields.len() {
        assert(fields.subrange(0, i + 1).drop_last() =~= fields.subrange(0, i));
        lemma_fold_fails_after(fields, i + 1);
    } else {
        assert(fields.subrange(0, i) =~= fields);
    }
}

/// Whether a size counts in bytes within a `u64`.
pub(crate) fn fits_as_bytes(size: FileSize) -> (r: bool)
    ensures
        r == size.fits(),
{
    match size {
        FileSize::Mb(x) => x <= u64::MAX / 1_000_000,
        FileSize::Kb(x) => x <= u64::MAX / 1000,
        FileSize::Bytes(_) => true,
    }
}

} // verus!
