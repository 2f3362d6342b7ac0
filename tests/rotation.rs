use std::collections::BTreeMap;

use irotate::file::{rotate_file, FileSize};
use irotate::files::{FileOp, FileTrait};
use irotate::helpers::{FileError, FileObj};

/// Applies rotation steps to an in-memory directory of location -> content.
fn apply(dir: &mut BTreeMap<String, Vec<u8>>, ops: &[FileOp]) {
    for op in ops {
        match op {
            FileOp::Rename { from, to } => {
                let content = dir.remove(from).expect("rename source exists");
                dir.insert(to.clone(), content);
            }
            FileOp::Create { path } => {
                dir.insert(path.clone(), Vec::new());
            }
        }
    }
}

fn names_in(dir: &BTreeMap<String, Vec<u8>>, folder: &str) -> Vec<String> {
    dir.keys()
        .map(|k| k.strip_prefix(&format!("{}/", folder)).unwrap().to_string())
        .collect()
}

#[test]
fn test_highest_file_number() {
    let route_file = FileObj::new("./exo_folder/file.txt".to_string()).unwrap();
    let names = vec!["file.txt".to_string()];
    assert_eq!(route_file.get_highest_count(&names), Ok(None));

    let names = vec!["file.txt".to_string(), "file.1.txt".to_string()];
    assert_eq!(route_file.get_highest_count(&names), Ok(Some(1)));
}

#[test]
fn highest_count_stops_at_first_gap() {
    let f = FileObj::new("./logs/app.log".to_string()).unwrap();
    let names: Vec<String> = ["app.log", "app.1.log", "app.2.log", "app.4.log", "other.3.log"]
        .iter()
        .map(|s| s.to_string())
        .collect();
    assert_eq!(f.get_highest_count(&names), Ok(Some(2)));
    let no_first: Vec<String> = vec!["app.log".to_string(), "app.2.log".to_string()];
    assert_eq!(f.get_highest_count(&no_first), Ok(None));
    let padded: Vec<String> = vec!["app.01.log".to_string()];
    assert_eq!(f.get_highest_count(&padded), Ok(None));
}

#[test]
fn test_move_and_rotate() {
    let mut dir: BTreeMap<String, Vec<u8>> = BTreeMap::new();
    dir.insert("./exo_folder2/file.txt".to_string(), b"base".to_vec());
    dir.insert("./exo_folder2/file.1.txt".to_string(), b"one".to_vec());

    let file = FileObj::new("./exo_folder2/file.txt".to_string()).unwrap();
    let count = file.get_highest_count(&names_in(&dir, "./exo_folder2")).unwrap();
    assert_eq!(count, Some(1));

    let ops = file.rotate(count);
    apply(&mut dir, &ops);
    assert!(dir.contains_key("./exo_folder2/file.2.txt"));
    assert!(dir.contains_key("./exo_folder2/file.1.txt"));
    assert!(dir.contains_key("./exo_folder2/file.txt"));
    assert_eq!(dir["./exo_folder2/file.2.txt"], b"one".to_vec());
    assert_eq!(dir["./exo_folder2/file.1.txt"], b"base".to_vec());
    assert!(dir["./exo_folder2/file.txt"].is_empty());
}

#[test]
fn test_no_file_rotated() {
    let mut dir: BTreeMap<String, Vec<u8>> = BTreeMap::new();
    dir.insert("./no_rotation_fol/root.json".to_string(), b"{}".to_vec());
    let file_obj = FileObj::new("./no_rotation_fol/root.json".to_string()).unwrap();
    let count = file_obj.get_highest_count(&names_in(&dir, "./no_rotation_fol")).unwrap();
    assert_eq!(count, None);

    apply(&mut dir, &file_obj.rotate(count));
    assert!(dir.contains_key("./no_rotation_fol/root.1.json"));
    assert_eq!(dir.len(), 2);
    assert_eq!(dir["./no_rotation_fol/root.1.json"], b"{}".to_vec());
    assert!(dir["./no_rotation_fol/root.json"].is_empty());
}

#[test]
fn rotation_plan_runs_highest_first() {
    let f = FileObj::new("logs/a.txt".to_string()).unwrap();
    let ops = f.rotate(Some(3));
    let expected = vec![
        ("logs/a.3.txt", "logs/a.4.txt"),
        ("logs/a.2.txt", "logs/a.3.txt"),
        ("logs/a.1.txt", "logs/a.2.txt"),
        ("logs/a.txt", "logs/a.1.txt"),
    ];
    assert_eq!(ops.len(), 5);
    for (op, (from_e, to_e)) in ops.iter().zip(expected.iter()) {
        match op {
            FileOp::Rename { from, to } => {
                assert_eq!(from, from_e);
                assert_eq!(to, to_e);
            }
            FileOp::Create { .. } => panic!("create before the renames end"),
        }
    }
    match &ops[4] {
        FileOp::Create { path } => assert_eq!(path, "logs/a.txt"),
        FileOp::Rename { .. } => panic!("last step is the create"),
    }
}

#[test]
fn rotation_keeps_contiguous_backups() {
    let mut dir: BTreeMap<String, Vec<u8>> = BTreeMap::new();
    dir.insert("d/x.log".to_string(), b"current".to_vec());
    for i in 1..=4u32 {
        dir.insert(format!("d/x.{}.log", i), format!("old{}", i).into_bytes());
    }
    let names = names_in(&dir, "d");
    let ops = rotate_file("d/x.log".to_string(), &names).unwrap();
    apply(&mut dir, &ops);
    assert_eq!(dir.len(), 6);
    assert!(dir["d/x.log"].is_empty());
    assert_eq!(dir["d/x.1.log"], b"current".to_vec());
    for i in 2..=5u32 {
        assert_eq!(dir[&format!("d/x.{}.log", i)], format!("old{}", i - 1).into_bytes());
    }
}

#[test]
fn rotate_file_rejects_invalid_location() {
    assert_eq!(rotate_file("d/noext".to_string(), &Vec::new()).unwrap_err(), FileError::InvalidPath);
}

#[test]
fn size_check_then_rotation_scenario() {
    let mut dir: BTreeMap<String, Vec<u8>> = BTreeMap::new();
    let content = b"0123456789abcdefghij".to_vec();
    assert_eq!(content.len(), 20);
    dir.insert("./a.txt".to_string(), content.clone());
    let f = FileObj::new("./a.txt".to_string()).unwrap();
    assert!(f.is_bigger_than(20, FileSize::Bytes(10)));
    let names: Vec<String> = vec!["a.txt".to_string()];
    let ops = rotate_file("./a.txt".to_string(), &names).unwrap();
    apply(&mut dir, &ops);
    assert_eq!(dir["./a.1.txt"], content);
    assert_eq!(dir["./a.txt"].len(), 0);
    assert_eq!(dir.len(), 2);
}

#[test]
fn size_check_compares_in_decimal_units() {
    let f = FileObj::new("./test_size/exo.json".to_string()).unwrap();
    assert!(f.is_bigger_than(2000, FileSize::Kb(2)));
    assert!(!f.is_bigger_than(1999, FileSize::Kb(2)));
    assert!(f.is_bigger_than(2_000_000, FileSize::Mb(2)));
    assert!(!f.is_bigger_than(1_999_999, FileSize::Mb(2)));
}

#[test]
fn highest_count_reports_probe_limit() {
    let f = FileObj::new("a.log".to_string()).unwrap();
    let mut names: Vec<String> = (1..=99_999u32).map(|i| format!("a.{}.log", i)).collect();
    assert_eq!(f.get_highest_count(&names), Err(FileError::TooManyBackups));
    names.pop();
    assert_eq!(f.get_highest_count(&names), Ok(Some(99_998)));
}

#[test]
fn test_file_size() {
    let file = FileObj::new("./test_size/exo.json".to_string()).unwrap();

    let mut data = r#"{"hello": "world"}\n"#.repeat(100);
    let mut size = FileSize::Kb(2);
    assert_eq!(file.is_bigger_than(data.len() as u64, size), true);

    data = r#"{"hello": "world"}\n"#.repeat(100_000);
    size = FileSize::Mb(2);
    assert_eq!(file.is_bigger_than(data.len() as u64, size), true);
}
