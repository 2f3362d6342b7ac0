use irotate::file::rotate_files;
use irotate::files::{FolderOperator, FolderTrait};
use irotate::helpers::{decimal_text, get_highest_file, FileError, FileObj, TestFile};

#[test]
fn test_file_rotation_relative() {
    let file_operator = FileObj::new("./tmp.txt".to_string()).unwrap();
    let list = rotate_files(file_operator.clone(), 5);
    assert_eq!(list.len(), 5);
    assert_eq!(list[0].to_string(), String::from("./tmp.5.txt"));
}

#[test]
fn test_file_rotation_absolute() {
    let file_operator = FileObj::new("/tmp/tmp.txt".to_string()).unwrap();
    let list = rotate_files(file_operator.clone(), 5);
    assert_eq!(list.len(), 5);
    assert_eq!(list[0].to_string(), String::from("/tmp/tmp.5.txt"));
}

#[test]
fn test_file_object_filepath() {
    let parent = "./data".to_string();
    let file_obj = FileObj {
        parent: parent,
        file_name: "test_file".to_string(),
        extension: "json".to_string(),
    };

    assert_eq!(
        file_obj.incremented(4),
        "./data/test_file.4.json".to_string()
    );
    assert_eq!(file_obj.to_string(), "./data/test_file.json".to_string());
}

#[test]
fn test_file_path_without_parent() {
    let file_operator = FileObj::new("myfile.txt".to_string()).unwrap();

    assert_eq!(file_operator.to_string(), String::from("myfile.txt"))
}

#[test]
fn test_folder_creation() {
    let builder = FolderOperator::new();
    assert_eq!(builder.files.len(), 0);
    assert_eq!(builder.folder, None);
}

#[test]
fn folder_builder_places_files_in_folder() {
    let builder = FolderOperator::new()
        .with_directory("./exo_repo1")
        .add_file("file.txt")
        .add_file("./exo.json");
    assert_eq!(builder.files.len(), 2);
    assert_eq!(builder.files[0].to_string(), "./exo_repo1/file.txt");
    assert_eq!(builder.files[1].to_string(), "./exo_repo1/exo.json");
}

#[test]
fn parse_splits_location() {
    let f = FileObj::parse("/var/log/app.tar.gz").unwrap();
    assert_eq!(f.parent, "/var/log");
    assert_eq!(f.file_name, "app.tar");
    assert_eq!(f.extension, "gz");
    let root = FileObj::parse("/x.log").unwrap();
    assert_eq!(root.parent, "/");
    assert_eq!(root.file_name, "x");
}

#[test]
fn parse_rejects_location_without_suffix() {
    assert_eq!(FileObj::parse("./data/README").unwrap_err(), FileError::InvalidPath);
    assert_eq!(FileObj::parse("./.hidden").unwrap_err(), FileError::InvalidPath);
    assert_eq!(FileObj::parse("").unwrap_err(), FileError::InvalidPath);
}

#[test]
fn backup_location_reads_back() {
    for (dir, stem, suffix) in [("./d", "a", "txt"), ("", "log", "json"), ("/", "x.y", "z")] {
        let f = FileObj {
            parent: dir.to_string(),
            file_name: stem.to_string(),
            extension: suffix.to_string(),
        };
        let base = FileObj::parse(&f.to_string()).unwrap();
        assert_eq!(base.parent, dir);
        assert_eq!(base.file_name, stem);
        assert_eq!(base.extension, suffix);
        let backup = FileObj::parse(&f.incremented(12)).unwrap();
        assert_eq!(backup.parent, dir);
        assert_eq!(backup.file_name, format!("{}.12", stem));
        assert_eq!(backup.extension, suffix);
    }
}

#[test]
fn decimal_text_of_numbers() {
    assert_eq!(decimal_text(0), "0");
    assert_eq!(decimal_text(7), "7");
    assert_eq!(decimal_text(100_000), "100000");
    assert_eq!(decimal_text(u32::MAX), "4294967295");
}

#[test]
fn test_get_highest_file() {
    let file_obj = FileObj {
        parent: "./data".to_string(),
        file_name: "t_file".to_string(),
        extension: "json".to_string(),
    };
    let names = vec![
        "t_file.json".to_string(),
        "t_file.1.json".to_string(),
        "t_file.2.json".to_string(),
        "t_file.3.json".to_string(),
    ];
    let counter = get_highest_file(file_obj, &names);
    assert_eq!(counter, Ok(4));
}

#[test]
fn test_file_get_path() {
    let t = TestFile { files: vec!["./data/t_file.json".to_string()] };
    assert_eq!(t.get_path().unwrap().to_string(), "./data/t_file.json");
}

#[test]
fn new_reports_invalid_path() {
    assert_eq!(FileObj::new("./data/README".to_string()).unwrap_err(), FileError::InvalidPath);
    assert_eq!(FileObj::new("/".to_string()).unwrap_err(), FileError::InvalidPath);
    assert_eq!(FileObj::new("a/..".to_string()).unwrap_err(), FileError::InvalidPath);
    assert_eq!(FileObj::new("..".to_string()).unwrap_err(), FileError::InvalidPath);
}

#[test]
fn trailing_slash_is_set_aside() {
    let f = FileObj::new("logs/a.txt/".to_string()).unwrap();
    assert_eq!(f.parent, "logs");
    assert_eq!(f.file_name, "a");
    assert_eq!(f.extension, "txt");
    let g = FileObj::new("a.txt//".to_string()).unwrap();
    assert_eq!(g.parent, "");
    assert_eq!(g.to_string(), "a.txt");
}

#[test]
fn parsed_location_rejoins() {
    for loc in ["./tmp.txt", "/tmp/tmp.txt", "myfile.txt", "/x.log", "a/b/c.tar.gz"] {
        assert_eq!(FileObj::new(loc.to_string()).unwrap().to_pathbuf(), loc);
    }
}
