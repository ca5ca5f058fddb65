use csv_splitter::{create_category_path, extract_file_name, PathSafetyError, RecordProcessingContext};

fn context(output_dir: &str, create_directory: bool, file_name: &str) -> RecordProcessingContext {
    RecordProcessingContext {
        output_dir: output_dir.to_string(),
        create_directory,
        file_name: file_name.to_string(),
        ..Default::default()
    }
}

#[test]
fn traversal_categories_are_refused() {
    let ctx = context("out", false, "city");
    for category in ["../etc", "a/b", "a\\b", ".."] {
        match create_category_path(&category.to_string(), &ctx) {
            Err(PathSafetyError::UnsafeCategory { category: c }) => assert_eq!(c, category),
            _ => panic!("category {category} must be refused"),
        }
    }
}

#[test]
fn flat_and_directory_paths() {
    let flat = create_category_path(&"AK".to_string(), &context("out", false, "city")).unwrap();
    assert_eq!(flat.file, "out/AK.csv");
    assert!(flat.directory.is_none());
    let nested = create_category_path(&"AK".to_string(), &context("out/", true, "city")).unwrap();
    assert_eq!(nested.file, "out/AK/city.csv");
    assert_eq!(nested.directory, Some("out/AK".to_string()));
    let backslash = create_category_path(&"AK".to_string(), &context("out\\", false, "city")).unwrap();
    assert_eq!(backslash.file, "out\\/AK.csv");
    let bare = create_category_path(&"a.b".to_string(), &context("", false, "city")).unwrap();
    assert_eq!(bare.file, "a.b.csv");
}

#[test]
fn stem_that_climbs_out_is_refused() {
    match create_category_path(&"AK".to_string(), &context("out", true, "../x")) {
        Err(PathSafetyError::Traversal { path }) => assert_eq!(path, "out/AK/../x.csv"),
        _ => panic!("a path that leaves the output directory must be refused"),
    }
}

#[test]
fn file_stems() {
    assert_eq!(extract_file_name("assets/city.csv"), Some("city".to_string()));
    assert_eq!(extract_file_name("data.tar.gz"), Some("data.tar".to_string()));
    assert_eq!(extract_file_name("/home/u/.profile"), Some(".profile".to_string()));
    assert_eq!(extract_file_name("plain"), Some("plain".to_string()));
    assert_eq!(extract_file_name("dir/"), Some("dir".to_string()));
    assert_eq!(extract_file_name("a/b.csv/."), Some("b".to_string()));
    assert_eq!(extract_file_name("a/./b.csv//"), Some("b".to_string()));
    assert_eq!(extract_file_name("/"), None);
    assert_eq!(extract_file_name("./"), None);
    assert_eq!(extract_file_name("a/.."), None);
    assert_eq!(extract_file_name(""), None);
}
