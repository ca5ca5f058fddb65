use csv_splitter::{
    classify, find_column, get_category, get_header_indexes, get_headers, project_record,
    ConfigError, Delimiter, RecordProcessingContext,
};

fn strings(items: &[&str]) -> Vec<String> {
    items.iter().map(|s| s.to_string()).collect()
}

#[test]
fn test_get_category() {
    let context = &RecordProcessingContext {
        split_column_idx: 1,
        ..Default::default()
    };

    let record = strings(&["1", "Bogota", "sur"]);
    let category = get_category(&record, context);

    assert_eq!(category, "Bogota");
}

#[test]
fn test_get_headers() {
    let headers = strings(&["city", "state", "year"]);
    let file_headers = strings(&["city", "state"]);
    let split_column_idx = 2_usize;
    let headers = get_headers(&headers, split_column_idx);

    assert_eq!(file_headers, headers);
}

#[test]
fn test_get_header_indexes() {
    let headers = strings(&["city", "state", "year"]);
    let file_headers = strings(&["city", "state"]);
    let indexes = get_header_indexes(&headers, &file_headers);
    assert_eq!(indexes, vec![0, 1]);
}

#[test]
fn empty_split_field_is_unknown() {
    let context = RecordProcessingContext { split_column_idx: 1, ..Default::default() };
    let record = strings(&["Oakman", "", "33.7"]);
    assert_eq!(get_category(&record, &context), "unknown");
}

#[test]
fn missing_split_field_is_unknown() {
    let context = RecordProcessingContext { split_column_idx: 5, ..Default::default() };
    let record = strings(&["Oakman", "AL"]);
    assert_eq!(get_category(&record, &context), "unknown");
    assert_eq!(project_record(&record, &context), record);
}

#[test]
fn projection_drops_only_the_split_field() {
    let context = RecordProcessingContext { split_column_idx: 1, ..Default::default() };
    let record = strings(&["Kenai", "AK", "7610", "60.55"]);
    let (category, projected) = classify(&record, &context);
    assert_eq!(category, "AK");
    assert_eq!(projected, strings(&["Kenai", "7610", "60.55"]));
}

#[test]
fn header_indexes_skip_absent_names_and_take_first_position() {
    let headers = strings(&["a", "b", "a"]);
    let wanted = strings(&["a", "x", "b"]);
    assert_eq!(get_header_indexes(&headers, &wanted), vec![0, 1]);
}

#[test]
fn find_column_takes_first_match() {
    let headers = strings(&["a", "b", "b"]);
    assert_eq!(find_column(&headers, &"b".to_string()), Some(1));
    assert_eq!(find_column(&headers, &"c".to_string()), None);
}

#[test]
fn context_projects_header_and_finds_split_column() {
    let header = strings(&["City", "State", "Population", "Latitude", "Longitude"]);
    let context = RecordProcessingContext::new(
        &header,
        &"State".to_string(),
        "out".to_string(),
        true,
        "city".to_string(),
        Delimiter::Pipe,
    )
    .unwrap();
    assert_eq!(context.split_column_idx, 1);
    assert_eq!(context.headers, strings(&["City", "Population", "Latitude", "Longitude"]));
    assert!(!context.headers.contains(&"State".to_string()));
    assert_eq!(context.output_dir, "out");
    assert!(context.create_directory);
    assert_eq!(context.file_name, "city");
    assert_eq!(context.delimiter, Delimiter::Pipe);
}

#[test]
fn context_rejects_unknown_split_column() {
    let header = strings(&["City", "State"]);
    let result = RecordProcessingContext::new(
        &header,
        &"County".to_string(),
        "out".to_string(),
        false,
        "city".to_string(),
        Delimiter::Comma,
    );
    match result {
        Err(ConfigError::ColumnNotFound { column }) => assert_eq!(column, "County"),
        Ok(_) => panic!("a missing split column must be refused"),
    }
}

#[test]
fn default_context_is_empty() {
    let context = RecordProcessingContext::default();
    assert!(context.headers.is_empty());
    assert!(context.output_dir.is_empty());
    assert!(!context.create_directory);
    assert!(context.file_name.is_empty());
    assert_eq!(context.delimiter, Delimiter::Pipe);
    assert_eq!(context.split_column_idx, 0);
}
