use csv_splitter::{
    create_category_path, encode_header, encode_record, encode_rows, partition, prepare_batch,
    Delimiter, RecordProcessingContext, WriterRegistry,
};
use std::collections::HashMap;

fn strings(items: &[&str]) -> Vec<String> {
    items.iter().map(|s| s.to_string()).collect()
}

fn city_context(delimiter: Delimiter) -> RecordProcessingContext {
    let header = strings(&["City", "State", "Population", "Latitude", "Longitude"]);
    RecordProcessingContext::new(
        &header,
        &"State".to_string(),
        "assets/tmp".to_string(),
        false,
        "city".to_string(),
        delimiter,
    )
    .unwrap()
}

fn city_batch() -> Vec<Vec<String>> {
    vec![
        strings(&["Davidson Landing", "AK", "", "65.241944", "-165.2716667"]),
        strings(&["Oakman", "AL", "", "33.7133333", "-87.38861111"]),
        strings(&["Kenai", "AK", "7610", "60.5544444", "-151.2583333"]),
        strings(&["Nowhere", "", "1", "0", "0"]),
        strings(&["Mobile", "AL", "195111", "30.69", "-88.04"]),
    ]
}

#[test]
fn city_scenario_writes_projected_pipe_lines() {
    let context = city_context(Delimiter::Pipe);
    let batch = vec![
        strings(&["Davidson Landing", "AK", "", "65.241944", "-165.2716667"]),
        strings(&["Kenai", "AK", "7610", "60.5544444", "-151.2583333"]),
    ];
    let groups = prepare_batch(&batch, &context);
    assert_eq!(groups.len(), 1);
    assert_eq!(groups[0].category, "AK");
    assert_eq!(groups[0].rows, 2);
    assert_eq!(
        String::from_utf8(groups[0].bytes.clone()).unwrap(),
        "Davidson Landing||65.241944|-165.2716667\nKenai|7610|60.5544444|-151.2583333\n"
    );
    let header = encode_header(&context);
    assert_eq!(String::from_utf8(header).unwrap(), "City|Population|Latitude|Longitude\n");
    let target = create_category_path(&groups[0].category, &context).unwrap();
    assert_eq!(target.file, "assets/tmp/AK.csv");
    assert!(target.directory.is_none());
}

#[test]
fn partition_covers_every_row_once() {
    let context = city_context(Delimiter::Pipe);
    let batch = city_batch();
    let groups = partition(&batch, &context);
    let categories: Vec<&str> = groups.iter().map(|g| g.category.as_str()).collect();
    assert_eq!(categories, vec!["AK", "AL", "unknown"]);
    let total: usize = groups.iter().map(|g| g.rows.len()).sum();
    assert_eq!(total, batch.len());
    assert_eq!(
        groups[0].rows,
        vec![
            strings(&["Davidson Landing", "", "65.241944", "-165.2716667"]),
            strings(&["Kenai", "7610", "60.5544444", "-151.2583333"]),
        ]
    );
    assert_eq!(
        groups[1].rows,
        vec![
            strings(&["Oakman", "", "33.7133333", "-87.38861111"]),
            strings(&["Mobile", "195111", "30.69", "-88.04"]),
        ]
    );
    assert_eq!(groups[2].rows, vec![strings(&["Nowhere", "1", "0", "0"])]);
}

#[test]
fn no_output_holds_the_split_column() {
    let context = city_context(Delimiter::Comma);
    let batch = city_batch();
    assert!(!context.headers.contains(&"State".to_string()));
    let header = String::from_utf8(encode_header(&context)).unwrap();
    assert!(!header.contains("State"));
    for group in prepare_batch(&batch, &context) {
        let text = String::from_utf8(group.bytes).unwrap();
        assert!(!text.contains("AK"));
        assert!(!text.contains("AL"));
    }
}

#[test]
fn encoding_joins_fields_and_quotes_where_needed() {
    let plain = encode_record(&strings(&["a", "b", "c"]), Delimiter::SemiColon);
    assert_eq!(plain, b"a;b;c\n".to_vec());
    let quoted = encode_record(&strings(&["x|y", "z"]), Delimiter::Pipe);
    assert_eq!(quoted, b"\"x|y\"|z\n".to_vec());
    let rows = vec![strings(&["1", "2"]), strings(&["3", "4"])];
    assert_eq!(encode_rows(&rows, Delimiter::Tab), b"1\t2\n3\t4\n".to_vec());
    assert_eq!(encode_rows(&Vec::new(), Delimiter::Tab), Vec::<u8>::new());
}

/// Appends one batch's groups to an in-memory output directory the way a
/// worker does: open and register a category on first sight, write the
/// header where it is due, then append the lines.
fn merge_batch(
    disk: &mut HashMap<String, Vec<u8>>,
    registry: &mut WriterRegistry,
    slots: &mut Vec<String>,
    batch: &Vec<Vec<String>>,
    context: &RecordProcessingContext,
) {
    let header = encode_header(context);
    for group in prepare_batch(batch, context) {
        let slot = match registry.slot_of(&group.category) {
            Some(slot) => slot,
            None => {
                let target = create_category_path(&group.category, context).unwrap();
                let had_content = disk.get(&target.file).map_or(false, |b| !b.is_empty());
                let (slot, header_due) = registry.register(&group.category, had_content);
                assert_eq!(slot, slots.len());
                slots.push(target.file.clone());
                let file = disk.entry(target.file).or_default();
                if header_due {
                    file.extend_from_slice(&header);
                }
                slot
            }
        };
        disk.get_mut(&slots[slot]).unwrap().extend_from_slice(&group.bytes);
    }
}

fn run(disk: &mut HashMap<String, Vec<u8>>, batches: &[Vec<Vec<String>>], context: &RecordProcessingContext) {
    let mut registry = WriterRegistry::new();
    let mut slots = Vec::new();
    for batch in batches {
        merge_batch(disk, &mut registry, &mut slots, batch, context);
    }
}

fn count_lines(text: &[u8], line: &str) -> usize {
    String::from_utf8(text.to_vec()).unwrap().lines().filter(|l| *l == line).count()
}

#[test]
fn header_written_once_whatever_the_batch_order() {
    let context = city_context(Delimiter::Pipe);
    let all = city_batch();
    let first = all[..2].to_vec();
    let second = all[2..].to_vec();
    let mut one_worker = HashMap::new();
    run(&mut one_worker, &[all.clone()], &context);
    let mut many_workers = HashMap::new();
    run(&mut many_workers, &[second, first], &context);
    for disk in [&one_worker, &many_workers] {
        assert_eq!(disk.len(), 3);
        for bytes in disk.values() {
            assert_eq!(count_lines(bytes, "City|Population|Latitude|Longitude"), 1);
        }
        let ak = &disk["assets/tmp/AK.csv"];
        assert_eq!(String::from_utf8(ak.clone()).unwrap().lines().count(), 3);
    }
}

#[test]
fn second_run_appends_rows_without_second_header() {
    let context = city_context(Delimiter::Pipe);
    let batches = vec![city_batch()];
    let mut disk = HashMap::new();
    run(&mut disk, &batches, &context);
    let once: HashMap<String, usize> =
        disk.iter().map(|(k, v)| (k.clone(), String::from_utf8(v.clone()).unwrap().lines().count() - 1)).collect();
    run(&mut disk, &batches, &context);
    for (file, bytes) in &disk {
        let text = String::from_utf8(bytes.clone()).unwrap();
        assert_eq!(count_lines(bytes, "City|Population|Latitude|Longitude"), 1);
        assert_eq!(text.lines().count() - 1, 2 * once[file]);
    }
}

#[test]
fn registry_keeps_slots_and_header_decisions() {
    let mut registry = WriterRegistry::new();
    assert_eq!(registry.len(), 0);
    let ak = "AK".to_string();
    let al = "AL".to_string();
    assert_eq!(registry.register(&ak, false), (0, true));
    assert_eq!(registry.register(&al, true), (1, false));
    assert_eq!(registry.register(&ak, false), (0, false));
    assert_eq!(registry.slot_of(&al), Some(1));
    assert_eq!(registry.slot_of(&"NY".to_string()), None);
    assert_eq!(registry.len(), 2);
}
