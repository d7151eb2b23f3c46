use moodly::locate::{resolve_data_parent, DATA_CSV_FNAME, DATA_DIR_PATH_ENV_KEY, MOODLY_DIR_NAME};
use moodly::record::{encode_record, MoodEntry};
use moodly::MoodError;

fn entry(date: &str, time: &str, mood: &str, description: &str) -> MoodEntry {
    MoodEntry {
        date: date.to_string(),
        time: time.to_string(),
        mood: mood.to_string(),
        description: description.to_string(),
    }
}

#[test]
fn plain_fields_become_one_unquoted_row() {
    let e = entry("2024-01-15", "09:30", "3", "feeling fine");
    assert_eq!(encode_record(&e), "2024-01-15,09:30,3,feeling fine\n");
}

#[test]
fn a_comma_in_the_description_is_quoted() {
    let e = entry("2024-01-15", "09:30", "5", "tired, but happy");
    assert_eq!(encode_record(&e), "2024-01-15,09:30,5,\"tired, but happy\"\n");
}

#[test]
fn a_quote_in_the_description_is_doubled() {
    let e = entry("2024-01-15", "09:30", "2", "said \"hm\"");
    assert_eq!(encode_record(&e), "2024-01-15,09:30,2,\"said \"\"hm\"\"\"\n");
}

#[test]
fn an_empty_description_leaves_an_empty_last_cell() {
    let e = entry("2024-01-15", "09:30", "4", "");
    assert_eq!(encode_record(&e), "2024-01-15,09:30,4,\n");
}

#[test]
fn appended_records_read_back_as_that_many_csv_rows() {
    let entries = [
        entry("2024-01-15", "09:30", "3", "ordinary day"),
        entry("2024-01-16", "18:05", "5", "comma, quote \" and all"),
        entry("2024-02-29", "00:00", "1", ""),
    ];
    let mut log = String::new();
    for e in &entries {
        log.push_str(&encode_record(e));
    }
    let mut reader = csv::ReaderBuilder::new()
        .has_headers(false)
        .from_reader(log.as_bytes());
    let rows: Vec<csv::StringRecord> = reader.records().map(|r| r.unwrap()).collect();
    assert_eq!(rows.len(), entries.len());
    for (row, e) in rows.iter().zip(entries.iter()) {
        assert_eq!(row.len(), 4);
        assert_eq!(&row[0], e.date.as_str());
        assert_eq!(&row[1], e.time.as_str());
        assert_eq!(&row[2], e.mood.as_str());
        assert_eq!(&row[3], e.description.as_str());
    }
}

#[test]
fn environment_override_wins_over_platform_directory() {
    let r = resolve_data_parent(Some("/tmp/override".to_string()), Some("/home/u/.local/share".to_string()));
    assert_eq!(r.ok(), Some("/tmp/override".to_string()));
}

#[test]
fn platform_directory_is_the_fallback() {
    let r = resolve_data_parent(None, Some("/home/u/.local/share".to_string()));
    assert_eq!(r.ok(), Some("/home/u/.local/share".to_string()));
}

#[test]
fn no_source_at_all_is_a_not_found_error() {
    let r = resolve_data_parent(None, None);
    assert!(matches!(r, Err(MoodError::NotFound)));
}

#[test]
fn the_log_location_constants_are_fixed() {
    assert_eq!(MOODLY_DIR_NAME, "moodly");
    assert_eq!(DATA_CSV_FNAME, "moodly_data.csv");
    assert_eq!(DATA_DIR_PATH_ENV_KEY, "MOODLY_DIR");
}
