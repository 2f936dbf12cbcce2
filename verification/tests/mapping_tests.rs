use csvtable::csv::parse_csv_string;
use csvtable::datefmt::{date_format, extract};
use csvtable::headers::{build_header_map, get_field};

#[test]
fn date_format_with_seconds() {
    assert_eq!(date_format("2025-07-19", "13:00:00"), "20250719T130000");
}

#[test]
fn date_format_without_seconds() {
    assert_eq!(date_format("2025-07-30", "18:30"), "20250730T183000");
}

#[test]
fn extract_takes_exact_range() {
    let chars: Vec<char> = "2025-07-19".chars().collect();
    assert_eq!(extract(&chars, 0, 4), "2025");
    assert_eq!(extract(&chars, 5, 7), "07");
    assert_eq!(extract(&chars, 8, 10), "19");
    assert_eq!(extract(&chars, 3, 3), "");
}

#[test]
fn header_map_is_case_insensitive() {
    let table = parse_csv_string("Name, START DATE, Start time, End date, End Time, Description\nx");
    let map = build_header_map(&table);
    assert_eq!(map.name, Some(0));
    assert_eq!(map.start_date, Some(1));
    assert_eq!(map.start_time, Some(2));
    assert_eq!(map.end_date, Some(3));
    assert_eq!(map.end_time, Some(4));
    assert_eq!(map.description, Some(5));
}

#[test]
fn header_map_takes_first_match_and_misses() {
    let table = parse_csv_string("name, other, NAME\nx");
    let map = build_header_map(&table);
    assert_eq!(map.name, Some(0));
    assert_eq!(map.description, None);
    assert_eq!(map.start_date, None);
}

#[test]
fn get_field_reads_the_mapped_column() {
    let table = parse_csv_string("Name, Start date, Start time\nPicnic, 2025-07-19, 13:00\n");
    let map = build_header_map(&table);
    let row = &table.data[0];
    assert_eq!(get_field("name", row, &map), Some("Picnic".to_owned()));
    assert_eq!(get_field("start date", row, &map), Some("2025-07-19".to_owned()));
    assert_eq!(get_field("start time", row, &map), Some("13:00".to_owned()));
    assert_eq!(get_field("end date", row, &map), None);
    assert_eq!(get_field("unrelated", row, &map), None);
}
