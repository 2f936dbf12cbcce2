use csvtable::csv::parse_csv_string;

#[test]
fn test_basic_csv_parsing() {
    let input = "c_a, c_b, c_c, c_d\n1,2,3,4\n5, 6, 7, 8";

    let result = parse_csv_string(input);

    assert_eq!(result.headers.as_slice(), &["c_a", "c_b", "c_c", "c_d"]);

    assert_eq!(result.data.len(), 2);

    assert_eq!(result.data[0].as_slice(), &["1", "2", "3", "4"]);
    assert_eq!(result.data[1].as_slice(), &["5", "6", "7", "8"]);
}

#[test]
fn test_quoted_csv_parsing() {
    let input = "c_a, c_b, c_c, c_d\n1,2,\"3, wibble\",4\n5, 6, \"7\", 8";
    let result = parse_csv_string(input);

    assert_eq!(result.headers.as_slice(), &["c_a", "c_b", "c_c", "c_d"]);

    assert_eq!(result.data.len(), 2);

    assert_eq!(result.data[0].as_slice(), &["1", "2", "3, wibble", "4"]);
    assert_eq!(result.data[1].as_slice(), &["5", "6", "7", "8"]);
}

#[test]
fn test_empty_final_values() {
    let input = "c_a, c_b, c_c, c_d\n1,2,\"3, wibble\",4,\n5, 6, \"7\", 8\n";
    let result = parse_csv_string(input);

    assert_eq!(result.headers.as_slice(), &["c_a", "c_b", "c_c", "c_d"]);

    assert_eq!(result.data.len(), 2);

    assert_eq!(result.data[0].as_slice(), &["1", "2", "3, wibble", "4"]);
    assert_eq!(result.data[1].as_slice(), &["5", "6", "7", "8"]);
}

#[test]
fn test_empty_lines() {
    let input = "c_a, c_b, c_c, c_d\n\n1,2,\"3, wibble\",4,\n\n5, 6, \"7\", 8\n";
    let result = parse_csv_string(input);

    assert_eq!(result.headers.as_slice(), &["c_a", "c_b", "c_c", "c_d"]);

    assert_eq!(result.data.len(), 2);

    assert_eq!(result.data[0].as_slice(), &["1", "2", "3, wibble", "4"]);
    assert_eq!(result.data[1].as_slice(), &["5", "6", "7", "8"]);
}

#[test]
fn test_weird_line() {
    let input = "Name, Start date, Start time, End date, End Time, Description, URL, Latitude, Longitude
Tech Talks Pesda, 2025-07-30, 18:30, 2025-07-30, 20:30:00, \"Ymunwch â ni yng Nghanolfan Cefnfaes rhwng 6.30 ac 8.30pm ar nos Fercher 30 Gorffennaf am amrywiaeth o sgyrsiau sy'n ymwneud â thechnoleg a rhwydweithio. Eisiau rhoi cyflwyniad? Oes gennych chi rywbeth i'w rannu? Cysylltwch â ni!

Join us at Canolfan Cefnfaes between 6.30 and 8.30pm on Wednesday the 30th July for a range of tech related talks and networking. Want to talk? Got something to share? Get in touch!\", https://www.eventbrite.co.uk/e/tech-talks-pesda-tickets-1446947301329, 53.181196, -4.064392";

    let result = parse_csv_string(input);
    assert_eq!(
        result.headers.as_slice(),
        &[
            "Name",
            "Start date",
            "Start time",
            "End date",
            "End Time",
            "Description",
            "URL",
            "Latitude",
            "Longitude"
        ]
    );

    assert_eq!(
        result.data[0].as_slice(),
        &[
            "Tech Talks Pesda",
            "2025-07-30",
            "18:30",
            "2025-07-30",
            "20:30:00",
            "Ymunwch Ã¢ ni yng Nghanolfan Cefnfaes rhwng 6.30 ac 8.30pm ar nos Fercher 30 Gorffennaf am amrywiaeth o sgyrsiau sy'n ymwneud Ã¢ thechnoleg a rhwydweithio. Eisiau rhoi cyflwyniad? Oes gennych chi rywbeth i'w rannu? Cysylltwch Ã¢ ni!\n\nJoin us at Canolfan Cefnfaes between 6.30 and 8.30pm on Wednesday the 30th July for a range of tech related talks and networking. Want to talk? Got something to share? Get in touch!",
            "https://www.eventbrite.co.uk/e/tech-talks-pesda-tickets-1446947301329",
            "53.181196",
            "-4.064392"
        ]
    )
}
