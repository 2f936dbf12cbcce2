use csvtable::csv::{parse_csv, parse_csv_string};

// One header line and N data lines, single newlines and no blank lines: the
// header count is the header line's token count and there are exactly N rows.
#[test]
fn well_formed_counts() {
    let input = "h1,h2,h3\na,b,c\nd,e,f\ng,h,i";
    let result = parse_csv_string(input);
    assert_eq!(result.headers.len(), 3);
    assert_eq!(result.data.len(), 3);
}

// Rejoining a parsed row's fields with the separator and re-parsing gives the
// same fields back, when no field holds a separator or quote character.
#[test]
fn rejoin_round_trip() {
    let input = "alpha,beta gamma,delta";
    let first = parse_csv_string(input);
    assert_eq!(first.data.len(), 1);
    let rejoined = first.data[0].join(",");
    assert_eq!(rejoined, input);
    let second = parse_csv_string(&rejoined);
    assert_eq!(second.data, first.data);
}

// The round trip does not hold for a field with an embedded separator: it
// needs quoting, and the quote characters themselves are not reproduced.
#[test]
fn rejoin_fails_with_embedded_separator() {
    let input = "\"a, b\",c";
    let first = parse_csv_string(input);
    assert_eq!(first.data[0].as_slice(), &["a, b", "c"]);
    let rejoined = first.data[0].join(",");
    let second = parse_csv_string(&rejoined);
    assert_ne!(second.data, first.data);
    assert_eq!(second.data[0].as_slice(), &["a", "b", "c"]);
}

// A multi-byte character is widened byte by byte, never decoded: the two
// UTF-8 bytes of a 'é' come out as the two one-byte characters 'Ã' and '©'.
#[test]
fn multibyte_is_mangled() {
    let result = parse_csv_string("h\ncaf\u{e9}");
    assert_eq!(result.data[0][0], "caf\u{c3}\u{a9}");
}

// Fully blank or whitespace input gives an empty table.
#[test]
fn blank_input_is_empty_table() {
    let result = parse_csv_string("");
    assert!(result.headers.is_empty());
    assert!(result.data.is_empty());

    let result = parse_csv_string("   \t \r\n \n  ");
    assert!(result.headers.is_empty());
    assert!(result.data.is_empty());
}

// A single line with no trailing newline is flushed at end of input straight
// into the data rows, so no header row is ever captured.
#[test]
fn headerless_single_line() {
    let result = parse_csv_string("a,b,c");
    assert!(result.headers.is_empty());
    assert_eq!(result.data.len(), 1);
    assert_eq!(result.data[0].as_slice(), &["a", "b", "c"]);
}

// With a trailing newline the same single line becomes the header row.
#[test]
fn single_line_with_newline_is_header() {
    let result = parse_csv_string("a,b,c\n");
    assert_eq!(result.headers.as_slice(), &["a", "b", "c"]);
    assert!(result.data.is_empty());
}

// An unterminated quoted section runs to the end of the buffer, newlines
// included, without an error.
#[test]
fn unterminated_quote_consumes_rest() {
    let result = parse_csv_string("h\nx,\"rest of\nthe buffer");
    assert_eq!(result.data.len(), 1);
    assert_eq!(result.data[0].as_slice(), &["x", "rest of\nthe buffer"]);
}

// Only leading whitespace is trimmed; trailing whitespace inside an unquoted
// field is preserved verbatim.
#[test]
fn trailing_whitespace_kept() {
    let result = parse_csv(b"h\n  padded  ,x");
    assert_eq!(result.data[0].as_slice(), &["padded  ", "x"]);
}

// Empty fields are dropped, not emitted: separators with nothing between
// them contribute no field at all.
#[test]
fn empty_fields_dropped() {
    let result = parse_csv(b"h\na,,b,\n");
    assert_eq!(result.data[0].as_slice(), &["a", "b"]);
}
