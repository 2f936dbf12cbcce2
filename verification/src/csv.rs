use vstd::prelude::*;

verus! {

use vstd::string::StringSliceAdditionalSpecFns;

/// The parsed table: a header row and the data rows. Row lengths are not
/// forced to equal the header length; the tokenizer performs no validation.
pub struct CSVData {
    pub headers: Vec<String>,
    pub data: Vec<Vec<String>>,
}

/// The three states of the tokenizer: skipping inter-field whitespace,
/// accumulating an unquoted field, accumulating a quoted field.
#[derive(Clone, Copy, PartialEq, Eq, Structural)]
pub enum CSVState {
    InSeparator,
    InRecord,
    InQuotes,
}

/// The field separator `,`, the quote `"` and the newline, as byte values.
pub const CSV_SEPARATOR: u8 = 44;
pub const CSV_QUOTE: u8 = 34;
pub const CSV_NEWLINE: u8 = 10;

/// ASCII whitespace: space, tab, newline, form feed, carriage return.
pub open spec fn is_ascii_ws(b: u8) -> bool {
    b == 32 || b == 9 || b == 10 || b == 12 || b == 13
}

/// The full configuration of the tokenizer between two bytes of input.
#[verifier::ext_equal]
pub struct Machine {
    pub state: CSVState,
    pub in_header: bool,
    pub acc: Seq<char>,
    pub line: Seq<Seq<char>>,
    pub headers: Seq<Seq<char>>,
    pub rows: Seq<Seq<Seq<char>>>,
}

pub open spec fn init_machine() -> Machine {
    Machine {
        state: CSVState::InSeparator,
        in_header: true,
        acc: Seq::empty(),
        line: Seq::empty(),
        headers: Seq::empty(),
        rows: Seq::empty(),
    }
}

/// One step of the unquoted-field (record) state on byte `b`: a separator
/// flushes a non-empty accumulator into the line (an empty one is dropped),
/// a quote opens a quoted section, a newline flushes the accumulator and
/// commits a non-empty line as the header row (the first time) or as a data
/// row, and any other byte is appended to the accumulator, widened to one
/// character with no multi-byte decoding.
pub open spec fn step_record(m: Machine, b: u8) -> Machine {
    if b == CSV_SEPARATOR {
        Machine {
            state: CSVState::InSeparator,
            acc: Seq::empty(),
            line: if m.acc.len() > 0 { m.line.push(m.acc) } else { m.line },
            ..m
        }
    } else if b == CSV_QUOTE {
        Machine { state: CSVState::InQuotes, ..m }
    } else if b == CSV_NEWLINE {
        let line = if m.acc.len() > 0 { m.line.push(m.acc) } else { m.line };
        Machine {
            state: CSVState::InSeparator,
            in_header: if line.len() > 0 { false } else { m.in_header },
            acc: Seq::empty(),
            line: Seq::empty(),
            headers: if line.len() > 0 && m.in_header { line } else { m.headers },
            rows: if line.len() > 0 && !m.in_header { m.rows.push(line) } else { m.rows },
        }
    } else {
        Machine { state: CSVState::InRecord, acc: m.acc.push(b as char), ..m }
    }
}

/// One step of the machine on byte `b`. In the separator state, whitespace
/// other than a newline is consumed; a newline or any non-whitespace byte is
/// re-examined under the record rules. In the quoted state a quote closes the
/// section and every other byte, separators and newlines included, is
/// appended.
pub open spec fn step(m: Machine, b: u8) -> Machine {
    match m.state {
        CSVState::InSeparator => {
            if is_ascii_ws(b) && b != CSV_NEWLINE {
                m
            } else {
                step_record(Machine { state: CSVState::InRecord, ..m }, b)
            }
        }
        CSVState::InRecord => step_record(m, b),
        CSVState::InQuotes => {
            if b == CSV_QUOTE {
                Machine { state: CSVState::InRecord, ..m }
            } else {
                Machine { acc: m.acc.push(b as char), ..m }
            }
        }
    }
}

/// The machine after consuming all of `s`, starting from `m`.
pub open spec fn run_from(m: Machine, s: Seq<u8>) -> Machine
    decreases s.len(),
{
    if s.len() == 0 {
        m
    } else {
        step(run_from(m, s.drop_last()), s.last())
    }
}

/// The end-of-input flush: a non-empty accumulator joins the line, and a
/// non-empty line is appended directly as a data row, whether or not a header
/// row was ever captured.
pub open spec fn flush_end(m: Machine) -> Machine {
    let line = if m.acc.len() > 0 { m.line.push(m.acc) } else { m.line };
    Machine {
        acc: Seq::empty(),
        line: Seq::empty(),
        rows: if line.len() > 0 { m.rows.push(line) } else { m.rows },
        ..m
    }
}

/// The header row that parsing `s` yields.
pub open spec fn spec_headers(s: Seq<u8>) -> Seq<Seq<char>> {
    flush_end(run_from(init_machine(), s)).headers
}

/// The data rows that parsing `s` yields.
pub open spec fn spec_rows(s: Seq<u8>) -> Seq<Seq<Seq<char>>> {
    flush_end(run_from(init_machine(), s)).rows
}

impl View for CSVData {
    type V = TableView;

    open spec fn view(&self) -> TableView {
        TableView { headers: self.headers.deep_view(), rows: self.data.deep_view() }
    }
}

/// The mathematical content of a `CSVData`.
pub struct TableView {
    pub headers: Seq<Seq<char>>,
    pub rows: Seq<Seq<Seq<char>>>,
}

/// Whether `b` is consumed silently by the separator state.
fn is_sep_whitespace(b: u8) -> (r: bool)
    ensures
        r == (is_ascii_ws(b) && b != CSV_NEWLINE),
{
    (b == 32 || b == 9 || b == 12 || b == 13) && b != CSV_NEWLINE
}

/// Relies on String::push: it appends exactly one character at the end.
#[verifier::external_body]
pub(crate) fn push_char(s: &mut String, c: char)
    ensures
        final(s)@ == old(s)@.push(c),
{
    s.push(c);
}

/// Whether the executable parser's locals are the configuration `m`.
spec fn locals_are(
    state: CSVState,
    in_header: bool,
    acc: Seq<char>,
    line: Seq<Seq<char>>,
    headers: Seq<Seq<char>>,
    rows: Seq<Seq<Seq<char>>>,
    m: Machine,
) -> bool {
    m.state == state && m.in_header == in_header && m.acc == acc && m.line == line
        && m.headers == headers && m.rows == rows
}

/// Tokenize `buffer` into a header row and data rows with a single forward
/// pass of the three-state machine. This never fails: every parse-level
/// anomaly is resolved by dropping, skipping or a best-effort flush.
pub fn parse_csv(buffer: &[u8]) -> (result: CSVData)
    ensures
        result@.headers == spec_headers(buffer@),
        result@.rows == spec_rows(buffer@),
{
    let mut data: Vec<Vec<String>> = Vec::new();
    let mut headers: Vec<String> = Vec::new();

    let mut i: usize = 0;
    let mut state = CSVState::InSeparator;
    let mut in_header: bool = true;
    let mut record_buffer = String::new();
    let mut line_buffer: Vec<String> = Vec::new();

    proof {
        assert(buffer@.take(0) =~= Seq::<u8>::empty());
        assert(line_buffer.deep_view() =~= Seq::<Seq<char>>::empty());
        assert(headers.deep_view() =~= Seq::<Seq<char>>::empty());
        assert(data.deep_view() =~= Seq::<Seq<Seq<char>>>::empty());
    }

    while i < buffer.len()
        invariant
            i <= buffer@.len(),
            locals_are(
                state,
                in_header,
                record_buffer@,
                line_buffer.deep_view(),
                headers.deep_view(),
                data.deep_view(),
                run_from(init_machine(), buffer@.take(i as int)),
            ),
        decreases buffer@.len() - i,
    {
        let ghost m = run_from(init_machine(), buffer@.take(i as int));
        let b = buffer[i];
        proof {
            assert(buffer@.take(i + 1).drop_last() =~= buffer@.take(i as int));
            assert(run_from(init_machine(), buffer@.take(i + 1)) == step(m, b));
        }
        if matches!(state, CSVState::InSeparator) && is_sep_whitespace(b) {
            // consumed silently; the machine does not move
        } else if matches!(state, CSVState::InQuotes) {
            if b == CSV_QUOTE {
                state = CSVState::InRecord;
            } else {
                push_char(&mut record_buffer, b as char);
            }
        } else {
            // the separator state re-examines the byte under the
            // unquoted-field rules
            state = CSVState::InRecord;
            if b == CSV_SEPARATOR {
                if !record_buffer.as_str().is_empty() {
                    let ghost lb = line_buffer.deep_view();
                    line_buffer.push(record_buffer);
                    proof {
                        assert(line_buffer.deep_view() =~= lb.push(m.acc));
                    }
                    record_buffer = String::new();
                } else {
                    proof {
                        assert(record_buffer@ =~= Seq::<char>::empty());
                    }
                }
                state = CSVState::InSeparator;
            } else if b == CSV_QUOTE {
                state = CSVState::InQuotes;
            } else if b == CSV_NEWLINE {
                if !record_buffer.as_str().is_empty() {
                    let ghost lb = line_buffer.deep_view();
                    line_buffer.push(record_buffer);
                    proof {
                        assert(line_buffer.deep_view() =~= lb.push(m.acc));
                    }
                    record_buffer = String::new();
                } else {
                    proof {
                        assert(record_buffer@ =~= Seq::<char>::empty());
                    }
                }
                if !line_buffer.is_empty() {
                    if in_header {
                        headers = line_buffer;
                        in_header = false;
                    } else {
                        let ghost dt = data.deep_view();
                        data.push(line_buffer);
                        proof {
                            assert(data.deep_view() =~= dt.push(step(m, b).rows.last()));
                        }
                    }
                    line_buffer = Vec::new();
                }
                proof {
                    assert(line_buffer.deep_view() =~= Seq::<Seq<char>>::empty());
                }
                state = CSVState::InSeparator;
            } else {
                push_char(&mut record_buffer, b as char);
            }
        }
        i = i + 1;
    }

    proof {
        assert(buffer@.take(buffer@.len() as int) =~= buffer@);
    }

    if !record_buffer.as_str().is_empty() {
        let ghost lb = line_buffer.deep_view();
        let ghost m = run_from(init_machine(), buffer@);
        line_buffer.push(record_buffer);
        proof {
            assert(line_buffer.deep_view() =~= lb.push(m.acc));
        }
    }
    if !line_buffer.is_empty() {
        let ghost dt = data.deep_view();
        let ghost m = run_from(init_machine(), buffer@);
        data.push(line_buffer);
        proof {
            assert(data.deep_view() =~= dt.push(flush_end(m).rows.last()));
        }
    }

    CSVData { headers, data }
}

/// Tokenize the UTF-8 bytes of `data`, exactly as `parse_csv` does. A
/// multi-byte character is widened byte by byte, not decoded.
pub fn parse_csv_string(data: &str) -> (result: CSVData)
    ensures
        result@.headers == spec_headers(data.spec_bytes()),
        result@.rows == spec_rows(data.spec_bytes()),
{
    parse_csv(data.as_bytes())
}

} // verus!

