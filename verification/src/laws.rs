use vstd::prelude::*;

verus! {

use crate::csv::{
    CSVState,
    Machine,
    init_machine,
    step,
    run_from,
    spec_headers,
    spec_rows,
    is_ascii_ws,
    CSV_SEPARATOR,
    CSV_QUOTE,
    CSV_NEWLINE,
};

/// A character that passes through the tokenizer unchanged: it widens to a
/// single byte and is neither the separator, the quote nor the newline.
pub open spec fn simple_char(c: char) -> bool {
    (c as u32) < 256 && c as u8 != CSV_SEPARATOR && c as u8 != CSV_QUOTE && c as u8 != CSV_NEWLINE
}

/// A field that tokenization reproduces exactly: non-empty, made of simple
/// characters, and not starting with whitespace the separator state would
/// trim away.
pub open spec fn simple_field(f: Seq<char>) -> bool {
    &&& f.len() > 0
    &&& !is_ascii_ws(f[0] as u8)
    &&& forall|k: int| 0 <= k < f.len() ==> simple_char(#[trigger] f[k])
}

/// A line whose every field is simple; it must have at least one field, since
/// an empty line is skipped rather than recorded.
pub open spec fn simple_line(fields: Seq<Seq<char>>) -> bool {
    fields.len() > 0 && (forall|k: int| 0 <= k < fields.len() ==> simple_field(#[trigger] fields[k]))
}

/// Every line of the table is simple.
pub open spec fn simple_table(lines: Seq<Seq<Seq<char>>>) -> bool {
    forall|k: int| 0 <= k < lines.len() ==> simple_line(#[trigger] lines[k])
}

/// The fields of one line joined with the separator character.
pub open spec fn join_fields(fields: Seq<Seq<char>>) -> Seq<char>
    decreases fields.len(),
{
    if fields.len() == 0 {
        Seq::empty()
    } else if fields.len() == 1 {
        fields[0]
    } else {
        join_fields(fields.drop_last()) + seq![CSV_SEPARATOR as char] + fields.last()
    }
}

/// Characters narrowed one-for-one to bytes.
pub open spec fn field_bytes(f: Seq<char>) -> Seq<u8> {
    f.map_values(|c: char| c as u8)
}

/// The bytes of one line: its fields joined with the separator.
pub open spec fn line_bytes(fields: Seq<Seq<char>>) -> Seq<u8> {
    field_bytes(join_fields(fields))
}

/// The bytes of a whole table: its lines joined with single newlines and no
/// trailing newline.
pub open spec fn table_bytes(lines: Seq<Seq<Seq<char>>>) -> Seq<u8>
    decreases lines.len(),
{
    if lines.len() == 0 {
        Seq::empty()
    } else if lines.len() == 1 {
        line_bytes(lines[0])
    } else {
        line_bytes(lines[0]) + seq![CSV_NEWLINE] + table_bytes(lines.drop_first())
    }
}

/// The machine reads a concatenation piecewise.
pub proof fn lemma_run_append(m: Machine, a: Seq<u8>, b: Seq<u8>)
    ensures
        run_from(m, a + b) == run_from(run_from(m, a), b),
    decreases b.len(),
{
    if b.len() == 0 {
        assert(a + b =~= a);
    } else {
        lemma_run_append(m, a, b.drop_last());
        assert((a + b).drop_last() =~= a + b.drop_last());
        assert((a + b).last() == b.last());
    }
}

/// From the separator state with an empty accumulator, reading a simple field
/// accumulates exactly that field and nothing else.
pub proof fn lemma_field_run(m: Machine, f: Seq<char>)
    requires
        m.state == CSVState::InSeparator,
        m.acc == Seq::<char>::empty(),
        simple_field(f),
    ensures
        run_from(m, field_bytes(f)) == (Machine { state: CSVState::InRecord, acc: f, ..m }),
    decreases f.len(),
{
    let bs = field_bytes(f);
    if f.len() == 1 {
        vstd::utf8::char_u32_cast(f[0], f[0] as u32);
        assert(simple_char(f[0]));
        assert(bs.drop_last() =~= Seq::<u8>::empty());
        assert(run_from(m, bs.drop_last()) == m);
        assert(bs.last() == f[0] as u8);
        assert((f[0] as u8) as char == f[0]);
        assert(run_from(m, bs) == step(m, bs.last()));
        assert(Seq::<char>::empty().push(f[0]) =~= f);
        assert(run_from(m, bs) =~= (Machine { state: CSVState::InRecord, acc: f, ..m }));
    } else {
        assert(simple_field(f.drop_last())) by {
            assert(f.drop_last()[0] == f[0]);
            assert(forall|k: int|
                0 <= k < f.drop_last().len() ==> #[trigger] f.drop_last()[k] == f[k]);
        }
        lemma_field_run(m, f.drop_last());
        assert(bs.drop_last() =~= field_bytes(f.drop_last()));
        assert(f.last() == f[f.len() - 1]);
        assert(simple_char(f[f.len() - 1]));
        vstd::utf8::char_u32_cast(f.last(), f.last() as u32);
        assert(bs.last() == f.last() as u8);
        assert((f.last() as u8) as char == f.last());
        assert(f.drop_last().push(f.last()) =~= f);
        assert(run_from(m, bs) =~= (Machine { state: CSVState::InRecord, acc: f, ..m }));
    }
}

/// From the separator state at the start of a field, reading a whole simple
/// line leaves its last field in the accumulator and appends the others to the
/// open line.
pub proof fn lemma_line_run(m: Machine, fields: Seq<Seq<char>>)
    requires
        m.state == CSVState::InSeparator,
        m.acc == Seq::<char>::empty(),
        simple_line(fields),
    ensures
        run_from(m, line_bytes(fields)) == (Machine {
            state: CSVState::InRecord,
            acc: fields.last(),
            line: m.line + fields.drop_last(),
            ..m
        }),
    decreases fields.len(),
{
    if fields.len() == 1 {
        assert(simple_field(fields[0]));
        lemma_field_run(m, fields[0]);
        assert(join_fields(fields) == fields[0]);
        assert(m.line + fields.drop_last() =~= m.line);
        assert(fields.last() == fields[0]);
    } else {
        let rest = fields.drop_last();
        assert(simple_line(rest)) by {
            assert(forall|k: int| 0 <= k < rest.len() ==> #[trigger] rest[k] == fields[k]);
        }
        lemma_line_run(m, rest);
        let a = line_bytes(rest);
        let mid = seq![CSV_SEPARATOR];
        let c = field_bytes(fields.last());
        assert(line_bytes(fields) =~= a + mid + c) by {
            assert(join_fields(fields) == join_fields(rest) + seq![CSV_SEPARATOR as char]
                + fields.last());
            vstd::utf8::char_u32_cast(CSV_SEPARATOR as char, CSV_SEPARATOR as u32);
        }
        lemma_run_append(m, a + mid, c);
        lemma_run_append(m, a, mid);
        assert(a + mid + c =~= (a + mid) + c);
        let m1 = run_from(m, a);
        assert(m1 == (Machine {
            state: CSVState::InRecord,
            acc: rest.last(),
            line: m.line + rest.drop_last(),
            ..m
        }));
        assert(simple_field(rest.last())) by {
            assert(rest.last() == fields[fields.len() - 2]);
        }
        assert(mid.drop_last() =~= Seq::<u8>::empty());
        assert(run_from(m1, mid.drop_last()) == m1);
        assert(mid.last() == CSV_SEPARATOR);
        let m2 = run_from(m1, mid);
        assert(m2 == step(m1, CSV_SEPARATOR));
        assert(m2.acc =~= Seq::<char>::empty());
        assert(m2.line =~= m.line + fields.drop_last()) by {
            assert((m.line + rest.drop_last()).push(rest.last()) =~= m.line + rest);
        }
        assert(simple_field(fields.last())) by {
            assert(fields.last() == fields[fields.len() - 1]);
        }
        lemma_field_run(m2, fields.last());
        assert(run_from(m, line_bytes(fields)) =~= (Machine {
            state: CSVState::InRecord,
            acc: fields.last(),
            line: m.line + fields.drop_last(),
            ..m
        }));
    }
}

/// The configuration after one complete line and its newline: the line's
/// fields become the header row if none was captured yet, otherwise one more
/// data row.
pub open spec fn commit(m: Machine, fields: Seq<Seq<char>>) -> Machine {
    Machine {
        state: CSVState::InSeparator,
        in_header: false,
        acc: Seq::empty(),
        line: Seq::empty(),
        headers: if m.in_header { fields } else { m.headers },
        rows: if m.in_header { m.rows } else { m.rows.push(fields) },
    }
}

/// At the start of a line, reading a simple line followed by a newline
/// commits exactly that line.
pub proof fn lemma_line_commit(m: Machine, fields: Seq<Seq<char>>)
    requires
        m.state == CSVState::InSeparator,
        m.acc == Seq::<char>::empty(),
        m.line == Seq::<Seq<char>>::empty(),
        simple_line(fields),
    ensures
        run_from(m, line_bytes(fields) + seq![CSV_NEWLINE]) == commit(m, fields),
{
    lemma_line_run(m, fields);
    lemma_run_append(m, line_bytes(fields), seq![CSV_NEWLINE]);
    let m1 = run_from(m, line_bytes(fields));
    assert(seq![CSV_NEWLINE].drop_last() =~= Seq::<u8>::empty());
    assert(run_from(m1, seq![CSV_NEWLINE].drop_last()) == m1);
    assert(run_from(m1, seq![CSV_NEWLINE]) == step(m1, CSV_NEWLINE));
    assert(fields.last().len() > 0) by {
        assert(simple_field(fields[fields.len() - 1]));
    }
    assert((m.line + fields.drop_last()).push(fields.last()) =~= fields);
    assert(run_from(m, line_bytes(fields) + seq![CSV_NEWLINE]) =~= commit(m, fields));
}

/// The configuration after a run of complete lines, each committed in turn.
pub open spec fn commit_all(m: Machine, lines: Seq<Seq<Seq<char>>>) -> Machine
    decreases lines.len(),
{
    if lines.len() == 0 {
        m
    } else {
        commit_all(commit(m, lines[0]), lines.drop_first())
    }
}

/// Once the header row is captured, committed lines append to the data rows
/// in order and leave the header row alone.
pub proof fn lemma_commit_all_rows(m: Machine, lines: Seq<Seq<Seq<char>>>)
    requires
        !m.in_header,
    ensures
        commit_all(m, lines).headers == m.headers,
        commit_all(m, lines).rows == m.rows + lines,
        !commit_all(m, lines).in_header,
    decreases lines.len(),
{
    if lines.len() == 0 {
        assert(m.rows + lines =~= m.rows);
    } else {
        lemma_commit_all_rows(commit(m, lines[0]), lines.drop_first());
        assert(m.rows.push(lines[0]) + lines.drop_first() =~= m.rows + lines);
    }
}

/// Before any header row is captured, the first committed line becomes the
/// header row and the rest become the data rows in order.
pub proof fn lemma_commit_all_header(m: Machine, lines: Seq<Seq<Seq<char>>>)
    requires
        m.in_header,
        lines.len() >= 1,
    ensures
        commit_all(m, lines).headers == lines[0],
        commit_all(m, lines).rows == m.rows + lines.drop_first(),
        !commit_all(m, lines).in_header,
{
    lemma_commit_all_rows(commit(m, lines[0]), lines.drop_first());
}

/// At the start of a line, reading a whole simple table without a trailing
/// newline commits every line but the last, whose last field is still in the
/// accumulator.
pub proof fn lemma_table_run(m: Machine, lines: Seq<Seq<Seq<char>>>)
    requires
        m.state == CSVState::InSeparator,
        m.acc == Seq::<char>::empty(),
        m.line == Seq::<Seq<char>>::empty(),
        simple_table(lines),
        lines.len() >= 1,
    ensures
        run_from(m, table_bytes(lines)) == (Machine {
            state: CSVState::InRecord,
            acc: lines.last().last(),
            line: lines.last().drop_last(),
            ..commit_all(m, lines.drop_last())
        }),
    decreases lines.len(),
{
    if lines.len() == 1 {
        assert(simple_line(lines[0]));
        lemma_line_run(m, lines[0]);
        assert(m.line + lines[0].drop_last() =~= lines[0].drop_last());
        assert(lines.drop_last() =~= Seq::<Seq<Seq<char>>>::empty());
    } else {
        let first = lines[0];
        let rest = lines.drop_first();
        assert(simple_line(first));
        assert(simple_table(rest)) by {
            assert(forall|k: int| 0 <= k < rest.len() ==> #[trigger] rest[k] == lines[k + 1]);
        }
        lemma_line_commit(m, first);
        let a = line_bytes(first) + seq![CSV_NEWLINE];
        let b = table_bytes(rest);
        assert(table_bytes(lines) =~= a + b);
        lemma_run_append(m, a, b);
        let m1 = commit(m, first);
        lemma_table_run(m1, rest);
        assert(rest.last() == lines.last());
        assert(commit_all(m1, rest.drop_last()) == commit_all(m, lines.drop_last())) by {
            assert(lines.drop_last().len() >= 1);
            assert(lines.drop_last()[0] == first);
            assert(lines.drop_last().drop_first() =~= rest.drop_last());
        }
        assert(run_from(m, table_bytes(lines)) =~= (Machine {
            state: CSVState::InRecord,
            acc: lines.last().last(),
            line: lines.last().drop_last(),
            ..commit_all(m, lines.drop_last())
        }));
    }
}

/// For a well-formed buffer — one simple header line followed by at least one
/// simple data line, the lines separated by single newlines with no blank
/// lines and no trailing newline — the header row is exactly the header
/// line's fields and the data rows are exactly the data lines' fields, in
/// order. In particular the header count and the row count are those of the
/// buffer.
pub proof fn lemma_well_formed_table(lines: Seq<Seq<Seq<char>>>)
    requires
        simple_table(lines),
        lines.len() >= 2,
    ensures
        spec_headers(table_bytes(lines)) == lines[0],
        spec_rows(table_bytes(lines)) == lines.drop_first(),
{
    lemma_table_run(init_machine(), lines);
    lemma_commit_all_header(init_machine(), lines.drop_last());
    let m = run_from(init_machine(), table_bytes(lines));
    assert(lines.drop_last()[0] == lines[0]);
    assert(simple_line(lines[lines.len() - 1]));
    assert(lines.last().last().len() > 0) by {
        assert(simple_field(lines.last()[lines.last().len() - 1]));
    }
    assert(m.line.push(m.acc) =~= lines.last());
    assert(init_machine().rows + lines.drop_last().drop_first() =~= lines.drop_last().drop_first());
    assert(lines.drop_last().drop_first().push(lines.last()) =~= lines.drop_first());
}

/// Rejoining a row's simple fields with the separator and re-parsing them, as
/// one line with no newline, reproduces exactly those fields: one data row
/// and no header row. This is the sense in which tokenization is idempotent
/// for fields with no embedded separator or quote characters.
pub proof fn lemma_rejoin_round_trip(fields: Seq<Seq<char>>)
    requires
        simple_line(fields),
    ensures
        spec_headers(line_bytes(fields)) == Seq::<Seq<char>>::empty(),
        spec_rows(line_bytes(fields)) == seq![fields],
{
    lemma_line_run(init_machine(), fields);
    let m = run_from(init_machine(), line_bytes(fields));
    assert(fields.last().len() > 0) by {
        assert(simple_field(fields[fields.len() - 1]));
    }
    assert(m.line.push(m.acc) =~= fields);
    assert(Seq::<Seq<Seq<char>>>::empty().push(fields) =~= seq![fields]);
}

/// A blank line — a newline read where a line has just ended, so that nothing
/// has accumulated — contributes neither a header row nor a data row: the
/// parse of the whole buffer is the parse without that newline.
pub proof fn lemma_blank_line_skipped(p: Seq<u8>, s: Seq<u8>)
    requires
        run_from(init_machine(), p).state == CSVState::InSeparator,
        run_from(init_machine(), p).acc == Seq::<char>::empty(),
        run_from(init_machine(), p).line == Seq::<Seq<char>>::empty(),
    ensures
        spec_headers(p + seq![CSV_NEWLINE] + s) == spec_headers(p + s),
        spec_rows(p + seq![CSV_NEWLINE] + s) == spec_rows(p + s),
{
    let m = run_from(init_machine(), p);
    assert(seq![CSV_NEWLINE].drop_last() =~= Seq::<u8>::empty());
    assert(run_from(m, seq![CSV_NEWLINE].drop_last()) == m);
    assert(step(m, CSV_NEWLINE) =~= m);
    lemma_run_append(init_machine(), p, seq![CSV_NEWLINE]);
    lemma_run_append(init_machine(), p + seq![CSV_NEWLINE], s);
    lemma_run_append(init_machine(), p, s);
    assert(run_from(init_machine(), p + seq![CSV_NEWLINE]) == m);
    assert(run_from(init_machine(), (p + seq![CSV_NEWLINE]) + s) == run_from(m, s));
    assert(run_from(init_machine(), p + s) == run_from(m, s));
    assert(p + seq![CSV_NEWLINE] + s =~= (p + seq![CSV_NEWLINE]) + s);
}

} // verus!
