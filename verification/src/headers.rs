use vstd::prelude::*;

verus! {

use crate::csv::CSVData;

/// What `str::to_lowercase` returns for a string with these characters.
pub uninterp spec fn lower_of(s: Seq<char>) -> Seq<char>;

/// Relies on str::to_lowercase: the result is the Unicode lowercase mapping
/// of the input and depends on its characters alone.
#[verifier::external_body]
fn lowercase(s: &str) -> (r: String)
    ensures
        r@ == lower_of(s@),
{
    s.to_lowercase()
}

/// Whether two strings have the same characters.
fn str_eq(a: &str, b: &str) -> (r: bool)
    ensures
        r == (a@ == b@),
{
    let sa: String = a.to_owned();
    let sb: String = b.to_owned();
    sa == sb
}

/// The index of the first header at or after `i` whose lowercase form is
/// `target`.
pub open spec fn first_match_from(
    headers: Seq<Seq<char>>,
    target: Seq<char>,
    i: int,
) -> Option<int>
    decreases headers.len() - i,
{
    if i < 0 || i >= headers.len() {
        None
    } else if lower_of(headers[i]) == target {
        Some(i)
    } else {
        first_match_from(headers, target, i + 1)
    }
}

/// Whether `o` is the position of the first header whose lowercase form is
/// `target`, or `None` when no header matches.
pub open spec fn is_first_match(
    o: Option<usize>,
    headers: Seq<Seq<char>>,
    target: Seq<char>,
) -> bool {
    match o {
        Some(j) => first_match_from(headers, target, 0) == Some(j as int),
        None => first_match_from(headers, target, 0) is None,
    }
}

/// The position of the first header whose lowercase form equals `target`.
fn position_lower(headers: &Vec<String>, target: &str) -> (r: Option<usize>)
    ensures
        is_first_match(r, headers.deep_view(), target@),
{
    let t: String = target.to_owned();
    let mut i: usize = 0;
    while i < headers.len()
        invariant
            i <= headers@.len(),
            t@ == target@,
            first_match_from(headers.deep_view(), target@, 0) == first_match_from(
                headers.deep_view(),
                target@,
                i as int,
            ),
        decreases headers@.len() - i,
    {
        let low = lowercase(headers[i].as_str());
        if low == t {
            proof {
                assert(first_match_from(headers.deep_view(), target@, i as int) == Some(i as int));
            }
            return Some(i);
        }
        proof {
            assert(first_match_from(headers.deep_view(), target@, i as int) == first_match_from(
                headers.deep_view(),
                target@,
                i + 1,
            ));
        }
        i = i + 1;
    }
    proof {
        assert(first_match_from(headers.deep_view(), target@, headers@.len() as int) is None);
    }
    None
}

/// Where each of the six recognized column names first occurs among the
/// headers, by case-insensitive comparison: `None` where no header matches.
pub struct HeaderMap {
    pub name: Option<usize>,
    pub description: Option<usize>,
    pub start_date: Option<usize>,
    pub end_date: Option<usize>,
    pub start_time: Option<usize>,
    pub end_time: Option<usize>,
}

/// Locate the six recognized column names among the table's headers.
pub fn build_header_map(csv_data: &CSVData) -> (m: HeaderMap)
    ensures
        is_first_match(m.name, csv_data@.headers, "name"@),
        is_first_match(m.description, csv_data@.headers, "description"@),
        is_first_match(m.start_date, csv_data@.headers, "start date"@),
        is_first_match(m.end_date, csv_data@.headers, "end date"@),
        is_first_match(m.start_time, csv_data@.headers, "start time"@),
        is_first_match(m.end_time, csv_data@.headers, "end time"@),
{
    HeaderMap {
        name: position_lower(&csv_data.headers, "name"),
        description: position_lower(&csv_data.headers, "description"),
        start_date: position_lower(&csv_data.headers, "start date"),
        end_date: position_lower(&csv_data.headers, "end date"),
        start_time: position_lower(&csv_data.headers, "start time"),
        end_time: position_lower(&csv_data.headers, "end time"),
    }
}

/// The header map's entry under `name`: `None` when the name is not one of
/// the six recognized column names.
pub open spec fn spec_key(m: HeaderMap, name: Seq<char>) -> Option<Option<usize>> {
    if name == "name"@ {
        Some(m.name)
    } else if name == "description"@ {
        Some(m.description)
    } else if name == "start date"@ {
        Some(m.start_date)
    } else if name == "end date"@ {
        Some(m.end_date)
    } else if name == "start time"@ {
        Some(m.start_time)
    } else if name == "end time"@ {
        Some(m.end_time)
    } else {
        None
    }
}

/// The row's value under the recognized column `name`, when the header map
/// locates that column; the row must be long enough to hold it.
pub fn get_field(name: &str, row: &Vec<String>, heading_mapping: &HeaderMap) -> (r: Option<String>)
    requires
        match spec_key(*heading_mapping, name@) {
            Some(Some(j)) => j < row@.len(),
            _ => true,
        },
    ensures
        r == match spec_key(*heading_mapping, name@) {
            Some(Some(j)) => Some(row@[j as int]),
            _ => None::<String>,
        },
{
    let key: Option<Option<usize>> = if str_eq(name, "name") {
        Some(heading_mapping.name)
    } else if str_eq(name, "description") {
        Some(heading_mapping.description)
    } else if str_eq(name, "start date") {
        Some(heading_mapping.start_date)
    } else if str_eq(name, "end date") {
        Some(heading_mapping.end_date)
    } else if str_eq(name, "start time") {
        Some(heading_mapping.start_time)
    } else if str_eq(name, "end time") {
        Some(heading_mapping.end_time)
    } else {
        None
    };
    match key {
        Some(Some(j)) => Some(row[j].clone()),
        _ => None,
    }
}

} // verus!
