//! Records, their category, and their projection without the split column.
use vstd::prelude::*;

use crate::delimiter::Delimiter;

verus! {

/// The category given to a record whose split field is empty or missing.
pub open spec fn unknown_category() -> Seq<char> {
    seq!['u', 'n', 'k', 'n', 'o', 'w', 'n']
}

/// The category of a record: its field at `split`, or `unknown` where that
/// field is empty or the record has no such field.
pub open spec fn category_of(record: Seq<Seq<char>>, split: int) -> Seq<char> {
    if 0 <= split < record.len() && record[split].len() > 0 {
        record[split]
    } else {
        unknown_category()
    }
}

/// The fields of a record without the one at `split`, the others in order.
pub open spec fn project(record: Seq<Seq<char>>, split: int) -> Seq<Seq<char>> {
    if 0 <= split < record.len() {
        record.remove(split)
    } else {
        record
    }
}

/// `i` is the first position at which `s` holds `x`.
pub open spec fn is_first_index(s: Seq<Seq<char>>, x: Seq<char>, i: int) -> bool {
    &&& 0 <= i < s.len()
    &&& s[i] == x
    &&& forall|k: int| 0 <= k < i ==> s[k] != x
}

/// The first position at which `s` holds `x`, if it holds it.
pub open spec fn index_of(s: Seq<Seq<char>>, x: Seq<char>) -> Option<int> {
    if s.contains(x) {
        Some(choose|i: int| is_first_index(s, x, i))
    } else {
        None
    }
}

/// For each name of `wanted` that `headers` holds, in order, its first
/// position in `headers`.
pub open spec fn header_indexes(headers: Seq<Seq<char>>, wanted: Seq<Seq<char>>) -> Seq<int>
    decreases wanted.len(),
{
    if wanted.len() == 0 {
        seq![]
    } else {
        let rest = header_indexes(headers, wanted.drop_last());
        match index_of(headers, wanted.last()) {
            Some(i) => rest.push(i),
            None => rest,
        }
    }
}

/// The first position is unique, so `index_of` names it whenever it exists.
pub proof fn lemma_index_of(s: Seq<Seq<char>>, x: Seq<char>, i: int)
    requires
        is_first_index(s, x, i),
    ensures
        index_of(s, x) == Some(i),
{
    assert(s.contains(x));
    let j = choose|j: int| is_first_index(s, x, j);
    assert(is_first_index(s, x, j));
    if j < i {
        assert(s[j] != x);
    } else if i < j {
        assert(s[i] != x);
    }
}

/// A projected record holds only fields of the record other than the one at
/// `split`.
pub proof fn lemma_project_fields(record: Seq<Seq<char>>, split: int, f: int)
    requires
        0 <= f < project(record, split).len(),
    ensures
        exists|k: int|
            0 <= k < record.len() && k != split && #[trigger] record[k] == project(record, split)[f],
{
    if 0 <= split < record.len() {
        if f < split {
            assert(record[f] == project(record, split)[f]);
        } else {
            assert(record[f + 1] == project(record, split)[f]);
        }
    } else {
        assert(record[f] == project(record, split)[f]);
    }
}

/// The projected header lacks the split column's name, where no other
/// column bears that name.
pub proof fn lemma_header_omits_split_name(header: Seq<Seq<char>>, split: int)
    requires
        0 <= split < header.len(),
        forall|k: int| 0 <= k < header.len() && k != split ==> header[k] != header[split],
    ensures
        !project(header, split).contains(header[split]),
{
    if project(header, split).contains(header[split]) {
        let f = choose|f: int|
            0 <= f < project(header, split).len() && project(header, split)[f] == header[split];
        lemma_project_fields(header, split, f);
    }
}

/// Run-wide settings shared by every worker: the projected header, where
/// output goes, how output files are named, the output delimiter and the
/// position of the split column.
pub struct RecordProcessingContext {
    pub headers: Vec<String>,
    pub output_dir: String,
    pub create_directory: bool,
    pub file_name: String,
    pub delimiter: Delimiter,
    pub split_column_idx: usize,
}

/// The split column is not among the input's header names.
#[derive(Debug)]
pub enum ConfigError {
    ColumnNotFound { column: String },
}

impl Default for RecordProcessingContext {
    fn default() -> (r: RecordProcessingContext)
        ensures
            r.headers@.len() == 0,
            r.output_dir@.len() == 0,
            !r.create_directory,
            r.file_name@.len() == 0,
            r.delimiter == Delimiter::Pipe,
            r.split_column_idx == 0,
    {
        RecordProcessingContext {
            headers: Vec::new(),
            output_dir: String::new(),
            create_directory: false,
            file_name: String::new(),
            delimiter: Delimiter::Pipe,
            split_column_idx: 0,
        }
    }
}

impl RecordProcessingContext {
    /// Builds the context of a run from the input's header and the name of
    /// the split column; fails when the header does not hold that name.
    pub fn new(
        header: &Vec<String>,
        split_column: &String,
        output_dir: String,
        create_directory: bool,
        file_name: String,
        delimiter: Delimiter,
    ) -> (r: Result<RecordProcessingContext, ConfigError>)
        ensures
            r is Err <==> !header.deep_view().contains(split_column@),
            r matches Err(ConfigError::ColumnNotFound { column }) ==> column@ == split_column@,
            r matches Ok(c) ==> {
                &&& index_of(header.deep_view(), split_column@) == Some(c.split_column_idx as int)
                &&& c.headers.deep_view() == project(header.deep_view(), c.split_column_idx as int)
                &&& c.output_dir@ == output_dir@
                &&& c.create_directory == create_directory
                &&& c.file_name@ == file_name@
                &&& c.delimiter == delimiter
            },
    {
        match find_column(header, split_column) {
            None => Err(ConfigError::ColumnNotFound { column: split_column.clone() }),
            Some(idx) => {
                let headers = get_headers(header, idx);
                Ok(RecordProcessingContext {
                    headers,
                    output_dir,
                    create_directory,
                    file_name,
                    delimiter,
                    split_column_idx: idx,
                })
            },
        }
    }
}

/// The first position of `name` among the header names.
pub fn find_column(headers: &Vec<String>, name: &String) -> (r: Option<usize>)
    ensures
        r matches Some(i) ==> is_first_index(headers.deep_view(), name@, i as int),
        r is None <==> !headers.deep_view().contains(name@),
        r matches Some(i) ==> index_of(headers.deep_view(), name@) == Some(i as int),
        r is None ==> index_of(headers.deep_view(), name@) is None,
{
    let ghost hs = headers.deep_view();
    let mut i: usize = 0;
    while i < headers.len()
        invariant
            i <= headers.len(),
            hs == headers.deep_view(),
            forall|k: int| 0 <= k < i ==> hs[k] != name@,
        decreases headers.len() - i,
    {
        if headers[i] == *name {
            proof {
                lemma_index_of(hs, name@, i as int);
            }
            return Some(i);
        }
        i = i + 1;
    }
    proof {
        if hs.contains(name@) {
            let k = choose|k: int| 0 <= k < hs.len() && hs[k] == name@;
            assert(hs[k] != name@);
        }
    }
    None
}

/// A copy of `fields` without the one at `split`.
fn without_field(fields: &Vec<String>, split: usize) -> (r: Vec<String>)
    ensures
        r.deep_view() == project(fields.deep_view(), split as int),
{
    let ghost fs = fields.deep_view();
    let mut out: Vec<String> = Vec::new();
    let mut i: usize = 0;
    while i < fields.len()
        invariant
            i <= fields.len(),
            fs == fields.deep_view(),
            out.deep_view() =~= if i <= split {
                fs.subrange(0, i as int)
            } else {
                fs.subrange(0, split as int) + fs.subrange(split + 1, i as int)
            },
        decreases fields.len() - i,
    {
        let ghost before = out.deep_view();
        if i != split {
            let f = fields[i].clone();
            out.push(f);
            assert(out.deep_view() =~= before.push(fs[i as int]));
        }
        i = i + 1;
    }
    assert(fs.subrange(0, fs.len() as int) =~= fs);
    out
}

/// The header names without the split column, the others in order.
pub fn get_headers(current_headers: &Vec<String>, split_column_id: usize) -> (r: Vec<String>)
    ensures
        r.deep_view() == project(current_headers.deep_view(), split_column_id as int),
{
    without_field(current_headers, split_column_id)
}

/// For each projected header name that the full header holds, its first
/// position in the full header.
pub fn get_header_indexes(headers: &Vec<String>, file_headers: &Vec<String>) -> (r: Vec<usize>)
    ensures
        r@.map_values(|i: usize| i as int) == header_indexes(
            headers.deep_view(),
            file_headers.deep_view(),
        ),
{
    let ghost hs = headers.deep_view();
    let ghost ws = file_headers.deep_view();
    let mut out: Vec<usize> = Vec::new();
    let mut i: usize = 0;
    while i < file_headers.len()
        invariant
            i <= file_headers.len(),
            hs == headers.deep_view(),
            ws == file_headers.deep_view(),
            out@.map_values(|i: usize| i as int) == header_indexes(hs, ws.subrange(0, i as int)),
        decreases file_headers.len() - i,
    {
        let found = find_column(headers, &file_headers[i]);
        proof {
            assert(ws.subrange(0, i + 1).drop_last() =~= ws.subrange(0, i as int));
            assert(ws.subrange(0, i + 1).last() == ws[i as int]);
        }
        match found {
            Some(k) => {
                out.push(k);
                assert(out@.map_values(|i: usize| i as int) =~= header_indexes(
                    hs,
                    ws.subrange(0, i as int),
                ).push(k as int));
            },
            None => {},
        }
        i = i + 1;
    }
    assert(ws.subrange(0, ws.len() as int) =~= ws);
    out
}

/// The category of a record under the run's split column.
pub fn get_category(record: &Vec<String>, context: &RecordProcessingContext) -> (r: String)
    ensures
        r@ == category_of(record.deep_view(), context.split_column_idx as int),
{
    let idx = context.split_column_idx;
    if idx < record.len() && !record[idx].as_str().is_empty() {
        record[idx].clone()
    } else {
        proof {
            reveal_strlit("unknown");
        }
        let r = String::from_str("unknown");
        assert(r@ =~= unknown_category());
        r
    }
}

/// The fields of a record that go to its output file.
pub fn project_record(record: &Vec<String>, context: &RecordProcessingContext) -> (r: Vec<String>)
    ensures
        r.deep_view() == project(record.deep_view(), context.split_column_idx as int),
{
    without_field(record, context.split_column_idx)
}

/// The category of a record together with its projection.
pub fn classify(record: &Vec<String>, context: &RecordProcessingContext) -> (r: (String, Vec<String>))
    ensures
        r.0@ == category_of(record.deep_view(), context.split_column_idx as int),
        r.1.deep_view() == project(record.deep_view(), context.split_column_idx as int),
{
    (get_category(record, context), project_record(record, context))
}

} // verus!
