//! Output lines: records encoded as delimited text by the csv crate.
use vstd::prelude::*;

use crate::delimiter::Delimiter;
use crate::partition::{partition, partition_of, GroupView};
use crate::record::RecordProcessingContext;
use vstd::utf8::encode_utf8;

verus! {

/// The bytes csv's writer produces for one record: the fields joined by the
/// delimiter, each quoted where it needs quoting, ended by a newline.
pub uninterp spec fn csv_record(fields: Seq<Seq<char>>, delimiter: u8) -> Seq<u8>;

/// The fields joined by `sep`.
pub open spec fn join_fields(fields: Seq<Seq<char>>, sep: char) -> Seq<char>
    decreases fields.len(),
{
    if fields.len() == 0 {
        seq![]
    } else if fields.len() == 1 {
        fields[0]
    } else {
        join_fields(fields.drop_last(), sep) + seq![sep] + fields.last()
    }
}

/// No field holds a character that csv's writer quotes: the delimiter,
/// `"`, `\r` or `\n`.
pub open spec fn needs_no_quoting(fields: Seq<Seq<char>>, delimiter: u8) -> bool {
    forall|i: int, j: int|
        0 <= i < fields.len() && 0 <= j < fields[i].len() ==> {
            let c = #[trigger] fields[i][j];
            &&& c != delimiter as char
            &&& c != '"'
            &&& c != '\r'
            &&& c != '\n'
        }
}

/// Relies on csv::WriterBuilder::delimiter, csv::Writer::write_record and
/// csv::Writer::into_inner: a fresh writer over an empty `Vec` takes its
/// first record whatever its length and cannot fail to write or flush, so
/// the buffer comes back holding that record's encoding. With the default
/// quoting style, a record whose text is not empty and needs no quoting is
/// written as its fields joined by the delimiter, then `\n`.
#[verifier::external_body]
fn write_csv_record(fields: &Vec<String>, delimiter: u8) -> (r: Option<Vec<u8>>)
    ensures
        r is Some,
        r matches Some(bytes) ==> bytes@ == csv_record(fields.deep_view(), delimiter),
        r matches Some(bytes) ==> (delimiter < 128 && needs_no_quoting(fields.deep_view(), delimiter)
            && join_fields(fields.deep_view(), delimiter as char).len() > 0 ==> bytes@
            == encode_utf8(join_fields(fields.deep_view(), delimiter as char)) + seq![10u8]),
{
    let mut writer = csv::WriterBuilder::new().delimiter(delimiter).from_writer(Vec::new());
    match writer.write_record(fields) {
        Ok(()) => writer.into_inner().ok(),
        Err(_) => None,
    }
}

/// The lines of several records, one after another.
pub open spec fn csv_lines(rows: Seq<Seq<Seq<char>>>, delimiter: u8) -> Seq<u8>
    decreases rows.len(),
{
    if rows.len() == 0 {
        seq![]
    } else {
        csv_lines(rows.drop_last(), delimiter) + csv_record(rows.last(), delimiter)
    }
}

/// Encodes one record as a line in the given delimiter.
pub fn encode_record(fields: &Vec<String>, delimiter: Delimiter) -> (r: Vec<u8>)
    ensures
        r@ == csv_record(fields.deep_view(), delimiter.spec_byte()),
        needs_no_quoting(fields.deep_view(), delimiter.spec_byte()) && join_fields(
            fields.deep_view(),
            delimiter.spec_char(),
        ).len() > 0 ==> r@ == encode_utf8(join_fields(fields.deep_view(), delimiter.spec_char()))
            + seq![10u8],
{
    write_csv_record(fields, delimiter.to_byte()).unwrap()
}

/// Encodes records as consecutive lines in the given delimiter.
pub fn encode_rows(rows: &Vec<Vec<String>>, delimiter: Delimiter) -> (r: Vec<u8>)
    ensures
        r@ == csv_lines(rows.deep_view(), delimiter.spec_byte()),
{
    let ghost rs = rows.deep_view();
    let ghost d = delimiter.spec_byte();
    let mut out: Vec<u8> = Vec::new();
    let mut i: usize = 0;
    while i < rows.len()
        invariant
            i <= rows.len(),
            rs == rows.deep_view(),
            d == delimiter.spec_byte(),
            out@ == csv_lines(rs.subrange(0, i as int), d),
        decreases rows.len() - i,
    {
        let mut line = encode_record(&rows[i], delimiter);
        proof {
            let sub = rs.subrange(0, i + 1);
            assert(sub.drop_last() =~= rs.subrange(0, i as int));
            assert(sub.last() == rs[i as int]);
        }
        out.append(&mut line);
        i = i + 1;
    }
    assert(rs.subrange(0, rs.len() as int) =~= rs);
    out
}

/// The header line of every output file: the projected header.
pub fn encode_header(context: &RecordProcessingContext) -> (r: Vec<u8>)
    ensures
        r@ == csv_record(context.headers.deep_view(), context.delimiter.spec_byte()),
{
    encode_record(&context.headers, context.delimiter)
}

/// A category's share of one batch, ready to append to its file.
pub struct EncodedGroup {
    pub category: String,
    pub rows: usize,
    pub bytes: Vec<u8>,
}

/// `encoded` holds, group by group, the category, the row count and the
/// lines of `groups`.
pub open spec fn encodes_groups(encoded: Seq<EncodedGroup>, groups: Seq<GroupView>, delimiter: u8) -> bool {
    &&& encoded.len() == groups.len()
    &&& forall|i: int|
        0 <= i < groups.len() ==> {
            &&& (#[trigger] encoded[i]).category@ == groups[i].0
            &&& encoded[i].rows == groups[i].1.len()
            &&& encoded[i].bytes@ == csv_lines(groups[i].1, delimiter)
        }
}

/// Partitions a batch and encodes each category's rows, in order of first
/// appearance of the categories.
pub fn prepare_batch(batch: &Vec<Vec<String>>, context: &RecordProcessingContext) -> (r: Vec<
    EncodedGroup,
>)
    ensures
        encodes_groups(
            r@,
            partition_of(batch.deep_view(), context.split_column_idx as int),
            context.delimiter.spec_byte(),
        ),
{
    let groups = partition(batch, context);
    let ghost gv = partition_of(batch.deep_view(), context.split_column_idx as int);
    let ghost d = context.delimiter.spec_byte();
    let mut out: Vec<EncodedGroup> = Vec::new();
    let mut i: usize = 0;
    while i < groups.len()
        invariant
            i <= groups.len(),
            gv == partition_of(batch.deep_view(), context.split_column_idx as int),
            gv.len() == groups.len(),
            forall|k: int| 0 <= k < groups.len() ==> #[trigger] groups@[k]@ == gv[k],
            d == context.delimiter.spec_byte(),
            out@.len() == i,
            forall|k: int|
                0 <= k < i ==> {
                    &&& (#[trigger] out@[k]).category@ == gv[k].0
                    &&& out@[k].rows == gv[k].1.len()
                    &&& out@[k].bytes@ == csv_lines(gv[k].1, d)
                },
        decreases groups.len() - i,
    {
        assert(groups@[i as int]@ == gv[i as int]);
        let bytes = encode_rows(&groups[i].rows, context.delimiter);
        out.push(
            EncodedGroup { category: groups[i].category.clone(), rows: groups[i].rows.len(), bytes },
        );
        i = i + 1;
    }
    out
}

} // verus!
