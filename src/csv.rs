//! Reading CSV text into properties.
//!
//! The first line is a header and is never read. Every later line is a data
//! row, split at each comma with no quoting or escaping; its columns are taken
//! by position in the order of `PropertyView::columns`, and columns past the
//! eleventh are ignored. A row with fewer than eleven columns makes no record
//! and is counted as skipped; the others are kept. The record of the `i`-th
//! data row (counting from 1, skipped rows included) has id `i`, so ids are
//! unique and increasing, with a gap wherever a row was skipped.

use vstd::prelude::*;

use crate::property::{has_id, ids_increasing, views_of, Property, PropertyView};
use crate::text::{chars_of, lines_of, split_chars, split_lines, split_on, string_of, views};

verus! {

/// The number of columns that a row needs to make a record.
pub const COLUMN_COUNT: usize = 11;

/// The record that a data row makes under the given id, if it has enough
/// columns.
pub open spec fn row_record(id: nat, row: Seq<char>) -> Option<PropertyView> {
    let cols = split_on(row, ',');
    if cols.len() >= COLUMN_COUNT {
        Some(PropertyView { id, columns: cols.take(COLUMN_COUNT as int) })
    } else {
        None
    }
}

/// The data rows of a CSV text: its lines after the header.
pub open spec fn data_rows(text: Seq<char>) -> Seq<Seq<char>> {
    let lines = lines_of(text);
    if lines.len() == 0 {
        lines
    } else {
        lines.drop_first()
    }
}

/// The records that the given data rows make, in row order; the row at
/// position `i` (from 0) gets id `i + 1`.
pub open spec fn records_of(rows: Seq<Seq<char>>) -> Seq<PropertyView>
    decreases rows.len(),
{
    if rows.len() == 0 {
        Seq::empty()
    } else {
        let init = records_of(rows.drop_last());
        match row_record(rows.len() as nat, rows.last()) {
            Some(p) => init.push(p),
            None => init,
        }
    }
}

/// How many of the given data rows make no record.
pub open spec fn short_rows(rows: Seq<Seq<char>>) -> nat
    decreases rows.len(),
{
    if rows.len() == 0 {
        0
    } else {
        short_rows(rows.drop_last()) + if row_record(rows.len() as nat, rows.last()) is None {
            1nat
        } else {
            0nat
        }
    }
}

/// The records that a CSV text makes.
pub open spec fn parsed(text: Seq<char>) -> Seq<PropertyView> {
    records_of(data_rows(text))
}

/// How many data rows of a CSV text were skipped.
pub open spec fn skipped(text: Seq<char>) -> nat {
    short_rows(data_rows(text))
}

pub proof fn lemma_short_rows_bound(rows: Seq<Seq<char>>)
    ensures
        short_rows(rows) <= rows.len(),
    decreases rows.len(),
{
    if rows.len() > 0 {
        lemma_short_rows_bound(rows.drop_last());
    }
}

/// Each record that data rows make comes from the row at its id, whole;
/// ids increase; every row with enough columns makes a record, and every
/// other row is counted as short.
pub proof fn lemma_records_of(rows: Seq<Seq<char>>)
    ensures
        ids_increasing(records_of(rows)),
        forall|k: int|
            #![trigger records_of(rows)[k]]
            0 <= k < records_of(rows).len() ==> {
                let p = records_of(rows)[k];
                &&& 1 <= p.id <= rows.len()
                &&& row_record(p.id, rows[p.id - 1]) == Some(p)
                &&& p.columns.len() == COLUMN_COUNT
            },
        forall|i: int|
            0 <= i < rows.len() ==> (has_id(records_of(rows), (i + 1) as nat) <==> #[trigger] row_record(
                (i + 1) as nat,
                rows[i],
            ) is Some),
        records_of(rows).len() + short_rows(rows) == rows.len(),
    decreases rows.len(),
{
    if rows.len() > 0 {
        let init = rows.drop_last();
        lemma_records_of(init);
        let r = records_of(rows);
        let ri = records_of(init);
        let n = rows.len() as nat;
        assert forall|k: int| 0 <= k < ri.len() implies #[trigger] ri[k].id < n && rows[ri[k].id
            - 1] == init[ri[k].id - 1] by {}
        assert forall|i: int|
            0 <= i < rows.len() implies (has_id(r, (i + 1) as nat) <==> #[trigger] row_record(
            (i + 1) as nat,
            rows[i],
        ) is Some) by {
            if i < init.len() {
                assert(rows[i] == init[i]);
                if has_id(r, (i + 1) as nat) {
                    let k = choose|k: int| 0 <= k < r.len() && #[trigger] r[k].id == (i + 1) as nat;
                    if k < ri.len() {
                        assert(r[k] == ri[k]);
                    }
                }
                if has_id(ri, (i + 1) as nat) {
                    let k = choose|k: int| 0 <= k < ri.len() && #[trigger] ri[k].id == (i + 1) as nat;
                    assert(r[k] == ri[k]);
                }
            } else {
                if row_record(n, rows.last()) is Some {
                    assert(r[ri.len() as int].id == n);
                }
            }
        }
    }
}

/// A data row is well formed when it has at least eleven columns.
pub open spec fn well_formed(row: Seq<char>) -> bool {
    split_on(row, ',').len() >= COLUMN_COUNT
}

proof fn lemma_no_short_rows(rows: Seq<Seq<char>>)
    requires
        forall|i: int| 0 <= i < rows.len() ==> well_formed(#[trigger] rows[i]),
    ensures
        short_rows(rows) == 0,
    decreases rows.len(),
{
    if rows.len() > 0 {
        let init = rows.drop_last();
        assert forall|i: int| 0 <= i < init.len() implies well_formed(#[trigger] init[i]) by {
            assert(init[i] == rows[i]);
        }
        lemma_no_short_rows(init);
        assert(well_formed(rows[rows.len() - 1]));
    }
}

/// No partial record is ever made: every parsed record holds exactly eleven
/// columns, taken whole from the data row at its id; ids are unique and
/// increasing; a row with fewer than eleven columns has no record, and every
/// other row has one; parsed and skipped rows together are all data rows.
pub proof fn lemma_parsed_records(text: Seq<char>)
    ensures
        ids_increasing(parsed(text)),
        forall|k: int|
            #![trigger parsed(text)[k]]
            0 <= k < parsed(text).len() ==> {
                let p = parsed(text)[k];
                &&& 1 <= p.id <= data_rows(text).len()
                &&& p.columns.len() == COLUMN_COUNT
                &&& p.columns == split_on(data_rows(text)[p.id - 1], ',').take(COLUMN_COUNT as int)
            },
        forall|i: int|
            0 <= i < data_rows(text).len() ==> (has_id(parsed(text), (i + 1) as nat)
                <==> well_formed(#[trigger] data_rows(text)[i])),
        parsed(text).len() + skipped(text) == data_rows(text).len(),
{
    let rows = data_rows(text);
    lemma_records_of(rows);
    assert forall|i: int| 0 <= i < rows.len() implies (has_id(parsed(text), (i + 1) as nat)
        <==> well_formed(#[trigger] rows[i])) by {
        assert(row_record((i + 1) as nat, rows[i]) is Some <==> well_formed(rows[i]));
    }
}

/// An upload whose data rows are all well formed gives one record per row,
/// skips none, and holds every id from 1 to the number of rows.
pub proof fn lemma_well_formed_upload(text: Seq<char>)
    requires
        forall|i: int| 0 <= i < data_rows(text).len() ==> well_formed(#[trigger] data_rows(text)[i]),
    ensures
        parsed(text).len() == data_rows(text).len(),
        skipped(text) == 0,
        forall|id: nat| 1 <= id <= data_rows(text).len() ==> #[trigger] has_id(parsed(text), id),
{
    let rows = data_rows(text);
    lemma_parsed_records(text);
    lemma_no_short_rows(rows);
    assert forall|id: nat| 1 <= id <= rows.len() implies #[trigger] has_id(parsed(text), id) by {
        assert(well_formed(rows[id - 1]));
        assert(has_id(parsed(text), ((id - 1) + 1) as nat));
    }
}

/// No id outside 1 to the number of data rows belongs to a parsed record.
pub proof fn lemma_ids_in_range(text: Seq<char>, id: nat)
    requires
        id < 1 || id > data_rows(text).len(),
    ensures
        !has_id(parsed(text), id),
{
    lemma_parsed_records(text);
    if has_id(parsed(text), id) {
        let k = choose|k: int| 0 <= k < parsed(text).len() && #[trigger] parsed(text)[k].id == id;
        assert(1 <= parsed(text)[k].id <= data_rows(text).len());
    }
}

/// Text with no line after the header gives no record and no skipped row.
pub proof fn lemma_header_only(text: Seq<char>)
    requires
        lines_of(text).len() <= 1,
    ensures
        parsed(text) == Seq::<PropertyView>::empty(),
        skipped(text) == 0,
{
    assert(data_rows(text).len() == 0);
}

/// What parsing a CSV text gives: the records, and how many data rows were
/// skipped for having too few columns.
pub struct ParsedCsv {
    pub records: Vec<Property>,
    pub skipped: usize,
}

/// The record that `row` makes under `id`, or `None` when it has fewer than
/// eleven columns.
pub fn parse_row(id: usize, row: &[char]) -> (r: Option<Property>)
    ensures
        r matches Some(p) ==> row_record(id as nat, row@) == Some(p@),
        r is None ==> row_record(id as nat, row@) is None,
{
    let cols = split_chars(row, ',');
    if cols.len() < COLUMN_COUNT {
        return None;
    }
    let p = Property {
        id,
        prefecture: string_of(cols[0].as_slice()),
        city: string_of(cols[1].as_slice()),
        town: string_of(cols[2].as_slice()),
        chome: string_of(cols[3].as_slice()),
        banchi: string_of(cols[4].as_slice()),
        go: string_of(cols[5].as_slice()),
        building: string_of(cols[6].as_slice()),
        price: string_of(cols[7].as_slice()),
        nearest_station: string_of(cols[8].as_slice()),
        property_type: string_of(cols[9].as_slice()),
        land_area: string_of(cols[10].as_slice()),
    };
    assert(p@.columns =~= split_on(row@, ',').take(COLUMN_COUNT as int));
    Some(p)
}

/// Parses CSV text into records, skipping the rows that are too short.
pub fn parse_csv(text: &str) -> (r: ParsedCsv)
    ensures
        views_of(r.records@) == parsed(text@),
        r.skipped == skipped(text@),
{
    let chars = chars_of(text);
    let lines = split_lines(chars.as_slice());
    let ghost rows = data_rows(text@);
    let mut records: Vec<Property> = Vec::new();
    let mut skipped: usize = 0;
    let mut i: usize = 1;
    while i < lines.len()
        invariant
            views(lines@) == lines_of(text@),
            rows == data_rows(text@),
            1 <= i,
            lines.len() == 0 ==> i == 1,
            lines.len() > 0 ==> i <= lines.len(),
            views_of(records@) == records_of(rows.take(i - 1)),
            skipped == short_rows(rows.take(i - 1)),
        decreases lines.len() - i,
    {
        proof {
            assert(rows[i - 1] == lines@[i as int]@);
            assert(rows.take(i as int).drop_last() =~= rows.take(i - 1));
            lemma_short_rows_bound(rows.take(i - 1));
        }
        match parse_row(i, lines[i].as_slice()) {
            Some(p) => {
                records.push(p);
                assert(views_of(records@) =~= records_of(rows.take(i as int)));
            },
            None => {
                skipped += 1;
            },
        }
        i += 1;
    }
    assert(views(lines@).len() == lines.len());
    assert(rows.take(i - 1) =~= rows);
    ParsedCsv { records, skipped }
}

} // verus!
