//! Rows and columns of plain values, and the Arrow batch made of them.

use crate::schema::{ColumnKind, FieldModel};
use crate::schema;
use arrow::array::{
    ArrayRef, BooleanArray, Int32Array, Int64Array, StringArray, TimestampNanosecondArray,
};
use std::sync::Arc;
use vstd::prelude::*;

verus! {

/// One value of a row.
#[derive(Debug)]
pub enum Cell {
    Text(Option<String>),
    Int64(Option<i64>),
    Int32(Option<i32>),
    Boolean(Option<bool>),
    Timestamp(Option<i64>),
}

/// What a [`Cell`] says.
pub enum CellModel {
    Text(Option<Seq<char>>),
    Int64(Option<i64>),
    Int32(Option<i32>),
    Boolean(Option<bool>),
    Timestamp(Option<i64>),
}

impl View for Cell {
    type V = CellModel;

    open spec fn view(&self) -> CellModel {
        match self {
            Cell::Text(text) => CellModel::Text(crate::json::opt_string(*text)),
            Cell::Int64(n) => CellModel::Int64(*n),
            Cell::Int32(n) => CellModel::Int32(*n),
            Cell::Boolean(b) => CellModel::Boolean(*b),
            Cell::Timestamp(n) => CellModel::Timestamp(*n),
        }
    }
}

impl CellModel {
    pub open spec fn kind(self) -> ColumnKind {
        match self {
            CellModel::Text(_) => ColumnKind::Text,
            CellModel::Int64(_) => ColumnKind::Int64,
            CellModel::Int32(_) => ColumnKind::Int32,
            CellModel::Boolean(_) => ColumnKind::Boolean,
            CellModel::Timestamp(_) => ColumnKind::Timestamp,
        }
    }

    pub open spec fn is_null(self) -> bool {
        match self {
            CellModel::Text(text) => text is None,
            CellModel::Int64(n) => n is None,
            CellModel::Int32(n) => n is None,
            CellModel::Boolean(b) => b is None,
            CellModel::Timestamp(n) => n is None,
        }
    }

    /// The bytes a text takes up.
    pub open spec fn text_bytes(self) -> nat {
        match self {
            CellModel::Text(Some(text)) => vstd::utf8::encode_utf8(text).len(),
            _ => 0,
        }
    }
}

/// The values of one column.
#[derive(Debug)]
pub enum Column {
    Text(Vec<Option<String>>),
    Int64(Vec<Option<i64>>),
    Int32(Vec<Option<i32>>),
    Boolean(Vec<Option<bool>>),
    Timestamp(Vec<Option<i64>>),
}

impl Column {
    pub open spec fn kind(self) -> ColumnKind {
        match self {
            Column::Text(_) => ColumnKind::Text,
            Column::Int64(_) => ColumnKind::Int64,
            Column::Int32(_) => ColumnKind::Int32,
            Column::Boolean(_) => ColumnKind::Boolean,
            Column::Timestamp(_) => ColumnKind::Timestamp,
        }
    }
}

impl View for Column {
    type V = Seq<CellModel>;

    open spec fn view(&self) -> Seq<CellModel> {
        match self {
            Column::Text(v) => v@.map_values(
                |text: Option<String>| CellModel::Text(crate::json::opt_string(text)),
            ),
            Column::Int64(v) => v@.map_values(|n: Option<i64>| CellModel::Int64(n)),
            Column::Int32(v) => v@.map_values(|n: Option<i32>| CellModel::Int32(n)),
            Column::Boolean(v) => v@.map_values(|b: Option<bool>| CellModel::Boolean(b)),
            Column::Timestamp(v) => v@.map_values(|n: Option<i64>| CellModel::Timestamp(n)),
        }
    }
}

/// The cells of a row.
pub open spec fn cells(row: Seq<Cell>) -> Seq<CellModel> {
    row.map_values(|cell: Cell| cell@)
}

/// Whether a row has one cell of the right kind per column.
pub open spec fn row_fits(kinds: Seq<ColumnKind>, row: Seq<CellModel>) -> bool {
    row.len() == kinds.len() && forall|j: int|
        0 <= j < kinds.len() ==> (#[trigger] row[j]).kind() == kinds[j]
}

/// The column at `j` of some rows.
pub open spec fn column_at(rows: Seq<Seq<CellModel>>, j: int) -> Seq<CellModel> {
    rows.map_values(|row: Seq<CellModel>| row[j])
}

/// The columns of some rows.
pub open spec fn columns_at(kinds: Seq<ColumnKind>, rows: Seq<Seq<CellModel>>) -> Seq<
    Seq<CellModel>,
> {
    Seq::new(kinds.len(), |j: int| column_at(rows, j))
}

/// The bytes that the texts of a column take up.
pub open spec fn column_bytes(column: Seq<CellModel>) -> nat
    decreases column.len(),
{
    if column.len() == 0 {
        0
    } else {
        column_bytes(column.drop_last()) + column.last().text_bytes()
    }
}

/// Whether the texts of every column fit what 32-bit offsets can reach.
pub open spec fn within_offsets(columns: Seq<Seq<CellModel>>) -> bool {
    forall|j: int| 0 <= j < columns.len() ==> column_bytes(#[trigger] columns[j]) <= i32::MAX
}

/// Whether every column that must be present has no null.
pub open spec fn has_required(fields: Seq<FieldModel>, columns: Seq<Seq<CellModel>>) -> bool {
    forall|j: int, i: int|
        0 <= j < fields.len() && 0 <= i < columns[j].len() && !fields[j].nullable
            ==> !(#[trigger] columns[j][i]).is_null()
}

pub open spec fn kinds_of(fields: Seq<FieldModel>) -> Seq<ColumnKind> {
    fields.map_values(|field: FieldModel| field.kind)
}

/// A table under construction.
#[derive(Debug)]
pub struct Table {
    pub columns: Vec<Column>,
}

impl Table {
    /// The table holds exactly these rows.
    pub open spec fn holds(self, kinds: Seq<ColumnKind>, rows: Seq<Seq<CellModel>>) -> bool {
        &&& self.columns@.len() == kinds.len()
        &&& forall|j: int|
            0 <= j < kinds.len() ==> (#[trigger] self.columns@[j]).kind() == kinds[j]
                && self.columns@[j]@ == column_at(rows, j)
    }

    pub fn new(fields: &Vec<schema::FieldSpec>) -> (out: Table)
        ensures
            out.holds(kinds_of(schema::field_models(fields@)), Seq::empty()),
    {
        let ghost kinds = kinds_of(schema::field_models(fields@));
        let ghost none = Seq::<Seq<CellModel>>::empty();
        let mut columns: Vec<Column> = Vec::new();
        let mut j: usize = 0;
        while j < fields.len()
            invariant
                j <= fields@.len(),
                kinds == kinds_of(schema::field_models(fields@)),
                columns@.len() == j,
                none == Seq::<Seq<CellModel>>::empty(),
                forall|k: int|
                    0 <= k < j ==> (#[trigger] columns@[k]).kind() == kinds[k] && columns@[k]@
                        == column_at(none, k),
            decreases fields@.len() - j,
        {
            let column = match fields[j].kind {
                ColumnKind::Text => Column::Text(Vec::new()),
                ColumnKind::Int64 => Column::Int64(Vec::new()),
                ColumnKind::Int32 => Column::Int32(Vec::new()),
                ColumnKind::Boolean => Column::Boolean(Vec::new()),
                ColumnKind::Timestamp => Column::Timestamp(Vec::new()),
            };
            assert(column@ =~= column_at(none, j as int));
            columns.push(column);
            j += 1;
        }
        Table { columns }
    }

    /// Append one row.
    pub(crate) fn push_row(
        &mut self,
        row: Vec<Cell>,
        Ghost(kinds): Ghost<Seq<ColumnKind>>,
        Ghost(rows): Ghost<Seq<Seq<CellModel>>>,
    )
        requires
            old(self).holds(kinds, rows),
            row_fits(kinds, cells(row@)),
        ensures
            final(self).holds(kinds, rows.push(cells(row@))),
    {
        let ghost all = row@;
        let ghost more = rows.push(cells(all));
        let width = self.columns.len();
        let mut j: usize = 0;
        for cell in it: row
            invariant
                it.seq() == all,
                j == it.index(),
                width == all.len() == kinds.len() == self.columns@.len(),
                more == rows.push(cells(all)),
                row_fits(kinds, cells(all)),
                forall|k: int|
                    0 <= k < kinds.len() ==> (#[trigger] self.columns@[k]).kind() == kinds[k],
                forall|k: int|
                    0 <= k < j ==> (#[trigger] self.columns@[k])@ == column_at(more, k),
                forall|k: int|
                    j <= k < kinds.len() ==> (#[trigger] self.columns@[k])@ == column_at(rows, k),
        {
            let ghost before = self.columns@;
            proof {
                assert(cells(all)[j as int] == cell@);
                assert(cell@.kind() == kinds[j as int]);
                assert(before[j as int].kind() == kinds[j as int]);
                assert(column_at(more, j as int) =~= column_at(rows, j as int).push(cell@));
            }
            push_cell(&mut self.columns[j], cell);
            j += 1;
        }
    }
}

/// Append one value of the column's kind.
fn push_cell(column: &mut Column, cell: Cell)
    requires
        old(column).kind() == cell@.kind(),
    ensures
        final(column).kind() == old(column).kind(),
        final(column)@ == old(column)@.push(cell@),
{
    match (column, cell) {
        (Column::Text(v), Cell::Text(text)) => {
            v.push(text);
        },
        (Column::Int64(v), Cell::Int64(n)) => {
            v.push(n);
        },
        (Column::Int32(v), Cell::Int32(n)) => {
            v.push(n);
        },
        (Column::Boolean(v), Cell::Boolean(b)) => {
            v.push(b);
        },
        (Column::Timestamp(v), Cell::Timestamp(n)) => {
            v.push(n);
        },
        _ => {},
    }
    assert(final(column)@ =~= old(column)@.push(cell@));
}

// ---------------------------------------------------------------------------
// Sizes
// ---------------------------------------------------------------------------
/// The cells of some columns.
pub open spec fn column_cells(columns: Seq<Column>) -> Seq<Seq<CellModel>> {
    columns.map_values(|column: Column| column@)
}

proof fn lemma_column_bytes_grow(column: Seq<CellModel>, i: int)
    requires
        0 <= i <= column.len(),
    ensures
        column_bytes(column.take(i)) <= column_bytes(column),
    decreases column.len() - i,
{
    if i < column.len() {
        lemma_column_bytes_grow(column, i + 1);
        assert(column.take(i + 1).drop_last() =~= column.take(i));
    } else {
        assert(column.take(i) =~= column);
    }
}

proof fn lemma_no_text_no_bytes(column: Seq<CellModel>)
    requires
        forall|i: int| 0 <= i < column.len() ==> (#[trigger] column[i]).text_bytes() == 0,
    ensures
        column_bytes(column) == 0,
    decreases column.len(),
{
    if column.len() > 0 {
        let rest = column.drop_last();
        assert forall|i: int| 0 <= i < rest.len() implies (#[trigger] rest[i]).text_bytes() == 0 by {
            assert(column[i].text_bytes() == 0);
        }
        lemma_no_text_no_bytes(rest);
        assert(column[column.len() - 1].text_bytes() == 0);
    }
}

/// Whether the texts of one column fit what 32-bit offsets can reach.
fn column_fits(column: &Column) -> (out: bool)
    ensures
        out == (column_bytes(column@) <= i32::MAX),
{
    match column {
        Column::Text(texts) => {
            let ghost model = column@;
            let mut total: u64 = 0;
            let mut i: usize = 0;
            assert(model.take(0) =~= Seq::<CellModel>::empty());
            while i < texts.len()
                invariant
                    i <= texts@.len() == model.len(),
                    model == column@,
                    *column == Column::Text(*texts),
                    total == column_bytes(model.take(i as int)),
                    total <= i32::MAX,
                decreases texts@.len() - i,
            {
                proof {
                    assert(model.take(i + 1).drop_last() =~= model.take(i as int));
                    assert(model[i as int] == CellModel::Text(
                        crate::json::opt_string(texts@[i as int]),
                    ));
                    lemma_column_bytes_grow(model, i + 1);
                }
                if let Some(text) = &texts[i] {
                    let len: usize = text.as_str().as_bytes().len();
                    if len as u64 > i32::MAX as u64 - total {
                        return false;
                    }
                    total = total + len as u64;
                }
                i += 1;
            }
            assert(model.take(model.len() as int) =~= model);
            true
        },
        _ => {
            proof {
                lemma_no_text_no_bytes(column@);
            }
            true
        },
    }
}

/// Whether the texts of every column fit what 32-bit offsets can reach.
pub fn columns_fit(columns: &Vec<Column>) -> (out: bool)
    ensures
        out == within_offsets(column_cells(columns@)),
{
    let mut j: usize = 0;
    while j < columns.len()
        invariant
            j <= columns@.len(),
            forall|k: int| 0 <= k < j ==> column_bytes(#[trigger] columns@[k]@) <= i32::MAX,
        decreases columns@.len() - j,
    {
        if !column_fits(&columns[j]) {
            assert(column_bytes(column_cells(columns@)[j as int]) > i32::MAX);
            return false;
        }
        j += 1;
    }
    assert forall|k: int| 0 <= k < column_cells(columns@).len() implies column_bytes(
        #[trigger] column_cells(columns@)[k],
    ) <= i32::MAX by {
        assert(column_bytes(columns@[k]@) <= i32::MAX);
    }
    true
}

// ---------------------------------------------------------------------------
// The Arrow batch
// ---------------------------------------------------------------------------
/// An Arrow batch of one channel.
#[verifier::external_body]
#[derive(Debug)]
pub struct EncodedBatch {
    pub inner: arrow::array::RecordBatch,
}

#[verifier::external_type_specification]
#[verifier::external_body]
pub struct ExArrowError(arrow::error::ArrowError);

/// The columns that an Arrow batch holds, in order.
pub uninterp spec fn batch_columns(batch: EncodedBatch) -> Seq<Seq<CellModel>>;

/// The fields of the schema that an Arrow batch is under, in order.
pub uninterp spec fn batch_fields(batch: EncodedBatch) -> Seq<FieldModel>;

/// Whether columns can make up a batch under a schema: as many as there are
/// fields and at least one, each of its field's type, all equally long, and no
/// null where the field forbids it.
pub open spec fn conforms(fields: Seq<FieldModel>, columns: Seq<Column>) -> bool {
    &&& columns.len() == fields.len()
    &&& columns.len() > 0
    &&& forall|j: int|
        0 <= j < columns.len() ==> (#[trigger] columns[j]).kind() == fields[j].kind
            && columns[j]@.len() == columns[0]@.len()
    &&& has_required(fields, column_cells(columns))
}

/// `arrow::array::RecordBatch::try_new` succeeds exactly on columns that conform
/// to the schema, and keeps both. The columns become Arrow arrays value by value:
/// texts as `Utf8`, timestamps in nanoseconds with the given time zone. Text
/// arrays have 32-bit offsets and panic beyond their reach.
#[verifier::external_body]
fn record_batch(
    schema: Arc<arrow::datatypes::Schema>,
    columns: Vec<Column>,
    zone: &str,
) -> (out: Result<EncodedBatch, arrow::error::ArrowError>)
    requires
        zone@ == schema::TIME_ZONE@,
        within_offsets(column_cells(columns@)),
    ensures
        match out {
            Ok(batch) => conforms(schema::schema_fields(*schema), columns@) && batch_fields(batch)
                == schema::schema_fields(*schema) && batch_columns(batch) == column_cells(columns@),
            Err(_) => !conforms(schema::schema_fields(*schema), columns@),
        },
{
    let arrays = columns.into_iter().map(|column| -> ArrayRef {
        match column {
            Column::Text(v) => Arc::new(StringArray::from(v)),
            Column::Int64(v) => Arc::new(Int64Array::from(v)),
            Column::Int32(v) => Arc::new(Int32Array::from(v)),
            Column::Boolean(v) => Arc::new(BooleanArray::from(v)),
            Column::Timestamp(v) => Arc::new(
                TimestampNanosecondArray::from(v).with_timezone(zone),
            ),
        }
    });
    let inner = arrow::array::RecordBatch::try_new(schema, arrays.collect())?;
    Ok(EncodedBatch { inner })
}

/// Make the batch of a channel from a finished table.
pub(crate) fn batch_of(
    channel: schema::Channel,
    table: Table,
    Ghost(rows): Ghost<Seq<Seq<CellModel>>>,
) -> (out: Option<EncodedBatch>)
    requires
        table.holds(kinds_of(schema::columns_of_channel(channel)), rows),
        within_offsets(columns_at(kinds_of(schema::columns_of_channel(channel)), rows)),
    ensures
        ({
            let fields = schema::columns_of_channel(channel);
            let columns = columns_at(kinds_of(fields), rows);
            match out {
                Some(batch) => has_required(fields, columns) && batch_fields(batch) == fields
                    && batch_columns(batch) == columns,
                None => !has_required(fields, columns),
            }
        }),
{
    let ghost fields = schema::columns_of_channel(channel);
    let ghost kinds = kinds_of(fields);
    assert(column_cells(table.columns@) =~= columns_at(kinds, rows));
    assert forall|j: int| 0 <= j < table.columns@.len() implies (
    #[trigger] table.columns@[j]).kind() == fields[j].kind && table.columns@[j]@.len()
        == table.columns@[0]@.len() by {
        assert(kinds[j] == fields[j].kind);
        assert(table.columns@[j]@ == column_at(rows, j));
        assert(table.columns@[0]@ == column_at(rows, 0));
    }
    match record_batch(channel.schema(), table.columns, schema::TIME_ZONE) {
        Ok(batch) => Some(batch),
        Err(_) => None,
    }
}

/// A batch fits exactly where no column's texts add up to more than 32-bit offsets reach;
/// a text adds its bytes, and nothing else adds any.
pub proof fn law_offsets_reach_the_texts(
    columns: Seq<Seq<CellModel>>,
    column: Seq<CellModel>,
    cell: CellModel,
)
    ensures
        within_offsets(columns) <==> forall|j: int|
            0 <= j < columns.len() ==> column_bytes(#[trigger] columns[j]) <= 0x7fff_ffff,
        column_bytes(Seq::empty()) == 0,
        cell matches CellModel::Text(Some(text)) ==> column_bytes(column.push(cell))
            == column_bytes(column) + vstd::utf8::encode_utf8(text).len(),
        !(cell matches CellModel::Text(Some(_))) ==> column_bytes(column.push(cell))
            == column_bytes(column),
{
    assert(column.push(cell).drop_last() =~= column);
}

/// The columns of some rows hold the rows, cell by cell.
pub proof fn law_columns_hold_the_rows(
    kinds: Seq<ColumnKind>,
    rows: Seq<Seq<CellModel>>,
    i: int,
    j: int,
)
    requires
        0 <= i < rows.len(),
        0 <= j < kinds.len(),
    ensures
        columns_at(kinds, rows).len() == kinds.len(),
        columns_at(kinds, rows)[j].len() == rows.len(),
        columns_at(kinds, rows)[j][i] == rows[i][j],
{
}

} // verus!
