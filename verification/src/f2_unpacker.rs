//! The reader: opens a packed record, materialises its datasets and walks
//! them with a cursor.
use vstd::prelude::*;
use vstd::string::*;
use vstd::slice::slice_to_vec;
use vstd::utf8::{decode_utf8, valid_utf8};
use crate::f2_record::{
    decode, empty_dataset, error_code, record_wf, type_char, value_fits, CodecError,
    DatasetSpec, FieldSpec, FieldType, ValueSpec, MAX_COUNT, NULL_CHAR, NULL_DOUBLE_BITS,
    NULL_INT,
};
use crate::text::{lossy_string, utf8_lossy};
use crate::f2_result_set::{bytes_eq, datasets_view, parse_record, Dataset, Value};

verus! {

/// Where a reader stands: the open dataset, the row in it, and whether that
/// row is past the last.
#[derive(Clone, Copy, Debug, PartialEq, Eq, Structural)]
pub struct Cursor {
    pub dataset: usize,
    pub row: usize,
    pub eof: bool,
}

/// A reader, as a mathematical value.
pub struct UnPackerView {
    /// 1 for the legacy layout, 0x20 for the extended one.
    pub version: i32,
    /// The packed record that was opened; empty where none is open.
    pub source: Seq<u8>,
    /// The datasets of the record.
    pub datasets: Seq<DatasetSpec>,
    /// Index of the current dataset.
    pub current: int,
    /// Index of the current row; the row count at the end of the data.
    pub row: int,
    /// Whether the last value read was the null of its type.
    pub was_null: bool,
}

/// Reads a packed record.
pub struct UnPacker {
    version: i32,
    source: Vec<u8>,
    sets: Vec<Dataset>,
    current: usize,
    row: usize,
    null: bool,
}

/// A reader just opened: first dataset, first row.
pub open spec fn opened(version: i32, source: Seq<u8>, datasets: Seq<DatasetSpec>) -> UnPackerView {
    UnPackerView { version, source, datasets, current: 0, row: 0, was_null: false }
}

/// `name` is the name of column `i` and of no column before it.
pub open spec fn is_first_col(fields: Seq<FieldSpec>, name: Seq<u8>, i: int) -> bool {
    &&& 0 <= i < fields.len()
    &&& fields[i].name == name
    &&& forall|j: int| 0 <= j < i ==> (#[trigger] fields[j]).name != name
}

pub open spec fn has_col(fields: Seq<FieldSpec>, name: Seq<u8>) -> bool {
    exists|i: int| 0 <= i < fields.len() && (#[trigger] fields[i]).name == name
}

/// Index of the first column under `name`, or the status for "no such
/// column".
pub open spec fn col_index(fields: Seq<FieldSpec>, name: Seq<u8>) -> int {
    if has_col(fields, name) {
        choose|i: int| is_first_col(fields, name, i)
    } else {
        error_code(CodecError::ColumnNotFound) as int
    }
}

/// `name` is the name of dataset `i` and of no dataset before it.
pub open spec fn is_first_dataset(sets: Seq<DatasetSpec>, name: Seq<u8>, i: int) -> bool {
    &&& 0 <= i < sets.len()
    &&& sets[i].name == name
    &&& forall|j: int| 0 <= j < i ==> (#[trigger] sets[j]).name != name
}

pub open spec fn has_dataset(sets: Seq<DatasetSpec>, name: Seq<u8>) -> bool {
    exists|i: int| 0 <= i < sets.len() && (#[trigger] sets[i]).name == name
}

/// Whether a value is the null of its type.
pub open spec fn is_null(v: ValueSpec) -> bool {
    match v {
        ValueSpec::Int(x) => x == NULL_INT,
        ValueSpec::Double(x) => x == NULL_DOUBLE_BITS,
        ValueSpec::Char(c) => c == NULL_CHAR,
        ValueSpec::Str(b) => b.len() == 0,
        ValueSpec::Raw(b) => b.len() == 0,
    }
}

impl UnPackerView {
    /// The current dataset; an empty anonymous one where the record has none.
    pub open spec fn dataset(self) -> DatasetSpec {
        if 0 <= self.current < self.datasets.len() {
            self.datasets[self.current]
        } else {
            empty_dataset(Seq::empty(), 0)
        }
    }

    pub open spec fn row_count(self) -> int {
        self.dataset().rows.len() as int
    }

    pub open spec fn eof(self) -> bool {
        self.row >= self.row_count()
    }

    /// The reader moved to `row`, or to the end where there is no such row.
    pub open spec fn at(self, row: int) -> UnPackerView {
        UnPackerView {
            row: if 0 <= row < self.row_count() {
                row
            } else {
                self.row_count()
            },
            ..self
        }
    }

    /// The field of a column, where the column exists.
    pub open spec fn field(self, col: int) -> Result<FieldSpec, CodecError> {
        if 0 <= col < self.dataset().fields.len() {
            Ok(self.dataset().fields[col])
        } else {
            Err(CodecError::ColumnNotFound)
        }
    }

    /// The value of a column in the current row, asked for as `kind`: the
    /// column must exist, its declared type must be `kind`, and the cursor
    /// must stand on a row.
    pub open spec fn cell(self, col: int, kind: FieldType) -> Result<ValueSpec, CodecError> {
        if !(0 <= col < self.dataset().fields.len()) {
            Err(CodecError::ColumnNotFound)
        } else if self.dataset().fields[col].kind != kind {
            Err(CodecError::TypeMismatch)
        } else if self.eof() || self.row < 0 {
            Err(CodecError::EndOfData)
        } else {
            Ok(self.dataset().rows[self.row][col])
        }
    }

    /// The reader after `cell` was asked: the null marker follows the value.
    pub open spec fn marked(self, col: int, kind: FieldType) -> UnPackerView {
        UnPackerView {
            was_null: match self.cell(col, kind) {
                Ok(v) => is_null(v),
                Err(_) => false,
            },
            ..self
        }
    }
}

/// The ends of the data. Going to a row before the first or to the row
/// count leaves the cursor past the last row, and so does going anywhere
/// in a dataset without rows; going to a row that exists leaves it there.
pub proof fn lemma_cursor_bounds(v: UnPackerView, row: int)
    ensures
        v.at(-1).eof(),
        v.at(v.row_count()).eof(),
        v.row_count() == 0 ==> v.at(row).eof(),
        0 <= row < v.row_count() ==> !v.at(row).eof() && v.at(row).row == row,
        v.at(row).row_count() == v.row_count(),
{
}

/// Two first columns under one name are the same column.
pub proof fn lemma_first_col_unique(fields: Seq<FieldSpec>, name: Seq<u8>, i: int, j: int)
    requires
        is_first_col(fields, name, i),
        is_first_col(fields, name, j),
    ensures
        i == j,
{
    if i < j {
        assert(fields[i].name != name);
    } else if j < i {
        assert(fields[j].name != name);
    }
}

impl View for UnPacker {
    type V = UnPackerView;

    closed spec fn view(&self) -> UnPackerView {
        UnPackerView {
            version: self.version,
            source: self.source@,
            datasets: datasets_view(self.sets@),
            current: self.current as int,
            row: self.row as int,
            was_null: self.null,
        }
    }
}

impl UnPacker {
    /// The reader's invariant: the datasets are those that the opened
    /// record stands for, and the cursor lies within them.
    pub closed spec fn wf(&self) -> bool {
        &&& record_wf(datasets_view(self.sets@))
        &&& self.source@.len() > 0 ==> decode(self.source@) == Ok::<
            (u8, Seq<DatasetSpec>),
            CodecError,
        >((self.version as u8, datasets_view(self.sets@)))
        &&& self.source@.len() == 0 ==> self.sets@.len() == 0
        &&& (self.current < self.sets@.len() || self.current == 0)
        &&& self.row <= self@.row_count()
    }

    /// What every reader satisfies, in terms of its view.
    pub proof fn lemma_wf(&self)
        requires
            self.wf(),
        ensures
            record_wf(self@.datasets),
            self@.source.len() > 0 ==> decode(self@.source) == Ok::<
                (u8, Seq<DatasetSpec>),
                CodecError,
            >((self@.version as u8, self@.datasets)),
            self@.source.len() == 0 ==> self@.datasets.len() == 0,
            0 <= self@.current,
            self@.current < self@.datasets.len() || self@.current == 0,
            0 <= self@.row <= self@.row_count(),
    {
    }

    /// Opens a packed record of the given layout.
    pub fn new(buffer: &[u8], version: i32) -> (r: Result<UnPacker, CodecError>)
        ensures
            match decode(buffer@) {
                Err(e) => r is Err && r->Err_0 == e,
                Ok((v, st)) => if v as i32 == version {
                    r is Ok && r->Ok_0.wf() && r->Ok_0@ == opened(version, buffer@, st)
                } else {
                    r is Err && r->Err_0 == CodecError::BadVersion
                },
            },
    {
        match parse_record(buffer) {
            Err(e) => Err(e),
            Ok((v, sets)) => {
                if v as i32 != version {
                    return Err(CodecError::BadVersion);
                }
                Ok(
                    UnPacker {
                        version,
                        source: slice_to_vec(buffer),
                        sets,
                        current: 0,
                        row: 0,
                        null: false,
                    },
                )
            },
        }
    }

    /// Opens another packed record, of either layout, in place of the
    /// current one. A record that does not decode leaves the reader as it is.
    pub fn open(&mut self, buffer: &[u8]) -> (r: i32)
        requires
            old(self).wf(),
        ensures
            final(self).wf(),
            match decode(buffer@) {
                Err(e) => final(self)@ == old(self)@ && r == error_code(e),
                Ok((v, st)) => final(self)@ == opened(v as i32, buffer@, st) && r == 0,
            },
    {
        match parse_record(buffer) {
            Err(e) => e.code(),
            Ok((v, sets)) => {
                self.version = v as i32;
                self.source = slice_to_vec(buffer);
                self.sets = sets;
                self.current = 0;
                self.row = 0;
                self.null = false;
                0
            },
        }
    }

    /// As `open`: the reader always keeps a copy of its own.
    pub fn open_and_copy(&mut self, buffer: &[u8]) -> (r: i32)
        requires
            old(self).wf(),
        ensures
            final(self).wf(),
            match decode(buffer@) {
                Err(e) => final(self)@ == old(self)@ && r == error_code(e),
                Ok((v, st)) => final(self)@ == opened(v as i32, buffer@, st) && r == 0,
            },
    {
        self.open(buffer)
    }

    /// Lets go of the record: no dataset is left.
    pub fn destroy(&mut self)
        requires
            old(self).wf(),
        ensures
            final(self).wf(),
            final(self)@ == opened(old(self)@.version, Seq::empty(), Seq::empty()),
    {
        self.source = Vec::new();
        self.sets = Vec::new();
        self.current = 0;
        self.row = 0;
        self.null = false;
        assert(datasets_view(self.sets@) =~= Seq::empty());
        assert(self.source@ =~= Seq::empty());
    }

    /// The layout of the open record.
    pub fn get_version(&self) -> (r: i32)
        ensures
            r == self@.version,
    {
        self.version
    }

    /// A copy of the packed record that was opened.
    pub fn get_pack_buf(&self) -> (r: Vec<u8>)
        ensures
            r@ == self@.source,
    {
        slice_to_vec(self.source.as_slice())
    }

    /// Where the cursor stands.
    pub fn cursor(&self) -> (c: Cursor)
        requires
            self.wf(),
        ensures
            c.dataset == self@.current,
            c.row == self@.row,
            c.eof == self@.eof(),
    {
        Cursor { dataset: self.current, row: self.row, eof: self.row >= self.rows_here() }
    }

    fn rows_here(&self) -> (n: usize)
        requires
            self.wf(),
        ensures
            n == self@.row_count(),
            n <= MAX_COUNT,
    {
        if self.current < self.sets.len() {
            assert(self@.dataset() == self.sets@[self.current as int]@);
            self.sets[self.current].rows.len()
        } else {
            0
        }
    }

    fn cols_here(&self) -> (n: usize)
        requires
            self.wf(),
        ensures
            n == self@.dataset().fields.len(),
            n <= MAX_COUNT,
    {
        if self.current < self.sets.len() {
            assert(self@.dataset() == self.sets@[self.current as int]@);
            self.sets[self.current].fields.len()
        } else {
            0
        }
    }

    /// Number of datasets in the record.
    pub fn get_dataset_count(&self) -> (r: i32)
        requires
            self.wf(),
        ensures
            r == self@.datasets.len(),
    {
        self.sets.len() as i32
    }

    /// Makes the dataset at `index` the current one, cursor on its first
    /// row. Without such a dataset nothing changes.
    pub fn set_current_dataset_by_index(&mut self, index: i32) -> (r: i32)
        requires
            old(self).wf(),
        ensures
            final(self).wf(),
            0 <= index < old(self)@.datasets.len() ==> r == 0 && final(self)@ == (UnPackerView {
                current: index as int,
                row: 0,
                ..old(self)@
            }),
            !(0 <= index < old(self)@.datasets.len()) ==> r == error_code(
                CodecError::DatasetNotFound,
            ) && final(self)@ == old(self)@,
    {
        if index < 0 || index as usize >= self.sets.len() {
            return CodecError::DatasetNotFound.code();
        }
        self.current = index as usize;
        self.row = 0;
        0
    }

    /// Makes the first dataset under `name` the current one, cursor on its
    /// first row. Without such a dataset nothing changes.
    pub fn set_current_dataset(&mut self, name: &str) -> (r: i32)
        requires
            old(self).wf(),
        ensures
            final(self).wf(),
            has_dataset(old(self)@.datasets, name.spec_bytes()) ==> r == 0 && is_first_dataset(
                old(self)@.datasets,
                name.spec_bytes(),
                final(self)@.current,
            ) && final(self)@ == (UnPackerView {
                current: final(self)@.current,
                row: 0,
                ..old(self)@
            }),
            !has_dataset(old(self)@.datasets, name.spec_bytes()) ==> r == error_code(
                CodecError::DatasetNotFound,
            ) && final(self)@ == old(self)@,
    {
        let wanted = name.as_bytes();
        let mut i: usize = 0;
        while i < self.sets.len()
            invariant
                *self == *old(self),
                self.wf(),
                i <= self.sets@.len(),
                wanted@ == name.spec_bytes(),
                forall|j: int| 0 <= j < i ==> (#[trigger] datasets_view(self.sets@)[j]).name != wanted@,
            decreases self.sets@.len() - i,
        {
            assert(datasets_view(self.sets@)[i as int] == self.sets@[i as int]@);
            if bytes_eq(self.sets[i].name.as_slice(), wanted) {
                self.current = i;
                self.row = 0;
                return 0;
            }
            i = i + 1;
        }
        CodecError::DatasetNotFound.code()
    }

    /// Name of the current dataset, decoded lossily.
    pub fn get_dataset_name(&self) -> (r: String)
        requires
            self.wf(),
        ensures
            r@ == utf8_lossy(self@.dataset().name),
    {
        if self.current < self.sets.len() {
            assert(self@.dataset() == self.sets@[self.current as int]@);
            lossy_string(self.sets[self.current].name.as_slice())
        } else {
            let none: Vec<u8> = Vec::new();
            assert(none@ =~= Seq::empty());
            lossy_string(none.as_slice())
        }
    }

    /// Number of rows in the current dataset.
    pub fn get_row_count(&self) -> (r: i32)
        requires
            self.wf(),
        ensures
            r == self@.row_count(),
    {
        self.rows_here() as i32
    }

    /// Moves to the first row; an empty dataset is at its end at once.
    pub fn first(&mut self)
        requires
            old(self).wf(),
        ensures
            final(self).wf(),
            final(self)@ == old(self)@.at(0),
    {
        self.row = 0;
    }

    /// Moves to the last row; an empty dataset is at its end at once.
    pub fn last(&mut self)
        requires
            old(self).wf(),
        ensures
            final(self).wf(),
            final(self)@ == old(self)@.at(old(self)@.row_count() - 1),
    {
        let n: usize = self.rows_here();
        if n > 0 {
            self.row = n - 1;
        } else {
            self.row = 0;
        }
    }

    /// Moves to the given row; to the end where there is no such row.
    pub fn go(&mut self, row: i32)
        requires
            old(self).wf(),
        ensures
            final(self).wf(),
            final(self)@ == old(self)@.at(row as int),
            row < 0 || row >= old(self)@.row_count() ==> final(self)@.eof(),
    {
        let n: usize = self.rows_here();
        if row >= 0 && (row as usize) < n {
            self.row = row as usize;
        } else {
            self.row = n;
        }
    }

    /// Moves one row on; at the end it stays there.
    pub fn next(&mut self)
        requires
            old(self).wf(),
        ensures
            final(self).wf(),
            final(self)@ == old(self)@.at(old(self)@.row + 1),
    {
        let n: usize = self.rows_here();
        if self.row < n {
            self.row = self.row + 1;
        }
    }

    /// 1 where the cursor stands past the last row, else 0.
    pub fn is_eof(&self) -> (r: i32)
        requires
            self.wf(),
        ensures
            r == (if self@.eof() {
                1i32
            } else {
                0i32
            }),
    {
        if self.row >= self.rows_here() {
            1
        } else {
            0
        }
    }

    /// 1 where the current dataset has no row, wherever the cursor stands.
    pub fn is_empty(&self) -> (r: i32)
        requires
            self.wf(),
        ensures
            r == (if self@.row_count() == 0 {
                1i32
            } else {
                0i32
            }),
    {
        if self.rows_here() == 0 {
            1
        } else {
            0
        }
    }

    /// 1 where the last value read was the null of its type, else 0.
    pub fn was_null(&self) -> (r: i32)
        ensures
            r == (if self@.was_null {
                1i32
            } else {
                0i32
            }),
    {
        if self.null {
            1
        } else {
            0
        }
    }

    /// Number of columns in the current dataset.
    pub fn get_col_count(&self) -> (r: i32)
        requires
            self.wf(),
        ensures
            r == self@.dataset().fields.len(),
    {
        self.cols_here() as i32
    }

    /// Index of the first column under `name`, or the status for "no such
    /// column".
    pub fn find_col_index(&self, name: &str) -> (r: i32)
        requires
            self.wf(),
        ensures
            r == col_index(self@.dataset().fields, name.spec_bytes()),
            r >= 0 <==> has_col(self@.dataset().fields, name.spec_bytes()),
            r >= 0 ==> is_first_col(self@.dataset().fields, name.spec_bytes(), r as int),
    {
        let wanted = name.as_bytes();
        let n: usize = self.cols_here();
        let ghost fields = self@.dataset().fields;
        let mut i: usize = 0;
        while i < n
            invariant
                self.wf(),
                i <= n,
                n == fields.len(),
                n <= MAX_COUNT,
                fields == self@.dataset().fields,
                self.current < self.sets@.len() || n == 0,
                wanted@ == name.spec_bytes(),
                forall|j: int| 0 <= j < i ==> (#[trigger] fields[j]).name != wanted@,
            decreases n - i,
        {
            assert(self@.dataset() == self.sets@[self.current as int]@);
            assert(fields[i as int] == self.sets@[self.current as int].fields@[i as int]@);
            if bytes_eq(self.sets[self.current].fields[i].name.as_slice(), wanted) {
                proof {
                    assert(is_first_col(fields, wanted@, i as int));
                    lemma_first_col_unique(fields, wanted@, i as int, col_index(fields, wanted@));
                }
                return i as i32;
            }
            i = i + 1;
        }
        CodecError::ColumnNotFound.code()
    }

    fn field_here(&self, column: i32) -> (r: Result<&crate::f2_result_set::Field, CodecError>)
        requires
            self.wf(),
        ensures
            match self@.field(column as int) {
                Ok(f) => r is Ok && r->Ok_0@ == f,
                Err(e) => r is Err && r->Err_0 == e,
            },
    {
        let n: usize = self.cols_here();
        if column < 0 || column as usize >= n {
            return Err(CodecError::ColumnNotFound);
        }
        assert(self@.dataset() == self.sets@[self.current as int]@);
        assert(self@.dataset().fields[column as int] == self.sets@[self.current as int].fields@[column as int]@);
        Ok(&self.sets[self.current].fields[column as usize])
    }

    /// Name of a column, decoded lossily.
    pub fn get_col_name(&self, column: i32) -> (r: Result<String, CodecError>)
        requires
            self.wf(),
        ensures
            match self@.field(column as int) {
                Ok(f) => r is Ok && r->Ok_0@ == utf8_lossy(f.name),
                Err(e) => r is Err && r->Err_0 == e,
            },
    {
        match self.field_here(column) {
            Ok(f) => Ok(lossy_string(f.name.as_slice())),
            Err(e) => Err(e),
        }
    }

    /// Type character of a column: one of `I D C S R`.
    pub fn get_col_type(&self, column: i32) -> (r: Result<u8, CodecError>)
        requires
            self.wf(),
        ensures
            match self@.field(column as int) {
                Ok(f) => r == Ok::<u8, CodecError>(type_char(f.kind)),
                Err(e) => r == Err::<u8, CodecError>(e),
            },
    {
        match self.field_here(column) {
            Ok(f) => Ok(f.kind.to_char()),
            Err(e) => Err(e),
        }
    }

    /// Declared scale of a column.
    pub fn get_col_scale(&self, column: i32) -> (r: Result<i32, CodecError>)
        requires
            self.wf(),
        ensures
            match self@.field(column as int) {
                Ok(f) => r == Ok::<i32, CodecError>(f.scale),
                Err(e) => r == Err::<i32, CodecError>(e),
            },
    {
        match self.field_here(column) {
            Ok(f) => Ok(f.scale),
            Err(e) => Err(e),
        }
    }

    /// Declared width of a column.
    pub fn get_col_width(&self, column: i32) -> (r: Result<i32, CodecError>)
        requires
            self.wf(),
        ensures
            match self@.field(column as int) {
                Ok(f) => r == Ok::<i32, CodecError>(f.width),
                Err(e) => r == Err::<i32, CodecError>(e),
            },
    {
        match self.field_here(column) {
            Ok(f) => Ok(f.width),
            Err(e) => Err(e),
        }
    }

    /// Type character of the first column under `name`.
    pub fn get_col_type_by_name(&self, name: &str) -> (r: Result<u8, CodecError>)
        requires
            self.wf(),
        ensures
            match self@.field(col_index(self@.dataset().fields, name.spec_bytes())) {
                Ok(f) => r == Ok::<u8, CodecError>(type_char(f.kind)),
                Err(e) => r == Err::<u8, CodecError>(e),
            },
    {
        let column: i32 = self.find_col_index(name);
        self.get_col_type(column)
    }

    /// Declared scale of the first column under `name`.
    pub fn get_col_scale_by_name(&self, name: &str) -> (r: Result<i32, CodecError>)
        requires
            self.wf(),
        ensures
            match self@.field(col_index(self@.dataset().fields, name.spec_bytes())) {
                Ok(f) => r == Ok::<i32, CodecError>(f.scale),
                Err(e) => r == Err::<i32, CodecError>(e),
            },
    {
        let column: i32 = self.find_col_index(name);
        self.get_col_scale(column)
    }

    /// Declared width of the first column under `name`.
    pub fn get_col_width_by_name(&self, name: &str) -> (r: Result<i32, CodecError>)
        requires
            self.wf(),
        ensures
            match self@.field(col_index(self@.dataset().fields, name.spec_bytes())) {
                Ok(f) => r == Ok::<i32, CodecError>(f.width),
                Err(e) => r == Err::<i32, CodecError>(e),
            },
    {
        let column: i32 = self.find_col_index(name);
        self.get_col_width(column)
    }

    /// The value of a column in the current row, asked for as `kind`.
    fn cell_here(&self, column: i32, kind: FieldType) -> (r: Result<&Value, CodecError>)
        requires
            self.wf(),
        ensures
            match self@.cell(column as int, kind) {
                Ok(v) => r is Ok && r->Ok_0@ == v && crate::f2_record::value_kind(v) == kind,
                Err(e) => r is Err && r->Err_0 == e,
            },
    {
        let f = match self.field_here(column) {
            Ok(f) => f,
            Err(e) => {
                return Err(e);
            },
        };
        if f.kind != kind {
            return Err(CodecError::TypeMismatch);
        }
        let n: usize = self.rows_here();
        if self.row >= n {
            return Err(CodecError::EndOfData);
        }
        proof {
            let d = self.sets@[self.current as int];
            assert(self@.dataset() == d@);
            assert(datasets_view(self.sets@)[self.current as int] == d@);
            assert(crate::f2_record::dataset_wf(d@));
            assert(d@.rows[self.row as int] == crate::f2_result_set::values_view(
                d.rows@[self.row as int]@,
            ));
            assert(d@.rows[self.row as int].len() == d@.fields.len());
            assert(value_fits(d@.fields[column as int], d@.rows[self.row as int][column as int]));
        }
        Ok(&self.sets[self.current].rows[self.row][column as usize])
    }

    /// The integer in a column of the current row.
    pub fn get_int_by_index(&mut self, column: i32) -> (r: Result<i32, CodecError>)
        requires
            old(self).wf(),
        ensures
            final(self).wf(),
            final(self)@ == old(self)@.marked(column as int, FieldType::Integer32),
            match old(self)@.cell(column as int, FieldType::Integer32) {
                Ok(v) => r == Ok::<i32, CodecError>(v->Int_0),
                Err(e) => r == Err::<i32, CodecError>(e),
            },
    {
        let r = match self.cell_here(column, FieldType::Integer32) {
            Ok(Value::Int(x)) => Ok(*x),
            Ok(_) => Err(CodecError::TypeMismatch),
            Err(e) => Err(e),
        };
        self.null = match r {
            Ok(x) => x == NULL_INT,
            Err(_) => false,
        };
        r
    }

    /// The integer in the first column under `name` of the current row.
    pub fn get_int(&mut self, name: &str) -> (r: Result<i32, CodecError>)
        requires
            old(self).wf(),
        ensures
            final(self).wf(),
            final(self)@ == old(self)@.marked(
                col_index(old(self)@.dataset().fields, name.spec_bytes()),
                FieldType::Integer32,
            ),
            match old(self)@.cell(
                col_index(old(self)@.dataset().fields, name.spec_bytes()),
                FieldType::Integer32,
            ) {
                Ok(v) => r == Ok::<i32, CodecError>(v->Int_0),
                Err(e) => r == Err::<i32, CodecError>(e),
            },
    {
        let column: i32 = self.find_col_index(name);
        self.get_int_by_index(column)
    }

    /// The double, as its 64 bits, in a column of the current row.
    pub fn get_double_by_index(&mut self, column: i32) -> (r: Result<u64, CodecError>)
        requires
            old(self).wf(),
        ensures
            final(self).wf(),
            final(self)@ == old(self)@.marked(column as int, FieldType::Double),
            match old(self)@.cell(column as int, FieldType::Double) {
                Ok(v) => r == Ok::<u64, CodecError>(v->Double_0),
                Err(e) => r == Err::<u64, CodecError>(e),
            },
    {
        let r = match self.cell_here(column, FieldType::Double) {
            Ok(Value::Double(x)) => Ok(*x),
            Ok(_) => Err(CodecError::TypeMismatch),
            Err(e) => Err(e),
        };
        self.null = match r {
            Ok(x) => x == NULL_DOUBLE_BITS,
            Err(_) => false,
        };
        r
    }

    /// The double, as its 64 bits, in the first column under `name`.
    pub fn get_double(&mut self, name: &str) -> (r: Result<u64, CodecError>)
        requires
            old(self).wf(),
        ensures
            final(self).wf(),
            final(self)@ == old(self)@.marked(
                col_index(old(self)@.dataset().fields, name.spec_bytes()),
                FieldType::Double,
            ),
            match old(self)@.cell(
                col_index(old(self)@.dataset().fields, name.spec_bytes()),
                FieldType::Double,
            ) {
                Ok(v) => r == Ok::<u64, CodecError>(v->Double_0),
                Err(e) => r == Err::<u64, CodecError>(e),
            },
    {
        let column: i32 = self.find_col_index(name);
        self.get_double_by_index(column)
    }

    /// The character in a column of the current row.
    pub fn get_char_by_index(&mut self, column: i32) -> (r: Result<u8, CodecError>)
        requires
            old(self).wf(),
        ensures
            final(self).wf(),
            final(self)@ == old(self)@.marked(column as int, FieldType::Char),
            match old(self)@.cell(column as int, FieldType::Char) {
                Ok(v) => r == Ok::<u8, CodecError>(v->Char_0),
                Err(e) => r == Err::<u8, CodecError>(e),
            },
    {
        let r = match self.cell_here(column, FieldType::Char) {
            Ok(Value::Char(x)) => Ok(*x),
            Ok(_) => Err(CodecError::TypeMismatch),
            Err(e) => Err(e),
        };
        self.null = match r {
            Ok(x) => x == NULL_CHAR,
            Err(_) => false,
        };
        r
    }

    /// The character in the first column under `name` of the current row.
    pub fn get_char(&mut self, name: &str) -> (r: Result<u8, CodecError>)
        requires
            old(self).wf(),
        ensures
            final(self).wf(),
            final(self)@ == old(self)@.marked(
                col_index(old(self)@.dataset().fields, name.spec_bytes()),
                FieldType::Char,
            ),
            match old(self)@.cell(
                col_index(old(self)@.dataset().fields, name.spec_bytes()),
                FieldType::Char,
            ) {
                Ok(v) => r == Ok::<u8, CodecError>(v->Char_0),
                Err(e) => r == Err::<u8, CodecError>(e),
            },
    {
        let column: i32 = self.find_col_index(name);
        self.get_char_by_index(column)
    }

    /// The raw bytes in a column of the current row.
    pub fn get_raw_by_index(&mut self, column: i32) -> (r: Result<Vec<u8>, CodecError>)
        requires
            old(self).wf(),
        ensures
            final(self).wf(),
            final(self)@ == old(self)@.marked(column as int, FieldType::Raw),
            match old(self)@.cell(column as int, FieldType::Raw) {
                Ok(v) => r is Ok && r->Ok_0@ == v->Raw_0,
                Err(e) => r is Err && r->Err_0 == e,
            },
    {
        let r = match self.cell_here(column, FieldType::Raw) {
            Ok(Value::Raw(b)) => Ok(slice_to_vec(b.as_slice())),
            Ok(_) => Err(CodecError::TypeMismatch),
            Err(e) => Err(e),
        };
        self.null = match &r {
            Ok(b) => b.len() == 0,
            Err(_) => false,
        };
        r
    }

    /// The raw bytes in the first column under `name` of the current row.
    pub fn get_raw(&mut self, name: &str) -> (r: Result<Vec<u8>, CodecError>)
        requires
            old(self).wf(),
        ensures
            final(self).wf(),
            final(self)@ == old(self)@.marked(
                col_index(old(self)@.dataset().fields, name.spec_bytes()),
                FieldType::Raw,
            ),
            match old(self)@.cell(
                col_index(old(self)@.dataset().fields, name.spec_bytes()),
                FieldType::Raw,
            ) {
                Ok(v) => r is Ok && r->Ok_0@ == v->Raw_0,
                Err(e) => r is Err && r->Err_0 == e,
            },
    {
        let column: i32 = self.find_col_index(name);
        self.get_raw_by_index(column)
    }

    /// The bytes of the string in a column of the current row.
    pub fn get_str_bytes_by_index(&mut self, column: i32) -> (r: Result<Vec<u8>, CodecError>)
        requires
            old(self).wf(),
        ensures
            final(self).wf(),
            final(self)@ == old(self)@.marked(column as int, FieldType::Str),
            match old(self)@.cell(column as int, FieldType::Str) {
                Ok(v) => r is Ok && r->Ok_0@ == v->Str_0,
                Err(e) => r is Err && r->Err_0 == e,
            },
    {
        let r = match self.cell_here(column, FieldType::Str) {
            Ok(Value::Str(b)) => Ok(slice_to_vec(b.as_slice())),
            Ok(_) => Err(CodecError::TypeMismatch),
            Err(e) => Err(e),
        };
        self.null = match &r {
            Ok(b) => b.len() == 0,
            Err(_) => false,
        };
        r
    }

    /// The string in a column of the current row, decoded lossily.
    pub fn get_str_by_index(&mut self, column: i32) -> (r: Result<String, CodecError>)
        requires
            old(self).wf(),
        ensures
            final(self).wf(),
            final(self)@ == old(self)@.marked(column as int, FieldType::Str),
            match old(self)@.cell(column as int, FieldType::Str) {
                Ok(v) => r is Ok && r->Ok_0@ == utf8_lossy(v->Str_0) && (valid_utf8(v->Str_0)
                    ==> r->Ok_0@ == decode_utf8(v->Str_0)),
                Err(e) => r is Err && r->Err_0 == e,
            },
    {
        match self.get_str_bytes_by_index(column) {
            Ok(b) => Ok(lossy_string(b.as_slice())),
            Err(e) => Err(e),
        }
    }

    /// The string in the first column under `name` of the current row,
    /// decoded lossily.
    pub fn get_str(&mut self, name: &str) -> (r: Result<String, CodecError>)
        requires
            old(self).wf(),
        ensures
            final(self).wf(),
            final(self)@ == old(self)@.marked(
                col_index(old(self)@.dataset().fields, name.spec_bytes()),
                FieldType::Str,
            ),
            match old(self)@.cell(
                col_index(old(self)@.dataset().fields, name.spec_bytes()),
                FieldType::Str,
            ) {
                Ok(v) => r is Ok && r->Ok_0@ == utf8_lossy(v->Str_0) && (valid_utf8(v->Str_0)
                    ==> r->Ok_0@ == decode_utf8(v->Str_0)),
                Err(e) => r is Err && r->Err_0 == e,
            },
    {
        let column: i32 = self.find_col_index(name);
        self.get_str_by_index(column)
    }
}

} // verus!
