use vstd::prelude::*;
use crate::lang::{COLUMN_PATTERN, check_column, is_valid_column, regex_compiles, normalize_lang_code, normalized, str_eq};
use crate::tmx::{Tuv, TranslationUnit, doc_name_index};
use crate::types::{RequestedLangs, includes};

verus! {

/// How many rows a batch holds before it is committed as one transaction.
pub const TRANSACTION_SIZE: usize = 20_000;

/// A column identifier and the text stored under it.
pub type CellModel = (Seq<char>, Seq<char>);

/// What a row insert stands for.
pub struct RowModel {
    pub sequential_number: u32,
    pub document_id: u64,
    pub cells: Seq<CellModel>,
}

/// What a store operation stands for.
pub enum OpModel {
    InsertDocument { id: u64, name: Seq<char> },
    AddColumn(Seq<char>),
    Commit(Seq<RowModel>),
}

/// One translation-unit row to insert: its position in its document, its
/// document's id, and one `(column, text)` pair per language it holds.
#[derive(Debug)]
pub struct RowInsert {
    pub sequential_number: u32,
    pub document_id: u64,
    pub cells: Vec<(String, String)>,
}

/// An operation on the store, in the order the writer requires it.
#[derive(Debug)]
pub enum StoreOp {
    /// Insert a document row with this id and name.
    InsertDocument { id: u64, name: String },
    /// Add a nullable text column to the translation-unit table.
    AddColumn(String),
    /// Insert these rows in one transaction.
    Commit(Vec<RowInsert>),
}

/// Why a translation unit could not be written.
pub enum WriterError {
    /// The unit names no document.
    MissingDocumentIdentity,
    /// A language code does not normalize to a valid column identifier.
    InvalidLanguageCode(String),
    /// The column pattern could not be compiled.
    Pattern(regex::Error),
    /// Every document id is taken.
    TooManyDocuments,
}

/// What a `(column, text)` pair stands for.
pub open spec fn cell_model(c: (String, String)) -> CellModel {
    (c.0@, c.1@)
}

impl RowInsert {
    /// What the row insert stands for.
    pub open spec fn model(&self) -> RowModel {
        RowModel {
            sequential_number: self.sequential_number,
            document_id: self.document_id,
            cells: self.cells@.map_values(|c: (String, String)| cell_model(c)),
        }
    }
}

/// What a sequence of row inserts stands for.
pub open spec fn rows_model(rows: Seq<RowInsert>) -> Seq<RowModel> {
    rows.map_values(|r: RowInsert| r.model())
}

impl StoreOp {
    /// What the operation stands for.
    pub open spec fn model(&self) -> OpModel {
        match self {
            StoreOp::InsertDocument { id, name } => OpModel::InsertDocument { id: *id, name: name@ },
            StoreOp::AddColumn(c) => OpModel::AddColumn(c@),
            StoreOp::Commit(rows) => OpModel::Commit(rows_model(rows@)),
        }
    }
}

/// What a sequence of store operations stands for.
pub open spec fn ops_model(ops: Seq<StoreOp>) -> Seq<OpModel> {
    ops.map_values(|o: StoreOp| o.model())
}

/// The rows that the commits among `ops` insert, in order.
pub open spec fn committed_rows(ops: Seq<OpModel>) -> Seq<RowModel>
    decreases ops.len(),
{
    if ops.len() == 0 {
        Seq::empty()
    } else {
        committed_rows(ops.drop_last()) + match ops.last() {
            OpModel::Commit(rows) => rows,
            _ => Seq::empty(),
        }
    }
}

/// Whether text in `lang` goes into the output under the filter.
pub open spec fn eligible(langs: RequestedLangs, lang: Seq<char>) -> bool {
    match langs {
        RequestedLangs::Unlimited => true,
        RequestedLangs::Any(l) => exists|k: int| 0 <= k < l@.len() && #[trigger] l@[k]@ == lang,
        RequestedLangs::Each(l) => exists|k: int| 0 <= k < l@.len() && #[trigger] l@[k]@ == lang,
    }
}

/// Whether some cell is stored under `column`.
pub open spec fn has_column(cells: Seq<CellModel>, column: Seq<char>) -> bool {
    exists|i: int| 0 <= i < cells.len() && #[trigger] cells[i].0 == column
}

/// The cells of a unit's row: for each eligible segment in order, its text
/// under its normalized language, unless an earlier segment took that column.
pub open spec fn unit_cells(segments: Seq<Tuv>, langs: RequestedLangs) -> Seq<CellModel>
    decreases segments.len(),
{
    if segments.len() == 0 {
        Seq::empty()
    } else {
        let prev = unit_cells(segments.drop_last(), langs);
        let s = segments.last();
        let c = normalized(s.lang@);
        if eligible(langs, s.lang@) && !has_column(prev, c) {
            prev.push((c, s.content@))
        } else {
            prev
        }
    }
}

/// Whether every eligible segment's language makes a valid column.
pub open spec fn columns_valid(segments: Seq<Tuv>, langs: RequestedLangs) -> bool {
    forall|j: int|
        0 <= j < segments.len() && eligible(langs, #[trigger] segments[j].lang@)
            ==> is_valid_column(normalized(segments[j].lang@))
}

/// The columns of a row's cells, in order.
pub open spec fn cell_columns(cells: Seq<CellModel>) -> Seq<Seq<char>> {
    cells.map_values(|c: CellModel| c.0)
}

/// The columns of `cells` that `registry` lacks, in order.
pub open spec fn new_columns(registry: Seq<Seq<char>>, cells: Seq<CellModel>) -> Seq<Seq<char>>
    decreases cells.len(),
{
    if cells.len() == 0 {
        Seq::empty()
    } else {
        let prev = new_columns(registry, cells.drop_last());
        let c = cells.last().0;
        if registry.contains(c) {
            prev
        } else {
            prev.push(c)
        }
    }
}

/// Every new column is the column of some cell.
proof fn lemma_new_columns_from_cells(registry: Seq<Seq<char>>, cells: Seq<CellModel>)
    ensures
        forall|a: int| 0 <= a < new_columns(registry, cells).len()
            ==> has_column(cells, #[trigger] new_columns(registry, cells)[a]),
    decreases cells.len(),
{
    if cells.len() > 0 {
        let prev = cells.drop_last();
        lemma_new_columns_from_cells(registry, prev);
        let nc = new_columns(registry, cells);
        assert forall|a: int| 0 <= a < nc.len() implies has_column(cells, #[trigger] nc[a]) by {
            if a < new_columns(registry, prev).len() {
                let x = nc[a];
                assert(has_column(prev, x));
                let b = choose|b: int| 0 <= b < prev.len() && #[trigger] prev[b].0 == x;
                assert(cells[b].0 == x);
            } else {
                assert(cells[cells.len() - 1].0 == nc[a]);
            }
        }
    }
}

/// One column-adding operation per column, in order.
pub open spec fn add_column_ops(columns: Seq<Seq<char>>) -> Seq<OpModel> {
    columns.map_values(|c: Seq<char>| OpModel::AddColumn(c))
}

/// The characters of each string.
pub open spec fn strings_model(v: Seq<String>) -> Seq<Seq<char>> {
    v.map_values(|s: String| s@)
}

/// Turns accepted translation units into store operations: document rows on
/// first sight of a name, language columns on first sight of a language, and
/// row inserts committed in batches.
pub struct Writer {
    columns: Vec<String>,
    docs: Vec<String>,
    batch: Vec<RowInsert>,
    requested_langs: RequestedLangs,
    valid_columns: Vec<String>,
    batch_size: usize,
}

impl Writer {
    /// The language columns created so far, in order of creation.
    pub closed spec fn column_names(&self) -> Seq<Seq<char>> {
        strings_model(self.columns@)
    }

    /// The documents inserted so far; the id of the document at index `i` is
    /// `i + 1`.
    pub closed spec fn doc_names(&self) -> Seq<Seq<char>> {
        strings_model(self.docs@)
    }

    /// The rows waiting for the next commit.
    pub closed spec fn pending(&self) -> Seq<RowModel> {
        rows_model(self.batch@)
    }

    /// The language filter the writer applies.
    pub closed spec fn langs(&self) -> RequestedLangs {
        self.requested_langs
    }

    /// How many rows make a full batch.
    pub closed spec fn max_batch(&self) -> nat {
        self.batch_size as nat
    }

    /// The writer's invariant: batches stay below their bound, and document
    /// names and columns are never repeated.
    pub closed spec fn wf(&self) -> bool {
        &&& self.batch_size > 0
        &&& self.batch@.len() < self.batch_size
        &&& self.doc_names().no_duplicates()
        &&& self.doc_names().len() < u64::MAX
        &&& self.column_names().no_duplicates()
        &&& forall|i: int| 0 <= i < self.valid_columns@.len()
            ==> is_valid_column(#[trigger] self.valid_columns@[i]@) && regex_compiles(COLUMN_PATTERN@)
    }

    /// The id of a document name among `docs`, if it is there.
    pub open spec fn doc_id(docs: Seq<Seq<char>>, name: Seq<char>) -> u64 {
        (docs.index_of(name) + 1) as u64
    }

    /// A writer that commits every `batch_size` rows.
    pub fn with_batch_size(requested_langs: RequestedLangs, batch_size: usize) -> (w: Writer)
        requires
            batch_size > 0,
        ensures
            w.wf(),
            w.langs() == requested_langs,
            w.max_batch() == batch_size,
            w.column_names() == Seq::<Seq<char>>::empty(),
            w.doc_names() == Seq::<Seq<char>>::empty(),
            w.pending() == Seq::<RowModel>::empty(),
    {
        let w = Writer {
            columns: Vec::new(),
            docs: Vec::new(),
            batch: Vec::new(),
            requested_langs,
            valid_columns: Vec::new(),
            batch_size,
        };
        proof {
            assert(w.column_names() =~= Seq::<Seq<char>>::empty());
            assert(w.doc_names() =~= Seq::<Seq<char>>::empty());
            assert(w.pending() =~= Seq::<RowModel>::empty());
        }
        w
    }

    /// A writer with the default batch size.
    pub fn new(requested_langs: RequestedLangs) -> (w: Writer)
        ensures
            w.wf(),
            w.langs() == requested_langs,
            w.max_batch() == TRANSACTION_SIZE,
            w.column_names() == Seq::<Seq<char>>::empty(),
            w.doc_names() == Seq::<Seq<char>>::empty(),
            w.pending() == Seq::<RowModel>::empty(),
    {
        Writer::with_batch_size(requested_langs, TRANSACTION_SIZE)
    }
}

/// Whether a cell among `cells` is stored under `column`.
fn cells_have_column(cells: &Vec<(String, String)>, column: &String) -> (r: bool)
    ensures
        r == has_column(cells@.map_values(|c: (String, String)| cell_model(c)), column@),
{
    let ghost m = cells@.map_values(|c: (String, String)| cell_model(c));
    let mut i: usize = 0;
    while i < cells.len()
        invariant
            i <= cells@.len(),
            m == cells@.map_values(|c: (String, String)| cell_model(c)),
            forall|j: int| 0 <= j < i ==> #[trigger] m[j].0 != column@,
        decreases cells@.len() - i,
    {
        if str_eq(cells[i].0.as_str(), column.as_str()) {
            assert(m[i as int].0 == column@);
            return true;
        }
        i = i + 1;
    }
    false
}

/// The index of `s` in `v`, searching from the end.
fn position_of(v: &Vec<String>, s: &String) -> (r: Option<usize>)
    ensures
        match r {
            Some(i) => i < v@.len() && v@[i as int]@ == s@,
            None => !strings_model(v@).contains(s@),
        },
{
    let mut i: usize = v.len();
    while i > 0
        invariant
            i <= v@.len(),
            forall|j: int| i <= j < v@.len() ==> #[trigger] v@[j]@ != s@,
        decreases i,
    {
        if str_eq(v[i - 1].as_str(), s.as_str()) {
            return Some(i - 1);
        }
        i = i - 1;
    }
    proof {
        if strings_model(v@).contains(s@) {
            let j = choose|j: int| 0 <= j < strings_model(v@).len() && strings_model(v@)[j] == s@;
            assert(v@[j]@ == s@);
        }
    }
    None
}

/// Whether `lang` is one of the requested languages `l`.
fn is_listed(l: &Vec<String>, lang: &String) -> (r: bool)
    ensures
        r == exists|k: int| 0 <= k < l@.len() && #[trigger] l@[k]@ == lang@,
{
    let found = position_of(l, lang);
    proof {
        if found is None && exists|k: int| 0 <= k < l@.len() && #[trigger] l@[k]@ == lang@ {
            let k = choose|k: int| 0 <= k < l@.len() && #[trigger] l@[k]@ == lang@;
            assert(strings_model(l@)[k] == lang@);
        }
    }
    found.is_some()
}

impl Writer {
    /// Whether text in `lang` goes into the output.
    fn lang_is_eligible(&self, lang: &String) -> (r: bool)
        ensures
            r == eligible(self.langs(), lang@),
    {
        match &self.requested_langs {
            RequestedLangs::Unlimited => true,
            RequestedLangs::Each(l) => is_listed(l, lang),
            RequestedLangs::Any(l) => is_listed(l, lang),
        }
    }

    /// Whether a normalized identifier may name a column, remembering the
    /// identifiers found valid.
    fn column_is_valid(&mut self, column: &String) -> (r: Result<bool, WriterError>)
        requires
            old(self).wf(),
        ensures
            final(self).wf(),
            final(self).column_names() == old(self).column_names(),
            final(self).doc_names() == old(self).doc_names(),
            final(self).pending() == old(self).pending(),
            final(self).langs() == old(self).langs(),
            final(self).max_batch() == old(self).max_batch(),
            r is Ok <==> regex_compiles(COLUMN_PATTERN@),
            r matches Ok(b) ==> b == is_valid_column(column@),
            r matches Err(e) ==> e is Pattern,
    {
        if let Some(i) = position_of(&self.valid_columns, column) {
            assert(is_valid_column(self.valid_columns@[i as int]@));
            return Ok(true);
        }
        match check_column(column.as_str()) {
            Ok(b) => {
                if b {
                    self.valid_columns.push(column.clone());
                    assert(forall|i: int| 0 <= i < self.valid_columns@.len()
                        ==> is_valid_column(#[trigger] self.valid_columns@[i]@) && regex_compiles(COLUMN_PATTERN@));
                }
                Ok(b)
            },
            Err(e) => Err(WriterError::Pattern(e)),
        }
    }
}

/// No two cells of a unit's row share a column.
proof fn lemma_unit_cells_distinct(segments: Seq<Tuv>, langs: RequestedLangs)
    ensures
        cell_columns(unit_cells(segments, langs)).no_duplicates(),
    decreases segments.len(),
{
    if segments.len() > 0 {
        lemma_unit_cells_distinct(segments.drop_last(), langs);
        let prev = unit_cells(segments.drop_last(), langs);
        let cur = unit_cells(segments, langs);
        if cur.len() > prev.len() {
            assert forall|a: int, b: int|
                0 <= a < cell_columns(cur).len() && 0 <= b < cell_columns(cur).len() && a != b
                    implies cell_columns(cur)[a] != cell_columns(cur)[b] by {
                if a < prev.len() && b < prev.len() {
                    assert(cell_columns(prev)[a] != cell_columns(prev)[b]);
                } else if a < prev.len() {
                    assert(prev[a].0 != cur[b].0);
                } else {
                    assert(prev[b].0 != cur[a].0);
                }
            }
        }
    }
}

impl Writer {
    /// The cells of a unit's row, after checking that every eligible
    /// segment's language makes a valid column.
    fn row_cells(&mut self, segments: &Vec<Tuv>) -> (r: Result<Vec<(String, String)>, WriterError>)
        requires
            old(self).wf(),
        ensures
            final(self).wf(),
            final(self).column_names() == old(self).column_names(),
            final(self).doc_names() == old(self).doc_names(),
            final(self).pending() == old(self).pending(),
            final(self).langs() == old(self).langs(),
            final(self).max_batch() == old(self).max_batch(),
            r matches Ok(cells) ==> columns_valid(segments@, old(self).langs())
                && cells@.map_values(|c: (String, String)| cell_model(c)) == unit_cells(segments@, old(self).langs()),
            r matches Err(e) ==> (e is Pattern && !regex_compiles(COLUMN_PATTERN@)) || (e is InvalidLanguageCode
                && regex_compiles(COLUMN_PATTERN@) && !columns_valid(segments@, old(self).langs())),
    {
        let ghost langs = self.langs();
        let mut cells: Vec<(String, String)> = Vec::new();
        let mut j: usize = 0;
        while j < segments.len()
            invariant
                j <= segments@.len(),
                self.wf(),
                self.column_names() == old(self).column_names(),
                self.doc_names() == old(self).doc_names(),
                self.pending() == old(self).pending(),
                self.langs() == langs,
                langs == old(self).langs(),
                self.max_batch() == old(self).max_batch(),
                columns_valid(segments@.subrange(0, j as int), langs),
                cells@.map_values(|c: (String, String)| cell_model(c)) == unit_cells(segments@.subrange(0, j as int), langs),
            decreases segments@.len() - j,
        {
            let ghost pre = segments@.subrange(0, j as int);
            let ghost next = segments@.subrange(0, j + 1);
            assert(next.drop_last() =~= pre);
            let seg = &segments[j];
            if self.lang_is_eligible(&seg.lang) {
                let c = normalize_lang_code(seg.lang.as_str());
                match self.column_is_valid(&c) {
                    Ok(valid) => {
                        if !valid {
                            assert(segments@[j as int] == seg);
                            return Err(WriterError::InvalidLanguageCode(c));
                        }
                    },
                    Err(e) => {
                        return Err(e);
                    },
                }
                if !cells_have_column(&cells, &c) {
                    cells.push((c, seg.content.clone()));
                    assert(cells@.map_values(|c: (String, String)| cell_model(c)) =~=
                        unit_cells(pre, langs).push((normalized(seg.lang@), seg.content@)));
                }
            }
            assert(columns_valid(next, langs)) by {
                assert forall|k: int| 0 <= k < next.len() && eligible(langs, #[trigger] next[k].lang@)
                    implies is_valid_column(normalized(next[k].lang@)) by {
                    if k < j {
                        assert(next[k] == pre[k]);
                    }
                }
            }
            j = j + 1;
        }
        assert(segments@.subrange(0, segments@.len() as int) =~= segments@);
        Ok(cells)
    }
}

/// The name of the document a unit belongs to, when it has one.
pub open spec fn unit_doc_name(tu: TranslationUnit) -> Seq<char> {
    tu.props@[doc_name_index(tu.props@)->0].value@
}

/// The documents known after one named `name` has been seen.
pub open spec fn docs_after(docs: Seq<Seq<char>>, name: Seq<char>) -> Seq<Seq<char>> {
    if docs.contains(name) {
        docs
    } else {
        docs.push(name)
    }
}

/// The document insert, if any, that seeing `name` calls for.
pub open spec fn doc_ops(docs: Seq<Seq<char>>, name: Seq<char>) -> Seq<OpModel> {
    if docs.contains(name) {
        Seq::empty()
    } else {
        seq![OpModel::InsertDocument { id: (docs.len() + 1) as u64, name }]
    }
}

/// The row that a unit with sequence number `seq` becomes in writer `w`.
pub open spec fn unit_row(w: Writer, tu: TranslationUnit, seq: u32) -> RowModel {
    let name = unit_doc_name(tu);
    RowModel {
        sequential_number: seq,
        document_id: Writer::doc_id(docs_after(w.doc_names(), name), name),
        cells: unit_cells(tu.segments@, w.langs()),
    }
}

/// How writer `new` and the operations `new_ops` follow from `old` and
/// `old_ops` once unit `tu` has been handled with sequence number `seq`.
pub open spec fn handled(
    old: Writer,
    new: Writer,
    old_ops: Seq<OpModel>,
    new_ops: Seq<OpModel>,
    tu: TranslationUnit,
    seq: u32,
) -> bool {
    let name = unit_doc_name(tu);
    let cells = unit_cells(tu.segments@, old.langs());
    let added = new_columns(old.column_names(), cells);
    let pre = old_ops + doc_ops(old.doc_names(), name) + add_column_ops(added);
    let row = unit_row(old, tu, seq);
    &&& new.doc_names() == docs_after(old.doc_names(), name)
    &&& new.column_names() == old.column_names() + added
    &&& new.langs() == old.langs()
    &&& new.max_batch() == old.max_batch()
    &&& if old.pending().len() + 1 >= old.max_batch() {
        &&& new_ops == pre.push(OpModel::Commit(old.pending().push(row)))
        &&& new.pending() == Seq::<RowModel>::empty()
    } else {
        &&& new_ops == pre
        &&& new.pending() == old.pending().push(row)
    }
}

proof fn lemma_index_of_unique(s: Seq<Seq<char>>, i: int)
    requires
        s.no_duplicates(),
        0 <= i < s.len(),
    ensures
        s.index_of(s[i]) == i,
{
    assert(s.contains(s[i]));
    let k = s.index_of(s[i]);
    assert(s[k] == s[i]);
}

impl Writer {
    /// Turns one translation unit, numbered `sequential_number` within its
    /// document, into store operations appended to `ops`: the document row
    /// if its name is new, a column for each new language, and the row,
    /// with a commit once the batch is full. On error nothing changes.
    pub fn handle(&mut self, tu: &TranslationUnit, sequential_number: u32, ops: &mut Vec<StoreOp>) -> (r: Result<(), WriterError>)
        requires
            old(self).wf(),
            doc_name_index(tu.props@) is Some,
        ensures
            final(self).wf(),
            !(r matches Err(WriterError::MissingDocumentIdentity)),
            r matches Err(WriterError::InvalidLanguageCode(_)) ==> regex_compiles(COLUMN_PATTERN@)
                && !columns_valid(tu.segments@, old(self).langs()),
            r matches Err(WriterError::Pattern(_)) ==> !regex_compiles(COLUMN_PATTERN@),
            r matches Err(WriterError::TooManyDocuments) ==> old(self).doc_names().len() == u64::MAX - 1,
            r is Err ==> final(self).column_names() == old(self).column_names()
                && final(self).doc_names() == old(self).doc_names()
                && final(self).pending() == old(self).pending()
                && final(self).langs() == old(self).langs()
                && final(self).max_batch() == old(self).max_batch()
                && final(ops)@ == old(ops)@,
            columns_valid(tu.segments@, old(self).langs()) && regex_compiles(COLUMN_PATTERN@)
                && old(self).doc_names().len() < u64::MAX - 1 ==> r is Ok,
            r is Ok ==> columns_valid(tu.segments@, old(self).langs()),
            r is Ok ==> handled(*old(self), *final(self), ops_model(old(ops)@), ops_model(final(ops)@), *tu, sequential_number),
    {
        let name = tu.doc_name().unwrap();
        let ghost old_self = *self;
        let ghost old_ops = ops_model(ops@);
        let cells = match self.row_cells(&tu.segments) {
            Ok(c) => c,
            Err(e) => {
                return Err(e);
            },
        };
        let ghost cm = cells@.map_values(|c: (String, String)| cell_model(c));
        proof {
            lemma_unit_cells_distinct(tu.segments@, old_self.langs());
        }
        // The document row.
        let document_id: u64 = match position_of(&self.docs, name) {
            Some(i) => {
                proof {
                    lemma_index_of_unique(self.doc_names(), i as int);
                    assert(self.doc_names()[i as int] == name@);
                    assert(old_self.doc_names().contains(name@));
                }
                (i as u64) + 1
            },
            None => {
                let n = self.docs.len() as u64;
                if n == u64::MAX - 1 {
                    return Err(WriterError::TooManyDocuments);
                }
                self.docs.push(name.clone());
                ops.push(StoreOp::InsertDocument { id: n + 1, name: name.clone() });
                proof {
                    assert(self.doc_names() =~= old_self.doc_names().push(name@));
                    assert(self.doc_names().no_duplicates());
                    lemma_index_of_unique(self.doc_names(), n as int);
                }
                n + 1
            },
        };
        proof {
            assert(ops_model(ops@) =~= old_ops + doc_ops(old_self.doc_names(), name@));
        }
        let ghost ops_after_doc = ops_model(ops@);
        // The language columns.
        let mut k: usize = 0;
        while k < cells.len()
            invariant
                k <= cells@.len(),
                cm == cells@.map_values(|c: (String, String)| cell_model(c)),
                cm == unit_cells(tu.segments@, old_self.langs()),
                cell_columns(cm).no_duplicates(),
                self.wf(),
                self.doc_names() == docs_after(old_self.doc_names(), name@),
                self.pending() == old_self.pending(),
                self.langs() == old_self.langs(),
                self.max_batch() == old_self.max_batch(),
                self.column_names() == old_self.column_names() + new_columns(old_self.column_names(), cm.subrange(0, k as int)),
                ops_model(ops@) == ops_after_doc + add_column_ops(new_columns(old_self.column_names(), cm.subrange(0, k as int))),
            decreases cells@.len() - k,
        {
            let c = &cells[k].0;
            let ghost added = new_columns(old_self.column_names(), cm.subrange(0, k as int));
            proof {
                assert(cm.subrange(0, k + 1).drop_last() =~= cm.subrange(0, k as int));
                assert(cm[k as int].0 == c@);
                // Columns added so far come from earlier cells, so none is `c`.
                lemma_new_columns_from_cells(old_self.column_names(), cm.subrange(0, k as int));
                assert(!added.contains(c@)) by {
                    if added.contains(c@) {
                        let a = choose|a: int| 0 <= a < added.len() && added[a] == c@;
                        assert(has_column(cm.subrange(0, k as int), added[a]));
                        let b = choose|b: int| 0 <= b < k && #[trigger] cm.subrange(0, k as int)[b].0 == added[a];
                        assert(cell_columns(cm)[b] == cell_columns(cm)[k as int]);
                    }
                }
            }
            let found = position_of(&self.columns, c);
            if found.is_none() {
                proof {
                    assert(!old_self.column_names().contains(c@)) by {
                        if old_self.column_names().contains(c@) {
                            let a = choose|a: int| 0 <= a < old_self.column_names().len() && old_self.column_names()[a] == c@;
                            assert(self.column_names()[a] == c@);
                        }
                    }
                }
                let ghost cols_before = self.column_names();
                let ghost ops_before = ops_model(ops@);
                self.columns.push(c.clone());
                ops.push(StoreOp::AddColumn(c.clone()));
                proof {
                    assert(new_columns(old_self.column_names(), cm.subrange(0, k + 1)) == added.push(c@));
                    assert(self.column_names() =~= cols_before.push(c@));
                    assert(ops_model(ops@) =~= ops_before.push(OpModel::AddColumn(c@)));
                    assert(add_column_ops(added.push(c@)) =~= add_column_ops(added).push(OpModel::AddColumn(c@)));
                    assert(!cols_before.contains(c@)) by {
                        if cols_before.contains(c@) {
                            let a = choose|a: int| 0 <= a < cols_before.len() && cols_before[a] == c@;
                            assert(self.columns@[a]@ == c@);
                        }
                    }
                    assert(self.column_names() =~= old_self.column_names() + added.push(c@));
                    assert(ops_model(ops@) =~= ops_after_doc + add_column_ops(added.push(c@)));
                    let names = self.column_names();
                    assert forall|a: int, b: int| 0 <= a < names.len() && 0 <= b < names.len() && a != b
                        implies names[a] != names[b] by {
                        if a < cols_before.len() && b < cols_before.len() {
                            assert(names[a] == cols_before[a] && names[b] == cols_before[b]);
                        } else if a < cols_before.len() {
                            assert(names[a] == cols_before[a]);
                        } else {
                            assert(names[b] == cols_before[b]);
                        }
                    }
                    assert(names.no_duplicates());
                }
            } else {
                proof {
                    let a = found->0 as int;
                    let olds = old_self.column_names();
                    assert(0 <= a < self.columns@.len());
                    assert(self.column_names()[a] == c@);
                    assert(self.column_names() == olds + added);
                    assert(self.column_names().len() == self.columns@.len());
                    assert(a < olds.len() + added.len());
                    if a >= olds.len() {
                        assert((olds + added)[a] == added[a - olds.len()]);
                        assert(added.contains(c@));
                    } else {
                        assert((olds + added)[a] == olds[a]);
                        assert(olds.contains(c@));
                    }
                    assert(new_columns(old_self.column_names(), cm.subrange(0, k + 1)) == added);
                }
            }
            k = k + 1;
        }
        proof {
            assert(cm.subrange(0, cells@.len() as int) =~= cm);
        }
        // The row.
        let row = RowInsert { sequential_number, document_id, cells };
        self.batch.push(row);
        proof {
            assert(self.pending() =~= old_self.pending().push(unit_row(old_self, *tu, sequential_number)));
        }
        let ghost pre = ops_model(ops@);
        proof {
            assert(pre == old_ops + doc_ops(old_self.doc_names(), unit_doc_name(*tu))
                + add_column_ops(new_columns(old_self.column_names(), unit_cells(tu.segments@, old_self.langs()))));
        }
        if self.batch.len() >= self.batch_size {
            let mut full: Vec<RowInsert> = Vec::new();
            std::mem::swap(&mut full, &mut self.batch);
            ops.push(StoreOp::Commit(full));
            proof {
                assert(self.pending() =~= Seq::<RowModel>::empty());
                assert(ops_model(ops@) =~= pre.push(OpModel::Commit(old_self.pending().push(unit_row(old_self, *tu, sequential_number)))));
            }
        }
        proof {
            assert(forall|i: int| 0 <= i < self.valid_columns@.len()
                ==> is_valid_column(#[trigger] self.valid_columns@[i]@) && regex_compiles(COLUMN_PATTERN@));
            assert(self.batch@.len() < self.batch_size);
            assert(self.doc_names().no_duplicates());
            assert(self.column_names().no_duplicates());
            assert(self.doc_names().len() < u64::MAX);
        }
        Ok(())
    }
}

/// Every row the operations and the pending batch hold, committed first.
pub open spec fn all_rows(ops: Seq<OpModel>, pending: Seq<RowModel>) -> Seq<RowModel> {
    committed_rows(ops) + pending
}

/// Operations that commit nothing add no rows.
proof fn lemma_committed_rows_append(a: Seq<OpModel>, b: Seq<OpModel>)
    requires
        forall|i: int| 0 <= i < b.len() ==> !(#[trigger] b[i] is Commit),
    ensures
        committed_rows(a + b) == committed_rows(a),
    decreases b.len(),
{
    if b.len() > 0 {
        assert((a + b).drop_last() =~= a + b.drop_last());
        assert(!(b[b.len() - 1] is Commit));
        lemma_committed_rows_append(a, b.drop_last());
        assert(committed_rows(a + b) =~= committed_rows(a + b.drop_last()));
    } else {
        assert(a + b =~= a);
    }
}

/// Handling a unit adds exactly its row to the rows held, however the
/// batches fall.
pub proof fn lemma_handled_adds_one_row(
    old: Writer,
    new: Writer,
    old_ops: Seq<OpModel>,
    new_ops: Seq<OpModel>,
    tu: TranslationUnit,
    seq: u32,
)
    requires
        handled(old, new, old_ops, new_ops, tu, seq),
    ensures
        all_rows(new_ops, new.pending()) == all_rows(old_ops, old.pending()).push(unit_row(old, tu, seq)),
{
    let name = unit_doc_name(tu);
    let cells = unit_cells(tu.segments@, old.langs());
    let added = new_columns(old.column_names(), cells);
    let extra = doc_ops(old.doc_names(), name) + add_column_ops(added);
    let pre = old_ops + doc_ops(old.doc_names(), name) + add_column_ops(added);
    assert(pre =~= old_ops + extra);
    assert forall|i: int| 0 <= i < extra.len() implies !(#[trigger] extra[i] is Commit) by {
        if i < doc_ops(old.doc_names(), name).len() {
        } else {
            assert(extra[i] == add_column_ops(added)[i - doc_ops(old.doc_names(), name).len()]);
        }
    }
    lemma_committed_rows_append(old_ops, extra);
    let row = unit_row(old, tu, seq);
    if old.pending().len() + 1 >= old.max_batch() {
        let np = pre.push(OpModel::Commit(old.pending().push(row)));
        assert(np.drop_last() =~= pre);
        assert(all_rows(new_ops, new.pending()) =~= all_rows(old_ops, old.pending()).push(row));
    } else {
        assert(all_rows(new_ops, new.pending()) =~= all_rows(old_ops, old.pending()).push(row));
    }
}

/// The positions of the units among the first `n` that pass the filter.
pub open spec fn accepted(units: Seq<TranslationUnit>, langs: RequestedLangs, n: int) -> Seq<int>
    decreases n,
{
    if n <= 0 {
        Seq::empty()
    } else if includes(langs, units[n - 1]) {
        accepted(units, langs, n - 1).push(n - 1)
    } else {
        accepted(units, langs, n - 1)
    }
}

/// The kept positions are in range and strictly increasing.
pub proof fn lemma_accepted_bounds(units: Seq<TranslationUnit>, langs: RequestedLangs, n: int)
    requires
        0 <= n,
    ensures
        accepted(units, langs, n).len() <= n,
        forall|k: int| 0 <= k < accepted(units, langs, n).len() ==> 0 <= #[trigger] accepted(units, langs, n)[k] < n,
        forall|a: int, b: int| 0 <= a < b < accepted(units, langs, n).len()
            ==> accepted(units, langs, n)[a] < accepted(units, langs, n)[b],
    decreases n,
{
    if n > 0 {
        lemma_accepted_bounds(units, langs, n - 1);
    }
}

/// A document keeps its index when later names are appended.
proof fn lemma_index_kept(a: Seq<Seq<char>>, b: Seq<Seq<char>>, name: Seq<char>)
    requires
        b.no_duplicates(),
        a.len() <= b.len(),
        b.subrange(0, a.len() as int) == a,
        a.contains(name),
    ensures
        b.index_of(name) == a.index_of(name),
{
    let i = a.index_of(name);
    assert(a[i] == name);
    assert(b[i] == name);
    lemma_index_of_unique(b, i);
}

impl Writer {
    /// Commits the pending rows, if any; with none pending it does nothing.
    pub fn flush(&mut self, ops: &mut Vec<StoreOp>)
        requires
            old(self).wf(),
        ensures
            final(self).wf(),
            final(self).column_names() == old(self).column_names(),
            final(self).doc_names() == old(self).doc_names(),
            final(self).langs() == old(self).langs(),
            final(self).max_batch() == old(self).max_batch(),
            final(self).pending() == Seq::<RowModel>::empty(),
            ops_model(final(ops)@) == if old(self).pending().len() == 0 {
                ops_model(old(ops)@)
            } else {
                ops_model(old(ops)@).push(OpModel::Commit(old(self).pending()))
            },
            all_rows(ops_model(final(ops)@), final(self).pending()) == all_rows(ops_model(old(ops)@), old(self).pending()),
    {
        let ghost old_ops = ops_model(ops@);
        if self.batch.len() > 0 {
            let mut full: Vec<RowInsert> = Vec::new();
            std::mem::swap(&mut full, &mut self.batch);
            ops.push(StoreOp::Commit(full));
            proof {
                assert(ops_model(ops@) =~= old_ops.push(OpModel::Commit(rows_model(full@))));
                assert(ops_model(ops@).drop_last() =~= old_ops);
            }
        }
        proof {
            assert(self.pending() =~= Seq::<RowModel>::empty());
            assert(all_rows(ops_model(ops@), self.pending()) =~= all_rows(old_ops, old(self).pending()));
        }
    }
}

/// `rows` are the rows of the units among the first `n` of a document that
/// pass the filter, in order: each carries the unit's position in the
/// document, its cells and the id its document has in `docs`.
pub open spec fn document_rows(
    rows: Seq<RowModel>,
    units: Seq<TranslationUnit>,
    langs: RequestedLangs,
    docs: Seq<Seq<char>>,
    n: int,
) -> bool {
    let acc = accepted(units, langs, n);
    &&& rows.len() == acc.len()
    &&& forall|k: int| 0 <= k < acc.len() ==> {
        let u = units[acc[k]];
        &&& (#[trigger] rows[k]).sequential_number == acc[k]
        &&& rows[k].cells == unit_cells(u.segments@, langs)
        &&& docs.contains(unit_doc_name(u))
        &&& rows[k].document_id == Writer::doc_id(docs, unit_doc_name(u))
    }
}

/// Whether `docs` holds exactly the names of `prior` and those of the units
/// among the first `n` that pass the filter.
pub open spec fn documents_of(
    docs: Seq<Seq<char>>,
    prior: Seq<Seq<char>>,
    units: Seq<TranslationUnit>,
    langs: RequestedLangs,
    n: int,
) -> bool {
    let acc = accepted(units, langs, n);
    forall|x: Seq<char>| #[trigger] docs.contains(x) <==> (prior.contains(x) || exists|k: int|
        0 <= k < acc.len() && unit_doc_name(units[#[trigger] acc[k]]) == x)
}

impl Writer {
    /// Forwards the units of one document, in order, numbering each by its
    /// zero-based position in the document; units the filter rejects are
    /// skipped but keep their number. Stops at the first error.
    #[verifier::rlimit(40)]
    pub fn ingest_document(&mut self, units: &Vec<TranslationUnit>, ops: &mut Vec<StoreOp>) -> (r: Result<(), WriterError>)
        requires
            old(self).wf(),
            units@.len() <= u32::MAX + 1,
        ensures
            final(self).wf(),
            final(self).langs() == old(self).langs(),
            final(self).max_batch() == old(self).max_batch(),
            r is Ok ==> {
                let before = all_rows(ops_model(old(ops)@), old(self).pending());
                let after = all_rows(ops_model(final(ops)@), final(self).pending());
                &&& before.len() <= after.len()
                &&& after.subrange(0, before.len() as int) == before
                &&& document_rows(after.subrange(before.len() as int, after.len() as int), units@, old(self).langs(),
                    final(self).doc_names(), units@.len() as int)
                &&& old(self).doc_names().len() <= final(self).doc_names().len()
                &&& final(self).doc_names().subrange(0, old(self).doc_names().len() as int) == old(self).doc_names()
                &&& documents_of(final(self).doc_names(), old(self).doc_names(), units@, old(self).langs(), units@.len() as int)
                &&& forall|i: int| 0 <= i < units@.len() && includes(old(self).langs(), #[trigger] units@[i])
                    ==> doc_name_index(units@[i].props@) is Some && columns_valid(units@[i].segments@, old(self).langs())
            },
            r matches Err(WriterError::Pattern(_)) ==> !regex_compiles(COLUMN_PATTERN@),
            r matches Err(WriterError::MissingDocumentIdentity) ==> exists|i: int| 0 <= i < units@.len()
                && includes(old(self).langs(), #[trigger] units@[i]) && doc_name_index(units@[i].props@) is None,
            r matches Err(WriterError::InvalidLanguageCode(_)) ==> exists|i: int| 0 <= i < units@.len()
                && includes(old(self).langs(), #[trigger] units@[i]) && !columns_valid(units@[i].segments@, old(self).langs()),
            (forall|i: int| 0 <= i < units@.len() && includes(old(self).langs(), #[trigger] units@[i])
                ==> doc_name_index(units@[i].props@) is Some && columns_valid(units@[i].segments@, old(self).langs()))
                && old(self).doc_names().len() + units@.len() < u64::MAX - 1 && regex_compiles(COLUMN_PATTERN@)
                ==> r is Ok,
    {
        let ghost langs = self.langs();
        let ghost before = all_rows(ops_model(ops@), self.pending());
        let ghost prior = self.doc_names();
        let ghost mut rows: Seq<RowModel> = Seq::empty();
        let mut i: usize = 0;
        while i < units.len()
            invariant
                i <= units@.len(),
                units@.len() <= u32::MAX + 1,
                self.wf(),
                forall|j: int| 0 <= j < i && includes(langs, #[trigger] units@[j])
                    ==> doc_name_index(units@[j].props@) is Some && columns_valid(units@[j].segments@, langs),
                self.langs() == langs,
                langs == old(self).langs(),
                self.max_batch() == old(self).max_batch(),
                prior == old(self).doc_names(),
                before == all_rows(ops_model(old(ops)@), old(self).pending()),
                all_rows(ops_model(ops@), self.pending()) == before + rows,
                document_rows(rows, units@, langs, self.doc_names(), i as int),
                prior.len() <= self.doc_names().len() <= prior.len() + i,
                self.doc_names().subrange(0, prior.len() as int) == prior,
                documents_of(self.doc_names(), prior, units@, langs, i as int),
            decreases units@.len() - i,
        {
            let ghost w0 = *self;
            let ghost o0 = ops_model(ops@);
            let ghost acc0 = accepted(units@, langs, i as int);
            proof {
                lemma_accepted_bounds(units@, langs, i as int);
            }
            if self.requested_langs.includes(&units[i]) {
                if units[i].doc_name().is_none() {
                    return Err(WriterError::MissingDocumentIdentity);
                }
                match self.handle(&units[i], i as u32, ops) {
                    Ok(()) => {},
                    Err(e) => {
                        return Err(e);
                    },
                }
                proof {
                    let u = units@[i as int];
                    let name = unit_doc_name(u);
                    lemma_handled_adds_one_row(w0, *self, o0, ops_model(ops@), u, i as u32);
                    let row = unit_row(w0, u, i as u32);
                    let docs = self.doc_names();
                    assert(docs == docs_after(w0.doc_names(), name));
                    assert(docs.contains(name)) by {
                        if !w0.doc_names().contains(name) {
                            assert(docs[docs.len() - 1] == name);
                        }
                    }
                    assert(docs.subrange(0, w0.doc_names().len() as int) == w0.doc_names());
                    let new_rows = rows.push(row);
                    let acc1 = accepted(units@, langs, i + 1);
                    assert(acc1 == acc0.push(i as int));
                    assert forall|k: int| 0 <= k < acc1.len() implies {
                        let v = units@[acc1[k]];
                        &&& (#[trigger] new_rows[k]).sequential_number == acc1[k]
                        &&& new_rows[k].cells == unit_cells(v.segments@, langs)
                        &&& docs.contains(unit_doc_name(v))
                        &&& new_rows[k].document_id == Writer::doc_id(docs, unit_doc_name(v))
                    } by {
                        if k < acc0.len() {
                            let v = units@[acc0[k]];
                            assert(rows[k] == new_rows[k]);
                            assert(w0.doc_names().contains(unit_doc_name(v)));
                            lemma_index_kept(w0.doc_names(), docs, unit_doc_name(v));
                            let j = w0.doc_names().index_of(unit_doc_name(v));
                            assert(docs[j] == unit_doc_name(v));
                        }
                    }
                    assert(all_rows(ops_model(ops@), self.pending()) =~= before + new_rows);
                    assert(self.doc_names().subrange(0, prior.len() as int) =~= prior) by {
                        assert forall|t: int| 0 <= t < prior.len() implies self.doc_names()[t] == prior[t] by {
                            assert(w0.doc_names()[t] == prior[t]);
                            assert(docs[t] == w0.doc_names()[t]);
                        }
                    }
                    assert forall|x: Seq<char>| #[trigger] docs.contains(x) <==> (prior.contains(x) || exists|k: int|
                        0 <= k < acc1.len() && unit_doc_name(units@[#[trigger] acc1[k]]) == x) by {
                        if docs.contains(x) && !w0.doc_names().contains(x) {
                            assert(x == name);
                            assert(acc1[acc0.len() as int] == i);
                        }
                        if exists|k: int| 0 <= k < acc1.len() && unit_doc_name(units@[#[trigger] acc1[k]]) == x {
                            let k = choose|k: int| 0 <= k < acc1.len() && unit_doc_name(units@[#[trigger] acc1[k]]) == x;
                            if k < acc0.len() {
                                assert(acc0[k] == acc1[k]);
                                assert(w0.doc_names().contains(x));
                                let j = choose|j: int| 0 <= j < w0.doc_names().len() && w0.doc_names()[j] == x;
                                assert(docs[j] == x);
                            }
                        }
                        if w0.doc_names().contains(x) {
                            let j = choose|j: int| 0 <= j < w0.doc_names().len() && w0.doc_names()[j] == x;
                            assert(docs[j] == x);
                        }
                        if prior.contains(x) {
                            let j = choose|j: int| 0 <= j < prior.len() && prior[j] == x;
                            assert(w0.doc_names()[j] == x);
                        }
                        if docs.contains(x) && w0.doc_names().contains(x) {
                            if !prior.contains(x) {
                                let k = choose|k: int| 0 <= k < acc0.len() && unit_doc_name(units@[#[trigger] acc0[k]]) == x;
                                assert(acc1[k] == acc0[k]);
                            }
                        }
                    }
                    rows = new_rows;
                }
            }
            i = i + 1;
        }
        proof {
            let after = all_rows(ops_model(ops@), self.pending());
            assert(after.subrange(0, before.len() as int) =~= before);
            assert(after.subrange(before.len() as int, after.len() as int) =~= rows);
        }
        Ok(())
    }
}

/// Every eligible segment's language has a cell in its unit's row.
pub proof fn lemma_unit_cells_cover(segments: Seq<Tuv>, langs: RequestedLangs)
    ensures
        forall|j: int| 0 <= j < segments.len() && eligible(langs, #[trigger] segments[j].lang@)
            ==> has_column(unit_cells(segments, langs), normalized(segments[j].lang@)),
    decreases segments.len(),
{
    if segments.len() > 0 {
        let prev = segments.drop_last();
        lemma_unit_cells_cover(prev, langs);
        let pc = unit_cells(prev, langs);
        let cc = unit_cells(segments, langs);
        assert forall|j: int| 0 <= j < segments.len() && eligible(langs, #[trigger] segments[j].lang@)
            implies has_column(cc, normalized(segments[j].lang@)) by {
            let c = normalized(segments[j].lang@);
            if j < prev.len() {
                assert(prev[j] == segments[j]);
                let a = choose|a: int| 0 <= a < pc.len() && #[trigger] pc[a].0 == c;
                assert(cc[a] == pc[a]);
            } else if !has_column(pc, c) {
                assert(cc[cc.len() - 1].0 == c);
            }
        }
    }
}

/// Round trip: the text stored under a column is, byte for byte, the content
/// of the first eligible segment whose language normalizes to that column.
pub proof fn lemma_cell_text_from_segment(segments: Seq<Tuv>, langs: RequestedLangs, i: int)
    requires
        0 <= i < unit_cells(segments, langs).len(),
    ensures
        exists|j: int| {
            &&& 0 <= j < segments.len()
            &&& eligible(langs, #[trigger] segments[j].lang@)
            &&& normalized(segments[j].lang@) == unit_cells(segments, langs)[i].0
            &&& segments[j].content@ == unit_cells(segments, langs)[i].1
            &&& forall|t: int| 0 <= t < j && eligible(langs, #[trigger] segments[t].lang@)
                ==> normalized(segments[t].lang@) != unit_cells(segments, langs)[i].0
        },
    decreases segments.len(),
{
    let prev = segments.drop_last();
    let pc = unit_cells(prev, langs);
    let cc = unit_cells(segments, langs);
    if i < pc.len() {
        lemma_cell_text_from_segment(prev, langs, i);
        assert(cc[i] == pc[i]);
        let j = choose|j: int| {
            &&& 0 <= j < prev.len()
            &&& eligible(langs, #[trigger] prev[j].lang@)
            &&& normalized(prev[j].lang@) == pc[i].0
            &&& prev[j].content@ == pc[i].1
            &&& forall|t: int| 0 <= t < j && eligible(langs, #[trigger] prev[t].lang@)
                ==> normalized(prev[t].lang@) != pc[i].0
        };
        assert(segments[j] == prev[j]);
        assert forall|t: int| 0 <= t < j && eligible(langs, #[trigger] segments[t].lang@)
            implies normalized(segments[t].lang@) != cc[i].0 by {
            assert(segments[t] == prev[t]);
        }
    } else {
        let j = segments.len() - 1;
        lemma_unit_cells_cover(prev, langs);
        assert forall|t: int| 0 <= t < j && eligible(langs, #[trigger] segments[t].lang@)
            implies normalized(segments[t].lang@) != cc[i].0 by {
            assert(segments[t] == prev[t]);
            if normalized(segments[t].lang@) == cc[i].0 {
                assert(has_column(pc, normalized(prev[t].lang@)));
            }
        }
    }
}

/// A unit kept under `Each(l)` has a cell for every language of `l`.
pub proof fn lemma_each_lang_has_cell(tu: TranslationUnit, l: Vec<String>)
    requires
        includes(RequestedLangs::Each(l), tu),
    ensures
        forall|k: int| 0 <= k < l@.len()
            ==> has_column(unit_cells(tu.segments@, RequestedLangs::Each(l)), normalized(#[trigger] l@[k]@)),
{
    let langs = RequestedLangs::Each(l);
    lemma_unit_cells_cover(tu.segments@, langs);
    assert forall|k: int| 0 <= k < l@.len()
        implies has_column(unit_cells(tu.segments@, langs), normalized(#[trigger] l@[k]@)) by {
        assert(crate::tmx::has_lang(tu.segments@, l@[k]@));
        let j = choose|j: int| 0 <= j < tu.segments@.len() && #[trigger] tu.segments@[j].lang@ == l@[k]@;
        assert(eligible(langs, tu.segments@[j].lang@));
    }
}

/// A unit kept under `Any(l)` has a cell for at least one language of `l`.
pub proof fn lemma_any_lang_has_cell(tu: TranslationUnit, l: Vec<String>)
    requires
        includes(RequestedLangs::Any(l), tu),
    ensures
        exists|k: int| 0 <= k < l@.len()
            && has_column(unit_cells(tu.segments@, RequestedLangs::Any(l)), normalized(#[trigger] l@[k]@)),
{
    let langs = RequestedLangs::Any(l);
    lemma_unit_cells_cover(tu.segments@, langs);
    let k = choose|k: int| 0 <= k < l@.len() && crate::tmx::has_lang(tu.segments@, #[trigger] l@[k]@);
    let j = choose|j: int| 0 <= j < tu.segments@.len() && #[trigger] tu.segments@[j].lang@ == l@[k]@;
    assert(eligible(langs, tu.segments@[j].lang@));
    assert(has_column(unit_cells(tu.segments@, langs), normalized(l@[k]@)));
}

/// Document names and ids correspond one to one: two names share an id
/// exactly when they are the same name, and there are as many document rows
/// as distinct names.
pub proof fn lemma_one_id_per_document(w: Writer, a: Seq<char>, b: Seq<char>)
    requires
        w.wf(),
        w.doc_names().contains(a),
        w.doc_names().contains(b),
    ensures
        (Writer::doc_id(w.doc_names(), a) == Writer::doc_id(w.doc_names(), b)) <==> a == b,
        w.doc_names().to_set().len() == w.doc_names().len(),
{
    let d = w.doc_names();
    let i = choose|i: int| 0 <= i < d.len() && d[i] == a;
    let j = choose|j: int| 0 <= j < d.len() && d[j] == b;
    lemma_index_of_unique(d, i);
    lemma_index_of_unique(d, j);
    d.unique_seq_to_set();
}

/// Without a language filter every unit is kept, so the sequence numbers of a
/// document's rows are 0, 1, 2, ... with no gap.
pub proof fn lemma_unlimited_keeps_all(units: Seq<TranslationUnit>, n: int)
    requires
        0 <= n,
    ensures
        accepted(units, RequestedLangs::Unlimited, n) == Seq::new(n as nat, |k: int| k),
    decreases n,
{
    if n > 0 {
        lemma_unlimited_keeps_all(units, n - 1);
        assert(accepted(units, RequestedLangs::Unlimited, n) =~= Seq::new(n as nat, |k: int| k));
    } else {
        assert(accepted(units, RequestedLangs::Unlimited, n) =~= Seq::new(n as nat, |k: int| k));
    }
}

/// The rows held after the first `n` steps of a run are the rows held at its
/// start followed by one row per handled unit.
proof fn lemma_run_rows(
    ws: Seq<Writer>,
    os: Seq<Seq<OpModel>>,
    tus: Seq<TranslationUnit>,
    seqs: Seq<u32>,
    n: int,
)
    requires
        0 <= n <= tus.len(),
        ws.len() == tus.len() + 1,
        os.len() == tus.len() + 1,
        seqs.len() == tus.len(),
        forall|k: int| 0 <= k < tus.len() ==> handled(#[trigger] ws[k], ws[k + 1], os[k], os[k + 1], tus[k], seqs[k]),
    ensures
        all_rows(os[n], ws[n].pending()) == all_rows(os[0], ws[0].pending())
            + Seq::new(n as nat, |k: int| unit_row(ws[k], tus[k], seqs[k])),
    decreases n,
{
    if n == 0 {
        assert(all_rows(os[0], ws[0].pending()) + Seq::new(0, |k: int| unit_row(ws[k], tus[k], seqs[k]))
            =~= all_rows(os[0], ws[0].pending()));
    } else {
        lemma_run_rows(ws, os, tus, seqs, n - 1);
        assert(handled(ws[n - 1], ws[n], os[n - 1], os[n], tus[n - 1], seqs[n - 1]));
        lemma_handled_adds_one_row(ws[n - 1], ws[n], os[n - 1], os[n], tus[n - 1], seqs[n - 1]);
        assert(all_rows(os[n], ws[n].pending()) =~= all_rows(os[0], ws[0].pending())
            + Seq::new(n as nat, |k: int| unit_row(ws[k], tus[k], seqs[k])));
    }
}

/// Over a whole run, batching neither drops nor duplicates rows: when a run
/// that starts with no operations and no pending rows handles units
/// `tus` one after another (with writer states `ws` and operation logs `os`)
/// and then flushes, the committed rows are exactly one row per handled unit,
/// in order, whatever the batch size.
pub proof fn lemma_run_commits_every_row(
    ws: Seq<Writer>,
    os: Seq<Seq<OpModel>>,
    tus: Seq<TranslationUnit>,
    seqs: Seq<u32>,
    flushed: Writer,
    final_ops: Seq<OpModel>,
)
    requires
        ws.len() == tus.len() + 1,
        os.len() == tus.len() + 1,
        seqs.len() == tus.len(),
        os[0] == Seq::<OpModel>::empty(),
        ws[0].pending() == Seq::<RowModel>::empty(),
        forall|k: int| 0 <= k < tus.len() ==> handled(#[trigger] ws[k], ws[k + 1], os[k], os[k + 1], tus[k], seqs[k]),
        flushed.pending() == Seq::<RowModel>::empty(),
        all_rows(final_ops, flushed.pending()) == all_rows(os[tus.len() as int], ws[tus.len() as int].pending()),
    ensures
        committed_rows(final_ops) == Seq::new(tus.len(), |k: int| unit_row(ws[k], tus[k], seqs[k])),
        committed_rows(final_ops).len() == tus.len(),
{
    lemma_run_rows(ws, os, tus, seqs, tus.len() as int);
    assert(committed_rows(os[0]) =~= Seq::<RowModel>::empty());
    assert(committed_rows(final_ops) =~= all_rows(final_ops, flushed.pending()));
    assert(committed_rows(final_ops) =~= Seq::new(tus.len(), |k: int| unit_row(ws[k], tus[k], seqs[k])));
}

} // verus!
