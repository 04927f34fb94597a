use vstd::prelude::*;
use vstd::string::*;
use crate::lang::{COLUMN_PATTERN, lang_code_to_db_column, regex_compiles, is_valid_column, normalize_lang_code, normalized, push_char, str_eq};
use crate::tmx::{Tuv, TranslationUnit, doc_name_index};
use crate::writer::{WriterError, columns_valid, unit_doc_name};
use crate::types::RequestedLangs;

verus! {

/// A text with each single quote doubled, as SQL string literals need.
pub open spec fn escaped(s: Seq<char>) -> Seq<char>
    decreases s.len(),
{
    if s.len() == 0 {
        Seq::empty()
    } else {
        escaped(s.drop_last()) + if s.last() == '\'' {
            seq!['\'', '\'']
        } else {
            seq![s.last()]
        }
    }
}

/// A text as an SQL string literal.
pub open spec fn quoted(s: Seq<char>) -> Seq<char> {
    seq!['\''] + escaped(s) + seq!['\'']
}

/// The character of a decimal digit.
pub open spec fn digit(d: nat) -> char {
    ((d as u8) + 48u8) as char
}

/// The decimal digits of a number, without leading zeros.
pub open spec fn decimal(n: nat) -> Seq<char>
    decreases n,
{
    if n < 10 {
        seq![digit(n)]
    } else {
        decimal(n / 10).push(digit(n % 10))
    }
}

/// Appends the decimal digits of `n`.
pub fn push_decimal(out: &mut String, n: u32)
    ensures
        final(out)@ == old(out)@ + decimal(n as nat),
    decreases n,
{
    if n >= 10 {
        push_decimal(out, n / 10);
    }
    let d = n % 10;
    push_char(out, ((d as u8) + 48u8) as char);
    proof {
        if n < 10 {
            assert(final(out)@ =~= old(out)@ + decimal(n as nat));
        } else {
            assert(final(out)@ =~= old(out)@ + decimal(n as nat));
        }
    }
}

/// Appends a text as an SQL string literal.
pub fn push_quoted(out: &mut String, s: &str)
    ensures
        final(out)@ == old(out)@ + quoted(s@),
{
    let ghost start = out@;
    push_char(out, '\'');
    let n = s.unicode_len();
    let mut i: usize = 0;
    while i < n
        invariant
            n == s@.len(),
            i <= n,
            out@ == start + seq!['\''] + escaped(s@.subrange(0, i as int)),
        decreases n - i,
    {
        let c = s.get_char(i);
        assert(s@.subrange(0, i + 1).drop_last() =~= s@.subrange(0, i as int));
        push_char(out, c);
        if c == '\'' {
            push_char(out, '\'');
        }
        assert(out@ =~= start + seq!['\''] + escaped(s@.subrange(0, i + 1)));
        i = i + 1;
    }
    assert(s@.subrange(0, n as int) =~= s@);
    push_char(out, '\'');
    assert(out@ =~= old(out)@ + quoted(s@));
}

/// The text of the first segment whose language normalizes to `column`.
pub open spec fn first_text(segments: Seq<Tuv>, column: Seq<char>) -> Option<Seq<char>>
    decreases segments.len(),
{
    if segments.len() == 0 {
        None
    } else if normalized(segments[0].lang@) == column {
        Some(segments[0].content@)
    } else {
        first_text(segments.drop_first(), column)
    }
}

/// One value of a row: the quoted text for the column, or NULL.
pub open spec fn value_text(segments: Seq<Tuv>, column: Seq<char>) -> Seq<char> {
    match first_text(segments, column) {
        Some(t) => seq![','] + quoted(t),
        None => seq![',', 'N', 'U', 'L', 'L'],
    }
}

/// The values of a row for each of `columns`, in order.
pub open spec fn values_text(segments: Seq<Tuv>, columns: Seq<Seq<char>>) -> Seq<char>
    decreases columns.len(),
{
    if columns.len() == 0 {
        Seq::empty()
    } else {
        values_text(segments, columns.drop_last()) + value_text(segments, columns.last())
    }
}

/// One row of a multi-row insert; rows after the first start with a comma.
pub open spec fn row_text(tu: TranslationUnit, seq: u32, columns: Seq<Seq<char>>, first: bool) -> Seq<char> {
    (if first { Seq::empty() } else { seq![','] }) + seq!['\n', '('] + decimal(seq as nat) + seq![',', ' ']
        + quoted(unit_doc_name(tu)) + values_text(tu.segments@, columns) + seq![')']
}

/// Finds the first segment whose language normalizes to `column`.
fn find_text(segments: &Vec<Tuv>, column: &String) -> (r: Option<usize>)
    ensures
        match r {
            Some(j) => j < segments@.len() && first_text(segments@, column@) == Some(segments@[j as int].content@),
            None => first_text(segments@, column@) is None,
        },
{
    let mut i: usize = 0;
    assert(segments@.subrange(0, segments@.len() as int) =~= segments@);
    while i < segments.len()
        invariant
            i <= segments@.len(),
            first_text(segments@, column@) == first_text(segments@.subrange(i as int, segments@.len() as int), column@),
        decreases segments@.len() - i,
    {
        let ghost rest = segments@.subrange(i as int, segments@.len() as int);
        assert(rest.drop_first() =~= segments@.subrange(i + 1, segments@.len() as int));
        assert(rest[0] == segments@[i as int]);
        let c = normalize_lang_code(segments[i].lang.as_str());
        if str_eq(c.as_str(), column.as_str()) {
            return Some(i);
        }
        i = i + 1;
    }
    None
}

/// Appends one row of a multi-row insert.
fn push_row(out: &mut String, tu: &TranslationUnit, seq: u32, columns: &Vec<String>, first: bool, doc: &String)
    requires
        doc@ == unit_doc_name(*tu),
    ensures
        final(out)@ == old(out)@ + row_text(*tu, seq, columns@.map_values(|c: String| c@), first),
{
    let ghost cols = columns@.map_values(|c: String| c@);
    let ghost start = out@;
    if !first {
        push_char(out, ',');
    }
    push_char(out, '\n');
    push_char(out, '(');
    push_decimal(out, seq);
    push_char(out, ',');
    push_char(out, ' ');
    push_quoted(out, doc.as_str());
    let ghost head = out@;
    let mut k: usize = 0;
    while k < columns.len()
        invariant
            k <= columns@.len(),
            cols == columns@.map_values(|c: String| c@),
            out@ == head + values_text(tu.segments@, cols.subrange(0, k as int)),
        decreases columns@.len() - k,
    {
        assert(cols.subrange(0, k + 1).drop_last() =~= cols.subrange(0, k as int));
        assert(cols[k as int] == columns@[k as int]@);
        match find_text(&tu.segments, &columns[k]) {
            Some(j) => {
                push_char(out, ',');
                push_quoted(out, tu.segments[j].content.as_str());
            },
            None => {
                push_char(out, ',');
                push_char(out, 'N');
                push_char(out, 'U');
                push_char(out, 'L');
                push_char(out, 'L');
            },
        }
        assert(out@ =~= head + values_text(tu.segments@, cols.subrange(0, k + 1)));
        k = k + 1;
    }
    assert(cols.subrange(0, columns@.len() as int) =~= cols);
    push_char(out, ')');
    assert(out@ =~= start + row_text(*tu, seq, cols, first));
}

/// How many units the script writer renders into one insert statement.
pub const INSERT_SIZE: usize = 20_000;

/// The statement that opens a script.
pub const SCRIPT_HEADER: &'static str =
    "CREATE TABLE translation_units (\n    id SERIAL PRIMARY KEY,\n    sequential_number INTEGER,\n    document_id VARCHAR(255)\n);\n";

/// `columns` after adding, in order, each segment's normalized language that
/// is not among them yet.
pub open spec fn with_segment_columns(columns: Seq<Seq<char>>, segments: Seq<Tuv>) -> Seq<Seq<char>>
    decreases segments.len(),
{
    if segments.len() == 0 {
        columns
    } else {
        let prev = with_segment_columns(columns, segments.drop_last());
        let c = normalized(segments.last().lang@);
        if prev.contains(c) {
            prev
        } else {
            prev.push(c)
        }
    }
}

/// The statement adding one column.
pub open spec fn alter_statement(column: Seq<char>) -> Seq<char> {
    "ALTER TABLE translation_units ADD COLUMN "@ + column + " TEXT;\n"@
}

/// The statements adding those of `columns` not yet in `created`, and the
/// columns created afterwards.
pub open spec fn alter_fold(created: Seq<Seq<char>>, columns: Seq<Seq<char>>) -> (Seq<char>, Seq<Seq<char>>)
    decreases columns.len(),
{
    if columns.len() == 0 {
        (Seq::empty(), created)
    } else {
        let (t, cr) = alter_fold(created, columns.drop_last());
        let c = columns.last();
        if cr.contains(c) {
            (t, cr)
        } else {
            (t + alter_statement(c), cr.push(c))
        }
    }
}

/// `, c` for each column.
pub open spec fn column_list(columns: Seq<Seq<char>>) -> Seq<char>
    decreases columns.len(),
{
    if columns.len() == 0 {
        Seq::empty()
    } else {
        column_list(columns.drop_last()) + ", "@ + columns.last()
    }
}

/// The rows of a batch, in order.
pub open spec fn rows_text(batch: Seq<(TranslationUnit, u32)>, columns: Seq<Seq<char>>) -> Seq<char>
    decreases batch.len(),
{
    if batch.len() == 0 {
        Seq::empty()
    } else {
        rows_text(batch.drop_last(), columns) + row_text(batch.last().0, batch.last().1, columns, batch.len() == 1)
    }
}

/// What committing a batch writes: the new columns, then one insert of all
/// rows, with a value or NULL for each column the batch uses.
pub open spec fn batch_text(created: Seq<Seq<char>>, columns: Seq<Seq<char>>, batch: Seq<(TranslationUnit, u32)>) -> Seq<char> {
    alter_fold(created, columns).0 + "INSERT INTO translation_units (sequential_number, document_id"@
        + column_list(columns) + ") VALUES"@ + rows_text(batch, columns) + ";\n"@
}

/// Renders translation units as an SQL script: columns are added as new
/// languages appear, and rows go out in multi-row inserts of bounded size.
pub struct ScriptWriter {
    incoming_batch: Vec<(TranslationUnit, u32)>,
    doc_names: Vec<String>,
    columns_in_batch: Vec<String>,
    lang_columns: Vec<String>,
    batch_size: usize,
}

impl ScriptWriter {
    /// The units waiting to be written, with their sequence numbers.
    pub closed spec fn batch(&self) -> Seq<(TranslationUnit, u32)> {
        self.incoming_batch@
    }

    /// The columns the waiting units use, in order of first appearance.
    pub closed spec fn batch_columns(&self) -> Seq<Seq<char>> {
        self.columns_in_batch@.map_values(|c: String| c@)
    }

    /// The columns the script has created so far.
    pub closed spec fn created(&self) -> Seq<Seq<char>> {
        self.lang_columns@.map_values(|c: String| c@)
    }

    /// How many units make a full batch.
    pub closed spec fn max_batch(&self) -> nat {
        self.batch_size as nat
    }

    /// The writer's invariant: a batch stays below its bound.
    pub closed spec fn wf(&self) -> bool {
        &&& self.inv()
        &&& self.incoming_batch@.len() < self.batch_size
    }

    /// Each waiting unit's document name is remembered beside it.
    closed spec fn inv(&self) -> bool {
        &&& self.batch_size > 0
        &&& self.doc_names@.len() == self.incoming_batch@.len()
        &&& forall|i: int| 0 <= i < self.doc_names@.len()
            ==> (#[trigger] self.doc_names@[i])@ == unit_doc_name(self.incoming_batch@[i].0)
    }

    /// A script writer that writes every `batch_size` units.
    pub fn with_batch_size(batch_size: usize) -> (w: ScriptWriter)
        requires
            batch_size > 0,
        ensures
            w.wf(),
            w.max_batch() == batch_size,
            w.batch() == Seq::<(TranslationUnit, u32)>::empty(),
            w.batch_columns() == Seq::<Seq<char>>::empty(),
            w.created() == Seq::<Seq<char>>::empty(),
    {
        let w = ScriptWriter {
            incoming_batch: Vec::new(),
            doc_names: Vec::new(),
            columns_in_batch: Vec::new(),
            lang_columns: Vec::new(),
            batch_size,
        };
        assert(w.batch_columns() =~= Seq::<Seq<char>>::empty());
        assert(w.created() =~= Seq::<Seq<char>>::empty());
        w
    }

    /// A script writer with the default batch size.
    pub fn new() -> (w: ScriptWriter)
        ensures
            w.wf(),
            w.max_batch() == INSERT_SIZE,
            w.batch() == Seq::<(TranslationUnit, u32)>::empty(),
            w.batch_columns() == Seq::<Seq<char>>::empty(),
            w.created() == Seq::<Seq<char>>::empty(),
    {
        ScriptWriter::with_batch_size(INSERT_SIZE)
    }

    /// Writes the waiting units, if any, to `out`; with none it does nothing.
    pub fn flush(&mut self, out: &mut String)
        requires
            old(self).wf(),
        ensures
            final(self).wf(),
            final(self).max_batch() == old(self).max_batch(),
            final(self).batch() == Seq::<(TranslationUnit, u32)>::empty(),
            final(self).batch_columns() == Seq::<Seq<char>>::empty(),
            old(self).batch().len() == 0 ==> final(out)@ == old(out)@ && final(self).created() == old(self).created(),
            old(self).batch().len() > 0 ==> final(out)@ == old(out)@ + batch_text(old(self).created(), old(self).batch_columns(), old(self).batch())
                && final(self).created() == alter_fold(old(self).created(), old(self).batch_columns()).1,
    {
        self.write_batch(out);
    }

    /// Writes the waiting units, if any, to `out`.
    fn write_batch(&mut self, out: &mut String)
        requires
            old(self).inv(),
        ensures
            final(self).wf(),
            final(self).max_batch() == old(self).max_batch(),
            final(self).batch() == Seq::<(TranslationUnit, u32)>::empty(),
            final(self).batch_columns() == Seq::<Seq<char>>::empty(),
            old(self).batch().len() == 0 ==> final(out)@ == old(out)@ && final(self).created() == old(self).created(),
            old(self).batch().len() > 0 ==> final(out)@ == old(out)@ + batch_text(old(self).created(), old(self).batch_columns(), old(self).batch())
                && final(self).created() == alter_fold(old(self).created(), old(self).batch_columns()).1,
    {
        if self.incoming_batch.len() == 0 {
            self.columns_in_batch = Vec::new();
            assert(self.batch_columns() =~= Seq::<Seq<char>>::empty());
            return;
        }
        let ghost start = out@;
        let ghost created0 = self.created();
        let ghost cols = self.batch_columns();
        let ghost batch = self.batch();
        // The new columns.
        let mut k: usize = 0;
        while k < self.columns_in_batch.len()
            invariant
                k <= self.columns_in_batch@.len(),
                self.inv(),
                self.batch() == batch,
                cols == self.batch_columns(),
                self.max_batch() == old(self).max_batch(),
                out@ == start + alter_fold(created0, cols.subrange(0, k as int)).0,
                self.created() == alter_fold(created0, cols.subrange(0, k as int)).1,
            decreases self.columns_in_batch@.len() - k,
        {
            assert(cols.subrange(0, k + 1).drop_last() =~= cols.subrange(0, k as int));
            assert(cols[k as int] == self.columns_in_batch@[k as int]@);
            let c = self.columns_in_batch[k].clone();
            let mut found = false;
            let mut j: usize = 0;
            while j < self.lang_columns.len()
                invariant
                    j <= self.lang_columns@.len(),
                    !found ==> forall|t: int| 0 <= t < j ==> self.lang_columns@[t]@ != c@,
                    found ==> self.created().contains(c@),
                decreases self.lang_columns@.len() - j,
            {
                if str_eq(self.lang_columns[j].as_str(), c.as_str()) {
                    found = true;
                    assert(self.created()[j as int] == c@);
                }
                j = j + 1;
            }
            if !found {
                assert(!self.created().contains(c@)) by {
                    if self.created().contains(c@) {
                        let t = choose|t: int| 0 <= t < self.created().len() && self.created()[t] == c@;
                        assert(self.lang_columns@[t]@ == c@);
                    }
                }
                out.append("ALTER TABLE translation_units ADD COLUMN ");
                out.append(c.as_str());
                out.append(" TEXT;\n");
                self.lang_columns.push(c);
                assert(self.created() =~= alter_fold(created0, cols.subrange(0, k + 1)).1);
                assert(out@ =~= start + alter_fold(created0, cols.subrange(0, k + 1)).0);
            }
            k = k + 1;
        }
        assert(cols.subrange(0, cols.len() as int) =~= cols);
        let ghost after_alter = out@;
        // The insert.
        out.append("INSERT INTO translation_units (sequential_number, document_id");
        let ghost after_head = out@;
        let mut k: usize = 0;
        while k < self.columns_in_batch.len()
            invariant
                k <= self.columns_in_batch@.len(),
                cols == self.batch_columns(),
                out@ == after_head + column_list(cols.subrange(0, k as int)),
            decreases self.columns_in_batch@.len() - k,
        {
            assert(cols.subrange(0, k + 1).drop_last() =~= cols.subrange(0, k as int));
            assert(cols[k as int] == self.columns_in_batch@[k as int]@);
            out.append(", ");
            out.append(self.columns_in_batch[k].as_str());
            assert(out@ =~= after_head + column_list(cols.subrange(0, k + 1)));
            k = k + 1;
        }
        out.append(") VALUES");
        let ghost after_values = out@;
        let mut i: usize = 0;
        while i < self.incoming_batch.len()
            invariant
                i <= self.incoming_batch@.len(),
                self.inv(),
                self.batch() == batch,
                cols == self.batch_columns(),
                out@ == after_values + rows_text(batch.subrange(0, i as int), cols),
            decreases self.incoming_batch@.len() - i,
        {
            assert(batch.subrange(0, i + 1).drop_last() =~= batch.subrange(0, i as int));
            let entry = &self.incoming_batch[i];
            assert(self.doc_names@[i as int]@ == unit_doc_name(batch[i as int].0));
            push_row(out, &entry.0, entry.1, &self.columns_in_batch, i == 0, &self.doc_names[i]);
            assert(out@ =~= after_values + rows_text(batch.subrange(0, i + 1), cols));
            i = i + 1;
        }
        assert(batch.subrange(0, batch.len() as int) =~= batch);
        out.append(";\n");
        assert(out@ =~= start + batch_text(created0, cols, batch));
        self.incoming_batch = Vec::new();
        self.doc_names = Vec::new();
        self.columns_in_batch = Vec::new();
        assert(self.batch_columns() =~= Seq::<Seq<char>>::empty());
    }
}

impl ScriptWriter {
    /// Queues one unit, numbered `sequential_number` within its document,
    /// after checking that it names its document and that each segment's
    /// language makes a valid column; a full batch is written to `out`.
    /// On error nothing changes.
    pub fn handle(&mut self, tu: TranslationUnit, sequential_number: u32, out: &mut String) -> (r: Result<(), WriterError>)
        requires
            old(self).wf(),
        ensures
            final(self).wf(),
            final(self).max_batch() == old(self).max_batch(),
            r matches Err(WriterError::MissingDocumentIdentity) <==> doc_name_index(tu.props@) is None,
            r matches Err(WriterError::InvalidLanguageCode(_)) ==> regex_compiles(COLUMN_PATTERN@)
                && !columns_valid(tu.segments@, RequestedLangs::Unlimited),
            r matches Err(WriterError::Pattern(_)) ==> !regex_compiles(COLUMN_PATTERN@),
            !(r matches Err(WriterError::TooManyDocuments)),
            doc_name_index(tu.props@) is Some && columns_valid(tu.segments@, RequestedLangs::Unlimited)
                && regex_compiles(COLUMN_PATTERN@) ==> r is Ok,
            r is Ok ==> columns_valid(tu.segments@, RequestedLangs::Unlimited),
            r is Err ==> final(self).batch() == old(self).batch() && final(self).batch_columns() == old(self).batch_columns()
                && final(self).created() == old(self).created() && final(out)@ == old(out)@,
            r is Ok ==> {
                let batch = old(self).batch().push((tu, sequential_number));
                let cols = with_segment_columns(old(self).batch_columns(), tu.segments@);
                if batch.len() >= old(self).max_batch() {
                    &&& final(out)@ == old(out)@ + batch_text(old(self).created(), cols, batch)
                    &&& final(self).batch() == Seq::<(TranslationUnit, u32)>::empty()
                    &&& final(self).batch_columns() == Seq::<Seq<char>>::empty()
                    &&& final(self).created() == alter_fold(old(self).created(), cols).1
                } else {
                    &&& final(out)@ == old(out)@
                    &&& final(self).batch() == batch
                    &&& final(self).batch_columns() == cols
                    &&& final(self).created() == old(self).created()
                }
            },
    {
        let name = match tu.doc_name() {
            Some(n) => n.clone(),
            None => {
                return Err(WriterError::MissingDocumentIdentity);
            },
        };
        let ghost langs = RequestedLangs::Unlimited;
        // Every language must make a valid column.
        let mut j: usize = 0;
        while j < tu.segments.len()
            invariant
                j <= tu.segments@.len(),
                *self == *old(self),
                doc_name_index(tu.props@) is Some,
                name@ == unit_doc_name(tu),
                self.wf(),
                columns_valid(tu.segments@.subrange(0, j as int), langs),
            decreases tu.segments@.len() - j,
        {
            match lang_code_to_db_column(tu.segments[j].lang.as_str()) {
                Ok(_) => {},
                Err(e) => {
                    assert(tu.segments@[j as int].lang@ == tu.segments[j as int].lang@);
                    return Err(e);
                },
            }
            assert(columns_valid(tu.segments@.subrange(0, j + 1), langs)) by {
                let next = tu.segments@.subrange(0, j + 1);
                assert forall|k: int| 0 <= k < next.len() && crate::writer::eligible(langs, #[trigger] next[k].lang@)
                    implies is_valid_column(normalized(next[k].lang@)) by {
                    if k < j {
                        assert(next[k] == tu.segments@.subrange(0, j as int)[k]);
                    }
                }
            }
            j = j + 1;
        }
        assert(tu.segments@.subrange(0, tu.segments@.len() as int) =~= tu.segments@);
        // The columns this unit uses.
        let ghost cols0 = self.batch_columns();
        let mut j: usize = 0;
        while j < tu.segments.len()
            invariant
                j <= tu.segments@.len(),
                self.wf(),
                self.batch() == old(self).batch(),
                self.created() == old(self).created(),
                self.max_batch() == old(self).max_batch(),
                cols0 == old(self).batch_columns(),
                doc_name_index(tu.props@) is Some,
                name@ == unit_doc_name(tu),
                columns_valid(tu.segments@, RequestedLangs::Unlimited),
                self.batch_columns() == with_segment_columns(cols0, tu.segments@.subrange(0, j as int)),
            decreases tu.segments@.len() - j,
        {
            let ghost pre = tu.segments@.subrange(0, j as int);
            assert(tu.segments@.subrange(0, j + 1).drop_last() =~= pre);
            let c = normalize_lang_code(tu.segments[j].lang.as_str());
            let mut found = false;
            let mut t: usize = 0;
            while t < self.columns_in_batch.len()
                invariant
                    t <= self.columns_in_batch@.len(),
                    !found ==> forall|u: int| 0 <= u < t ==> self.columns_in_batch@[u]@ != c@,
                    found ==> self.batch_columns().contains(c@),
                decreases self.columns_in_batch@.len() - t,
            {
                if str_eq(self.columns_in_batch[t].as_str(), c.as_str()) {
                    found = true;
                    assert(self.batch_columns()[t as int] == c@);
                }
                t = t + 1;
            }
            if !found {
                assert(!self.batch_columns().contains(c@)) by {
                    if self.batch_columns().contains(c@) {
                        let u = choose|u: int| 0 <= u < self.batch_columns().len() && self.batch_columns()[u] == c@;
                        assert(self.columns_in_batch@[u]@ == c@);
                    }
                }
                self.columns_in_batch.push(c);
                assert(self.batch_columns() =~= with_segment_columns(cols0, tu.segments@.subrange(0, j + 1)));
            }
            j = j + 1;
        }
        assert(tu.segments@.subrange(0, tu.segments@.len() as int) =~= tu.segments@);
        self.incoming_batch.push((tu, sequential_number));
        self.doc_names.push(name);
        assert(forall|i: int| 0 <= i < self.doc_names@.len()
            ==> (#[trigger] self.doc_names@[i])@ == unit_doc_name(self.incoming_batch@[i].0));
        if self.incoming_batch.len() >= self.batch_size {
            self.write_batch(out);
        }
        Ok(())
    }
}

} // verus!
