//! Editable rows of multipart fields. A row holds a text or a file, and the table
//! ends in a blank row, into which the next field is typed.
use crate::model::{FormField, FormFieldView, FormValue, FormValueView};
use crate::strings::{same_text, views};
use vstd::prelude::*;

verus! {

#[derive(Clone, Copy, Debug, PartialEq, Eq, Structural)]
pub enum RowKind {
    Text,
    File,
}

pub open spec fn kind_of(value: FormValueView) -> RowKind {
    match value {
        FormValueView::Text { .. } => RowKind::Text,
        FormValueView::File { .. } => RowKind::File,
    }
}

/// A value of the given kind that holds nothing yet.
pub open spec fn empty_value(kind: RowKind) -> FormValueView {
    match kind {
        RowKind::Text => FormValueView::Text { value: Seq::empty() },
        RowKind::File => FormValueView::File { path: Seq::empty(), content_type: None },
    }
}

/// Whether a field holds nothing: no key, and neither a text nor a file.
pub open spec fn blank_field(field: FormFieldView) -> bool {
    field.key.len() == 0 && match field.value {
        FormValueView::Text { value } => value.len() == 0,
        FormValueView::File { path, .. } => path.len() == 0,
    }
}

#[derive(Debug)]
pub struct FormRow {
    pub field: FormField,
    /// The size of the chosen file, for display.
    pub size: Option<u64>,
}

pub struct FormRowView {
    pub field: FormFieldView,
    pub size: Option<u64>,
}

impl View for FormRow {
    type V = FormRowView;

    open spec fn view(&self) -> FormRowView {
        FormRowView { field: self.field@, size: self.size }
    }
}

/// The row that the next field is typed into.
pub open spec fn fresh_row() -> FormRowView {
    FormRowView {
        field: FormFieldView {
            key: Seq::empty(),
            value: empty_value(RowKind::Text),
            enabled: true,
        },
        size: None,
    }
}

/// `rows` with a blank row at the end.
pub open spec fn settled_form(rows: Seq<FormRowView>) -> Seq<FormRowView> {
    if rows.len() > 0 && blank_field(rows.last().field) {
        rows
    } else {
        rows.push(fresh_row())
    }
}

/// The rows that show `fields`.
pub open spec fn form_rows(fields: Seq<FormFieldView>) -> Seq<FormRowView> {
    fields.map_values(|f: FormFieldView| FormRowView { field: f, size: None })
}

/// The fields that hold anything.
pub open spec fn filled_fields(rows: Seq<FormRowView>) -> Seq<FormFieldView>
    decreases rows.len(),
{
    if rows.len() == 0 {
        Seq::empty()
    } else {
        let head = filled_fields(rows.drop_last());
        if blank_field(rows.last().field) {
            head
        } else {
            head.push(rows.last().field)
        }
    }
}

/// A row after its kind was chosen. Another kind starts with nothing in it.
pub open spec fn with_kind(row: FormRowView, kind: RowKind) -> FormRowView {
    if kind_of(row.field.value) == kind {
        row
    } else {
        FormRowView { field: FormFieldView { value: empty_value(kind), ..row.field }, size: None }
    }
}

/// A row after a file was chosen for it.
pub open spec fn with_file(row: FormRowView, path: Seq<char>) -> FormRowView {
    FormRowView {
        field: FormFieldView {
            value: FormValueView::File { path, content_type: None },
            ..row.field
        },
        size: None,
    }
}

/// A row after it was typed into. The text of a file row is not typed.
pub open spec fn with_text(row: FormRowView, key: Seq<char>, text: Seq<char>) -> FormRowView {
    FormRowView {
        field: FormFieldView {
            key,
            value: match row.field.value {
                FormValueView::Text { .. } => FormValueView::Text { value: text },
                FormValueView::File { path, content_type } => FormValueView::File {
                    path,
                    content_type,
                },
            },
            enabled: row.field.enabled,
        },
        size: row.size,
    }
}

/// Whether a row holds the file at `path`.
pub open spec fn holds_file(row: FormRowView, path: Seq<char>) -> bool {
    match row.field.value {
        FormValueView::File { path: held, .. } => held == path,
        FormValueView::Text { .. } => false,
    }
}

#[derive(Debug)]
pub struct FormTable {
    rows: Vec<FormRow>,
}

impl View for FormTable {
    type V = Seq<FormRowView>;

    closed spec fn view(&self) -> Seq<FormRowView> {
        views(self.rows@)
    }
}

fn is_blank_field(field: &FormField) -> (r: bool)
    ensures
        r == blank_field(field@),
{
    field.key.as_str().unicode_len() == 0 && match &field.value {
        FormValue::Text { value } => value.as_str().unicode_len() == 0,
        FormValue::File { path, .. } => path.as_str().unicode_len() == 0,
    }
}

fn empty_row() -> (r: FormRow)
    ensures
        r@ == fresh_row(),
{
    proof {
        reveal_strlit("");
        assert(""@ =~= Seq::<char>::empty());
    }
    FormRow { field: FormField::text("", ""), size: None }
}

impl FormTable {
    /// A table with one blank row.
    pub fn new() -> (r: FormTable)
        ensures
            r@ == settled_form(Seq::empty()),
    {
        let mut rows: Vec<FormRow> = Vec::new();
        rows.push(empty_row());
        proof {
            assert(views(rows@) =~= settled_form(Seq::empty()));
        }
        FormTable { rows }
    }

    pub fn row_count(&self) -> (r: usize)
        ensures
            r == self@.len(),
    {
        self.rows.len()
    }

    pub fn row(&self, ix: usize) -> (r: &FormRow)
        requires
            ix < self@.len(),
        ensures
            r@ == self@[ix as int],
    {
        &self.rows[ix]
    }

    /// The size of the file of a row, where it is known.
    pub fn row_file_size(&self, ix: usize) -> (r: Option<u64>)
        ensures
            r == (if ix < self@.len() {
                self@[ix as int].size
            } else {
                None
            }),
    {
        if ix < self.rows.len() {
            self.rows[ix].size
        } else {
            None
        }
    }

    fn settle(&mut self)
        ensures
            final(self)@ == settled_form(old(self)@),
    {
        let n = self.rows.len();
        let last_is_blank = n > 0 && is_blank_field(&self.rows[n - 1].field);
        if !last_is_blank {
            self.rows.push(empty_row());
            proof {
                assert(views(self.rows@) =~= old(self)@.push(fresh_row()));
            }
        }
    }

    /// The fields that hold anything.
    pub fn form_fields(&self) -> (r: Vec<FormField>)
        ensures
            views(r@) == filled_fields(self@),
    {
        let mut out: Vec<FormField> = Vec::new();
        let mut i: usize = 0;
        let ghost all = self@;
        proof {
            assert(all.take(0) =~= Seq::<FormRowView>::empty());
            assert(views(out@) =~= Seq::<FormFieldView>::empty());
        }
        while i < self.rows.len()
            invariant
                i <= self.rows@.len(),
                all == views(self.rows@),
                views(out@) == filled_fields(all.take(i as int)),
            decreases self.rows@.len() - i,
        {
            let row = &self.rows[i];
            proof {
                assert(all.take(i + 1).drop_last() =~= all.take(i as int));
                assert(all.take(i + 1).last() == row@);
            }
            if !is_blank_field(&row.field) {
                let ghost head = out@;
                out.push(row.field.clone());
                proof {
                    assert(views(out@) =~= views(head).push(row.field@));
                }
            }
            i = i + 1;
        }
        proof {
            assert(all.take(i as int) =~= all);
        }
        out
    }

    /// Replaces the rows.
    pub fn set_form_fields(&mut self, fields: &Vec<FormField>)
        ensures
            final(self)@ == settled_form(form_rows(views(fields@))),
    {
        let mut rows: Vec<FormRow> = Vec::new();
        let mut i: usize = 0;
        while i < fields.len()
            invariant
                i <= fields@.len(),
                rows@.len() == i,
                forall|k: int|
                    0 <= k < i ==> (#[trigger] rows@[k])@ == (FormRowView {
                        field: fields@[k]@,
                        size: None,
                    }),
            decreases fields@.len() - i,
        {
            rows.push(FormRow { field: fields[i].clone(), size: None });
            i = i + 1;
        }
        self.rows = rows;
        proof {
            assert(views(self.rows@) =~= form_rows(views(fields@)));
        }
        self.settle();
    }

    /// Takes a row as it was typed; without effect beyond the last row.
    pub fn edit_row(&mut self, ix: usize, key: &str, text: &str)
        ensures
            final(self)@ == settled_form(
                if ix < old(self)@.len() {
                    old(self)@.update(ix as int, with_text(old(self)@[ix as int], key@, text@))
                } else {
                    old(self)@
                },
            ),
    {
        if ix < self.rows.len() {
            let row = &self.rows[ix];
            let value = match &row.field.value {
                FormValue::Text { .. } => FormValue::Text { value: text.to_owned() },
                file => file.clone(),
            };
            let edited = FormRow {
                field: FormField { key: key.to_owned(), value, enabled: row.field.enabled },
                size: row.size,
            };
            self.put(ix, edited);
        }
        self.settle();
    }

    /// Makes a row one of texts or of files; without effect beyond the last row.
    pub fn set_row_kind(&mut self, ix: usize, kind: RowKind)
        ensures
            final(self)@ == settled_form(
                if ix < old(self)@.len() {
                    old(self)@.update(ix as int, with_kind(old(self)@[ix as int], kind))
                } else {
                    old(self)@
                },
            ),
    {
        if ix < self.rows.len() {
            let is_file = matches!(&self.rows[ix].field.value, FormValue::File { .. });
            let ghost before = self@;
            if is_file != (kind == RowKind::File) {
                let row = &self.rows[ix];
                proof {
                    reveal_strlit("");
                    assert(""@ =~= Seq::<char>::empty());
                }
                let value = match kind {
                    RowKind::Text => FormValue::Text { value: "".to_owned() },
                    RowKind::File => FormValue::File { path: "".to_owned(), content_type: None },
                };
                let changed = FormRow {
                    field: FormField {
                        key: row.field.key.clone(),
                        value,
                        enabled: row.field.enabled,
                    },
                    size: None,
                };
                self.put(ix, changed);
            } else {
                proof {
                    assert(before.update(ix as int, before[ix as int]) =~= before);
                }
            }
        }
        self.settle();
    }

    /// Takes the answer of the file dialog for a row: without a file, or beyond the
    /// last row, nothing changes.
    pub fn choose_row_file(&mut self, ix: usize, path: Option<&str>)
        ensures
            final(self)@ == (match path {
                Some(p) if ix < old(self)@.len() => settled_form(
                    old(self)@.update(ix as int, with_file(old(self)@[ix as int], p@)),
                ),
                _ => old(self)@,
            }),
    {
        if let Some(p) = path {
            if ix < self.rows.len() {
                let row = &self.rows[ix];
                let chosen = FormRow {
                    field: FormField {
                        key: row.field.key.clone(),
                        value: FormValue::File { path: p.to_owned(), content_type: None },
                        enabled: row.field.enabled,
                    },
                    size: None,
                };
                self.put(ix, chosen);
                self.settle();
            }
        }
    }

    /// Takes the size of the file at `path`. It is dropped where the row holds
    /// another file by now.
    pub fn row_file_measured(&mut self, ix: usize, path: &str, size: Option<u64>)
        ensures
            final(self)@ == (if ix < old(self)@.len() && holds_file(old(self)@[ix as int], path@) {
                old(self)@.update(ix as int, FormRowView { size, ..old(self)@[ix as int] })
            } else {
                old(self)@
            }),
    {
        if ix < self.rows.len() {
            let row = &self.rows[ix];
            let held = match &row.field.value {
                FormValue::File { path: held, .. } => same_text(held.as_str(), path),
                FormValue::Text { .. } => false,
            };
            if held {
                let measured = FormRow { field: row.field.clone(), size };
                self.put(ix, measured);
            }
        }
    }

    /// Without effect beyond the last row.
    pub fn remove_row(&mut self, ix: usize)
        ensures
            final(self)@ == settled_form(
                if ix < old(self)@.len() {
                    old(self)@.remove(ix as int)
                } else {
                    old(self)@
                },
            ),
    {
        let ghost before = self@;
        if ix < self.rows.len() {
            let _gone = self.rows.remove(ix);
            proof {
                assert(views(self.rows@) =~= before.remove(ix as int));
            }
        }
        self.settle();
    }

    /// Without effect beyond the last row.
    pub fn toggle_row(&mut self, ix: usize, checked: bool)
        ensures
            final(self)@ == (if ix < old(self)@.len() {
                let row = old(self)@[ix as int];
                old(self)@.update(
                    ix as int,
                    FormRowView {
                        field: FormFieldView { enabled: checked, ..row.field },
                        ..row
                    },
                )
            } else {
                old(self)@
            }),
    {
        if ix < self.rows.len() {
            let row = &self.rows[ix];
            let mut field = row.field.clone();
            field.enabled = checked;
            let toggled = FormRow { field, size: row.size };
            self.put(ix, toggled);
        }
    }

    fn put(&mut self, ix: usize, row: FormRow)
        requires
            ix < old(self)@.len(),
        ensures
            final(self)@ == old(self)@.update(ix as int, row@),
    {
        let ghost before = self@;
        let ghost view = row@;
        self.rows.set(ix, row);
        proof {
            assert(views(self.rows@) =~= before.update(ix as int, view));
        }
    }
}

/// Whether all fields hold something.
pub open spec fn all_fields_filled(fields: Seq<FormFieldView>) -> bool {
    forall|i: int| 0 <= i < fields.len() ==> !blank_field(#[trigger] fields[i])
}

/// Fields that all hold something are read back as they were set. A file row whose
/// file is not chosen yet holds something once it has a key.
pub proof fn set_fields_are_read_back(fields: Seq<FormFieldView>)
    requires
        all_fields_filled(fields),
    ensures
        filled_fields(settled_form(form_rows(fields))) == fields,
{
    lemma_all_read(fields);
    let rows = settled_form(form_rows(fields));
    assert(rows.drop_last() =~= form_rows(fields));
}

proof fn lemma_all_read(fields: Seq<FormFieldView>)
    requires
        all_fields_filled(fields),
    ensures
        filled_fields(form_rows(fields)) == fields,
    decreases fields.len(),
{
    if fields.len() > 0 {
        lemma_all_read(fields.drop_last());
        assert(form_rows(fields).drop_last() =~= form_rows(fields.drop_last()));
        assert(fields.drop_last().push(fields.last()) =~= fields);
    } else {
        assert(fields =~= Seq::empty());
    }
}

/// No field that is read back is blank.
pub proof fn read_fields_are_filled(rows: Seq<FormRowView>)
    ensures
        all_fields_filled(filled_fields(rows)),
    decreases rows.len(),
{
    if rows.len() > 0 {
        read_fields_are_filled(rows.drop_last());
    }
}

/// Choosing a file in the last row leaves a blank row below it.
pub proof fn chosen_file_leaves_a_blank_row(rows: Seq<FormRowView>, path: Seq<char>)
    requires
        rows.len() > 0,
        path.len() > 0,
    ensures
        ({
            let after = settled_form(rows.update(rows.len() - 1, with_file(rows.last(), path)));
            &&& after.len() == rows.len() + 1
            &&& blank_field(after.last().field)
            &&& holds_file(after[rows.len() - 1], path)
        }),
{
}

/// A row that is made one of files and back again loses its file and keeps its key.
pub proof fn switching_back_drops_the_file(row: FormRowView, path: Seq<char>)
    ensures
        with_kind(with_file(row, path), RowKind::Text).field == (FormFieldView {
            value: empty_value(RowKind::Text),
            ..row.field
        }),
        with_kind(with_file(row, path), RowKind::Text).size is None,
{
}

} // verus!
