//! Editable rows of keys and values. A table that is not driven from outside
//! ends in a blank row, into which the next entry is typed.
use crate::model::{clone_rows, KeyValue, KeyValueView};
use crate::strings::{same_text, views};
use vstd::prelude::*;

verus! {

pub open spec fn blank(row: KeyValueView) -> bool {
    row.key.len() == 0 && row.value.len() == 0
}

/// The row that new entries are typed into.
pub open spec fn fresh(key: Seq<char>) -> KeyValueView {
    KeyValueView { key, value: Seq::empty(), enabled: true }
}

/// `rows` with a blank row at the end.
pub open spec fn with_trailing(rows: Seq<KeyValueView>) -> Seq<KeyValueView> {
    if rows.len() > 0 && blank(rows.last()) {
        rows
    } else {
        rows.push(fresh(Seq::empty()))
    }
}

/// The rows that hold anything.
pub open spec fn filled_rows(rows: Seq<KeyValueView>) -> Seq<KeyValueView>
    decreases rows.len(),
{
    if rows.len() == 0 {
        Seq::empty()
    } else {
        let head = filled_rows(rows.drop_last());
        if blank(rows.last()) {
            head
        } else {
            head.push(rows.last())
        }
    }
}

/// How many rows take effect.
pub open spec fn effective(rows: Seq<KeyValueView>) -> nat
    decreases rows.len(),
{
    if rows.len() == 0 {
        0
    } else {
        effective(rows.drop_last()) + if rows.last().enabled && rows.last().key.len() > 0 {
            1nat
        } else {
            0nat
        }
    }
}

pub open spec fn keys_of(rows: Seq<KeyValueView>) -> Seq<Seq<char>> {
    rows.map_values(|r: KeyValueView| r.key)
}

/// The first row with the given key; a fresh one where there is none.
pub open spec fn row_for(rows: Seq<KeyValueView>, key: Seq<char>) -> KeyValueView
    decreases rows.len(),
{
    if rows.len() == 0 {
        fresh(key)
    } else if rows[0].key == key {
        rows[0]
    } else {
        row_for(rows.skip(1), key)
    }
}

/// `rows` with exactly the given keys.
pub open spec fn synced(rows: Seq<KeyValueView>, names: Seq<Seq<char>>) -> Seq<KeyValueView> {
    if keys_of(rows) == names {
        rows
    } else {
        names.map_values(|n: Seq<char>| row_for(rows, n))
    }
}

#[derive(Debug)]
pub struct KvTable {
    rows: Vec<KeyValue>,
    locked_keys: bool,
}

pub struct TableView {
    pub rows: Seq<KeyValueView>,
    /// Whether the keys are driven from outside.
    pub locked: bool,
}

impl View for KvTable {
    type V = TableView;

    closed spec fn view(&self) -> TableView {
        TableView { rows: views(self.rows@), locked: self.locked_keys }
    }
}

/// The table after an edit that left `rows`.
pub open spec fn settled(rows: Seq<KeyValueView>, locked: bool) -> TableView {
    TableView { rows: if locked { rows } else { with_trailing(rows) }, locked }
}

fn is_blank(row: &KeyValue) -> (r: bool)
    ensures
        r == blank(row@),
{
    row.key.as_str().unicode_len() == 0 && row.value.as_str().unicode_len() == 0
}

impl KvTable {
    /// A table with one blank row.
    pub fn new() -> (r: KvTable)
        ensures
            r@ == settled(Seq::empty(), false),
    {
        let mut rows: Vec<KeyValue> = Vec::new();
        rows.push(KeyValue::new("", ""));
        proof {
            reveal_strlit("");
            assert(""@ =~= Seq::<char>::empty());
            assert(views(rows@) =~= with_trailing(Seq::empty()));
        }
        KvTable { rows, locked_keys: false }
    }

    /// A table whose keys are driven from outside starts without rows.
    pub fn locked_keys(self, locked: bool) -> (r: KvTable)
        ensures
            r@ == (if locked {
                TableView { rows: Seq::empty(), locked: true }
            } else {
                TableView { rows: self@.rows, locked: false }
            }),
    {
        if locked {
            let rows: Vec<KeyValue> = Vec::new();
            proof {
                assert(views(rows@) =~= Seq::<KeyValueView>::empty());
            }
            KvTable { rows, locked_keys: true }
        } else {
            KvTable { rows: self.rows, locked_keys: false }
        }
    }

    pub fn row_count(&self) -> (r: usize)
        ensures
            r == self@.rows.len(),
    {
        self.rows.len()
    }

    pub fn row(&self, ix: usize) -> (r: &KeyValue)
        requires
            ix < self@.rows.len(),
        ensures
            r@ == self@.rows[ix as int],
    {
        &self.rows[ix]
    }

    fn ensure_trailing_empty_row(&mut self)
        ensures
            final(self)@ == settled(old(self)@.rows, old(self)@.locked),
    {
        if self.locked_keys {
            return;
        }
        let n = self.rows.len();
        let last_is_empty = n > 0 && is_blank(&self.rows[n - 1]);
        if !last_is_empty {
            self.rows.push(KeyValue::new("", ""));
            proof {
                reveal_strlit("");
                assert(""@ =~= Seq::<char>::empty());
                assert(views(self.rows@) =~= old(self)@.rows.push(fresh(Seq::empty())));
            }
        }
    }

    /// Takes a row as it was typed; without effect beyond the last row.
    pub fn edit_row(&mut self, ix: usize, key: &str, value: &str)
        ensures
            final(self)@ == settled(
                if ix < old(self)@.rows.len() {
                    old(self)@.rows.update(
                        ix as int,
                        KeyValueView {
                            key: key@,
                            value: value@,
                            enabled: old(self)@.rows[ix as int].enabled,
                        },
                    )
                } else {
                    old(self)@.rows
                },
                old(self)@.locked,
            ),
    {
        let ghost before = self@.rows;
        if ix < self.rows.len() {
            let enabled = self.rows[ix].enabled;
            let row = KeyValue { key: key.to_owned(), value: value.to_owned(), enabled };
            let ghost view = row@;
            self.rows.set(ix, row);
            proof {
                assert(views(self.rows@) =~= before.update(ix as int, view));
            }
        }
        self.ensure_trailing_empty_row();
    }

    /// The rows that hold anything.
    pub fn values(&self) -> (r: Vec<KeyValue>)
        ensures
            views(r@) == filled_rows(self@.rows),
    {
        let mut out: Vec<KeyValue> = Vec::new();
        let mut i: usize = 0;
        let ghost all = self@.rows;
        proof {
            assert(all.take(0) =~= Seq::<KeyValueView>::empty());
            assert(views(out@) =~= Seq::<KeyValueView>::empty());
        }
        while i < self.rows.len()
            invariant
                i <= self.rows@.len(),
                all == views(self.rows@),
                views(out@) == filled_rows(all.take(i as int)),
            decreases self.rows@.len() - i,
        {
            let row = &self.rows[i];
            proof {
                assert(all.take(i + 1).drop_last() =~= all.take(i as int));
                assert(all.take(i + 1).last() == row@);
            }
            if !is_blank(row) {
                let ghost head = out@;
                out.push(row.clone());
                proof {
                    assert(views(out@) =~= views(head).push(row@));
                }
            }
            i = i + 1;
        }
        proof {
            assert(all.take(i as int) =~= all);
        }
        out
    }

    /// How many rows take effect: enabled and with a key.
    pub fn count(&self) -> (r: usize)
        ensures
            r == effective(self@.rows),
    {
        let mut n: usize = 0;
        let mut i: usize = 0;
        let ghost all = self@.rows;
        proof {
            assert(all.take(0) =~= Seq::<KeyValueView>::empty());
        }
        while i < self.rows.len()
            invariant
                i <= self.rows@.len(),
                n <= i,
                all == views(self.rows@),
                n == effective(all.take(i as int)),
            decreases self.rows@.len() - i,
        {
            let row = &self.rows[i];
            proof {
                assert(all.take(i + 1).drop_last() =~= all.take(i as int));
                assert(all.take(i + 1).last() == row@);
            }
            if row.enabled && row.key.as_str().unicode_len() > 0 {
                n = n + 1;
            }
            i = i + 1;
        }
        proof {
            assert(all.take(i as int) =~= all);
        }
        n
    }

    /// Replaces the rows.
    pub fn set_values(&mut self, values: &Vec<KeyValue>)
        ensures
            final(self)@ == settled(views(values@), old(self)@.locked),
    {
        self.rows = clone_rows(values);
        self.ensure_trailing_empty_row();
    }

    /// Gives the table exactly the keys `names`; rows that keep their key keep
    /// their value. Tells whether anything changed.
    pub fn sync_keys(&mut self, names: &Vec<String>) -> (changed: bool)
        ensures
            final(self)@.rows == synced(old(self)@.rows, views(names@)),
            final(self)@.locked == old(self)@.locked,
            changed == (keys_of(old(self)@.rows) != views(names@)),
    {
        if same_keys(&self.rows, names) {
            return false;
        }
        let ghost before = self@.rows;
        let mut out: Vec<KeyValue> = Vec::new();
        let mut i: usize = 0;
        while i < names.len()
            invariant
                i <= names@.len(),
                out@.len() == i,
                before == views(self.rows@),
                forall|k: int| 0 <= k < i ==> (#[trigger] out@[k])@ == row_for(before, names@[k]@),
            decreases names@.len() - i,
        {
            out.push(find_row(&self.rows, names[i].as_str()));
            i = i + 1;
        }
        self.rows = out;
        proof {
            assert(views(self.rows@) =~= synced(before, views(names@)));
        }
        true
    }

    /// Without effect beyond the last row.
    pub fn remove_row(&mut self, ix: usize)
        ensures
            final(self)@ == settled(
                if ix < old(self)@.rows.len() {
                    old(self)@.rows.remove(ix as int)
                } else {
                    old(self)@.rows
                },
                old(self)@.locked,
            ),
    {
        let ghost before = self@.rows;
        if ix < self.rows.len() {
            let _gone = self.rows.remove(ix);
            proof {
                assert(views(self.rows@) =~= before.remove(ix as int));
            }
        }
        self.ensure_trailing_empty_row();
    }

    /// Without effect beyond the last row.
    pub fn toggle_row(&mut self, ix: usize, checked: bool)
        ensures
            final(self)@ == (TableView {
                rows: if ix < old(self)@.rows.len() {
                    old(self)@.rows.update(
                        ix as int,
                        KeyValueView { enabled: checked, ..old(self)@.rows[ix as int] },
                    )
                } else {
                    old(self)@.rows
                },
                locked: old(self)@.locked,
            }),
    {
        let ghost before = self@.rows;
        if ix < self.rows.len() {
            let mut row = self.rows[ix].clone();
            row.enabled = checked;
            let ghost view = row@;
            self.rows.set(ix, row);
            proof {
                assert(views(self.rows@) =~= before.update(ix as int, view));
            }
        }
    }
}

fn same_keys(rows: &Vec<KeyValue>, names: &Vec<String>) -> (r: bool)
    ensures
        r == (keys_of(views(rows@)) == views(names@)),
{
    let ghost keys = keys_of(views(rows@));
    let ghost wanted = views(names@);
    if rows.len() != names.len() {
        proof {
            assert(keys.len() != wanted.len());
        }
        return false;
    }
    let mut i: usize = 0;
    while i < rows.len()
        invariant
            i <= rows@.len(),
            rows@.len() == names@.len(),
            keys == keys_of(views(rows@)),
            wanted == views(names@),
            forall|k: int| 0 <= k < i ==> keys[k] == wanted[k],
        decreases rows@.len() - i,
    {
        if !same_text(rows[i].key.as_str(), names[i].as_str()) {
            proof {
                assert(keys[i as int] != wanted[i as int]);
            }
            return false;
        }
        i = i + 1;
    }
    proof {
        assert(keys =~= wanted);
    }
    true
}

fn find_row(rows: &Vec<KeyValue>, name: &str) -> (r: KeyValue)
    ensures
        r@ == row_for(views(rows@), name@),
{
    let ghost all = views(rows@);
    let mut i: usize = 0;
    proof {
        assert(all.skip(0) =~= all);
    }
    while i < rows.len()
        invariant
            i <= rows@.len(),
            all == views(rows@),
            row_for(all, name@) == row_for(all.skip(i as int), name@),
        decreases rows@.len() - i,
    {
        if same_text(rows[i].key.as_str(), name) {
            return rows[i].clone();
        }
        proof {
            assert(all.skip(i as int).skip(1) =~= all.skip(i + 1));
        }
        i = i + 1;
    }
    proof {
        reveal_strlit("");
        assert(""@ =~= Seq::<char>::empty());
    }
    KeyValue::new(name, "")
}

/// Rows that all hold something are read back as they were set.
pub proof fn set_values_are_read_back(values: Seq<KeyValueView>, locked: bool)
    requires
        forall|i: int| 0 <= i < values.len() ==> !blank(#[trigger] values[i]),
    ensures
        filled_rows(settled(values, locked).rows) == values,
{
    lemma_all_filled(values);
    if !locked {
        let rows = with_trailing(values);
        assert(rows.drop_last() =~= values);
    }
}

proof fn lemma_all_filled(values: Seq<KeyValueView>)
    requires
        forall|i: int| 0 <= i < values.len() ==> !blank(#[trigger] values[i]),
    ensures
        filled_rows(values) == values,
    decreases values.len(),
{
    if values.len() > 0 {
        lemma_all_filled(values.drop_last());
        assert(values.drop_last().push(values.last()) =~= values);
    } else {
        assert(values =~= Seq::empty());
    }
}

/// The row into which the next entry is typed holds nothing that is read back.
pub proof fn trailing_row_is_not_read(rows: Seq<KeyValueView>)
    ensures
        with_trailing(rows).len() > 0,
        blank(with_trailing(rows).last()),
        filled_rows(with_trailing(rows)) == filled_rows(rows),
        effective(with_trailing(rows)) == effective(rows),
{
    if !(rows.len() > 0 && blank(rows.last())) {
        assert(with_trailing(rows).drop_last() =~= rows);
    }
}

/// Syncing gives the table exactly the given keys, in their order, and a row
/// whose key stays keeps its value.
pub proof fn syncing_keeps_values(rows: Seq<KeyValueView>, names: Seq<Seq<char>>, i: int)
    requires
        0 <= i < names.len(),
    ensures
        keys_of(synced(rows, names)) == names,
        (exists|k: int| 0 <= k < rows.len() && (#[trigger] rows[k]).key == names[i])
            ==> rows.contains(synced(rows, names)[i]),
        !(exists|k: int| 0 <= k < rows.len() && (#[trigger] rows[k]).key == names[i])
            ==> synced(rows, names)[i] == fresh(names[i]),
{
    assert forall|n: Seq<char>| true implies #[trigger] row_for(rows, n).key == n by {
        lemma_row_for(rows, n);
    }
    assert(keys_of(synced(rows, names)) =~= names);
    lemma_row_for(rows, names[i]);
    if keys_of(rows) == names {
        assert(keys_of(rows)[i] == rows[i].key);
        assert(rows[i].key == names[i]);
    }
}

proof fn lemma_row_for(rows: Seq<KeyValueView>, key: Seq<char>)
    ensures
        row_for(rows, key).key == key,
        (exists|k: int| 0 <= k < rows.len() && (#[trigger] rows[k]).key == key) ==> rows.contains(
            row_for(rows, key),
        ),
        !(exists|k: int| 0 <= k < rows.len() && (#[trigger] rows[k]).key == key) ==> row_for(
            rows,
            key,
        ) == fresh(key),
    decreases rows.len(),
{
    if rows.len() > 0 && rows[0].key != key {
        let tail = rows.skip(1);
        lemma_row_for(tail, key);
        assert forall|k: int| 0 <= k < tail.len() implies #[trigger] tail[k] == rows[k + 1] by {}
        if exists|k: int| 0 <= k < rows.len() && (#[trigger] rows[k]).key == key {
            let k = choose|k: int| 0 <= k < rows.len() && (#[trigger] rows[k]).key == key;
            assert(tail[k - 1].key == key);
            let j = choose|j: int| 0 <= j < tail.len() && tail[j] == row_for(tail, key);
            assert(rows[j + 1] == row_for(rows, key));
        } else if exists|k: int| 0 <= k < tail.len() && (#[trigger] tail[k]).key == key {
            let k = choose|k: int| 0 <= k < tail.len() && (#[trigger] tail[k]).key == key;
            assert(rows[k + 1].key == key);
        }
    }
}

} // verus!
