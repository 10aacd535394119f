//! The dynamic value and table model.
//!
//! A [`Table`] is an associative container, ordered by insertion, from
//! [`TableKey`] (a string or a positive integer) to dynamically typed
//! [`LuaValue`]s.  Setting a key that is already present overwrites the
//! value in place ("last write wins"); reading returns the value of the
//! first entry with the given key.
//!
//! At the specification level a table is a `Seq<(KeyModel, ValModel)>`:
//! strings become `Seq<char>`, integers become `int`, and nested tables
//! become nested sequences.

use vstd::prelude::*;

verus! {

/// A key of a dynamic table: a string or a positive (1-based) integer.
#[derive(Debug)]
pub enum TableKey {
    Str(String),
    Num(u64),
}

/// A dynamically typed value: the interchange representation the codec
/// reads and writes.  Conversion of leaf values to and from host types
/// is the surrounding environment's business; the codec only arranges
/// them in tables.
#[derive(Debug)]
pub enum LuaValue {
    Bool(bool),
    Int(i64),
    Str(String),
    Tbl(Table),
}

/// One key/value entry of a table.
#[derive(Debug)]
pub struct Entry {
    pub key: TableKey,
    pub val: LuaValue,
}

/// An associative table, ordered by insertion.
#[derive(Debug)]
pub struct Table {
    pub entries: Vec<Entry>,
}

/// The mathematical model of a [`TableKey`].
pub enum KeyModel {
    Str(Seq<char>),
    Num(int),
}

/// The mathematical model of a [`LuaValue`].
pub enum ValModel {
    Bool(bool),
    Int(int),
    Str(Seq<char>),
    Tbl(Seq<(KeyModel, ValModel)>),
}

impl View for TableKey {
    type V = KeyModel;

    open spec fn view(&self) -> KeyModel {
        match self {
            TableKey::Str(s) => KeyModel::Str(s@),
            TableKey::Num(n) => KeyModel::Num(*n as int),
        }
    }
}

/// The model of a value; nested tables are modelled recursively.
pub open spec fn val_model(v: LuaValue) -> ValModel
    decreases v,
{
    match v {
        LuaValue::Bool(b) => ValModel::Bool(b),
        LuaValue::Int(i) => ValModel::Int(i as int),
        LuaValue::Str(s) => ValModel::Str(s@),
        LuaValue::Tbl(t) => ValModel::Tbl(entries_model(t.entries@)),
    }
}

/// The model of a sequence of table entries.
pub open spec fn entries_model(es: Seq<Entry>) -> Seq<(KeyModel, ValModel)>
    decreases es,
{
    if es.len() == 0 {
        Seq::empty()
    } else {
        entries_model(es.drop_last()).push((es.last().key@, val_model(es.last().val)))
    }
}

impl View for LuaValue {
    type V = ValModel;

    open spec fn view(&self) -> ValModel {
        val_model(*self)
    }
}

impl View for Table {
    type V = Seq<(KeyModel, ValModel)>;

    open spec fn view(&self) -> Seq<(KeyModel, ValModel)> {
        entries_model(self.entries@)
    }
}

proof fn lemma_entries_model_len(es: Seq<Entry>)
    ensures
        entries_model(es).len() == es.len(),
    decreases es.len(),
{
    if es.len() > 0 {
        lemma_entries_model_len(es.drop_last());
    }
}

proof fn lemma_entries_model_index(es: Seq<Entry>, i: int)
    requires
        0 <= i < es.len(),
    ensures
        entries_model(es).len() == es.len(),
        entries_model(es)[i] == (es[i].key@, val_model(es[i].val)),
    decreases es.len(),
{
    lemma_entries_model_len(es);
    if i < es.len() - 1 {
        lemma_entries_model_index(es.drop_last(), i);
        assert(es.drop_last()[i] == es[i]);
    }
}

/// Index of the first entry with key `k`; `t.len()` when no entry has it.
pub open spec fn key_index(t: Seq<(KeyModel, ValModel)>, k: KeyModel) -> int
    decreases t.len(),
{
    if t.len() == 0 {
        0
    } else if t[0].0 == k {
        0
    } else {
        1 + key_index(t.skip(1), k)
    }
}

/// The value stored under `k`: the value of the first entry with that key.
pub open spec fn spec_get(t: Seq<(KeyModel, ValModel)>, k: KeyModel) -> Option<ValModel>
    decreases t.len(),
{
    if t.len() == 0 {
        None
    } else if t[0].0 == k {
        Some(t[0].1)
    } else {
        spec_get(t.skip(1), k)
    }
}

/// Whether some entry of `t` has key `k`.
pub open spec fn has_key(t: Seq<(KeyModel, ValModel)>, k: KeyModel) -> bool {
    spec_get(t, k) is Some
}

/// Storing `v` under `k`: overwrites the first entry with key `k` in
/// place, or appends a fresh entry when the key is absent.
pub open spec fn spec_set(t: Seq<(KeyModel, ValModel)>, k: KeyModel, v: ValModel) -> Seq<
    (KeyModel, ValModel),
>
    decreases t.len(),
{
    if t.len() == 0 {
        seq![(k, v)]
    } else if t[0].0 == k {
        seq![(k, v)] + t.skip(1)
    } else {
        seq![t[0]] + spec_set(t.skip(1), k, v)
    }
}

/// `spec_get` in terms of the first matching position.
proof fn lemma_get_by_index(t: Seq<(KeyModel, ValModel)>, k: KeyModel)
    ensures
        key_index(t, k) < t.len() ==> spec_get(t, k) == Some(t[key_index(t, k)].1),
        key_index(t, k) >= t.len() ==> spec_get(t, k) is None,
    decreases t.len(),
{
    lemma_key_index(t, k);
    if t.len() > 0 && t[0].0 != k {
        lemma_get_by_index(t.skip(1), k);
    }
}

/// `spec_set` in terms of the first matching position: an in-place
/// update at the first occurrence, or an appended entry.
proof fn lemma_set_by_index(t: Seq<(KeyModel, ValModel)>, k: KeyModel, v: ValModel)
    ensures
        key_index(t, k) < t.len() ==> spec_set(t, k, v) == t.update(key_index(t, k), (k, v)),
        key_index(t, k) >= t.len() ==> spec_set(t, k, v) == t.push((k, v)),
    decreases t.len(),
{
    lemma_key_index(t, k);
    if t.len() == 0 {
        assert(spec_set(t, k, v) =~= t.push((k, v)));
    } else if t[0].0 == k {
        assert(spec_set(t, k, v) =~= t.update(0, (k, v)));
    } else {
        lemma_set_by_index(t.skip(1), k, v);
        if key_index(t, k) < t.len() {
            assert(seq![t[0]] + t.skip(1).update(key_index(t.skip(1), k), (k, v)) =~= t.update(
                key_index(t, k),
                (k, v),
            ));
        } else {
            assert(seq![t[0]] + t.skip(1).push((k, v)) =~= t.push((k, v)));
        }
    }
}

/// What `spec_set` does to reads: the stored key now holds `v`, every
/// other key is untouched, and the length grows only on a fresh key.
pub proof fn lemma_spec_set(t: Seq<(KeyModel, ValModel)>, k: KeyModel, v: ValModel)
    ensures
        spec_get(spec_set(t, k, v), k) == Some(v),
        forall|k2: KeyModel| k2 != k ==> spec_get(spec_set(t, k, v), k2) == spec_get(t, k2),
        spec_set(t, k, v).len() == if has_key(t, k) {
            t.len()
        } else {
            t.len() + 1
        },
    decreases t.len(),
{
    if t.len() == 0 {
        assert(spec_set(t, k, v) =~= seq![(k, v)]);
        assert forall|k2: KeyModel| k2 != k implies spec_get(spec_set(t, k, v), k2) == spec_get(
            t,
            k2,
        ) by {
            assert(spec_set(t, k, v).skip(1) =~= t);
        }
    } else if t[0].0 == k {
        let s = spec_set(t, k, v);
        assert(s[0] == (k, v));
        assert(s.skip(1) =~= t.skip(1));
        assert forall|k2: KeyModel| k2 != k implies spec_get(s, k2) == spec_get(t, k2) by {
            assert(spec_get(s, k2) == spec_get(s.skip(1), k2));
        }
    } else {
        lemma_spec_set(t.skip(1), k, v);
        let s = spec_set(t, k, v);
        assert(s[0] == t[0]);
        assert(s.skip(1) =~= spec_set(t.skip(1), k, v));
        assert forall|k2: KeyModel| k2 != k implies spec_get(s, k2) == spec_get(t, k2) by {
            if t[0].0 != k2 {
                assert(spec_get(s, k2) == spec_get(s.skip(1), k2));
                assert(spec_get(t, k2) == spec_get(t.skip(1), k2));
            }
        }
    }
}

proof fn lemma_key_index(t: Seq<(KeyModel, ValModel)>, k: KeyModel)
    ensures
        0 <= key_index(t, k) <= t.len(),
        key_index(t, k) < t.len() ==> t[key_index(t, k)].0 == k,
        forall|j: int| 0 <= j < key_index(t, k) ==> t[j].0 != k,
    decreases t.len(),
{
    if t.len() > 0 && t[0].0 != k {
        lemma_key_index(t.skip(1), k);
        assert forall|j: int| 0 <= j < key_index(t, k) implies t[j].0 != k by {
            if j > 0 {
                assert(t.skip(1)[j - 1] == t[j]);
            }
        }
    }
}

/// The models of a sequence of values.
pub open spec fn vals_model(s: Seq<LuaValue>) -> Seq<ValModel> {
    s.map_values(|v: LuaValue| val_model(v))
}

/// A copy of a key with the same model.
pub fn clone_key(k: &TableKey) -> (r: TableKey)
    ensures
        r@ == k@,
{
    match k {
        TableKey::Str(s) => TableKey::Str(s.clone()),
        TableKey::Num(n) => TableKey::Num(*n),
    }
}

/// A copy of a value with the same model; nested tables are copied
/// entry by entry.
pub fn clone_value(v: &LuaValue) -> (r: LuaValue)
    ensures
        r@ == v@,
    decreases *v,
{
    match v {
        LuaValue::Bool(b) => LuaValue::Bool(*b),
        LuaValue::Int(i) => LuaValue::Int(*i),
        LuaValue::Str(s) => LuaValue::Str(s.clone()),
        LuaValue::Tbl(t) => LuaValue::Tbl(t.duplicate()),
    }
}

/// Whether two values have the same model, compared structurally.
pub fn value_eq(a: &LuaValue, b: &LuaValue) -> (r: bool)
    ensures
        r == (a@ == b@),
    decreases *a,
{
    match (a, b) {
        (LuaValue::Bool(x), LuaValue::Bool(y)) => *x == *y,
        (LuaValue::Int(x), LuaValue::Int(y)) => *x == *y,
        (LuaValue::Str(x), LuaValue::Str(y)) => *x == *y,
        (LuaValue::Tbl(x), LuaValue::Tbl(y)) => table_eq(x, y),
        _ => false,
    }
}

/// Whether two tables have the same model: the same entries, in the
/// same order.
pub fn table_eq(a: &Table, b: &Table) -> (r: bool)
    ensures
        r == (a@ == b@),
    decreases *a,
{
    proof {
        lemma_entries_model_len(a.entries@);
        lemma_entries_model_len(b.entries@);
    }
    let n = a.entries.len();
    if n != b.entries.len() {
        return false;
    }
    let mut i: usize = 0;
    while i < n
        invariant
            n == a.entries.len(),
            n == b.entries.len(),
            i <= n,
            a@.len() == n,
            b@.len() == n,
            forall|j: int| 0 <= j < i ==> a@[j] == b@[j],
        decreases n - i,
    {
        proof {
            lemma_entries_model_index(a.entries@, i as int);
            lemma_entries_model_index(b.entries@, i as int);
            assert(decreases_to!(*a => a.entries@[i as int].val));
        }
        let ea = &a.entries[i];
        let eb = &b.entries[i];
        if !key_eq(&ea.key, &eb.key) {
            return false;
        }
        if !value_eq(&ea.val, &eb.val) {
            return false;
        }
        i = i + 1;
    }
    proof {
        assert(a@ =~= b@);
    }
    true
}

/// Whether two keys are the same key.
pub fn key_eq(a: &TableKey, b: &TableKey) -> (r: bool)
    ensures
        r == (a@ == b@),
{
    match (a, b) {
        (TableKey::Str(x), TableKey::Str(y)) => *x == *y,
        (TableKey::Num(x), TableKey::Num(y)) => *x == *y,
        _ => false,
    }
}

impl Table {
    /// A fresh, empty table.
    pub fn new() -> (t: Table)
        ensures
            t@ == Seq::<(KeyModel, ValModel)>::empty(),
    {
        Table { entries: Vec::new() }
    }

    /// Index of the first entry whose key is `k`, or the entry count.
    fn find_key(&self, k: &TableKey) -> (i: usize)
        ensures
            i == key_index(self@, k@),
    {
        proof {
            lemma_entries_model_len(self.entries@);
            lemma_key_index(self@, k@);
        }
        let n = self.entries.len();
        let mut i: usize = 0;
        while i < n
            invariant
                n == self.entries.len(),
                i <= n,
                self@.len() == n,
                forall|j: int| 0 <= j < i ==> self@[j].0 != k@,
            decreases n - i,
        {
            proof {
                lemma_entries_model_index(self.entries@, i as int);
            }
            if key_eq(&self.entries[i].key, k) {
                proof {
                    lemma_key_index(self@, k@);
                }
                return i;
            }
            i = i + 1;
        }
        proof {
            lemma_key_index(self@, k@);
        }
        i
    }

    /// Read the value stored under `k`, if any.
    pub fn get(&self, k: &TableKey) -> (r: Option<&LuaValue>)
        ensures
            match r {
                Some(v) => spec_get(self@, k@) == Some(v@),
                None => spec_get(self@, k@) is None,
            },
    {
        proof {
            lemma_get_by_index(self@, k@);
        }
        let i = self.find_key(k);
        if i < self.entries.len() {
            proof {
                lemma_entries_model_index(self.entries@, i as int);
            }
            Some(&self.entries[i].val)
        } else {
            proof {
                lemma_entries_model_len(self.entries@);
            }
            None
        }
    }

    /// Store `v` under `k`; an entry already holding `k` is overwritten
    /// in place, and a missing key is appended at the end.
    pub fn set(&mut self, k: TableKey, v: LuaValue)
        ensures
            final(self)@ == spec_set(old(self)@, k@, v@),
    {
        let ghost t0 = self@;
        let i = self.find_key(&k);
        proof {
            lemma_entries_model_len(self.entries@);
            lemma_set_by_index(t0, k@, v@);
        }
        if i < self.entries.len() {
            let ghost es0 = self.entries@;
            let ghost kv = (k@, v@);
            self.entries.set(i, Entry { key: k, val: v });
            proof {
                assert forall|j: int| 0 <= j < es0.len() implies entries_model(self.entries@)[j]
                    == t0.update(i as int, kv)[j] by {
                    lemma_entries_model_index(self.entries@, j);
                    lemma_entries_model_index(es0, j);
                }
                lemma_entries_model_len(self.entries@);
                assert(entries_model(self.entries@) =~= t0.update(i as int, kv));
            }
        } else {
            let ghost es0 = self.entries@;
            let ghost kv = (k@, v@);
            self.entries.push(Entry { key: k, val: v });
            proof {
                assert(self.entries@.drop_last() =~= es0);
                assert(entries_model(self.entries@) =~= t0.push(kv));
            }
        }
    }

    /// The number of entries.
    pub fn len(&self) -> (n: usize)
        ensures
            n == self@.len(),
    {
        proof {
            lemma_entries_model_len(self.entries@);
        }
        self.entries.len()
    }

    /// A copy of this table with the same model.
    pub fn duplicate(&self) -> (r: Table)
        ensures
            r@ == self@,
        decreases *self,
    {
        let n = self.entries.len();
        let mut out: Vec<Entry> = Vec::new();
        let mut i: usize = 0;
        while i < n
            invariant
                n == self.entries.len(),
                i <= n,
                out@.len() == i,
                forall|j: int|
                    0 <= j < i ==> #[trigger] out@[j].key@ == self.entries@[j].key@ && out@[j].val@
                        == self.entries@[j].val@,
            decreases n - i,
        {
            proof {
                assert(decreases_to!(*self => self.entries@[i as int].val));
            }
            let e = &self.entries[i];
            let ek = clone_key(&e.key);
            let ev = clone_value(&e.val);
            out.push(Entry { key: ek, val: ev });
            i = i + 1;
        }
        let r = Table { entries: out };
        proof {
            lemma_entries_model_len(r.entries@);
            lemma_entries_model_len(self.entries@);
            assert forall|j: int| 0 <= j < n implies entries_model(r.entries@)[j] == entries_model(
                self.entries@,
            )[j] by {
                lemma_entries_model_index(r.entries@, j);
                lemma_entries_model_index(self.entries@, j);
            }
            assert(entries_model(r.entries@) =~= entries_model(self.entries@));
        }
        r
    }

    /// The entry at position `i` in insertion order.
    pub fn entry_at(&self, i: usize) -> (e: &Entry)
        requires
            i < self@.len(),
        ensures
            e.key@ == self@[i as int].0,
            e.val@ == self@[i as int].1,
    {
        proof {
            lemma_entries_model_len(self.entries@);
            lemma_entries_model_index(self.entries@, i as int);
        }
        &self.entries[i]
    }
}

} // verus!
