//! The dynamic value model: keys, values and ordered tables.

use vstd::prelude::*;
use crate::text::{nat_text, push_decimal};

verus! {

/// The mathematical model of a table key.
pub enum KeyModel {
    Str(Seq<char>),
    Number(u32),
}

/// The mathematical model of a dynamic value.
pub enum ValueModel {
    Nil,
    Boolean(bool),
    LightUserData(u64),
    Integer(i64),
    /// A floating-point number: its bit pattern and its decimal text.
    Number(u64, Seq<char>),
    Str(Seq<char>),
    Table(Seq<(KeyModel, ValueModel)>),
    Function(Seq<char>),
    Thread(Seq<char>),
    UserData(Seq<char>),
    Error(Seq<char>),
}

/// A key of a table: a string or an unsigned number.
#[derive(Debug)]
pub enum TableKey {
    Str(String),
    Number(u32),
}

/// A floating-point number, held as its IEEE-754 bit pattern together with
/// the decimal text under which the host shows it.
#[derive(Debug)]
pub struct LuaNumber {
    pub bits: u64,
    pub text: String,
}

/// An ordered table: pairs in insertion order. Tables built with `new` and
/// `set` hold each key once (`wf`); lookups read the first pair of a key.
#[derive(Debug)]
pub struct Table {
    pub entries: Vec<(TableKey, Value)>,
}

/// A dynamic value of the scripting runtime.
#[derive(Debug)]
pub enum Value {
    Nil,
    Boolean(bool),
    LightUserData(u64),
    Integer(i64),
    Number(LuaNumber),
    Str(String),
    Table(Table),
    /// An opaque function handle, carried as its debug text.
    Function(String),
    /// An opaque coroutine handle, carried as its debug text.
    Thread(String),
    /// An opaque user data handle, carried as its debug text.
    UserData(String),
    /// An opaque runtime error, carried as its debug text.
    Error(String),
}

impl View for TableKey {
    type V = KeyModel;

    open spec fn view(&self) -> KeyModel {
        match self {
            TableKey::Str(s) => KeyModel::Str(s@),
            TableKey::Number(n) => KeyModel::Number(*n),
        }
    }
}

/// The model of a value.
pub open spec fn value_model(v: Value) -> ValueModel
    decreases v,
{
    match v {
        Value::Nil => ValueModel::Nil,
        Value::Boolean(b) => ValueModel::Boolean(b),
        Value::LightUserData(p) => ValueModel::LightUserData(p),
        Value::Integer(i) => ValueModel::Integer(i),
        Value::Number(n) => ValueModel::Number(n.bits, n.text@),
        Value::Str(s) => ValueModel::Str(s@),
        Value::Table(t) => ValueModel::Table(entries_model(t.entries@)),
        Value::Function(s) => ValueModel::Function(s@),
        Value::Thread(s) => ValueModel::Thread(s@),
        Value::UserData(s) => ValueModel::UserData(s@),
        Value::Error(s) => ValueModel::Error(s@),
    }
}

/// The model of a sequence of table pairs.
pub open spec fn entries_model(s: Seq<(TableKey, Value)>) -> Seq<(KeyModel, ValueModel)>
    decreases s,
{
    if s.len() == 0 {
        Seq::empty()
    } else {
        entries_model(s.drop_last()).push((s.last().0@, value_model(s.last().1)))
    }
}

impl View for Value {
    type V = ValueModel;

    open spec fn view(&self) -> ValueModel {
        value_model(*self)
    }
}

impl View for Table {
    type V = Seq<(KeyModel, ValueModel)>;

    open spec fn view(&self) -> Seq<(KeyModel, ValueModel)> {
        entries_model(self.entries@)
    }
}

/// The model of each pair is the pair of models.
pub proof fn lemma_entries_model(s: Seq<(TableKey, Value)>)
    ensures
        entries_model(s).len() == s.len(),
        forall|i: int|
            0 <= i < s.len() ==> #[trigger] entries_model(s)[i] == (s[i].0@, value_model(s[i].1)),
    decreases s.len(),
{
    if s.len() > 0 {
        lemma_entries_model(s.drop_last());
    }
}


/// Whether a key occurs among the pairs.
pub open spec fn has_key(m: Seq<(KeyModel, ValueModel)>, k: KeyModel) -> bool {
    exists|i: int| 0 <= i < m.len() && #[trigger] m[i].0 == k
}

/// The value under a key: that of its first pair, or nil where it has none.
pub open spec fn lookup(m: Seq<(KeyModel, ValueModel)>, k: KeyModel) -> ValueModel
    decreases m.len(),
{
    if m.len() == 0 {
        ValueModel::Nil
    } else if m[0].0 == k {
        m[0].1
    } else {
        lookup(m.drop_first(), k)
    }
}

/// The pairs after `t[k] = v`: the first pair of the key gets the new value,
/// or goes where the value is nil; an absent key is appended unless the value
/// is nil.
pub open spec fn assign(m: Seq<(KeyModel, ValueModel)>, k: KeyModel, v: ValueModel) -> Seq<(KeyModel, ValueModel)>
    decreases m.len(),
{
    if m.len() == 0 {
        if v == ValueModel::Nil {
            m
        } else {
            seq![(k, v)]
        }
    } else if m[0].0 == k {
        if v == ValueModel::Nil {
            m.drop_first()
        } else {
            seq![(k, v)] + m.drop_first()
        }
    } else {
        seq![m[0]] + assign(m.drop_first(), k, v)
    }
}

/// No key occurs twice.
pub open spec fn keys_unique(m: Seq<(KeyModel, ValueModel)>) -> bool {
    forall|i: int, j: int| 0 <= i < j < m.len() ==> m[i].0 != m[j].0
}

/// A missing key reads as nil.
pub proof fn lemma_lookup_missing(m: Seq<(KeyModel, ValueModel)>, k: KeyModel)
    ensures
        !has_key(m, k) ==> lookup(m, k) == ValueModel::Nil,
    decreases m.len(),
{
    if m.len() > 0 && !has_key(m, k) {
        assert(m[0].0 != k);
        if has_key(m.drop_first(), k) {
            let j = choose|j: int| 0 <= j < m.drop_first().len() && #[trigger] m.drop_first()[j].0 == k;
            assert(m[j + 1].0 == k);
        }
        lemma_lookup_missing(m.drop_first(), k);
    }
}

/// Writing into a table without repeated keys leaves none repeated, and the
/// key then reads as the value written; a nil write leaves the key absent.
pub proof fn lemma_assign_unique(m: Seq<(KeyModel, ValueModel)>, k: KeyModel, v: ValueModel)
    requires
        keys_unique(m),
    ensures
        keys_unique(assign(m, k, v)),
        lookup(assign(m, k, v), k) == v,
        has_key(assign(m, k, v), k) == (v != ValueModel::Nil),
{
    if has_key(m, k) {
        let i = choose|i: int| 0 <= i < m.len() && #[trigger] m[i].0 == k;
        assert forall|j: int| 0 <= j < i implies m[j].0 != k by {
            assert(m[j].0 != m[i].0);
        }
        lemma_lookup_at(m, k, i);
        let a = assign(m, k, v);
        if v == ValueModel::Nil {
            assert(a == m.remove(i));
            assert forall|j: int| 0 <= j < a.len() implies a[j].0 != k by {
                if j < i {
                    assert(a[j] == m[j]);
                } else {
                    assert(a[j] == m[j + 1]);
                    assert(m[i].0 != m[j + 1].0);
                }
            }
            assert(!has_key(a, k));
            lemma_lookup_missing(a, k);
        } else {
            assert(a == m.update(i, (k, v)));
            assert(keys_unique(a)) by {
                assert forall|p: int, q: int| 0 <= p < q < a.len() implies a[p].0 != a[q].0 by {
                    assert(m[p].0 != m[q].0);
                }
            }
            assert forall|j: int| 0 <= j < i implies a[j].0 != k by {
                assert(a[j] == m[j]);
            }
            lemma_lookup_at(a, k, i);
            assert(a[i].0 == k);
        }
    } else {
        lemma_lookup_at(m, k, m.len() as int);
        lemma_lookup_assign_same(m, k, v);
        let a = assign(m, k, v);
        if v != ValueModel::Nil {
            assert(a == m.push((k, v)));
            assert(keys_unique(a)) by {
                assert forall|p: int, q: int| 0 <= p < q < a.len() implies a[p].0 != a[q].0 by {
                    if q < m.len() {
                        assert(m[p].0 != m[q].0);
                    } else {
                        assert(m[p].0 != k);
                    }
                }
            }
        } else {
            assert(a == m);
        }
    }
}

/// The key at `i` is the first pair of `k`: the lookup finds its value.
proof fn lemma_lookup_at(m: Seq<(KeyModel, ValueModel)>, k: KeyModel, i: int)
    requires
        0 <= i <= m.len(),
        forall|j: int| 0 <= j < i ==> m[j].0 != k,
        i < m.len() ==> m[i].0 == k,
    ensures
        lookup(m, k) == if i < m.len() { m[i].1 } else { ValueModel::Nil },
        assign(m, k, ValueModel::Nil) == if i < m.len() { m.remove(i) } else { m },
        forall|v: ValueModel| v != ValueModel::Nil ==> #[trigger] assign(m, k, v) == if i < m.len() { m.update(i, (k, v)) } else { m.push((k, v)) },
    decreases m.len(),
{
    if m.len() > 0 && i > 0 {
        assert(m[0].0 != k);
        let r = m.drop_first();
        assert forall|j: int| 0 <= j < i - 1 implies r[j].0 != k by {
            assert(r[j] == m[j + 1]);
        }
        lemma_lookup_at(r, k, i - 1);
        if i < m.len() {
            assert(m.remove(i) =~= seq![m[0]] + r.remove(i - 1));
        } else {
            assert(m =~= seq![m[0]] + r);
        }
        assert forall|v: ValueModel| v != ValueModel::Nil implies #[trigger] assign(m, k, v) == if i < m.len() { m.update(i, (k, v)) } else { m.push((k, v)) } by {
            assert(assign(r, k, v) == if i - 1 < r.len() { r.update(i - 1, (k, v)) } else { r.push((k, v)) });
            if i < m.len() {
                assert(m.update(i, (k, v)) =~= seq![m[0]] + r.update(i - 1, (k, v)));
            } else {
                assert(m.push((k, v)) =~= seq![m[0]] + r.push((k, v)));
            }
        }
    } else if m.len() > 0 {
        assert(m.remove(0) =~= m.drop_first());
        assert forall|v: ValueModel| v != ValueModel::Nil implies #[trigger] assign(m, k, v) == m.update(0, (k, v)) by {
            assert(m.update(0, (k, v)) =~= seq![(k, v)] + m.drop_first());
        }
    } else {
        assert forall|v: ValueModel| v != ValueModel::Nil implies #[trigger] assign(m, k, v) == m.push((k, v)) by {
            assert(m.push((k, v)) =~= seq![(k, v)]);
        }
    }
}

/// Reading a key just written gives the value written, where the key was absent before.
pub proof fn lemma_lookup_assign_same(m: Seq<(KeyModel, ValueModel)>, k: KeyModel, v: ValueModel)
    requires
        !has_key(m, k),
    ensures
        lookup(assign(m, k, v), k) == v,
        has_key(assign(m, k, v), k) == (v != ValueModel::Nil),
    decreases m.len(),
{
    if m.len() > 0 {
        assert(m[0].0 != k);
        let r = m.drop_first();
        assert(!has_key(r, k)) by {
            if has_key(r, k) {
                let j = choose|j: int| 0 <= j < r.len() && #[trigger] r[j].0 == k;
                assert(m[j + 1].0 == k);
            }
        }
        lemma_lookup_assign_same(r, k, v);
        let a = assign(m, k, v);
        assert(a == seq![m[0]] + assign(r, k, v));
        assert(a.drop_first() =~= assign(r, k, v));
        if has_key(assign(r, k, v), k) {
            let j = choose|j: int| 0 <= j < assign(r, k, v).len() && #[trigger] assign(r, k, v)[j].0 == k;
            assert(a[j + 1].0 == k);
        }
        if has_key(a, k) {
            let j = choose|j: int| 0 <= j < a.len() && #[trigger] a[j].0 == k;
            assert(assign(r, k, v)[j - 1].0 == k);
        }
    } else if v != ValueModel::Nil {
        assert(assign(m, k, v)[0].0 == k);
    }
}

/// Writing one key leaves what another key reads, and whether it is present.
pub proof fn lemma_lookup_assign_other(m: Seq<(KeyModel, ValueModel)>, k: KeyModel, v: ValueModel, k2: KeyModel)
    requires
        k != k2,
    ensures
        lookup(assign(m, k, v), k2) == lookup(m, k2),
        has_key(assign(m, k, v), k2) == has_key(m, k2),
    decreases m.len(),
{
    let a = assign(m, k, v);
    if m.len() > 0 {
        let r = m.drop_first();
        lemma_lookup_assign_other(r, k, v, k2);
        lemma_has_key_cons(m);
        if m[0].0 == k {
            assert(lookup(m, k2) == lookup(r, k2));
            if v == ValueModel::Nil {
                assert(a == r);
            } else {
                assert(a == seq![(k, v)] + r);
                lemma_has_key_cons(a);
                assert(a.drop_first() =~= r);
            }
        } else {
            let a2 = assign(r, k, v);
            assert(a == seq![m[0]] + a2);
            lemma_has_key_cons(a);
            assert(a.drop_first() =~= a2);
            assert(a[0] == m[0]);
            if m[0].0 != k2 {
                assert(lookup(a, k2) == lookup(a2, k2));
            }
        }
    } else if v != ValueModel::Nil {
        assert(a =~= seq![(k, v)]);
        assert(a.drop_first().len() == 0);
        assert(lookup(a.drop_first(), k2) == ValueModel::Nil);
        assert(lookup(a, k2) == ValueModel::Nil);
    }
}

/// Presence of a key in a non-empty sequence: in the head or in the rest.
proof fn lemma_has_key_cons(m: Seq<(KeyModel, ValueModel)>)
    requires
        m.len() > 0,
    ensures
        forall|k: KeyModel| #[trigger] has_key(m, k) == (m[0].0 == k || has_key(m.drop_first(), k)),
{
    let r = m.drop_first();
    assert forall|k: KeyModel| #[trigger] has_key(m, k) == (m[0].0 == k || has_key(r, k)) by {
        if has_key(m, k) && m[0].0 != k {
            let j = choose|j: int| 0 <= j < m.len() && #[trigger] m[j].0 == k;
            assert(r[j - 1].0 == k);
        }
        if has_key(r, k) {
            let j = choose|j: int| 0 <= j < r.len() && #[trigger] r[j].0 == k;
            assert(m[j + 1].0 == k);
        }
    }
}

/// The name of a value's kind, as the host reports it.
pub open spec fn kind_text(v: ValueModel) -> Seq<char> {
    match v {
        ValueModel::Nil => "nil"@,
        ValueModel::Boolean(_) => "boolean"@,
        ValueModel::LightUserData(_) => "lightuserdata"@,
        ValueModel::Integer(_) => "integer"@,
        ValueModel::Number(..) => "number"@,
        ValueModel::Str(_) => "string"@,
        ValueModel::Table(_) => "table"@,
        ValueModel::Function(_) => "function"@,
        ValueModel::Thread(_) => "thread"@,
        ValueModel::UserData(_) => "userdata"@,
        ValueModel::Error(_) => "error"@,
    }
}

/// The display form of a key: its text, or its decimal form.
pub open spec fn key_text(k: KeyModel) -> Seq<char> {
    match k {
        KeyModel::Str(s) => s,
        KeyModel::Number(n) => nat_text(n as nat),
    }
}

impl Value {
    /// The name of the value's kind, for error reports.
    pub fn kind_name(&self) -> (r: &'static str)
        ensures
            r@ == kind_text(self@),
    {
        match self {
            Value::Nil => "nil",
            Value::Boolean(_) => "boolean",
            Value::LightUserData(_) => "lightuserdata",
            Value::Integer(_) => "integer",
            Value::Number(_) => "number",
            Value::Str(_) => "string",
            Value::Table(_) => "table",
            Value::Function(_) => "function",
            Value::Thread(_) => "thread",
            Value::UserData(_) => "userdata",
            Value::Error(_) => "error",
        }
    }
}

impl TableKey {
    /// Appends the display form of the key.
    pub fn push_text(&self, buf: &mut String)
        ensures
            final(buf)@ == old(buf)@ + key_text(self@),
    {
        match self {
            TableKey::Str(s) => buf.append(s.as_str()),
            TableKey::Number(n) => push_decimal(buf, *n as u64),
        }
    }

    /// The key as a value: a string, or an integer.
    pub fn to_lua(&self) -> (r: Value)
        ensures
            r@ == match self@ {
                KeyModel::Str(s) => ValueModel::Str(s),
                KeyModel::Number(n) => ValueModel::Integer(n as i64),
            },
    {
        match self {
            TableKey::Str(s) => Value::Str(s.clone()),
            TableKey::Number(n) => Value::Integer(*n as i64),
        }
    }

    /// Whether two keys are the same key.
    pub fn same(&self, other: &TableKey) -> (r: bool)
        ensures
            r == (self@ == other@),
    {
        match self {
            TableKey::Str(a) => match other {
                TableKey::Str(b) => a.eq(b),
                TableKey::Number(_) => false,
            },
            TableKey::Number(a) => match other {
                TableKey::Str(_) => false,
                TableKey::Number(b) => *a == *b,
            },
        }
    }

    /// A copy of the key.
    pub fn copy(&self) -> (r: TableKey)
        ensures
            r@ == self@,
    {
        match self {
            TableKey::Str(s) => TableKey::Str(s.clone()),
            TableKey::Number(n) => TableKey::Number(*n),
        }
    }
}

impl Table {
    /// No key occurs twice in the table. `new` establishes it and `set`
    /// keeps it.
    pub open spec fn wf(&self) -> bool {
        keys_unique(self@)
    }

    /// An empty table.
    pub fn new() -> (r: Table)
        ensures
            r@ == Seq::<(KeyModel, ValueModel)>::empty(),
            r.wf(),
    {
        Table { entries: Vec::new() }
    }

    /// The number of pairs.
    pub fn len(&self) -> (r: usize)
        ensures
            r == self@.len(),
    {
        proof { lemma_entries_model(self.entries@); }
        self.entries.len()
    }

    /// The position of the first pair of `k`, if any.
    fn position(&self, k: &TableKey) -> (r: Option<usize>)
        ensures
            match r {
                Some(i) => i < self@.len() && self@[i as int].0 == k@
                    && forall|j: int| 0 <= j < i ==> self@[j].0 != k@,
                None => forall|j: int| 0 <= j < self@.len() ==> self@[j].0 != k@,
            },
    {
        proof { lemma_entries_model(self.entries@); }
        let mut i: usize = 0;
        while i < self.entries.len()
            invariant
                i <= self.entries@.len(),
                self@.len() == self.entries@.len(),
                forall|j: int| 0 <= j < i ==> self@[j].0 != k@,
            decreases self.entries@.len() - i,
        {
            proof { lemma_entries_model(self.entries@); }
            if self.entries[i].0.same(k) {
                return Some(i);
            }
            i = i + 1;
        }
        None
    }

    /// The value under `k`, nil where the key is absent.
    pub fn get(&self, k: &TableKey) -> (r: Value)
        ensures
            r@ == lookup(self@, k@),
    {
        proof { lemma_entries_model(self.entries@); }
        match self.position(k) {
            Some(i) => {
                proof { lemma_lookup_at(self@, k@, i as int); }
                copy_value(&self.entries[i].1)
            },
            None => {
                proof { lemma_lookup_at(self@, k@, self@.len() as int); }
                Value::Nil
            },
        }
    }

    /// `t[k] = v`, with the host's rule that writing nil removes the key.
    pub fn set(&mut self, k: TableKey, v: Value)
        ensures
            final(self)@ == assign(old(self)@, k@, v@),
            old(self).wf() ==> final(self).wf() && lookup(final(self)@, k@) == v@
                && has_key(final(self)@, k@) == (v@ != ValueModel::Nil),
    {
        proof {
            lemma_entries_model(self.entries@);
            if self.wf() {
                lemma_assign_unique(self@, k@, v@);
            }
        }
        let ghost m = self@;
        let ghost km = k@;
        let ghost vm = v@;
        let nil = matches!(v, Value::Nil);
        match self.position(&k) {
            Some(i) => {
                proof { lemma_lookup_at(m, km, i as int); }
                if nil {
                    self.entries.remove(i);
                    proof { lemma_entries_model(self.entries@); }
                    assert(self@ =~= m.remove(i as int));
                } else {
                    self.entries.set(i, (k, v));
                    proof { lemma_entries_model(self.entries@); }
                    assert(self@ =~= m.update(i as int, (km, vm)));
                }
            },
            None => {
                proof { lemma_lookup_at(m, km, m.len() as int); }
                if !nil {
                    self.entries.push((k, v));
                    proof { lemma_entries_model(self.entries@); }
                    assert(self@ =~= m.push((km, vm)));
                }
            },
        }
    }
}

/// A deep copy of a value.
pub fn copy_value(v: &Value) -> (r: Value)
    ensures
        r@ == v@,
    decreases v,
{
    match v {
        Value::Nil => Value::Nil,
        Value::Boolean(b) => Value::Boolean(*b),
        Value::LightUserData(p) => Value::LightUserData(*p),
        Value::Integer(i) => Value::Integer(*i),
        Value::Number(n) => Value::Number(LuaNumber { bits: n.bits, text: n.text.clone() }),
        Value::Str(s) => Value::Str(s.clone()),
        Value::Table(t) => {
            let mut out: Vec<(TableKey, Value)> = Vec::new();
            let mut i: usize = 0;
            proof { lemma_entries_model(t.entries@); }
            while i < t.entries.len()
                invariant
                    *v == Value::Table(*t),
                    i <= t.entries@.len(),
                    out@.len() == i,
                    forall|j: int| 0 <= j < i ==> (#[trigger] out@[j]).0@ == t.entries@[j].0@
                        && value_model(out@[j].1) == value_model(t.entries@[j].1),
                decreases t.entries@.len() - i,
            {
                proof {
                    let e = t.entries@[i as int];
                    assert(decreases_to!(*v => v->Table_0));
                    assert(decreases_to!(v->Table_0 => t.entries));
                    assert(decreases_to!(t.entries => t.entries@));
                    assert(decreases_to!(t.entries@ => e));
                    assert(decreases_to!(e => e.1));
                }
                let val = copy_value(&t.entries[i].1);
                out.push((t.entries[i].0.copy(), val));
                i = i + 1;
            }
            proof {
                lemma_entries_model(out@);
                assert(entries_model(out@) =~= entries_model(t.entries@));
            }
            Value::Table(Table { entries: out })
        },
        Value::Function(s) => Value::Function(s.clone()),
        Value::Thread(s) => Value::Thread(s.clone()),
        Value::UserData(s) => Value::UserData(s.clone()),
        Value::Error(s) => Value::Error(s.clone()),
    }
}

} // verus!
