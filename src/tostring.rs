//! A readable rendering of values, for debugging and for comparing values
//! by their text.

use vstd::prelude::*;
use crate::text::{int_text, nat_text, push_decimal, push_integer, push_quoted, quoted};
use crate::value::{lemma_entries_model, KeyModel, TableKey, Value, ValueModel};

verus! {

/// Whether a character may start an identifier.
pub open spec fn ident_start(c: char) -> bool {
    ('a' <= c && c <= 'z') || ('A' <= c && c <= 'Z') || c == '_'
}

/// Whether a character may continue an identifier.
pub open spec fn ident_char(c: char) -> bool {
    ident_start(c) || ('0' <= c && c <= '9')
}

/// Whether a string is an identifier: a letter or underscore, then letters,
/// digits and underscores.
pub open spec fn is_identifier(s: Seq<char>) -> bool {
    &&& s.len() > 0
    &&& ident_start(s[0])
    &&& forall|i: int| 0 <= i < s.len() ==> ident_char(#[trigger] s[i])
}

/// What precedes the value of a pair that is not in the dense run: `name=`
/// for an identifier, `[key]=` for any other key.
pub open spec fn key_label(k: KeyModel) -> Seq<char> {
    match k {
        KeyModel::Str(s) => if is_identifier(s) {
            s + "="@
        } else {
            "["@ + quoted(s) + "]="@
        },
        KeyModel::Number(n) => "["@ + nat_text(n as nat) + "]="@,
    }
}

/// The rendering of a value.
pub open spec fn render(v: ValueModel) -> Seq<char>
    decreases v,
{
    match v {
        ValueModel::Nil => "nil"@,
        ValueModel::Boolean(b) => if b { "true"@ } else { "false"@ },
        ValueModel::LightUserData(p) => "LightUserData("@ + nat_text(p as nat) + ")"@,
        ValueModel::Integer(i) => int_text(i as int),
        ValueModel::Number(_, text) => text,
        ValueModel::Str(s) => quoted(s),
        ValueModel::Table(m) => "{"@ + render_entries(m, 1, true) + "}"@,
        ValueModel::Function(s) => s,
        ValueModel::Thread(s) => s,
        ValueModel::UserData(s) => s,
        ValueModel::Error(s) => s,
    }
}

/// The rendering of the pairs of a table, comma-separated. `next` is the
/// next index of the dense run: a pair under that number shows its value
/// alone and moves the run on; any other pair shows its key label.
pub open spec fn render_entries(m: Seq<(KeyModel, ValueModel)>, next: int, first: bool) -> Seq<char>
    decreases m,
{
    if m.len() == 0 {
        Seq::empty()
    } else {
        let k = m[0].0;
        let dense = k is Number && k->Number_0 == next;
        let sep = if first { Seq::<char>::empty() } else { ","@ };
        let label = if dense { Seq::<char>::empty() } else { key_label(k) };
        sep + label + render(m[0].1) + render_entries(m.drop_first(), if dense { next + 1 } else { next }, false)
    }
}

/// Whether a string is an identifier.
fn check_identifier(s: &str) -> (r: bool)
    ensures
        r == is_identifier(s@),
{
    let n = s.unicode_len();
    if n == 0 {
        return false;
    }
    let c0 = s.get_char(0);
    if !(('a' <= c0 && c0 <= 'z') || ('A' <= c0 && c0 <= 'Z') || c0 == '_') {
        return false;
    }
    let mut i: usize = 0;
    while i < n
        invariant
            n == s@.len(),
            i <= n,
            forall|j: int| 0 <= j < i ==> ident_char(#[trigger] s@[j]),
        decreases n - i,
    {
        let c = s.get_char(i);
        if !(('a' <= c && c <= 'z') || ('A' <= c && c <= 'Z') || c == '_' || ('0' <= c && c <= '9')) {
            return false;
        }
        i = i + 1;
    }
    true
}

/// Appends the label of a key outside the dense run.
fn push_key_label(k: &TableKey, buf: &mut String)
    ensures
        final(buf)@ == old(buf)@ + key_label(k@),
{
    proof {
        reveal_strlit("=");
        reveal_strlit("[");
        reveal_strlit("]=");
    }
    match k {
        TableKey::Str(s) => {
            if check_identifier(s.as_str()) {
                buf.append(s.as_str());
                buf.append("=");
            } else {
                buf.append("[");
                push_quoted(buf, s.as_str());
                buf.append("]=");
            }
        },
        TableKey::Number(n) => {
            buf.append("[");
            push_decimal(buf, *n as u64);
            buf.append("]=");
        },
    }
    assert(final(buf)@ =~= old(buf)@ + key_label(k@));
}

/// Values with a readable rendering.
pub trait LuaToString {
    /// The rendering.
    spec fn rendering(&self) -> Seq<char>;

    /// Appends the rendering to `buf`.
    fn to_lua_string_with_buf(&self, buf: &mut String)
        ensures
            final(buf)@ == old(buf)@ + self.rendering(),
    ;

    /// The rendering as a new string.
    fn to_lua_string(&self) -> (r: String)
        ensures
            r@ == self.rendering(),
    ;
}

impl LuaToString for Value {
    open spec fn rendering(&self) -> Seq<char> {
        render(self@)
    }

    fn to_lua_string_with_buf(&self, buf: &mut String) {
        push_rendering(self, buf);
    }

    fn to_lua_string(&self) -> (r: String) {
        let mut buf = String::new();
        push_rendering(self, &mut buf);
        assert(buf@ =~= render(self@));
        buf
    }
}

/// Appends the rendering of a value.
fn push_rendering(v: &Value, buf: &mut String)
    ensures
        final(buf)@ == old(buf)@ + render(v@),
    decreases v,
{
    match v {
        Value::Nil => buf.append("nil"),
        Value::Boolean(b) => if *b { buf.append("true") } else { buf.append("false") },
        Value::LightUserData(p) => {
            buf.append("LightUserData(");
            push_decimal(buf, *p);
            buf.append(")");
            assert(final(buf)@ =~= old(buf)@ + render(v@));
        },
        Value::Integer(i) => push_integer(buf, *i),
        Value::Number(n) => buf.append(n.text.as_str()),
        Value::Str(s) => push_quoted(buf, s.as_str()),
        Value::Table(t) => {
            let ghost m = t@;
            let ghost start = buf@;
            proof { lemma_entries_model(t.entries@); }
            buf.append("{");
            let mut next: u64 = 1;
            let mut i: usize = 0;
            assert(m.subrange(0, m.len() as int) =~= m);
            assert(start + "{"@ + render_entries(m, 1, true) =~= buf@ + render_entries(m, 1, true));
            while i < t.entries.len()
                invariant
                    *v == Value::Table(*t),
                    m == t@,
                    m.len() == t.entries@.len(),
                    forall|j: int| 0 <= j < m.len() ==> #[trigger] m[j] == (t.entries@[j].0@, t.entries@[j].1@),
                    i <= m.len(),
                    1 <= next <= i + 1,
                    start + "{"@ + render_entries(m, 1, true)
                        == buf@ + render_entries(m.subrange(i as int, m.len() as int), next as int, i == 0),
                decreases m.len() - i,
            {
                let ghost rest = m.subrange(i as int, m.len() as int);
                assert(rest[0] == m[i as int]);
                assert(rest.drop_first() =~= m.subrange(i as int + 1, m.len() as int));
                proof {
                    reveal_strlit(",");
                    let e = t.entries@[i as int];
                    assert(decreases_to!(*v => v->Table_0));
                    assert(decreases_to!(v->Table_0 => t.entries));
                    assert(decreases_to!(t.entries => t.entries@));
                    assert(decreases_to!(t.entries@ => e));
                    assert(decreases_to!(e => e.1));
                }
                if i > 0 {
                    buf.append(",");
                }
                let dense = match &t.entries[i].0 {
                    TableKey::Number(n) => *n as u64 == next,
                    TableKey::Str(_) => false,
                };
                if !dense {
                    push_key_label(&t.entries[i].0, buf);
                }
                push_rendering(&t.entries[i].1, buf);
                if dense {
                    next = next + 1;
                }
                i = i + 1;
                assert(start + "{"@ + render_entries(m, 1, true)
                    =~= buf@ + render_entries(m.subrange(i as int, m.len() as int), next as int, false));
            }
            buf.append("}");
            proof { reveal_strlit("}"); reveal_strlit("{"); }
            assert(m.subrange(i as int, m.len() as int).len() == 0);
            assert(final(buf)@ =~= old(buf)@ + render(v@));
        },
        Value::Function(s) => buf.append(s.as_str()),
        Value::Thread(s) => buf.append(s.as_str()),
        Value::UserData(s) => buf.append(s.as_str()),
        Value::Error(s) => buf.append(s.as_str()),
    }
}

} // verus!
