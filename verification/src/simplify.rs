use crate::dict::Dict;
use crate::model::{
    lemma_position_of, lemma_same_keys_same_places, mapping, Expr, Text, Value,
};
use crate::tree::{entries_view, expr_view, objects_view, LuaExpr, LuaObject};
use vstd::prelude::*;

verus! {

/// Each of `items` simplified.
pub open spec fn simplified_items(items: Seq<Value>) -> Seq<Value>
    decreases items,
{
    Seq::new(
        items.len(),
        |i: int|
            if 0 <= i < items.len() {
                simplified(items[i])
            } else {
                arbitrary()
            },
    )
}

/// `v` without the expressions that only wrap a literal: such an expression becomes the
/// literal, simplified; tables and arrays have their contents simplified; every other
/// value, and every other expression, stays as it is.
pub open spec fn simplified(v: Value) -> Value
    decreases v,
{
    match v {
        Value::Table(m) => Value::Table(
            Map::new(
                |k: Text| m.contains_key(k),
                |k: Text|
                    if m.contains_key(k) {
                        simplified(m[k])
                    } else {
                        arbitrary()
                    },
            ),
        ),
        Value::Array(items) => Value::Array(simplified_items(items)),
        Value::Expr(e) => match *e {
            Expr::Literal(inner) => simplified(inner),
            _ => v,
        },
        _ => v,
    }
}

/// Simplifying twice is simplifying once.
pub proof fn lemma_simplify_idempotent(v: Value)
    ensures
        simplified(simplified(v)) == simplified(v),
    decreases v,
{
    match v {
        Value::Table(m) => {
            let once = simplified(v)->Table_0;
            assert forall|k: Text| #[trigger] once.contains_key(k) implies simplified(once[k])
                == once[k] by {
                lemma_simplify_idempotent(m[k]);
            }
            assert(simplified(simplified(v))->Table_0 =~= once);
        },
        Value::Array(items) => {
            let once = simplified_items(items);
            assert forall|i: int| 0 <= i < items.len() implies simplified(once[i]) == once[i] by {
                lemma_simplify_idempotent(items[i]);
            }
            assert(simplified_items(once) =~= once);
        },
        Value::Expr(e) => match *e {
            Expr::Literal(inner) => {
                lemma_simplify_idempotent(inner);
            },
            _ => {},
        },
        _ => {},
    }
}

/// Simplifying reaches into tables and arrays: a table keeps its keys and their order,
/// an array its length, and each value in them is simplified by itself.
pub proof fn lemma_simplify_distributes(v: Value)
    ensures
        match v {
            Value::Table(m) => match simplified(v) {
                Value::Table(out) => out.dom() == m.dom() && forall|k: Text|
                    m.contains_key(k) ==> #[trigger] out[k] == simplified(m[k]),
                _ => false,
            },
            Value::Array(items) => match simplified(v) {
                Value::Array(out) => out.len() == items.len() && forall|i: int|
                    0 <= i < items.len() ==> #[trigger] out[i] == simplified(items[i]),
                _ => false,
            },
            _ => true,
        },
{
    match v {
        Value::Table(m) => {
            assert(simplified(v)->Table_0.dom() =~= m.dom());
        },
        Value::Array(items) => {
            assert(simplified(v) == Value::Array(simplified_items(items)));
        },
        _ => {},
    }
}

impl LuaObject {
    /// Replaces every expression that only wraps a literal by that literal, here and
    /// inside tables and arrays.
    pub fn simplify(self) -> (r: LuaObject)
        ensures
            r@ == simplified(self@),
        decreases self,
    {
        match self {
            LuaObject::Table(d) => {
                let ghost entries = entries_view(d.entries@);
                let mut rest = d.entries;
                let mut reversed: Vec<(String, LuaObject)> = Vec::new();
                while rest.len() > 0
                    invariant
                        rest@.len() + reversed@.len() == d.entries@.len(),
                        rest@ == d.entries@.take(rest@.len() as int),
                        entries == entries_view(d.entries@),
                        self == LuaObject::Table(d),
                        forall|j: int|
                            0 <= j < reversed@.len() ==> (#[trigger] reversed@[j]).0@
                                == entries[entries.len() - 1 - j].0 && reversed@[j].1@
                                == simplified(entries[entries.len() - 1 - j].1),
                    decreases rest@.len(),
                {
                    let ghost i = rest@.len() - 1;
                    let entry = rest.pop().unwrap();
                    assert(entry == d.entries@[i]);
                    assert(entries[i] == (entry.0@, entry.1@));
                    assert(decreases_to!(self => self->Table_0));
                    assert(decreases_to!(d => d.entries));
                    assert(decreases_to!(d.entries => d.entries[i]));
                    assert(decreases_to!(d.entries[i] => d.entries[i].1));
                    let value = entry.1.simplify();
                    reversed.push((entry.0, value));
                }
                let mut out: Vec<(String, LuaObject)> = Vec::new();
                while reversed.len() > 0
                    invariant
                        out@.len() + reversed@.len() == entries.len(),
                        forall|j: int|
                            0 <= j < reversed@.len() ==> (#[trigger] reversed@[j]).0@
                                == entries[entries.len() - 1 - j].0 && reversed@[j].1@
                                == simplified(entries[entries.len() - 1 - j].1),
                        forall|j: int|
                            0 <= j < out@.len() ==> (#[trigger] out@[j]).0@ == entries[j].0
                                && out@[j].1@ == simplified(entries[j].1),
                    decreases reversed@.len(),
                {
                    let entry = reversed.pop().unwrap();
                    out.push(entry);
                }
                let r = LuaObject::Table(Dict { entries: out });
                proof {
                    let after = entries_view(out@);
                    let m = mapping(entries);
                    assert forall|k: Text| #[trigger] mapping(after).contains_key(k)
                        == m.contains_key(k) && (m.contains_key(k) ==> mapping(after)[k]
                        == simplified(m[k])) by {
                        lemma_same_keys_same_places(after, entries, k);
                        lemma_position_of(entries, k);
                    }
                    assert(r@->Table_0 =~= simplified(self@)->Table_0);
                }
                r
            },
            LuaObject::Array(a) => {
                let ghost items = objects_view(a@);
                let mut rest = a;
                let mut reversed: Vec<LuaObject> = Vec::new();
                while rest.len() > 0
                    invariant
                        rest@.len() + reversed@.len() == a@.len(),
                        rest@ == a@.take(rest@.len() as int),
                        items == objects_view(a@),
                        self == LuaObject::Array(a),
                        forall|j: int|
                            0 <= j < reversed@.len() ==> (#[trigger] reversed@[j])@
                                == simplified(items[items.len() - 1 - j]),
                    decreases rest@.len(),
                {
                    let ghost i = rest@.len() - 1;
                    let item = rest.pop().unwrap();
                    assert(item == a@[i]);
                    assert(items[i] == item@);
                    assert(decreases_to!(a => a[i]));
                    assert(decreases_to!(self => self->Array_0));
                    let value = item.simplify();
                    reversed.push(value);
                }
                let mut out: Vec<LuaObject> = Vec::new();
                while reversed.len() > 0
                    invariant
                        out@.len() + reversed@.len() == items.len(),
                        forall|j: int|
                            0 <= j < reversed@.len() ==> (#[trigger] reversed@[j])@
                                == simplified(items[items.len() - 1 - j]),
                        forall|j: int|
                            0 <= j < out@.len() ==> (#[trigger] out@[j])@ == simplified(items[j]),
                    decreases reversed@.len(),
                {
                    let item = reversed.pop().unwrap();
                    out.push(item);
                }
                proof {
                    assert(objects_view(out@) =~= simplified_items(items));
                }
                LuaObject::Array(out)
            },
            LuaObject::Expr(e) => {
                let ghost ev = expr_view(*e);
                match *e {
                    LuaExpr::Literal(inner) => {
                        assert(ev == Expr::Literal(inner@));
                        inner.simplify()
                    },
                    other => {
                        assert(expr_view(other) == ev);
                        LuaObject::Expr(Box::new(other))
                    },
                }
            },
            other => other,
        }
    }
}

} // verus!
