use crate::tree::{BinaryOp, UnaryOp};
use vstd::prelude::*;

verus! {

/// Text as a sequence of characters.
pub type Text = Seq<char>;

/// The entries of a keyed mapping one by one, as a list. What they stand for is their
/// `mapping`, in which their order plays no part.
pub type Entries<V> = Seq<(Text, V)>;

/// The mathematical value of a parsed literal.
pub enum Value {
    /// A keyed mapping: the order in which its fields were written plays no part.
    Table(Map<Text, Value>),
    Array(Seq<Value>),
    Bool(bool),
    Str(Text),
    Int(i64),
    /// The literal's text: a number that no `i64` holds.
    Float(Text),
    /// An element that is no plain literal.
    Expr(Box<Expr>),
}

/// The mathematical value of an expression.
pub enum Expr {
    Var(Seq<Text>),
    Literal(Value),
    Funcall(Seq<Text>, Seq<Expr>),
    Fundef(Box<Func>),
    Unop(UnaryOp, Box<Expr>),
    Binop(BinaryOp, Box<Expr>, Box<Expr>),
}

/// The mathematical value of an assignment target.
pub enum Target {
    Dotted(Seq<Text>),
    Subscript(Box<Target>, Expr),
}

/// The mathematical value of a statement.
pub enum Stmt {
    Return(Expr),
    Assign(Target, Expr),
    IfThen(Expr, Seq<Stmt>, Seq<Stmt>),
    Expr(Expr),
}

/// The mathematical value of a function definition.
pub struct Func {
    pub args: Seq<Text>,
    pub body: Seq<Stmt>,
}

/// What one pass over a source has gathered.
pub struct Gathered {
    /// The top-level bindings; of two of one name the later.
    pub locals: Map<Text, Expr>,
    /// The top-level functions; of two of one name the later.
    pub functions: Map<Text, Func>,
    /// What the registration calls were given, in their order.
    pub data_extends: Seq<Value>,
}

/// What one top-level form adds to what is gathered.
pub enum Form {
    /// A registration call, with what it was given.
    Extend(Value),
    Local(Text, Expr),
    Function(Text, Func),
    /// Any other statement: it adds nothing.
    Other,
}

impl Gathered {
    /// What is gathered once `form` is added.
    pub open spec fn with_form(self, form: Form) -> Gathered {
        match form {
            Form::Extend(v) => Gathered { data_extends: self.data_extends.push(v), ..self },
            Form::Local(name, x) => Gathered { locals: self.locals.insert(name, x), ..self },
            Form::Function(name, f) => Gathered {
                functions: self.functions.insert(name, f),
                ..self
            },
            Form::Other => self,
        }
    }
}

/// The position of the first entry of `entries` at or after `from` under `key`.
pub open spec fn position_from<V>(entries: Entries<V>, key: Text, from: int) -> Option<int>
    decreases entries.len() - from,
{
    if from < 0 || from >= entries.len() {
        None
    } else if entries[from].0 == key {
        Some(from)
    } else {
        position_from(entries, key, from + 1)
    }
}

/// The position of the first entry of `entries` under `key`, if there is one.
pub open spec fn position_of<V>(entries: Entries<V>, key: Text) -> Option<int> {
    position_from(entries, key, 0)
}

/// `entries` with `key` bound to `value`: in place where the key is there, at the end
/// where it is not.
pub open spec fn with_entry<V>(entries: Entries<V>, key: Text, value: V) -> Entries<V> {
    match position_of(entries, key) {
        Some(i) => entries.update(i, (key, value)),
        None => entries.push((key, value)),
    }
}

/// `entries` without the first entry under `key`.
pub open spec fn without_key<V>(entries: Entries<V>, key: Text) -> Entries<V> {
    match position_of(entries, key) {
        Some(i) => entries.remove(i),
        None => entries,
    }
}

/// The value of the first entry under `key`.
pub open spec fn lookup<V>(entries: Entries<V>, key: Text) -> Option<V> {
    match position_of(entries, key) {
        Some(i) => Some(entries[i].1),
        None => None,
    }
}

/// What `position_from` finds: the least position from `from` on that holds the key.
pub proof fn lemma_position_from<V>(entries: Entries<V>, key: Text, from: int)
    requires
        0 <= from,
    ensures
        match position_from(entries, key, from) {
            Some(i) => {
                &&& from <= i < entries.len()
                &&& entries[i].0 == key
                &&& forall|j: int| from <= j < i ==> (#[trigger] entries[j]).0 != key
            },
            None => forall|j: int| from <= j < entries.len() ==> (#[trigger] entries[j]).0 != key,
        },
    decreases entries.len() - from,
{
    if from < entries.len() && entries[from].0 != key {
        lemma_position_from(entries, key, from + 1);
    }
}

/// What `position_of` finds: the least position that holds the key.
pub proof fn lemma_position_of<V>(entries: Entries<V>, key: Text)
    ensures
        match position_of(entries, key) {
            Some(i) => {
                &&& 0 <= i < entries.len()
                &&& entries[i].0 == key
                &&& forall|j: int| 0 <= j < i ==> (#[trigger] entries[j]).0 != key
            },
            None => forall|j: int| 0 <= j < entries.len() ==> (#[trigger] entries[j]).0 != key,
        },
{
    lemma_position_from(entries, key, 0);
}

/// The mapping that `entries` stand for: each key with the value of its first entry. The
/// order of the entries plays no part in it.
pub open spec fn mapping<V>(entries: Entries<V>) -> Map<Text, V> {
    Map::new(|k: Text| lookup(entries, k) is Some, |k: Text| lookup(entries, k)->Some_0)
}

/// Looking a key up after a binding: the bound value under the bound key, under any
/// other key what was there.
pub proof fn lemma_lookup_after_binding<V>(entries: Entries<V>, key: Text, value: V, other: Text)
    ensures
        lookup(with_entry(entries, key, value), other) == if other == key {
            Some(value)
        } else {
            lookup(entries, other)
        },
{
    let out = with_entry(entries, key, value);
    lemma_position_of(entries, key);
    lemma_position_of(entries, other);
    lemma_position_of(out, other);
    match position_of(entries, key) {
        Some(i) => {
            assert forall|j: int| 0 <= j < out.len() implies (#[trigger] out[j]).0
                == entries[j].0 by {}
            if other != key {
                match position_of(entries, other) {
                    Some(a) => {
                        assert(out[a] == entries[a]);
                        assert(out[a].0 == other);
                    },
                    None => {
                        assert forall|j: int| 0 <= j < out.len() implies (#[trigger] out[j]).0
                            != other by {
                            assert(entries[j].0 != other);
                        }
                    },
                }
            } else {
                assert(out[i].0 == key);
            }
        },
        None => {
            let n = entries.len() as int;
            assert(out[n].0 == key);
            assert forall|j: int| 0 <= j < n implies (#[trigger] out[j]) == entries[j] by {}
            if other != key {
                match position_of(entries, other) {
                    Some(a) => {
                        assert(out[a] == entries[a]);
                        assert(out[a].0 == other);
                    },
                    None => {
                        assert forall|j: int| 0 <= j < out.len() implies (#[trigger] out[j]).0
                            != other by {
                            if j < n {
                                assert(entries[j].0 != other);
                            }
                        }
                    },
                }
            } else {
                assert forall|j: int| 0 <= j < n implies (#[trigger] out[j]).0 != key by {
                    assert(entries[j].0 != key);
                }
            }
        },
    }
}

/// Binding a key in the entries is inserting it into their mapping: the later value
/// wins.
pub proof fn lemma_binding_is_insert<V>(entries: Entries<V>, key: Text, value: V)
    ensures
        mapping(with_entry(entries, key, value)) == mapping(entries).insert(key, value),
{
    let a = mapping(with_entry(entries, key, value));
    let b = mapping(entries).insert(key, value);
    assert forall|k: Text| #[trigger] a.dom().contains(k) == b.dom().contains(k) by {
        lemma_lookup_after_binding(entries, key, value, k);
    }
    assert forall|k: Text| #[trigger] a.dom().contains(k) implies a[k] == b[k] by {
        lemma_lookup_after_binding(entries, key, value, k);
    }
    assert(a =~= b);
}

/// Looking a key up after another was taken out: what was there.
pub proof fn lemma_lookup_after_removal<V>(entries: Entries<V>, key: Text, other: Text)
    requires
        other != key,
    ensures
        lookup(without_key(entries, key), other) == lookup(entries, other),
{
    let out = without_key(entries, key);
    lemma_position_of(entries, key);
    lemma_position_of(entries, other);
    lemma_position_of(out, other);
    match position_of(entries, key) {
        Some(i) => {
            assert forall|j: int| 0 <= j < out.len() implies #[trigger] out[j] == entries[if j < i {
                j
            } else {
                j + 1
            }] by {}
            match position_of(entries, other) {
                Some(a) => {
                    let a0 = if a < i {
                        a
                    } else {
                        a - 1
                    };
                    assert(out[a0] == entries[a]);
                    assert(out[a0].0 == other);
                    match position_of(out, other) {
                        Some(b) => {
                            let b1 = if b < i {
                                b
                            } else {
                                b + 1
                            };
                            assert(out[b] == entries[b1]);
                            assert(entries[b1].0 == other);
                        },
                        None => {},
                    }
                },
                None => {
                    match position_of(out, other) {
                        Some(b) => {
                            let b1 = if b < i {
                                b
                            } else {
                                b + 1
                            };
                            assert(out[b] == entries[b1]);
                            assert(entries[b1].0 == other);
                        },
                        None => {},
                    }
                },
            }
        },
        None => {},
    }
}

/// Entries with the same keys at the same places hold each key at the same place.
pub proof fn lemma_same_keys_same_places<A, B>(a: Entries<A>, b: Entries<B>, key: Text)
    requires
        a.len() == b.len(),
        forall|i: int| 0 <= i < a.len() ==> (#[trigger] a[i]).0 == b[i].0,
    ensures
        position_of(a, key) == position_of(b, key),
{
    lemma_position_of(a, key);
    lemma_position_of(b, key);
    match position_of(a, key) {
        Some(i) => {
            assert(b[i].0 == a[i].0);
            match position_of(b, key) {
                Some(j) => {
                    assert(a[j].0 == b[j].0);
                },
                None => {},
            }
        },
        None => {
            match position_of(b, key) {
                Some(j) => {
                    assert(a[j].0 == b[j].0);
                },
                None => {},
            }
        },
    }
}

/// Two bindings of different keys give the same mapping in either order.
pub proof fn lemma_bindings_commute<V>(entries: Entries<V>, k1: Text, v1: V, k2: Text, v2: V)
    requires
        k1 != k2,
    ensures
        mapping(with_entry(with_entry(entries, k1, v1), k2, v2)) == mapping(
            with_entry(with_entry(entries, k2, v2), k1, v1),
        ),
{
    lemma_binding_is_insert(entries, k1, v1);
    lemma_binding_is_insert(with_entry(entries, k1, v1), k2, v2);
    lemma_binding_is_insert(entries, k2, v2);
    lemma_binding_is_insert(with_entry(entries, k2, v2), k1, v1);
    assert(mapping(entries).insert(k1, v1).insert(k2, v2) =~= mapping(entries).insert(
        k2,
        v2,
    ).insert(k1, v1));
}

/// `a` stands before `b` in the dictionary, from the place `i` on up to which the two
/// agree.
pub open spec fn before_from(a: Text, b: Text, i: int) -> bool
    decreases b.len() - i,
{
    if i < 0 || i >= b.len() {
        false
    } else if i >= a.len() {
        true
    } else if a[i] != b[i] {
        a[i] < b[i]
    } else {
        before_from(a, b, i + 1)
    }
}

/// `a` stands before `b` in the dictionary: at the first place where they differ `a` has
/// the lesser character, or `a` ends there and `b` goes on.
pub open spec fn text_before(a: Text, b: Text) -> bool {
    before_from(a, b, 0)
}

/// Of two texts one stands before the other, or they are the same.
pub proof fn lemma_order_total(a: Text, b: Text, i: int)
    requires
        0 <= i <= a.len(),
        i <= b.len(),
        forall|j: int| 0 <= j < i ==> a[j] == b[j],
    ensures
        a == b || before_from(a, b, i) || before_from(b, a, i),
    decreases b.len() - i,
{
    if i < b.len() && i < a.len() && a[i] == b[i] {
        lemma_order_total(a, b, i + 1);
    } else if i >= b.len() && i >= a.len() {
        assert(a =~= b);
    }
}

/// No text stands both before and after another, and none before itself.
pub proof fn lemma_order_asymmetric(a: Text, b: Text, i: int)
    requires
        0 <= i,
    ensures
        !(before_from(a, b, i) && before_from(b, a, i)),
    decreases b.len() - i,
{
    if i < b.len() && i < a.len() && a[i] == b[i] {
        lemma_order_asymmetric(a, b, i + 1);
    }
}

/// What stands before a text stands before all that this text stands before.
pub proof fn lemma_order_transitive(a: Text, b: Text, c: Text, i: int)
    requires
        0 <= i,
        before_from(a, b, i),
        before_from(b, c, i),
    ensures
        before_from(a, c, i),
    decreases c.len() - i,
{
    if i < a.len() && a[i] == b[i] && b[i] == c[i] {
        lemma_order_transitive(a, b, c, i + 1);
    }
}

} // verus!
