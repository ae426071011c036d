use crate::dict::Dict;
use crate::lexer::chars_of;
use crate::model::{
    before_from, lemma_order_asymmetric, lemma_order_total, lemma_order_transitive,
    lemma_position_of, position_of, text_before, Entries, Text, Value,
};
use crate::tree::{entries_view, objects_view, LuaObject};
use vstd::prelude::*;

verus! {

/// Why a value did not have the shape asked for.
#[derive(Debug, Clone, Copy, PartialEq, Eq, Structural)]
pub enum DecodeErrorKind {
    NotABool,
    NotAString,
    NotAnInteger,
    NotANumber,
    NotATable,
    NotAnArray,
    /// An array of another length than the tuple asked for.
    WrongLength,
    /// A key that a record needs and the table lacks.
    MissingKey,
    /// None of the shapes that a record accepts.
    NoShapeFits,
}

/// One step from a value to a value inside it.
#[derive(Debug, Clone, PartialEq, Eq)]
pub enum PathStep {
    Key(String),
    Index(usize),
}

/// A failed conversion: what was wrong, and the way from the value that was handed in to
/// the value that was wrong, outermost step first.
#[derive(Debug, Clone, PartialEq, Eq)]
pub struct DecodeError {
    pub kind: DecodeErrorKind,
    pub path: Vec<PathStep>,
}

/// The mathematical value of a `PathStep`.
pub enum Step {
    Key(Text),
    Index(usize),
}

/// The mathematical value of a `DecodeError`.
pub struct Failure {
    pub kind: DecodeErrorKind,
    pub path: Seq<Step>,
}

impl Failure {
    /// A failure at the value itself.
    pub open spec fn here(kind: DecodeErrorKind) -> Failure {
        Failure { kind, path: Seq::empty() }
    }

    /// The same failure, seen from one step further out.
    pub open spec fn under(self, step: Step) -> Failure {
        Failure { kind: self.kind, path: seq![step] + self.path }
    }
}

impl DeepView for PathStep {
    type V = Step;

    open spec fn deep_view(&self) -> Step {
        match self {
            PathStep::Key(k) => Step::Key(k@),
            PathStep::Index(i) => Step::Index(*i),
        }
    }
}

impl DeepView for DecodeError {
    type V = Failure;

    open spec fn deep_view(&self) -> Failure {
        Failure { kind: self.kind, path: self.path.deep_view() }
    }
}

impl DecodeError {
    /// A failure at the value itself.
    pub fn here(kind: DecodeErrorKind) -> (e: DecodeError)
        ensures
            e.deep_view() == Failure::here(kind),
    {
        let e = DecodeError { kind, path: Vec::new() };
        assert(e.path.deep_view() =~= Seq::empty());
        e
    }

    /// The same failure, seen from one step further out.
    pub fn under(self, step: PathStep) -> (e: DecodeError)
        ensures
            e.deep_view() == self.deep_view().under(step.deep_view()),
    {
        let mut path = self.path;
        let ghost before = path.deep_view();
        let ghost first = step.deep_view();
        path.insert(0, step);
        assert(path.deep_view() =~= seq![first] + before);
        DecodeError { kind: self.kind, path }
    }
}

/// What a conversion returned, as mathematical values.
pub open spec fn outcome<T: DeepView>(r: Result<T, DecodeError>) -> Result<T::V, Failure> {
    match r {
        Ok(x) => Ok(x.deep_view()),
        Err(e) => Err(e.deep_view()),
    }
}

/// A shape that a dynamic value can be converted to.
pub trait Decode: Sized + DeepView {
    /// What the conversion of `value` gives.
    spec fn decoded(value: Value) -> Result<Self::V, Failure>;

    fn decode(value: &LuaObject) -> (r: Result<Self, DecodeError>)
        ensures
            outcome(r) == Self::decoded(value@),
    ;
}

impl Decode for bool {
    open spec fn decoded(value: Value) -> Result<bool, Failure> {
        match value {
            Value::Bool(b) => Ok(b),
            _ => Err(Failure::here(DecodeErrorKind::NotABool)),
        }
    }

    fn decode(value: &LuaObject) -> (r: Result<bool, DecodeError>) {
        match value {
            LuaObject::Bool(b) => Ok(*b),
            _ => Err(DecodeError::here(DecodeErrorKind::NotABool)),
        }
    }
}

impl Decode for String {
    open spec fn decoded(value: Value) -> Result<Text, Failure> {
        match value {
            Value::Str(s) => Ok(s),
            _ => Err(Failure::here(DecodeErrorKind::NotAString)),
        }
    }

    fn decode(value: &LuaObject) -> (r: Result<String, DecodeError>) {
        match value {
            LuaObject::Str(s) => Ok(s.clone()),
            _ => Err(DecodeError::here(DecodeErrorKind::NotAString)),
        }
    }
}

impl Decode for i64 {
    open spec fn decoded(value: Value) -> Result<i64, Failure> {
        match value {
            Value::Int(i) => Ok(i),
            _ => Err(Failure::here(DecodeErrorKind::NotAnInteger)),
        }
    }

    fn decode(value: &LuaObject) -> (r: Result<i64, DecodeError>) {
        match value {
            LuaObject::Int(i) => Ok(*i),
            _ => Err(DecodeError::here(DecodeErrorKind::NotAnInteger)),
        }
    }
}

impl Decode for LuaObject {
    open spec fn decoded(value: Value) -> Result<Value, Failure> {
        Ok(value)
    }

    fn decode(value: &LuaObject) -> (r: Result<LuaObject, DecodeError>) {
        Ok(value.duplicate())
    }
}

/// The element at `i` is the first that does not convert.
pub open spec fn fails_first_at<T: Decode>(items: Seq<Value>, i: int) -> bool {
    &&& 0 <= i < items.len()
    &&& T::decoded(items[i]) is Err
    &&& forall|j: int| 0 <= j < i ==> (#[trigger] T::decoded(items[j])) is Ok
}

/// Every element converted, or the failure of the first that does not, under its index.
pub open spec fn decoded_each<T: Decode>(items: Seq<Value>) -> Result<Seq<T::V>, Failure> {
    if exists|i: int| fails_first_at::<T>(items, i) {
        let i = choose|i: int| fails_first_at::<T>(items, i);
        Err(T::decoded(items[i])->Err_0.under(Step::Index(i as usize)))
    } else {
        Ok(Seq::new(items.len(), |i: int| T::decoded(items[i])->Ok_0))
    }
}

impl<T: Decode> Decode for Vec<T> {
    open spec fn decoded(value: Value) -> Result<Seq<T::V>, Failure> {
        match value {
            Value::Array(items) => decoded_each::<T>(items),
            _ => Err(Failure::here(DecodeErrorKind::NotAnArray)),
        }
    }

    fn decode(value: &LuaObject) -> (r: Result<Vec<T>, DecodeError>) {
        match value {
            LuaObject::Array(a) => {
                let ghost items = objects_view(a@);
                let mut out: Vec<T> = Vec::new();
                let mut i: usize = 0;
                while i < a.len()
                    invariant
                        i <= a@.len(),
                        value@ == Value::Array(items),
                        items.len() == a@.len(),
                        forall|j: int| 0 <= j < a@.len() ==> items[j] == (#[trigger] a@[j])@,
                        out@.len() == i,
                        forall|j: int|
                            0 <= j < i ==> (#[trigger] T::decoded(items[j])) == Ok::<
                                T::V,
                                Failure,
                            >(out@[j].deep_view()),
                    decreases a@.len() - i,
                {
                    match T::decode(&a[i]) {
                        Ok(x) => {
                            out.push(x);
                        },
                        Err(e) => {
                            proof {
                                assert(fails_first_at::<T>(items, i as int));
                            }
                            return Err(e.under(PathStep::Index(i)));
                        },
                    }
                    i += 1;
                }
                proof {
                    assert(!exists|k: int| fails_first_at::<T>(items, k));
                    assert(out.deep_view() =~= Seq::new(
                        items.len(),
                        |i: int| T::decoded(items[i])->Ok_0,
                    ));
                }
                Ok(out)
            },
            _ => Err(DecodeError::here(DecodeErrorKind::NotAnArray)),
        }
    }
}

impl<T1: Decode, T2: Decode> Decode for (T1, T2) {
    open spec fn decoded(value: Value) -> Result<(T1::V, T2::V), Failure> {
        match value {
            Value::Array(items) => if items.len() != 2 {
                Err(Failure::here(DecodeErrorKind::WrongLength))
            } else {
                match T1::decoded(items[0]) {
                    Err(f) => Err(f.under(Step::Index(0))),
                    Ok(a) => match T2::decoded(items[1]) {
                        Err(f) => Err(f.under(Step::Index(1))),
                        Ok(b) => Ok((a, b)),
                    },
                }
            },
            _ => Err(Failure::here(DecodeErrorKind::NotAnArray)),
        }
    }

    fn decode(value: &LuaObject) -> (r: Result<(T1, T2), DecodeError>) {
        match value {
            LuaObject::Array(a) => {
                let ghost items = objects_view(a@);
                if a.len() != 2 {
                    return Err(DecodeError::here(DecodeErrorKind::WrongLength));
                }
                assert(items[0] == a@[0]@ && items[1] == a@[1]@);
                let first = match T1::decode(&a[0]) {
                    Ok(x) => x,
                    Err(e) => {
                        return Err(e.under(PathStep::Index(0)));
                    },
                };
                let second = match T2::decode(&a[1]) {
                    Ok(x) => x,
                    Err(e) => {
                        return Err(e.under(PathStep::Index(1)));
                    },
                };
                Ok((first, second))
            },
            _ => Err(DecodeError::here(DecodeErrorKind::NotAnArray)),
        }
    }
}

/// The mapping has `k`, and the value under it does not convert.
pub open spec fn fails_under<T: Decode>(m: Map<Text, Value>, k: Text) -> bool {
    m.contains_key(k) && T::decoded(m[k]) is Err
}

/// `k` is the first key, as the dictionary orders them, whose value does not convert.
pub open spec fn fails_first_under<T: Decode>(m: Map<Text, Value>, k: Text) -> bool {
    &&& fails_under::<T>(m, k)
    &&& forall|other: Text| #[trigger] fails_under::<T>(m, other) ==> !text_before(other, k)
}

/// Every value converted under its key, or the failure of the value whose key comes
/// first in the dictionary among those that do not convert, under that key.
pub open spec fn decoded_entries<T: Decode>(m: Map<Text, Value>) -> Result<
    Map<Text, T::V>,
    Failure,
> {
    if exists|k: Text| fails_first_under::<T>(m, k) {
        let k = choose|k: Text| fails_first_under::<T>(m, k);
        Err(T::decoded(m[k])->Err_0.under(Step::Key(k)))
    } else {
        Ok(Map::new(|k: Text| m.contains_key(k), |k: Text| T::decoded(m[k])->Ok_0))
    }
}

/// The value of a table is the mapping that its entries stand for.
pub proof fn lemma_table_view(d: Dict<LuaObject>)
    ensures
        LuaObject::Table(d)@ == Value::Table(d.deep_view()),
        entries_view(d.entries@) == d.listed(),
{
    assert(entries_view(d.entries@) =~= d.listed());
}

/// Tells whether `a` stands before `b` in the dictionary.
pub fn text_less(a: &str, b: &str) -> (r: bool)
    ensures
        r == text_before(a@, b@),
{
    let x = chars_of(a);
    let y = chars_of(b);
    let mut i: usize = 0;
    loop
        invariant
            x@ == a@,
            y@ == b@,
            i <= x@.len(),
            i <= y@.len(),
            text_before(a@, b@) == before_from(a@, b@, i as int),
        decreases y@.len() - i,
    {
        if i >= y.len() {
            return false;
        }
        if i >= x.len() {
            return true;
        }
        if x[i] != y[i] {
            return x[i] < y[i];
        }
        i += 1;
    }
}

/// `k` is the key of one of the first `n` entries that count.
pub open spec fn seen<V>(listed: Entries<V>, k: Text, n: int) -> bool {
    match position_of(listed, k) {
        Some(j) => j < n,
        None => false,
    }
}

impl<T: Decode> Decode for Dict<T> {
    open spec fn decoded(value: Value) -> Result<Map<Text, T::V>, Failure> {
        match value {
            Value::Table(m) => decoded_entries::<T>(m),
            _ => Err(Failure::here(DecodeErrorKind::NotATable)),
        }
    }

    fn decode(value: &LuaObject) -> (r: Result<Dict<T>, DecodeError>) {
        let d = match value {
            LuaObject::Table(d) => d,
            _ => {
                return Err(DecodeError::here(DecodeErrorKind::NotATable));
            },
        };
        let ghost m = d.deep_view();
        let ghost listed = d.listed();
        proof {
            lemma_table_view(*d);
        }
        let mut out: Dict<T> = Dict::new();
        let mut worst: Option<(String, DecodeError)> = None;
        let mut i: usize = 0;
        proof {
            assert forall|k: Text| !seen(listed, k, 0) by {
                lemma_position_of(listed, k);
            }
        }
        while i < d.entries.len()
            invariant
                i <= d.entries@.len(),
                value@ == Value::Table(m),
                m == d.deep_view(),
                listed == d.listed(),
                forall|k: Text| #[trigger]
                    out.deep_view().contains_key(k) ==> seen(listed, k, i as int) && T::decoded(
                        m[k],
                    ) == Ok::<T::V, Failure>(out.deep_view()[k]),
                forall|k: Text|
                    seen(listed, k, i as int) && !(#[trigger] fails_under::<T>(m, k))
                        ==> out.deep_view().contains_key(k),
                match worst {
                    None => forall|k: Text|
                        seen(listed, k, i as int) ==> !(#[trigger] fails_under::<T>(m, k)),
                    Some(w) => {
                        &&& fails_under::<T>(m, w.0@)
                        &&& T::decoded(m[w.0@]) == Err::<T::V, Failure>(w.1.deep_view())
                        &&& forall|k: Text|
                            seen(listed, k, i as int) && #[trigger] fails_under::<T>(m, k)
                                ==> !text_before(k, w.0@)
                    },
                },
            decreases d.entries@.len() - i,
        {
            let key = &d.entries[i].0;
            let ghost k0 = key@;
            proof {
                assert(listed[i as int].0 == k0);
                assert forall|k: Text| seen(listed, k, i + 1) == (seen(listed, k, i as int)
                    || position_of(listed, k) == Some(i as int)) by {}
                assert forall|k: Text| position_of(listed, k) == Some(i as int) implies k == k0 by {
                    lemma_position_of(listed, k);
                }
            }
            let counts = match d.find(key.as_str()) {
                Some(j) => j == i,
                None => false,
            };
            if counts {
                match T::decode(&d.entries[i].1) {
                    Ok(x) => {
                        out.insert(key.clone(), x);
                    },
                    Err(e) => {
                        let better = match &worst {
                            None => true,
                            Some(w) => text_less(key.as_str(), w.0.as_str()),
                        };
                        let ghost had = worst is Some;
                        let ghost wk = if worst is Some {
                            worst->Some_0.0@
                        } else {
                            k0
                        };
                        proof {
                            if had && better {
                                assert forall|k: Text|
                                    seen(listed, k, i as int) && #[trigger] fails_under::<T>(
                                        m,
                                        k,
                                    ) implies !text_before(k, k0) by {
                                    if text_before(k, k0) {
                                        lemma_order_transitive(k, k0, wk, 0);
                                    }
                                }
                            }
                            lemma_order_asymmetric(k0, k0, 0);
                        }
                        if better {
                            worst = Some((key.clone(), e));
                        }
                    },
                }
            }
            i += 1;
        }
        proof {
            assert forall|k: Text| seen(listed, k, i as int) == m.contains_key(k) by {
                lemma_position_of(listed, k);
            }
        }
        match worst {
            Some(w) => {
                let ghost wk = w.0@;
                proof {
                    assert(fails_first_under::<T>(m, wk));
                    let k = choose|k: Text| fails_first_under::<T>(m, k);
                    lemma_order_total(k, wk, 0);
                }
                Err(w.1.under(PathStep::Key(w.0)))
            },
            None => {
                proof {
                    let all = Map::new(
                        |k: Text| m.contains_key(k),
                        |k: Text| T::decoded(m[k])->Ok_0,
                    );
                    assert forall|k: Text| #[trigger] out.deep_view().contains_key(k)
                        == all.contains_key(k) by {
                        assert(seen(listed, k, i as int) == m.contains_key(k));
                        assert(m.contains_key(k) ==> !fails_under::<T>(m, k));
                    }
                    assert(out.deep_view() =~= all);
                    assert forall|k: Text| !fails_first_under::<T>(m, k) by {
                        assert(seen(listed, k, i as int) == m.contains_key(k));
                    }
                }
                Ok(out)
            },
        }
    }
}

/// A number as the source wrote it: an integer, or the text of a literal that is none.
#[derive(Debug, Clone, PartialEq, Eq)]
pub enum LuaNumber {
    Int(i64),
    Float(String),
}

/// The mathematical value of a `LuaNumber`.
pub enum Number {
    Int(i64),
    Float(Text),
}

impl DeepView for LuaNumber {
    type V = Number;

    open spec fn deep_view(&self) -> Number {
        match self {
            LuaNumber::Int(i) => Number::Int(*i),
            LuaNumber::Float(t) => Number::Float(t@),
        }
    }
}

impl Decode for LuaNumber {
    open spec fn decoded(value: Value) -> Result<Number, Failure> {
        match value {
            Value::Int(i) => Ok(Number::Int(i)),
            Value::Float(t) => Ok(Number::Float(t)),
            _ => Err(Failure::here(DecodeErrorKind::NotANumber)),
        }
    }

    fn decode(value: &LuaObject) -> (r: Result<LuaNumber, DecodeError>) {
        match value {
            LuaObject::Int(i) => Ok(LuaNumber::Int(*i)),
            LuaObject::Float(t) => Ok(LuaNumber::Float(t.clone())),
            _ => Err(DecodeError::here(DecodeErrorKind::NotANumber)),
        }
    }
}

/// The value under `key` converted: the failure names the key, whether the table lacks
/// it or its value does not convert.
pub open spec fn required_field<T: Decode>(entries: Map<Text, Value>, key: Text) -> Result<
    T::V,
    Failure,
> {
    if entries.contains_key(key) {
        match T::decoded(entries[key]) {
            Ok(x) => Ok(x),
            Err(f) => Err(f.under(Step::Key(key))),
        }
    } else {
        Err(Failure::here(DecodeErrorKind::MissingKey).under(Step::Key(key)))
    }
}

/// The value under `key` converted, or `default` where the table lacks the key or its
/// value does not convert.
pub open spec fn optional_field<T: Decode>(
    entries: Map<Text, Value>,
    key: Text,
    default: T::V,
) -> T::V {
    match required_field::<T>(entries, key) {
        Ok(x) => x,
        Err(_) => default,
    }
}

/// The value under `key` converted where the table has the key, `default` where it has
/// not. A value that does not convert is a failure.
pub open spec fn present_field<T: Decode>(
    entries: Map<Text, Value>,
    key: Text,
    default: T::V,
) -> Result<T::V, Failure> {
    if entries.contains_key(key) {
        required_field::<T>(entries, key)
    } else {
        Ok(default)
    }
}

/// Converts the value that `table` holds under `key`; without the key, returns
/// `default`.
pub fn present<T: Decode>(table: &Dict<LuaObject>, key: &str, default: T) -> (r: Result<
    T,
    DecodeError,
>)
    ensures
        outcome(r) == present_field::<T>(table.deep_view(), key@, default.deep_view()),
{
    if table.find(key).is_some() {
        required::<T>(table, key)
    } else {
        Ok(default)
    }
}

/// Converts the value that `table` holds under `key`.
pub fn required<T: Decode>(table: &Dict<LuaObject>, key: &str) -> (r: Result<T, DecodeError>)
    ensures
        outcome(r) == required_field::<T>(table.deep_view(), key@),
{
    match table.get(key) {
        None => Err(
            DecodeError::here(DecodeErrorKind::MissingKey).under(PathStep::Key(key.to_owned())),
        ),
        Some(v) => match T::decode(v) {
            Ok(x) => Ok(x),
            Err(e) => Err(e.under(PathStep::Key(key.to_owned()))),
        },
    }
}

/// Converts the value that `table` holds under `key`, and returns `default` where there
/// is none or it does not convert.
pub fn optional<T: Decode>(table: &Dict<LuaObject>, key: &str, default: T) -> (r: T)
    ensures
        r.deep_view() == optional_field::<T>(table.deep_view(), key@, default.deep_view()),
{
    match required::<T>(table, key) {
        Ok(x) => x,
        Err(_) => default,
    }
}

} // verus!
