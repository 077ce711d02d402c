use vstd::prelude::*;

verus! {

broadcast use vstd::std_specs::vec::group_vec_axioms;

/// A runtime value of the query language: used for variables, field
/// results and the response tree.
#[derive(Debug, PartialEq)]
pub enum Value {
    Null,
    Boolean(bool),
    Number(i64),
    Str(String),
    EnumSymbol(String),
    List(Vec<Value>),
    Object(Vec<(String, Value)>),
}

/// The mathematical shape of a `Value`.
pub enum ValueModel {
    Null,
    Boolean(bool),
    Number(int),
    Str(Seq<char>),
    EnumSymbol(Seq<char>),
    List(Seq<ValueModel>),
    Object(Seq<(Seq<char>, ValueModel)>),
}

pub open spec fn model_of(v: Value) -> ValueModel
    decreases v,
{
    match v {
        Value::Null => ValueModel::Null,
        Value::Boolean(b) => ValueModel::Boolean(b),
        Value::Number(n) => ValueModel::Number(n as int),
        Value::Str(s) => ValueModel::Str(s@),
        Value::EnumSymbol(s) => ValueModel::EnumSymbol(s@),
        Value::List(items) => ValueModel::List(
            Seq::new(
                items.len() as nat,
                |i: int|
                    if 0 <= i < items.len() {
                        model_of(items[i])
                    } else {
                        ValueModel::Null
                    },
            ),
        ),
        Value::Object(fields) => ValueModel::Object(
            Seq::new(
                fields.len() as nat,
                |i: int|
                    if 0 <= i < fields.len() {
                        (fields[i].0@, model_of(fields[i].1))
                    } else {
                        (Seq::empty(), ValueModel::Null)
                    },
            ),
        ),
    }
}

/// The entry of an object model under `key`, if any (the first one).
pub open spec fn entry_of(fields: Seq<(Seq<char>, ValueModel)>, key: Seq<char>) -> Option<ValueModel>
    decreases fields.len(),
{
    if fields.len() == 0 {
        None
    } else if fields[0].0 == key {
        Some(fields[0].1)
    } else {
        entry_of(fields.drop_first(), key)
    }
}

impl Value {
    pub open spec fn model(&self) -> ValueModel {
        model_of(*self)
    }

    pub fn is_null(&self) -> (r: bool)
        ensures
            r == (self.model() is Null),
    {
        match self {
            Value::Null => true,
            _ => false,
        }
    }

    /// A copy of the whole value tree.
    pub fn deep_clone(&self) -> (r: Value)
        ensures
            r.model() == self.model(),
        decreases self,
    {
        match self {
            Value::Null => Value::Null,
            Value::Boolean(b) => Value::Boolean(*b),
            Value::Number(n) => Value::Number(*n),
            Value::Str(s) => Value::Str(s.clone()),
            Value::EnumSymbol(s) => Value::EnumSymbol(s.clone()),
            Value::List(items) => {
                let mut out: Vec<Value> = Vec::new();
                let mut i: usize = 0;
                while i < items.len()
                    invariant
                        *self == Value::List(*items),
                        i <= items.len(),
                        out.len() == i,
                        forall|j: int| 0 <= j < i ==> model_of(#[trigger] out[j]) == model_of(items[j]),
                    decreases items.len() - i,
                {
                    proof {
                        assert(decreases_to!(*self => self->List_0));
                        assert(decreases_to!(self->List_0 => self->List_0@));
                        assert(decreases_to!(self->List_0@ => self->List_0@[i as int]));
                    }
                    let c = items[i].deep_clone();
                    out.push(c);
                    i = i + 1;
                }
                let r = Value::List(out);
                assert(r.model()->List_0 =~= self.model()->List_0);
                r
            },
            Value::Object(fields) => {
                let mut out: Vec<(String, Value)> = Vec::new();
                let mut i: usize = 0;
                while i < fields.len()
                    invariant
                        *self == Value::Object(*fields),
                        i <= fields.len(),
                        out.len() == i,
                        forall|j: int| 0 <= j < i ==> (#[trigger] out[j]).0@ == fields[j].0@ && model_of(out[j].1) == model_of(fields[j].1),
                    decreases fields.len() - i,
                {
                    proof {
                        assert(decreases_to!(*self => self->Object_0));
                        assert(decreases_to!(self->Object_0 => self->Object_0@));
                        assert(decreases_to!(self->Object_0@ => self->Object_0@[i as int]));
                        assert(decreases_to!(self->Object_0@[i as int] => self->Object_0@[i as int].1));
                    }
                    let k = fields[i].0.clone();
                    let c = fields[i].1.deep_clone();
                    out.push((k, c));
                    i = i + 1;
                }
                let r = Value::Object(out);
                assert(r.model()->Object_0 =~= self.model()->Object_0);
                r
            },
        }
    }
}

} // verus!
