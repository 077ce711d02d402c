use vstd::prelude::*;
use crate::collect::variable;
use crate::value::{Value, ValueModel, model_of};

verus! {

broadcast use vstd::std_specs::vec::group_vec_axioms;

/// An argument as the document writes it: a constant, a variable, or a list
/// or input object built of arguments.
pub enum ArgValue {
    Const(Value),
    Variable(String),
    List(Vec<ArgValue>),
    Object(Vec<(String, ArgValue)>),
}

/// A variable that the operation declares, with its default value if any.
pub struct VariableDef {
    pub name: String,
    pub default: Option<Value>,
}

/// The default that the first declaration of `name` gives.
pub open spec fn declared_default(defs: Seq<VariableDef>, name: Seq<char>) -> Option<ValueModel>
    decreases defs.len(),
{
    if defs.len() == 0 {
        None
    } else if defs[0].name@ == name {
        match defs[0].default {
            Some(d) => Some(model_of(d)),
            None => None,
        }
    } else {
        declared_default(defs.drop_first(), name)
    }
}

/// The value of variable `name`: the one provided with the request, even if
/// null; else its declared default; else none.
pub open spec fn variable_binding(
    provided: Seq<(String, Value)>,
    defs: Seq<VariableDef>,
    name: Seq<char>,
) -> Option<ValueModel> {
    match variable(provided, name) {
        Some(v) => Some(v),
        None => declared_default(defs, name),
    }
}

/// The value of an argument with its variables bound; an unbound variable
/// inside a list or an input object stands as null.
pub open spec fn bound(a: ArgValue, provided: Seq<(String, Value)>, defs: Seq<VariableDef>) -> ValueModel
    decreases a,
{
    match a {
        ArgValue::Const(v) => model_of(v),
        ArgValue::Variable(n) => match variable_binding(provided, defs, n@) {
            Some(v) => v,
            None => ValueModel::Null,
        },
        ArgValue::List(items) => ValueModel::List(
            Seq::new(
                items.len() as nat,
                |i: int|
                    if 0 <= i < items.len() {
                        bound(items[i], provided, defs)
                    } else {
                        ValueModel::Null
                    },
            ),
        ),
        ArgValue::Object(fields) => ValueModel::Object(
            Seq::new(
                fields.len() as nat,
                |i: int|
                    if 0 <= i < fields.len() {
                        (fields[i].0@, bound(fields[i].1, provided, defs))
                    } else {
                        (Seq::empty(), ValueModel::Null)
                    },
            ),
        ),
    }
}

/// The argument handed to a resolver: absent when it is a variable with
/// neither a provided value nor a default.
pub open spec fn argument(a: ArgValue, provided: Seq<(String, Value)>, defs: Seq<VariableDef>) -> Option<ValueModel> {
    match a {
        ArgValue::Variable(n) => variable_binding(provided, defs, n@),
        _ => Some(bound(a, provided, defs)),
    }
}

/// The value of variable `name`.
pub fn bind_variable(provided: &Vec<(String, Value)>, defs: &Vec<VariableDef>, name: &String) -> (r: Option<Value>)
    ensures
        r is Some <==> variable_binding(provided@, defs@, name@) is Some,
        r is Some ==> r->Some_0.model() == variable_binding(provided@, defs@, name@)->Some_0,
{
    let mut i: usize = 0;
    assert(provided@.subrange(0, provided.len() as int) =~= provided@);
    while i < provided.len()
        invariant
            i <= provided.len(),
            variable(provided@, name@) == variable(provided@.subrange(i as int, provided.len() as int), name@),
        decreases provided.len() - i,
    {
        assert(provided@.subrange(i as int, provided.len() as int).drop_first() =~= provided@.subrange(i + 1, provided.len() as int));
        assert(provided@.subrange(i as int, provided.len() as int)[0] == provided@[i as int]);
        if provided[i].0 == *name {
            return Some(provided[i].1.deep_clone());
        }
        i = i + 1;
    }
    let mut j: usize = 0;
    assert(defs@.subrange(0, defs.len() as int) =~= defs@);
    while j < defs.len()
        invariant
            variable(provided@, name@) is None,
            j <= defs.len(),
            declared_default(defs@, name@) == declared_default(defs@.subrange(j as int, defs.len() as int), name@),
        decreases defs.len() - j,
    {
        assert(defs@.subrange(j as int, defs.len() as int).drop_first() =~= defs@.subrange(j + 1, defs.len() as int));
        assert(defs@.subrange(j as int, defs.len() as int)[0] == defs@[j as int]);
        if defs[j].name == *name {
            return match &defs[j].default {
                Some(d) => Some(d.deep_clone()),
                None => None,
            };
        }
        j = j + 1;
    }
    None
}

/// Binds the variables of an argument value.
pub fn bind_value(a: &ArgValue, provided: &Vec<(String, Value)>, defs: &Vec<VariableDef>) -> (r: Value)
    ensures
        r.model() == bound(*a, provided@, defs@),
    decreases a,
{
    match a {
        ArgValue::Const(v) => v.deep_clone(),
        ArgValue::Variable(n) => match bind_variable(provided, defs, n) {
            Some(v) => v,
            None => Value::Null,
        },
        ArgValue::List(items) => {
            let mut out: Vec<Value> = Vec::new();
            let mut i: usize = 0;
            while i < items.len()
                invariant
                    *a == ArgValue::List(*items),
                    i <= items.len(),
                    out.len() == i,
                    forall|j: int| 0 <= j < i ==> model_of(#[trigger] out[j]) == bound(items[j], provided@, defs@),
                decreases items.len() - i,
            {
                proof {
                    assert(decreases_to!(*a => a->List_0));
                    assert(decreases_to!(a->List_0 => a->List_0@));
                    assert(decreases_to!(a->List_0@ => a->List_0@[i as int]));
                }
                let v = bind_value(&items[i], provided, defs);
                out.push(v);
                i = i + 1;
            }
            let r = Value::List(out);
            assert(r.model()->List_0 =~= bound(*a, provided@, defs@)->List_0);
            r
        },
        ArgValue::Object(fields) => {
            let mut out: Vec<(String, Value)> = Vec::new();
            let mut i: usize = 0;
            while i < fields.len()
                invariant
                    *a == ArgValue::Object(*fields),
                    i <= fields.len(),
                    out.len() == i,
                    forall|j: int| 0 <= j < i ==> (#[trigger] out[j]).0@ == fields[j].0@
                        && model_of(out[j].1) == bound(fields[j].1, provided@, defs@),
                decreases fields.len() - i,
            {
                proof {
                    assert(decreases_to!(*a => a->Object_0));
                    assert(decreases_to!(a->Object_0 => a->Object_0@));
                    assert(decreases_to!(a->Object_0@ => a->Object_0@[i as int]));
                    assert(decreases_to!(a->Object_0@[i as int] => a->Object_0@[i as int].1));
                }
                let v = bind_value(&fields[i].1, provided, defs);
                out.push((fields[i].0.clone(), v));
                i = i + 1;
            }
            let r = Value::Object(out);
            assert(r.model()->Object_0 =~= bound(*a, provided@, defs@)->Object_0);
            r
        },
    }
}

/// The argument handed to a resolver, with its variables bound; none when it
/// is a variable with neither a provided value nor a declared default.
pub fn bind_argument(a: &ArgValue, provided: &Vec<(String, Value)>, defs: &Vec<VariableDef>) -> (r: Option<Value>)
    ensures
        r is Some <==> argument(*a, provided@, defs@) is Some,
        r is Some ==> r->Some_0.model() == argument(*a, provided@, defs@)->Some_0,
{
    match a {
        ArgValue::Variable(n) => bind_variable(provided, defs, n),
        _ => Some(bind_value(a, provided, defs)),
    }
}

} // verus!
