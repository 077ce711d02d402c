use vstd::prelude::*;
use crate::registry::{Registry, condition_matches};
use crate::value::{Value, ValueModel, model_of};

verus! {

broadcast use vstd::std_specs::vec::group_vec_axioms;

/// The `if:` argument of a directive: a literal or a variable.
pub enum Condition {
    Literal(bool),
    Variable(String),
}

pub enum Directive {
    Skip(Condition),
    Include(Condition),
}

/// A selection of a selection set. A fragment spread stands here as the
/// fragment it names, with the spread's directives.
pub enum Selection {
    Field { name: String, alias: Option<String>, directives: Vec<Directive> },
    Fragment { type_condition: Option<String>, directives: Vec<Directive>, selections: Vec<Selection> },
}

/// A field of the merged selection: its response key and the field it reads.
#[derive(Debug)]
pub struct CollectedField {
    pub key: String,
    pub name: String,
}

pub type FieldModel = (Seq<char>, Seq<char>);

impl CollectedField {
    pub open spec fn model(&self) -> FieldModel {
        (self.key@, self.name@)
    }
}

pub open spec fn fields_model(f: Seq<CollectedField>) -> Seq<FieldModel> {
    f.map_values(|c: CollectedField| c.model())
}

/// The first binding of `name` among the variables.
pub open spec fn variable(vars: Seq<(String, Value)>, name: Seq<char>) -> Option<ValueModel>
    decreases vars.len(),
{
    if vars.len() == 0 {
        None
    } else if vars[0].0@ == name {
        Some(model_of(vars[0].1))
    } else {
        variable(vars.drop_first(), name)
    }
}

/// The value of a directive's condition; none where it names a variable that
/// is unbound or not a boolean.
pub open spec fn condition_value(c: Condition, vars: Seq<(String, Value)>) -> Option<bool> {
    match c {
        Condition::Literal(b) => Some(b),
        Condition::Variable(n) => match variable(vars, n@) {
            Some(ValueModel::Boolean(b)) => Some(b),
            _ => None,
        },
    }
}

/// Whether one directive lets its selection stand, once its condition is `b`.
pub open spec fn admits(d: Directive, b: bool) -> bool {
    match d {
        Directive::Skip(_) => !b,
        Directive::Include(_) => b,
    }
}

pub open spec fn directive_condition(d: Directive) -> Condition {
    match d {
        Directive::Skip(c) => c,
        Directive::Include(c) => c,
    }
}

/// Whether a selection with these directives stands: every condition is
/// bound, no `skip` holds and no `include` fails. None where a condition is unbound.
pub open spec fn selected(ds: Seq<Directive>, vars: Seq<(String, Value)>) -> Option<bool>
    decreases ds.len(),
{
    if ds.len() == 0 {
        Some(true)
    } else {
        match (selected(ds.drop_last(), vars), condition_value(directive_condition(ds.last()), vars)) {
            (Some(a), Some(b)) => Some(a && admits(ds.last(), b)),
            _ => None,
        }
    }
}

pub open spec fn response_key(name: String, alias: Option<String>) -> Seq<char> {
    match alias {
        Some(a) => a@,
        None => name@,
    }
}

/// The fields that one selection contributes on concrete type `concrete`, in
/// document order; none where a directive condition is unbound.
pub open spec fn selection_fields(
    s: Selection,
    types: Seq<crate::registry::TypeDef>,
    concrete: Seq<char>,
    vars: Seq<(String, Value)>,
) -> Option<Seq<FieldModel>>
    decreases s,
{
    match s {
        Selection::Field { name, alias, directives } => match selected(directives@, vars) {
            None => None,
            Some(false) => Some(Seq::empty()),
            Some(true) => Some(seq![(response_key(name, alias), name@)]),
        },
        Selection::Fragment { type_condition, directives, selections } => match selected(directives@, vars) {
            None => None,
            Some(false) => Some(Seq::empty()),
            Some(true) => if type_condition is None || condition_matches(types, type_condition->Some_0@, concrete) {
                selections_fields(selections@, types, concrete, vars)
            } else {
                Some(Seq::empty())
            },
        },
    }
}

/// The fields of a selection set, before merging, in document order.
pub open spec fn selections_fields(
    sels: Seq<Selection>,
    types: Seq<crate::registry::TypeDef>,
    concrete: Seq<char>,
    vars: Seq<(String, Value)>,
) -> Option<Seq<FieldModel>>
    decreases sels,
{
    if sels.len() == 0 {
        Some(Seq::empty())
    } else {
        match (
            selections_fields(sels.subrange(0, sels.len() - 1), types, concrete, vars),
            selection_fields(sels[sels.len() - 1], types, concrete, vars),
        ) {
            (Some(a), Some(b)) => Some(a + b),
            _ => None,
        }
    }
}

pub open spec fn has_key(m: Seq<FieldModel>, key: Seq<char>) -> bool {
    exists|i: int| 0 <= i < m.len() && (#[trigger] m[i]).0 == key
}

/// Fields merged by response key: the first field under each key keeps its
/// place, later ones under the same key join it.
pub open spec fn merged(s: Seq<FieldModel>) -> Seq<FieldModel>
    decreases s.len(),
{
    if s.len() == 0 {
        Seq::empty()
    } else {
        let m = merged(s.drop_last());
        if has_key(m, s.last().0) {
            m
        } else {
            m.push(s.last())
        }
    }
}

/// Whether every directive condition is bound and each directive admits the
/// selection.
pub open spec fn all_admit(ds: Seq<Directive>, vars: Seq<(String, Value)>) -> bool {
    forall|k: int| 0 <= k < ds.len() ==> condition_value(directive_condition(#[trigger] ds[k]), vars) is Some
        && admits(ds[k], condition_value(directive_condition(ds[k]), vars)->Some_0)
}

/// The directives decide a selection exactly when their conditions are all
/// bound, and let it stand exactly when each of them admits it.
pub proof fn lemma_selected(ds: Seq<Directive>, vars: Seq<(String, Value)>)
    ensures
        selected(ds, vars) is Some <==> forall|k: int| 0 <= k < ds.len() ==> condition_value(
            directive_condition(#[trigger] ds[k]),
            vars,
        ) is Some,
        selected(ds, vars) is Some ==> (selected(ds, vars)->Some_0 <==> all_admit(ds, vars)),
    decreases ds.len(),
{
    if ds.len() > 0 {
        let init = ds.drop_last();
        lemma_selected(init, vars);
        assert forall|k: int| 0 <= k < init.len() implies init[k] == ds[k] by {}
        if selected(ds, vars) is Some {
            if selected(ds, vars)->Some_0 {
                assert forall|k: int| 0 <= k < ds.len() implies condition_value(directive_condition(#[trigger] ds[k]), vars) is Some
                    && admits(ds[k], condition_value(directive_condition(ds[k]), vars)->Some_0) by {
                    if k < ds.len() - 1 {
                        assert(init[k] == ds[k]);
                    }
                }
            } else if all_admit(ds, vars) {
                assert(all_admit(init, vars)) by {
                    assert forall|k: int| 0 <= k < init.len() implies condition_value(directive_condition(#[trigger] init[k]), vars) is Some
                        && admits(init[k], condition_value(directive_condition(init[k]), vars)->Some_0) by {
                        assert(init[k] == ds[k]);
                    }
                }
                assert(ds[ds.len() - 1] == ds.last());
            }
        } else {
            if selected(init, vars) is Some {
                assert(ds[ds.len() - 1] == ds.last());
            } else {
                let k = choose|k: int| 0 <= k < init.len() && !(condition_value(directive_condition(#[trigger] init[k]), vars) is Some);
                assert(init[k] == ds[k]);
            }
        }
    }
}

/// `skip(if: true)` and `include(if: false)` each remove a field, and with
/// `skip(if: true)` beside `include(if: true)` the field is still removed: a
/// field with such a directive contributes nothing.
pub proof fn lemma_directive_removes_field(
    name: String,
    alias: Option<String>,
    directives: Vec<Directive>,
    k: int,
    types: Seq<crate::registry::TypeDef>,
    concrete: Seq<char>,
    vars: Seq<(String, Value)>,
)
    requires
        0 <= k < directives.len(),
        forall|m: int| 0 <= m < directives.len() ==> condition_value(directive_condition(#[trigger] directives[m]), vars) is Some,
        match directives[k] {
            Directive::Skip(c) => condition_value(c, vars) == Some(true),
            Directive::Include(c) => condition_value(c, vars) == Some(false),
        },
    ensures
        selection_fields(Selection::Field { name, alias, directives }, types, concrete, vars) == Some(Seq::<FieldModel>::empty()),
{
    lemma_selected(directives@, vars);
    assert(directives@[k] == directives[k]);
}

/// A selection that contributes nothing leaves the selection set as if it
/// were absent from the document.
pub proof fn lemma_removed_selection_is_absent(
    sels: Seq<Selection>,
    i: int,
    types: Seq<crate::registry::TypeDef>,
    concrete: Seq<char>,
    vars: Seq<(String, Value)>,
)
    requires
        0 <= i < sels.len(),
        selection_fields(sels[i], types, concrete, vars) == Some(Seq::<FieldModel>::empty()),
    ensures
        selections_fields(sels, types, concrete, vars) == selections_fields(sels.remove(i), types, concrete, vars),
    decreases sels.len(),
{
    let n = sels.len();
    let init = sels.subrange(0, n - 1);
    let r = sels.remove(i);
    if i == n - 1 {
        assert(r =~= init);
        let a = selections_fields(init, types, concrete, vars);
        if a is Some {
            assert(a->Some_0 + Seq::<FieldModel>::empty() =~= a->Some_0);
        }
    } else {
        lemma_removed_selection_is_absent(init, i, types, concrete, vars);
        assert(r.subrange(0, r.len() - 1) =~= init.remove(i));
        assert(r[r.len() - 1] == sels[n - 1]);
    }
}

/// A fragment with a type condition contributes fields only where the
/// concrete type matches that condition: the same type, or a member of that
/// interface or union.
pub proof fn lemma_fragment_needs_matching_type(
    type_condition: String,
    directives: Vec<Directive>,
    selections: Vec<Selection>,
    types: Seq<crate::registry::TypeDef>,
    concrete: Seq<char>,
    vars: Seq<(String, Value)>,
)
    ensures
        !condition_matches(types, type_condition@, concrete) ==> {
            let f = selection_fields(
                Selection::Fragment { type_condition: Some(type_condition), directives, selections },
                types,
                concrete,
                vars,
            );
            f is None || f == Some(Seq::<FieldModel>::empty())
        },
{
}

/// Evaluates one directive condition against the variables.
pub fn eval_condition(c: &Condition, vars: &Vec<(String, Value)>) -> (r: Option<bool>)
    ensures
        r == condition_value(*c, vars@),
{
    match c {
        Condition::Literal(b) => Some(*b),
        Condition::Variable(n) => {
            let mut i: usize = 0;
            assert(vars@.subrange(0, vars.len() as int) =~= vars@);
            while i < vars.len()
                invariant
                    *c == Condition::Variable(*n),
                    i <= vars.len(),
                    variable(vars@, n@) == variable(vars@.subrange(i as int, vars.len() as int), n@),
                decreases vars.len() - i,
            {
                assert(vars@.subrange(i as int, vars.len() as int).drop_first() =~= vars@.subrange(i + 1, vars.len() as int));
                if vars[i].0 == *n {
                    assert(vars@.subrange(i as int, vars.len() as int)[0] == vars@[i as int]);
                    assert(variable(vars@, n@) == Some(model_of(vars@[i as int].1)));
                    return match &vars[i].1 {
                        Value::Boolean(b) => {
                            assert(model_of(vars@[i as int].1) == ValueModel::Boolean(*b));
                            Some(*b)
                        },
                        _ => {
                            assert(!(model_of(vars@[i as int].1) is Boolean));
                            None
                        },
                    };
                }
                i = i + 1;
            }
            None
        },
    }
}

/// Whether a selection with these directives stands. `skip` wins over
/// `include`; none where a condition is unbound.
pub fn is_selected(ds: &Vec<Directive>, vars: &Vec<(String, Value)>) -> (r: Option<bool>)
    ensures
        r == selected(ds@, vars@),
{
    let mut acc: Option<bool> = Some(true);
    let mut i: usize = 0;
    while i < ds.len()
        invariant
            i <= ds.len(),
            acc == selected(ds@.take(i as int), vars@),
        decreases ds.len() - i,
    {
        let d = &ds[i];
        let c = match d {
            Directive::Skip(c) => c,
            Directive::Include(c) => c,
        };
        let v = eval_condition(c, vars);
        acc = match (acc, v) {
            (Some(a), Some(b)) => Some(
                a && match d {
                    Directive::Skip(_) => !b,
                    Directive::Include(_) => b,
                },
            ),
            _ => None,
        };
        assert(ds@.take(i + 1).drop_last() =~= ds@.take(i as int));
        i = i + 1;
    }
    assert(ds@.take(ds.len() as int) =~= ds@);
    acc
}

fn gather_selection(
    s: &Selection,
    reg: &Registry,
    concrete: &String,
    vars: &Vec<(String, Value)>,
    out: &mut Vec<CollectedField>,
) -> (ok: bool)
    requires
        reg.wf(),
    ensures
        ok == selection_fields(*s, reg.types(), concrete@, vars@) is Some,
        ok ==> fields_model(final(out)@) == fields_model(old(out)@) + selection_fields(
            *s,
            reg.types(),
            concrete@,
            vars@,
        )->Some_0,
    decreases s,
{
    match s {
        Selection::Field { name, alias, directives } => match is_selected(directives, vars) {
            None => false,
            Some(false) => {
                assert(fields_model(out@) =~= fields_model(old(out)@) + Seq::empty());
                true
            },
            Some(true) => {
                let key = match alias {
                    Some(a) => a.clone(),
                    None => name.clone(),
                };
                let f = CollectedField { key, name: name.clone() };
                out.push(f);
                assert(fields_model(out@) =~= fields_model(old(out)@) + seq![(response_key(*name, *alias), name@)]);
                true
            },
        },
        Selection::Fragment { type_condition, directives, selections } => match is_selected(directives, vars) {
            None => false,
            Some(false) => {
                assert(fields_model(out@) =~= fields_model(old(out)@) + Seq::empty());
                true
            },
            Some(true) => {
                let applies = match type_condition {
                    None => true,
                    Some(t) => reg.type_condition_matches(t, concrete),
                };
                if applies {
                    gather_selections(selections, reg, concrete, vars, out)
                } else {
                    assert(fields_model(out@) =~= fields_model(old(out)@) + Seq::empty());
                    true
                }
            },
        },
    }
}

fn gather_selections(
    sels: &Vec<Selection>,
    reg: &Registry,
    concrete: &String,
    vars: &Vec<(String, Value)>,
    out: &mut Vec<CollectedField>,
) -> (ok: bool)
    requires
        reg.wf(),
    ensures
        ok == selections_fields(sels@, reg.types(), concrete@, vars@) is Some,
        ok ==> fields_model(final(out)@) == fields_model(old(out)@) + selections_fields(
            sels@,
            reg.types(),
            concrete@,
            vars@,
        )->Some_0,
    decreases sels,
{
    let mut ok = true;
    let mut i: usize = 0;
    assert(fields_model(out@) =~= fields_model(old(out)@) + Seq::empty());
    while i < sels.len()
        invariant
            reg.wf(),
            i <= sels.len(),
            ok == selections_fields(sels@.take(i as int), reg.types(), concrete@, vars@) is Some,
            ok ==> fields_model(out@) == fields_model(old(out)@) + selections_fields(
                sels@.take(i as int),
                reg.types(),
                concrete@,
                vars@,
            )->Some_0,
        decreases sels.len() - i,
    {
        let ghost t = sels@.take(i + 1);
        proof {
            assert(t.subrange(0, t.len() - 1) =~= sels@.take(i as int));
            assert(t[t.len() - 1] == sels@[i as int]);
        }
        if ok {
            proof {
                assert(decreases_to!(sels => sels@));
                assert(decreases_to!(sels@ => sels@[i as int]));
            }
            let ghost before = fields_model(out@);
            ok = gather_selection(&sels[i], reg, concrete, vars, out);
            proof {
                if ok {
                    let a = selections_fields(sels@.take(i as int), reg.types(), concrete@, vars@)->Some_0;
                    let b = selection_fields(sels@[i as int], reg.types(), concrete@, vars@)->Some_0;
                    assert(fields_model(out@) =~= fields_model(old(out)@) + (a + b));
                }
            }
        }
        i = i + 1;
    }
    assert(sels@.take(sels.len() as int) =~= sels@);
    ok
}

/// Merges fields by response key: the first field under a key keeps its place.
pub fn merge_fields(fields: &Vec<CollectedField>) -> (r: Vec<CollectedField>)
    ensures
        fields_model(r@) == merged(fields_model(fields@)),
{
    let mut out: Vec<CollectedField> = Vec::new();
    let mut i: usize = 0;
    while i < fields.len()
        invariant
            i <= fields.len(),
            fields_model(out@) == merged(fields_model(fields@).take(i as int)),
        decreases fields.len() - i,
    {
        let mut found = false;
        let mut j: usize = 0;
        while j < out.len()
            invariant
                i < fields.len(),
                j <= out.len(),
                found == exists|k: int| 0 <= k < j && (#[trigger] out[k]).key@ == fields[i as int].key@,
            decreases out.len() - j,
        {
            if out[j].key == fields[i].key {
                found = true;
            }
            j = j + 1;
        }
        let ghost s = fields_model(fields@).take(i + 1);
        proof {
            assert(s.drop_last() =~= fields_model(fields@).take(i as int));
            assert(s.last() == fields@[i as int].model());
            let m = fields_model(out@);
            if found {
                let k = choose|k: int| 0 <= k < out.len() && (#[trigger] out[k]).key@ == fields[i as int].key@;
                assert(m[k].0 == s.last().0);
            } else {
                assert forall|k: int| 0 <= k < m.len() implies (#[trigger] m[k]).0 != s.last().0 by {
                    assert(m[k] == out[k].model());
                }
            }
        }
        if !found {
            let f = CollectedField { key: fields[i].key.clone(), name: fields[i].name.clone() };
            out.push(f);
            assert(fields_model(out@) =~= merged(s));
        }
        i = i + 1;
    }
    assert(fields_model(fields@).take(fields.len() as int) =~= fields_model(fields@));
    out
}

/// Collects the fields that a selection set asks of a value of concrete type
/// `concrete`: directives decide which selections stand, fragments apply only
/// where their type condition matches, and fields are merged by response key
/// in document order. None where a directive condition is unbound.
pub fn collect_fields(
    sels: &Vec<Selection>,
    reg: &Registry,
    concrete: &String,
    vars: &Vec<(String, Value)>,
) -> (r: Option<Vec<CollectedField>>)
    requires
        reg.wf(),
    ensures
        r is Some <==> selections_fields(sels@, reg.types(), concrete@, vars@) is Some,
        r is Some ==> fields_model(r->Some_0@) == merged(
            selections_fields(sels@, reg.types(), concrete@, vars@)->Some_0,
        ),
{
    let mut flat: Vec<CollectedField> = Vec::new();
    let ok = gather_selections(sels, reg, concrete, vars, &mut flat);
    if ok {
        assert(fields_model(flat@) =~= selections_fields(sels@, reg.types(), concrete@, vars@)->Some_0);
        Some(merge_fields(&flat))
    } else {
        None
    }
}

} // verus!
