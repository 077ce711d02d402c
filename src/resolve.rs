use vstd::prelude::*;
use crate::collect::CollectedField;
use crate::complete::{Resolved, ResolvedField};
use crate::registry::Registry;
use crate::value::{Value, ValueModel, model_of, entry_of};

verus! {

pub open spec fn object_model(source: Seq<(String, Value)>) -> Seq<(Seq<char>, ValueModel)> {
    source.map_values(|e: (String, Value)| (e.0@, model_of(e.1)))
}

pub open spec fn missing_field_message() -> Seq<char> {
    "no such field on the source object"@
}

/// Finds the first entry named `name` in a source object.
pub fn source_entry(source: &Vec<(String, Value)>, name: &String) -> (r: Option<usize>)
    ensures
        r is Some ==> r->Some_0 < source.len() && entry_of(object_model(source@), name@) == Some(
            model_of(source@[r->Some_0 as int].1),
        ),
        r is None ==> entry_of(object_model(source@), name@) is None,
{
    let ghost m = object_model(source@);
    let mut i: usize = 0;
    assert(m.subrange(0, m.len() as int) =~= m);
    while i < source.len()
        invariant
            m == object_model(source@),
            i <= source.len(),
            entry_of(m, name@) == entry_of(m.subrange(i as int, m.len() as int), name@),
        decreases source.len() - i,
    {
        assert(m.subrange(i as int, m.len() as int).drop_first() =~= m.subrange(i + 1, m.len() as int));
        assert(m.subrange(i as int, m.len() as int)[0] == m[i as int]);
        if source[i].0 == *name {
            return Some(i);
        }
        i = i + 1;
    }
    None
}

/// Resolves each collected field of an object of type `owner` by reading the
/// field it names from a source object. Every response key is resolved on its
/// own, so an aliased field reads the same entry once per alias; a field the
/// source lacks fails. Each field keeps the nullability that the registry
/// declares for it; one the registry does not declare counts as nullable.
pub fn resolve_fields(
    reg: &Registry,
    owner: &String,
    source: &Vec<(String, Value)>,
    fields: &Vec<CollectedField>,
) -> (r: Vec<ResolvedField>)
    requires
        reg.wf(),
    ensures
        r.len() == fields.len(),
        forall|i: int| 0 <= i < fields.len() ==> {
            let f = #[trigger] r[i];
            &&& f.key@ == fields[i].key@
            &&& f.nullable == match reg.field_def(owner@, fields[i].name@) {
                Some(d) => d.nullable,
                None => true,
            }
            &&& match entry_of(object_model(source@), fields[i].name@) {
                Some(v) => f.outcome is Leaf && model_of(f.outcome->Leaf_0) == v,
                None => f.outcome is Failed && f.outcome->Failed_0@ == missing_field_message(),
            }
        },
{
    let mut out: Vec<ResolvedField> = Vec::new();
    let mut i: usize = 0;
    while i < fields.len()
        invariant
            reg.wf(),
            i <= fields.len(),
            out.len() == i,
            forall|k: int| 0 <= k < i ==> {
                let f = #[trigger] out[k];
                &&& f.key@ == fields[k].key@
                &&& f.nullable == match reg.field_def(owner@, fields[k].name@) {
                    Some(d) => d.nullable,
                    None => true,
                }
                &&& match entry_of(object_model(source@), fields[k].name@) {
                    Some(v) => f.outcome is Leaf && model_of(f.outcome->Leaf_0) == v,
                    None => f.outcome is Failed && f.outcome->Failed_0@ == missing_field_message(),
                }
            },
        decreases fields.len() - i,
    {
        let outcome = match source_entry(source, &fields[i].name) {
            Some(k) => Resolved::Leaf(source[k].1.deep_clone()),
            None => Resolved::Failed("no such field on the source object".to_owned()),
        };
        let nullable = match reg.field_nullable(owner, &fields[i].name) {
            Some(b) => b,
            None => true,
        };
        out.push(ResolvedField { key: fields[i].key.clone(), nullable, outcome });
        i = i + 1;
    }
    out
}

} // verus!
