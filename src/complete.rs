use vstd::prelude::*;
use crate::value::{Value, ValueModel, model_of};

verus! {

broadcast use vstd::std_specs::vec::group_vec_axioms;

/// One step of a path from the response root.
#[derive(Debug, PartialEq)]
pub enum PathSegment {
    Field(String),
    Index(usize),
}

pub enum SegmentModel {
    Field(Seq<char>),
    Index(int),
}

impl PathSegment {
    pub open spec fn model(&self) -> SegmentModel {
        match self {
            PathSegment::Field(name) => SegmentModel::Field(name@),
            PathSegment::Index(i) => SegmentModel::Index(*i as int),
        }
    }
}

pub open spec fn path_model(p: Seq<PathSegment>) -> Seq<SegmentModel> {
    p.map_values(|s: PathSegment| s.model())
}

/// A field-level error: what went wrong and where in the response.
#[derive(Debug, PartialEq)]
pub struct FieldError {
    pub message: String,
    pub path: Vec<PathSegment>,
}

pub type ErrorModel = (Seq<char>, Seq<SegmentModel>);

impl FieldError {
    pub open spec fn model(&self) -> ErrorModel {
        (self.message@, path_model(self.path@))
    }
}

pub open spec fn errors_model(e: Seq<FieldError>) -> Seq<ErrorModel> {
    e.map_values(|x: FieldError| x.model())
}

/// The message recorded when a non-null field produces no value.
pub open spec fn null_violation_message() -> Seq<char> {
    "non-null field resolved to null"@
}

fn null_violation() -> (r: String)
    ensures
        r@ == null_violation_message(),
{
    "non-null field resolved to null".to_owned()
}

/// What the resolvers produced for one field, before completion.
pub enum Resolved {
    /// A scalar or enum value, already serialized.
    Leaf(Value),
    /// The resolver produced no value.
    Null,
    /// The resolver failed with this message.
    Failed(String),
    /// An object: its selected fields, in selection order.
    Object(Vec<ResolvedField>),
    /// A list: whether its items are nullable, and the items in index order.
    List(bool, Vec<Resolved>),
}

/// A selected field under its response key, with the nullability of its declared type.
pub struct ResolvedField {
    pub key: String,
    pub nullable: bool,
    pub outcome: Resolved,
}

/// Whether the completed value of `o` is null: it failed, produced no value,
/// or a non-null part of it did.
pub open spec fn collapses(o: Resolved) -> bool
    decreases o,
{
    match o {
        Resolved::Leaf(v) => v is Null,
        Resolved::Null => true,
        Resolved::Failed(_) => true,
        Resolved::Object(fields) => exists|i: int|
            0 <= i < fields.len() && !fields[i].nullable && collapses(#[trigger] fields[i].outcome),
        Resolved::List(items_nullable, items) => !items_nullable && exists|i: int|
            0 <= i < items.len() && collapses(#[trigger] items[i]),
    }
}

/// The completed value of `o` in the response.
pub open spec fn output(o: Resolved) -> ValueModel
    decreases o,
{
    if collapses(o) {
        ValueModel::Null
    } else {
        match o {
            Resolved::Leaf(v) => model_of(v),
            Resolved::Object(fields) => ValueModel::Object(
                Seq::new(
                    fields.len() as nat,
                    |i: int|
                        if 0 <= i < fields.len() {
                            (fields[i].key@, output(fields[i].outcome))
                        } else {
                            (Seq::empty(), ValueModel::Null)
                        },
                ),
            ),
            Resolved::List(_, items) => ValueModel::List(
                Seq::new(
                    items.len() as nat,
                    |i: int|
                        if 0 <= i < items.len() {
                            output(items[i])
                        } else {
                            ValueModel::Null
                        },
                ),
            ),
            _ => ValueModel::Null,
        }
    }
}

/// The errors that completing `o` at `path` records, in document order: one
/// for each failure and one for each null in a non-null position.
pub open spec fn errors_of(o: Resolved, nullable: bool, path: Seq<SegmentModel>) -> Seq<ErrorModel>
    decreases o, 0nat,
{
    match o {
        Resolved::Failed(m) => seq![(m@, path)],
        Resolved::Null => if nullable {
            Seq::empty()
        } else {
            seq![(null_violation_message(), path)]
        },
        Resolved::Leaf(v) => if nullable || !(v is Null) {
            Seq::empty()
        } else {
            seq![(null_violation_message(), path)]
        },
        Resolved::Object(fields) => fields_errors(fields@, path, 0),
        Resolved::List(items_nullable, items) => items_errors(items@, items_nullable, path, 0),
    }
}

/// The errors of the fields from index `i` on.
pub open spec fn fields_errors(fields: Seq<ResolvedField>, path: Seq<SegmentModel>, i: int) -> Seq<ErrorModel>
    decreases fields, fields.len() - i,
{
    if i < 0 || i >= fields.len() {
        Seq::empty()
    } else {
        errors_of(fields[i].outcome, fields[i].nullable, path.push(SegmentModel::Field(fields[i].key@)))
            + fields_errors(fields, path, i + 1)
    }
}

/// The errors of the list items from index `i` on.
pub open spec fn items_errors(items: Seq<Resolved>, nullable: bool, path: Seq<SegmentModel>, i: int) -> Seq<ErrorModel>
    decreases items, items.len() - i,
{
    if i < 0 || i >= items.len() {
        Seq::empty()
    } else {
        errors_of(items[i], nullable, path.push(SegmentModel::Index(i)))
            + items_errors(items, nullable, path, i + 1)
    }
}

/// The number of failures in `o`: failed resolvers and nulls in non-null positions.
pub open spec fn failures(o: Resolved, nullable: bool) -> nat
    decreases o, 0nat,
{
    match o {
        Resolved::Failed(_) => 1,
        Resolved::Null => if nullable { 0 } else { 1 },
        Resolved::Leaf(v) => if nullable || !(v is Null) { 0 } else { 1 },
        Resolved::Object(fields) => fields_failures(fields@, 0),
        Resolved::List(items_nullable, items) => items_failures(items@, items_nullable, 0),
    }
}

pub open spec fn fields_failures(fields: Seq<ResolvedField>, i: int) -> nat
    decreases fields, fields.len() - i,
{
    if i < 0 || i >= fields.len() {
        0
    } else {
        failures(fields[i].outcome, fields[i].nullable) + fields_failures(fields, i + 1)
    }
}

pub open spec fn items_failures(items: Seq<Resolved>, nullable: bool, i: int) -> nat
    decreases items, items.len() - i,
{
    if i < 0 || i >= items.len() {
        0
    } else {
        failures(items[i], nullable) + items_failures(items, nullable, i + 1)
    }
}

/// Each failure is recorded exactly once: the errors of a result tree are as
/// many as its failures, whatever its shape.
pub proof fn lemma_one_error_per_failure(o: Resolved, nullable: bool, path: Seq<SegmentModel>)
    ensures
        errors_of(o, nullable, path).len() == failures(o, nullable),
    decreases o, 0nat,
{
    match o {
        Resolved::Object(fields) => lemma_fields_errors_count(fields@, path, 0),
        Resolved::List(items_nullable, items) => lemma_items_errors_count(items@, items_nullable, path, 0),
        _ => {},
    }
}

proof fn lemma_fields_errors_count(fields: Seq<ResolvedField>, path: Seq<SegmentModel>, i: int)
    ensures
        fields_errors(fields, path, i).len() == fields_failures(fields, i),
    decreases fields, fields.len() - i,
{
    if 0 <= i < fields.len() {
        lemma_one_error_per_failure(fields[i].outcome, fields[i].nullable, path.push(SegmentModel::Field(fields[i].key@)));
        lemma_fields_errors_count(fields, path, i + 1);
    }
}

proof fn lemma_items_errors_count(items: Seq<Resolved>, nullable: bool, path: Seq<SegmentModel>, i: int)
    ensures
        items_errors(items, nullable, path, i).len() == items_failures(items, nullable, i),
    decreases items, items.len() - i,
{
    if 0 <= i < items.len() {
        lemma_one_error_per_failure(items[i], nullable, path.push(SegmentModel::Index(i)));
        lemma_items_errors_count(items, nullable, path, i + 1);
    }
}

proof fn lemma_field_errors_included(fields: Seq<ResolvedField>, path: Seq<SegmentModel>, i: int, j: int, k: int)
    requires
        0 <= i <= j < fields.len(),
        0 <= k < errors_of(fields[j].outcome, fields[j].nullable, path.push(SegmentModel::Field(fields[j].key@))).len(),
    ensures
        fields_errors(fields, path, i).contains(
            errors_of(fields[j].outcome, fields[j].nullable, path.push(SegmentModel::Field(fields[j].key@)))[k],
        ),
    decreases j - i,
{
    let e = errors_of(fields[i].outcome, fields[i].nullable, path.push(SegmentModel::Field(fields[i].key@)));
    let rest = fields_errors(fields, path, i + 1);
    if i == j {
        assert((e + rest)[k] == e[k]);
    } else {
        lemma_field_errors_included(fields, path, i + 1, j, k);
        let x = choose|x: int| 0 <= x < rest.len() && rest[x] == errors_of(
            fields[j].outcome,
            fields[j].nullable,
            path.push(SegmentModel::Field(fields[j].key@)),
        )[k];
        assert((e + rest)[e.len() + x] == rest[x]);
    }
}

/// A field of an object whose resolver fails: its error stands among the
/// object's errors, once and at the field's own path. If the field is
/// non-null the object itself becomes null, so the null reaches the nearest
/// nullable ancestor; if it is nullable, the field alone becomes null.
pub proof fn lemma_failure_reaches_nearest_nullable(
    fields: Vec<ResolvedField>,
    j: int,
    nullable: bool,
    path: Seq<SegmentModel>,
)
    requires
        0 <= j < fields.len(),
        fields[j].outcome is Failed,
    ensures
        errors_of(Resolved::Object(fields), nullable, path).contains(
            (fields[j].outcome->Failed_0@, path.push(SegmentModel::Field(fields[j].key@))),
        ),
        errors_of(fields[j].outcome, fields[j].nullable, path.push(SegmentModel::Field(fields[j].key@)))
            == seq![(fields[j].outcome->Failed_0@, path.push(SegmentModel::Field(fields[j].key@)))],
        !fields[j].nullable ==> collapses(Resolved::Object(fields)) && output(Resolved::Object(fields)) == ValueModel::Null,
        fields[j].nullable && !collapses(Resolved::Object(fields)) ==> output(Resolved::Object(fields))->Object_0[j]
            == (fields[j].key@, ValueModel::Null),
{
    let p = path.push(SegmentModel::Field(fields[j].key@));
    assert(errors_of(fields@[j].outcome, fields@[j].nullable, p)[0] == (fields[j].outcome->Failed_0@, p));
    lemma_field_errors_included(fields@, path, 0, j, 0);
    assert(collapses(fields@[j].outcome));
    assert(output(fields@[j].outcome) == ValueModel::Null);
}

/// A field that succeeds keeps its value when a nullable sibling fails: while
/// no non-null field of the object collapses, the object stands, the failed
/// field's entry is null and the other field's entry is its own completed value.
pub proof fn lemma_sibling_unaffected(fields: Vec<ResolvedField>, failed: int, ok: int)
    requires
        0 <= failed < fields.len(),
        0 <= ok < fields.len(),
        fields[failed].outcome is Failed,
        fields[failed].nullable,
        !collapses(fields[ok].outcome),
        forall|k: int| 0 <= k < fields.len() && !fields[k].nullable ==> !collapses(#[trigger] fields[k].outcome),
    ensures
        !collapses(Resolved::Object(fields)),
        output(Resolved::Object(fields))->Object_0[ok] == (fields[ok].key@, output(fields[ok].outcome)),
        output(Resolved::Object(fields))->Object_0[failed] == (fields[failed].key@, ValueModel::Null),
{
    assert(collapses(fields@[failed].outcome));
    assert(output(fields@[failed].outcome) == ValueModel::Null);
}

/// List items keep their indices: item `i` of the completed list is the
/// completed value of item `i`, whatever order the items were resolved in.
pub proof fn lemma_list_keeps_indices(items_nullable: bool, items: Vec<Resolved>, i: int)
    requires
        0 <= i < items.len(),
        !collapses(Resolved::List(items_nullable, items)),
    ensures
        output(Resolved::List(items_nullable, items))->List_0.len() == items.len(),
        output(Resolved::List(items_nullable, items))->List_0[i] == output(items[i]),
{
}

fn clone_path(p: &Vec<PathSegment>) -> (r: Vec<PathSegment>)
    ensures
        path_model(r@) == path_model(p@),
{
    let mut out: Vec<PathSegment> = Vec::new();
    let mut i: usize = 0;
    while i < p.len()
        invariant
            i <= p.len(),
            out.len() == i,
            forall|j: int| 0 <= j < i ==> (#[trigger] out[j]).model() == p[j].model(),
        decreases p.len() - i,
    {
        let s = match &p[i] {
            PathSegment::Field(name) => PathSegment::Field(name.clone()),
            PathSegment::Index(k) => PathSegment::Index(*k),
        };
        out.push(s);
        i = i + 1;
    }
    assert(path_model(out@) =~= path_model(p@));
    out
}

fn child_path(p: &Vec<PathSegment>, seg: PathSegment) -> (r: Vec<PathSegment>)
    ensures
        path_model(r@) == path_model(p@).push(seg.model()),
{
    let mut r = clone_path(p);
    r.push(seg);
    assert(path_model(r@) =~= path_model(p@).push(seg.model()));
    r
}

fn record(errors: &mut Vec<FieldError>, message: String, path: &Vec<PathSegment>)
    ensures
        errors_model(final(errors)@) == errors_model(old(errors)@).push((message@, path_model(path@))),
{
    let e = FieldError { message, path: clone_path(path) };
    errors.push(e);
    assert(errors_model(errors@) =~= errors_model(old(errors)@).push((message@, path_model(path@))));
}

/// Completes what the resolvers produced for one field at `path`: builds its
/// response value, nulls out every part that a non-null failure reaches, and
/// appends to `errors` one entry for each failure, at the failing path.
pub fn complete_value(o: &Resolved, nullable: bool, path: &Vec<PathSegment>, errors: &mut Vec<FieldError>) -> (r: (Value, bool))
    ensures
        r.0.model() == output(*o),
        r.1 == collapses(*o),
        errors_model(final(errors)@) == errors_model(old(errors)@) + errors_of(*o, nullable, path_model(path@)),
    decreases o,
{
    let ghost p = path_model(path@);
    match o {
        Resolved::Failed(m) => {
            record(errors, m.clone(), path);
            assert(errors_model(errors@) =~= errors_model(old(errors)@) + errors_of(*o, nullable, p));
            (Value::Null, true)
        },
        Resolved::Null => {
            if !nullable {
                record(errors, null_violation(), path);
            }
            assert(errors_model(errors@) =~= errors_model(old(errors)@) + errors_of(*o, nullable, p));
            (Value::Null, true)
        },
        Resolved::Leaf(v) => {
            let c = v.deep_clone();
            let is_null = c.is_null();
            if is_null && !nullable {
                record(errors, null_violation(), path);
            }
            assert(errors_model(errors@) =~= errors_model(old(errors)@) + errors_of(*o, nullable, p));
            (c, is_null)
        },
        Resolved::Object(fields) => {
            let mut out: Vec<(String, Value)> = Vec::new();
            let mut fatal = false;
            let mut i: usize = 0;
            while i < fields.len()
                invariant
                    *o == Resolved::Object(*fields),
                    p == path_model(path@),
                    i <= fields.len(),
                    out.len() == i,
                    forall|j: int| 0 <= j < i ==> (#[trigger] out[j]).0@ == fields[j].key@
                        && model_of(out[j].1) == output(fields[j].outcome),
                    fatal == exists|j: int| 0 <= j < i && !fields[j].nullable && collapses(#[trigger] fields[j].outcome),
                    errors_model(errors@) + fields_errors(fields@, p, i as int)
                        == errors_model(old(errors)@) + fields_errors(fields@, p, 0),
                decreases fields.len() - i,
            {
                proof {
                    assert(decreases_to!(*o => o->Object_0));
                    assert(decreases_to!(o->Object_0 => o->Object_0@));
                    assert(decreases_to!(o->Object_0@ => o->Object_0@[i as int]));
                    assert(decreases_to!(o->Object_0@[i as int] => o->Object_0@[i as int].outcome));
                }
                let f = &fields[i];
                let cp = child_path(path, PathSegment::Field(f.key.clone()));
                let ghost before = errors_model(errors@);
                let (v, c) = complete_value(&f.outcome, f.nullable, &cp, errors);
                proof {
                    let e = errors_of(f.outcome, f.nullable, p.push(SegmentModel::Field(f.key@)));
                    assert(fields_errors(fields@, p, i as int) == e + fields_errors(fields@, p, i + 1));
                    assert(errors_model(errors@) + fields_errors(fields@, p, i + 1)
                        =~= before + fields_errors(fields@, p, i as int));
                }
                if c && !f.nullable {
                    fatal = true;
                }
                out.push((f.key.clone(), v));
                i = i + 1;
            }
            assert(errors_model(errors@) =~= errors_model(old(errors)@) + errors_of(*o, nullable, p));
            if fatal {
                (Value::Null, true)
            } else {
                let r = Value::Object(out);
                assert(r.model()->Object_0 =~= output(*o)->Object_0);
                (r, false)
            }
        },
        Resolved::List(items_nullable, items) => {
            let mut out: Vec<Value> = Vec::new();
            let mut fatal = false;
            let mut i: usize = 0;
            while i < items.len()
                invariant
                    *o == Resolved::List(*items_nullable, *items),
                    p == path_model(path@),
                    i <= items.len(),
                    out.len() == i,
                    forall|j: int| 0 <= j < i ==> model_of(#[trigger] out[j]) == output(items[j]),
                    fatal == (!*items_nullable && exists|j: int| 0 <= j < i && collapses(#[trigger] items[j])),
                    errors_model(errors@) + items_errors(items@, *items_nullable, p, i as int)
                        == errors_model(old(errors)@) + items_errors(items@, *items_nullable, p, 0),
                decreases items.len() - i,
            {
                proof {
                    assert(decreases_to!(*o => o->List_1));
                    assert(decreases_to!(o->List_1 => o->List_1@));
                    assert(decreases_to!(o->List_1@ => o->List_1@[i as int]));
                }
                let cp = child_path(path, PathSegment::Index(i));
                let ghost before = errors_model(errors@);
                let (v, c) = complete_value(&items[i], *items_nullable, &cp, errors);
                proof {
                    let e = errors_of(items[i as int], *items_nullable, p.push(SegmentModel::Index(i as int)));
                    assert(items_errors(items@, *items_nullable, p, i as int) == e + items_errors(items@, *items_nullable, p, i + 1));
                    assert(errors_model(errors@) + items_errors(items@, *items_nullable, p, i + 1)
                        =~= before + items_errors(items@, *items_nullable, p, i as int));
                }
                if c && !*items_nullable {
                    fatal = true;
                }
                out.push(v);
                i = i + 1;
            }
            assert(errors_model(errors@) =~= errors_model(old(errors)@) + errors_of(*o, nullable, p));
            if fatal {
                (Value::Null, true)
            } else {
                let r = Value::List(out);
                assert(r.model()->List_0 =~= output(*o)->List_0);
                (r, false)
            }
        },
    }
}

/// The response to one execution: the data tree, absent when the request
/// failed before execution, and the errors.
#[derive(Debug)]
pub struct Response {
    pub data: Option<Value>,
    pub errors: Vec<FieldError>,
}

/// The response to a request that fails before any field runs (a malformed
/// document, a failed validation, a missing variable): one error, no data.
pub fn request_error(message: String) -> (r: Response)
    ensures
        r.data is None,
        errors_model(r.errors@) == seq![(message@, Seq::<SegmentModel>::empty())],
{
    let mut errors: Vec<FieldError> = Vec::new();
    let path: Vec<PathSegment> = Vec::new();
    record(&mut errors, message, &path);
    assert(errors_model(errors@) =~= seq![(message@, Seq::<SegmentModel>::empty())]) by {
        assert(path_model(path@) =~= Seq::<SegmentModel>::empty());
    }
    Response { data: None, errors }
}

/// Completes the whole result tree. The response root is nullable: a failure
/// that reaches it makes `data` null, while the errors keep their own paths.
pub fn execute(root: &Resolved) -> (r: Response)
    ensures
        r.data is Some,
        r.data->Some_0.model() == output(*root),
        errors_model(r.errors@) == errors_of(*root, true, Seq::empty()),
{
    let mut errors: Vec<FieldError> = Vec::new();
    let path: Vec<PathSegment> = Vec::new();
    let (data, _) = complete_value(root, true, &path, &mut errors);
    assert(path_model(path@) =~= Seq::empty());
    assert(errors_model(errors@) =~= errors_of(*root, true, Seq::empty()));
    Response { data: Some(data), errors }
}

} // verus!
