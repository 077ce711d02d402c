use async_graphql::collect::{collect_fields, Selection};
use async_graphql::complete::{complete_value, execute, FieldError, PathSegment, Resolved, ResolvedField};
use async_graphql::page_info::PageInfo;
use async_graphql::registry::{FieldDef, Registry, RegistryError, TypeDef, TypeKind};
use async_graphql::resolve::resolve_fields;
use async_graphql::schedule::{root_schedule, OperationKind};
use async_graphql::value::Value;

fn s(x: &str) -> String {
    x.to_string()
}

fn f(key: &str, nullable: bool, outcome: Resolved) -> ResolvedField {
    ResolvedField { key: s(key), nullable, outcome }
}

fn num(n: i64) -> Resolved {
    Resolved::Leaf(Value::Number(n))
}

fn path(segments: Vec<PathSegment>) -> Vec<PathSegment> {
    segments
}

fn key(k: &str) -> PathSegment {
    PathSegment::Field(s(k))
}

#[test]
fn non_null_failure_nulls_nearest_nullable_ancestor() {
    // { a { b { c! } } d } where a is nullable, b is non-null and c fails
    let b = Resolved::Object(vec![f("c", false, Resolved::Failed(s("boom")))]);
    let a = Resolved::Object(vec![f("b", false, b)]);
    let root = Resolved::Object(vec![f("a", true, a), f("d", true, num(1))]);
    let resp = execute(&root);
    assert_eq!(resp.data.unwrap(), Value::Object(vec![(s("a"), Value::Null), (s("d"), Value::Number(1))]));
    assert_eq!(
        resp.errors,
        vec![FieldError { message: s("boom"), path: path(vec![key("a"), key("b"), key("c")]) }]
    );
}

#[test]
fn failure_reaching_root_nulls_data() {
    let root = Resolved::Object(vec![f("a", false, Resolved::Failed(s("boom"))), f("b", true, num(2))]);
    let resp = execute(&root);
    assert_eq!(resp.data.unwrap(), Value::Null);
    assert_eq!(resp.errors, vec![FieldError { message: s("boom"), path: vec![key("a")] }]);
}

#[test]
fn nullable_failure_leaves_sibling_intact() {
    let root = Resolved::Object(vec![f("bad", true, Resolved::Failed(s("no"))), f("good", false, num(7))]);
    let resp = execute(&root);
    assert_eq!(resp.data.unwrap(), Value::Object(vec![(s("bad"), Value::Null), (s("good"), Value::Number(7))]));
    assert_eq!(resp.errors.len(), 1);
}

#[test]
fn sibling_failures_each_recorded() {
    let root = Resolved::Object(vec![
        f("x", true, Resolved::Failed(s("same"))),
        f("y", true, Resolved::Failed(s("same"))),
    ]);
    let resp = execute(&root);
    assert_eq!(
        resp.errors,
        vec![
            FieldError { message: s("same"), path: vec![key("x")] },
            FieldError { message: s("same"), path: vec![key("y")] },
        ]
    );
}

#[test]
fn null_in_non_null_field_is_an_error() {
    let root = Resolved::Object(vec![f("n", false, Resolved::Null), f("m", true, Resolved::Null)]);
    let resp = execute(&root);
    assert_eq!(resp.data.unwrap(), Value::Null);
    assert_eq!(
        resp.errors,
        vec![FieldError { message: s("non-null field resolved to null"), path: vec![key("n")] }]
    );
}

#[test]
fn list_keeps_index_order_and_paths() {
    let items = vec![num(3), Resolved::Failed(s("e")), num(5)];
    let root = Resolved::Object(vec![f("l", true, Resolved::List(true, items))]);
    let resp = execute(&root);
    assert_eq!(
        resp.data.unwrap(),
        Value::Object(vec![(s("l"), Value::List(vec![Value::Number(3), Value::Null, Value::Number(5)]))])
    );
    assert_eq!(resp.errors, vec![FieldError { message: s("e"), path: vec![key("l"), PathSegment::Index(1)] }]);
}

#[test]
fn non_null_list_item_failure_nulls_list() {
    let items = vec![num(3), Resolved::Failed(s("e"))];
    let root = Resolved::Object(vec![f("l", true, Resolved::List(false, items))]);
    let resp = execute(&root);
    assert_eq!(resp.data.unwrap(), Value::Object(vec![(s("l"), Value::Null)]));
}

#[test]
fn complete_value_appends_to_existing_errors() {
    let mut errors = vec![FieldError { message: s("earlier"), path: vec![] }];
    let (v, collapsed) = complete_value(&Resolved::Failed(s("later")), true, &vec![key("q")], &mut errors);
    assert_eq!(v, Value::Null);
    assert!(collapsed);
    assert_eq!(errors.len(), 2);
    assert_eq!(errors[1], FieldError { message: s("later"), path: vec![key("q")] });
}

#[test]
fn alias_reads_the_same_field_twice() {
    // { a, b: a } against { a: 10 }
    let reg = match Registry::new(vec![]) {
        Ok(r) => r,
        Err(_) => panic!("empty registry"),
    };
    let sels = vec![
        Selection::Field { name: s("a"), alias: None, directives: vec![] },
        Selection::Field { name: s("a"), alias: Some(s("b")), directives: vec![] },
    ];
    let fields = collect_fields(&sels, &reg, &s("Query"), &vec![]).unwrap();
    let source = vec![(s("a"), Value::Number(10))];
    let root = Resolved::Object(resolve_fields(&reg, &s("Query"), &source, &fields));
    let resp = execute(&root);
    assert_eq!(resp.data.unwrap(), Value::Object(vec![(s("a"), Value::Number(10)), (s("b"), Value::Number(10))]));
    assert!(resp.errors.is_empty());
}

#[test]
fn missing_source_field_fails() {
    let reg = match Registry::new(vec![]) {
        Ok(r) => r,
        Err(_) => panic!("empty registry"),
    };
    let sels = vec![Selection::Field { name: s("zzz"), alias: None, directives: vec![] }];
    let fields = collect_fields(&sels, &reg, &s("Query"), &vec![]).unwrap();
    let resolved = resolve_fields(&reg, &s("Query"), &vec![(s("a"), Value::Number(1))], &fields);
    let resp = execute(&Resolved::Object(resolved));
    assert_eq!(resp.data.unwrap(), Value::Object(vec![(s("zzz"), Value::Null)]));
    assert_eq!(resp.errors[0].message, "no such field on the source object");
}

#[test]
fn mutation_fields_run_one_at_a_time() {
    assert_eq!(root_schedule(OperationKind::Mutation, 3), vec![vec![0], vec![1], vec![2]]);
    assert_eq!(root_schedule(OperationKind::Query, 3), vec![vec![0, 1, 2]]);
    assert_eq!(root_schedule(OperationKind::Subscription, 0), Vec::<Vec<usize>>::new());
}

#[test]
fn mutation_effects_seen_in_document_order() {
    let mut log: Vec<usize> = Vec::new();
    let mut counter = 0i64;
    let mut results = vec![];
    for batch in root_schedule(OperationKind::Mutation, 2) {
        for i in batch {
            counter += 1;
            log.push(i);
            results.push(counter);
        }
    }
    assert_eq!(log, vec![0, 1]);
    assert_eq!(results, vec![1, 2]);
}

#[test]
fn page_info_resolves_fields() {
    let info = PageInfo {
        has_previous_page: false,
        has_next_page: true,
        start_cursor: Some(s("c1")),
        end_cursor: None,
    };
    let source = match info.to_value() {
        Value::Object(fields) => fields,
        _ => panic!("not an object"),
    };
    assert_eq!(source.len(), 4);
    assert_eq!(source[1], (s("hasNextPage"), Value::Boolean(true)));
    assert_eq!(source[2], (s("startCursor"), Value::Str(s("c1"))));
    assert_eq!(source[3], (s("endCursor"), Value::Null));
}

#[test]
fn registry_rejects_duplicate_names() {
    let t = |n: &str| TypeDef { name: s(n), kind: TypeKind::Object, fields: vec![], possible_types: vec![] };
    match Registry::new(vec![t("A"), t("B"), t("A")]) {
        Err(e) => assert_eq!(e, RegistryError::DuplicateType(s("A"))),
        Ok(_) => panic!("duplicate accepted"),
    }
}

#[test]
fn value_deep_clone_is_equal() {
    let v = Value::Object(vec![(s("k"), Value::List(vec![Value::EnumSymbol(s("RED")), Value::Boolean(true)]))]);
    assert_eq!(v.deep_clone(), v);
}

#[test]
fn request_error_has_no_data() {
    let resp = async_graphql::complete::request_error(s("unknown variable"));
    assert!(resp.data.is_none());
    assert_eq!(resp.errors, vec![FieldError { message: s("unknown variable"), path: vec![] }]);
}

#[test]
fn declared_non_null_field_missing_nulls_data() {
    let query = TypeDef {
        name: s("Query"),
        kind: TypeKind::Object,
        fields: vec![
            FieldDef { name: s("id"), ty: s("Int"), nullable: false },
            FieldDef { name: s("note"), ty: s("Int"), nullable: true },
        ],
        possible_types: vec![],
    };
    let int = TypeDef { name: s("Int"), kind: TypeKind::Scalar, fields: vec![], possible_types: vec![] };
    let reg = match Registry::new(vec![query, int]) {
        Ok(r) => r,
        Err(_) => panic!("registry refused"),
    };
    assert_eq!(reg.field_nullable(&s("Query"), &s("id")), Some(false));
    assert_eq!(reg.field_nullable(&s("Query"), &s("note")), Some(true));
    assert_eq!(reg.field_nullable(&s("Query"), &s("other")), None);
    let sels = vec![
        Selection::Field { name: s("note"), alias: None, directives: vec![] },
        Selection::Field { name: s("id"), alias: None, directives: vec![] },
    ];
    let fields = collect_fields(&sels, &reg, &s("Query"), &vec![]).unwrap();

    let only_note = vec![(s("note"), Value::Number(4))];
    let resp = execute(&Resolved::Object(resolve_fields(&reg, &s("Query"), &only_note, &fields)));
    assert_eq!(resp.data.unwrap(), Value::Null);
    assert_eq!(resp.errors.len(), 1);
    assert_eq!(resp.errors[0].path, vec![key("id")]);

    let only_id = vec![(s("id"), Value::Number(9))];
    let resp = execute(&Resolved::Object(resolve_fields(&reg, &s("Query"), &only_id, &fields)));
    assert_eq!(resp.data.unwrap(), Value::Object(vec![(s("note"), Value::Null), (s("id"), Value::Number(9))]));
    assert_eq!(resp.errors[0].path, vec![key("note")]);
}
