use async_graphql::collect::{collect_fields, eval_condition, is_selected, CollectedField, Condition, Directive, Selection};
use async_graphql::registry::{FieldDef, Registry, RegistryError, TypeDef, TypeKind};
use async_graphql::value::Value;

fn s(x: &str) -> String {
    x.to_string()
}

fn registry() -> Registry {
    let t = |n: &str, kind: TypeKind, possible: Vec<&str>| TypeDef {
        name: s(n),
        kind,
        fields: vec![],
        possible_types: possible.into_iter().map(s).collect(),
    };
    match Registry::new(vec![
        t("Dog", TypeKind::Object, vec![]),
        t("Cat", TypeKind::Object, vec![]),
        t("Pet", TypeKind::Interface, vec!["Dog", "Cat"]),
        t("Walker", TypeKind::Union, vec!["Dog"]),
    ]) {
        Ok(r) => r,
        Err(_) => panic!("names repeat"),
    }
}

fn field(name: &str, directives: Vec<Directive>) -> Selection {
    Selection::Field { name: s(name), alias: None, directives }
}

fn keys(fields: &[CollectedField]) -> Vec<String> {
    fields.iter().map(|f| f.key.clone()).collect()
}

fn skip(b: bool) -> Directive {
    Directive::Skip(Condition::Literal(b))
}

fn keep_if(b: bool) -> Directive {
    Directive::Include(Condition::Literal(b))
}

#[test]
fn skip_true_removes_field() {
    let reg = registry();
    let with = vec![field("a", vec![]), field("b", vec![skip(true)]), field("c", vec![])];
    let without = vec![field("a", vec![]), field("c", vec![])];
    let x = collect_fields(&with, &reg, &s("Dog"), &vec![]).unwrap();
    let y = collect_fields(&without, &reg, &s("Dog"), &vec![]).unwrap();
    assert_eq!(keys(&x), keys(&y));
    assert_eq!(keys(&x), vec![s("a"), s("c")]);
}

#[test]
fn include_false_removes_field() {
    let reg = registry();
    let sels = vec![field("a", vec![keep_if(false)]), field("c", vec![keep_if(true)])];
    let x = collect_fields(&sels, &reg, &s("Dog"), &vec![]).unwrap();
    assert_eq!(keys(&x), vec![s("c")]);
}

#[test]
fn skip_wins_over_include() {
    let vars = vec![];
    assert_eq!(is_selected(&vec![skip(true), keep_if(true)], &vars), Some(false));
    assert_eq!(is_selected(&vec![keep_if(true), skip(true)], &vars), Some(false));
    assert_eq!(is_selected(&vec![skip(false), keep_if(true)], &vars), Some(true));
    assert_eq!(is_selected(&vec![], &vars), Some(true));
}

#[test]
fn directive_conditions_read_variables() {
    let vars = vec![(s("hide"), Value::Boolean(true)), (s("n"), Value::Number(1))];
    assert_eq!(eval_condition(&Condition::Variable(s("hide")), &vars), Some(true));
    assert_eq!(eval_condition(&Condition::Variable(s("n")), &vars), None);
    assert_eq!(eval_condition(&Condition::Variable(s("absent")), &vars), None);
    let reg = registry();
    let sels = vec![field("a", vec![Directive::Skip(Condition::Variable(s("hide")))]), field("b", vec![])];
    let x = collect_fields(&sels, &reg, &s("Dog"), &vars).unwrap();
    assert_eq!(keys(&x), vec![s("b")]);
}

#[test]
fn unbound_directive_variable_is_refused() {
    let reg = registry();
    let sels = vec![field("a", vec![Directive::Include(Condition::Variable(s("nope")))])];
    assert!(collect_fields(&sels, &reg, &s("Dog"), &vec![]).is_none());
}

#[test]
fn fragment_on_interface_applies_to_members_only() {
    let reg = registry();
    let sels = vec![
        field("name", vec![]),
        Selection::Fragment {
            type_condition: Some(s("Pet")),
            directives: vec![],
            selections: vec![field("owner", vec![])],
        },
        Selection::Fragment {
            type_condition: Some(s("Walker")),
            directives: vec![],
            selections: vec![field("leash", vec![])],
        },
    ];
    let dog = collect_fields(&sels, &reg, &s("Dog"), &vec![]).unwrap();
    assert_eq!(keys(&dog), vec![s("name"), s("owner"), s("leash")]);
    let cat = collect_fields(&sels, &reg, &s("Cat"), &vec![]).unwrap();
    assert_eq!(keys(&cat), vec![s("name"), s("owner")]);
    let fish = collect_fields(&sels, &reg, &s("Fish"), &vec![]).unwrap();
    assert_eq!(keys(&fish), vec![s("name")]);
}

#[test]
fn fragment_on_object_type_needs_same_type() {
    let reg = registry();
    assert!(reg.type_condition_matches(&s("Dog"), &s("Dog")));
    assert!(!reg.type_condition_matches(&s("Cat"), &s("Dog")));
    assert!(reg.type_condition_matches(&s("Pet"), &s("Cat")));
    assert!(!reg.type_condition_matches(&s("Walker"), &s("Cat")));
}

#[test]
fn fields_merge_by_response_key() {
    let reg = registry();
    let sels = vec![
        field("a", vec![]),
        Selection::Fragment { type_condition: None, directives: vec![], selections: vec![field("a", vec![]), field("b", vec![])] },
        Selection::Field { name: s("c"), alias: Some(s("a")), directives: vec![] },
    ];
    let x = collect_fields(&sels, &reg, &s("Dog"), &vec![]).unwrap();
    assert_eq!(keys(&x), vec![s("a"), s("b")]);
    assert_eq!(x[0].name, "a");
}

#[test]
fn skipped_fragment_contributes_nothing() {
    let reg = registry();
    let sels = vec![Selection::Fragment {
        type_condition: Some(s("Dog")),
        directives: vec![skip(true)],
        selections: vec![field("a", vec![])],
    }];
    let x = collect_fields(&sels, &reg, &s("Dog"), &vec![]).unwrap();
    assert!(x.is_empty());
}

#[test]
fn registry_find_by_name() {
    let reg = registry();
    assert_eq!(reg.find(&s("Pet")), Some(2));
    assert_eq!(reg.find(&s("Nope")), None);
}

#[test]
fn registry_rejects_undeclared_types() {
    let dog = TypeDef {
        name: s("Dog"),
        kind: TypeKind::Object,
        fields: vec![FieldDef { name: s("owner"), ty: s("Person"), nullable: true }],
        possible_types: vec![],
    };
    match Registry::new(vec![dog]) {
        Err(e) => assert_eq!(e, RegistryError::UndeclaredType(s("Person"))),
        Ok(_) => panic!("undeclared type accepted"),
    }
    let pet = TypeDef { name: s("Pet"), kind: TypeKind::Union, fields: vec![], possible_types: vec![s("Fish")] };
    match Registry::new(vec![pet]) {
        Err(e) => assert_eq!(e, RegistryError::UndeclaredType(s("Fish"))),
        Ok(_) => panic!("undeclared member accepted"),
    }
}

#[test]
fn registry_accepts_self_reference() {
    let node = TypeDef {
        name: s("Node"),
        kind: TypeKind::Object,
        fields: vec![FieldDef { name: s("next"), ty: s("Node"), nullable: true }],
        possible_types: vec![],
    };
    assert!(Registry::new(vec![node]).is_ok());
}
