use async_graphql::context::{aggregate_cache_control, CacheControl, DataBag};
use async_graphql::value::Value;

fn s(x: &str) -> String {
    x.to_string()
}

#[test]
fn data_bag_is_insert_only() {
    let mut bag = DataBag::new();
    assert!(bag.insert(s("user"), Value::Str(s("ann"))));
    assert!(!bag.insert(s("user"), Value::Str(s("bob"))));
    assert!(bag.insert(s("role"), Value::EnumSymbol(s("ADMIN"))));
    assert_eq!(bag.get(&s("user")), Ok(&Value::Str(s("ann"))));
    assert_eq!(bag.get(&s("role")), Ok(&Value::EnumSymbol(s("ADMIN"))));
}

#[test]
fn data_bag_miss_is_an_error() {
    let bag = DataBag::new();
    assert_eq!(bag.get(&s("token")), Err(s("missing required context data")));
}

#[test]
fn cache_control_takes_the_strictest() {
    let a = CacheControl { public: true, max_age: 60 };
    let b = CacheControl { public: false, max_age: 300 };
    assert_eq!(a.merge(&b), CacheControl { public: false, max_age: 60 });
    let base = CacheControl { public: true, max_age: 3600 };
    let all = aggregate_cache_control(base, &vec![b, a]);
    assert_eq!(all, CacheControl { public: false, max_age: 60 });
    assert_eq!(aggregate_cache_control(base, &vec![]), base);
}
