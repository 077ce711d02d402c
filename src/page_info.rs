use vstd::prelude::*;
use crate::value::{Value, ValueModel, model_of};

verus! {

/// Information about pagination in a connection.
pub struct PageInfo {
    /// When paginating backwards, are there more items?
    pub has_previous_page: bool,
    /// When paginating forwards, are there more items?
    pub has_next_page: bool,
    /// When paginating backwards, the cursor to continue.
    pub start_cursor: Option<String>,
    /// When paginating forwards, the cursor to continue.
    pub end_cursor: Option<String>,
}

pub open spec fn cursor_model(c: Option<String>) -> ValueModel {
    match c {
        Some(s) => ValueModel::Str(s@),
        None => ValueModel::Null,
    }
}

fn cursor_value(c: &Option<String>) -> (r: Value)
    ensures
        r.model() == cursor_model(*c),
{
    match c {
        Some(s) => Value::Str(s.clone()),
        None => Value::Null,
    }
}

impl PageInfo {
    /// The object that this page info resolves to, under its schema field names.
    pub fn to_value(&self) -> (r: Value)
        ensures
            r.model() == ValueModel::Object(
                seq![
                    ("hasPreviousPage"@, ValueModel::Boolean(self.has_previous_page)),
                    ("hasNextPage"@, ValueModel::Boolean(self.has_next_page)),
                    ("startCursor"@, cursor_model(self.start_cursor)),
                    ("endCursor"@, cursor_model(self.end_cursor)),
                ],
            ),
    {
        let mut fields: Vec<(String, Value)> = Vec::new();
        fields.push(("hasPreviousPage".to_owned(), Value::Boolean(self.has_previous_page)));
        fields.push(("hasNextPage".to_owned(), Value::Boolean(self.has_next_page)));
        fields.push(("startCursor".to_owned(), cursor_value(&self.start_cursor)));
        fields.push(("endCursor".to_owned(), cursor_value(&self.end_cursor)));
        let r = Value::Object(fields);
        assert(fields@[0].0@ == "hasPreviousPage"@);
        assert(model_of(fields@[0].1) == ValueModel::Boolean(self.has_previous_page));
        assert(model_of(fields@[2].1) == cursor_model(self.start_cursor));
        assert(fields@[1].0@ == "hasNextPage"@);
        assert(fields@[2].0@ == "startCursor"@);
        assert(fields@[3].0@ == "endCursor"@);
        assert(model_of(fields@[1].1) == ValueModel::Boolean(self.has_next_page));
        assert(model_of(fields@[3].1) == cursor_model(self.end_cursor));
        assert(r.model()->Object_0.len() == 4);
        assert forall|k: int| 0 <= k < 4 implies r.model()->Object_0[k] == (fields@[k].0@, model_of(fields@[k].1)) by {}
        assert(r.model()->Object_0 =~= seq![
            ("hasPreviousPage"@, ValueModel::Boolean(self.has_previous_page)),
            ("hasNextPage"@, ValueModel::Boolean(self.has_next_page)),
            ("startCursor"@, cursor_model(self.start_cursor)),
            ("endCursor"@, cursor_model(self.end_cursor)),
        ]);
        r
    }
}

} // verus!
