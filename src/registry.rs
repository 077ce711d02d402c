use vstd::prelude::*;

verus! {

pub enum TypeKind {
    Scalar,
    Object,
    Interface,
    Union,
    Enum,
    InputObject,
}

/// A field of an object or interface type: its name, the name of its type,
/// and whether that type is nullable.
pub struct FieldDef {
    pub name: String,
    pub ty: String,
    pub nullable: bool,
}

/// A named type of the schema: its fields, and for an interface or a union,
/// the names of the object types that may stand for it at run time.
pub struct TypeDef {
    pub name: String,
    pub kind: TypeKind,
    pub fields: Vec<FieldDef>,
    pub possible_types: Vec<String>,
}

/// Why a set of types cannot form a registry.
#[derive(Debug, PartialEq)]
pub enum RegistryError {
    /// Two types share this name.
    DuplicateType(String),
    /// A field or a possible type names this type, which is not declared.
    UndeclaredType(String),
}

pub open spec fn declared(types: Seq<TypeDef>, name: Seq<char>) -> bool {
    exists|i: int| 0 <= i < types.len() && (#[trigger] types[i]).name@ == name
}

/// Whether type `t` names `name` as the type of a field or as a possible type.
pub open spec fn mentions(t: TypeDef, name: Seq<char>) -> bool {
    (exists|f: int| 0 <= f < t.fields.len() && (#[trigger] t.fields[f]).ty@ == name) || lists(t.possible_types@, name)
}

/// Whether every type that the types name is declared among them.
pub open spec fn references_declared(types: Seq<TypeDef>) -> bool {
    forall|i: int, name: Seq<char>| 0 <= i < types.len() && #[trigger] mentions(types[i], name) ==> declared(types, name)
}

pub open spec fn names_unique(types: Seq<TypeDef>) -> bool {
    forall|i: int, j: int|
        0 <= i < types.len() && 0 <= j < types.len() && i != j ==> (#[trigger] types[i]).name@ != (#[trigger] types[j]).name@
}

pub open spec fn lists(names: Seq<String>, name: Seq<char>) -> bool {
    exists|k: int| 0 <= k < names.len() && (#[trigger] names[k])@ == name
}

/// Whether a value of concrete type `concrete` matches the type condition
/// `condition`: the same type, or a member of that interface or union.
pub open spec fn condition_matches(types: Seq<TypeDef>, condition: Seq<char>, concrete: Seq<char>) -> bool {
    condition == concrete || exists|i: int|
        0 <= i < types.len() && (#[trigger] types[i]).name@ == condition
            && (types[i].kind is Interface || types[i].kind is Union)
            && lists(types[i].possible_types@, concrete)
}

/// The first field named `name` among `fields`.
pub open spec fn field_in(fields: Seq<FieldDef>, name: Seq<char>) -> Option<FieldDef>
    decreases fields.len(),
{
    if fields.len() == 0 {
        None
    } else if fields[0].name@ == name {
        Some(fields[0])
    } else {
        field_in(fields.drop_first(), name)
    }
}

fn declared_in(types: &Vec<TypeDef>, name: &String) -> (r: bool)
    ensures
        r == declared(types@, name@),
{
    let mut i: usize = 0;
    while i < types.len()
        invariant
            i <= types.len(),
            forall|k: int| 0 <= k < i ==> (#[trigger] types[k]).name@ != name@,
        decreases types.len() - i,
    {
        if types[i].name == *name {
            assert(types@[i as int].name@ == name@);
            return true;
        }
        i = i + 1;
    }
    false
}

/// The catalogue of the schema's types, read-only once built.
pub struct Registry {
    types: Vec<TypeDef>,
}

impl Registry {
    pub closed spec fn types(&self) -> Seq<TypeDef> {
        self.types@
    }

    pub closed spec fn wf(&self) -> bool {
        names_unique(self.types@) && references_declared(self.types@)
    }

    /// Builds the registry. It fails with a name that two types share, or
    /// else with a type that a field or a possible type names but that is not
    /// declared.
    pub fn new(types: Vec<TypeDef>) -> (r: Result<Registry, RegistryError>)
        ensures
            r is Ok <==> names_unique(types@) && references_declared(types@),
            r is Ok ==> r->Ok_0.types() == types@ && r->Ok_0.wf(),
            r matches Err(RegistryError::DuplicateType(n)) ==> exists|i: int, j: int|
                0 <= i < j < types.len() && types[i].name@ == types[j].name@ && n@ == types[j].name@,
            r matches Err(RegistryError::UndeclaredType(n)) ==> names_unique(types@) && !declared(types@, n@)
                && exists|i: int| 0 <= i < types.len() && mentions(#[trigger] types[i], n@),
    {
        let mut j: usize = 0;
        while j < types.len()
            invariant
                j <= types.len(),
                forall|a: int, b: int| 0 <= a < b < j ==> types[a].name@ != types[b].name@,
            decreases types.len() - j,
        {
            let mut i: usize = 0;
            while i < j
                invariant
                    i <= j < types.len(),
                    forall|a: int| 0 <= a < i ==> types[a].name@ != types[j as int].name@,
                decreases j - i,
            {
                if types[i].name == types[j].name {
                    proof {
                        assert(!names_unique(types@)) by {
                            assert(types@[i as int].name@ == types@[j as int].name@);
                        }
                    }
                    return Err(RegistryError::DuplicateType(types[j].name.clone()));
                }
                i = i + 1;
            }
            j = j + 1;
        }
        assert(names_unique(types@)) by {
            assert forall|a: int, b: int|
                0 <= a < types.len() && 0 <= b < types.len() && a != b implies (#[trigger] types@[a]).name@ != (#[trigger] types@[b]).name@ by {
                if a < b {
                } else {
                }
            }
        }
        let mut t: usize = 0;
        while t < types.len()
            invariant
                names_unique(types@),
                t <= types.len(),
                forall|i: int, name: Seq<char>| 0 <= i < t && #[trigger] mentions(types[i], name) ==> declared(types@, name),
            decreases types.len() - t,
        {
            let mut f: usize = 0;
            while f < types[t].fields.len()
                invariant
                    names_unique(types@),
                    t < types.len(),
                    f <= types[t as int].fields.len(),
                    forall|g: int| 0 <= g < f ==> declared(types@, (#[trigger] types[t as int].fields[g]).ty@),
                decreases types[t as int].fields.len() - f,
            {
                if !declared_in(&types, &types[t].fields[f].ty) {
                    let n = types[t].fields[f].ty.clone();
                    assert(mentions(types@[t as int], n@));
                    return Err(RegistryError::UndeclaredType(n));
                }
                f = f + 1;
            }
            let mut k: usize = 0;
            while k < types[t].possible_types.len()
                invariant
                    names_unique(types@),
                    t < types.len(),
                    k <= types[t as int].possible_types.len(),
                    forall|g: int| 0 <= g < types[t as int].fields.len() ==> declared(types@, (#[trigger] types[t as int].fields[g]).ty@),
                    forall|g: int| 0 <= g < k ==> declared(types@, (#[trigger] types[t as int].possible_types[g])@),
                decreases types[t as int].possible_types.len() - k,
            {
                if !declared_in(&types, &types[t].possible_types[k]) {
                    let n = types[t].possible_types[k].clone();
                    assert(mentions(types@[t as int], n@));
                    return Err(RegistryError::UndeclaredType(n));
                }
                k = k + 1;
            }
            assert forall|name: Seq<char>| #[trigger] mentions(types@[t as int], name) implies declared(types@, name) by {
                if exists|g: int| 0 <= g < types[t as int].fields.len() && (#[trigger] types[t as int].fields[g]).ty@ == name {
                    let g = choose|g: int| 0 <= g < types[t as int].fields.len() && (#[trigger] types[t as int].fields[g]).ty@ == name;
                    assert(declared(types@, types[t as int].fields[g].ty@));
                } else {
                    let g = choose|g: int| 0 <= g < types[t as int].possible_types.len() && (#[trigger] types[t as int].possible_types[g])@ == name;
                    assert(declared(types@, types[t as int].possible_types[g]@));
                }
            }
            t = t + 1;
        }
        Ok(Registry { types })
    }

    /// The index of the type named `name`.
    pub fn find(&self, name: &String) -> (r: Option<usize>)
        ensures
            r is Some ==> r->Some_0 < self.types().len() && self.types()[r->Some_0 as int].name@ == name@,
            r is None ==> forall|i: int| 0 <= i < self.types().len() ==> (#[trigger] self.types()[i]).name@ != name@,
    {
        let mut i: usize = 0;
        while i < self.types.len()
            invariant
                i <= self.types.len(),
                forall|k: int| 0 <= k < i ==> (#[trigger] self.types[k]).name@ != name@,
            decreases self.types.len() - i,
        {
            if self.types[i].name == *name {
                return Some(i);
            }
            i = i + 1;
        }
        None
    }

    /// The definition of field `field` of the type named `owner`.
    pub open spec fn field_def(&self, owner: Seq<char>, field: Seq<char>) -> Option<FieldDef> {
        if exists|i: int| 0 <= i < self.types().len() && (#[trigger] self.types()[i]).name@ == owner {
            let i = choose|i: int| 0 <= i < self.types().len() && (#[trigger] self.types()[i]).name@ == owner;
            field_in(self.types()[i].fields@, field)
        } else {
            None
        }
    }

    /// Whether field `field` of the type named `owner` is nullable; none where
    /// the type or the field is not declared.
    pub fn field_nullable(&self, owner: &String, field: &String) -> (r: Option<bool>)
        requires
            self.wf(),
        ensures
            r is Some <==> self.field_def(owner@, field@) is Some,
            r is Some ==> r->Some_0 == self.field_def(owner@, field@)->Some_0.nullable,
    {
        match self.find(owner) {
            None => None,
            Some(i) => {
                let fields = &self.types[i].fields;
                proof {
                    let c = choose|c: int| 0 <= c < self.types().len() && (#[trigger] self.types()[c]).name@ == owner@;
                    assert(self.types()[i as int].name@ == owner@);
                    assert(c == i) by {
                        if c != i {
                            assert(names_unique(self.types@));
                            assert(self.types@[c].name@ != self.types@[i as int].name@);
                        }
                    }
                    assert(self.field_def(owner@, field@) == field_in(fields@, field@));
                }
                let ghost m = fields@;
                let mut k: usize = 0;
                assert(m.subrange(0, m.len() as int) =~= m);
                while k < fields.len()
                    invariant
                        m == fields@,
                        self.field_def(owner@, field@) == field_in(m, field@),
                        k <= fields.len(),
                        field_in(m, field@) == field_in(m.subrange(k as int, m.len() as int), field@),
                    decreases fields.len() - k,
                {
                    assert(m.subrange(k as int, m.len() as int).drop_first() =~= m.subrange(k + 1, m.len() as int));
                    assert(m.subrange(k as int, m.len() as int)[0] == m[k as int]);
                    if fields[k].name == *field {
                        return Some(fields[k].nullable);
                    }
                    k = k + 1;
                }
                None
            },
        }
    }

    /// Whether a value of type `concrete` matches the type condition `condition`.
    pub fn type_condition_matches(&self, condition: &String, concrete: &String) -> (r: bool)
        requires
            self.wf(),
        ensures
            r == condition_matches(self.types(), condition@, concrete@),
    {
        if *condition == *concrete {
            return true;
        }
        match self.find(condition) {
            None => false,
            Some(i) => {
                let t = &self.types[i];
                let abstract_kind = match t.kind {
                    TypeKind::Interface => true,
                    TypeKind::Union => true,
                    _ => false,
                };
                if !abstract_kind {
                    assert(!condition_matches(self.types(), condition@, concrete@));
                    return false;
                }
                let mut k: usize = 0;
                while k < t.possible_types.len()
                    invariant
                        i < self.types.len(),
                        *t == self.types@[i as int],
                        self.types@[i as int].name@ == condition@,
                        t.kind is Interface || t.kind is Union,
                        k <= t.possible_types.len(),
                        forall|m: int| 0 <= m < k ==> (#[trigger] t.possible_types[m])@ != concrete@,
                    decreases t.possible_types.len() - k,
                {
                    if t.possible_types[k] == *concrete {
                        assert(lists(t.possible_types@, concrete@));
                        assert(self.types()[i as int] == *t);
                        return true;
                    }
                    k = k + 1;
                }
                assert(!lists(t.possible_types@, concrete@));
                false
            },
        }
    }
}

} // verus!
