use vstd::prelude::*;

verus! {

/// Built-in types.
#[derive(PartialEq, Eq, Structural, Copy, Clone, Debug)]
pub enum Primitive {
    Int64,
    Float64,
    Bool,
    Char,
}

/// Types of the language.
#[derive(Debug)]
pub enum Type {
    Primitive(Primitive),
    Function(Box<Type>, Box<Type>),
    Union(String, Vec<Type>),
    Alias(String, Box<Type>),
    TypeVariable(String),
}

impl Type {
    pub fn char() -> (t: Type)
        ensures
            t == Type::Primitive(Primitive::Char),
    {
        Type::Primitive(Primitive::Char)
    }
}

/// The named types in scope, later definitions shadowing earlier ones.
pub struct TypeTable {
    entries: Vec<(String, Type)>,
}

/// The type bound to `name` by the last entry that names it.
pub open spec fn lookup_type(entries: Seq<(Seq<char>, Type)>, name: Seq<char>) -> Option<Type>
    decreases entries.len(),
{
    if entries.len() == 0 {
        None
    } else if entries.last().0 == name {
        Some(entries.last().1)
    } else {
        lookup_type(entries.drop_last(), name)
    }
}

impl View for TypeTable {
    type V = Seq<(Seq<char>, Type)>;

    closed spec fn view(&self) -> Seq<(Seq<char>, Type)> {
        self.entries@.map_values(|e: (String, Type)| (e.0@, e.1))
    }
}

impl TypeTable {
    pub fn new() -> (t: TypeTable)
        ensures
            t@ == Seq::<(Seq<char>, Type)>::empty(),
    {
        let t = TypeTable { entries: Vec::new() };
        assert(t@ =~= Seq::<(Seq<char>, Type)>::empty());
        t
    }

    pub fn insert(&mut self, name: String, t: Type)
        ensures
            final(self)@ == old(self)@.push((name@, t)),
    {
        self.entries.push((name, t));
        assert(self@ =~= old(self)@.push((name@, t)));
    }

    pub fn get(&self, name: &String) -> (r: Option<&Type>)
        ensures
            match r {
                Some(t) => lookup_type(self@, name@) == Some(*t),
                None => lookup_type(self@, name@) is None,
            },
    {
        let mut i = self.entries.len();
        assert(self@.subrange(0, i as int) =~= self@);
        while i > 0
            invariant
                i <= self.entries.len(),
                lookup_type(self@, name@) == lookup_type(self@.subrange(0, i as int), name@),
            decreases i,
        {
            assert(self@.subrange(0, i as int).drop_last() =~= self@.subrange(0, i - 1));
            if self.entries[i - 1].0 == *name {
                return Some(&self.entries[i - 1].1);
            }
            i = i - 1;
        }
        None
    }

    pub fn contains_key(&self, name: &String) -> (b: bool)
        ensures
            b == lookup_type(self@, name@) is Some,
    {
        self.get(name).is_some()
    }
}

} // verus!
