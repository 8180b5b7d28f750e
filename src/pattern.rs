use vstd::prelude::*;

use crate::types::{Type, TypeView};

verus! {

/// A pattern over one stack slot's type.
#[derive(Debug)]
pub enum MatchInType {
    Any,
    List(Box<MatchInType>),
    Type(Type),
    Generic(String),
}

/// The shape of a type that a fragment leaves on the stack.
#[derive(Debug)]
pub enum MatchOutType {
    Type(Type),
    List(Box<MatchOutType>),
    Generic(String),
}

/// Captured generics: names bound to types, in the order they were bound.
pub type Generics = Seq<(Seq<char>, TypeView)>;

pub open spec fn generics_view(g: Seq<(String, Type)>) -> Generics {
    g.map_values(|p: (String, Type)| (p.0@, p.1@))
}

/// The position of the first binding of `name`, or -1.
pub open spec fn find_generic(g: Generics, name: Seq<char>) -> int {
    if exists|i: int| 0 <= i < g.len() && g[i].0 == name && (forall|j: int| 0 <= j < i ==> g[j].0 != name) {
        choose|i: int| 0 <= i < g.len() && g[i].0 == name && (forall|j: int| 0 <= j < i ==> g[j].0 != name)
    } else {
        -1
    }
}

/// What `name` is bound to, if it is bound.
pub open spec fn lookup_generic(g: Generics, name: Seq<char>) -> Option<TypeView> {
    let i = find_generic(g, name);
    if i >= 0 { Some(g[i].1) } else { None }
}

/// Matching `p` against `t` under the bindings `g`: whether it succeeds, and the bindings after.
/// `Any` matches everything, `List(q)` matches a list whose element type matches `q`, `Type(u)`
/// matches `u` alone, and `Generic(n)` binds `n` on first sight and afterwards matches only what
/// it is bound to.
pub open spec fn match_in(p: MatchInType, t: TypeView, g: Generics) -> (bool, Generics)
    decreases p,
{
    match p {
        MatchInType::Any => (true, g),
        MatchInType::List(q) => match t {
            TypeView::List(inner) => match_in(*q, *inner, g),
            _ => (false, g),
        },
        MatchInType::Type(u) => (u@ == t, g),
        MatchInType::Generic(n) => match lookup_generic(g, n@) {
            Some(bound) => (bound == t, g),
            None => (true, g.push((n@, t))),
        },
    }
}

/// The type that `o` stands for under the bindings `g`, if every generic in it is bound.
pub open spec fn resolve_out(o: MatchOutType, g: Generics) -> Option<TypeView>
    decreases o,
{
    match o {
        MatchOutType::Type(u) => Some(u@),
        MatchOutType::List(q) => match resolve_out(*q, g) {
            Some(inner) => Some(TypeView::List(Box::new(inner))),
            None => None,
        },
        MatchOutType::Generic(n) => lookup_generic(g, n@),
    }
}

/// Finds the first binding of `name`.
fn find_generic_exec(g: &Vec<(String, Type)>, name: &String) -> (r: Option<usize>)
    ensures
        match r {
            Some(i) => i == find_generic(generics_view(g@), name@),
            None => find_generic(generics_view(g@), name@) == -1,
        },
{
    let ghost gv = generics_view(g@);
    let mut i: usize = 0;
    while i < g.len()
        invariant
            i <= g@.len(),
            gv == generics_view(g@),
            forall|j: int| 0 <= j < i ==> (#[trigger] gv[j]).0 != name@,
        decreases g@.len() - i,
    {
        if g[i].0.eq(name) {
            proof {
                assert(gv[i as int].0 == name@);
                let k = find_generic(gv, name@);
                assert(0 <= k < gv.len() && gv[k].0 == name@);
                if k < i {
                    assert(gv[k].0 != name@);
                }
                if k > i {
                    assert(gv[i as int].0 != name@);
                }
            }
            return Some(i);
        }
        i = i + 1;
    }
    None
}

/// Looks up the type bound to `name`.
fn lookup_generic_exec(g: &Vec<(String, Type)>, name: &String) -> (r: Option<Type>)
    ensures
        match r {
            Some(t) => lookup_generic(generics_view(g@), name@) == Some(t@),
            None => lookup_generic(generics_view(g@), name@) is None,
        },
{
    match find_generic_exec(g, name) {
        Some(i) => Some(g[i].1.copy()),
        None => None,
    }
}

impl MatchInType {
    /// Matches this pattern against `ty`, binding generics seen for the first time.
    pub fn matches_and_capture_generics(&self, ty: &Type, generics: &mut Vec<(String, Type)>) -> (r: bool)
        ensures
            (r, generics_view(final(generics)@)) == match_in(*self, ty@, generics_view(old(generics)@)),
        decreases self,
    {
        match self {
            MatchInType::Any => true,
            MatchInType::List(q) => match ty {
                Type::List(inner) => q.matches_and_capture_generics(inner, generics),
                _ => false,
            },
            MatchInType::Type(u) => u.same(ty),
            MatchInType::Generic(n) => match lookup_generic_exec(generics, n) {
                Some(bound) => bound.same(ty),
                None => {
                    let ghost before = generics@;
                    generics.push((n.clone(), ty.copy()));
                    proof {
                        assert(generics_view(generics@) =~= generics_view(before).push((n@, ty@)));
                    }
                    true
                },
            },
        }
    }
}

impl MatchOutType {
    /// The type this shape stands for under `generics`; an unbound generic is an error.
    pub fn try_resolve(&self, generics: &Vec<(String, Type)>) -> (r: Result<Type, ()>)
        ensures
            match r {
                Ok(t) => resolve_out(*self, generics_view(generics@)) == Some(t@),
                Err(_) => resolve_out(*self, generics_view(generics@)) is None,
            },
        decreases self,
    {
        match self {
            MatchOutType::Type(u) => Ok(u.copy()),
            MatchOutType::Generic(n) => match lookup_generic_exec(generics, n) {
                Some(t) => Ok(t),
                None => Err(()),
            },
            MatchOutType::List(q) => match q.try_resolve(generics) {
                Ok(t) => Ok(Type::List(Box::new(t))),
                Err(e) => Err(e),
            },
        }
    }
}

impl MatchInType {
    /// An exact copy of the pattern.
    pub fn copy(&self) -> (r: MatchInType)
        ensures
            r == *self,
        decreases self,
    {
        match self {
            MatchInType::Any => MatchInType::Any,
            MatchInType::List(q) => MatchInType::List(Box::new(q.copy())),
            MatchInType::Type(t) => MatchInType::Type(t.copy()),
            MatchInType::Generic(n) => MatchInType::Generic(n.clone()),
        }
    }
}

impl MatchOutType {
    /// An exact copy of the shape.
    pub fn copy(&self) -> (r: MatchOutType)
        ensures
            r == *self,
        decreases self,
    {
        match self {
            MatchOutType::Type(t) => MatchOutType::Type(t.copy()),
            MatchOutType::List(q) => MatchOutType::List(Box::new(q.copy())),
            MatchOutType::Generic(n) => MatchOutType::Generic(n.clone()),
        }
    }
}

/// A copy of a pattern list with the same elements.
pub fn copy_patterns(v: &Vec<MatchInType>) -> (r: Vec<MatchInType>)
    ensures
        r@ == v@,
{
    let mut r: Vec<MatchInType> = Vec::new();
    let mut i: usize = 0;
    while i < v.len()
        invariant
            i <= v@.len(),
            r@ == v@.take(i as int),
        decreases v@.len() - i,
    {
        r.push(v[i].copy());
        proof {
            assert(r@ =~= v@.take(i + 1));
        }
        i = i + 1;
    }
    proof {
        assert(v@.take(i as int) =~= v@);
    }
    r
}

/// A copy of a list of output shapes with the same elements.
pub fn copy_outputs(v: &Vec<MatchOutType>) -> (r: Vec<MatchOutType>)
    ensures
        r@ == v@,
{
    let mut r: Vec<MatchOutType> = Vec::new();
    let mut i: usize = 0;
    while i < v.len()
        invariant
            i <= v@.len(),
            r@ == v@.take(i as int),
        decreases v@.len() - i,
    {
        r.push(v[i].copy());
        proof {
            assert(r@ =~= v@.take(i + 1));
        }
        i = i + 1;
    }
    proof {
        assert(v@.take(i as int) =~= v@);
    }
    r
}

} // verus!
