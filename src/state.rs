use vstd::prelude::*;
use vstd::math::max;

use crate::error::{AnalyzerErr, Loc};
use crate::types::{ElemView, StackElement, Type, TypeView, VarView, LocalVar};

verus! {

/// The abstract state of the analyzer: an operand stack of types (with optional
/// constants), the bound local variables, and the high-water marks.
#[derive(Debug)]
pub struct AstAnalysis {
    pub stack: Vec<StackElement>,
    pub vars: Vec<(String, LocalVar)>,
    pub max_stack_size: usize,
    pub max_vars_count: usize,
}

/// The mathematical model of the analyzer state.
pub struct AState {
    pub stack: Seq<ElemView>,
    pub vars: Seq<(Seq<char>, VarView)>,
    pub max_stack: int,
    pub max_vars: int,
}

pub open spec fn vars_view(v: Seq<(String, LocalVar)>) -> Seq<(Seq<char>, VarView)> {
    v.map_values(|p: (String, LocalVar)| (p.0@, p.1@))
}

pub open spec fn stack_view(s: Seq<StackElement>) -> Seq<ElemView> {
    s.map_values(|e: StackElement| e@)
}

impl View for AstAnalysis {
    type V = AState;

    open spec fn view(&self) -> AState {
        AState {
            stack: stack_view(self.stack@),
            vars: vars_view(self.vars@),
            max_stack: self.max_stack_size as int,
            max_vars: self.max_vars_count as int,
        }
    }
}

pub open spec fn type_seq_view(v: Seq<Type>) -> Seq<TypeView> {
    v.map_values(|t: Type| t@)
}

/// The types of a stack, bottom first.
pub open spec fn types_of(s: Seq<ElemView>) -> Seq<TypeView> {
    s.map_values(|e: ElemView| e.ty)
}

/// Variable names are unique and each variable's slot is its position.
pub open spec fn vars_wf(vars: Seq<(Seq<char>, VarView)>) -> bool {
    &&& forall|i: int, j: int|
        0 <= i < vars.len() && 0 <= j < vars.len() && i != j ==> #[trigger] vars[i].0 != #[trigger] vars[j].0
    &&& forall|i: int| 0 <= i < vars.len() ==> (#[trigger] vars[i]).1.index == i
}

impl AState {
    pub open spec fn wf(self) -> bool {
        &&& vars_wf(self.vars)
        &&& 0 <= self.max_stack <= usize::MAX
        &&& 0 <= self.max_vars <= usize::MAX
    }

    pub open spec fn with_max_stack(self, m: int) -> AState {
        AState { max_stack: max(self.max_stack, m), ..self }
    }

    /// The stack with one more element on top; the high-water mark follows.
    pub open spec fn push(self, e: ElemView) -> AState {
        AState { stack: self.stack.push(e), ..self }.with_max_stack(self.stack.len() as int + 1)
    }

    /// The stack without its top.
    pub open spec fn pop(self) -> AState {
        AState { stack: self.stack.drop_last(), ..self }
    }

    /// Room for `x` slots above the current stack (saturating at the machine's bound).
    pub open spec fn require(self, x: int) -> AState {
        self.with_max_stack(sat(self.stack.len() as int + x))
    }

    /// High-water marks taken from the larger of the two states.
    pub open spec fn merge_max(self, other: AState) -> AState {
        AState {
            max_stack: max(self.max_stack, other.max_stack),
            max_vars: max(self.max_vars, other.max_vars),
            ..self
        }
    }

    /// Every constant on the stack forgotten.
    pub open spec fn forget(self) -> AState {
        AState { stack: self.stack.map_values(|e: ElemView| ElemView { ty: e.ty, value: None }), ..self }
    }

    pub open spec fn types(self) -> Seq<TypeView> {
        types_of(self.stack)
    }
}

/// `x` bounded by the largest `usize`.
pub open spec fn sat(x: int) -> int {
    if x > usize::MAX { usize::MAX as int } else { x }
}

pub open spec fn empty_state() -> AState {
    AState { stack: Seq::empty(), vars: Seq::empty(), max_stack: 0, max_vars: 0 }
}

impl AstAnalysis {
    pub open spec fn wf(&self) -> bool {
        self@.wf()
    }

    /// An empty state: no stack, no variables, marks at zero.
    pub fn new() -> (r: AstAnalysis)
        ensures
            r@ == empty_state(),
            r.wf(),
    {
        let r = AstAnalysis { stack: Vec::new(), vars: Vec::new(), max_stack_size: 0, max_vars_count: 0 };
        proof {
            assert(r@.stack =~= Seq::empty());
            assert(r@.vars =~= Seq::empty());
        }
        r
    }

    /// The stack's types, bottom first.
    pub fn types(&self) -> (r: Vec<Type>)
        ensures
            type_seq_view(r@) == self@.types(),
    {
        let mut r: Vec<Type> = Vec::new();
        let mut i: usize = 0;
        while i < self.stack.len()
            invariant
                i <= self.stack@.len(),
                r@.len() == i,
                forall|j: int| 0 <= j < i ==> #[trigger] r@[j] == self.stack@[j].ty,
            decreases self.stack@.len() - i,
        {
            let t = self.stack[i].ty.copy();
            r.push(t);
            i = i + 1;
        }
        proof {
            assert forall|j: int| 0 <= j < r@.len() implies #[trigger] type_seq_view(r@)[j]
                == self@.types()[j] by {
                assert(r@[j] == self.stack@[j].ty);
            }
            assert(type_seq_view(r@) =~= self@.types());
        }
        r
    }

    /// Raises the stack high-water mark to leave `x` free slots above the current stack.
    pub fn require_additional_stack_size(&mut self, x: usize)
        ensures
            final(self)@ == old(self)@.require(x as int),
    {
        let want = self.stack.len().saturating_add(x);
        if want > self.max_stack_size {
            self.max_stack_size = want;
        }
    }

    /// Pushes an element and raises the high-water mark.
    pub fn push(&mut self, ty: Type, value: Option<crate::types::Value>)
        ensures
            final(self)@ == old(self)@.push(StackElement { ty, value }@),
    {
        let e = StackElement { ty, value };
        self.stack.push(e);
        if self.stack.len() > self.max_stack_size {
            self.max_stack_size = self.stack.len();
        }
        proof {
            assert(self@.stack =~= old(self)@.stack.push(e@));
        }
    }

    /// Removes and returns the top element, if any.
    pub fn pop(&mut self) -> (r: Option<StackElement>)
        ensures
            old(self)@.stack.len() == 0 ==> r is None && final(self)@ == old(self)@,
            old(self)@.stack.len() > 0 ==> r is Some && r->Some_0@ == old(self)@.stack.last()
                && final(self)@ == old(self)@.pop(),
    {
        let r = self.stack.pop();
        proof {
            if old(self)@.stack.len() > 0 {
                assert(self@.stack =~= old(self)@.stack.drop_last());
            } else {
                assert(self@.stack =~= old(self)@.stack);
            }
        }
        r
    }

    /// Pops the top element; an empty stack is a type error carrying `reason`.
    pub fn expect_any(&mut self, reason: String, loc: Loc) -> (r: Result<StackElement, AnalyzerErr>)
        ensures
            old(self)@.stack.len() == 0 ==> r is Err && r->Err_0 is TypeErr && r->Err_0.at() == loc
                && r->Err_0.message() == reason@ && final(self)@ == old(self)@,
            old(self)@.stack.len() > 0 ==> r is Ok && r->Ok_0@ == old(self)@.stack.last()
                && final(self)@ == old(self)@.pop(),
    {
        match self.pop() {
            Some(e) => Ok(e),
            None => Err(AnalyzerErr::TypeErr(reason, loc)),
        }
    }

    /// Pops the top element, which must be some list.
    pub fn expect_list(&mut self, reason: String, loc: Loc) -> (r: Result<StackElement, AnalyzerErr>)
        ensures
            old(self)@.stack.len() == 0 || !(old(self)@.stack.last().ty is List)
                <==> r is Err,
            r is Err ==> r->Err_0 is TypeErr && r->Err_0.at() == loc && r->Err_0.message() == reason@,
            old(self)@.stack.len() == 0 ==> final(self)@ == old(self)@,
            old(self)@.stack.len() > 0 ==> final(self)@ == old(self)@.pop(),
            r is Ok ==> r->Ok_0@ == old(self)@.stack.last(),
    {
        match self.pop() {
            Some(e) => match e.ty {
                Type::List(_) => Ok(e),
                _ => Err(AnalyzerErr::TypeErr(reason, loc)),
            },
            None => Err(AnalyzerErr::TypeErr(reason, loc)),
        }
    }

    /// Pops the top element, whose type must equal `ty`.
    pub fn expect(&mut self, ty: &Type, reason: String, loc: Loc) -> (r: Result<StackElement, AnalyzerErr>)
        ensures
            old(self)@.stack.len() == 0 || old(self)@.stack.last().ty != ty@ <==> r is Err,
            r is Err ==> r->Err_0 is TypeErr && r->Err_0.at() == loc && r->Err_0.message() == reason@,
            old(self)@.stack.len() == 0 ==> final(self)@ == old(self)@,
            old(self)@.stack.len() > 0 ==> final(self)@ == old(self)@.pop(),
            r is Ok ==> r->Ok_0@ == old(self)@.stack.last(),
    {
        match self.pop() {
            Some(e) => if e.ty.same(ty) {
                Ok(e)
            } else {
                Err(AnalyzerErr::TypeErr(reason, loc))
            },
            None => Err(AnalyzerErr::TypeErr(reason, loc)),
        }
    }

    /// Takes the larger high-water marks of the two states.
    pub fn max_max_values_with(&mut self, other: &AstAnalysis)
        ensures
            final(self)@ == old(self)@.merge_max(other@),
    {
        if other.max_stack_size > self.max_stack_size {
            self.max_stack_size = other.max_stack_size;
        }
        if other.max_vars_count > self.max_vars_count {
            self.max_vars_count = other.max_vars_count;
        }
    }

    /// Forgets every constant on the stack.
    pub fn forget_const_values(&mut self)
        ensures
            final(self)@ == old(self)@.forget(),
    {
        let ghost orig = self.stack@;
        let mut i: usize = 0;
        while i < self.stack.len()
            invariant
                i <= self.stack@.len(),
                self.stack@.len() == orig.len(),
                self.vars == old(self).vars,
                self.max_stack_size == old(self).max_stack_size,
                self.max_vars_count == old(self).max_vars_count,
                forall|j: int| 0 <= j < i ==> (#[trigger] self.stack@[j]).ty == orig[j].ty
                    && self.stack@[j].value is None,
                forall|j: int| i <= j < orig.len() ==> #[trigger] self.stack@[j] == orig[j],
            decreases self.stack@.len() - i,
        {
            self.stack[i].value = None;
            i = i + 1;
        }
        proof {
            assert forall|j: int| 0 <= j < orig.len() implies #[trigger] self@.stack[j]
                == old(self)@.forget().stack[j] by {
                assert(self.stack@[j].ty == orig[j].ty);
            }
            assert(self@.stack =~= old(self)@.forget().stack);
        }
    }
}

/// The position of the first variable named `name`, or -1.
pub open spec fn find_var(vars: Seq<(Seq<char>, VarView)>, name: Seq<char>) -> int {
    if exists|i: int| 0 <= i < vars.len() && vars[i].0 == name && (forall|j: int| 0 <= j < i ==> vars[j].0 != name) {
        choose|i: int| 0 <= i < vars.len() && vars[i].0 == name && (forall|j: int| 0 <= j < i ==> vars[j].0 != name)
    } else {
        -1
    }
}

/// A copy of a stack with the same model.
pub fn copy_stack(s: &Vec<StackElement>) -> (r: Vec<StackElement>)
    ensures
        stack_view(r@) == stack_view(s@),
{
    let mut r: Vec<StackElement> = Vec::new();
    let mut i: usize = 0;
    while i < s.len()
        invariant
            i <= s@.len(),
            r@.len() == i,
            forall|j: int| 0 <= j < i ==> (#[trigger] r@[j])@ == s@[j]@,
        decreases s@.len() - i,
    {
        r.push(s[i].copy());
        i = i + 1;
    }
    proof {
        assert forall|j: int| 0 <= j < r@.len() implies #[trigger] stack_view(r@)[j] == stack_view(s@)[j] by {
            assert(r@[j]@ == s@[j]@);
        }
        assert(stack_view(r@) =~= stack_view(s@));
    }
    r
}

/// A copy of a variable table with the same model.
pub fn copy_vars(v: &Vec<(String, LocalVar)>) -> (r: Vec<(String, LocalVar)>)
    ensures
        vars_view(r@) == vars_view(v@),
{
    let mut r: Vec<(String, LocalVar)> = Vec::new();
    let mut i: usize = 0;
    while i < v.len()
        invariant
            i <= v@.len(),
            r@.len() == i,
            forall|j: int| 0 <= j < i ==> (#[trigger] r@[j]).0@ == v@[j].0@ && r@[j].1@ == v@[j].1@,
        decreases v@.len() - i,
    {
        r.push((v[i].0.clone(), v[i].1.copy()));
        i = i + 1;
    }
    proof {
        assert forall|j: int| 0 <= j < r@.len() implies #[trigger] vars_view(r@)[j] == vars_view(v@)[j] by {
            assert(r@[j].0@ == v@[j].0@ && r@[j].1@ == v@[j].1@);
        }
        assert(vars_view(r@) =~= vars_view(v@));
    }
    r
}

/// Whether two stacks hold the same types, slot by slot.
pub fn same_stack_types(a: &Vec<StackElement>, b: &Vec<StackElement>) -> (r: bool)
    ensures
        r == (types_of(stack_view(a@)) == types_of(stack_view(b@))),
{
    if a.len() != b.len() {
        proof {
            assert(types_of(stack_view(a@)).len() != types_of(stack_view(b@)).len());
        }
        return false;
    }
    let mut i: usize = 0;
    while i < a.len()
        invariant
            i <= a@.len(),
            a@.len() == b@.len(),
            forall|j: int| 0 <= j < i ==> (#[trigger] a@[j]).ty@ == b@[j].ty@,
        decreases a@.len() - i,
    {
        if !a[i].ty.same(&b[i].ty) {
            proof {
                assert(types_of(stack_view(a@))[i as int] != types_of(stack_view(b@))[i as int]);
            }
            return false;
        }
        i = i + 1;
    }
    proof {
        assert forall|j: int| 0 <= j < a@.len() implies #[trigger] types_of(stack_view(a@))[j]
            == types_of(stack_view(b@))[j] by {
            assert(a@[j].ty@ == b@[j].ty@);
        }
        assert(types_of(stack_view(a@)) =~= types_of(stack_view(b@)));
    }
    true
}

/// Whether a stack holds exactly the given types, bottom first.
pub fn stack_has_types(a: &Vec<StackElement>, expected: &Vec<Type>) -> (r: bool)
    ensures
        r == (types_of(stack_view(a@)) == type_seq_view(expected@)),
{
    if a.len() != expected.len() {
        proof {
            assert(types_of(stack_view(a@)).len() != type_seq_view(expected@).len());
        }
        return false;
    }
    let mut i: usize = 0;
    while i < a.len()
        invariant
            i <= a@.len(),
            a@.len() == expected@.len(),
            forall|j: int| 0 <= j < i ==> (#[trigger] a@[j]).ty@ == expected@[j]@,
        decreases a@.len() - i,
    {
        if !a[i].ty.same(&expected[i]) {
            proof {
                assert(types_of(stack_view(a@))[i as int] != type_seq_view(expected@)[i as int]);
            }
            return false;
        }
        i = i + 1;
    }
    proof {
        assert forall|j: int| 0 <= j < a@.len() implies #[trigger] types_of(stack_view(a@))[j]
            == type_seq_view(expected@)[j] by {
            assert(a@[j].ty@ == expected@[j]@);
        }
        assert(types_of(stack_view(a@)) =~= type_seq_view(expected@));
    }
    true
}

impl AstAnalysis {
    /// A copy of the whole state with the same model.
    pub fn copy(&self) -> (r: AstAnalysis)
        ensures
            r@ == self@,
    {
        AstAnalysis {
            stack: copy_stack(&self.stack),
            vars: copy_vars(&self.vars),
            max_stack_size: self.max_stack_size,
            max_vars_count: self.max_vars_count,
        }
    }

    /// The slot of the first variable named `name`, if any.
    pub fn find_var(&self, name: &String) -> (r: Option<usize>)
        ensures
            match r {
                Some(i) => i == find_var(self@.vars, name@),
                None => find_var(self@.vars, name@) == -1,
            },
    {
        let ghost vv = self@.vars;
        let mut i: usize = 0;
        while i < self.vars.len()
            invariant
                i <= self.vars@.len(),
                vv == self@.vars,
                forall|j: int| 0 <= j < i ==> (#[trigger] vv[j]).0 != name@,
            decreases self.vars@.len() - i,
        {
            if self.vars[i].0.eq(name) {
                proof {
                    assert(vv[i as int].0 == name@);
                    let k = find_var(vv, name@);
                    assert(0 <= k < vv.len() && vv[k].0 == name@);
                    if k < i {
                        assert(vv[k].0 != name@);
                    }
                    if k > i {
                        assert(vv[i as int].0 != name@);
                    }
                }
                return Some(i);
            }
            i = i + 1;
        }
        None
    }
}

} // verus!
