use vstd::prelude::*;

use crate::ast::{ItemV, NodeV};
use crate::error::{ErrKind, Loc};
use crate::pattern::{match_in, resolve_out, Generics, MatchInType, MatchOutType};
use crate::state::{find_var, AState};
use crate::types::{ElemView, TypeView, ValueView, VarView};

verus! {

/// An analysis error: its kind and where it was found.
pub type Fault = (ErrKind, Loc);

/// What analyzing one construct yields: the construct with its children annotated, the
/// snapshot recorded on its node, and the state after it.
pub struct Outcome {
    pub item: ItemV,
    pub stack: Seq<ElemView>,
    pub vars: Seq<(Seq<char>, VarView)>,
    pub post: AState,
}

pub open spec fn int_elem() -> ElemView {
    ElemView { ty: TypeView::Int, value: None }
}

/// Whether the top of the stack is an `Int`.
pub open spec fn int_on_top(a: AState) -> bool {
    a.stack.len() > 0 && a.stack.last().ty == TypeView::Int
}

/// The same state with another stack.
pub open spec fn with_stack(a: AState, s: Seq<ElemView>) -> AState {
    AState { stack: s, ..a }
}

/// The same state with another variable table.
pub open spec fn with_vars(a: AState, v: Seq<(Seq<char>, VarView)>) -> AState {
    AState { vars: v, ..a }
}

/// Analyzes a node from state `a`: the node is annotated with `a` before its construct runs.
pub open spec fn analyze_node(n: NodeV, a: AState) -> Result<(NodeV, AState), Fault>
    decreases n, 0int,
{
    match analyze_item(n.item, n.loc, a) {
        Ok(o) => Ok((NodeV { item: o.item, loc: n.loc, stack: Some(o.stack), vars: Some(o.vars) }, o.post)),
        Err(e) => Err(e),
    }
}

/// Analyzes an optional node; an absent node leaves the state as it is.
pub open spec fn analyze_opt(n: Option<Box<NodeV>>, a: AState) -> Result<(Option<Box<NodeV>>, AState), Fault>
    decreases n, 0int,
{
    match n {
        Some(b) => match analyze_node(*b, a) {
            Ok((b2, a2)) => Ok((Some(Box::new(b2)), a2)),
            Err(e) => Err(e),
        },
        None => Ok((None, a)),
    }
}

/// Analyzes nodes one after another on one state.
pub open spec fn analyze_seq(s: Seq<NodeV>, a: AState) -> Result<(Seq<NodeV>, AState), Fault>
    decreases s, 0int,
{
    if s.len() == 0 {
        Ok((s, a))
    } else {
        match analyze_node(s[0], a) {
            Ok((n2, a2)) => match analyze_seq(s.drop_first(), a2) {
                Ok((rest, a3)) => Ok((seq![n2] + rest, a3)),
                Err(e) => Err(e),
            },
            Err(e) => Err(e),
        }
    }
}

/// The elements of a list literal after the first: each is analyzed from the outer stack and
/// variables (keeping the running high-water marks of `sub`), must push exactly one element of
/// type `ty`, and lifts the outer high-water marks.
/// Yields the annotated elements, the outer state and the running state.
pub open spec fn analyze_list_rest(s: Seq<NodeV>, ty: TypeView, outer: AState, sub: AState, loc: Loc)
    -> Result<(Seq<NodeV>, AState, AState), Fault>
    decreases s, 0int,
{
    if s.len() == 0 {
        Ok((s, outer, sub))
    } else {
        match analyze_node(s[0], with_vars(with_stack(sub, outer.stack), outer.vars)) {
            Ok((n2, s1)) => {
                let o1 = outer.merge_max(s1);
                if s1.stack.len() == 0 || s1.stack.last().ty != ty {
                    Err((ErrKind::Type, loc))
                } else if s1.pop().types() != o1.types() {
                    Err((ErrKind::Type, loc))
                } else {
                    match analyze_list_rest(s.drop_first(), ty, o1, s1.pop(), loc) {
                        Ok((rest, o2, s2)) => Ok((seq![n2] + rest, o2, s2)),
                        Err(e) => Err(e),
                    }
                }
            },
            Err(e) => Err(e),
        }
    }
}

/// The numbered arms of a `switch` (`s`, drawn from the arms `all`): each starts from `stack`
/// and `vars` (keeping the running high-water marks) and must end with the types `expected`.
pub open spec fn analyze_switch_arms(
    all: Seq<(i32, NodeV)>,
    s: Seq<(i32, NodeV)>,
    stack: Seq<ElemView>,
    vars: Seq<(Seq<char>, VarView)>,
    expected: Seq<TypeView>,
    sub: AState,
    loc: Loc,
) -> Result<(Seq<(i32, NodeV)>, AState), Fault>
    decreases all, s.len(),
{
    if s.len() == 0 {
        Ok((s, sub))
    } else if !all.contains(s[0]) {
        Err((ErrKind::Compiler, loc))
    } else {
        match analyze_node(s[0].1, with_vars(with_stack(sub, stack), vars)) {
            Ok((b2, s1)) => if s1.types() != expected {
                Err((ErrKind::Type, loc))
            } else {
                match analyze_switch_arms(all, s.drop_first(), stack, vars, expected, s1, loc) {
                    Ok((rest, s2)) => Ok((seq![(s[0].0, b2)] + rest, s2)),
                    Err(e) => Err(e),
                }
            },
            Err(e) => Err(e),
        }
    }
}

/// The position at which an arm labelled `k` joins arms sorted by label: after every arm
/// whose label is not greater.
pub open spec fn label_pos<N>(s: Seq<(i32, N)>, k: i32) -> int {
    if exists|j: int| 0 <= j < s.len() && s[j].0 > k && (forall|i: int| 0 <= i < j ==> s[i].0 <= k) {
        choose|j: int| 0 <= j < s.len() && s[j].0 > k && (forall|i: int| 0 <= i < j ==> s[i].0 <= k)
    } else {
        s.len() as int
    }
}

/// Arms sorted by label; arms with equal labels keep their order.
pub open spec fn sort_arms<N>(s: Seq<(i32, N)>) -> Seq<(i32, N)>
    decreases s.len(),
{
    if s.len() == 0 {
        s
    } else {
        let sorted = sort_arms(s.drop_last());
        sorted.insert(label_pos(sorted, s.last().0), s.last())
    }
}

/// Pops one element per pattern, last pattern first, matching each against the popped type
/// and carrying the captured generics along.
pub open spec fn take_inputs(pats: Seq<MatchInType>, a: AState, g: Generics, loc: Loc) -> Result<(AState, Generics), Fault>
    decreases pats.len(),
{
    if pats.len() == 0 {
        Ok((a, g))
    } else if a.stack.len() == 0 {
        Err((ErrKind::Type, loc))
    } else {
        let (ok, g2) = match_in(pats.last(), a.stack.last().ty, g);
        if !ok {
            Err((ErrKind::Type, loc))
        } else {
            take_inputs(pats.drop_last(), a.pop(), g2, loc)
        }
    }
}

/// Pushes the resolved outputs, first output first, with no constants.
pub open spec fn push_outputs(outs: Seq<MatchOutType>, a: AState, g: Generics, loc: Loc) -> Result<AState, Fault>
    decreases outs.len(),
{
    if outs.len() == 0 {
        Ok(a)
    } else {
        match resolve_out(outs[0], g) {
            Some(t) => push_outputs(outs.drop_first(), a.push(ElemView { ty: t, value: None }), g, loc),
            None => Err((ErrKind::Type, loc)),
        }
    }
}

/// Whether a `typeswitch` pattern matches the top of the stack, and the generics after trying.
pub open spec fn try_pattern(pats: Seq<MatchInType>, a: AState, g: Generics) -> (bool, Generics)
    decreases pats.len(),
{
    if pats.len() == 0 {
        (true, g)
    } else if a.stack.len() == 0 {
        (false, g)
    } else {
        let (ok, g2) = match_in(pats.last(), a.stack.last().ty, g);
        if !ok {
            (false, g2)
        } else {
            try_pattern(pats.drop_last(), a.pop(), g2)
        }
    }
}

/// The first arm, counted from `base`, whose pattern matches; each arm is matched with no
/// generics bound.
pub open spec fn first_match(arms: Seq<(Seq<MatchInType>, NodeV)>, base: int, a: AState) -> Option<int>
    decreases arms.len(),
{
    if arms.len() == 0 {
        None
    } else if try_pattern(arms[0].0, a, Seq::empty()).0 {
        Some(base)
    } else {
        first_match(arms.drop_first(), base + 1, a)
    }
}

/// Binds the popped element `e` to `name`: a known name keeps its slot and type and takes the
/// new constant; a new name gets the next slot.
pub open spec fn bind(vars: Seq<(Seq<char>, VarView)>, name: Seq<char>, e: ElemView) -> Option<Seq<(Seq<char>, VarView)>> {
    let k = find_var(vars, name);
    if k >= 0 {
        if vars[k].1.elem.ty == e.ty {
            Some(vars.update(k, (name, VarView { index: vars[k].1.index, elem: ElemView { ty: e.ty, value: e.value } })))
        } else {
            None
        }
    } else {
        Some(vars.push((name, VarView { index: vars.len(), elem: e })))
    }
}

/// The stack-effect rules of each construct.
pub open spec fn analyze_item(i: ItemV, loc: Loc, a: AState) -> Result<Outcome, Fault>
    decreases i, 0int,
{
    match i {
        ItemV::PushInt(n) => Ok(Outcome {
            item: i,
            stack: a.stack,
            vars: a.vars,
            post: a.push(ElemView { ty: TypeView::Int, value: Some(ValueView::Int(n)) }),
        }),
        ItemV::PushString(s) => Ok(Outcome {
            item: i,
            stack: a.stack,
            vars: a.vars,
            post: a.push(ElemView { ty: TypeView::Str, value: Some(ValueView::Str(s)) }),
        }),
        ItemV::List(t) => Ok(Outcome {
            item: i,
            stack: a.stack,
            vars: a.vars,
            post: a.push(ElemView { ty: TypeView::List(Box::new(t)), value: Some(ValueView::List(Seq::empty())) }).require(1),
        }),
        ItemV::ListLiteral(nodes) => if nodes.len() == 0 {
            Err((ErrKind::Type, loc))
        } else {
            match analyze_node(nodes[0], a) {
                Ok((n0, s1)) => if s1.stack.len() == 0 {
                    Err((ErrKind::Type, loc))
                } else if a.types() != s1.pop().types() {
                    Err((ErrKind::Type, loc))
                } else {
                    let ty = s1.stack.last().ty;
                    match analyze_list_rest(nodes.drop_first(), ty, a.merge_max(s1.pop()), s1.pop(), loc) {
                        Ok((rest, o, _s)) => {
                            let o2 = o.push(ElemView { ty: TypeView::List(Box::new(ty)), value: None });
                            Ok(Outcome { item: ItemV::ListLiteral(seq![n0] + rest), stack: o2.stack, vars: a.vars, post: o2.require(4) })
                        },
                        Err(e) => Err(e),
                    }
                },
                Err(e) => Err(e),
            }
        },
        ItemV::If { head, body, else_body } => match analyze_opt(head, a) {
            Ok((head2, s1)) => if !int_on_top(s1) {
                Err((ErrKind::Type, loc))
            } else {
                let outer = with_stack(a, s1.pop().stack);
                match analyze_node(*body, s1.pop()) {
                    Ok((body2, s3)) => match else_body {
                        Some(e) => match analyze_node(*e, outer) {
                            Ok((e2, es)) => if s3.types() != es.types() {
                                Err((ErrKind::Type, loc))
                            } else {
                                Ok(Outcome {
                                    item: ItemV::If { head: head2, body: Box::new(body2), else_body: Some(Box::new(e2)) },
                                    stack: a.stack,
                                    vars: a.vars,
                                    post: with_stack(outer.merge_max(es).merge_max(s3), s3.stack).forget(),
                                })
                            },
                            Err(e) => Err(e),
                        },
                        None => if s3.types() != outer.types() {
                            Err((ErrKind::Type, loc))
                        } else {
                            Ok(Outcome {
                                item: ItemV::If { head: head2, body: Box::new(body2), else_body: None },
                                stack: a.stack,
                                vars: a.vars,
                                post: with_stack(outer.merge_max(s3), s3.stack).forget(),
                            })
                        },
                    },
                    Err(e) => Err(e),
                }
            },
            Err(e) => Err(e),
        },
        ItemV::Switch { arms, default } => if !int_on_top(a) {
            Err((ErrKind::Type, loc))
        } else {
            let a1 = a.pop();
            match analyze_node(*default, a1) {
                Ok((d2, s1)) => match analyze_switch_arms(arms, sort_arms(arms), a1.stack, a1.vars, s1.types(), s1, loc) {
                    Ok((arms2, s)) => Ok(Outcome {
                        item: ItemV::Switch { arms: arms2, default: Box::new(d2) },
                        stack: a.stack,
                        vars: a.vars,
                        post: with_vars(s1.merge_max(s), a1.vars).forget(),
                    }),
                    Err(e) => Err(e),
                },
                Err(e) => Err(e),
            }
        },
        ItemV::While { head, body } => match analyze_opt(head, a) {
            Ok((_head1, s1)) => if s1.stack.len() == 0 || s1.stack.last().ty != TypeView::Int {
                Err((ErrKind::Type, loc))
            } else {
                let expected = s1.pop().types().push(TypeView::Int);
                match analyze_node(*body, s1.pop()) {
                    Ok((body2, s3)) => match analyze_opt(head, s3) {
                        Ok((head2, s4)) => if s4.types() != expected {
                            Err((ErrKind::Type, loc))
                        } else {
                            Ok(Outcome {
                                item: ItemV::While { head: head2, body: Box::new(body2) },
                                stack: a.stack,
                                vars: a.vars,
                                post: with_vars(s4.pop(), a.vars).forget(),
                            })
                        },
                        Err(e) => Err(e),
                    },
                    Err(e) => Err(e),
                }
            },
            Err(e) => Err(e),
        },
        ItemV::For { init, condition, modifier, body } => match analyze_node(*init, a) {
            Ok((init2, s1)) => {
                let outer = a.push(int_elem());
                match analyze_node(*condition, s1) {
                    Ok((cond2, s2)) => if s2.types() != outer.types() {
                        Err((ErrKind::Type, condition.loc))
                    } else {
                        let s3 = s2.pop();
                        match analyze_node(*modifier, s3) {
                            Ok((mod2, s4)) => if s4.types() != a.types() {
                                Err((ErrKind::Type, condition.loc))
                            } else {
                                match analyze_node(*body, s4) {
                                    Ok((body2, s5)) => if s5.types() != a.types() {
                                        Err((ErrKind::Type, condition.loc))
                                    } else {
                                        Ok(Outcome {
                                            item: ItemV::For {
                                                init: Box::new(init2),
                                                condition: Box::new(cond2),
                                                modifier: Box::new(mod2),
                                                body: Box::new(body2),
                                            },
                                            stack: a.stack,
                                            vars: a.vars,
                                            post: with_stack(outer, s3.stack).merge_max(s5).forget(),
                                        })
                                    },
                                    Err(e) => Err(e),
                                }
                            },
                            Err(e) => Err(e),
                        }
                    },
                    Err(e) => Err(e),
                }
            },
            Err(e) => Err(e),
        },
        ItemV::Block(children) => match analyze_seq(children, a) {
            Ok((c2, a2)) => Ok(Outcome { item: ItemV::Block(c2), stack: a.stack, vars: a.vars, post: a2 }),
            Err(e) => Err(e),
        },
        ItemV::Store { initializer, name } => match analyze_opt(initializer, a) {
            Ok((init2, s1)) => {
                let s2 = AState { max_vars: if s1.max_vars + 1 > usize::MAX { s1.max_vars } else { s1.max_vars + 1 }, ..s1 };
                if s2.stack.len() == 0 {
                    Err((ErrKind::Type, loc))
                } else {
                    match bind(s2.pop().vars, name, s2.stack.last()) {
                        Some(v) => Ok(Outcome {
                            item: ItemV::Store { initializer: init2, name },
                            stack: s1.stack,
                            vars: v,
                            post: with_vars(s2.pop(), v),
                        }),
                        None => Err((ErrKind::Type, loc)),
                    }
                }
            },
            Err(e) => Err(e),
        },
        ItemV::Load(name) => {
            let k = find_var(a.vars, name);
            if k < 0 {
                Err((ErrKind::Type, loc))
            } else {
                Ok(Outcome { item: i, stack: a.stack, vars: a.vars, post: a.push(a.vars[k].1.elem) })
            }
        },
        ItemV::Jasmin { name, extra_stack, input, output, body } => {
            let a1 = a.require(extra_stack as int);
            match take_inputs(input, a1, Seq::empty(), loc) {
                Ok((a2, g)) => match push_outputs(output, a2, g, loc) {
                    Ok(a3) => Ok(Outcome { item: i, stack: a.stack, vars: a.vars, post: a3 }),
                    Err(e) => Err(e),
                },
                Err(e) => Err(e),
            }
        },
        ItemV::TypeSwitch { arms, chosen_index } => match first_match(arms, 0, a) {
            Some(k) => if 0 <= k < arms.len() {
                match analyze_node(arms[k].1, a) {
                    Ok((b2, s)) => Ok(Outcome {
                        item: ItemV::TypeSwitch { arms: arms.update(k, (arms[k].0, b2)), chosen_index: Some(k as usize) },
                        stack: a.stack,
                        vars: a.vars,
                        post: s,
                    }),
                    Err(e) => Err(e),
                }
            } else {
                Err((ErrKind::Type, loc))
            },
            None => Err((ErrKind::Type, loc)),
        },
        ItemV::CmpErr(_) => Err((ErrKind::Compiler, loc)),
    }
}

/// Where a program's end is reported: at its last node, or at the start of an empty file.
pub open spec fn end_loc(nodes: Seq<NodeV>, file_index: usize) -> Loc {
    if nodes.len() > 0 { nodes.last().loc } else { Loc { file_index, row: 1, col: 1 } }
}

/// Analyzes a whole program from the empty state; the stack must be empty at its end.
pub open spec fn analyze_program(nodes: Seq<NodeV>, file_index: usize) -> Result<(Seq<NodeV>, AState), Fault> {
    match analyze_seq(nodes, crate::state::empty_state()) {
        Ok((n2, a)) => if a.stack.len() == 0 {
            Ok((n2, a))
        } else {
            Err((ErrKind::Type, end_loc(nodes, file_index)))
        },
        Err(e) => Err(e),
    }
}

/// `label_pos` lies within the arms.
pub proof fn lemma_label_pos<N>(s: Seq<(i32, N)>, k: i32)
    ensures
        0 <= label_pos(s, k) <= s.len(),
        forall|i: int| 0 <= i < label_pos(s, k) ==> s[i].0 <= k,
        label_pos(s, k) < s.len() ==> s[label_pos(s, k)].0 > k,
{
    if !(exists|j: int| 0 <= j < s.len() && s[j].0 > k && (forall|i: int| 0 <= i < j ==> s[i].0 <= k)) {
        lemma_no_greater_label(s, k, s.len() as int);
    }
}

proof fn lemma_no_greater_label<N>(s: Seq<(i32, N)>, k: i32, n: int)
    requires
        0 <= n <= s.len(),
        !(exists|j: int| 0 <= j < s.len() && s[j].0 > k && (forall|i: int| 0 <= i < j ==> s[i].0 <= k)),
    ensures
        forall|i: int| 0 <= i < n ==> s[i].0 <= k,
    decreases n,
{
    if n > 0 {
        lemma_no_greater_label(s, k, n - 1);
        if s[n - 1].0 > k {
            assert(forall|i: int| 0 <= i < n - 1 ==> s[i].0 <= k);
            assert(false);
        }
    }
}

/// Sorting keeps the number of arms, and every sorted arm is one of the given arms.
pub proof fn lemma_sort_arms_members<N>(s: Seq<(i32, N)>)
    ensures
        sort_arms(s).len() == s.len(),
        forall|j: int| 0 <= j < s.len() ==> s.contains(#[trigger] sort_arms(s)[j]),
    decreases s.len(),
{
    if s.len() > 0 {
        let d = s.drop_last();
        lemma_sort_arms_members(d);
        let sorted = sort_arms(d);
        let p = label_pos(sorted, s.last().0);
        lemma_label_pos(sorted, s.last().0);
        assert forall|j: int| 0 <= j < s.len() implies s.contains(#[trigger] sort_arms(s)[j]) by {
            if j < p {
                assert(sort_arms(s)[j] == sorted[j]);
                let k = choose|k: int| 0 <= k < d.len() && d[k] == sorted[j];
                assert(s[k] == d[k]);
            } else if j == p {
                assert(s[s.len() - 1] == s.last());
            } else {
                assert(sort_arms(s)[j] == sorted[j - 1]);
                let k = choose|k: int| 0 <= k < d.len() && d[k] == sorted[j - 1];
                assert(s[k] == d[k]);
            }
        }
    }
}

/// A matching arm is counted from `base` on.
pub proof fn lemma_first_match_bounds(arms: Seq<(Seq<MatchInType>, NodeV)>, base: int, a: AState)
    ensures
        first_match(arms, base, a) is Some ==> base <= first_match(arms, base, a)->Some_0 < base + arms.len(),
    decreases arms.len(),
{
    if arms.len() > 0 {
        lemma_first_match_bounds(arms.drop_first(), base + 1, a);
    }
}

} // verus!
