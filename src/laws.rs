use vstd::prelude::*;

use crate::ast::{ItemV, NodeV};
use crate::error::{ErrKind, Loc};
use crate::pattern::{match_in, Generics, MatchInType, MatchOutType};
use crate::semantics::{
    analyze_item, analyze_list_rest, analyze_node, analyze_opt, analyze_program, analyze_seq, analyze_switch_arms,
    bind, first_match, int_on_top, push_outputs, sort_arms, take_inputs, try_pattern, with_stack, with_vars, Outcome, Fault,
};
use crate::state::{find_var, vars_wf, AState};
use crate::types::{descriptor, ElemView, TypeView};

verus! {

/// A program that analyzes successfully leaves the stack empty at its end.
pub proof fn law_program_ends_empty(nodes: Seq<NodeV>, file_index: usize)
    requires
        analyze_program(nodes, file_index) is Ok,
    ensures
        analyze_program(nodes, file_index)->Ok_0.1.stack.len() == 0,
{
}

/// When an `if` with an `else` is accepted, its two branches leave stacks of the same types.
pub proof fn law_if_branches_agree(n: NodeV, a: AState)
    requires
        n.item is If,
        n.item->If_else_body is Some,
        analyze_node(n, a) is Ok,
    ensures
        ({
            let (_h, s1) = analyze_opt(n.item->If_head, a)->Ok_0;
            let (_b, s3) = analyze_node(*n.item->If_body, s1.pop())->Ok_0;
            let (_e, es) = analyze_node(*n.item->If_else_body->Some_0, with_stack(a, s1.pop().stack))->Ok_0;
            &&& analyze_opt(n.item->If_head, a) is Ok
            &&& analyze_node(*n.item->If_body, s1.pop()) is Ok
            &&& analyze_node(*n.item->If_else_body->Some_0, with_stack(a, s1.pop().stack)) is Ok
            &&& s3.types() == es.types()
        }),
{
}

/// Some state with the given stack and variables leads `arm` to end with the types `expected`.
pub open spec fn arm_reaches(
    arm: NodeV,
    stack: Seq<ElemView>,
    vars: Seq<(Seq<char>, crate::types::VarView)>,
    expected: Seq<TypeView>,
) -> bool {
    exists|st: AState|
        #[trigger] analyze_node(arm, with_vars(with_stack(st, stack), vars)) is Ok
            && analyze_node(arm, with_vars(with_stack(st, stack), vars))->Ok_0.1.types() == expected
}

/// Every numbered arm that a `switch` accepts ends with the types that `expected` gives.
pub proof fn lemma_switch_arms_agree(
    all: Seq<(i32, NodeV)>,
    s: Seq<(i32, NodeV)>,
    stack: Seq<ElemView>,
    vars: Seq<(Seq<char>, crate::types::VarView)>,
    expected: Seq<TypeView>,
    sub: AState,
    loc: Loc,
)
    requires
        analyze_switch_arms(all, s, stack, vars, expected, sub, loc) is Ok,
    ensures
        forall|i: int| 0 <= i < s.len() ==> #[trigger] arm_reaches(s[i].1, stack, vars, expected),
    decreases s.len(),
{
    if s.len() > 0 {
        let (_b2, s1) = analyze_node(s[0].1, with_vars(with_stack(sub, stack), vars))->Ok_0;
        lemma_switch_arms_agree(all, s.drop_first(), stack, vars, expected, s1, loc);
        assert forall|i: int| 0 <= i < s.len() implies #[trigger] arm_reaches(s[i].1, stack, vars, expected) by {
            if i == 0 {
                assert(analyze_node(s[0].1, with_vars(with_stack(sub, stack), vars)) is Ok);
            } else {
                assert(s.drop_first()[i - 1] == s[i]);
            }
        }
    }
}

/// When a `switch` is accepted, every numbered arm ends with the types that its `default` arm
/// ends with, and so does the `switch` itself.
pub proof fn law_switch_arms_agree(n: NodeV, a: AState)
    requires
        n.item is Switch,
        analyze_node(n, a) is Ok,
    ensures
        ({
            let a1 = a.pop();
            let (_d, s1) = analyze_node(*n.item->Switch_default, a1)->Ok_0;
            let arms = crate::semantics::sort_arms(n.item->Switch_arms);
            &&& analyze_node(*n.item->Switch_default, a1) is Ok
            &&& analyze_node(n, a)->Ok_0.1.types() == s1.types()
            &&& forall|i: int| 0 <= i < arms.len() ==> #[trigger] arm_reaches(arms[i].1, a1.stack, a1.vars, s1.types())
        }),
{
    let a1 = a.pop();
    let (_d, s1) = analyze_node(*n.item->Switch_default, a1)->Ok_0;
    let arms = crate::semantics::sort_arms(n.item->Switch_arms);
    lemma_switch_arms_agree(n.item->Switch_arms, arms, a1.stack, a1.vars, s1.types(), s1, n.loc);
}

/// A `for` loop that is accepted leaves a stack of the same types as it found.
pub proof fn law_for_keeps_types(n: NodeV, a: AState)
    requires
        n.item is For,
        analyze_node(n, a) is Ok,
    ensures
        analyze_node(n, a)->Ok_0.1.types() == a.types(),
{
    let (_i, s1) = analyze_node(*n.item->For_init, a)->Ok_0;
    let outer = a.push(crate::semantics::int_elem());
    let (_c, s2) = analyze_node(*n.item->For_condition, s1)->Ok_0;
    let s3 = s2.pop();
    assert(s3.types() =~= s2.types().drop_last());
    assert(outer.types().drop_last() =~= a.types());
}

/// A `while` loop whose head pushes exactly one `Int` and is accepted leaves a stack of the
/// same types as it found.
pub proof fn law_while_keeps_types(n: NodeV, a: AState)
    requires
        n.item is While,
        n.item->While_head is Some,
        analyze_opt(n.item->While_head, a) is Ok,
        analyze_opt(n.item->While_head, a)->Ok_0.1.types() == a.types().push(TypeView::Int),
        analyze_node(n, a) is Ok,
    ensures
        analyze_node(n, a)->Ok_0.1.types() == a.types(),
{
    let s1 = analyze_opt(n.item->While_head, a)->Ok_0.1;
    let (_b, s3) = analyze_node(*n.item->While_body, s1.pop())->Ok_0;
    let s4 = analyze_opt(n.item->While_head, s3)->Ok_0.1;
    let expected = s1.pop().types().push(TypeView::Int);
    assert(s1.pop().types() =~= s1.types().drop_last());
    assert(a.types().push(TypeView::Int).drop_last() =~= a.types());
    assert(s4.pop().types() =~= s4.types().drop_last());
    assert(expected.drop_last() =~= s1.pop().types());
    let post = with_vars(s4.pop(), a.vars).forget();
    assert(post.types() =~= s4.pop().types());
}

/// The outer state of a list literal keeps its stack while the elements are analyzed.
pub proof fn lemma_list_rest_keeps_outer(s: Seq<NodeV>, ty: TypeView, outer: AState, sub: AState, loc: Loc)
    requires
        analyze_list_rest(s, ty, outer, sub, loc) is Ok,
    ensures
        analyze_list_rest(s, ty, outer, sub, loc)->Ok_0.1.stack == outer.stack,
    decreases s.len(),
{
    if s.len() > 0 {
        let (_n2, s1) = analyze_node(s[0], with_vars(with_stack(sub, outer.stack), outer.vars))->Ok_0;
        lemma_list_rest_keeps_outer(s.drop_first(), ty, outer.merge_max(s1), s1.pop(), loc);
    }
}

/// An accepted list literal leaves the stack it found with one list on top, whose element type
/// is the one element pushed by the first element (which pushed nothing else).
pub proof fn law_list_literal_pushes_one_list(n: NodeV, a: AState)
    requires
        n.item is ListLiteral,
        analyze_node(n, a) is Ok,
    ensures
        ({
            let (_n0, s1) = analyze_node(n.item->ListLiteral_0[0], a)->Ok_0;
            &&& n.item->ListLiteral_0.len() > 0
            &&& analyze_node(n.item->ListLiteral_0[0], a) is Ok
            &&& s1.stack.len() == a.stack.len() + 1
            &&& s1.pop().types() == a.types()
            &&& analyze_node(n, a)->Ok_0.1.types() == a.types().push(TypeView::List(Box::new(s1.stack.last().ty)))
        }),
{
    let nodes = n.item->ListLiteral_0;
    let (_n0, s1) = analyze_node(nodes[0], a)->Ok_0;
    let ty = s1.stack.last().ty;
    let o0 = a.merge_max(s1.pop());
    lemma_list_rest_keeps_outer(nodes.drop_first(), ty, o0, s1.pop(), n.loc);
    let o = analyze_list_rest(nodes.drop_first(), ty, o0, s1.pop(), n.loc)->Ok_0.1;
    let o2 = o.push(ElemView { ty: TypeView::List(Box::new(ty)), value: None });
    assert(s1.pop().types().len() == s1.stack.len() - 1);
    assert(a.types().len() == a.stack.len());
    assert(o2.require(4).types() =~= a.types().push(TypeView::List(Box::new(ty))));
}

/// Binding a variable keeps every slot already handed out, gives a new name the next slot, and
/// keeps names unique.
pub proof fn law_bind_keeps_slots(vars: Seq<(Seq<char>, crate::types::VarView)>, name: Seq<char>, e: ElemView)
    requires
        vars_wf(vars),
        bind(vars, name, e) is Some,
    ensures
        ({
            let v2 = bind(vars, name, e)->Some_0;
            &&& vars_wf(v2)
            &&& forall|i: int| 0 <= i < vars.len() ==> (#[trigger] v2[i]).0 == vars[i].0 && v2[i].1.index == vars[i].1.index
            &&& find_var(vars, name) < 0 ==> v2.len() == vars.len() + 1 && v2.last().0 == name && v2.last().1.index == vars.len()
        }),
{
    let k = find_var(vars, name);
    if k < 0 {
        let v2 = vars.push((name, crate::types::VarView { index: vars.len(), elem: e }));
        if exists|i: int| 0 <= i < vars.len() && vars[i].0 == name {
            let i = choose|i: int| 0 <= i < vars.len() && vars[i].0 == name;
            assert(forall|j: int| 0 <= j < i ==> vars[j].0 != name);
            assert(false);
        }
        assert forall|i: int, j: int| 0 <= i < v2.len() && 0 <= j < v2.len() && i != j implies #[trigger] v2[i].0 != #[trigger] v2[j].0 by {
            if i < vars.len() && j < vars.len() {
                assert(vars[i].0 != vars[j].0);
            }
        }
    } else {
        let v2 = bind(vars, name, e)->Some_0;
        assert forall|i: int, j: int| 0 <= i < v2.len() && 0 <= j < v2.len() && i != j implies #[trigger] v2[i].0 != #[trigger] v2[j].0 by {
            assert(vars[i].0 != vars[j].0);
        }
    }
}

/// A fragment with no inputs and no outputs leaves the stack as it is and only raises the
/// high-water mark by its extra stack.
pub proof fn law_empty_fragment(name: Seq<char>, extra_stack: usize, body: Seq<char>, loc: Loc, a: AState)
    ensures
        analyze_item(
            ItemV::Jasmin { name, extra_stack, input: Seq::empty(), output: Seq::empty(), body },
            loc,
            a,
        )->Ok_0.post == a.require(extra_stack as int),
        analyze_item(
            ItemV::Jasmin { name, extra_stack, input: Seq::empty(), output: Seq::empty(), body },
            loc,
            a,
        ) is Ok,
        a.require(extra_stack as int).stack == a.stack,
{
}

/// An `if` without `else` whose body leaves the types it found is accepted.
pub proof fn law_if_without_else_neutral(head: Option<Box<NodeV>>, body: NodeV, loc: Loc, a: AState)
    requires
        analyze_opt(head, a) is Ok,
        int_on_top(analyze_opt(head, a)->Ok_0.1),
        analyze_node(body, analyze_opt(head, a)->Ok_0.1.pop()) is Ok,
        analyze_node(body, analyze_opt(head, a)->Ok_0.1.pop())->Ok_0.1.types()
            == analyze_opt(head, a)->Ok_0.1.pop().types(),
    ensures
        analyze_item(ItemV::If { head, body: Box::new(body), else_body: None }, loc, a) is Ok,
{
}

/// An `if` without `else` whose body changes the types on the stack is a type error, reported at
/// the `if`.
pub proof fn law_if_without_else_changing(head: Option<Box<NodeV>>, body: NodeV, loc: Loc, a: AState)
    requires
        analyze_opt(head, a) is Ok,
        int_on_top(analyze_opt(head, a)->Ok_0.1),
        analyze_node(body, analyze_opt(head, a)->Ok_0.1.pop()) is Ok,
        analyze_node(body, analyze_opt(head, a)->Ok_0.1.pop())->Ok_0.1.types()
            != analyze_opt(head, a)->Ok_0.1.pop().types(),
    ensures
        analyze_item(ItemV::If { head, body: Box::new(body), else_body: None }, loc, a) == Err::<Outcome, Fault>((ErrKind::Type, loc)),
{
}

/// A `typeswitch` whose first arm's pattern is a single `any` picks that arm whenever the stack
/// is not empty.
pub proof fn law_typeswitch_any_first(arms: Seq<(Seq<MatchInType>, NodeV)>, a: AState)
    requires
        arms.len() > 0,
        arms[0].0 == seq![MatchInType::Any],
        a.stack.len() > 0,
    ensures
        first_match(arms, 0, a) == Some(0int),
{
    let pats = arms[0].0;
    assert(pats.last() == MatchInType::Any);
    assert(pats.drop_last() =~= Seq::<MatchInType>::empty());
    let g: Generics = Seq::empty();
    assert(match_in(MatchInType::Any, a.stack.last().ty, g) == (true, g));
    assert(try_pattern(pats.drop_last(), a.pop(), g) == (true, g));
    assert(try_pattern(pats, a, g).0);
}

/// Every type's descriptor is `I` or a reference descriptor `L...;`.
pub proof fn law_descriptor_shape(t: TypeView)
    ensures
        descriptor(t) == "I"@ || (descriptor(t).len() >= 2 && descriptor(t)[0] == 'L'
            && descriptor(t)[descriptor(t).len() - 1] == ';'),
{
    reveal_strlit("I");
    reveal_strlit("L");
    reveal_strlit(";");
    reveal_strlit("Ljava/lang/String;");
    reveal_strlit("Ljava/lang/Object;");
    match t {
        TypeView::Object(name) => {
            let d = "L"@ + name + ";"@;
            assert(d[0] == 'L');
            assert(d[d.len() - 1] == ';');
        },
        _ => {},
    }
}

/// The stack high-water mark is at least the current stack height.
pub open spec fn mark_bounds(a: AState) -> bool {
    a.max_stack >= a.stack.len()
}

/// The second state's mark is no lower than the first's, and bounds its stack where the first's did.
pub open spec fn mark_step(a: AState, b: AState) -> bool {
    &&& b.max_stack >= a.max_stack
    &&& mark_bounds(a) ==> mark_bounds(b)
}

proof fn lemma_mark_inputs(pats: Seq<MatchInType>, a: AState, g: Generics, loc: Loc)
    requires
        take_inputs(pats, a, g, loc) is Ok,
    ensures
        mark_step(a, take_inputs(pats, a, g, loc)->Ok_0.0),
    decreases pats.len(),
{
    if pats.len() > 0 {
        let (_ok, g2) = match_in(pats.last(), a.stack.last().ty, g);
        lemma_mark_inputs(pats.drop_last(), a.pop(), g2, loc);
    }
}

proof fn lemma_mark_outputs(outs: Seq<MatchOutType>, a: AState, g: Generics, loc: Loc)
    requires
        push_outputs(outs, a, g, loc) is Ok,
    ensures
        mark_step(a, push_outputs(outs, a, g, loc)->Ok_0),
    decreases outs.len(),
{
    if outs.len() > 0 {
        let t = crate::pattern::resolve_out(outs[0], g)->Some_0;
        lemma_mark_outputs(outs.drop_first(), a.push(ElemView { ty: t, value: None }), g, loc);
    }
}

/// Analyzing a node never lowers the stack high-water mark, and from a state whose mark bounds
/// its stack it ends in such a state.
pub proof fn law_stack_mark(n: NodeV, a: AState)
    requires
        analyze_node(n, a) is Ok,
    ensures
        mark_step(a, analyze_node(n, a)->Ok_0.1),
    decreases n, 1int,
{
    lemma_mark_item(n.item, n.loc, a);
}

proof fn lemma_mark_opt(n: Option<Box<NodeV>>, a: AState)
    requires
        analyze_opt(n, a) is Ok,
    ensures
        mark_step(a, analyze_opt(n, a)->Ok_0.1),
    decreases n, 1int,
{
    if n is Some {
        law_stack_mark(*n->Some_0, a);
    }
}

proof fn lemma_mark_seq(s: Seq<NodeV>, a: AState)
    requires
        analyze_seq(s, a) is Ok,
    ensures
        mark_step(a, analyze_seq(s, a)->Ok_0.1),
    decreases s, 1int,
{
    if s.len() > 0 {
        law_stack_mark(s[0], a);
        let (_n2, a2) = analyze_node(s[0], a)->Ok_0;
        lemma_mark_seq(s.drop_first(), a2);
    }
}

proof fn lemma_mark_list_rest(s: Seq<NodeV>, ty: TypeView, outer: AState, sub: AState, loc: Loc)
    requires
        analyze_list_rest(s, ty, outer, sub, loc) is Ok,
    ensures
        analyze_list_rest(s, ty, outer, sub, loc)->Ok_0.1.max_stack >= outer.max_stack,
        analyze_list_rest(s, ty, outer, sub, loc)->Ok_0.1.stack == outer.stack,
    decreases s, 1int,
{
    if s.len() > 0 {
        law_stack_mark(s[0], with_vars(with_stack(sub, outer.stack), outer.vars));
        let (_n2, s1) = analyze_node(s[0], with_vars(with_stack(sub, outer.stack), outer.vars))->Ok_0;
        lemma_mark_list_rest(s.drop_first(), ty, outer.merge_max(s1), s1.pop(), loc);
    }
}

#[verifier::rlimit(100)]
proof fn lemma_mark_item(i: ItemV, loc: Loc, a: AState)
    requires
        analyze_item(i, loc, a) is Ok,
    ensures
        mark_step(a, analyze_item(i, loc, a)->Ok_0.post),
    decreases i, 1int,
{
    match i {
        ItemV::ListLiteral(nodes) => {
            law_stack_mark(nodes[0], a);
            let (_n0, s1) = analyze_node(nodes[0], a)->Ok_0;
            let ty = s1.stack.last().ty;
            let o0 = a.merge_max(s1.pop());
            lemma_mark_list_rest(nodes.drop_first(), ty, o0, s1.pop(), loc);
            let o = analyze_list_rest(nodes.drop_first(), ty, o0, s1.pop(), loc)->Ok_0.1;
            let o2 = o.push(ElemView { ty: TypeView::List(Box::new(ty)), value: None });
            assert(analyze_item(i, loc, a)->Ok_0.post == o2.require(4));
            assert(o.max_stack >= a.max_stack);
            assert(o2.max_stack >= o2.stack.len());
            assert(o2.max_stack >= o.max_stack);
            let post = o2.require(4);
            assert(post.max_stack >= o2.max_stack);
            assert(post.stack == o2.stack);
            assert(mark_step(a, post));
            assert(mark_step(a, analyze_item(i, loc, a)->Ok_0.post));
        },
        ItemV::If { head, body, else_body } => {
            lemma_mark_opt(head, a);
            let (_h, s1) = analyze_opt(head, a)->Ok_0;
            law_stack_mark(*body, s1.pop());
            if else_body is Some {
                law_stack_mark(*else_body->Some_0, with_stack(a, s1.pop().stack));
            }
            assert(mark_step(a, analyze_item(i, loc, a)->Ok_0.post));
        },
        ItemV::Switch { arms, default } => {
            law_stack_mark(*default, a.pop());
            assert(mark_step(a, analyze_item(i, loc, a)->Ok_0.post));
        },
        ItemV::While { head, body } => {
            lemma_mark_opt(head, a);
            let (_h, s1) = analyze_opt(head, a)->Ok_0;
            law_stack_mark(*body, s1.pop());
            let (_b, s3) = analyze_node(*body, s1.pop())->Ok_0;
            lemma_mark_opt(head, s3);
            let s4 = analyze_opt(head, s3)->Ok_0.1;
            let post = with_vars(s4.pop(), a.vars).forget();
            let expected = s1.pop().types().push(TypeView::Int);
            assert(s4.types() == expected);
            assert(s4.types().len() == s4.stack.len());
            assert(s4.stack.len() > 0);
            assert(s4.pop().stack.len() == s4.stack.len() - 1);
            assert(s1.pop().max_stack == s1.max_stack);
            assert(mark_bounds(s1) ==> mark_bounds(s1.pop()));
            assert(post.stack.len() == s4.pop().stack.len());
            assert(post.max_stack == s4.max_stack);
            assert(analyze_item(i, loc, a)->Ok_0.post == post);
            assert(mark_step(a, post));
        },
        ItemV::For { init, condition, modifier, body } => {
            law_stack_mark(*init, a);
            let (_i, s1) = analyze_node(*init, a)->Ok_0;
            law_stack_mark(*condition, s1);
            let (_c, s2) = analyze_node(*condition, s1)->Ok_0;
            law_stack_mark(*modifier, s2.pop());
            let (_m, s4) = analyze_node(*modifier, s2.pop())->Ok_0;
            law_stack_mark(*body, s4);
            let outer = a.push(crate::semantics::int_elem());
            assert(s2.types().len() == s2.stack.len());
            assert(outer.types().len() == outer.stack.len());
            assert(s2.pop().stack.len() == a.stack.len());
            assert(mark_step(a, analyze_item(i, loc, a)->Ok_0.post));
        },
        ItemV::Block(children) => {
            lemma_mark_seq(children, a);
            assert(mark_step(a, analyze_item(i, loc, a)->Ok_0.post));
        },
        ItemV::Store { initializer, name } => {
            lemma_mark_opt(initializer, a);
            assert(mark_step(a, analyze_item(i, loc, a)->Ok_0.post));
        },
        ItemV::Jasmin { name, extra_stack, input, output, body } => {
            let a1 = a.require(extra_stack as int);
            lemma_mark_inputs(input, a1, Seq::empty(), loc);
            let (a2, g) = take_inputs(input, a1, Seq::empty(), loc)->Ok_0;
            lemma_mark_outputs(output, a2, g, loc);
            assert(mark_step(a, analyze_item(i, loc, a)->Ok_0.post));
        },
        ItemV::TypeSwitch { arms, chosen_index } => {
            let k = first_match(arms, 0, a)->Some_0;
            law_stack_mark(arms[k].1, a);
            assert(mark_step(a, analyze_item(i, loc, a)->Ok_0.post));
        },
        _ => {
            assert(mark_step(a, analyze_item(i, loc, a)->Ok_0.post));
        },
    }
}

proof fn lemma_vars_inputs(pats: Seq<MatchInType>, a: AState, g: Generics, loc: Loc)
    requires
        take_inputs(pats, a, g, loc) is Ok,
    ensures
        take_inputs(pats, a, g, loc)->Ok_0.0.vars == a.vars,
    decreases pats.len(),
{
    if pats.len() > 0 {
        let (_ok, g2) = match_in(pats.last(), a.stack.last().ty, g);
        lemma_vars_inputs(pats.drop_last(), a.pop(), g2, loc);
    }
}

proof fn lemma_vars_outputs(outs: Seq<MatchOutType>, a: AState, g: Generics, loc: Loc)
    requires
        push_outputs(outs, a, g, loc) is Ok,
    ensures
        push_outputs(outs, a, g, loc)->Ok_0.vars == a.vars,
    decreases outs.len(),
{
    if outs.len() > 0 {
        let t = crate::pattern::resolve_out(outs[0], g)->Some_0;
        lemma_vars_outputs(outs.drop_first(), a.push(ElemView { ty: t, value: None }), g, loc);
    }
}

/// Analysis keeps variable names unique and each variable's slot equal to its position, so the
/// slot that a store or load uses is the one its name got when it was first bound.
pub proof fn law_vars_stay_wf(n: NodeV, a: AState)
    requires
        vars_wf(a.vars),
        analyze_node(n, a) is Ok,
    ensures
        vars_wf(analyze_node(n, a)->Ok_0.1.vars),
    decreases n, 1int,
{
    lemma_vars_item(n.item, n.loc, a);
}

proof fn lemma_vars_opt(n: Option<Box<NodeV>>, a: AState)
    requires
        vars_wf(a.vars),
        analyze_opt(n, a) is Ok,
    ensures
        vars_wf(analyze_opt(n, a)->Ok_0.1.vars),
    decreases n, 1int,
{
    if n is Some {
        law_vars_stay_wf(*n->Some_0, a);
    }
}

proof fn lemma_vars_seq(s: Seq<NodeV>, a: AState)
    requires
        vars_wf(a.vars),
        analyze_seq(s, a) is Ok,
    ensures
        vars_wf(analyze_seq(s, a)->Ok_0.1.vars),
    decreases s, 1int,
{
    if s.len() > 0 {
        law_vars_stay_wf(s[0], a);
        let (_n2, a2) = analyze_node(s[0], a)->Ok_0;
        lemma_vars_seq(s.drop_first(), a2);
    }
}

proof fn lemma_list_rest_outer_vars(s: Seq<NodeV>, ty: TypeView, outer: AState, sub: AState, loc: Loc)
    requires
        analyze_list_rest(s, ty, outer, sub, loc) is Ok,
    ensures
        analyze_list_rest(s, ty, outer, sub, loc)->Ok_0.1.vars == outer.vars,
    decreases s.len(),
{
    if s.len() > 0 {
        let (_n2, s1) = analyze_node(s[0], with_vars(with_stack(sub, outer.stack), outer.vars))->Ok_0;
        lemma_list_rest_outer_vars(s.drop_first(), ty, outer.merge_max(s1), s1.pop(), loc);
    }
}

proof fn lemma_vars_item(i: ItemV, loc: Loc, a: AState)
    requires
        vars_wf(a.vars),
        analyze_item(i, loc, a) is Ok,
    ensures
        vars_wf(analyze_item(i, loc, a)->Ok_0.post.vars),
    decreases i, 1int,
{
    match i {
        ItemV::ListLiteral(nodes) => {
            let (_n0, s1) = analyze_node(nodes[0], a)->Ok_0;
            let ty = s1.stack.last().ty;
            lemma_list_rest_outer_vars(nodes.drop_first(), ty, a.merge_max(s1.pop()), s1.pop(), loc);
        },
        ItemV::Block(children) => {
            lemma_vars_seq(children, a);
        },
        ItemV::Store { initializer, name } => {
            lemma_vars_opt(initializer, a);
            let s1 = analyze_opt(initializer, a)->Ok_0.1;
            let s2 = AState { max_vars: if s1.max_vars + 1 > usize::MAX { s1.max_vars } else { s1.max_vars + 1 }, ..s1 };
            law_bind_keeps_slots(s2.pop().vars, name, s2.stack.last());
        },
        ItemV::Jasmin { name, extra_stack, input, output, body } => {
            let a1 = a.require(extra_stack as int);
            lemma_vars_inputs(input, a1, Seq::empty(), loc);
            let (a2, g) = take_inputs(input, a1, Seq::empty(), loc)->Ok_0;
            lemma_vars_outputs(output, a2, g, loc);
        },
        ItemV::TypeSwitch { arms, chosen_index } => {
            let k = first_match(arms, 0, a)->Some_0;
            law_vars_stay_wf(arms[k].1, a);
        },
        _ => {},
    }
}

/// Every accepted store counts one more variable (up to the machine's bound) on top of the count
/// its initializer left.
pub proof fn law_store_counts(n: NodeV, a: AState)
    requires
        n.item is Store,
        analyze_node(n, a) is Ok,
    ensures
        ({
            let s1 = analyze_opt(n.item->Store_initializer, a)->Ok_0.1;
            &&& analyze_opt(n.item->Store_initializer, a) is Ok
            &&& analyze_node(n, a)->Ok_0.1.max_vars == (if s1.max_vars + 1 > usize::MAX { s1.max_vars } else { s1.max_vars + 1 })
        }),
{
}

} // verus!
