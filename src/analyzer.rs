use vstd::prelude::*;
use vstd::string::StringExecFns;

use crate::ast::{AstBase, tarms_view, lemma_tarms_view, arms_view, copy_opt_node, lemma_arms_view, lemma_nodes_view, node_view, nodes_view, opt_node_view, AstItem, AstNode, ItemV, NodeV};
use crate::error::{AnalyzerErr, ErrKind, Loc};
use crate::semantics::{end_loc, Fault, analyze_program, lemma_first_match_bounds, first_match, push_outputs, take_inputs, try_pattern, analyze_item, analyze_list_rest, analyze_node, analyze_opt, analyze_seq, analyze_switch_arms, bind, int_on_top, label_pos, lemma_label_pos, lemma_sort_arms_members, sort_arms, with_stack, with_vars, Outcome};
use crate::state::{copy_stack, copy_vars, stack_view, vars_view, same_stack_types, stack_has_types, type_seq_view, AState, AstAnalysis};
use crate::types::{LocalVar, StackElement, Type, TypeView, Value};
use crate::pattern::{generics_view, MatchInType, MatchOutType};

verus! {

broadcast use vstd::std_specs::vec::group_vec_axioms;

/// `r` and the final node and state are what the analysis of `n` from `a` gives.
pub open spec fn node_result(n: NodeV, a: AState, n2: NodeV, a2: AState, r: Result<(), AnalyzerErr>) -> bool {
    match analyze_node(n, a) {
        Ok((m, b)) => r is Ok && n2 == m && a2 == b,
        Err((k, l)) => r is Err && r->Err_0.kind() == k && r->Err_0.at() == l
            && n2.stack == Some(a.stack) && n2.vars == Some(a.vars) && n2.loc == n.loc,
    }
}

/// The same for the construct of `n`, whose snapshot has already been taken.
pub open spec fn item_result(n: NodeV, a: AState, n2: NodeV, a2: AState, r: Result<(), AnalyzerErr>) -> bool {
    match analyze_item(n.item, n.loc, a) {
        Ok(o) => r is Ok && n2 == (NodeV { item: o.item, loc: n.loc, stack: Some(o.stack), vars: Some(o.vars) })
            && a2 == o.post,
        Err((k, l)) => r is Err && r->Err_0.kind() == k && r->Err_0.at() == l,
    }
}

/// The arms carry, in order, the labels of the other arms sorted stably by label.
pub open spec fn labels_sorted_from(arms: Seq<(i32, AstNode)>, orig: Seq<(i32, AstNode)>) -> bool {
    let sorted = sort_arms(crate::ast::arms_view(orig));
    &&& arms.len() == sorted.len()
    &&& forall|j: int| 0 <= j < arms.len() ==> (#[trigger] arms[j]).0 == sorted[j].0
}

/// Analyzed nodes put in front of what analyzing the rest gives.
pub open spec fn prepend_nodes(done: Seq<NodeV>, r: Result<(Seq<NodeV>, AState), Fault>) -> Result<(Seq<NodeV>, AState), Fault> {
    match r {
        Ok((ns, b)) => Ok((done + ns, b)),
        Err(e) => Err(e),
    }
}

fn type_err(msg: &str, loc: Loc) -> (r: AnalyzerErr)
    ensures
        r is TypeErr,
        r.at() == loc,
{
    AnalyzerErr::TypeErr(String::from_str(msg), loc)
}

/// Analyzed arms put in front of what analyzing the remaining arms gives.
pub open spec fn prepend_arms(done: Seq<(i32, NodeV)>, r: Result<(Seq<(i32, NodeV)>, AState), Fault>)
    -> Result<(Seq<(i32, NodeV)>, AState), Fault> {
    match r {
        Ok((ns, b)) => Ok((done + ns, b)),
        Err(e) => Err(e),
    }
}

/// Analyzed list elements put in front of what analyzing the remaining elements gives.
pub open spec fn prepend_elems(done: Seq<NodeV>, r: Result<(Seq<NodeV>, AState, AState), Fault>)
    -> Result<(Seq<NodeV>, AState, AState), Fault> {
    match r {
        Ok((ns, o, s)) => Ok((done + ns, o, s)),
        Err(e) => Err(e),
    }
}

/// Sorts `switch` arms by label, keeping the order of arms with equal labels.
fn sort_switch_arms(arms: &mut Vec<(i32, AstNode)>)
    ensures
        arms_view(final(arms)@) == sort_arms(arms_view(old(arms)@)),
{
    let ghost orig = arms_view(arms@);
    let n = arms.len();
    proof {
        lemma_arms_view(arms@);
        assert(orig.len() == n);
        assert(orig.skip(0) =~= orig);
        assert(orig.take(0) =~= Seq::<(i32, NodeV)>::empty());
    }
    let mut sorted: Vec<(i32, AstNode)> = Vec::new();
    let mut i: usize = 0;
    while arms.len() > 0
        invariant
            i + arms@.len() == orig.len(),
            orig.len() <= usize::MAX,
            arms_view(sorted@) == sort_arms(orig.take(i as int)),
            arms_view(arms@) == orig.skip(i as int),
        decreases arms@.len(),
    {
        let ghost before = arms@;
        let x = arms.remove(0);
        proof {
            lemma_arms_view(before);
            lemma_arms_view(arms@);
            assert(arms@ =~= before.drop_first());
            assert(x == before[0]);
            assert(arms_view(before)[0] == orig.skip(i as int)[0]);
            assert forall|j: int| 0 <= j < arms@.len() implies #[trigger] arms_view(arms@)[j] == orig.skip(i + 1)[j] by {
                assert(arms@[j] == before[j + 1]);
                assert(arms_view(before)[j + 1] == orig.skip(i as int)[j + 1]);
            }
            assert(arms_view(arms@) =~= orig.skip(i + 1));
            assert((x.0, node_view(x.1)) == orig[i as int]);
        }
        let k = x.0;
        let mut p: usize = 0;
        while p < sorted.len() && sorted[p].0 <= k
            invariant
                p <= sorted@.len(),
                forall|j: int| 0 <= j < p ==> (#[trigger] sorted@[j]).0 <= k,
            decreases sorted@.len() - p,
        {
            p = p + 1;
        }
        let ghost sv = arms_view(sorted@);
        proof {
            lemma_arms_view(sorted@);
            lemma_label_pos(sv, k);
            let lp = label_pos(sv, k);
            if lp < p {
                assert(sv[lp].0 == sorted@[lp].0);
            }
            if p < lp {
                assert(sv[p as int].0 == sorted@[p as int].0);
            }
        }
        let ghost sb = sorted@;
        sorted.insert(p, x);
        proof {
            lemma_arms_view(sorted@);
            lemma_arms_view(sb);
            assert(orig.take(i + 1).drop_last() =~= orig.take(i as int));
            assert(arms_view(sorted@) =~= sv.insert(p as int, orig[i as int]));
        }
        i = i + 1;
    }
    proof {
        assert(orig.take(i as int) =~= orig);
    }
    *arms = sorted;
}

/// Pops one element per input pattern, last pattern first, matching and capturing generics.
fn take_inputs_exec(input: &Vec<MatchInType>, analysis: &mut AstAnalysis, generics: &mut Vec<(String, Type)>, loc: Loc)
    -> (r: Result<(), AnalyzerErr>)
    ensures
        match take_inputs(input@, old(analysis)@, generics_view(old(generics)@), loc) {
            Ok((a2, g)) => r is Ok && final(analysis)@ == a2 && generics_view(final(generics)@) == g,
            Err((k, l)) => r is Err && r->Err_0.kind() == k && r->Err_0.at() == l,
        },
{
    let ghost a1 = analysis@;
    let ghost g1 = generics_view(generics@);
    proof {
        assert(input@.take(input@.len() as int) =~= input@);
    }
    let mut i: usize = input.len();
    while i > 0
        invariant
            i <= input@.len(),
            take_inputs(input@, a1, g1, loc) == take_inputs(input@.take(i as int), analysis@, generics_view(generics@), loc),
            a1 == old(analysis)@,
            g1 == generics_view(old(generics)@),
        decreases i,
    {
        proof {
            assert(input@.take(i as int).last() == input@[i - 1]);
            assert(input@.take(i as int).drop_last() =~= input@.take(i - 1));
        }
        i = i - 1;
        let e = match analysis.expect_any(String::from_str("a fragment's input is missing from the stack"), loc) {
            Ok(e) => e,
            Err(e) => { return Err(e); },
        };
        if !input[i].matches_and_capture_generics(&e.ty, generics) {
            return Err(type_err("a fragment's input does not match the stack", loc));
        }
    }
    proof {
        assert(input@.take(0) =~= Seq::<MatchInType>::empty());
    }
    Ok(())
}

/// Pushes each resolved output in order, with no constant.
fn push_outputs_exec(output: &Vec<MatchOutType>, analysis: &mut AstAnalysis, generics: &Vec<(String, Type)>, loc: Loc)
    -> (r: Result<(), AnalyzerErr>)
    ensures
        match push_outputs(output@, old(analysis)@, generics_view(generics@), loc) {
            Ok(a3) => r is Ok && final(analysis)@ == a3,
            Err((k, l)) => r is Err && r->Err_0.kind() == k && r->Err_0.at() == l,
        },
{
    let ghost a2 = analysis@;
    proof {
        assert(output@.skip(0) =~= output@);
    }
    let mut j: usize = 0;
    while j < output.len()
        invariant
            j <= output@.len(),
            push_outputs(output@, a2, generics_view(generics@), loc)
                == push_outputs(output@.skip(j as int), analysis@, generics_view(generics@), loc),
            a2 == old(analysis)@,
        decreases output@.len() - j,
    {
        proof {
            assert(output@.skip(j as int)[0] == output@[j as int]);
            assert(output@.skip(j as int).drop_first() =~= output@.skip(j + 1));
        }
        match output[j].try_resolve(generics) {
            Ok(t) => {
                analysis.push(t, None);
            },
            Err(_) => {
                return Err(type_err("cannot resolve a fragment's output type", loc));
            },
        }
        j = j + 1;
    }
    proof {
        assert(output@.skip(j as int) =~= Seq::<MatchOutType>::empty());
    }
    Ok(())
}

/// Whether a `typeswitch` pattern matches the top of the stack of `a`, capturing generics.
fn try_arm(pats: &Vec<MatchInType>, a: &AstAnalysis, generics: &mut Vec<(String, Type)>) -> (r: bool)
    ensures
        (r, generics_view(final(generics)@)) == try_pattern(pats@, a@, generics_view(old(generics)@)),
{
    let mut trial = a.copy();
    let ghost g0 = generics_view(generics@);
    proof {
        assert(pats@.take(pats@.len() as int) =~= pats@);
    }
    let mut j: usize = pats.len();
    while j > 0
        invariant
            j <= pats@.len(),
            try_pattern(pats@, a@, g0) == try_pattern(pats@.take(j as int), trial@, generics_view(generics@)),
            g0 == generics_view(old(generics)@),
        decreases j,
    {
        proof {
            assert(pats@.take(j as int).last() == pats@[j - 1]);
            assert(pats@.take(j as int).drop_last() =~= pats@.take(j - 1));
        }
        j = j - 1;
        match trial.pop() {
            Some(e) => {
                if !pats[j].matches_and_capture_generics(&e.ty, generics) {
                    return false;
                }
            },
            None => {
                return false;
            },
        }
    }
    proof {
        assert(pats@.take(j as int) =~= Seq::<MatchInType>::empty());
    }
    true
}

/// The first `typeswitch` arm whose pattern matches the stack of `a`.
fn select_arm(arms: &Vec<(Vec<MatchInType>, Box<AstNode>)>, a: &AstAnalysis) -> (r: Option<usize>)
    ensures
        match first_match(tarms_view(arms@), 0, a@) {
            Some(k) => r is Some && r->Some_0 as int == k && k < arms@.len(),
            None => r is None,
        },
        r is Some ==> r->Some_0 < arms@.len(),
{
    let ghost tv = tarms_view(arms@);
    proof {
        lemma_tarms_view(arms@);
        assert(tv.skip(0) =~= tv);
    }
    proof {
        lemma_first_match_bounds(tv, 0, a@);
    }
    let mut i: usize = 0;
    while i < arms.len()
        invariant
            i <= arms@.len(),
            tv == tarms_view(arms@),
            tv.len() == arms@.len(),
            first_match(tv, 0, a@) == first_match(tv.skip(i as int), i as int, a@),
        decreases arms@.len() - i,
    {
        proof {
            lemma_tarms_view(arms@);
            let sk = tv.skip(i as int);
            assert(sk[0] == tv[i as int]);
            assert(sk.drop_first() =~= tv.skip(i + 1));
        }
        // each arm binds its generics afresh
        let mut generics: Vec<(String, Type)> = Vec::new();
        proof {
            assert(generics_view(generics@) =~= Seq::<(Seq<char>, TypeView)>::empty());
        }
        if try_arm(&arms[i].0, a, &mut generics) {
            return Some(i);
        }
        i = i + 1;
    }
    proof {
        assert(tv.skip(i as int) =~= Seq::<(Seq<MatchInType>, NodeV)>::empty());
    }
    None
}

impl AstNode {
    /// Analyzes this node from `analysis`: records the state on the node, then applies the
    /// construct's stack-effect rule to `analysis`.
    pub fn analyze(&mut self, analysis: &mut AstAnalysis) -> (r: Result<(), AnalyzerErr>)
        ensures
            node_result(old(self)@, old(analysis)@, final(self)@, final(analysis)@, r),
            old(self).inner is CmpErr ==> r is Err && final(analysis)@ == old(analysis)@
                && r->Err_0.message() == old(self).inner->CmpErr_0@ + "\n\tstack: "@ + list_text(old(analysis)@.types()),
            old(self).inner is Load && r is Err ==> final(analysis)@ == old(analysis)@,
            old(self).inner is ListLiteral && old(self).inner->ListLiteral_0@.len() == 0 ==> final(analysis)@ == old(analysis)@,
            old(self).inner is If ==> final(analysis)@.vars == old(analysis)@.vars,
            old(self).inner is Store && old(self).inner->Store_initializer is None && r is Err
                ==> final(analysis)@.vars == old(analysis)@.vars,
            old(self).inner is Switch ==> final(self).inner is Switch
                && labels_sorted_from(final(self).inner->Switch_arms@, old(self).inner->Switch_arms@),
        decreases old(self)@.item, 1int,
    {
        let pre_stack = copy_stack(&analysis.stack);
        let pre_vars = copy_vars(&analysis.vars);
        let loc = self.loc;
        self.stack = Some(copy_stack(&pre_stack));
        self.vars = Some(copy_vars(&pre_vars));
        let res = match &self.inner {
            AstItem::PushInt(n) => {
                analysis.push(Type::Int, Some(Value::Int(*n)));
                Ok(())
            },
            AstItem::PushString(s) => {
                analysis.push(Type::String, Some(Value::String(s.clone())));
                Ok(())
            },
            AstItem::List(_) => {
                self.item_list(analysis);
                Ok(())
            },
            AstItem::Block(_) => self.item_block(analysis),
            AstItem::If { .. } => self.item_if(analysis),
            AstItem::While { .. } => self.item_while(analysis),
            AstItem::For { .. } => self.item_for(analysis),
            AstItem::Store { .. } => self.item_store(analysis),
            AstItem::Switch { .. } => self.item_switch(analysis),
            AstItem::ListLiteral(_) => self.item_list_literal(analysis),
            AstItem::Jasmin { .. } => self.item_jasmin(analysis),
            AstItem::TypeSwitch { .. } => self.item_type_switch(analysis),
            AstItem::Load(_) => self.item_load(analysis),
            AstItem::CmpErr(msg) => {
                let mut text = msg.clone();
                text.append("\n\tstack: ");
                let types = analysis.types();
                text.append(types_text(&types).as_str());
                proof {
                    assert(type_seq_view(types@) == analysis@.types());
                }
                Err(AnalyzerErr::CompilerErr(text, self.loc))
            },
        };
        if res.is_err() {
            // a failed node keeps the state it was reached with
            self.stack = Some(pre_stack);
            self.vars = Some(pre_vars);
            self.loc = loc;
        }
        res
    }

    fn item_list(&self, analysis: &mut AstAnalysis)
        requires
            self.inner is List,
        ensures
            analyze_item(self@.item, self.loc, old(analysis)@) is Ok,
            final(analysis)@ == analyze_item(self@.item, self.loc, old(analysis)@)->Ok_0.post,
    {
        match &self.inner {
            AstItem::List(ty) => {
                let v: Vec<Option<Value>> = Vec::new();
                analysis.push(Type::List(Box::new(ty.copy())), Some(Value::List(v)));
                proof {
                    assert(v@ =~= Seq::<Option<Value>>::empty());
                }
                analysis.require_additional_stack_size(1);
            },
            _ => {},
        }
    }

    fn item_load(&self, analysis: &mut AstAnalysis) -> (r: Result<(), AnalyzerErr>)
        requires
            self.inner is Load,
        ensures
            match analyze_item(self@.item, self.loc, old(analysis)@) {
                Ok(o) => r is Ok && final(analysis)@ == o.post,
                Err((k, l)) => r is Err && r->Err_0.kind() == k && r->Err_0.at() == l,
            },
            r is Err ==> final(analysis)@ == old(analysis)@,
    {
        match &self.inner {
            AstItem::Load(name) => match analysis.find_var(name) {
                Some(k) => {
                    let e = analysis.vars[k].1.elem.copy();
                    analysis.push(e.ty, e.value);
                    Ok(())
                },
                None => Err(type_err("unknown variable", self.loc)),
            },
            _ => Ok(()),
        }
    }

    fn item_block(&mut self, analysis: &mut AstAnalysis) -> (r: Result<(), AnalyzerErr>)
        requires
            old(self).inner is Block,
            old(self)@.stack == Some(old(analysis)@.stack),
            old(self)@.vars == Some(old(analysis)@.vars),
        ensures
            item_result(old(self)@, old(analysis)@, final(self)@, final(analysis)@, r),
        decreases old(self)@.item, 0int,
    {
        match &mut self.inner {
            AstItem::Block(children) => {
                let ghost orig = nodes_view(children@);
                let ghost a0 = analysis@;
                proof {
                    lemma_nodes_view(children@);
                    assert(old(self)@.item == ItemV::Block(orig));
                    assert(orig.skip(0) =~= orig);
                    assert(orig.take(0) + orig =~= orig);
                }
                let mut i: usize = 0;
                while i < children.len()
                    invariant
                        i <= children@.len(),
                        children@.len() == orig.len(),
                        old(self)@.item == ItemV::Block(orig),
                        a0 == old(analysis)@,
                        forall|j: int| i <= j < orig.len() ==> #[trigger] node_view(children@[j]) == orig[j],
                        analyze_seq(orig, a0) == prepend_nodes(nodes_view(children@).take(i as int),
                            analyze_seq(orig.skip(i as int), analysis@)),
                    decreases children@.len() - i,
                {
                    proof {
                        lemma_nodes_view(children@);
                        assert(decreases_to!(old(self)@.item => old(self)@.item->Block_0));
                        assert(decreases_to!(old(self)@.item->Block_0 => old(self)@.item->Block_0[i as int]));
                        assert(decreases_to!(old(self)@.item->Block_0[i as int] => old(self)@.item->Block_0[i as int].item));
                    }
                    let ghost before = children@;
                    let ghost ab = analysis@;
                    let res = children[i].analyze(analysis);
                    proof {
                        lemma_nodes_view(children@);
                        lemma_nodes_view(before);
                        assert(orig.skip(i as int)[0] == orig[i as int]);
                        assert(orig.skip(i as int).drop_first() =~= orig.skip(i + 1));
                        assert(node_view(before[i as int]) == orig[i as int]);
                    }
                    match res {
                        Ok(()) => {},
                        Err(e) => {
                            proof {
                                let sk = orig.skip(i as int);
                                assert(analyze_node(sk[0], ab) == Err::<(NodeV, AState), Fault>((e.kind(), e.at())));
                                assert(analyze_seq(sk, ab) == Err::<(Seq<NodeV>, AState), Fault>((e.kind(), e.at())));
                                assert(analyze_seq(orig, a0) == Err::<(Seq<NodeV>, AState), Fault>((e.kind(), e.at())));
                                assert(a0 == old(analysis)@);
                                assert(analyze_item(old(self)@.item, old(self).loc, old(analysis)@) == Err::<Outcome, Fault>((e.kind(), e.at())));
                            }
                            return Err(e);
                        },
                    }
                    proof {
                        assert(nodes_view(children@).take(i + 1) =~= nodes_view(before).take(i as int).push(node_view(children@[i as int])));
                        let rest = analyze_seq(orig.skip(i + 1), analysis@);
                        if rest is Ok {
                            assert(nodes_view(before).take(i as int) + (seq![node_view(children@[i as int])] + rest->Ok_0.0)
                                =~= nodes_view(children@).take(i + 1) + rest->Ok_0.0);
                        }
                    }
                    i = i + 1;
                }
                proof {
                    lemma_nodes_view(children@);
                    assert(orig.skip(i as int) =~= Seq::<NodeV>::empty());
                    assert(nodes_view(children@).take(i as int) + Seq::<NodeV>::empty() =~= nodes_view(children@));
                }
                Ok(())
            },
            _ => Ok(()),
        }
    }

    fn item_if(&mut self, analysis: &mut AstAnalysis) -> (r: Result<(), AnalyzerErr>)
        requires
            old(self).inner is If,
            old(self)@.stack == Some(old(analysis)@.stack),
            old(self)@.vars == Some(old(analysis)@.vars),
        ensures
            item_result(old(self)@, old(analysis)@, final(self)@, final(analysis)@, r),
            final(analysis)@.vars == old(analysis)@.vars,
        decreases old(self)@.item, 0int,
    {
        let loc = self.loc;
        let res = match &mut self.inner {
            AstItem::If { head, body, else_body } => {
                let ghost it = old(self)@.item;
                let ghost a0 = analysis@;
                let mut sub = analysis.copy();
                let ghost hv = *head;
                proof {
                    assert(it->If_head == opt_node_view(hv));
                }
                match head {
                    Some(h) => {
                        proof {
                            assert(hv == Some(*h));
                            assert(decreases_to!(it => it->If_head));
                            assert(decreases_to!(it->If_head => it->If_head->Some_0));
                            assert(decreases_to!(it->If_head->Some_0 => it->If_head->Some_0.item));
                        }
                        let hr = h.analyze(&mut sub);
                        match hr {
                            Ok(()) => {},
                            Err(e) => { return Err(e); },
                        }
                    },
                    None => {},
                }
                let ghost s1 = sub@;
                proof {
                    assert(analyze_opt(it->If_head, a0) == Ok::<(Option<Box<NodeV>>, AState), Fault>((opt_node_view(*head), s1)));
                }
                let c = sub.expect(&Type::Int, String::from_str("expected Int (implicit boolean) on stack for `If`-condition"), loc);
                match c {
                    Ok(_) => {},
                    Err(e) => { return Err(e); },
                }
                analysis.stack = copy_stack(&sub.stack);
                proof {
                    assert(decreases_to!(it => it->If_body));
                    assert(decreases_to!(it->If_body => it->If_body.item));
                }
                let br = body.analyze(&mut sub);
                match br {
                    Ok(()) => {},
                    Err(e) => { return Err(e); },
                }
                let ghost ev = *else_body;
                proof {
                    assert(it->If_else_body == opt_node_view(ev));
                }
                let ghost s3 = sub@;
                let ghost b2 = node_view(**body);
                proof {
                    assert(analyze_node(*it->If_body, s1.pop()) == Ok::<(NodeV, AState), Fault>((b2, s3)));
                }
                match else_body {
                    Some(eb) => {
                        let mut else_an = analysis.copy();
                        proof {
                            assert(ev == Some(*eb));
                            assert(decreases_to!(it => it->If_else_body));
                            assert(decreases_to!(it->If_else_body => it->If_else_body->Some_0));
                            assert(decreases_to!(it->If_else_body->Some_0 => it->If_else_body->Some_0.item));
                        }
                        let er = eb.analyze(&mut else_an);
                        match er {
                            Ok(()) => {},
                            Err(e) => { return Err(e); },
                        }
                        if !same_stack_types(&sub.stack, &else_an.stack) {
                            return Err(type_err("`if` and `else` don't alter the stack the same way", loc));
                        }
                        analysis.max_max_values_with(&else_an);
                    },
                    None => {
                        if !same_stack_types(&sub.stack, &analysis.stack) {
                            return Err(type_err("`if` alters the stack but has no `else`", loc));
                        }
                    },
                }
                analysis.max_max_values_with(&sub);
                analysis.stack = sub.stack;
                analysis.forget_const_values();
                proof {
                    let o = analyze_item(it, old(self).loc, a0)->Ok_0;
                    assert(analyze_item(it, old(self).loc, a0) is Ok);
                    assert(o.item == ItemV::If { head: opt_node_view(*head), body: Box::new(b2), else_body: opt_node_view(*else_body) });
                    assert(o.post == analysis@);

                }
                Ok(())
            },
            _ => Ok(()),
        };
        res
    }

    fn item_while(&mut self, analysis: &mut AstAnalysis) -> (r: Result<(), AnalyzerErr>)
        requires
            old(self).inner is While,
            old(self)@.stack == Some(old(analysis)@.stack),
            old(self)@.vars == Some(old(analysis)@.vars),
        ensures
            item_result(old(self)@, old(analysis)@, final(self)@, final(analysis)@, r),
        decreases old(self)@.item, 0int,
    {
        let loc = self.loc;
        let res = match &mut self.inner {
            AstItem::While { head, body } => {
                let ghost it = old(self)@.item;
                let ghost a0 = analysis@;
                // the variables bound inside the loop do not leak out of it
                let vars = copy_vars(&analysis.vars);
                let ghost hv = *head;
                proof {
                    assert(it->While_head == opt_node_view(hv));
                }
                // the head is analyzed a second time, as it stands in the source
                let pristine = copy_opt_node(head);
                match head {
                    Some(h) => {
                        proof {
                            assert(hv == Some(*h));
                            assert(decreases_to!(it => it->While_head));
                            assert(decreases_to!(it->While_head => it->While_head->Some_0));
                            assert(decreases_to!(it->While_head->Some_0 => it->While_head->Some_0.item));
                        }
                        let hr = h.analyze(analysis);
                        match hr {
                            Ok(()) => {},
                            Err(e) => { return Err(e); },
                        }
                    },
                    None => {},
                }
                let ghost s1 = analysis@;
                let c = analysis.expect(&Type::Int, String::from_str("expected Int (implicit boolean) on stack before `while`-condition"), loc);
                match c {
                    Ok(_) => {},
                    Err(e) => { return Err(e); },
                }
                let mut expected = analysis.types();
                let ghost before_push = expected@;
                expected.push(Type::Int);
                proof {
                    assert(type_seq_view(expected@) =~= type_seq_view(before_push).push(TypeView::Int));
                    assert(decreases_to!(it => it->While_body));
                    assert(decreases_to!(it->While_body => it->While_body.item));
                }
                let br = body.analyze(analysis);
                match br {
                    Ok(()) => {},
                    Err(e) => { return Err(e); },
                }
                let ghost s3 = analysis@;
                let ghost b2 = node_view(**body);
                *head = pristine;
                match head {
                    Some(h) => {
                        proof {
                            assert(decreases_to!(it => it->While_head));
                            assert(decreases_to!(it->While_head => it->While_head->Some_0));
                            assert(decreases_to!(it->While_head->Some_0 => it->While_head->Some_0.item));
                        }
                        let hr = h.analyze(analysis);
                        match hr {
                            Ok(()) => {},
                            Err(e) => { return Err(e); },
                        }
                    },
                    None => {},
                }
                let ghost s4 = analysis@;
                if !stack_has_types(&analysis.stack, &expected) {
                    return Err(type_err("`while` loop may not alter the stack beyond pushing the condition", loc));
                }
                analysis.pop();
                analysis.vars = vars;
                analysis.forget_const_values();
                proof {
                    assert(analyze_node(*it->While_body, s1.pop()) == Ok::<(NodeV, AState), Fault>((b2, s3)));
                    let o = analyze_item(it, old(self).loc, a0)->Ok_0;
                    assert(analyze_item(it, old(self).loc, a0) is Ok);
                    assert(o.item == ItemV::While { head: opt_node_view(*head), body: Box::new(b2) });
                    assert(o.post == analysis@);
                }
                Ok(())
            },
            _ => Ok(()),
        };
        res
    }

    fn item_for(&mut self, analysis: &mut AstAnalysis) -> (r: Result<(), AnalyzerErr>)
        requires
            old(self).inner is For,
            old(self)@.stack == Some(old(analysis)@.stack),
            old(self)@.vars == Some(old(analysis)@.vars),
        ensures
            item_result(old(self)@, old(analysis)@, final(self)@, final(analysis)@, r),
        decreases old(self)@.item, 0int,
    {
        match &mut self.inner {
            AstItem::For { init, condition, modifier, body } => {
                let ghost it = old(self)@.item;
                let ghost a0 = analysis@;
                let cloc = condition.loc;
                // the loop's own variables stay in the copy
                let mut sub = analysis.copy();
                proof {
                    assert(decreases_to!(it => it->For_init));
                    assert(decreases_to!(it->For_init => it->For_init.item));
                    assert(decreases_to!(it => it->For_condition));
                    assert(decreases_to!(it->For_condition => it->For_condition.item));
                    assert(decreases_to!(it => it->For_modifier));
                    assert(decreases_to!(it->For_modifier => it->For_modifier.item));
                    assert(decreases_to!(it => it->For_body));
                    assert(decreases_to!(it->For_body => it->For_body.item));
                }
                let ir = init.analyze(&mut sub);
                match ir {
                    Ok(()) => {},
                    Err(e) => { return Err(e); },
                }
                let ghost i2 = node_view(**init);
                let ghost s1 = sub@;
                analysis.push(Type::Int, None);
                let mut expected = analysis.types();
                proof {
                    let pushed = a0.push(crate::semantics::int_elem());
                    assert(analysis@ == pushed);
                    assert(type_seq_view(expected@) == pushed.types());
                    assert(type_seq_view(expected@).len() == expected@.len());
                    assert(expected@.len() == a0.stack.len() + 1);
                }
                let cr = condition.analyze(&mut sub);
                match cr {
                    Ok(()) => {},
                    Err(e) => { return Err(e); },
                }
                let ghost c2 = node_view(**condition);
                let ghost s2 = sub@;
                if !stack_has_types(&sub.stack, &expected) {
                    return Err(type_err("`for` condition may only push a single Int", cloc));
                }
                sub.pop();
                let ghost s3 = sub@;
                analysis.stack = copy_stack(&sub.stack);
                let ghost before_pop = expected@;
                expected.pop();
                proof {
                    let pushed = a0.push(crate::semantics::int_elem());
                    assert(expected@ =~= before_pop.drop_last());
                    assert(type_seq_view(before_pop) == pushed.types());
                    assert forall|j: int| 0 <= j < a0.types().len() implies #[trigger] type_seq_view(expected@)[j] == a0.types()[j] by {
                        assert(type_seq_view(before_pop)[j] == pushed.types()[j]);
                        assert(pushed.stack[j] == a0.stack[j]);
                    }
                    assert(type_seq_view(expected@) =~= a0.types());
                }
                let mr = modifier.analyze(&mut sub);
                match mr {
                    Ok(()) => {},
                    Err(e) => { return Err(e); },
                }
                let ghost m2 = node_view(**modifier);
                let ghost s4 = sub@;
                if !stack_has_types(&sub.stack, &expected) {
                    return Err(type_err("`for` modifier may not alter the stack", cloc));
                }
                let br = body.analyze(&mut sub);
                match br {
                    Ok(()) => {},
                    Err(e) => { return Err(e); },
                }
                if !stack_has_types(&sub.stack, &expected) {
                    return Err(type_err("`for` loop may not alter the stack", cloc));
                }
                analysis.max_max_values_with(&sub);
                analysis.forget_const_values();
                proof {
                    assert(analyze_node(*it->For_init, a0) == Ok::<(NodeV, AState), Fault>((i2, s1)));
                    assert(analyze_node(*it->For_condition, s1) == Ok::<(NodeV, AState), Fault>((c2, s2)));
                    assert(analyze_node(*it->For_modifier, s3) == Ok::<(NodeV, AState), Fault>((m2, s4)));
                    let o = analyze_item(it, old(self).loc, a0)->Ok_0;
                    assert(analyze_item(it, old(self).loc, a0) is Ok);
                    assert(o.post == analysis@);
                }
                Ok(())
            },
            _ => Ok(()),
        }
    }

    fn item_store(&mut self, analysis: &mut AstAnalysis) -> (r: Result<(), AnalyzerErr>)
        requires
            old(self).inner is Store,
            old(self)@.stack == Some(old(analysis)@.stack),
            old(self)@.vars == Some(old(analysis)@.vars),
        ensures
            item_result(old(self)@, old(analysis)@, final(self)@, final(analysis)@, r),
            old(self).inner->Store_initializer is None && r is Err ==> final(analysis)@.vars == old(analysis)@.vars,
        decreases old(self)@.item, 0int,
    {
        let loc = self.loc;
        let mut ann_stack: Option<Vec<StackElement>> = None;
        let res = match &mut self.inner {
            AstItem::Store { initializer, name } => {
                let ghost it = old(self)@.item;
                let ghost a0 = analysis@;
                let ghost iv = *initializer;
                proof {
                    assert(it->Store_initializer == opt_node_view(iv));
                }
                match initializer {
                    Some(init) => {
                        proof {
                            assert(iv == Some(*init));
                            assert(decreases_to!(it => it->Store_initializer));
                            assert(decreases_to!(it->Store_initializer => it->Store_initializer->Some_0));
                            assert(decreases_to!(it->Store_initializer->Some_0 => it->Store_initializer->Some_0.item));
                        }
                        let ir = init.analyze(analysis);
                        match ir {
                            Ok(()) => {},
                            Err(e) => { return Err(e); },
                        }
                        ann_stack = Some(copy_stack(&analysis.stack));
                    },
                    None => {},
                }
                let ghost s1 = analysis@;
                proof {
                    assert(analyze_opt(it->Store_initializer, a0) == Ok::<(Option<Box<NodeV>>, AState), Fault>((opt_node_view(*initializer), s1)));
                }
                analysis.max_vars_count = analysis.max_vars_count.saturating_add(1);
                let ghost s2 = analysis@;
                let elem = match analysis.expect_any(String::from_str("stack is empty when a variable is stored"), loc) {
                    Ok(e) => e,
                    Err(e) => { return Err(e); },
                };
                let ghost s2p = analysis@;
                match analysis.find_var(name) {
                    Some(k) => {
                        if elem.ty.same(&analysis.vars[k].1.elem.ty) {
                            let ghost vb = analysis.vars@;
                            analysis.vars[k].1.elem.value = elem.value;
                            proof {
                                assert(analysis@.vars =~= bind(s2p.vars, name@, s2.stack.last())->Some_0);
                            }
                        } else {
                            return Err(type_err("cannot change the type of a variable", loc));
                        }
                    },
                    None => {
                        let index = analysis.vars.len();
                        analysis.vars.push((name.clone(), LocalVar { index, elem }));
                        proof {
                            assert(analysis@.vars =~= bind(s2p.vars, name@, s2.stack.last())->Some_0);
                        }
                    },
                }
                proof {
                    let o = analyze_item(it, old(self).loc, a0)->Ok_0;
                    assert(analyze_item(it, old(self).loc, a0) is Ok);
                    assert(o.post == analysis@);
                }
                Ok(())
            },
            _ => Ok(()),
        };
        if res.is_ok() {
            match ann_stack {
                Some(s) => {
                    self.stack = Some(s);
                },
                None => {},
            }
            self.vars = Some(copy_vars(&analysis.vars));
        }
        res
    }

    #[verifier::rlimit(100)]
    #[verifier::spinoff_prover]
    fn item_switch(&mut self, analysis: &mut AstAnalysis) -> (r: Result<(), AnalyzerErr>)
        requires
            old(self).inner is Switch,
            old(self)@.stack == Some(old(analysis)@.stack),
            old(self)@.vars == Some(old(analysis)@.vars),
        ensures
            item_result(old(self)@, old(analysis)@, final(self)@, final(analysis)@, r),
            final(self).inner is Switch,
            labels_sorted_from(final(self).inner->Switch_arms@, old(self).inner->Switch_arms@),
        decreases old(self)@.item, 0int,
    {
        let loc = self.loc;
        match &mut self.inner {
            AstItem::Switch { arms, default } => {
                let ghost it = old(self)@.item;
                let ghost a0 = analysis@;
                let ghost all = arms_view(arms@);
                sort_switch_arms(arms);
                let ghost sorted = arms_view(arms@);
                proof {
                    lemma_sort_arms_members(all);
                    lemma_arms_view(arms@);
                    assert(all == arms_view(old(self).inner->Switch_arms@));
                    assert forall|j: int| 0 <= j < arms@.len() implies (#[trigger] arms@[j]).0 == sorted[j].0 by {}
                }
                let c = analysis.expect(&Type::Int, String::from_str("`switch` requires an `Int` on stack"), loc);
                match c {
                    Ok(_) => {},
                    Err(e) => { return Err(e); },
                }
                let ghost a1 = analysis@;
                let mut sub = analysis.copy();
                let stack_before = copy_stack(&analysis.stack);
                let vars_before = copy_vars(&analysis.vars);
                proof {
                    assert(decreases_to!(it => it->Switch_default));
                    assert(decreases_to!(it->Switch_default => it->Switch_default.item));
                }
                let dr = default.analyze(&mut sub);
                match dr {
                    Ok(()) => {},
                    Err(e) => { return Err(e); },
                }
                let ghost d2 = node_view(**default);
                let mut expected = sub.copy();
                let ghost s1 = sub@;
                proof {
                    assert(analyze_node(*it->Switch_default, a1) == Ok::<(NodeV, AState), Fault>((d2, s1)));
                    assert(sorted.skip(0) =~= sorted);
                    assert(sorted.take(0) + sorted =~= sorted);
                }
                let mut i: usize = 0;
                let mut failure: Option<AnalyzerErr> = None;
                while i < arms.len() && failure.is_none()
                    invariant
                        i <= arms@.len(),
                        arms@.len() == sorted.len(),
                        sorted.len() == all.len(),
                        it == old(self)@.item,
                        loc == old(self).loc,
                        forall|j: int| 0 <= j < arms@.len() ==> (#[trigger] arms@[j]).0 == sorted[j].0,
                        it == (ItemV::Switch { arms: all, default: it->Switch_default }),
                        forall|j: int| 0 <= j < all.len() ==> all.contains(#[trigger] sorted[j]),
                        failure is None ==> forall|j: int| i <= j < sorted.len() ==> (arms@[j].0, node_view(#[trigger] arms@[j].1)) == sorted[j],
                        failure is Some ==> analyze_switch_arms(all, sorted, a1.stack, a1.vars, s1.types(), s1, loc)
                            == Err::<(Seq<(i32, NodeV)>, AState), Fault>((failure->Some_0.kind(), failure->Some_0.at())),
                        stack_view(stack_before@) == a1.stack,
                        vars_view(vars_before@) == a1.vars,
                        expected@ == s1,
                        a0 == old(analysis)@,
                        int_on_top(a0),
                        a1 == a0.pop(),
                        sorted == sort_arms(all),
                        analyze_node(*it->Switch_default, a1) == Ok::<(NodeV, AState), Fault>((d2, s1)),
                        node_view(**default) == d2,
                        failure is None ==> analyze_switch_arms(all, sorted, a1.stack, a1.vars, s1.types(), s1, loc)
                            == prepend_arms(arms_view(arms@).take(i as int),
                                analyze_switch_arms(all, sorted.skip(i as int), a1.stack, a1.vars, s1.types(), sub@, loc)),
                    decreases (arms@.len() - i) * 2 + (if failure is None { 1int } else { 0int }),
                {
                    let ghost sh = sub@;
                    sub.stack = copy_stack(&stack_before);
                    sub.vars = copy_vars(&vars_before);
                    let ghost sb = sub@;
                    proof {
                        assert(sb == with_vars(with_stack(sh, a1.stack), a1.vars));
                    }
                    let ghost before = arms@;
                    proof {
                        lemma_arms_view(arms@);
                        assert(all.contains(sorted[i as int]));
                        let k = choose|k: int| 0 <= k < all.len() && all[k] == sorted[i as int];
                        assert(arms@[i as int].1@ == sorted[i as int].1);
                        assert(decreases_to!(it => it->Switch_arms));
                        assert(decreases_to!(it->Switch_arms => it->Switch_arms[k]));
                        assert(decreases_to!(it->Switch_arms[k] => it->Switch_arms[k].1));
                        assert(decreases_to!(it->Switch_arms[k].1 => it->Switch_arms[k].1.item));
                    }
                    let ar = arms[i].1.analyze(&mut sub);
                    proof {
                        lemma_arms_view(arms@);
                        lemma_arms_view(before);
                        let sk = sorted.skip(i as int);
                        assert(sk[0] == sorted[i as int]);
                        assert(sk.drop_first() =~= sorted.skip(i + 1));
                        assert(all.contains(sk[0]));
                    }
                    let ghost idx = i as int;
                    match ar {
                        Ok(()) => {
                            if !same_stack_types(&sub.stack, &expected.stack) {
                                proof {
                                    let sk = sorted.skip(i as int);
                                    assert(analyze_switch_arms(all, sk, a1.stack, a1.vars, s1.types(), sh, loc)
                                        == Err::<(Seq<(i32, NodeV)>, AState), Fault>((ErrKind::Type, loc)));
                                }
                                failure = Some(type_err("`switch`-arms don't alter the stack the same way", loc));
                            } else {
                                proof {
                                    assert(arms_view(arms@).take(i + 1) =~= arms_view(before).take(i as int).push((sorted[i as int].0, node_view(arms@[i as int].1))));
                                    let rest = analyze_switch_arms(all, sorted.skip(i + 1), a1.stack, a1.vars, s1.types(), sub@, loc);
                                    if rest is Ok {
                                        assert(arms_view(before).take(i as int) + (seq![(sorted[i as int].0, node_view(arms@[i as int].1))] + rest->Ok_0.0)
                                            =~= arms_view(arms@).take(i + 1) + rest->Ok_0.0);
                                    }
                                }
                                i = i + 1;
                            }
                        },
                        Err(e) => {
                            proof {
                                let sk = sorted.skip(i as int);
                                assert(analyze_switch_arms(all, sk, a1.stack, a1.vars, s1.types(), sh, loc)
                                    == Err::<(Seq<(i32, NodeV)>, AState), Fault>((e.kind(), e.at())));
                            }
                            failure = Some(e);
                        },
                    }
                    proof {
                        assert(arms@[idx].0 == before[idx].0);
                        assert forall|j: int| 0 <= j < arms@.len() implies (#[trigger] arms@[j]).0 == sorted[j].0 by {
                            if j != idx {
                                assert(arms@[j] == before[j]);
                            }
                        }
                    }
                }
                match failure {
                    Some(e) => {
                        return Err(e);
                    },
                    None => {},
                }
                proof {
                    lemma_arms_view(arms@);
                    assert(sorted.skip(i as int) =~= Seq::<(i32, NodeV)>::empty());
                    assert(arms_view(arms@).take(i as int) + Seq::<(i32, NodeV)>::empty() =~= arms_view(arms@));
                }
                // the marks reached in the arms count too
                expected.max_max_values_with(&sub);
                expected.vars = vars_before;
                *analysis = expected;
                analysis.forget_const_values();
                Ok(())
            },
            _ => Ok(()),
        }
    }

    fn item_list_literal(&mut self, analysis: &mut AstAnalysis) -> (r: Result<(), AnalyzerErr>)
        requires
            old(self).inner is ListLiteral,
            old(self)@.stack == Some(old(analysis)@.stack),
            old(self)@.vars == Some(old(analysis)@.vars),
        ensures
            item_result(old(self)@, old(analysis)@, final(self)@, final(analysis)@, r),
            old(self).inner->ListLiteral_0@.len() == 0 ==> final(analysis)@ == old(analysis)@,
        decreases old(self)@.item, 0int,
    {
        let loc = self.loc;
        let mut ann: Option<Vec<StackElement>> = None;
        let res = match &mut self.inner {
            AstItem::ListLiteral(nodes) => {
                let ghost it = old(self)@.item;
                let ghost a0 = analysis@;
                let ghost orig = nodes_view(nodes@);
                proof {
                    lemma_nodes_view(nodes@);
                }
                if nodes.len() == 0 {
                    return Err(type_err("empty `List` literal has unknown type, use `list[type]`", loc));
                }
                proof {
                    assert(old(self).inner->ListLiteral_0@.len() > 0);
                }
                let mut sub = analysis.copy();
                proof {
                    assert(decreases_to!(it => it->ListLiteral_0));
                    assert(decreases_to!(it->ListLiteral_0 => it->ListLiteral_0[0]));
                    assert(decreases_to!(it->ListLiteral_0[0] => it->ListLiteral_0[0].item));
                }
                let fr = nodes[0].analyze(&mut sub);
                match fr {
                    Ok(()) => {},
                    Err(e) => { return Err(e); },
                }
                let ghost n0 = node_view(nodes@[0]);
                let ghost s1 = sub@;
                let first = match sub.expect_any(String::from_str("item 0 doesn't result in anything in list literal"), loc) {
                    Ok(e) => e,
                    Err(e) => { return Err(e); },
                };
                let ty = first.ty;
                if !same_stack_types(&analysis.stack, &sub.stack) {
                    return Err(type_err("items in list literal may not alter the stack except pushing their element", loc));
                }
                analysis.max_max_values_with(&sub);
                proof {
                    lemma_nodes_view(nodes@);
                    assert(orig.skip(1) =~= orig.drop_first());
                    assert(nodes_view(nodes@).subrange(1, 1) + orig.skip(1) =~= orig.skip(1));
                }
                let mut i: usize = 1;
                while i < nodes.len()
                    invariant
                        1 <= i <= nodes@.len(),
                        nodes@.len() == orig.len(),
                        it == old(self)@.item,
                        loc == old(self).loc,
                        old(self).inner->ListLiteral_0@.len() > 0,
                        it == ItemV::ListLiteral(orig),
                        node_view(nodes@[0]) == n0,
                        forall|j: int| i <= j < orig.len() ==> #[trigger] node_view(nodes@[j]) == orig[j],
                        analysis@.stack == a0.stack,
                        analysis@.vars == a0.vars,
                        a0 == old(analysis)@,
                        analyze_node(orig[0], a0) == Ok::<(NodeV, AState), Fault>((n0, s1)),
                        s1.stack.len() > 0,
                        a0.types() == s1.pop().types(),
                        ty@ == s1.stack.last().ty,
                        analyze_list_rest(orig.drop_first(), ty@, a0.merge_max(s1.pop()), s1.pop(), loc)
                            == prepend_elems(nodes_view(nodes@).subrange(1, i as int),
                                analyze_list_rest(orig.skip(i as int), ty@, analysis@, sub@, loc)),
                    decreases nodes@.len() - i,
                {
                    proof {
                        lemma_nodes_view(nodes@);
                        assert(decreases_to!(it => it->ListLiteral_0));
                        assert(decreases_to!(it->ListLiteral_0 => it->ListLiteral_0[i as int]));
                        assert(decreases_to!(it->ListLiteral_0[i as int] => it->ListLiteral_0[i as int].item));
                        assert(nodes@[i as int]@ == orig[i as int]);
                    }
                    let ghost before = nodes@;
                    let ghost sb = sub@;
                    let ghost ob = analysis@;
                    // every element starts from the stack and variables before the literal
                    sub.stack = copy_stack(&analysis.stack);
                    sub.vars = copy_vars(&analysis.vars);
                    proof {
                        assert(sub@ == with_vars(with_stack(sb, ob.stack), ob.vars));
                    }
                    let er = nodes[i].analyze(&mut sub);
                    proof {
                        lemma_nodes_view(nodes@);
                        lemma_nodes_view(before);
                        let sk = orig.skip(i as int);
                        assert(sk[0] == orig[i as int]);
                        assert(sk.drop_first() =~= orig.skip(i + 1));
                    }
                    match er {
                        Ok(()) => {},
                        Err(e) => {
                            proof {
                                let sk = orig.skip(i as int);
                                assert(analyze_list_rest(sk, ty@, ob, sb, loc) == Err::<(Seq<NodeV>, AState, AState), Fault>((e.kind(), e.at())));
                            }
                            return Err(e);
                        },
                    }
                    let ghost sa = sub@;
                    analysis.max_max_values_with(&sub);
                    let c = sub.expect(&ty, String::from_str("unexpected element type in list literal"), loc);
                    match c {
                        Ok(_) => {},
                        Err(e) => {
                            proof {
                                let sk = orig.skip(i as int);
                                assert(analyze_list_rest(sk, ty@, ob, sb, loc) == Err::<(Seq<NodeV>, AState, AState), Fault>((ErrKind::Type, loc)));
                            }
                            return Err(e);
                        },
                    }
                    if !same_stack_types(&sub.stack, &analysis.stack) {
                        proof {
                            let sk = orig.skip(i as int);
                            assert(analyze_list_rest(sk, ty@, ob, sb, loc) == Err::<(Seq<NodeV>, AState, AState), Fault>((ErrKind::Type, loc)));
                        }
                        return Err(type_err("items in list literal may not alter the stack except pushing their element", loc));
                    }
                    proof {
                        assert(nodes_view(nodes@).subrange(1, i + 1) =~= nodes_view(before).subrange(1, i as int).push(node_view(nodes@[i as int])));
                        let rest = analyze_list_rest(orig.skip(i + 1), ty@, analysis@, sub@, loc);
                        if rest is Ok {
                            assert(nodes_view(before).subrange(1, i as int) + (seq![node_view(nodes@[i as int])] + rest->Ok_0.0)
                                =~= nodes_view(nodes@).subrange(1, i + 1) + rest->Ok_0.0);
                        }
                    }
                    i = i + 1;
                }
                proof {
                    lemma_nodes_view(nodes@);
                    assert(orig.skip(i as int) =~= Seq::<NodeV>::empty());
                    assert(seq![n0] + (nodes_view(nodes@).subrange(1, i as int) + Seq::<NodeV>::empty()) =~= nodes_view(nodes@));
                }
                analysis.push(Type::List(Box::new(ty)), None);
                ann = Some(copy_stack(&analysis.stack));
                analysis.require_additional_stack_size(4);
                Ok(())
            },
            _ => Ok(()),
        };
        match ann {
            Some(s) => {
                self.stack = Some(s);
            },
            None => {},
        }
        res
    }

    fn item_jasmin(&self, analysis: &mut AstAnalysis) -> (r: Result<(), AnalyzerErr>)
        requires
            self.inner is Jasmin,
        ensures
            match analyze_item(self@.item, self.loc, old(analysis)@) {
                Ok(o) => r is Ok && final(analysis)@ == o.post,
                Err((k, l)) => r is Err && r->Err_0.kind() == k && r->Err_0.at() == l,
            },
    {
        match &self.inner {
            AstItem::Jasmin { input, output, extra_stack, .. } => {
                analysis.require_additional_stack_size(*extra_stack);
                let mut generics: Vec<(String, Type)> = Vec::new();
                proof {
                    assert(generics_view(generics@) =~= Seq::<(Seq<char>, TypeView)>::empty());
                }
                match take_inputs_exec(input, analysis, &mut generics, self.loc) {
                    Ok(()) => {},
                    Err(e) => { return Err(e); },
                }
                push_outputs_exec(output, analysis, &generics, self.loc)
            },
            _ => Ok(()),
        }
    }

    fn item_type_switch(&mut self, analysis: &mut AstAnalysis) -> (r: Result<(), AnalyzerErr>)
        requires
            old(self).inner is TypeSwitch,
            old(self)@.stack == Some(old(analysis)@.stack),
            old(self)@.vars == Some(old(analysis)@.vars),
        ensures
            item_result(old(self)@, old(analysis)@, final(self)@, final(analysis)@, r),
        decreases old(self)@.item, 0int,
    {
        let loc = self.loc;
        match &mut self.inner {
            AstItem::TypeSwitch { arms, chosen_index } => {
                let ghost it = old(self)@.item;
                let ghost tv = tarms_view(arms@);
                let ghost a0 = analysis@;
                proof {
                    lemma_tarms_view(arms@);
                    assert(it == ItemV::TypeSwitch { arms: tv, chosen_index: it->TypeSwitch_chosen_index });
                }
                let sel = select_arm(arms, analysis);
                proof {
                    assert(tv == tarms_view(arms@));
                    assert(a0 == analysis@);
                    let fm = first_match(tv, 0, a0);
                    if sel is Some {
                        assert(fm is Some);
                        assert(fm == Some(sel->Some_0 as int));
                    }
                }
                match sel {
                    Some(k) => {
                        proof {
                            assert(it->TypeSwitch_arms == tv);
                            assert(arms@[k as int].1@ == tv[k as int].1);
                            assert(decreases_to!(it => it->TypeSwitch_arms));
                            assert(decreases_to!(it->TypeSwitch_arms => it->TypeSwitch_arms[k as int]));
                            assert(decreases_to!(it->TypeSwitch_arms[k as int] => it->TypeSwitch_arms[k as int].1));
                            assert(decreases_to!(it->TypeSwitch_arms[k as int].1 => it->TypeSwitch_arms[k as int].1.item));
                        }
                        *chosen_index = Some(k);
                        let ghost before = arms@;
                        let r = arms[k].1.analyze(analysis);
                        proof {
                            lemma_tarms_view(arms@);
                            lemma_tarms_view(before);
                            assert(tarms_view(arms@) =~= tv.update(k as int, (tv[k as int].0, node_view(*arms@[k as int].1))));
                            assert(node_view(*before[k as int].1) == tv[k as int].1);
                            assert(first_match(tv, 0, a0) == Some(k as int));
                            if r is Ok {
                                let o = analyze_item(it, old(self).loc, a0)->Ok_0;
                                assert(analyze_item(it, old(self).loc, a0) is Ok);
                                assert(o.item == ItemV::TypeSwitch { arms: tarms_view(arms@), chosen_index: Some(k) });
                            }
                        }
                        r
                    },
                    None => Err(type_err("no arm in `typeswitch` matches the stack", loc)),
                }
            },
            _ => Ok(()),
        }
    }
}

/// The source-level spelling of a type.
pub open spec fn type_text(t: TypeView) -> Seq<char>
    decreases t,
{
    match t {
        TypeView::Int => "Int"@,
        TypeView::Str => "String"@,
        TypeView::List(inner) => "List("@ + type_text(*inner) + ")"@,
        TypeView::Object(name) => "Object("@ + name + ")"@,
    }
}

fn type_text_exec(t: &Type) -> (r: String)
    ensures
        r@ == type_text(t@),
    decreases t,
{
    match t {
        Type::Int => String::from_str("Int"),
        Type::String => String::from_str("String"),
        Type::List(inner) => {
            let mut r = String::from_str("List(");
            r.append(type_text_exec(inner).as_str());
            r.append(")");
            r
        },
        Type::Object(name) => {
            let mut r = String::from_str("Object(");
            r.append(name.as_str());
            r.append(")");
            r
        },
    }
}

/// Type spellings separated by `, `.
pub open spec fn joined_text(ts: Seq<TypeView>) -> Seq<char>
    decreases ts.len(),
{
    if ts.len() == 0 {
        Seq::empty()
    } else if ts.len() == 1 {
        type_text(ts[0])
    } else {
        joined_text(ts.drop_last()) + ", "@ + type_text(ts.last())
    }
}

/// A list of types as `[T1, T2, ...]`.
pub open spec fn list_text(ts: Seq<TypeView>) -> Seq<char> {
    "["@ + joined_text(ts) + "]"@
}

/// A stack's types as `[T1, T2, ...]`, bottom first.
pub fn types_text(types: &Vec<Type>) -> (r: String)
    ensures
        r@ == list_text(type_seq_view(types@)),
{
    let ghost tv = type_seq_view(types@);
    let mut r = String::from_str("[");
    let mut i: usize = 0;
    proof {
        assert(tv.take(0) =~= Seq::<TypeView>::empty());
        assert(r@ == "["@ + joined_text(tv.take(0))) by {
            assert("["@ + Seq::<char>::empty() =~= "["@);
        }
    }
    while i < types.len()
        invariant
            i <= types@.len(),
            tv == type_seq_view(types@),
            tv.len() == types@.len(),
            r@ == "["@ + joined_text(tv.take(i as int)),
        decreases types@.len() - i,
    {
        let ghost before = r@;
        if i > 0 {
            r.append(", ");
        }
        r.append(type_text_exec(&types[i]).as_str());
        proof {
            let t = tv.take(i + 1);
            assert(t.drop_last() =~= tv.take(i as int));
            assert(t.last() == types@[i as int]@);
            if i == 0 {
                assert(tv.take(0) =~= Seq::<TypeView>::empty());
                assert(r@ =~= "["@ + joined_text(t));
            } else {
                assert(r@ =~= "["@ + joined_text(t));
            }
        }
        i = i + 1;
    }
    proof {
        assert(tv.take(i as int) =~= tv);
    }
    r.append("]");
    r
}

impl AstBase {
    /// Analyzes the whole program from an empty state; on success the stack is empty at the
    /// end and the returned state carries the high-water marks.
    pub fn analyze(&mut self) -> (r: Result<AstAnalysis, AnalyzerErr>)
        ensures
            match analyze_program(nodes_view(old(self).nodes@), old(self).file_index) {
                Ok((ns, a)) => r is Ok && nodes_view(final(self).nodes@) == ns && r->Ok_0@ == a,
                Err((k, l)) => r is Err && r->Err_0.kind() == k && r->Err_0.at() == l,
            },
            ({
                let run = analyze_seq(nodes_view(old(self).nodes@), crate::state::empty_state());
                run is Ok && run->Ok_0.1.stack.len() > 0 ==> r is Err && r->Err_0.message()
                    == "stack is not empty when the program finishes but has "@ + list_text(run->Ok_0.1.types())
            }),
            final(self).file_index == old(self).file_index,
    {
        let end = if self.nodes.len() > 0 {
            self.nodes[self.nodes.len() - 1].loc
        } else {
            Loc::start_of_file(self.file_index)
        };
        proof {
            lemma_nodes_view(self.nodes@);
        }
        let mut analysis = AstAnalysis::new();
        let ghost orig = nodes_view(self.nodes@);
        let ghost a0 = analysis@;
        proof {
            lemma_nodes_view(self.nodes@);
            assert(orig.skip(0) =~= orig);
            assert(orig.take(0) + orig =~= orig);
        }
        let mut i: usize = 0;
        while i < self.nodes.len()
            invariant
                i <= self.nodes@.len(),
                self.nodes@.len() == orig.len(),
                orig == nodes_view(old(self).nodes@),
                a0 == crate::state::empty_state(),
                self.file_index == old(self).file_index,
                forall|j: int| i <= j < orig.len() ==> #[trigger] node_view(self.nodes@[j]) == orig[j],
                analyze_seq(orig, a0) == prepend_nodes(nodes_view(self.nodes@).take(i as int),
                    analyze_seq(orig.skip(i as int), analysis@)),
            decreases self.nodes@.len() - i,
        {
            proof {
                lemma_nodes_view(self.nodes@);
            }
            let ghost before = self.nodes@;
            let ghost ab = analysis@;
            let res = self.nodes[i].analyze(&mut analysis);
            proof {
                lemma_nodes_view(self.nodes@);
                lemma_nodes_view(before);
                assert(orig.skip(i as int)[0] == orig[i as int]);
                assert(orig.skip(i as int).drop_first() =~= orig.skip(i + 1));
                assert(node_view(before[i as int]) == orig[i as int]);
            }
            match res {
                Ok(()) => {},
                Err(e) => {
                    proof {
                        let sk = orig.skip(i as int);
                        assert(analyze_seq(sk, ab) == Err::<(Seq<NodeV>, AState), Fault>((e.kind(), e.at())));
                    }
                    return Err(e);
                },
            }
            proof {
                assert(nodes_view(self.nodes@).take(i + 1) =~= nodes_view(before).take(i as int).push(node_view(self.nodes@[i as int])));
                let rest = analyze_seq(orig.skip(i + 1), analysis@);
                if rest is Ok {
                    assert(nodes_view(before).take(i as int) + (seq![node_view(self.nodes@[i as int])] + rest->Ok_0.0)
                        =~= nodes_view(self.nodes@).take(i + 1) + rest->Ok_0.0);
                }
            }
            i = i + 1;
        }
        proof {
            lemma_nodes_view(self.nodes@);
            assert(orig.skip(i as int) =~= Seq::<NodeV>::empty());
            assert(nodes_view(self.nodes@).take(i as int) + Seq::<NodeV>::empty() =~= nodes_view(self.nodes@));
        }
        if analysis.stack.len() == 0 {
            Ok(analysis)
        } else {
            let loc = end;
            let mut text = String::from_str("stack is not empty when the program finishes but has ");
            let types = analysis.types();
            text.append(types_text(&types).as_str());
            proof {
                assert(end_loc(orig, self.file_index) == loc);
            }
            Err(AnalyzerErr::TypeErr(text, loc))
        }
    }
}

} // verus!
