use vstd::prelude::*;
use vstd::string::StringExecFns;

use crate::ast::{
    AstBase,
    lemma_arms_view, lemma_nodes_view, lemma_tarms_view, node_view, nodes_view, arms_view, tarms_view, AstItem,
    AstNode, ItemV, NodeV,
};
use crate::error::{AnalyzerErr, Loc};
use crate::state::{find_var, AstAnalysis};
use crate::types::{ElemView, Type, TypeView, VarView};
use crate::writer::{same_frame, int_push_text, int_text, line_text, nat_text, next_label, quoted, ClassWriter};

verus! {

broadcast use vstd::std_specs::vec::group_vec_axioms;

/// Why code could not be generated.
#[derive(Debug)]
pub enum CodeGenErr {
    NotImplemented(String),
    AnalyzerErr(AnalyzerErr),
    /// The node at this location carries no analysis, or one that does not fit it.
    NotAnalyzedErr(Loc),
}

/// What the contracts say of a code generation error.
pub enum GenFault {
    /// The node at this location carries no analysis, or one that does not fit it.
    NotAnalyzed(Loc),
    /// A construct that code generation does not take (a compile error item).
    Unsupported,
}

pub open spec fn fault_of(e: CodeGenErr) -> GenFault {
    match e {
        CodeGenErr::NotAnalyzedErr(l) => GenFault::NotAnalyzed(l),
        _ => GenFault::Unsupported,
    }
}

pub open spec fn new_list_text() -> Seq<char> {
    "new java/util/ArrayList\n"@ + "dup\n"@ + "invokespecial java/util/ArrayList/<init>()V\n"@
}

pub open spec fn box_int_text() -> Seq<char> {
    "invokestatic java/lang/Integer/valueOf(I)Ljava/lang/Integer;\n"@
}

pub open spec fn list_add_text() -> Seq<char> {
    "invokevirtual java/util/ArrayList/add(Ljava/lang/Object;)Z\n"@ + "pop\n"@
}

/// `prefix` followed by the label number `l`.
pub open spec fn label(prefix: Seq<char>, l: nat) -> Seq<char> {
    prefix + nat_text(l)
}

/// The store or load of variable `name` from the snapshot `vars`: `op_int` for an `Int`,
/// `op_ref` otherwise, then the variable's slot.
pub open spec fn var_access(vars: Option<Seq<(Seq<char>, VarView)>>, name: Seq<char>, op_int: Seq<char>, op_ref: Seq<char>) -> Option<Seq<char>> {
    match vars {
        Some(v) => {
            let k = find_var(v, name);
            if k < 0 {
                None
            } else {
                Some((if v[k].1.elem.ty == TypeView::Int { op_int } else { op_ref }) + " "@ + nat_text(v[k].1.index) + "\n"@)
            }
        },
        None => None,
    }
}

/// The code for a node, given the next free label number: its text and the next free label
/// number after it, or nothing where the node lacks what code generation needs.
pub open spec fn gen_node(n: NodeV, k: nat) -> Result<(Seq<char>, nat), GenFault>
    decreases n, 2int,
{
    match n.item {
        ItemV::PushInt(i) => Ok((int_push_text(i as int), k)),
        ItemV::PushString(s) => Ok(("ldc "@ + quoted(s) + "\n"@, k)),
        ItemV::List(_) => if n.stack is Some { Ok((new_list_text(), k)) } else { Err(GenFault::NotAnalyzed(n.loc)) },
        ItemV::ListLiteral(nodes) => match n.stack {
            Some(st) => if st.len() > 0 {
                match gen_items(nodes, st.last().ty == TypeView::List(Box::new(TypeView::Int)), k) {
                    Ok((t, k2)) => Ok((new_list_text() + t, k2)),
                    Err(e) => Err(e),
                }
            } else {
                Err(GenFault::NotAnalyzed(n.loc))
            },
            None => Err(GenFault::NotAnalyzed(n.loc)),
        },
        ItemV::If { .. } => gen_if_text(n, k),
        ItemV::Switch { .. } => gen_switch_text(n, k),
        ItemV::While { .. } => gen_while_text(n, k),
        ItemV::For { .. } => gen_for_text(n, k),
        ItemV::Block(children) => gen_seq(children, k),
        ItemV::Store { initializer, name } => match gen_opt(initializer, k) {
            Ok((it, k2)) => match var_access(n.vars, name, "istore"@, "astore"@) {
                Some(st) => Ok((it + line_text(n.loc.row as nat) + st, k2)),
                None => Err(GenFault::NotAnalyzed(n.loc)),
            },
            Err(e) => Err(e),
        },
        ItemV::Load(name) => match var_access(n.vars, name, "iload"@, "aload"@) {
            Some(st) => Ok((line_text(n.loc.row as nat) + st, k)),
            None => Err(GenFault::NotAnalyzed(n.loc)),
        },
        ItemV::Jasmin { body, .. } => Ok((body + " \n"@, k)),
        ItemV::TypeSwitch { arms, chosen_index } => match chosen_index {
            Some(i) => if i < arms.len() { gen_node(arms[i as int].1, k) } else { Err(GenFault::NotAnalyzed(n.loc)) },
            None => Err(GenFault::NotAnalyzed(n.loc)),
        },
        ItemV::CmpErr(_) => Err(GenFault::Unsupported),
    }
}

pub open spec fn gen_if_text(n: NodeV, k: nat) -> Result<(Seq<char>, nat), GenFault>
    decreases n, 1int,
{
    match n.item {
        ItemV::If { head, body, else_body } => match gen_opt(head, k) {
    Ok((ht, l)) => match gen_node(*body, next_label(l)) {
        Ok((bt, k3)) => match gen_opt(else_body, k3) {
            Ok((et, k4)) => Ok((
                line_text(n.loc.row as nat) + ht + label("ifne If"@, l) + "\n"@ + label("goto Else"@, l) + "\n"@
                    + label("If"@, l) + " :\n"@ + bt + label("goto EndIf"@, l) + "\n"@ + label("Else"@, l) + " :\n"@
                    + et + label("EndIf"@, l) + " :\n"@,
                k4,
            )),
            Err(e) => Err(e),
        },
        Err(e) => Err(e),
    },
    Err(e) => Err(e),
},
        _ => Err(GenFault::Unsupported),
    }
}

pub open spec fn gen_switch_text(n: NodeV, k: nat) -> Result<(Seq<char>, nat), GenFault>
    decreases n, 1int,
{
    match n.item {
        ItemV::Switch { arms, default } => match gen_arms(arms, k, next_label(k)) {
    Ok((at, k2)) => match gen_node(*default, k2) {
        Ok((dt, k3)) => Ok((
            "lookupswitch\n"@ + switch_table(arms, k) + label("default : Switch"@, k) + "default\n"@ + at
                + label("Switch"@, k) + "default :\n"@ + dt + label("EndSwitch"@, k) + " :\n"@,
            k3,
        )),
        Err(e) => Err(e),
    },
    Err(e) => Err(e),
},
        _ => Err(GenFault::Unsupported),
    }
}

pub open spec fn gen_while_text(n: NodeV, k: nat) -> Result<(Seq<char>, nat), GenFault>
    decreases n, 1int,
{
    match n.item {
        ItemV::While { head, body } => match gen_opt(head, next_label(k)) {
    Ok((ht, k2)) => match gen_node(*body, k2) {
        Ok((bt, k3)) => Ok((
            line_text(n.loc.row as nat) + label("WhileHead"@, k) + " :\n"@ + ht + label("ifne While"@, k) + "\n"@
                + label("goto EndWhile"@, k) + "\n"@ + label("While"@, k) + " :\n"@ + bt
                + label("goto WhileHead"@, k) + "\n"@ + label("EndWhile"@, k) + " :\n"@,
            k3,
        )),
        Err(e) => Err(e),
    },
    Err(e) => Err(e),
},
        _ => Err(GenFault::Unsupported),
    }
}

pub open spec fn gen_for_text(n: NodeV, k: nat) -> Result<(Seq<char>, nat), GenFault>
    decreases n, 1int,
{
    match n.item {
        ItemV::For { init, condition, modifier, body } => match gen_node(*init, next_label(k)) {
    Ok((it, k2)) => match gen_node(*condition, k2) {
        Ok((ct, k3)) => match gen_node(*body, k3) {
            Ok((bt, k4)) => match gen_node(*modifier, k4) {
                Ok((mt, k5)) => Ok((
                    line_text(n.loc.row as nat) + it + label("ForCond"@, k) + " :\n"@ + ct
                        + label("ifne ForBody"@, k) + "\n"@ + label("goto ForEnd"@, k) + "\n"@
                        + label("ForBody"@, k) + " :\n"@ + bt + mt + label("goto ForCond"@, k) + "\n"@
                        + label("ForEnd"@, k) + " :\n"@,
                    k5,
                )),
                Err(e) => Err(e),
            },
            Err(e) => Err(e),
        },
        Err(e) => Err(e),
    },
    Err(e) => Err(e),
},
        _ => Err(GenFault::Unsupported),
    }
}

pub open spec fn gen_opt(n: Option<Box<NodeV>>, k: nat) -> Result<(Seq<char>, nat), GenFault>
    decreases n, 3int,
{
    match n {
        Some(b) => gen_node(*b, k),
        None => Ok((Seq::empty(), k)),
    }
}

/// The code for nodes one after another.
pub open spec fn gen_seq(s: Seq<NodeV>, k: nat) -> Result<(Seq<char>, nat), GenFault>
    decreases s, 3int,
{
    if s.len() == 0 {
        Ok((Seq::empty(), k))
    } else {
        match gen_node(s[0], k) {
            Ok((t, k2)) => match gen_seq(s.drop_first(), k2) {
                Ok((rest, k3)) => Ok((t + rest, k3)),
                Err(e) => Err(e),
            },
            Err(e) => Err(e),
        }
    }
}

/// The code that adds each element of a list literal to the list on the stack, boxing ints.
pub open spec fn gen_items(s: Seq<NodeV>, boxed: bool, k: nat) -> Result<(Seq<char>, nat), GenFault>
    decreases s, 3int,
{
    if s.len() == 0 {
        Ok((Seq::empty(), k))
    } else {
        match gen_node(s[0], k) {
            Ok((t, k2)) => match gen_items(s.drop_first(), boxed, k2) {
                Ok((rest, k3)) => Ok(("dup\n"@ + t + (if boxed { box_int_text() } else { Seq::empty() }) + list_add_text() + rest, k3)),
                Err(e) => Err(e),
            },
            Err(e) => Err(e),
        }
    }
}

/// The `lookupswitch` table of a switch with label number `l`.
pub open spec fn switch_table(arms: Seq<(i32, NodeV)>, l: nat) -> Seq<char>
    decreases arms.len(),
{
    if arms.len() == 0 {
        Seq::empty()
    } else {
        int_text(arms[0].0 as int) + label(" : Switch"@, l) + int_text(arms[0].0 as int) + "\n"@
            + switch_table(arms.drop_first(), l)
    }
}

/// The bodies of the numbered arms of a switch with label number `l`.
pub open spec fn gen_arms(arms: Seq<(i32, NodeV)>, l: nat, k: nat) -> Result<(Seq<char>, nat), GenFault>
    decreases arms, 3int,
{
    if arms.len() == 0 {
        Ok((Seq::empty(), k))
    } else {
        match gen_node(arms[0].1, k) {
            Ok((t, k2)) => match gen_arms(arms.drop_first(), l, k2) {
                Ok((rest, k3)) => Ok((
                    label("Switch"@, l) + int_text(arms[0].0 as int) + " :\n"@ + t + label("goto EndSwitch"@, l) + "\n"@ + rest,
                    k3,
                )),
                Err(e) => Err(e),
            },
            Err(e) => Err(e),
        }
    }
}

/// `main` grew by the text that `g` gives, and the counter moved on as `g` says; or there was
/// an error where `g` gives nothing.
pub open spec fn emitted(g: Result<(Seq<char>, nat), GenFault>, c0: ClassWriter, c1: ClassWriter, r: Result<(), CodeGenErr>) -> bool {
    &&& same_frame(c0, c1)
    &&& match g {
        Ok((t, k)) => r is Ok && c1.main@ == c0.main@ + t && c1.labels as nat == k,
        Err(f) => r is Err && fault_of(r->Err_0) == f,
    }
}

/// Text already written put in front of what the rest gives.
pub open spec fn after(done: Seq<char>, g: Result<(Seq<char>, nat), GenFault>) -> Result<(Seq<char>, nat), GenFault> {
    match g {
        Ok((t, k)) => Ok((done + t, k)),
        Err(e) => Err(e),
    }
}

pub open spec fn written_since(c: ClassWriter, m0: Seq<char>) -> Seq<char> {
    c.main@.subrange(m0.len() as int, c.main@.len() as int)
}

proof fn lemma_gen_node_control(n: NodeV, k: nat)
    ensures
        n.item is If ==> gen_node(n, k) == gen_if_text(n, k),
        n.item is While ==> gen_node(n, k) == gen_while_text(n, k),
        n.item is For ==> gen_node(n, k) == gen_for_text(n, k),
        n.item is Switch ==> gen_node(n, k) == gen_switch_text(n, k),
{
    match n.item {
        ItemV::If { .. } => {
            assert(gen_node(n, k) == gen_if_text(n, k));
        },
        ItemV::While { .. } => {
            assert(gen_node(n, k) == gen_while_text(n, k));
        },
        _ => {},
    }
}

proof fn lemma_concat3(a: Seq<char>, b: Seq<char>, c: Seq<char>)
    ensures
        a + b + c == a + (b + c),
{
    assert(a + b + c =~= a + (b + c));
}

fn not_analyzed_at(loc: Loc) -> (r: CodeGenErr)
    ensures
        r == CodeGenErr::NotAnalyzedErr(loc),
{
    CodeGenErr::NotAnalyzedErr(loc)
}

fn emit_new_list(class: &mut ClassWriter)
    ensures
        final(class).main@ == old(class).main@ + new_list_text(),
        final(class).labels == old(class).labels,
        same_frame(*old(class), *final(class)),
{
    class.append_main("new java/util/ArrayList\n");
    class.append_main("dup\n");
    class.append_main("invokespecial java/util/ArrayList/<init>()V\n");
    proof {
        assert(class.main@ =~= old(class).main@ + new_list_text());
    }
}

/// Emits the store or load of `name`, looked up in the snapshot `vars`.
fn emit_var_access(
    vars: &Option<Vec<(String, crate::types::LocalVar)>>,
    name: &String,
    op_int: &str,
    op_ref: &str,
    loc: Loc,
    class: &mut ClassWriter,
) -> (r: Result<(), CodeGenErr>)
    ensures
        same_frame(*old(class), *final(class)),
        final(class).labels == old(class).labels,
        match var_access(
            match *vars { Some(v) => Some(crate::state::vars_view(v@)), None => None },
            name@, op_int@, op_ref@,
        ) {
            Some(t) => r is Ok && final(class).main@ == old(class).main@ + t,
            None => r == Err::<(), CodeGenErr>(CodeGenErr::NotAnalyzedErr(loc)),
        },
{
    match vars {
        Some(v) => {
            let mut a = AstAnalysis::new();
            a.vars = crate::state::copy_vars(v);
            match a.find_var(name) {
                Some(k) => {
                    let op = if a.vars[k].1.elem.ty.is_int() { op_int } else { op_ref };
                    class.append_main(op);
                    class.append_numbered(" ", a.vars[k].1.index, "\n");
                    proof {
                        assert(class.main@ =~= old(class).main@ + (op@ + " "@ + nat_text(a.vars@[k as int].1.index as nat) + "\n"@));
                    }
                    Ok(())
                },
                None => Err(not_analyzed_at(loc)),
            }
        },
        None => Err(not_analyzed_at(loc)),
    }
}

fn gen_opt_exec(n: &Option<Box<AstNode>>, class: &mut ClassWriter) -> (r: Result<(), CodeGenErr>)
    ensures
        emitted(gen_opt(crate::ast::opt_node_view(*n), old(class).labels as nat), *old(class), *final(class), r),
    decreases crate::ast::opt_node_view(*n), 0int,
{
    match n {
        Some(b) => {
            proof {
                assert(decreases_to!(crate::ast::opt_node_view(*n) => crate::ast::opt_node_view(*n)->Some_0));
            }
            b.code_gen(class)
        },
        None => {
            proof {
                assert(class.main@ =~= old(class).main@ + Seq::<char>::empty());
            }
            Ok(())
        },
    }
}

/// Emits nodes one after another.
fn gen_seq_exec(nodes: &Vec<AstNode>, class: &mut ClassWriter) -> (r: Result<(), CodeGenErr>)
    ensures
        emitted(gen_seq(nodes_view(nodes@), old(class).labels as nat), *old(class), *final(class), r),
    decreases nodes_view(nodes@), 0int,
{
    let ghost orig = nodes_view(nodes@);
    let ghost m0 = class.main@;
    proof {
        lemma_nodes_view(nodes@);
        assert(orig.skip(0) =~= orig);
        assert(written_since(*class, m0) =~= Seq::<char>::empty());
        assert(Seq::<char>::empty() + Seq::<char>::empty() =~= Seq::<char>::empty());
    }
    let mut i: usize = 0;
    while i < nodes.len()
        invariant
            i <= nodes@.len(),
            orig == nodes_view(nodes@),
            orig.len() == nodes@.len(),
            same_frame(*old(class), *class),
            m0 == old(class).main@,
            class.main@.len() >= m0.len(),
            class.main@.subrange(0, m0.len() as int) == m0,
            gen_seq(orig, old(class).labels as nat) == after(written_since(*class, m0), gen_seq(orig.skip(i as int), class.labels as nat)),
        decreases nodes@.len() - i,
    {
        proof {
            lemma_nodes_view(nodes@);
            assert(decreases_to!(orig => orig[i as int]));
            let sk = orig.skip(i as int);
            assert(sk[0] == orig[i as int]);
            assert(sk.drop_first() =~= orig.skip(i + 1));
        }
        let ghost cb = *class;
        let r = nodes[i].code_gen(class);
        match r {
            Ok(()) => {},
            Err(e) => { return Err(e); },
        }
        proof {
            let t = gen_node(orig[i as int], cb.labels as nat)->Ok_0.0;
            assert(class.main@ == cb.main@ + t);
            assert(written_since(*class, m0) =~= written_since(cb, m0) + t);
            let rest = gen_seq(orig.skip(i + 1), class.labels as nat);
            if rest is Ok {
                assert(written_since(cb, m0) + (t + rest->Ok_0.0) =~= written_since(*class, m0) + rest->Ok_0.0);
            }
        }
        i = i + 1;
    }
    proof {
        assert(orig.skip(i as int) =~= Seq::<NodeV>::empty());
        assert(written_since(*class, m0) + Seq::<char>::empty() =~= written_since(*class, m0));
        assert(class.main@ =~= m0 + written_since(*class, m0));
    }
    Ok(())
}

/// Emits the elements of a list literal, each added to the list on the stack.
fn gen_items_exec(nodes: &Vec<AstNode>, boxed: bool, class: &mut ClassWriter) -> (r: Result<(), CodeGenErr>)
    ensures
        emitted(gen_items(nodes_view(nodes@), boxed, old(class).labels as nat), *old(class), *final(class), r),
    decreases nodes_view(nodes@), 0int,
{
    let ghost orig = nodes_view(nodes@);
    let ghost m0 = class.main@;
    proof {
        lemma_nodes_view(nodes@);
        assert(orig.skip(0) =~= orig);
        assert(written_since(*class, m0) =~= Seq::<char>::empty());
        assert(Seq::<char>::empty() + Seq::<char>::empty() =~= Seq::<char>::empty());
    }
    let mut i: usize = 0;
    while i < nodes.len()
        invariant
            i <= nodes@.len(),
            orig == nodes_view(nodes@),
            orig.len() == nodes@.len(),
            same_frame(*old(class), *class),
            m0 == old(class).main@,
            class.main@.len() >= m0.len(),
            class.main@.subrange(0, m0.len() as int) == m0,
            gen_items(orig, boxed, old(class).labels as nat) == after(written_since(*class, m0), gen_items(orig.skip(i as int), boxed, class.labels as nat)),
        decreases nodes@.len() - i,
    {
        proof {
            lemma_nodes_view(nodes@);
            assert(decreases_to!(orig => orig[i as int]));
            let sk = orig.skip(i as int);
            assert(sk[0] == orig[i as int]);
            assert(sk.drop_first() =~= orig.skip(i + 1));
        }
        let ghost cb = *class;
        class.dup();
        let ghost cd = *class;
        let r = nodes[i].code_gen(class);
        match r {
            Ok(()) => {},
            Err(e) => { return Err(e); },
        }
        if boxed {
            class.append_main("invokestatic java/lang/Integer/valueOf(I)Ljava/lang/Integer;\n");
        }
        class.append_main("invokevirtual java/util/ArrayList/add(Ljava/lang/Object;)Z\n");
        class.append_main("pop\n");
        proof {
            let t = gen_node(orig[i as int], cd.labels as nat)->Ok_0.0;
            let piece = "dup\n"@ + t + (if boxed { box_int_text() } else { Seq::empty() }) + list_add_text();
            assert(class.main@ =~= cb.main@ + piece);
            assert(written_since(*class, m0) =~= written_since(cb, m0) + piece);
            let rest = gen_items(orig.skip(i + 1), boxed, class.labels as nat);
            if rest is Ok {
                assert(written_since(cb, m0) + (piece + rest->Ok_0.0) =~= written_since(*class, m0) + rest->Ok_0.0);
            }
        }
        i = i + 1;
    }
    proof {
        assert(orig.skip(i as int) =~= Seq::<NodeV>::empty());
        assert(written_since(*class, m0) + Seq::<char>::empty() =~= written_since(*class, m0));
        assert(class.main@ =~= m0 + written_since(*class, m0));
    }
    Ok(())
}

impl AstNode {
    /// Emits the code for this node into `main`, using the analysis recorded on the nodes.
    #[verifier::rlimit(100)]
    pub fn code_gen(&self, class: &mut ClassWriter) -> (r: Result<(), CodeGenErr>)
        ensures
            emitted(gen_node(self@, old(class).labels as nat), *old(class), *final(class), r),
        decreases self@, 1int,
    {
        let ghost nv = self@;
        proof {
            assert(decreases_to!(nv => nv.item));
        }
        match &self.inner {
            AstItem::PushInt(i) => {
                class.push_int(i);
                Ok(())
            },
            AstItem::PushString(s) => {
                let ghost c0 = *class;
                class.push_string(s.as_str());
                proof {
                    assert(class.main@ =~= c0.main@ + ("ldc "@ + quoted(s@) + "\n"@));
                }
                Ok(())
            },
            AstItem::List(_) => {
                if self.stack.is_none() {
                    return Err(not_analyzed_at(self.loc));
                }
                emit_new_list(class);
                Ok(())
            },
            AstItem::ListLiteral(nodes) => {
                let is_int_list = match &self.stack {
                    Some(st) => {
                        if st.len() == 0 {
                            return Err(not_analyzed_at(self.loc));
                        }
                        match &st[st.len() - 1].ty {
                            Type::List(inner) => inner.is_int(),
                            _ => false,
                        }
                    },
                    None => {
                        return Err(not_analyzed_at(self.loc));
                    },
                };
                proof {
                    let st = nv.stack->Some_0;
                    assert(st.last() == self.stack->Some_0@[st.len() - 1]@);
                }
                let ghost c0 = *class;
                emit_new_list(class);
                let r = gen_items_exec(nodes, is_int_list, class);
                proof {
                    if r is Ok {
                        assert(class.main@ =~= c0.main@ + (new_list_text() + gen_items(nodes_view(nodes@), is_int_list, c0.labels as nat)->Ok_0.0));
                    }
                }
                r
            },
            AstItem::Block(children) => gen_seq_exec(children, class),
            AstItem::Jasmin { body, .. } => {
                let ghost c0 = *class;
                class.jasmin(body);
                proof {
                    assert(class.main@ =~= c0.main@ + (body@ + " \n"@));
                }
                Ok(())
            },
            AstItem::TypeSwitch { arms, chosen_index } => {
                proof {
                    lemma_tarms_view(arms@);
                }
                match chosen_index {
                    Some(i) => {
                        if *i < arms.len() {
                            proof {
                                assert(decreases_to!(nv.item => nv.item->TypeSwitch_arms));
                                assert(decreases_to!(nv.item->TypeSwitch_arms => nv.item->TypeSwitch_arms[*i as int]));
                                assert(decreases_to!(nv.item->TypeSwitch_arms[*i as int] => nv.item->TypeSwitch_arms[*i as int].1));
                            }
                            arms[*i].1.code_gen(class)
                        } else {
                            Err(not_analyzed_at(self.loc))
                        }
                    },
                    None => Err(not_analyzed_at(self.loc)),
                }
            },
            AstItem::CmpErr(_) => Err(CodeGenErr::NotImplemented(String::from_str("a compile error item reached code generation"))),
            AstItem::Load(name) => {
                let ghost c0 = *class;
                class.line_directive(self.loc.row);
                let r = emit_var_access(&self.vars, name, "iload", "aload", self.loc, class);
                proof {
                    if r is Ok {
                        let st = var_access(nv.vars, name@, "iload"@, "aload"@)->Some_0;
                        assert(class.main@ =~= c0.main@ + (line_text(self.loc.row as nat) + st));
                    }
                }
                r
            },
            AstItem::Store { initializer, name } => {
                let ghost c0 = *class;
                proof {
                    assert(decreases_to!(nv.item => nv.item->Store_initializer));
                }
                let r1 = gen_opt_exec(initializer, class);
                match r1 {
                    Ok(()) => {},
                    Err(e) => { return Err(e); },
                }
                let ghost c1 = *class;
                class.line_directive(self.loc.row);
                let r = emit_var_access(&self.vars, name, "istore", "astore", self.loc, class);
                proof {
                    if r is Ok {
                        let it = gen_opt(nv.item->Store_initializer, c0.labels as nat)->Ok_0.0;
                        let st = var_access(nv.vars, name@, "istore"@, "astore"@)->Some_0;
                        assert(class.main@ =~= c0.main@ + (it + line_text(self.loc.row as nat) + st));
                    }
                }
                r
            },
            AstItem::If { .. } => {
                proof {
                    assert(nv.item is If);
                    lemma_gen_node_control(nv, class.labels as nat);
                }
                gen_if(self, class)
            },
            AstItem::While { .. } => {
                proof {
                    assert(nv.item is While);
                    lemma_gen_node_control(nv, class.labels as nat);
                }
                gen_while(self, class)
            },
            AstItem::For { .. } => {
                proof {
                    assert(nv.item is For);
                    lemma_gen_node_control(nv, class.labels as nat);
                }
                gen_for(self, class)
            },
            AstItem::Switch { .. } => {
                proof {
                    assert(nv.item is Switch);
                    lemma_gen_node_control(nv, class.labels as nat);
                }
                gen_switch(self, class)
            },
        }
    }
}

#[verifier::rlimit(100)]
#[verifier::spinoff_prover]
fn gen_if(node: &AstNode, class: &mut ClassWriter) -> (r: Result<(), CodeGenErr>)
    requires
        node.inner is If,
    ensures
        emitted(gen_if_text(node@, old(class).labels as nat), *old(class), *final(class), r),
    decreases node@, 0int,
{
    let ghost nv = node@;
    proof {
        assert(decreases_to!(nv => nv.item));
    }
    match &node.inner {
        AstItem::If { head, body, else_body } => {
            let ghost c0 = *class;
            proof {
                assert(decreases_to!(nv.item => nv.item->If_head));
                assert(decreases_to!(nv.item => nv.item->If_body));
                assert(decreases_to!(nv.item => nv.item->If_else_body));
            }
            class.line_directive(node.loc.row);
            let ghost c1 = *class;
            match gen_opt_exec(head, class) {
                Ok(()) => {},
                Err(e) => {
                    proof {
                        assert(nv.item->If_head == crate::ast::opt_node_view(*head));
                        assert(gen_opt(nv.item->If_head, c0.labels as nat) == Err::<(Seq<char>, nat), GenFault>(fault_of(e)));
                        assert(gen_if_text(nv, c0.labels as nat) == Err::<(Seq<char>, nat), GenFault>(fault_of(e)));
                        assert(same_frame(c0, *class));
                    }
                    return Err(e);
                },
            }
            let ghost c2 = *class;
            let l = class.fresh_label();
            class.append_numbered("ifne If", l, "\n");
            class.append_numbered("goto Else", l, "\n");
            class.append_numbered("If", l, " :\n");
            let ghost c3 = *class;
            match body.code_gen(class) {
                Ok(()) => {},
                Err(e) => {
                    proof {
                        assert(gen_if_text(nv, c0.labels as nat) == Err::<(Seq<char>, nat), GenFault>(fault_of(e)));
                    }
                    return Err(e);
                },
            }
            let ghost c4 = *class;
            class.append_numbered("goto EndIf", l, "\n");
            class.append_numbered("Else", l, " :\n");
            let ghost c5 = *class;
            match gen_opt_exec(else_body, class) {
                Ok(()) => {},
                Err(e) => {
                    proof {
                        assert(gen_if_text(nv, c0.labels as nat) == Err::<(Seq<char>, nat), GenFault>(fault_of(e)));
                    }
                    return Err(e);
                },
            }
            let ghost c6 = *class;
            class.append_numbered("EndIf", l, " :\n");
            proof {
                let ht = c2.main@.subrange(c1.main@.len() as int, c2.main@.len() as int);
                assert(c2.main@ =~= c1.main@ + ht);
                assert(gen_if_text(nv, c0.labels as nat) is Ok
                    && class.main@ =~= c0.main@ + gen_if_text(nv, c0.labels as nat)->Ok_0.0
                    && class.labels as nat == gen_if_text(nv, c0.labels as nat)->Ok_0.1);
            }
            Ok(())
    
        },
        _ => Err(not_analyzed_at(node.loc)),
    }
}

#[verifier::rlimit(100)]
#[verifier::spinoff_prover]
fn gen_while(node: &AstNode, class: &mut ClassWriter) -> (r: Result<(), CodeGenErr>)
    requires
        node.inner is While,
    ensures
        emitted(gen_while_text(node@, old(class).labels as nat), *old(class), *final(class), r),
    decreases node@, 0int,
{
    let ghost nv = node@;
    proof {
        assert(decreases_to!(nv => nv.item));
    }
    match &node.inner {
        AstItem::While { head, body } => {
            let ghost c0 = *class;
            proof {
                assert(decreases_to!(nv.item => nv.item->While_head));
                assert(decreases_to!(nv.item => nv.item->While_body));
            }
            class.line_directive(node.loc.row);
            let l = class.fresh_label();
            class.append_numbered("WhileHead", l, " :\n");
            match gen_opt_exec(head, class) {
                Ok(()) => {},
                Err(e) => {
                    proof {
                        assert(gen_while_text(nv, c0.labels as nat) == Err::<(Seq<char>, nat), GenFault>(fault_of(e)));
                    }
                    return Err(e);
                },
            }
            class.append_numbered("ifne While", l, "\n");
            class.append_numbered("goto EndWhile", l, "\n");
            class.append_numbered("While", l, " :\n");
            match body.code_gen(class) {
                Ok(()) => {},
                Err(e) => {
                    proof {
                        assert(gen_while_text(nv, c0.labels as nat) == Err::<(Seq<char>, nat), GenFault>(fault_of(e)));
                    }
                    return Err(e);
                },
            }
            class.append_numbered("goto WhileHead", l, "\n");
            class.append_numbered("EndWhile", l, " :\n");
            proof {
                assert(gen_while_text(nv, c0.labels as nat) is Ok
                    && class.main@ =~= c0.main@ + gen_while_text(nv, c0.labels as nat)->Ok_0.0
                    && class.labels as nat == gen_while_text(nv, c0.labels as nat)->Ok_0.1);
            }
            Ok(())
    
        },
        _ => Err(not_analyzed_at(node.loc)),
    }
}

#[verifier::rlimit(100)]
#[verifier::spinoff_prover]
fn gen_for(node: &AstNode, class: &mut ClassWriter) -> (r: Result<(), CodeGenErr>)
    requires
        node.inner is For,
    ensures
        emitted(gen_for_text(node@, old(class).labels as nat), *old(class), *final(class), r),
    decreases node@, 0int,
{
    let ghost nv = node@;
    proof {
        assert(decreases_to!(nv => nv.item));
    }
    match &node.inner {
        AstItem::For { init, condition, modifier, body } => {
            let ghost c0 = *class;
            proof {
                assert(decreases_to!(nv.item => nv.item->For_init));
                assert(decreases_to!(nv.item => nv.item->For_condition));
                assert(decreases_to!(nv.item => nv.item->For_modifier));
                assert(decreases_to!(nv.item => nv.item->For_body));
            }
            class.line_directive(node.loc.row);
            let l = class.fresh_label();
            let ghost k1 = class.labels as nat;
            let ghost mut acc = line_text(node.loc.row as nat);
            proof { assert(class.main@ =~= c0.main@ + acc); }
            match init.code_gen(class) {
                Ok(()) => {},
                Err(e) => {
                    proof {
                        assert(gen_for_text(nv, c0.labels as nat) == Err::<(Seq<char>, nat), GenFault>(fault_of(e)));
                    }
                    return Err(e);
                },
            }
            proof {
                let t = gen_node(*nv.item->For_init, k1)->Ok_0.0;
                lemma_concat3(c0.main@, acc, t);
                acc = acc + t;
                assert(class.main@ == c0.main@ + acc);
            }
            let ghost k2 = class.labels as nat;
            class.append_numbered("ForCond", l, " :\n");
            proof {
                let t = label("ForCond"@, l as nat) + " :\n"@;
                lemma_concat3(c0.main@, acc, t);
                acc = acc + t;
                assert(class.main@ == c0.main@ + acc);
            }
            match condition.code_gen(class) {
                Ok(()) => {},
                Err(e) => {
                    proof {
                        assert(gen_for_text(nv, c0.labels as nat) == Err::<(Seq<char>, nat), GenFault>(fault_of(e)));
                    }
                    return Err(e);
                },
            }
            proof {
                let t = gen_node(*nv.item->For_condition, k2)->Ok_0.0;
                lemma_concat3(c0.main@, acc, t);
                acc = acc + t;
                assert(class.main@ == c0.main@ + acc);
            }
            let ghost cb = *class;
            class.append_numbered("ifne ForBody", l, "\n");
            class.append_numbered("goto ForEnd", l, "\n");
            class.append_numbered("ForBody", l, " :\n");
            proof {
                let t = label("ifne ForBody"@, l as nat) + "\n"@ + label("goto ForEnd"@, l as nat) + "\n"@
                    + label("ForBody"@, l as nat) + " :\n"@;
                assert(class.main@ =~= cb.main@ + t);
                lemma_concat3(c0.main@, acc, t);
                acc = acc + t;
                assert(class.main@ == c0.main@ + acc);
            }
            let ghost k3 = class.labels as nat;
            match body.code_gen(class) {
                Ok(()) => {},
                Err(e) => {
                    proof {
                        assert(gen_for_text(nv, c0.labels as nat) == Err::<(Seq<char>, nat), GenFault>(fault_of(e)));
                    }
                    return Err(e);
                },
            }
            proof {
                let t = gen_node(*nv.item->For_body, k3)->Ok_0.0;
                lemma_concat3(c0.main@, acc, t);
                acc = acc + t;
                assert(class.main@ == c0.main@ + acc);
            }
            let ghost k4 = class.labels as nat;
            match modifier.code_gen(class) {
                Ok(()) => {},
                Err(e) => {
                    proof {
                        assert(gen_for_text(nv, c0.labels as nat) == Err::<(Seq<char>, nat), GenFault>(fault_of(e)));
                    }
                    return Err(e);
                },
            }
            proof {
                let t = gen_node(*nv.item->For_modifier, k4)->Ok_0.0;
                lemma_concat3(c0.main@, acc, t);
                acc = acc + t;
                assert(class.main@ == c0.main@ + acc);
            }
            let ghost ce = *class;
            class.append_numbered("goto ForCond", l, "\n");
            class.append_numbered("ForEnd", l, " :\n");
            proof {
                let t = label("goto ForCond"@, l as nat) + "\n"@ + label("ForEnd"@, l as nat) + " :\n"@;
                assert(class.main@ =~= ce.main@ + t);
                lemma_concat3(c0.main@, acc, t);
                acc = acc + t;
                assert(class.main@ == c0.main@ + acc);
                assert(gen_for_text(nv, c0.labels as nat) is Ok
                    && acc == gen_for_text(nv, c0.labels as nat)->Ok_0.0
                    && class.labels as nat == gen_for_text(nv, c0.labels as nat)->Ok_0.1);
            }
            Ok(())
    
        },
        _ => Err(not_analyzed_at(node.loc)),
    }
}

#[verifier::rlimit(100)]
#[verifier::spinoff_prover]
fn gen_switch(node: &AstNode, class: &mut ClassWriter) -> (r: Result<(), CodeGenErr>)
    requires
        node.inner is Switch,
    ensures
        emitted(gen_switch_text(node@, old(class).labels as nat), *old(class), *final(class), r),
    decreases node@, 0int,
{
    let ghost nv = node@;
    proof {
        assert(decreases_to!(nv => nv.item));
    }
    match &node.inner {
        AstItem::Switch { arms, default } => {
            let ghost c0 = *class;
            proof {
                assert(decreases_to!(nv.item => nv.item->Switch_arms));
                assert(decreases_to!(nv.item => nv.item->Switch_default));
            }
            let l = class.fresh_label();
            class.append_main("lookupswitch\n");
            emit_switch_table(arms, l, class);
            class.append_numbered("default : Switch", l, "default\n");
            match gen_arms_exec(arms, l, class) {
                Ok(()) => {},
                Err(e) => {
                    proof {
                        assert(gen_switch_text(nv, c0.labels as nat) == Err::<(Seq<char>, nat), GenFault>(fault_of(e)));
                    }
                    return Err(e);
                },
            }
            class.append_numbered("Switch", l, "default :\n");
            match default.code_gen(class) {
                Ok(()) => {},
                Err(e) => {
                    proof {
                        assert(gen_switch_text(nv, c0.labels as nat) == Err::<(Seq<char>, nat), GenFault>(fault_of(e)));
                    }
                    return Err(e);
                },
            }
            class.append_numbered("EndSwitch", l, " :\n");
            proof {
                assert(gen_switch_text(nv, c0.labels as nat) is Ok
                    && class.main@ =~= c0.main@ + gen_switch_text(nv, c0.labels as nat)->Ok_0.0
                    && class.labels as nat == gen_switch_text(nv, c0.labels as nat)->Ok_0.1);
            }
            Ok(())
    
        },
        _ => Err(not_analyzed_at(node.loc)),
    }
}

/// Emits the `lookupswitch` table.
fn emit_switch_table(arms: &Vec<(i32, AstNode)>, l: usize, class: &mut ClassWriter)
    ensures
        final(class).main@ == old(class).main@ + switch_table(arms_view(arms@), l as nat),
        final(class).labels == old(class).labels,
        same_frame(*old(class), *final(class)),
{
    let ghost orig = arms_view(arms@);
    let ghost m0 = class.main@;
    proof {
        lemma_arms_view(arms@);
        assert(orig.skip(0) =~= orig);
        assert(m0 + switch_table(orig, l as nat) =~= class.main@ + switch_table(orig.skip(0), l as nat));
    }
    let mut i: usize = 0;
    while i < arms.len()
        invariant
            i <= arms@.len(),
            orig == arms_view(arms@),
            orig.len() == arms@.len(),
            same_frame(*old(class), *class),
            class.labels == old(class).labels,
            m0 == old(class).main@,
            m0 + switch_table(orig, l as nat) == class.main@ + switch_table(orig.skip(i as int), l as nat),
        decreases arms@.len() - i,
    {
        let ghost cb = *class;
        let n = arms[i].0;
        class.append_int(n);
        class.append_main(" : Switch");
        class.append_nat(l);
        class.append_int(n);
        class.append_main("\n");
        proof {
            lemma_arms_view(arms@);
            let sk = orig.skip(i as int);
            assert(sk[0].0 == n);
            assert(sk.drop_first() =~= orig.skip(i + 1));
        }
        i = i + 1;
    }
    proof {
        assert(orig.skip(i as int) =~= Seq::<(i32, NodeV)>::empty());
        assert(class.main@ + Seq::<char>::empty() =~= class.main@);
    }
}

/// Emits the bodies of the numbered arms, each under its label and ending with a jump to the end.
fn gen_arms_exec(arms: &Vec<(i32, AstNode)>, l: usize, class: &mut ClassWriter) -> (r: Result<(), CodeGenErr>)
    ensures
        emitted(gen_arms(arms_view(arms@), l as nat, old(class).labels as nat), *old(class), *final(class), r),
    decreases arms_view(arms@), 0int,
{
    let ghost orig = arms_view(arms@);
    let ghost m0 = class.main@;
    proof {
        lemma_arms_view(arms@);
        assert(orig.skip(0) =~= orig);
        assert(written_since(*class, m0) =~= Seq::<char>::empty());
        assert(Seq::<char>::empty() + Seq::<char>::empty() =~= Seq::<char>::empty());
    }
    let mut i: usize = 0;
    while i < arms.len()
        invariant
            i <= arms@.len(),
            orig == arms_view(arms@),
            orig.len() == arms@.len(),
            same_frame(*old(class), *class),
            m0 == old(class).main@,
            class.main@.len() >= m0.len(),
            class.main@.subrange(0, m0.len() as int) == m0,
            gen_arms(orig, l as nat, old(class).labels as nat)
                == after(written_since(*class, m0), gen_arms(orig.skip(i as int), l as nat, class.labels as nat)),
        decreases arms@.len() - i,
    {
        proof {
            lemma_arms_view(arms@);
            assert(decreases_to!(orig => orig[i as int]));
            assert(decreases_to!(orig[i as int] => orig[i as int].1));
            let sk = orig.skip(i as int);
            assert(sk[0] == orig[i as int]);
            assert(sk.drop_first() =~= orig.skip(i + 1));
        }
        let ghost cb = *class;
        let n = arms[i].0;
        class.append_main("Switch");
        class.append_nat(l);
        class.append_int(n);
        class.append_main(" :\n");
        let ghost cd = *class;
        match arms[i].1.code_gen(class) {
            Ok(()) => {},
            Err(e) => { return Err(e); },
        }
        class.append_numbered("goto EndSwitch", l, "\n");
        proof {
            let t = gen_node(orig[i as int].1, cd.labels as nat)->Ok_0.0;
            let piece = label("Switch"@, l as nat) + int_text(n as int) + " :\n"@ + t + label("goto EndSwitch"@, l as nat) + "\n"@;
            assert(class.main@ =~= cb.main@ + piece);
            assert(written_since(*class, m0) =~= written_since(cb, m0) + piece);
            let rest = gen_arms(orig.skip(i + 1), l as nat, class.labels as nat);
            if rest is Ok {
                assert(written_since(cb, m0) + (piece + rest->Ok_0.0) =~= written_since(*class, m0) + rest->Ok_0.0);
            }
        }
        i = i + 1;
    }
    proof {
        assert(orig.skip(i as int) =~= Seq::<(i32, NodeV)>::empty());
        assert(written_since(*class, m0) + Seq::<char>::empty() =~= written_since(*class, m0));
        assert(class.main@ =~= m0 + written_since(*class, m0));
    }
    Ok(())
}

/// The code for the top-level nodes, each of which must carry its analysis.
pub open spec fn gen_top(s: Seq<NodeV>, k: nat) -> Result<(Seq<char>, nat), GenFault>
    decreases s.len(),
{
    if s.len() == 0 {
        Ok((Seq::empty(), k))
    } else if s[0].vars is None {
        Err(GenFault::NotAnalyzed(s[0].loc))
    } else {
        match gen_node(s[0], k) {
            Ok((t, k2)) => match gen_top(s.drop_first(), k2) {
                Ok((rest, k3)) => Ok((t + rest, k3)),
                Err(e) => Err(e),
            },
            Err(e) => Err(e),
        }
    }
}

/// The limit directives that open the main method.
pub open spec fn limits_text(max_stack: nat, max_locals: nat) -> Seq<char> {
    ".limit stack "@ + nat_text(max_stack) + "\n"@ + ".limit locals "@ + nat_text(max_locals) + "\n"@
}

impl AstBase {
    /// Emits the limit directives and then the code of every top-level node into `main`.
    pub fn code_gen(&self, class: &mut ClassWriter, max_stack_size: usize, max_vars_count: usize) -> (r: Result<(), CodeGenErr>)
        ensures
            emitted(
                match gen_top(nodes_view(self.nodes@), old(class).labels as nat) {
                    Ok((t, k)) => Ok((limits_text(max_stack_size as nat, max_vars_count as nat) + t, k)),
                    Err(e) => Err(e),
                },
                *old(class), *final(class), r,
            ),
    {
        let ghost c00 = *class;
        class.append_numbered(".limit stack ", max_stack_size, "\n");
        class.append_numbered(".limit locals ", max_vars_count, "\n");
        let ghost orig = nodes_view(self.nodes@);
        let ghost m0 = class.main@;
        proof {
            lemma_nodes_view(self.nodes@);
            assert(orig.skip(0) =~= orig);
            assert(written_since(*class, m0) =~= Seq::<char>::empty());
            assert(Seq::<char>::empty() + Seq::<char>::empty() =~= Seq::<char>::empty());
            assert(m0 =~= c00.main@ + limits_text(max_stack_size as nat, max_vars_count as nat));
        }
        let mut i: usize = 0;
        while i < self.nodes.len()
            invariant
                i <= self.nodes@.len(),
                orig == nodes_view(self.nodes@),
                orig.len() == self.nodes@.len(),
                same_frame(c00, *class),
                c00 == *old(class),
                m0 == c00.main@ + limits_text(max_stack_size as nat, max_vars_count as nat),
                class.main@.len() >= m0.len(),
                class.main@.subrange(0, m0.len() as int) == m0,
                gen_top(orig, old(class).labels as nat) == after(written_since(*class, m0), gen_top(orig.skip(i as int), class.labels as nat)),
            decreases self.nodes@.len() - i,
        {
            proof {
                lemma_nodes_view(self.nodes@);
                let sk = orig.skip(i as int);
                assert(sk[0] == orig[i as int]);
                assert(sk.drop_first() =~= orig.skip(i + 1));
            }
            if self.nodes[i].vars.is_none() {
                return Err(not_analyzed_at(self.nodes[i].loc));
            }
            let ghost cb = *class;
            match self.nodes[i].code_gen(class) {
                Ok(()) => {},
                Err(e) => { return Err(e); },
            }
            proof {
                let t = gen_node(orig[i as int], cb.labels as nat)->Ok_0.0;
                assert(class.main@ == cb.main@ + t);
                assert(written_since(*class, m0) =~= written_since(cb, m0) + t);
                let rest = gen_top(orig.skip(i + 1), class.labels as nat);
                if rest is Ok {
                    assert(written_since(cb, m0) + (t + rest->Ok_0.0) =~= written_since(*class, m0) + rest->Ok_0.0);
                }
            }
            i = i + 1;
        }
        proof {
            assert(orig.skip(i as int) =~= Seq::<NodeV>::empty());
            assert(written_since(*class, m0) + Seq::<char>::empty() =~= written_since(*class, m0));
            assert(class.main@ =~= m0 + written_since(*class, m0));
            lemma_concat3(c00.main@, limits_text(max_stack_size as nat, max_vars_count as nat), written_since(*class, m0));
        }
        Ok(())
    }
}

/// The code that stores the value on top into a list at an index, boxing an int first.
pub open spec fn set_text(boxed: bool) -> Seq<char> {
    (if boxed { box_int_text() } else { Seq::empty() })
        + "invokevirtual java/util/ArrayList/set(ILjava/lang/Object;)Ljava/lang/Object;\n"@ + "pop\n"@
}

/// The code that turns the string on top into a new list of its code points.
pub open spec fn char_list_text() -> Seq<char> {
    "new java/util/ArrayList\n"@ + "dup_x1\n"@ + "swap\n"@
        + "invokevirtual java/lang/String/codePoints()Ljava/util/stream/IntStream;\n"@
        + "invokeinterface java/util/stream/IntStream/boxed()Ljava/util/stream/Stream; 1\n"@
        + "invokestatic java/util/stream/Collectors/toList()Ljava/util/stream/Collector;\n"@
        + "invokeinterface java/util/stream/Stream/collect(Ljava/util/stream/Collector;)Ljava/lang/Object; 2\n"@
        + "checkcast java/util/Collection\n"@
        + "invokespecial java/util/ArrayList/<init>(Ljava/util/Collection;)V\n"@
}

impl ClassWriter {
    /// Emits the creation of a new empty list; `node` is the analyzed node it belongs to.
    pub fn new_list(&mut self, node: &AstNode)
        requires
            node.stack is Some,
        ensures
            final(self).main@ == old(self).main@ + new_list_text(),
            final(self).labels == old(self).labels,
            same_frame(*old(self), *final(self)),
    {
        emit_new_list(self);
    }

    /// Emits a `switch` node: its `lookupswitch` table, each numbered arm, then the default.
    pub fn switch(&mut self, node: &AstNode) -> (r: Result<(), CodeGenErr>)
        requires
            node.inner is Switch,
        ensures
            emitted(gen_node(node@, old(self).labels as nat), *old(self), *final(self), r),
    {
        proof {
            lemma_gen_node_control(node@, self.labels as nat);
        }
        gen_switch(node, self)
    }

    /// Emits a `typeswitch` node: the code of the arm that analysis chose.
    pub fn type_switch(&mut self, node: &AstNode) -> (r: Result<(), CodeGenErr>)
        requires
            node.inner is TypeSwitch,
        ensures
            emitted(gen_node(node@, old(self).labels as nat), *old(self), *final(self), r),
    {
        node.code_gen(self)
    }

    /// Emits a list element assignment; `node` is the analyzed node whose stack has the new
    /// element on top.
    pub fn set(&mut self, node: &AstNode)
        requires
            node.stack is Some,
            node.stack->Some_0@.len() > 0,
        ensures
            final(self).main@ == old(self).main@ + set_text(
                node@.stack->Some_0.last().ty == TypeView::Int,
            ),
            final(self).labels == old(self).labels,
            same_frame(*old(self), *final(self)),
    {
        let boxed = match &node.stack {
            Some(st) => st[st.len() - 1].ty.is_int(),
            None => false,
        };
        proof {
            let st = node.stack->Some_0;
            assert(node@.stack->Some_0.last() == st@[st@.len() - 1]@);
        }
        let ghost m0 = self.main@;
        if boxed {
            self.append_main("invokestatic java/lang/Integer/valueOf(I)Ljava/lang/Integer;\n");
        }
        self.append_main("invokevirtual java/util/ArrayList/set(ILjava/lang/Object;)Ljava/lang/Object;\n");
        self.append_main("pop\n");
        proof {
            assert(self.main@ =~= m0 + set_text(boxed));
        }
    }

    /// Emits the conversion of the string on top into a list of its code points; `node` is the
    /// node it belongs to.
    pub fn to_char_list(&mut self, node: &AstNode)
        ensures
            final(self).main@ == old(self).main@ + char_list_text(),
            final(self).labels == old(self).labels,
            same_frame(*old(self), *final(self)),
    {
        let ghost m0 = self.main@;
        self.append_main("new java/util/ArrayList\n");
        self.append_main("dup_x1\n");
        self.append_main("swap\n");
        self.append_main("invokevirtual java/lang/String/codePoints()Ljava/util/stream/IntStream;\n");
        self.append_main("invokeinterface java/util/stream/IntStream/boxed()Ljava/util/stream/Stream; 1\n");
        self.append_main("invokestatic java/util/stream/Collectors/toList()Ljava/util/stream/Collector;\n");
        self.append_main("invokeinterface java/util/stream/Stream/collect(Ljava/util/stream/Collector;)Ljava/lang/Object; 2\n");
        self.append_main("checkcast java/util/Collection\n");
        self.append_main("invokespecial java/util/ArrayList/<init>(Ljava/util/Collection;)V\n");
        proof {
            assert(self.main@ =~= m0 + char_list_text());
        }
    }
}

/// Why a program could not be compiled.
#[derive(Debug)]
pub enum CompileErr {
    Analyzer(AnalyzerErr),
    CodeGen(CodeGenErr),
}

/// Analyzes the program, then generates its class assembly with the stack limit found by the
/// analysis and one local more than it counted.
pub fn compile(ast: &mut AstBase, source: String, name: String) -> (r: Result<String, CompileErr>)
    ensures
        match crate::semantics::analyze_program(nodes_view(old(ast).nodes@), old(ast).file_index) {
            Ok((ns, a)) => match gen_top(ns, 0) {
                Ok((t, _k)) => r is Ok && r->Ok_0@ == crate::writer::class_text(
                    source@, name@, "java/lang/Object"@, Seq::empty(), Seq::empty(),
                    limits_text(a.max_stack as nat, (if a.max_vars < usize::MAX { a.max_vars + 1 } else { a.max_vars }) as nat) + t,
                    Seq::empty(),
                ),
                Err(f) => r is Err && r->Err_0 is CodeGen && fault_of(r->Err_0->CodeGen_0) == f,
            },
            Err(_) => r is Err && r->Err_0 is Analyzer,
        },
{
    let analysis = match ast.analyze() {
        Ok(a) => a,
        Err(e) => { return Err(CompileErr::Analyzer(e)); },
    };
    let mut class = ClassWriter::new(source, name, String::from_str("java/lang/Object"));
    let locals = analysis.max_vars_count.saturating_add(1);
    match ast.code_gen(&mut class, analysis.max_stack_size, locals) {
        Ok(()) => {},
        Err(e) => { return Err(CompileErr::CodeGen(e)); },
    }
    proof {
        assert(class.main@ =~= Seq::<char>::empty() + class.main@);
    }
    Ok(class.write())
}

} // verus!
