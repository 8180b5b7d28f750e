use vstd::prelude::*;

use crate::error::Loc;
use crate::pattern::{copy_outputs, copy_patterns, MatchInType, MatchOutType};
use crate::state::{copy_stack, copy_vars, stack_view, vars_view};
use crate::types::{ElemView, LocalVar, StackElement, Type, TypeView, VarView};

verus! {

broadcast use vstd::std_specs::vec::group_vec_axioms;

/// A whole program: its top-level nodes in source order.
#[derive(Debug)]
pub struct AstBase {
    pub nodes: Vec<AstNode>,
    pub file_index: usize,
}

/// One construct of the program with its source location and, once analyzed, the abstract
/// stack and variables in force where it runs.
#[derive(Debug)]
pub struct AstNode {
    pub inner: AstItem,
    pub loc: Loc,
    pub stack: Option<Vec<StackElement>>,
    pub vars: Option<Vec<(String, LocalVar)>>,
}

/// The constructs of the language.
#[derive(Debug)]
pub enum AstItem {
    /// Pushes an int onto the stack
    PushInt(i32),
    /// Pushes a string onto the stack
    PushString(String),
    /// Pushes a new empty list
    List(Type),
    ListLiteral(Vec<AstNode>),
    If {
        head: Option<Box<AstNode>>,
        body: Box<AstNode>,
        else_body: Option<Box<AstNode>>,
    },
    Switch {
        arms: Vec<(i32, AstNode)>,
        default: Box<AstNode>,
    },
    While {
        head: Option<Box<AstNode>>,
        body: Box<AstNode>,
    },
    For {
        init: Box<AstNode>,
        condition: Box<AstNode>,
        modifier: Box<AstNode>,
        body: Box<AstNode>,
    },
    Block(Vec<AstNode>),
    Store {
        initializer: Option<Box<AstNode>>,
        name: String,
    },
    Load(String),
    Jasmin {
        name: String,
        extra_stack: usize,
        input: Vec<MatchInType>,
        output: Vec<MatchOutType>,
        body: String,
    },
    TypeSwitch {
        arms: Vec<(Vec<MatchInType>, Box<AstNode>)>,
        chosen_index: Option<usize>,
    },
    CmpErr(String),
}

impl AstNode {
    /// A node that has not been analyzed yet.
    pub fn new(inner: AstItem, loc: Loc) -> (r: AstNode)
        ensures
            r.inner == inner,
            r.loc == loc,
            r.stack is None,
            r.vars is None,
    {
        AstNode { inner, loc, stack: None, vars: None }
    }
}

/// The mathematical model of a node.
pub struct NodeV {
    pub item: ItemV,
    pub loc: Loc,
    pub stack: Option<Seq<ElemView>>,
    pub vars: Option<Seq<(Seq<char>, VarView)>>,
}

/// The mathematical model of a construct; patterns are kept as they are.
pub enum ItemV {
    PushInt(i32),
    PushString(Seq<char>),
    List(TypeView),
    ListLiteral(Seq<NodeV>),
    If { head: Option<Box<NodeV>>, body: Box<NodeV>, else_body: Option<Box<NodeV>> },
    Switch { arms: Seq<(i32, NodeV)>, default: Box<NodeV> },
    While { head: Option<Box<NodeV>>, body: Box<NodeV> },
    For { init: Box<NodeV>, condition: Box<NodeV>, modifier: Box<NodeV>, body: Box<NodeV> },
    Block(Seq<NodeV>),
    Store { initializer: Option<Box<NodeV>>, name: Seq<char> },
    Load(Seq<char>),
    Jasmin {
        name: Seq<char>,
        extra_stack: usize,
        input: Seq<MatchInType>,
        output: Seq<MatchOutType>,
        body: Seq<char>,
    },
    TypeSwitch { arms: Seq<(Seq<MatchInType>, NodeV)>, chosen_index: Option<usize> },
    CmpErr(Seq<char>),
}

pub open spec fn node_view(n: AstNode) -> NodeV
    decreases n,
{
    NodeV {
        item: item_view(n.inner),
        loc: n.loc,
        stack: match n.stack {
            Some(s) => Some(stack_view(s@)),
            None => None,
        },
        vars: match n.vars {
            Some(v) => Some(vars_view(v@)),
            None => None,
        },
    }
}

pub open spec fn opt_node_view(n: Option<Box<AstNode>>) -> Option<Box<NodeV>>
    decreases n,
{
    match n {
        Some(b) => Some(Box::new(node_view(*b))),
        None => None,
    }
}

pub open spec fn item_view(i: AstItem) -> ItemV
    decreases i,
{
    match i {
        AstItem::PushInt(n) => ItemV::PushInt(n),
        AstItem::PushString(s) => ItemV::PushString(s@),
        AstItem::List(t) => ItemV::List(t@),
        AstItem::ListLiteral(v) => ItemV::ListLiteral(nodes_view(v@)),
        AstItem::If { head, body, else_body } => ItemV::If {
            head: opt_node_view(head),
            body: Box::new(node_view(*body)),
            else_body: opt_node_view(else_body),
        },
        AstItem::Switch { arms, default } => ItemV::Switch {
            arms: arms_view(arms@),
            default: Box::new(node_view(*default)),
        },
        AstItem::While { head, body } => ItemV::While {
            head: opt_node_view(head),
            body: Box::new(node_view(*body)),
        },
        AstItem::For { init, condition, modifier, body } => ItemV::For {
            init: Box::new(node_view(*init)),
            condition: Box::new(node_view(*condition)),
            modifier: Box::new(node_view(*modifier)),
            body: Box::new(node_view(*body)),
        },
        AstItem::Block(v) => ItemV::Block(nodes_view(v@)),
        AstItem::Store { initializer, name } => ItemV::Store {
            initializer: opt_node_view(initializer),
            name: name@,
        },
        AstItem::Load(name) => ItemV::Load(name@),
        AstItem::Jasmin { name, extra_stack, input, output, body } => ItemV::Jasmin {
            name: name@,
            extra_stack,
            input: input@,
            output: output@,
            body: body@,
        },
        AstItem::TypeSwitch { arms, chosen_index } => ItemV::TypeSwitch {
            arms: tarms_view(arms@),
            chosen_index,
        },
        AstItem::CmpErr(msg) => ItemV::CmpErr(msg@),
    }
}

pub open spec fn nodes_view(s: Seq<AstNode>) -> Seq<NodeV>
    decreases s,
{
    if s.len() == 0 {
        Seq::empty()
    } else {
        nodes_view(s.drop_last()).push(node_view(s.last()))
    }
}

pub open spec fn arms_view(s: Seq<(i32, AstNode)>) -> Seq<(i32, NodeV)>
    decreases s,
{
    if s.len() == 0 {
        Seq::empty()
    } else {
        arms_view(s.drop_last()).push((s.last().0, node_view(s.last().1)))
    }
}

pub open spec fn tarms_view(s: Seq<(Vec<MatchInType>, Box<AstNode>)>) -> Seq<(Seq<MatchInType>, NodeV)>
    decreases s,
{
    if s.len() == 0 {
        Seq::empty()
    } else {
        tarms_view(s.drop_last()).push((s.last().0@, node_view(*s.last().1)))
    }
}

impl View for AstNode {
    type V = NodeV;

    open spec fn view(&self) -> NodeV {
        node_view(*self)
    }
}

pub proof fn lemma_nodes_view(s: Seq<AstNode>)
    ensures
        nodes_view(s).len() == s.len(),
        forall|i: int| 0 <= i < s.len() ==> #[trigger] nodes_view(s)[i] == node_view(s[i]),
    decreases s.len(),
{
    if s.len() > 0 {
        lemma_nodes_view(s.drop_last());
    }
}

pub proof fn lemma_arms_view(s: Seq<(i32, AstNode)>)
    ensures
        arms_view(s).len() == s.len(),
        forall|i: int| 0 <= i < s.len() ==> #[trigger] arms_view(s)[i] == (s[i].0, node_view(s[i].1)),
    decreases s.len(),
{
    if s.len() > 0 {
        lemma_arms_view(s.drop_last());
    }
}

pub proof fn lemma_tarms_view(s: Seq<(Vec<MatchInType>, Box<AstNode>)>)
    ensures
        tarms_view(s).len() == s.len(),
        forall|i: int| 0 <= i < s.len() ==> #[trigger] tarms_view(s)[i] == (s[i].0@, node_view(*s[i].1)),
    decreases s.len(),
{
    if s.len() > 0 {
        lemma_tarms_view(s.drop_last());
    }
}

pub(crate) fn copy_opt_node(n: &Option<Box<AstNode>>) -> (r: Option<Box<AstNode>>)
    ensures
        opt_node_view(r) == opt_node_view(*n),
    decreases *n, 1int,
{
    match n {
        Some(b) => {
            proof {
                assert(decreases_to!(*n => n->Some_0));
            }
            Some(Box::new(b.copy()))
        },
        None => None,
    }
}

impl AstNode {
    /// A copy of the node, annotations included, with the same model.
    pub fn copy(&self) -> (r: AstNode)
        ensures
            r@ == self@,
        decreases *self, 0int,
    {
        let stack = match &self.stack {
            Some(s) => Some(copy_stack(s)),
            None => None,
        };
        let vars = match &self.vars {
            Some(v) => Some(copy_vars(v)),
            None => None,
        };
        proof {
            assert(decreases_to!(*self => self.inner));
        }
        AstNode { inner: self.inner.copy(), loc: self.loc, stack, vars }
    }
}

impl AstItem {
    /// A copy of the construct with the same model.
    pub fn copy(&self) -> (r: AstItem)
        ensures
            item_view(r) == item_view(*self),
        decreases *self, 0int,
    {
        match self {
            AstItem::PushInt(n) => AstItem::PushInt(*n),
            AstItem::PushString(s) => AstItem::PushString(s.clone()),
            AstItem::List(t) => AstItem::List(t.copy()),
            AstItem::ListLiteral(v) => {
                proof { assert(decreases_to!(*self => self->ListLiteral_0)); }
                AstItem::ListLiteral(copy_nodes(v))
            },
            AstItem::If { head, body, else_body } => {
                proof {
                    assert(decreases_to!(*self => self->If_head));
                    assert(decreases_to!(*self => self->If_body));
                    assert(decreases_to!(*self => self->If_else_body));
                }
                AstItem::If { head: copy_opt_node(head), body: Box::new(body.copy()), else_body: copy_opt_node(else_body) }
            },
            AstItem::Switch { arms, default } => {
                proof {
                    assert(decreases_to!(*self => self->Switch_arms));
                    assert(decreases_to!(*self => self->Switch_default));
                }
                AstItem::Switch { arms: copy_arms(arms), default: Box::new(default.copy()) }
            },
            AstItem::While { head, body } => {
                proof {
                    assert(decreases_to!(*self => self->While_head));
                    assert(decreases_to!(*self => self->While_body));
                }
                AstItem::While { head: copy_opt_node(head), body: Box::new(body.copy()) }
            },
            AstItem::For { init, condition, modifier, body } => {
                proof {
                    assert(decreases_to!(*self => self->For_init));
                    assert(decreases_to!(*self => self->For_condition));
                    assert(decreases_to!(*self => self->For_modifier));
                    assert(decreases_to!(*self => self->For_body));
                }
                AstItem::For {
                    init: Box::new(init.copy()),
                    condition: Box::new(condition.copy()),
                    modifier: Box::new(modifier.copy()),
                    body: Box::new(body.copy()),
                }
            },
            AstItem::Block(v) => {
                proof { assert(decreases_to!(*self => self->Block_0)); }
                AstItem::Block(copy_nodes(v))
            },
            AstItem::Store { initializer, name } => {
                proof { assert(decreases_to!(*self => self->Store_initializer)); }
                AstItem::Store { initializer: copy_opt_node(initializer), name: name.clone() }
            },
            AstItem::Load(name) => AstItem::Load(name.clone()),
            AstItem::Jasmin { name, extra_stack, input, output, body } => AstItem::Jasmin {
                name: name.clone(),
                extra_stack: *extra_stack,
                input: copy_patterns(input),
                output: copy_outputs(output),
                body: body.clone(),
            },
            AstItem::TypeSwitch { arms, chosen_index } => {
                proof { assert(decreases_to!(*self => self->TypeSwitch_arms)); }
                AstItem::TypeSwitch { arms: copy_tarms(arms), chosen_index: *chosen_index }
            },
            AstItem::CmpErr(msg) => AstItem::CmpErr(msg.clone()),
        }
    }
}

fn copy_nodes(v: &Vec<AstNode>) -> (r: Vec<AstNode>)
    ensures
        nodes_view(r@) == nodes_view(v@),
    decreases *v, 1int,
{
    let mut r: Vec<AstNode> = Vec::new();
    let mut i: usize = 0;
    while i < v.len()
        invariant
            i <= v@.len(),
            nodes_view(r@) == nodes_view(v@.take(i as int)),
        decreases v@.len() - i,
    {
        proof {
            assert(decreases_to!(*v => v[i as int]));
        }
        let c = v[i].copy();
        let ghost before = r@;
        r.push(c);
        proof {
            assert(r@.drop_last() == before);
            assert(v@.take(i + 1).drop_last() =~= v@.take(i as int));
        }
        i = i + 1;
    }
    proof {
        assert(v@.take(i as int) =~= v@);
    }
    r
}

fn copy_arms(v: &Vec<(i32, AstNode)>) -> (r: Vec<(i32, AstNode)>)
    ensures
        arms_view(r@) == arms_view(v@),
    decreases *v, 1int,
{
    let mut r: Vec<(i32, AstNode)> = Vec::new();
    let mut i: usize = 0;
    while i < v.len()
        invariant
            i <= v@.len(),
            arms_view(r@) == arms_view(v@.take(i as int)),
        decreases v@.len() - i,
    {
        proof {
            assert(decreases_to!(*v => v[i as int]));
            assert(decreases_to!(v[i as int] => v[i as int].1));
        }
        let c = v[i].1.copy();
        let ghost before = r@;
        r.push((v[i].0, c));
        proof {
            assert(r@.drop_last() == before);
            assert(v@.take(i + 1).drop_last() =~= v@.take(i as int));
        }
        i = i + 1;
    }
    proof {
        assert(v@.take(i as int) =~= v@);
    }
    r
}

fn copy_tarms(v: &Vec<(Vec<MatchInType>, Box<AstNode>)>) -> (r: Vec<(Vec<MatchInType>, Box<AstNode>)>)
    ensures
        tarms_view(r@) == tarms_view(v@),
    decreases *v, 1int,
{
    let mut r: Vec<(Vec<MatchInType>, Box<AstNode>)> = Vec::new();
    let mut i: usize = 0;
    while i < v.len()
        invariant
            i <= v@.len(),
            tarms_view(r@) == tarms_view(v@.take(i as int)),
        decreases v@.len() - i,
    {
        proof {
            assert(decreases_to!(*v => v[i as int]));
            assert(decreases_to!(v[i as int] => v[i as int].1));
        }
        let c = v[i].1.copy();
        let ghost before = r@;
        r.push((copy_patterns(&v[i].0), Box::new(c)));
        proof {
            assert(r@.drop_last() == before);
            assert(v@.take(i + 1).drop_last() =~= v@.take(i as int));
        }
        i = i + 1;
    }
    proof {
        assert(v@.take(i as int) =~= v@);
    }
    r
}

} // verus!
