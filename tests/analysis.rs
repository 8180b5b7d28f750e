use jack::analyzer::types_text;
use jack::ast::{AstBase, AstItem, AstNode};
use jack::error::{AnalyzerErr, Loc};
use jack::pattern::{MatchInType, MatchOutType};
use jack::state::AstAnalysis;
use jack::types::{Type, Value};

fn at(row: usize) -> Loc {
    Loc { file_index: 0, row, col: 1 }
}

fn node(item: AstItem) -> AstNode {
    AstNode::new(item, at(1))
}

fn push_int(n: i32) -> AstNode {
    node(AstItem::PushInt(n))
}

fn block(nodes: Vec<AstNode>) -> AstNode {
    node(AstItem::Block(nodes))
}

fn program(nodes: Vec<AstNode>) -> AstBase {
    AstBase { nodes, file_index: 0 }
}

fn consume(input: Vec<MatchInType>) -> AstNode {
    node(AstItem::Jasmin {
        name: "consume".to_string(),
        extra_stack: 0,
        input,
        output: vec![],
        body: "pop".to_string(),
    })
}

fn is_type_err(r: &Result<(), AnalyzerErr>) -> bool {
    matches!(r, Err(AnalyzerErr::TypeErr(..)))
}

#[test]
fn two_ints_leave_the_stack_non_empty() {
    let mut ast = program(vec![push_int(1), push_int(2)]);
    match ast.analyze() {
        Err(AnalyzerErr::TypeErr(msg, _)) => assert!(msg.contains("[Int, Int]")),
        _ => panic!("expected a type error"),
    }
}

#[test]
fn empty_program_analyzes() {
    let mut ast = program(vec![]);
    let a = ast.analyze().ok().unwrap();
    assert_eq!(a.max_stack_size, 0);
    assert_eq!(a.max_vars_count, 0);
    assert!(a.stack.is_empty());
}

#[test]
fn well_typed_program_ends_empty() {
    let mut ast = program(vec![push_int(1), consume(vec![MatchInType::Type(Type::Int)])]);
    let a = ast.analyze().ok().unwrap();
    assert!(a.stack.is_empty());
    assert_eq!(a.max_stack_size, 1);
}

#[test]
fn store_then_load_uses_one_slot() {
    let mut a = AstAnalysis::new();
    let mut store = node(AstItem::Store { initializer: Some(Box::new(push_int(1))), name: "x".to_string() });
    assert!(store.analyze(&mut a).is_ok());
    assert!(a.stack.is_empty());
    assert_eq!(a.max_vars_count, 1);
    let mut load = node(AstItem::Load("x".to_string()));
    assert!(load.analyze(&mut a).is_ok());
    assert_eq!(a.types().len(), 1);
    assert!(a.types()[0].is_number());
    assert!(matches!(a.stack[0].value, Some(Value::Int(1))));
}

#[test]
fn string_left_on_stack_is_an_error_and_a_consumer_fixes_it() {
    let mut ast = program(vec![node(AstItem::PushString("hi".to_string()))]);
    match ast.analyze() {
        Err(AnalyzerErr::TypeErr(msg, _)) => assert!(msg.contains("[String]")),
        _ => panic!("expected a type error"),
    }
    let mut ast = program(vec![
        node(AstItem::PushString("hi".to_string())),
        consume(vec![MatchInType::Type(Type::String)]),
    ]);
    assert!(ast.analyze().is_ok());
}

#[test]
fn list_literal_of_three_ints() {
    let mut lit = node(AstItem::ListLiteral(vec![block(vec![push_int(1)]), block(vec![push_int(2)]), block(vec![push_int(3)])]));
    let mut a = AstAnalysis::new();
    assert!(lit.analyze(&mut a).is_ok());
    let types = a.types();
    assert_eq!(types.len(), 1);
    assert!(matches!(&types[0], Type::List(inner) if inner.is_number()));
    assert_eq!(a.max_stack_size, 5);
}

#[test]
fn empty_list_then_literal() {
    let mut ast = program(vec![
        node(AstItem::List(Type::Int)),
        node(AstItem::ListLiteral(vec![block(vec![push_int(1)]), block(vec![push_int(2)]), block(vec![push_int(3)])])),
        consume(vec![MatchInType::Any, MatchInType::Any]),
    ]);
    assert!(ast.analyze().is_ok());
}

#[test]
fn empty_list_literal_is_rejected() {
    let mut lit = node(AstItem::ListLiteral(vec![]));
    let mut a = AstAnalysis::new();
    assert!(is_type_err(&lit.analyze(&mut a)));
}

#[test]
fn list_literal_with_mixed_elements_is_rejected() {
    let mut lit = node(AstItem::ListLiteral(vec![
        block(vec![push_int(1)]),
        block(vec![node(AstItem::PushString("a".to_string()))]),
    ]));
    let mut a = AstAnalysis::new();
    assert!(is_type_err(&lit.analyze(&mut a)));
}

#[test]
fn list_literal_element_pushing_two_is_rejected() {
    let mut lit = node(AstItem::ListLiteral(vec![block(vec![push_int(1), push_int(2)])]));
    let mut a = AstAnalysis::new();
    assert!(is_type_err(&lit.analyze(&mut a)));
}

#[test]
fn if_else_with_equal_branches() {
    let mut n = node(AstItem::If {
        head: Some(Box::new(block(vec![push_int(1)]))),
        body: Box::new(block(vec![push_int(2)])),
        else_body: Some(Box::new(block(vec![push_int(3)]))),
    });
    let mut a = AstAnalysis::new();
    assert!(n.analyze(&mut a).is_ok());
    assert_eq!(a.types().len(), 1);
    assert!(a.types()[0].is_number());
    assert!(a.stack[0].value.is_none());
}

#[test]
fn if_else_with_different_branches_is_rejected() {
    let mut n = node(AstItem::If {
        head: Some(Box::new(block(vec![push_int(1)]))),
        body: Box::new(block(vec![push_int(2)])),
        else_body: Some(Box::new(block(vec![]))),
    });
    let mut a = AstAnalysis::new();
    assert!(is_type_err(&n.analyze(&mut a)));
}

#[test]
fn if_without_else_neutral_body_is_accepted() {
    let mut n = node(AstItem::If {
        head: Some(Box::new(block(vec![push_int(1)]))),
        body: Box::new(block(vec![])),
        else_body: None,
    });
    let mut a = AstAnalysis::new();
    assert!(n.analyze(&mut a).is_ok());
    assert!(a.stack.is_empty());
}

#[test]
fn if_without_else_pushing_body_is_rejected() {
    let mut n = node(AstItem::If {
        head: Some(Box::new(block(vec![push_int(1)]))),
        body: Box::new(block(vec![push_int(2)])),
        else_body: None,
    });
    let mut a = AstAnalysis::new();
    assert!(is_type_err(&n.analyze(&mut a)));
}

#[test]
fn if_needs_an_int_condition() {
    let mut n = node(AstItem::If {
        head: Some(Box::new(block(vec![node(AstItem::PushString("s".to_string()))]))),
        body: Box::new(block(vec![])),
        else_body: None,
    });
    let mut a = AstAnalysis::new();
    assert!(is_type_err(&n.analyze(&mut a)));
}

#[test]
fn switch_arms_agreeing_with_default() {
    let mut n = node(AstItem::Switch {
        arms: vec![(3, block(vec![push_int(30)])), (1, block(vec![push_int(10)]))],
        default: Box::new(block(vec![push_int(0)])),
    });
    let mut a = AstAnalysis::new();
    a.push(Type::Int, None);
    assert!(n.analyze(&mut a).is_ok());
    assert_eq!(a.types().len(), 1);
    match &n.inner {
        AstItem::Switch { arms, .. } => {
            assert_eq!(arms[0].0, 1);
            assert_eq!(arms[1].0, 3);
        },
        _ => panic!("switch expected"),
    }
}

#[test]
fn switch_arm_disagreeing_is_rejected() {
    let mut n = node(AstItem::Switch {
        arms: vec![(1, block(vec![]))],
        default: Box::new(block(vec![push_int(0)])),
    });
    let mut a = AstAnalysis::new();
    a.push(Type::Int, None);
    assert!(is_type_err(&n.analyze(&mut a)));
}

#[test]
fn while_with_neutral_body_keeps_the_stack() {
    let mut n = node(AstItem::While {
        head: Some(Box::new(block(vec![push_int(1)]))),
        body: Box::new(block(vec![])),
    });
    let mut a = AstAnalysis::new();
    assert!(n.analyze(&mut a).is_ok());
    assert!(a.stack.is_empty());
}

#[test]
fn while_with_pushing_body_is_rejected() {
    let mut n = node(AstItem::While {
        head: Some(Box::new(block(vec![push_int(1)]))),
        body: Box::new(block(vec![push_int(2)])),
    });
    let mut a = AstAnalysis::new();
    assert!(is_type_err(&n.analyze(&mut a)));
}

#[test]
fn for_loop_keeps_the_stack() {
    let mut n = node(AstItem::For {
        init: Box::new(block(vec![])),
        condition: Box::new(block(vec![push_int(1)])),
        modifier: Box::new(block(vec![])),
        body: Box::new(block(vec![])),
    });
    let mut a = AstAnalysis::new();
    a.push(Type::String, None);
    assert!(n.analyze(&mut a).is_ok());
    assert_eq!(a.types().len(), 1);
    assert!(!a.types()[0].is_number());
}

#[test]
fn for_condition_must_push_one_int() {
    let mut n = node(AstItem::For {
        init: Box::new(block(vec![])),
        condition: Box::new(block(vec![])),
        modifier: Box::new(block(vec![])),
        body: Box::new(block(vec![])),
    });
    let mut a = AstAnalysis::new();
    assert!(is_type_err(&n.analyze(&mut a)));
}

#[test]
fn rebinding_keeps_the_slot() {
    let mut a = AstAnalysis::new();
    let mut s1 = node(AstItem::Store { initializer: Some(Box::new(push_int(1))), name: "x".to_string() });
    let mut s2 = node(AstItem::Store { initializer: Some(Box::new(push_int(2))), name: "y".to_string() });
    let mut s3 = node(AstItem::Store { initializer: Some(Box::new(push_int(3))), name: "x".to_string() });
    assert!(s1.analyze(&mut a).is_ok());
    assert!(s2.analyze(&mut a).is_ok());
    assert!(s3.analyze(&mut a).is_ok());
    assert_eq!(a.vars.len(), 2);
    assert_eq!(a.vars[0].1.index, 0);
    assert_eq!(a.vars[1].1.index, 1);
    assert!(matches!(a.vars[0].1.elem.value, Some(Value::Int(3))));
    assert_eq!(a.max_vars_count, 3);
}

#[test]
fn rebinding_with_another_type_is_rejected() {
    let mut a = AstAnalysis::new();
    let mut s1 = node(AstItem::Store { initializer: Some(Box::new(push_int(1))), name: "x".to_string() });
    let mut s2 = node(AstItem::Store {
        initializer: Some(Box::new(node(AstItem::PushString("s".to_string())))),
        name: "x".to_string(),
    });
    assert!(s1.analyze(&mut a).is_ok());
    assert!(is_type_err(&s2.analyze(&mut a)));
}

#[test]
fn loading_an_unknown_variable_is_rejected() {
    let mut a = AstAnalysis::new();
    let mut n = node(AstItem::Load("nope".to_string()));
    assert!(is_type_err(&n.analyze(&mut a)));
}

#[test]
fn store_on_empty_stack_is_rejected() {
    let mut a = AstAnalysis::new();
    let mut n = node(AstItem::Store { initializer: None, name: "x".to_string() });
    assert!(is_type_err(&n.analyze(&mut a)));
}

#[test]
fn fragment_without_inputs_or_outputs_only_raises_the_mark() {
    let mut a = AstAnalysis::new();
    let mut n = node(AstItem::Jasmin {
        name: "noop".to_string(),
        extra_stack: 3,
        input: vec![],
        output: vec![],
        body: "nop".to_string(),
    });
    assert!(n.analyze(&mut a).is_ok());
    assert!(a.stack.is_empty());
    assert_eq!(a.max_stack_size, 3);
}

#[test]
fn fragment_with_generic_input_and_output() {
    let mut a = AstAnalysis::new();
    a.push(Type::List(Box::new(Type::String)), None);
    let mut n = node(AstItem::Jasmin {
        name: "first".to_string(),
        extra_stack: 0,
        input: vec![MatchInType::List(Box::new(MatchInType::Generic("T".to_string())))],
        output: vec![MatchOutType::Generic("T".to_string())],
        body: "...".to_string(),
    });
    assert!(n.analyze(&mut a).is_ok());
    assert_eq!(a.types().len(), 1);
    assert!(matches!(&a.types()[0], Type::String));
}

#[test]
fn fragment_with_unbound_output_is_rejected() {
    let mut a = AstAnalysis::new();
    let mut n = node(AstItem::Jasmin {
        name: "bad".to_string(),
        extra_stack: 0,
        input: vec![],
        output: vec![MatchOutType::Generic("T".to_string())],
        body: "...".to_string(),
    });
    assert!(is_type_err(&n.analyze(&mut a)));
}

#[test]
fn fragment_with_missing_input_is_rejected() {
    let mut a = AstAnalysis::new();
    let mut n = consume(vec![MatchInType::Any]);
    assert!(is_type_err(&n.analyze(&mut a)));
}

#[test]
fn typeswitch_picks_the_int_arm() {
    let mut a = AstAnalysis::new();
    a.push(Type::Int, None);
    let mut n = node(AstItem::TypeSwitch {
        arms: vec![
            (vec![MatchInType::Type(Type::Int)], Box::new(block(vec![consume(vec![MatchInType::Type(Type::Int)])]))),
            (vec![MatchInType::Type(Type::String)], Box::new(block(vec![]))),
        ],
        chosen_index: None,
    });
    assert!(n.analyze(&mut a).is_ok());
    assert!(matches!(n.inner, AstItem::TypeSwitch { chosen_index: Some(0), .. }));
    assert!(a.stack.is_empty());
}

#[test]
fn typeswitch_any_picks_the_first_arm() {
    let mut a = AstAnalysis::new();
    a.push(Type::String, None);
    let mut n = node(AstItem::TypeSwitch {
        arms: vec![
            (vec![MatchInType::Any], Box::new(block(vec![]))),
            (vec![MatchInType::Type(Type::String)], Box::new(block(vec![]))),
        ],
        chosen_index: None,
    });
    assert!(n.analyze(&mut a).is_ok());
    assert!(matches!(n.inner, AstItem::TypeSwitch { chosen_index: Some(0), .. }));
}

#[test]
fn typeswitch_without_match_is_rejected() {
    let mut a = AstAnalysis::new();
    a.push(Type::Int, None);
    let mut n = node(AstItem::TypeSwitch {
        arms: vec![(vec![MatchInType::Type(Type::String)], Box::new(block(vec![])))],
        chosen_index: None,
    });
    assert!(is_type_err(&n.analyze(&mut a)));
}

#[test]
fn compile_error_item_fires() {
    let mut a = AstAnalysis::new();
    a.push(Type::Int, None);
    let mut n = node(AstItem::CmpErr("stop".to_string()));
    match n.analyze(&mut a) {
        Err(AnalyzerErr::CompilerErr(msg, _)) => {
            assert!(msg.starts_with("stop"));
            assert!(msg.contains("[Int]"));
        },
        _ => panic!("expected a compiler error"),
    }
}

#[test]
fn node_snapshot_is_the_state_before() {
    let mut a = AstAnalysis::new();
    a.push(Type::String, None);
    let mut n = push_int(4);
    assert!(n.analyze(&mut a).is_ok());
    assert_eq!(n.stack.as_ref().unwrap().len(), 1);
    assert_eq!(a.stack.len(), 2);
}

#[test]
fn reanalysis_gives_the_same_annotations() {
    let mut n = node(AstItem::Switch {
        arms: vec![(2, block(vec![push_int(1)])), (1, block(vec![push_int(2)]))],
        default: Box::new(block(vec![push_int(0)])),
    });
    let mut a = AstAnalysis::new();
    a.push(Type::Int, None);
    let before = a.copy();
    assert!(n.analyze(&mut a).is_ok());
    let first = format!("{:?}", n);
    let mut b = before.copy();
    assert!(n.analyze(&mut b).is_ok());
    assert_eq!(first, format!("{:?}", n));
    assert_eq!(format!("{:?}", a), format!("{:?}", b));
}

#[test]
fn state_operations() {
    let mut a = AstAnalysis::new();
    a.push(Type::Int, Some(Value::Int(5)));
    a.require_additional_stack_size(4);
    assert_eq!(a.max_stack_size, 5);
    a.forget_const_values();
    assert!(a.stack[0].value.is_none());
    let mut other = AstAnalysis::new();
    other.max_vars_count = 7;
    a.max_max_values_with(&other);
    assert_eq!(a.max_vars_count, 7);
    assert_eq!(a.max_stack_size, 5);
    assert!(a.expect_list("need a list".to_string(), at(1)).is_err());
    a.push(Type::List(Box::new(Type::Int)), None);
    assert!(a.expect_list("need a list".to_string(), at(1)).is_ok());
    assert!(a.pop().is_none());
    assert!(a.expect_any("empty".to_string(), at(2)).is_err());
    a.push(Type::String, None);
    assert!(a.expect(&Type::Int, "int".to_string(), at(3)).is_err());
}

#[test]
fn types_text_lists_the_stack() {
    let t = vec![Type::Int, Type::List(Box::new(Type::String)), Type::Object("a/B".to_string())];
    assert_eq!(types_text(&t), "[Int, List(String), Object(a/B)]");
}

#[test]
fn error_location() {
    let e = AnalyzerErr::TypeErr("x".to_string(), at(9));
    assert_eq!(e.loc(), Some(at(9)));
    assert_eq!(Loc::start_of_file(2), Loc { file_index: 2, row: 1, col: 1 });
}

#[test]
fn stores_on_two_branches_count_once() {
    let mut n = node(AstItem::If {
        head: Some(Box::new(block(vec![push_int(1)]))),
        body: Box::new(block(vec![node(AstItem::Store { initializer: Some(Box::new(push_int(1))), name: "x".to_string() })])),
        else_body: Some(Box::new(block(vec![node(AstItem::Store {
            initializer: Some(Box::new(push_int(2))),
            name: "y".to_string(),
        })]))),
    });
    let mut a = AstAnalysis::new();
    assert!(n.analyze(&mut a).is_ok());
    assert_eq!(a.max_vars_count, 1);
    assert!(a.vars.is_empty());
}

#[test]
fn switch_keeps_the_marks_of_its_arms() {
    let deep = node(AstItem::Jasmin {
        name: "deep".to_string(),
        extra_stack: 10,
        input: vec![],
        output: vec![],
        body: "nop".to_string(),
    });
    let mut n = node(AstItem::Switch { arms: vec![(1, block(vec![deep]))], default: Box::new(block(vec![])) });
    let mut a = AstAnalysis::new();
    a.push(Type::Int, None);
    assert!(n.analyze(&mut a).is_ok());
    assert_eq!(a.max_stack_size, 10);
}

#[test]
fn switch_counts_the_variables_of_its_arms() {
    let store = node(AstItem::Store { initializer: Some(Box::new(push_int(1))), name: "x".to_string() });
    let mut ast = program(vec![
        push_int(0),
        node(AstItem::Switch { arms: vec![(1, block(vec![store]))], default: Box::new(block(vec![])) }),
    ]);
    let a = ast.analyze().ok().unwrap();
    assert_eq!(a.max_vars_count, 1);
    assert!(a.vars.is_empty());
}

#[test]
fn errors_carry_the_construct_location() {
    let mut n = AstNode::new(
        AstItem::If {
            head: Some(Box::new(block(vec![push_int(1)]))),
            body: Box::new(block(vec![push_int(2)])),
            else_body: None,
        },
        at(7),
    );
    let mut a = AstAnalysis::new();
    let r = n.analyze(&mut a);
    assert!(matches!(r, Err(AnalyzerErr::TypeErr(_, l)) if l == at(7)));
    assert!(n.stack.as_ref().unwrap().is_empty());
}

#[test]
fn for_errors_are_reported_at_the_condition() {
    let mut n = AstNode::new(
        AstItem::For {
            init: Box::new(block(vec![])),
            condition: Box::new(AstNode::new(AstItem::Block(vec![]), at(4))),
            modifier: Box::new(block(vec![])),
            body: Box::new(block(vec![])),
        },
        at(3),
    );
    let mut a = AstAnalysis::new();
    assert!(matches!(n.analyze(&mut a), Err(AnalyzerErr::TypeErr(_, l)) if l == at(4)));
}

#[test]
fn program_end_error_lists_the_stack_at_the_last_node() {
    let mut ast = program(vec![AstNode::new(AstItem::PushInt(1), at(1)), AstNode::new(AstItem::PushInt(2), at(2))]);
    match ast.analyze() {
        Err(AnalyzerErr::TypeErr(msg, l)) => {
            assert_eq!(msg, "stack is not empty when the program finishes but has [Int, Int]");
            assert_eq!(l, at(2));
        },
        _ => panic!("expected a type error"),
    }
}

#[test]
fn compile_error_message_and_state() {
    let mut a = AstAnalysis::new();
    a.push(Type::String, None);
    let mut n = AstNode::new(AstItem::CmpErr("halt".to_string()), at(5));
    match n.analyze(&mut a) {
        Err(AnalyzerErr::CompilerErr(msg, l)) => {
            assert_eq!(msg, "halt\n\tstack: [String]");
            assert_eq!(l, at(5));
        },
        _ => panic!("expected a compiler error"),
    }
    assert_eq!(a.stack.len(), 1);
}

#[test]
fn typeswitch_arms_bind_generics_afresh() {
    let mut a = AstAnalysis::new();
    a.push(Type::String, None);
    a.push(Type::Int, None);
    let t = || MatchInType::Generic("T".to_string());
    let mut n = node(AstItem::TypeSwitch {
        arms: vec![
            (vec![MatchInType::List(Box::new(MatchInType::Type(Type::Int))), t()], Box::new(block(vec![]))),
            (vec![t(), MatchInType::Type(Type::Int)], Box::new(block(vec![]))),
        ],
        chosen_index: None,
    });
    assert!(n.analyze(&mut a).is_ok());
    assert!(matches!(n.inner, AstItem::TypeSwitch { chosen_index: Some(1), .. }));
}

#[test]
fn loops_and_switches_forget_constants() {
    let mut f = node(AstItem::For {
        init: Box::new(block(vec![])),
        condition: Box::new(block(vec![push_int(1)])),
        modifier: Box::new(block(vec![])),
        body: Box::new(block(vec![])),
    });
    let mut a = AstAnalysis::new();
    a.push(Type::Int, Some(Value::Int(3)));
    assert!(f.analyze(&mut a).is_ok());
    assert!(a.stack[0].value.is_none());
    let mut sw = node(AstItem::Switch { arms: vec![], default: Box::new(block(vec![push_int(9)])) });
    let mut b = AstAnalysis::new();
    b.push(Type::Int, None);
    assert!(sw.analyze(&mut b).is_ok());
    assert_eq!(b.stack.len(), 1);
    assert!(b.stack[0].value.is_none());
}

#[test]
fn list_elements_do_not_see_each_others_bindings() {
    let first = block(vec![
        push_int(5),
        node(AstItem::Store { initializer: None, name: "x".to_string() }),
        push_int(1),
    ]);
    let second = block(vec![node(AstItem::Load("x".to_string()))]);
    let mut lit = node(AstItem::ListLiteral(vec![first, second]));
    let mut a = AstAnalysis::new();
    assert!(is_type_err(&lit.analyze(&mut a)));
}

#[test]
fn failed_store_keeps_the_binding() {
    let mut a = AstAnalysis::new();
    let mut s1 = node(AstItem::Store { initializer: Some(Box::new(push_int(1))), name: "x".to_string() });
    assert!(s1.analyze(&mut a).is_ok());
    a.push(Type::String, None);
    let mut s2 = node(AstItem::Store { initializer: None, name: "x".to_string() });
    assert!(is_type_err(&s2.analyze(&mut a)));
    assert!(matches!(a.vars[0].1.elem.ty, Type::Int));
    assert!(matches!(a.vars[0].1.elem.value, Some(Value::Int(1))));
}

#[test]
fn failed_switch_still_sorts_its_arms() {
    let mut n = node(AstItem::Switch {
        arms: vec![(5, block(vec![])), (2, block(vec![push_int(1)]))],
        default: Box::new(block(vec![])),
    });
    let mut a = AstAnalysis::new();
    a.push(Type::Int, None);
    assert!(is_type_err(&n.analyze(&mut a)));
    match &n.inner {
        AstItem::Switch { arms, .. } => {
            assert_eq!(arms[0].0, 2);
            assert_eq!(arms[1].0, 5);
        },
        _ => panic!("switch expected"),
    }
}
