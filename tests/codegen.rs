use jack::ast::{AstBase, AstItem, AstNode};
use jack::codegen::{compile, CodeGenErr, CompileErr};
use jack::error::Loc;
use jack::pattern::{MatchInType, MatchOutType};
use jack::state::AstAnalysis;
use jack::types::Type;
use jack::writer::ClassWriter;

fn at(row: usize) -> Loc {
    Loc { file_index: 0, row, col: 1 }
}

fn node(item: AstItem) -> AstNode {
    AstNode::new(item, at(2))
}

fn push_int(n: i32) -> AstNode {
    node(AstItem::PushInt(n))
}

fn block(nodes: Vec<AstNode>) -> AstNode {
    node(AstItem::Block(nodes))
}

fn writer() -> ClassWriter {
    ClassWriter::new("a.jack".to_string(), "A".to_string(), "java/lang/Object".to_string())
}

fn consume_int() -> AstNode {
    node(AstItem::Jasmin {
        name: "consume".to_string(),
        extra_stack: 0,
        input: vec![MatchInType::Type(Type::Int)],
        output: vec![],
        body: "pop".to_string(),
    })
}

#[test]
fn empty_program_has_empty_main() {
    let mut ast = AstBase { nodes: vec![], file_index: 0 };
    let text = compile(&mut ast, "a.jack".to_string(), "A".to_string()).ok().unwrap();
    assert!(text.contains(".method public static main([Ljava/lang/String;)V\n.limit stack 0\n.limit locals 1\n\n    return"));
    assert!(text.starts_with(".source a.jack\n.class public A\n.super java/lang/Object\n"));
}

#[test]
fn store_and_load_use_slot_zero() {
    let mut a = AstAnalysis::new();
    let mut store = node(AstItem::Store { initializer: Some(Box::new(push_int(1))), name: "x".to_string() });
    let mut load = node(AstItem::Load("x".to_string()));
    assert!(store.analyze(&mut a).is_ok());
    assert!(load.analyze(&mut a).is_ok());
    let mut c = writer();
    assert!(store.code_gen(&mut c).is_ok());
    assert!(load.code_gen(&mut c).is_ok());
    assert_eq!(c.main, "iconst_1\n.line 2\nistore 0\n.line 2\niload 0\n");
}

#[test]
fn string_variables_use_reference_instructions() {
    let mut a = AstAnalysis::new();
    let mut store = node(AstItem::Store {
        initializer: Some(Box::new(node(AstItem::PushString("s".to_string())))),
        name: "s".to_string(),
    });
    assert!(store.analyze(&mut a).is_ok());
    let mut c = writer();
    assert!(store.code_gen(&mut c).is_ok());
    assert_eq!(c.main, "ldc \"s\"\n.line 2\nastore 0\n");
}

#[test]
fn int_list_literal_boxes_each_element() {
    let mut lit = node(AstItem::ListLiteral(vec![block(vec![push_int(1)]), block(vec![push_int(2)]), block(vec![push_int(3)])]));
    let mut a = AstAnalysis::new();
    assert!(lit.analyze(&mut a).is_ok());
    let mut c = writer();
    assert!(lit.code_gen(&mut c).is_ok());
    let boxing = "invokestatic java/lang/Integer/valueOf(I)Ljava/lang/Integer;\n";
    let adding = "invokevirtual java/util/ArrayList/add(Ljava/lang/Object;)Z\npop\n";
    assert_eq!(c.main.matches(boxing).count(), 3);
    assert_eq!(c.main.matches(adding).count(), 3);
    assert!(c.main.starts_with("new java/util/ArrayList\ndup\ninvokespecial java/util/ArrayList/<init>()V\n"));
}

#[test]
fn string_list_literal_does_not_box() {
    let mut lit = node(AstItem::ListLiteral(vec![block(vec![node(AstItem::PushString("a".to_string()))])]));
    let mut a = AstAnalysis::new();
    assert!(lit.analyze(&mut a).is_ok());
    let mut c = writer();
    assert!(lit.code_gen(&mut c).is_ok());
    assert!(!c.main.contains("valueOf"));
}

#[test]
fn if_else_labels() {
    let mut n = node(AstItem::If {
        head: Some(Box::new(block(vec![push_int(1)]))),
        body: Box::new(block(vec![push_int(2)])),
        else_body: Some(Box::new(block(vec![push_int(3)]))),
    });
    let mut a = AstAnalysis::new();
    assert!(n.analyze(&mut a).is_ok());
    assert_eq!(a.stack.len(), 1);
    let mut c = writer();
    assert!(n.code_gen(&mut c).is_ok());
    assert_eq!(
        c.main,
        ".line 2\niconst_1\nifne If0\ngoto Else0\nIf0 :\niconst_2\ngoto EndIf0\nElse0 :\niconst_3\nEndIf0 :\n"
    );
    assert_eq!(c.labels, 1);
}

#[test]
fn labels_are_fresh() {
    let mut c = writer();
    for _ in 0..2 {
        let mut n = node(AstItem::While {
            head: Some(Box::new(block(vec![push_int(0)]))),
            body: Box::new(block(vec![])),
        });
        let mut a = AstAnalysis::new();
        assert!(n.analyze(&mut a).is_ok());
        assert!(n.code_gen(&mut c).is_ok());
    }
    assert!(c.main.contains("WhileHead0 :\n"));
    assert!(c.main.contains("WhileHead1 :\n"));
    assert!(c.main.contains("goto WhileHead1\nEndWhile1 :\n"));
}

#[test]
fn for_loop_layout() {
    let mut n = node(AstItem::For {
        init: Box::new(block(vec![])),
        condition: Box::new(block(vec![push_int(1)])),
        modifier: Box::new(block(vec![])),
        body: Box::new(block(vec![])),
    });
    let mut a = AstAnalysis::new();
    assert!(n.analyze(&mut a).is_ok());
    let mut c = writer();
    assert!(n.code_gen(&mut c).is_ok());
    assert_eq!(
        c.main,
        ".line 2\nForCond0 :\niconst_1\nifne ForBody0\ngoto ForEnd0\nForBody0 :\ngoto ForCond0\nForEnd0 :\n"
    );
}

#[test]
fn switch_layout() {
    let mut n = node(AstItem::Switch {
        arms: vec![(7, block(vec![push_int(1)])), (-2, block(vec![push_int(2)]))],
        default: Box::new(block(vec![push_int(0)])),
    });
    let mut a = AstAnalysis::new();
    a.push(Type::Int, None);
    assert!(n.analyze(&mut a).is_ok());
    let mut c = writer();
    assert!(n.code_gen(&mut c).is_ok());
    assert_eq!(
        c.main,
        "lookupswitch\n-2 : Switch0-2\n7 : Switch07\ndefault : Switch0default\nSwitch0-2 :\niconst_2\ngoto EndSwitch0\nSwitch07 :\niconst_1\ngoto EndSwitch0\nSwitch0default :\niconst_0\nEndSwitch0 :\n"
    );
}

#[test]
fn typeswitch_emits_the_chosen_arm() {
    let mut a = AstAnalysis::new();
    a.push(Type::Int, None);
    let mut n = node(AstItem::TypeSwitch {
        arms: vec![
            (vec![MatchInType::Type(Type::Int)], Box::new(block(vec![consume_int()]))),
            (vec![MatchInType::Type(Type::String)], Box::new(block(vec![push_int(9)]))),
        ],
        chosen_index: None,
    });
    assert!(n.analyze(&mut a).is_ok());
    let mut c = writer();
    assert!(n.code_gen(&mut c).is_ok());
    assert_eq!(c.main, "pop \n");
}

#[test]
fn unanalyzed_typeswitch_is_an_error() {
    let n = node(AstItem::TypeSwitch { arms: vec![], chosen_index: None });
    let mut c = writer();
    assert!(matches!(n.code_gen(&mut c), Err(CodeGenErr::NotAnalyzedErr(_))));
}

#[test]
fn unanalyzed_load_is_an_error() {
    let n = node(AstItem::Load("x".to_string()));
    let mut c = writer();
    assert!(matches!(n.code_gen(&mut c), Err(CodeGenErr::NotAnalyzedErr(_))));
}

#[test]
fn compile_error_item_does_not_generate() {
    let n = node(AstItem::CmpErr("x".to_string()));
    let mut c = writer();
    assert!(n.code_gen(&mut c).is_err());
}

#[test]
fn program_limits_and_body() {
    let mut ast = AstBase { nodes: vec![push_int(300), consume_int()], file_index: 0 };
    let text = compile(&mut ast, "p.jack".to_string(), "P".to_string()).ok().unwrap();
    assert!(text.contains(".limit stack 1\n.limit locals 1\nsipush 300\npop \n"));
}

#[test]
fn compile_reports_analysis_errors() {
    let mut ast = AstBase { nodes: vec![push_int(1)], file_index: 0 };
    assert!(matches!(compile(&mut ast, "p.jack".to_string(), "P".to_string()), Err(CompileErr::Analyzer(_))));
}

#[test]
fn unanalyzed_program_is_an_error() {
    let ast = AstBase { nodes: vec![push_int(1)], file_index: 0 };
    let mut c = writer();
    assert!(ast.code_gen(&mut c, 1, 1).is_err());
}

#[test]
fn int_constants_pick_the_shortest_instruction() {
    let mut c = writer();
    for n in [-1, 0, 5, 6, -128, 127, 128, -32768, 32767, 32768, -40000] {
        c.push_int(&n);
    }
    assert_eq!(
        c.main,
        "iconst_m1\niconst_0\niconst_5\nbipush 6\nbipush -128\nbipush 127\nsipush 128\nsipush -32768\nsipush 32767\nldc 32768\nldc -40000\n"
    );
}

#[test]
fn string_constants_are_quoted() {
    let mut c = writer();
    c.push_string("a\"b\n");
    assert_eq!(c.main, "ldc \"a\\\"b\\n\"\n");
}

#[test]
fn writer_helpers() {
    let mut c = writer();
    c.push_stmt(&["a", "b", "c"]);
    c.push_main("x");
    c.append_main("y");
    c.main_endl();
    c.dup();
    c.dupx1();
    c.swap();
    c.jasmin(&"nop".to_string());
    assert_eq!(c.main, "a b c\nx y\ndup\ndup_x1\nswap\nnop \n");
}

#[test]
fn class_template() {
    let mut c = writer();
    c.append_main("nop");
    let text = c.write();
    assert_eq!(
        text,
        ".source a.jack\n.class public A\n.super java/lang/Object\n\n\n\n.method public <init>()V\n    aload_0\n    invokenonvirtual java/lang/Object/<init>()V\n\n    return\n.end method\n\n.method public static main([Ljava/lang/String;)V\nnop\n    return\n.end method\n"
    );
}

#[test]
fn descriptors() {
    assert_eq!(Type::Int.to_opcode(), "I");
    assert_eq!(Type::String.to_opcode(), "Ljava/lang/String;");
    assert_eq!(Type::List(Box::new(Type::Int)).to_opcode(), "Ljava/lang/Object;");
    assert_eq!(Type::Object("java/io/File".to_string()).to_opcode(), "Ljava/io/File;");
    assert!(Type::Int.is_number());
    assert!(!Type::String.is_number());
}

#[test]
fn generics_bind_once() {
    let mut g: Vec<(String, Type)> = vec![];
    let p = MatchInType::Generic("T".to_string());
    assert!(p.matches_and_capture_generics(&Type::Int, &mut g));
    assert_eq!(g.len(), 1);
    assert!(p.matches_and_capture_generics(&Type::Int, &mut g));
    assert!(!p.matches_and_capture_generics(&Type::String, &mut g));
    let l = MatchInType::List(Box::new(MatchInType::Any));
    assert!(l.matches_and_capture_generics(&Type::List(Box::new(Type::String)), &mut g));
    assert!(!l.matches_and_capture_generics(&Type::Int, &mut g));
    let out = MatchOutType::List(Box::new(MatchOutType::Generic("T".to_string())));
    assert!(matches!(out.try_resolve(&g), Ok(Type::List(inner)) if inner.is_number()));
    assert!(MatchOutType::Generic("U".to_string()).try_resolve(&g).is_err());
}

#[test]
fn unanalyzed_node_error_carries_its_location() {
    let n = AstNode::new(AstItem::Load("x".to_string()), at(6));
    let mut c = writer();
    assert!(matches!(n.code_gen(&mut c), Err(CodeGenErr::NotAnalyzedErr(l)) if l == at(6)));
}

#[test]
fn list_element_assignment() {
    let mut a = AstAnalysis::new();
    let mut n = push_int(4);
    a.push(Type::List(Box::new(Type::Int)), None);
    a.push(Type::Int, None);
    assert!(n.analyze(&mut a).is_ok());
    let mut c = writer();
    c.set(&n);
    assert_eq!(
        c.main,
        "invokestatic java/lang/Integer/valueOf(I)Ljava/lang/Integer;\ninvokevirtual java/util/ArrayList/set(ILjava/lang/Object;)Ljava/lang/Object;\npop\n"
    );
}

#[test]
fn string_to_code_points() {
    let mut a = AstAnalysis::new();
    let mut n = node(AstItem::PushString("ab".to_string()));
    assert!(n.analyze(&mut a).is_ok());
    let mut c = writer();
    c.to_char_list(&n);
    assert!(c.main.starts_with("new java/util/ArrayList\ndup_x1\nswap\ninvokevirtual java/lang/String/codePoints()Ljava/util/stream/IntStream;\n"));
    assert!(c.main.ends_with("checkcast java/util/Collection\ninvokespecial java/util/ArrayList/<init>(Ljava/util/Collection;)V\n"));
}

#[test]
fn writer_emits_switch_and_typeswitch_nodes() {
    let mut sw = node(AstItem::Switch { arms: vec![(1, block(vec![]))], default: Box::new(block(vec![])) });
    let mut a = AstAnalysis::new();
    a.push(Type::Int, None);
    assert!(sw.analyze(&mut a).is_ok());
    let mut c = writer();
    assert!(c.switch(&sw).is_ok());
    assert_eq!(c.main, "lookupswitch\n1 : Switch01\ndefault : Switch0default\nSwitch01 :\ngoto EndSwitch0\nSwitch0default :\nEndSwitch0 :\n");
    let mut ts = node(AstItem::TypeSwitch {
        arms: vec![(vec![MatchInType::Any], Box::new(block(vec![consume_int()])))],
        chosen_index: None,
    });
    let mut b = AstAnalysis::new();
    b.push(Type::Int, None);
    assert!(ts.analyze(&mut b).is_ok());
    let mut d = writer();
    assert!(d.type_switch(&ts).is_ok());
    assert_eq!(d.main, "pop \n");
    let mut e = writer();
    e.new_list(&ts);
    assert_eq!(e.main, "new java/util/ArrayList\ndup\ninvokespecial java/util/ArrayList/<init>()V\n");
}
