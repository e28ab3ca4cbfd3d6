use micro4m::lex4m::Lex4m;
use micro4m::mlir4m::{
    get_global_counter as get_register_counter, increment_global_counter as increment_register_counter,
    lower_to_mlir, reset_global_counter as reset_register_counter, Mlir4m,
};
use micro4m::node4m::{get_global_counter, increment_global_counter, reset_global_counter, Node};
use micro4m::par4m::Par4m;
use micro4m::token4m::Token4m;

fn toks(list: &[(&str, &str)]) -> Vec<(String, String)> {
    list.iter().map(|(k, t)| (k.to_string(), t.to_string())).collect()
}

fn parser(list: &[(&str, &str)]) -> Par4m {
    let mut p = Par4m::new(Token4m::new(toks(list)));
    p.generate_concrete_syntax_tree();
    p.generate_abstract_syntax_tree();
    p
}

fn names(n: &Node) -> Vec<String> {
    n.children().iter().map(|c| c.name().clone()).collect()
}

fn values(n: &Node) -> Vec<String> {
    n.children().iter().map(|c| c.value().clone()).collect()
}

const HEADER: &str = "module {\n  func.func private @read() -> i32\n  func.func private @print(i32)\n\n  func.func @main() {\n";
const FOOTER: &str = "    return\n  }\n}\n";

fn assign_and_write() -> Vec<(&'static str, &'static str)> {
    vec![
        ("BEGIN", "BEGIN"),
        ("ID", "x"),
        ("ASSIGNOP", ":="),
        ("INTLITERAL", "3"),
        ("PLUSOP", "+"),
        ("INTLITERAL", "4"),
        ("SEMICOLON", ";"),
        ("WRITE", "write"),
        ("LPAREN", "("),
        ("ID", "x"),
        ("RPAREN", ")"),
        ("SEMICOLON", ";"),
        ("END", "END"),
        ("SCANEOF", ""),
    ]
}

#[test]
fn cursor_peeks_consumes_and_resets() {
    let mut t = Token4m::new(toks(&[("ID", "a"), ("SCANEOF", "")]));
    assert_eq!(t.next_token(), Some(("ID".to_string(), "a".to_string())));
    assert_eq!(t.next_token(), Some(("ID".to_string(), "a".to_string())));
    assert!(t.next_is("ID"));
    assert!(!t.next_is("IDX"));
    t.consume_token();
    assert_eq!(t.next_token(), Some(("SCANEOF".to_string(), "".to_string())));
    t.consume_token();
    assert_eq!(t.next_token(), None);
    t.consume_token();
    assert_eq!(t.next_token(), None);
    t.reset();
    assert_eq!(t.next_text(), "a");
}

#[test]
fn node_counters_step_and_reset() {
    let mut c: u64 = 5;
    assert_eq!(get_global_counter(&c), 5);
    assert_eq!(increment_global_counter(&mut c), 6);
    reset_global_counter(&mut c);
    assert_eq!(c, 0);
    let mut top: u64 = u64::MAX;
    assert_eq!(increment_global_counter(&mut top), u64::MAX);
    let mut r: u64 = 0;
    assert_eq!(increment_register_counter(&mut r), 1);
    assert_eq!(get_register_counter(&r), 1);
    reset_register_counter(&mut r);
    assert_eq!(r, 0);
}

#[test]
fn node_accessors_and_children() {
    let mut c: u64 = 0;
    let mut n = Node::new("A".to_string(), "a".to_string(), &mut c);
    assert_eq!(n.id(), 0);
    assert_eq!(c, 1);
    n.set_name("B".to_string());
    n.set_value("b".to_string());
    assert_eq!(n.name(), "B");
    assert_eq!(n.value(), "b");
    n.add_child(Node::new("C".to_string(), "c".to_string(), &mut c));
    n.add_children(vec![Node::new("D".to_string(), "d".to_string(), &mut c)]);
    assert_eq!(names(&n), vec!["C", "D"]);
    let taken = n.take_children();
    assert_eq!(taken.len(), 2);
    assert_eq!(taken[1].id(), 2);
    assert!(n.children().is_empty());
}

#[test]
fn dot_export_lists_nodes_and_edges_in_preorder() {
    let mut c: u64 = 9;
    let mut root = Node::new("R".to_string(), "r".to_string(), &mut c);
    let mut mid = Node::new("M".to_string(), "m".to_string(), &mut c);
    mid.add_child(Node::new("L".to_string(), "l".to_string(), &mut c));
    root.add_child(mid);
    assert_eq!(
        root.to_dot(false),
        "digraph G {\n    \"9\" [label=\"R\"];\n    \"9\" -> \"10\";\n    \"10\" [label=\"M\"];\n    \"10\" -> \"11\";\n    \"11\" [label=\"L\"];\n}\n"
    );
    assert_eq!(
        root.to_dot(true),
        "digraph G {\n    \"9\" [label=\"r\"];\n    \"9\" -> \"10\";\n    \"10\" [label=\"m\"];\n    \"10\" -> \"11\";\n    \"11\" [label=\"l\"];\n}\n"
    );
}

#[test]
fn new_parser_holds_bare_roots() {
    let p = Par4m::new(Token4m::new(toks(&[("SCANEOF", "")])));
    assert_eq!(p.concrete_syntax_tree().name(), "ConcreteSyntaxTree");
    assert_eq!(p.abstract_syntax_tree().name(), "AbstractSyntaxTree");
    assert!(p.concrete_syntax_tree().children().is_empty());
}

#[test]
fn cst_keeps_every_rule_and_terminal() {
    let p = parser(&assign_and_write());
    let root = p.concrete_syntax_tree();
    assert_eq!(root.id(), 0);
    assert_eq!(names(root), vec!["<start>"]);
    let start = &root.children()[0];
    assert_eq!(start.id(), 1);
    assert_eq!(names(start), vec!["<program>", "SCANEOF"]);
    let program = &start.children()[0];
    assert_eq!(names(program), vec!["BEGIN", "<statement list>", "END"]);
    let list = &program.children()[1];
    assert_eq!(names(list), vec!["<statement>", "<statement>"]);
    let assign = &list.children()[0];
    assert_eq!(names(assign), vec!["ID", "ASSIGNOP", "<expression>", "SEMICOLON"]);
    let expr = &assign.children()[2];
    assert_eq!(names(expr), vec!["<primary>", "<addop>", "<primary>"]);
    assert_eq!(names(&expr.children()[0]), vec!["INTLITERAL"]);
    assert_eq!(values(&expr.children()[1]), vec!["+"]);
    let write = &list.children()[1];
    assert_eq!(names(write), vec!["WRITE", "LPAREN", "<expression list>", "RPAREN", "SEMICOLON"]);
    let exprs = &write.children()[2];
    assert_eq!(names(exprs), vec!["<expression>"]);
    assert_eq!(names(&exprs.children()[0]), vec!["<primary>"]);
    assert_eq!(names(&exprs.children()[0].children()[0]), vec!["ID"]);
}

#[test]
fn ast_drops_wrappers_and_keeps_operators() {
    let p = parser(&assign_and_write());
    let root = p.abstract_syntax_tree();
    assert_eq!(root.id(), 0);
    assert_eq!(names(root), vec!["<statement list>"]);
    let list = &root.children()[0];
    assert_eq!(names(list), vec!["ASSIGNOP", "WRITE"]);
    let assign = &list.children()[0];
    assert_eq!(assign.id(), 2);
    assert_eq!(names(assign), vec!["ID", "PLUSOP"]);
    let plus = &assign.children()[1];
    assert_eq!(plus.id(), 4);
    assert_eq!(plus.value(), "+");
    assert_eq!(values(plus), vec!["3", "4"]);
    let write = &list.children()[1];
    assert_eq!(write.value(), "write");
    assert_eq!(names(write), vec!["ID"]);
}

#[test]
fn subtraction_groups_to_the_right() {
    let p = parser(&[
        ("BEGIN", "BEGIN"),
        ("WRITE", "write"),
        ("LPAREN", "("),
        ("ID", "a"),
        ("MINUSOP", "-"),
        ("ID", "b"),
        ("MINUSOP", "-"),
        ("ID", "c"),
        ("RPAREN", ")"),
        ("SEMICOLON", ";"),
        ("END", "END"),
        ("SCANEOF", ""),
    ]);
    let write = &p.abstract_syntax_tree().children()[0].children()[0];
    let outer = &write.children()[0];
    assert_eq!(outer.name(), "MINUSOP");
    assert_eq!(names(outer), vec!["ID", "MINUSOP"]);
    assert_eq!(outer.children()[0].value(), "a");
    let inner = &outer.children()[1];
    assert_eq!(values(inner), vec!["b", "c"]);
}

#[test]
fn parenthesised_expression_has_no_wrapper() {
    let p = parser(&[
        ("BEGIN", "BEGIN"),
        ("WRITE", "write"),
        ("LPAREN", "("),
        ("LPAREN", "("),
        ("INTLITERAL", "7"),
        ("RPAREN", ")"),
        ("COMMA", ","),
        ("ID", "y"),
        ("RPAREN", ")"),
        ("SEMICOLON", ";"),
        ("END", "END"),
        ("SCANEOF", ""),
    ]);
    let write = &p.abstract_syntax_tree().children()[0].children()[0];
    assert_eq!(names(write), vec!["INTLITERAL", "ID"]);
    assert_eq!(values(write), vec!["7", "y"]);
}

#[test]
fn end_to_end_assignment_and_write() {
    let p = parser(&assign_and_write());
    let text = lower_to_mlir(p.abstract_syntax_tree());
    let body = "    %0 = arith.constant 3 : i32\n    %1 = arith.constant 4 : i32\n    %2 = arith.addi %0, %1 : i32\n    %3 = arith.constant 0 : i32 // Declare x\n    %4 = arith.addi %3, %2 : i32\n\n    call @print(%4) : (i32) -> ()\n";
    assert_eq!(text, format!("{}{}{}", HEADER, body, FOOTER));
}

#[test]
fn reading_one_name_twice_declares_it_once() {
    let p = parser(&[
        ("BEGIN", "BEGIN"),
        ("READ", "read"),
        ("LPAREN", "("),
        ("ID", "x"),
        ("COMMA", ","),
        ("ID", "x"),
        ("RPAREN", ")"),
        ("SEMICOLON", ";"),
        ("END", "END"),
        ("SCANEOF", ""),
    ]);
    let text = lower_to_mlir(p.abstract_syntax_tree());
    let body = "    %0 = arith.constant 0 : i32 // Declare x\n    %1 = call @read() : () -> i32\n    %2 = call @read() : () -> i32\n\n";
    assert_eq!(text, format!("{}{}{}", HEADER, body, FOOTER));
    assert_eq!(text.matches("Declare").count(), 1);
}

#[test]
fn fresh_generators_give_identical_text() {
    let p = parser(&assign_and_write());
    let mut g1 = Mlir4m::new(p.abstract_syntax_tree());
    let mut g2 = Mlir4m::new(p.abstract_syntax_tree());
    assert_eq!(g1.generate_mlir(), g2.generate_mlir());
}

#[test]
fn write_of_literal_and_difference() {
    let p = parser(&[
        ("BEGIN", "BEGIN"),
        ("WRITE", "write"),
        ("LPAREN", "("),
        ("INTLITERAL", "5"),
        ("COMMA", ","),
        ("INTLITERAL", "9"),
        ("MINUSOP", "-"),
        ("INTLITERAL", "2"),
        ("RPAREN", ")"),
        ("SEMICOLON", ";"),
        ("END", "END"),
        ("SCANEOF", ""),
    ]);
    let text = lower_to_mlir(p.abstract_syntax_tree());
    let body = "    %0 = arith.constant 5 : i32\n    call @print(%0) : (i32) -> ()\n    %1 = arith.constant 9 : i32\n    %2 = arith.constant 2 : i32\n    %3 = arith.subi %1, %2 : i32\n    call @print(%3) : (i32) -> ()\n";
    assert_eq!(text, format!("{}{}{}", HEADER, body, FOOTER));
}

#[test]
fn empty_tree_gives_the_bare_module() {
    let mut c: u64 = 0;
    let root = Node::new("AbstractSyntaxTree".to_string(), "AbstractSyntaxTree".to_string(), &mut c);
    assert_eq!(lower_to_mlir(&root), format!("{}{}", HEADER, FOOTER));
}

#[test]
fn missing_closing_paren_is_skipped_silently() {
    let p = parser(&[
        ("BEGIN", "BEGIN"),
        ("WRITE", "write"),
        ("LPAREN", "("),
        ("ID", "x"),
        ("SEMICOLON", ";"),
        ("END", "END"),
        ("SCANEOF", ""),
    ]);
    let statement = &p.concrete_syntax_tree().children()[0].children()[0].children()[1].children()[0];
    assert_eq!(names(statement), vec!["WRITE", "LPAREN", "<expression list>", "SEMICOLON"]);
    let program = &p.concrete_syntax_tree().children()[0].children()[0];
    assert_eq!(names(program), vec!["BEGIN", "<statement list>", "END"]);
    let write = &p.abstract_syntax_tree().children()[0].children()[0];
    assert_eq!(names(write), vec!["ID"]);
    let text = lower_to_mlir(p.abstract_syntax_tree());
    assert_eq!(text, format!("{}    call @print(%0) : (i32) -> ()\n{}", HEADER, FOOTER));
}

#[test]
fn truncated_input_ends_without_error() {
    let p = parser(&[("BEGIN", "BEGIN"), ("ID", "x"), ("ASSIGNOP", ":=")]);
    let list = &p.abstract_syntax_tree().children()[0];
    assert_eq!(names(list), vec!["ASSIGNOP"]);
    assert_eq!(names(&list.children()[0]), vec!["ID"]);
    let text = lower_to_mlir(p.abstract_syntax_tree());
    assert_eq!(text, format!("{}{}", HEADER, FOOTER));
    let empty = parser(&[]);
    assert_eq!(names(empty.concrete_syntax_tree()), vec!["<start>"]);
}

#[test]
fn lexer_holder_collects_tokens_and_sentinel() {
    let mut l = Lex4m::new("BEGIN END".to_string());
    assert_eq!(l.input(), "BEGIN END");
    assert!(l.tokens().is_empty());
    l.push_token("BEGIN".to_string(), "BEGIN".to_string());
    l.finish();
    assert_eq!(l.tokens(), &toks(&[("BEGIN", "BEGIN"), ("SCANEOF", "")]));
}

#[test]
fn node_describes_itself() {
    let mut c: u64 = 0;
    let n = Node::new("ID".to_string(), "x".to_string(), &mut c);
    assert_eq!(n.to_string(), "Node(name: ID, value: x)");
}

#[test]
fn reading_an_assigned_name_needs_no_declaration() {
    let p = parser(&[
        ("BEGIN", "BEGIN"),
        ("ID", "x"),
        ("ASSIGNOP", ":="),
        ("INTLITERAL", "1"),
        ("SEMICOLON", ";"),
        ("READ", "read"),
        ("LPAREN", "("),
        ("ID", "x"),
        ("RPAREN", ")"),
        ("SEMICOLON", ";"),
        ("END", "END"),
        ("SCANEOF", ""),
    ]);
    let text = lower_to_mlir(p.abstract_syntax_tree());
    let body = "    %0 = arith.constant 1 : i32\n    %1 = arith.constant 0 : i32 // Declare x\n    %2 = arith.addi %1, %0 : i32\n\n    %3 = call @read() : () -> i32\n\n";
    assert_eq!(text, format!("{}{}{}", HEADER, body, FOOTER));
}

#[test]
fn cursor_reports_kind_of_next_token() {
    let t = Token4m::new(toks(&[("INTLITERAL", "42")]));
    assert_eq!(t.next_kind(), "INTLITERAL");
    assert_eq!(t.peek(), Some(("INTLITERAL".to_string(), "42".to_string())));
}

#[test]
fn cst_gives_the_identifier_list_its_own_node() {
    let p = parser(&[
        ("BEGIN", "BEGIN"),
        ("READ", "read"),
        ("LPAREN", "("),
        ("ID", "x"),
        ("COMMA", ","),
        ("ID", "y"),
        ("RPAREN", ")"),
        ("SEMICOLON", ";"),
        ("END", "END"),
        ("SCANEOF", ""),
    ]);
    let statement = &p.concrete_syntax_tree().children()[0].children()[0].children()[1].children()[0];
    assert_eq!(names(statement), vec!["READ", "LPAREN", "<id list>", "RPAREN", "SEMICOLON"]);
    let ids = &statement.children()[2];
    assert_eq!(ids.value(), "ID_LIST");
    assert_eq!(names(ids), vec!["ID", "COMMA", "ID"]);
    assert_eq!(values(ids), vec!["x", ",", "y"]);
}

#[test]
fn assigning_a_name_to_itself_adds_its_previous_register() {
    let p = parser(&[
        ("BEGIN", "BEGIN"),
        ("ID", "x"),
        ("ASSIGNOP", ":="),
        ("INTLITERAL", "1"),
        ("SEMICOLON", ";"),
        ("ID", "x"),
        ("ASSIGNOP", ":="),
        ("ID", "x"),
        ("SEMICOLON", ";"),
        ("END", "END"),
        ("SCANEOF", ""),
    ]);
    let text = lower_to_mlir(p.abstract_syntax_tree());
    let body = "    %0 = arith.constant 1 : i32\n    %1 = arith.constant 0 : i32 // Declare x\n    %2 = arith.addi %1, %0 : i32\n\n    %3 = arith.constant 0 : i32 // Declare x\n    %4 = arith.addi %3, %2 : i32\n\n";
    assert_eq!(text, format!("{}{}{}", HEADER, body, FOOTER));
}

#[test]
fn a_second_run_gives_the_operator_a_fresh_register() {
    let p = parser(&assign_and_write());
    let mut g = Mlir4m::new(p.abstract_syntax_tree());
    g.generate_mlir();
    let text = g.generate_mlir();
    let body = "    %5 = arith.constant 3 : i32\n    %6 = arith.constant 4 : i32\n    %7 = arith.addi %5, %6 : i32\n    %8 = arith.constant 0 : i32 // Declare x\n    %9 = arith.addi %8, %7 : i32\n\n    call @print(%9) : (i32) -> ()\n";
    assert_eq!(text, format!("{}{}{}", HEADER, body, FOOTER));
}

#[test]
fn longer_chain_folds_to_the_right() {
    let p = parser(&[
        ("BEGIN", "BEGIN"),
        ("WRITE", "write"),
        ("LPAREN", "("),
        ("INTLITERAL", "1"),
        ("PLUSOP", "+"),
        ("ID", "b"),
        ("MINUSOP", "-"),
        ("INTLITERAL", "3"),
        ("PLUSOP", "+"),
        ("ID", "d"),
        ("RPAREN", ")"),
        ("SEMICOLON", ";"),
        ("END", "END"),
        ("SCANEOF", ""),
    ]);
    let write = &p.abstract_syntax_tree().children()[0].children()[0];
    let r1 = &write.children()[0];
    assert_eq!(r1.name(), "PLUSOP");
    assert_eq!(values(r1)[0], "1");
    let r2 = &r1.children()[1];
    assert_eq!(r2.name(), "MINUSOP");
    assert_eq!(values(r2)[0], "b");
    let r3 = &r2.children()[1];
    assert_eq!(r3.name(), "PLUSOP");
    assert_eq!(values(r3), vec!["3", "d"]);
}
