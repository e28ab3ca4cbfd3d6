use vstd::prelude::*;
use vstd::string::*;
use crate::node4m::{
    bump, leaf, lemma_with_children_twice, lemma_with_no_children, lemma_with_one_child,
    reset_global_counter, views, with_child, with_children, Node, TreeV,
};
use crate::token4m::{at, next_pos, Tok, Token4m};

verus! {

/// Where a parse stands: the cursor's position and the next node identifier.
pub struct St {
    pub pos: nat,
    pub id: nat,
}

/// The state after a node has been created.
pub open spec fn fresh(s: St) -> St {
    St { pos: s.pos, id: bump(s.id) }
}

/// The state after the token under the cursor has been consumed.
pub open spec fn adv(t: Seq<Tok>, s: St) -> St {
    St { pos: next_pos(t, s.pos), id: s.id }
}

/// The cursor has not moved back, nor past the end.
pub open spec fn ok(t: Seq<Tok>, a: St, b: St) -> bool {
    a.pos <= b.pos <= t.len()
}

/// The cursor has moved forward, not past the end.
pub open spec fn ahead(t: Seq<Tok>, a: St, b: St) -> bool {
    a.pos < b.pos <= t.len()
}

pub open spec fn text(t: Seq<Tok>, s: St) -> Seq<char> {
    t[s.pos as int].1
}

/// A terminal of kind `kind`, if the next token is one, as a leaf holding its text.
pub open spec fn terminal(t: Seq<Tok>, s: St, kind: Seq<char>) -> (Seq<TreeV>, St) {
    if at(t, s.pos, kind) {
        (seq![leaf(kind, text(t, s), s.id)], adv(t, fresh(s)))
    } else {
        (Seq::empty(), s)
    }
}

/// A terminal of kind `kind`, if the next token is one, as a leaf holding `value`.
pub open spec fn punct(t: Seq<Tok>, s: St, kind: Seq<char>, value: Seq<char>) -> (Seq<TreeV>, St) {
    if at(t, s.pos, kind) {
        (seq![leaf(kind, value, s.id)], adv(t, fresh(s)))
    } else {
        (Seq::empty(), s)
    }
}

pub open spec fn is_add_op(t: Seq<Tok>, pos: nat) -> bool {
    at(t, pos, "PLUSOP"@) || at(t, pos, "MINUSOP"@)
}

pub open spec fn starts_statement(t: Seq<Tok>, pos: nat) -> bool {
    at(t, pos, "ID"@) || at(t, pos, "READ"@) || at(t, pos, "WRITE"@)
}

// The concrete syntax tree: one node for every rule, one leaf for every
// terminal consumed. Each function gives the trees that a rule adds to the
// node of its caller, and the state after it.

/// `<start> ::= <program> SCANEOF`
pub open spec fn cst_start(t: Seq<Tok>, s: St) -> (Seq<TreeV>, St)
    decreases (t.len() - s.pos) as nat, 12nat,
{
    let n = leaf("<start>"@, "START"@, s.id);
    let (p, s1) = cst_program(t, fresh(s));
    let (e, s2) = punct(t, s1, "SCANEOF"@, "SCANEOF"@);
    (seq![with_children(n, p + e)], s2)
}

/// `<program> ::= BEGIN <statement_list> END`
pub open spec fn cst_program(t: Seq<Tok>, s: St) -> (Seq<TreeV>, St)
    decreases (t.len() - s.pos) as nat, 11nat,
{
    let n = leaf("<program>"@, "PROGRAM"@, s.id);
    let (b, s1) = punct(t, fresh(s), "BEGIN"@, "BEGIN"@);
    let (l, s2) = cst_statement_list(t, s1);
    let (e, s3) = punct(t, s2, "END"@, "END"@);
    (seq![with_children(n, b + l + e)], s3)
}

/// `<statement_list> ::= <statement> { <statement> }`
pub open spec fn cst_statement_list(t: Seq<Tok>, s: St) -> (Seq<TreeV>, St)
    decreases (t.len() - s.pos) as nat, 10nat,
{
    let n = leaf("<statement list>"@, "STATEMENT_LIST"@, s.id);
    let (x, s1) = cst_statement(t, fresh(s));
    if ok(t, s, s1) {
        let (rest, s2) = cst_statements(t, s1);
        (seq![with_children(n, x + rest)], s2)
    } else {
        (seq![with_children(n, x)], s1)
    }
}

/// The statements that follow the first one in a list.
pub open spec fn cst_statements(t: Seq<Tok>, s: St) -> (Seq<TreeV>, St)
    decreases (t.len() - s.pos) as nat, 9nat,
{
    if starts_statement(t, s.pos) {
        let (x, s1) = cst_statement(t, s);
        if ahead(t, s, s1) {
            let (rest, s2) = cst_statements(t, s1);
            (x + rest, s2)
        } else {
            (x, s1)
        }
    } else {
        (Seq::empty(), s)
    }
}

/// `<statement>`, in whichever of its three forms the next token starts.
pub open spec fn cst_statement(t: Seq<Tok>, s: St) -> (Seq<TreeV>, St)
    decreases (t.len() - s.pos) as nat, 8nat,
{
    let n = leaf("<statement>"@, "STATEMENT"@, s.id);
    let s0 = fresh(s);
    let (c, s1) = if at(t, s.pos, "ID"@) {
        cst_statement_id(t, s0)
    } else if at(t, s.pos, "READ"@) {
        cst_statement_read(t, s0)
    } else if at(t, s.pos, "WRITE"@) {
        cst_statement_write(t, s0)
    } else {
        (Seq::empty(), s0)
    };
    (seq![with_children(n, c)], s1)
}

/// `ID ASSIGNOP <expression> SEMICOLON`
pub open spec fn cst_statement_id(t: Seq<Tok>, s: St) -> (Seq<TreeV>, St)
    decreases (t.len() - s.pos) as nat, 7nat,
{
    let i = seq![leaf("ID"@, text(t, s), s.id)];
    let s1 = adv(t, fresh(s));
    let (a, s2) = punct(t, s1, "ASSIGNOP"@, ":="@);
    let (e, s3) = cst_expression(t, s2);
    let (c, s4) = punct(t, s3, "SEMICOLON"@, ";"@);
    (i + a + e + c, s4)
}

/// `READ LPAREN <id_list> RPAREN SEMICOLON`
pub open spec fn cst_statement_read(t: Seq<Tok>, s: St) -> (Seq<TreeV>, St)
    decreases (t.len() - s.pos) as nat, 7nat,
{
    let r = seq![leaf("READ"@, "READ"@, s.id)];
    let s1 = adv(t, fresh(s));
    let (l, s2) = punct(t, s1, "LPAREN"@, "("@);
    let (ids, s3) = cst_id_list(t, s2);
    let (rp, s4) = punct(t, s3, "RPAREN"@, ")"@);
    let (c, s5) = punct(t, s4, "SEMICOLON"@, ";"@);
    (r + l + ids + rp + c, s5)
}

/// `WRITE LPAREN <expression_list> RPAREN SEMICOLON`
pub open spec fn cst_statement_write(t: Seq<Tok>, s: St) -> (Seq<TreeV>, St)
    decreases (t.len() - s.pos) as nat, 7nat,
{
    let w = seq![leaf("WRITE"@, "WRITE"@, s.id)];
    let s1 = adv(t, fresh(s));
    let (l, s2) = punct(t, s1, "LPAREN"@, "("@);
    let (es, s3) = cst_expression_list(t, s2);
    let (rp, s4) = punct(t, s3, "RPAREN"@, ")"@);
    let (c, s5) = punct(t, s4, "SEMICOLON"@, ";"@);
    (w + l + es + rp + c, s5)
}

/// `<id_list> ::= ID { COMMA ID }`
pub open spec fn cst_id_list(t: Seq<Tok>, s: St) -> (Seq<TreeV>, St)
    decreases (t.len() - s.pos) as nat, 6nat,
{
    let n = leaf("<id list>"@, "ID_LIST"@, s.id);
    let (i, s1) = terminal(t, fresh(s), "ID"@);
    let (rest, s2) = cst_ids(t, s1);
    (seq![with_children(n, i + rest)], s2)
}

/// The `COMMA ID` pairs of an identifier list.
pub open spec fn cst_ids(t: Seq<Tok>, s: St) -> (Seq<TreeV>, St)
    decreases (t.len() - s.pos) as nat, 5nat,
{
    if at(t, s.pos, "COMMA"@) {
        let c = seq![leaf("COMMA"@, text(t, s), s.id)];
        let s1 = adv(t, fresh(s));
        let (i, s2) = terminal(t, s1, "ID"@);
        let (rest, s3) = cst_ids(t, s2);
        (c + i + rest, s3)
    } else {
        (Seq::empty(), s)
    }
}

/// `<expression_list> ::= <expression> { COMMA <expression> }`
pub open spec fn cst_expression_list(t: Seq<Tok>, s: St) -> (Seq<TreeV>, St)
    decreases (t.len() - s.pos) as nat, 6nat,
{
    let n = leaf("<expression list>"@, "EXPRESSION_LIST"@, s.id);
    let (e, s1) = cst_expression(t, fresh(s));
    if ok(t, s, s1) {
        let (rest, s2) = cst_expressions(t, s1);
        (seq![with_children(n, e + rest)], s2)
    } else {
        (seq![with_children(n, e)], s1)
    }
}

/// The `COMMA <expression>` pairs of an expression list.
pub open spec fn cst_expressions(t: Seq<Tok>, s: St) -> (Seq<TreeV>, St)
    decreases (t.len() - s.pos) as nat, 5nat,
{
    if at(t, s.pos, "COMMA"@) {
        let c = seq![leaf("COMMA"@, text(t, s), s.id)];
        let s1 = adv(t, fresh(s));
        let (e, s2) = cst_expression(t, s1);
        if ok(t, s1, s2) {
            let (rest, s3) = cst_expressions(t, s2);
            (c + e + rest, s3)
        } else {
            (c + e, s2)
        }
    } else {
        (Seq::empty(), s)
    }
}

/// `<expression> ::= <primary> { <add_op> <primary> }`
pub open spec fn cst_expression(t: Seq<Tok>, s: St) -> (Seq<TreeV>, St)
    decreases (t.len() - s.pos) as nat, 4nat,
{
    let n = leaf("<expression>"@, "EXPRESSION"@, s.id);
    let (p, s1) = cst_primary(t, fresh(s));
    if ok(t, s, s1) {
        let (rest, s2) = cst_operations(t, s1);
        (seq![with_children(n, p + rest)], s2)
    } else {
        (seq![with_children(n, p)], s1)
    }
}

/// The `<add_op> <primary>` pairs of an expression.
pub open spec fn cst_operations(t: Seq<Tok>, s: St) -> (Seq<TreeV>, St)
    decreases (t.len() - s.pos) as nat, 3nat,
{
    if is_add_op(t, s.pos) {
        let (a, s1) = cst_add_op(t, s);
        if ahead(t, s, s1) {
            let (p, s2) = cst_primary(t, s1);
            if ok(t, s1, s2) {
                let (rest, s3) = cst_operations(t, s2);
                (a + p + rest, s3)
            } else {
                (a + p, s2)
            }
        } else {
            (a, s1)
        }
    } else {
        (Seq::empty(), s)
    }
}

/// `<primary> ::= INTLITERAL | ID | LPAREN <expression> RPAREN`
pub open spec fn cst_primary(t: Seq<Tok>, s: St) -> (Seq<TreeV>, St)
    decreases (t.len() - s.pos) as nat, 2nat,
{
    let n = leaf("<primary>"@, "PRIMARY"@, s.id);
    let s0 = fresh(s);
    let (c, s1) = if at(t, s.pos, "INTLITERAL"@) {
        terminal(t, s0, "INTLITERAL"@)
    } else if at(t, s.pos, "ID"@) {
        terminal(t, s0, "ID"@)
    } else if at(t, s.pos, "LPAREN"@) {
        cst_primary_paren(t, s0)
    } else {
        (Seq::empty(), s0)
    };
    (seq![with_children(n, c)], s1)
}

/// `LPAREN <expression> RPAREN`
pub open spec fn cst_primary_paren(t: Seq<Tok>, s: St) -> (Seq<TreeV>, St)
    decreases (t.len() - s.pos) as nat, 1nat,
{
    if at(t, s.pos, "LPAREN"@) {
        let l = seq![leaf("LPAREN"@, text(t, s), s.id)];
        let s1 = adv(t, fresh(s));
        let (e, s2) = cst_expression(t, s1);
        let (r, s3) = terminal(t, s2, "RPAREN"@);
        (l + e + r, s3)
    } else {
        (Seq::empty(), s)
    }
}

/// `<add_op> ::= PLUSOP | MINUSOP`
pub open spec fn cst_add_op(t: Seq<Tok>, s: St) -> (Seq<TreeV>, St) {
    let n = leaf("<addop>"@, "ADDOP"@, s.id);
    let s0 = fresh(s);
    if is_add_op(t, s0.pos) {
        (seq![with_child(n, leaf(t[s0.pos as int].0, text(t, s0), s0.id))], adv(t, fresh(s0)))
    } else {
        (seq![n], s0)
    }
}

/// The concrete syntax tree of a token sequence, under its root node.
pub open spec fn cst_of(t: Seq<Tok>) -> TreeV {
    let root = leaf("ConcreteSyntaxTree"@, "ConcreteSyntaxTree"@, 0);
    with_children(root, cst_start(t, St { pos: 0, id: 1 }).0)
}


/// The state after a token of kind `kind` has been consumed, if the next one is.
pub open spec fn skip(t: Seq<Tok>, s: St, kind: Seq<char>) -> St {
    if at(t, s.pos, kind) {
        adv(t, s)
    } else {
        s
    }
}

// The abstract syntax tree: the same grammar, without nodes for `start`,
// `program` and `primary`, and with each operator over its left operand and
// the whole rest of the expression.

/// `<start> ::= <program> SCANEOF`
pub open spec fn ast_start(t: Seq<Tok>, s: St) -> (Seq<TreeV>, St)
    decreases (t.len() - s.pos) as nat, 12nat,
{
    let (p, s1) = ast_program(t, s);
    (p, skip(t, s1, "SCANEOF"@))
}

/// `<program> ::= BEGIN <statement_list> END`
pub open spec fn ast_program(t: Seq<Tok>, s: St) -> (Seq<TreeV>, St)
    decreases (t.len() - s.pos) as nat, 11nat,
{
    let (l, s2) = ast_statement_list(t, skip(t, s, "BEGIN"@));
    (l, skip(t, s2, "END"@))
}

/// `<statement_list> ::= <statement> { <statement> }`
pub open spec fn ast_statement_list(t: Seq<Tok>, s: St) -> (Seq<TreeV>, St)
    decreases (t.len() - s.pos) as nat, 10nat,
{
    let n = leaf("<statement list>"@, "<statement list>"@, s.id);
    let (x, s1) = ast_statement(t, fresh(s));
    if ok(t, s, s1) {
        let (rest, s2) = ast_statements(t, s1);
        (seq![with_children(n, x + rest)], s2)
    } else {
        (seq![with_children(n, x)], s1)
    }
}

/// The statements that follow the first one in a list.
pub open spec fn ast_statements(t: Seq<Tok>, s: St) -> (Seq<TreeV>, St)
    decreases (t.len() - s.pos) as nat, 9nat,
{
    if starts_statement(t, s.pos) {
        let (x, s1) = ast_statement(t, s);
        if ahead(t, s, s1) {
            let (rest, s2) = ast_statements(t, s1);
            (x + rest, s2)
        } else {
            (x, s1)
        }
    } else {
        (Seq::empty(), s)
    }
}

/// A statement, in whichever of its three forms the next token starts.
pub open spec fn ast_statement(t: Seq<Tok>, s: St) -> (Seq<TreeV>, St)
    decreases (t.len() - s.pos) as nat, 8nat,
{
    if at(t, s.pos, "ID"@) {
        ast_statement_id(t, s)
    } else if at(t, s.pos, "READ"@) {
        ast_statement_read(t, s)
    } else if at(t, s.pos, "WRITE"@) {
        ast_statement_write(t, s)
    } else {
        (Seq::empty(), s)
    }
}

/// `ID ASSIGNOP <expression> SEMICOLON`, as an `ASSIGNOP` node over the
/// target and the expression.
pub open spec fn ast_statement_id(t: Seq<Tok>, s: St) -> (Seq<TreeV>, St)
    decreases (t.len() - s.pos) as nat, 7nat,
{
    let n = leaf("ASSIGNOP"@, ":="@, s.id);
    let s0 = fresh(s);
    let i = leaf("ID"@, text(t, s0), s0.id);
    let s2 = skip(t, adv(t, fresh(s0)), "ASSIGNOP"@);
    let (e, s3) = ast_expression(t, s2);
    (seq![with_children(n, seq![i] + e)], skip(t, s3, "SEMICOLON"@))
}

/// `READ LPAREN <id_list> RPAREN SEMICOLON`, as a `READ` node over the names.
pub open spec fn ast_statement_read(t: Seq<Tok>, s: St) -> (Seq<TreeV>, St)
    decreases (t.len() - s.pos) as nat, 7nat,
{
    let n = leaf("READ"@, "read"@, s.id);
    let s2 = skip(t, adv(t, fresh(s)), "LPAREN"@);
    let (ids, s3) = ast_id_list(t, s2);
    (seq![with_children(n, ids)], skip(t, skip(t, s3, "RPAREN"@), "SEMICOLON"@))
}

/// `WRITE LPAREN <expression_list> RPAREN SEMICOLON`, as a `WRITE` node over
/// the expressions.
pub open spec fn ast_statement_write(t: Seq<Tok>, s: St) -> (Seq<TreeV>, St)
    decreases (t.len() - s.pos) as nat, 7nat,
{
    let n = leaf("WRITE"@, "write"@, s.id);
    let s2 = skip(t, adv(t, fresh(s)), "LPAREN"@);
    let (es, s3) = ast_expression_list(t, s2);
    (seq![with_children(n, es)], skip(t, skip(t, s3, "RPAREN"@), "SEMICOLON"@))
}

/// `<id_list> ::= ID { COMMA ID }`
pub open spec fn ast_id_list(t: Seq<Tok>, s: St) -> (Seq<TreeV>, St)
    decreases (t.len() - s.pos) as nat, 6nat,
{
    let (i, s1) = terminal(t, s, "ID"@);
    let (rest, s2) = ast_ids(t, s1);
    (i + rest, s2)
}

/// The names after the first one in an identifier list.
pub open spec fn ast_ids(t: Seq<Tok>, s: St) -> (Seq<TreeV>, St)
    decreases (t.len() - s.pos) as nat, 5nat,
{
    if at(t, s.pos, "COMMA"@) {
        let (i, s2) = terminal(t, adv(t, s), "ID"@);
        let (rest, s3) = ast_ids(t, s2);
        (i + rest, s3)
    } else {
        (Seq::empty(), s)
    }
}

/// `<expression_list> ::= <expression> { COMMA <expression> }`
pub open spec fn ast_expression_list(t: Seq<Tok>, s: St) -> (Seq<TreeV>, St)
    decreases (t.len() - s.pos) as nat, 6nat,
{
    let (e, s1) = ast_expression(t, s);
    if ok(t, s, s1) {
        let (rest, s2) = ast_expressions(t, s1);
        (e + rest, s2)
    } else {
        (e, s1)
    }
}

/// The expressions after the first one in an expression list.
pub open spec fn ast_expressions(t: Seq<Tok>, s: St) -> (Seq<TreeV>, St)
    decreases (t.len() - s.pos) as nat, 5nat,
{
    if at(t, s.pos, "COMMA"@) {
        let s1 = adv(t, s);
        let (e, s2) = ast_expression(t, s1);
        if ok(t, s1, s2) {
            let (rest, s3) = ast_expressions(t, s2);
            (e + rest, s3)
        } else {
            (e, s2)
        }
    } else {
        (Seq::empty(), s)
    }
}

/// An expression: its first primary alone, or, where an operator follows it,
/// a node for that operator over the primary and the rest of the expression.
pub open spec fn ast_expression(t: Seq<Tok>, s: St) -> (Seq<TreeV>, St)
    decreases (t.len() - s.pos) as nat, 4nat,
{
    let (p, s1) = ast_primary(t, fresh(s));
    if ok(t, s, s1) && is_add_op(t, s1.pos) {
        let (rest, s2) = ast_expression(t, adv(t, s1));
        let op = TreeV { name: t[s1.pos as int].0, value: t[s1.pos as int].1, id: s.id, children: p + rest };
        (seq![op], s2)
    } else {
        (p, s1)
    }
}

/// `<primary> ::= INTLITERAL | ID | LPAREN <expression> RPAREN`, without a
/// node of its own.
pub open spec fn ast_primary(t: Seq<Tok>, s: St) -> (Seq<TreeV>, St)
    decreases (t.len() - s.pos) as nat, 3nat,
{
    if at(t, s.pos, "INTLITERAL"@) {
        terminal(t, s, "INTLITERAL"@)
    } else if at(t, s.pos, "ID"@) {
        terminal(t, s, "ID"@)
    } else if at(t, s.pos, "LPAREN"@) {
        ast_primary_paren(t, s)
    } else {
        (Seq::empty(), s)
    }
}

/// `LPAREN <expression> RPAREN`: the expression alone.
pub open spec fn ast_primary_paren(t: Seq<Tok>, s: St) -> (Seq<TreeV>, St)
    decreases (t.len() - s.pos) as nat, 2nat,
{
    if at(t, s.pos, "LPAREN"@) {
        let (e, s2) = ast_expression(t, adv(t, s));
        (e, skip(t, s2, "RPAREN"@))
    } else {
        (Seq::empty(), s)
    }
}

/// The abstract syntax tree of a token sequence, under its root node.
pub open spec fn ast_of(t: Seq<Tok>) -> TreeV {
    let root = leaf("AbstractSyntaxTree"@, "AbstractSyntaxTree"@, 0);
    with_children(root, ast_start(t, St { pos: 0, id: 1 }).0)
}

/// Every rule of the concrete pass gives exactly one node of its own, named
/// after the rule, even where it has a single child (an identifier list too,
/// under a read statement): a statement list starts
/// with a statement node, an expression list with an expression node, and an
/// expression with a primary node.
pub proof fn lemma_cst_rule_nodes(t: Seq<Tok>, s: St)
    ensures
        cst_start(t, s).0.len() == 1 && cst_start(t, s).0[0].name == "<start>"@ && cst_start(t, s).0[0].id == s.id,
        cst_program(t, s).0.len() == 1 && cst_program(t, s).0[0].name == "<program>"@ && cst_program(t, s).0[0].id == s.id,
        cst_statement_list(t, s).0.len() == 1 && cst_statement_list(t, s).0[0].name == "<statement list>"@
            && cst_statement_list(t, s).0[0].id == s.id
            && cst_statement_list(t, s).0[0].children[0].name == "<statement>"@,
        cst_statement(t, s).0.len() == 1 && cst_statement(t, s).0[0].name == "<statement>"@ && cst_statement(t, s).0[0].id == s.id,
        cst_id_list(t, s).0.len() == 1 && cst_id_list(t, s).0[0].name == "<id list>"@ && cst_id_list(t, s).0[0].id == s.id,
        cst_expression_list(t, s).0.len() == 1 && cst_expression_list(t, s).0[0].name == "<expression list>"@
            && cst_expression_list(t, s).0[0].id == s.id
            && cst_expression_list(t, s).0[0].children[0].name == "<expression>"@,
        cst_expression(t, s).0.len() == 1 && cst_expression(t, s).0[0].name == "<expression>"@ && cst_expression(t, s).0[0].id == s.id
            && cst_expression(t, s).0[0].children[0].name == "<primary>"@,
        cst_primary(t, s).0.len() == 1 && cst_primary(t, s).0[0].name == "<primary>"@ && cst_primary(t, s).0[0].id == s.id,
        cst_add_op(t, s).0.len() == 1 && cst_add_op(t, s).0[0].name == "<addop>"@ && cst_add_op(t, s).0[0].id == s.id,
{
    let x = cst_statement(t, fresh(s)).0;
    assert(x.len() == 1);
    let e = cst_expression(t, fresh(s)).0;
    assert(e.len() == 1);
    let p = cst_primary(t, fresh(s)).0;
    assert(p.len() == 1);
}

/// Subtraction groups to the right in the abstract pass: `a - b - c` gives
/// `MINUSOP(a, MINUSOP(b, c))`.
pub proof fn lemma_subtraction_groups_right(t: Seq<Tok>, s: St)
    requires
        s.pos + 5 <= t.len(),
        t[s.pos as int].0 == "ID"@,
        t[s.pos as int + 1].0 == "MINUSOP"@,
        t[s.pos as int + 2].0 == "ID"@,
        t[s.pos as int + 3].0 == "MINUSOP"@,
        t[s.pos as int + 4].0 == "ID"@,
        !is_add_op(t, s.pos + 5),
        s.id + 6 < u64::MAX,
    ensures
        ast_expression(t, s).0 == seq![
            TreeV {
                name: "MINUSOP"@,
                value: t[s.pos as int + 1].1,
                id: s.id,
                children: seq![
                    leaf("ID"@, t[s.pos as int].1, s.id + 1),
                    TreeV {
                        name: "MINUSOP"@,
                        value: t[s.pos as int + 3].1,
                        id: s.id + 2,
                        children: seq![leaf("ID"@, t[s.pos as int + 2].1, s.id + 3), leaf("ID"@, t[s.pos as int + 4].1, s.id + 5)],
                    },
                ],
            },
        ],
{
    reveal_strlit("ID");
    reveal_strlit("INTLITERAL");
    let p = s.pos;
    let a = leaf("ID"@, t[p as int].1, s.id + 1);
    let b = leaf("ID"@, t[p as int + 2].1, s.id + 3);
    let c = leaf("ID"@, t[p as int + 4].1, s.id + 5);
    assert(ast_primary(t, St { pos: p + 4, id: s.id + 5 }) == (seq![c], St { pos: p + 5, id: s.id + 6 }));
    assert(ast_expression(t, St { pos: p + 4, id: s.id + 4 }) == (seq![c], St { pos: p + 5, id: s.id + 6 }));
    assert(ast_primary(t, St { pos: p + 2, id: s.id + 3 }) == (seq![b], St { pos: p + 3, id: s.id + 4 }));
    let inner = TreeV { name: "MINUSOP"@, value: t[p as int + 3].1, id: s.id + 2, children: seq![b] + seq![c] };
    assert(ast_expression(t, St { pos: p + 2, id: s.id + 2 }) == (seq![inner], St { pos: p + 5, id: s.id + 6 }));
    assert(ast_primary(t, St { pos: p, id: s.id + 1 }) == (seq![a], St { pos: p + 1, id: s.id + 2 }));
    assert(seq![b] + seq![c] =~= seq![b, c]);
    assert(seq![a] + seq![inner] =~= seq![a, inner]);
}

pub open spec fn is_op_name(n: Seq<char>) -> bool {
    n == "PLUSOP"@ || n == "MINUSOP"@
}

/// A tree that can stand as an operand: a literal, a name or an operator node.
pub open spec fn operand(x: TreeV) -> bool {
    x.name == "INTLITERAL"@ || x.name == "ID"@ || is_op_name(x.name)
}

/// Some token from `from` up to, not including, `to` is an operator.
pub open spec fn has_op_between(t: Seq<Tok>, from: nat, to: nat) -> bool {
    exists|j: nat| from <= j < to && #[trigger] is_add_op(t, j)
}

proof fn lemma_op_split(t: Seq<Tok>, a: nat, b: nat, c: nat)
    requires
        a <= b <= c,
    ensures
        has_op_between(t, a, c) <==> (has_op_between(t, a, b) || has_op_between(t, b, c)),
{
    if has_op_between(t, a, c) {
        let j = choose|j: nat| a <= j < c && #[trigger] is_add_op(t, j);
        if j < b {
            assert(a <= j < b && is_add_op(t, j));
        } else {
            assert(b <= j < c && is_add_op(t, j));
        }
    }
    if has_op_between(t, a, b) {
        let j = choose|j: nat| a <= j < b && #[trigger] is_add_op(t, j);
        assert(a <= j < c && is_add_op(t, j));
    }
    if has_op_between(t, b, c) {
        let j = choose|j: nat| b <= j < c && #[trigger] is_add_op(t, j);
        assert(a <= j < c && is_add_op(t, j));
    }
}

proof fn lemma_op_single(t: Seq<Tok>, a: nat)
    ensures
        has_op_between(t, a, a + 1) <==> is_add_op(t, a),
        !has_op_between(t, a, a),
{
    if is_add_op(t, a) {
        assert(a <= a < a + 1 && is_add_op(t, a));
    }
}

/// The abstract pass gives no node for a primary, and an operator node for an
/// expression exactly where the expression holds an operator: what an
/// expression yields is at most one literal, name or operator node, and it is
/// an operator node if and only if one of the tokens it consumed is an operator.
pub proof fn lemma_ast_expression_shape(t: Seq<Tok>, s: St)
    requires
        s.pos <= t.len(),
    ensures
        ok(t, s, ast_expression(t, s).1),
        ast_expression(t, s).0.len() <= 1,
        ast_expression(t, s).0.len() == 1 ==> operand(ast_expression(t, s).0[0]),
        (ast_expression(t, s).0.len() == 1 && is_op_name(ast_expression(t, s).0[0].name))
            <==> has_op_between(t, s.pos, ast_expression(t, s).1.pos),
    decreases (t.len() - s.pos) as nat, 4nat,
{
    let (p, s1) = ast_primary(t, fresh(s));
    lemma_ast_primary_shape(t, fresh(s));
    if ok(t, s, s1) && is_add_op(t, s1.pos) {
        let s2 = adv(t, s1);
        lemma_ast_expression_shape(t, s2);
        let s3 = ast_expression(t, s2).1;
        assert(s.pos <= s1.pos < s3.pos && is_add_op(t, s1.pos));
        assert(has_op_between(t, s.pos, s3.pos));
    }
}

/// What a primary yields in the abstract pass: at most one literal, name or
/// operator node, and an operator node exactly where it consumed an operator.
pub proof fn lemma_ast_primary_shape(t: Seq<Tok>, s: St)
    requires
        s.pos <= t.len(),
    ensures
        ok(t, s, ast_primary(t, s).1),
        ast_primary(t, s).0.len() <= 1,
        ast_primary(t, s).0.len() == 1 ==> operand(ast_primary(t, s).0[0]),
        (ast_primary(t, s).0.len() == 1 && is_op_name(ast_primary(t, s).0[0].name))
            <==> has_op_between(t, s.pos, ast_primary(t, s).1.pos),
    decreases (t.len() - s.pos) as nat, 3nat,
{
    reveal_strlit("ID");
    reveal_strlit("INTLITERAL");
    reveal_strlit("LPAREN");
    reveal_strlit("RPAREN");
    reveal_strlit("PLUSOP");
    reveal_strlit("MINUSOP");
    lemma_op_single(t, s.pos);
    assert("LPAREN"@ != "INTLITERAL"@ && "LPAREN"@ != "ID"@ && "ID"@ != "INTLITERAL"@) by {
        assert("LPAREN"@.len() != "INTLITERAL"@.len() && "LPAREN"@.len() != "ID"@.len());
        assert("ID"@.len() != "INTLITERAL"@.len());
    }
    assert(!is_op_name("INTLITERAL"@) && !is_op_name("ID"@) && !is_op_name("LPAREN"@) && !is_op_name("RPAREN"@)) by {
        assert("PLUSOP"@.len() == 6 && "MINUSOP"@.len() == 7 && "INTLITERAL"@.len() == 10 && "ID"@.len() == 2);
        assert("LPAREN"@[0] != "PLUSOP"@[0] && "RPAREN"@[0] != "PLUSOP"@[0]);
    }
    if at(t, s.pos, "LPAREN"@) {
        let s1 = adv(t, s);
        lemma_ast_expression_shape(t, s1);
        let s2 = ast_expression(t, s1).1;
        lemma_op_split(t, s.pos, s1.pos, s2.pos);
        lemma_op_single(t, s2.pos);
        let s3 = skip(t, s2, "RPAREN"@);
        lemma_op_split(t, s.pos, s2.pos, s3.pos);
        assert(ast_primary(t, s) == ast_primary_paren(t, s));
    }
}

/// No node of the tree, the root included, is named `name`.
pub open spec fn free_of(x: TreeV, name: Seq<char>) -> bool
    decreases x,
{
    x.name != name && forall|i: int| 0 <= i < x.children.len() ==> free_of(#[trigger] x.children[i], name)
}

/// No node of these trees is named `name`.
pub open spec fn none_named(ts: Seq<TreeV>, name: Seq<char>) -> bool {
    forall|i: int| 0 <= i < ts.len() ==> free_of(#[trigger] ts[i], name)
}

/// The names that the abstract pass gives its nodes.
pub open spec fn ast_label(name: Seq<char>) -> bool {
    name == "ID"@ || name == "INTLITERAL"@ || name == "PLUSOP"@ || name == "MINUSOP"@ || name == "ASSIGNOP"@
        || name == "READ"@ || name == "WRITE"@ || name == "<statement list>"@ || name == "AbstractSyntaxTree"@
}

proof fn lemma_np_concat(a: Seq<TreeV>, b: Seq<TreeV>, w: Seq<char>)
    requires
        none_named(a, w),
        none_named(b, w),
    ensures
        none_named(a + b, w),
{
    assert forall|i: int| 0 <= i < (a + b).len() implies free_of(#[trigger] (a + b)[i], w) by {
        if i < a.len() {
            assert((a + b)[i] == a[i]);
        } else {
            assert((a + b)[i] == b[i - a.len()]);
        }
    }
}

proof fn lemma_np_one(x: TreeV, w: Seq<char>)
    requires
        x.name != w,
        none_named(x.children, w),
    ensures
        none_named(seq![x], w),
{
    assert(free_of(x, w));
    assert(seq![x][0] == x);
}

/// A node that is not a primary, with no children of its own, over `cs`.
proof fn lemma_np_node(n: TreeV, cs: Seq<TreeV>, w: Seq<char>)
    requires
        n.name != w,
        n.children.len() == 0,
        none_named(cs, w),
    ensures
        none_named(seq![with_children(n, cs)], w),
{
    assert(n.children + cs =~= cs);
    lemma_np_one(with_children(n, cs), w);
}

proof fn lemma_np_terminal(t: Seq<Tok>, s: St, kind: Seq<char>, w: Seq<char>)
    requires
        kind != w,
    ensures
        none_named(terminal(t, s, kind).0, w),
{
    if at(t, s.pos, kind) {
        lemma_np_node(leaf(kind, text(t, s), s.id), Seq::empty(), w);
        assert(with_children(leaf(kind, text(t, s), s.id), Seq::empty()) =~~= leaf(kind, text(t, s), s.id));
    }
}

proof fn lemma_wrappers_are_not_labels()
    ensures
        !ast_label("<primary>"@),
        !ast_label("<start>"@),
        !ast_label("<program>"@),
        !ast_label("<expression>"@),
        !ast_label("TMP"@),
{
    reveal_strlit("<primary>");
    reveal_strlit("<start>");
    reveal_strlit("<program>");
    reveal_strlit("<expression>");
    reveal_strlit("TMP");
    reveal_strlit("ID");
    reveal_strlit("INTLITERAL");
    reveal_strlit("PLUSOP");
    reveal_strlit("MINUSOP");
    reveal_strlit("ASSIGNOP");
    reveal_strlit("READ");
    reveal_strlit("WRITE");
    reveal_strlit("<statement list>");
    reveal_strlit("AbstractSyntaxTree");
    assert("<primary>"@.len() == 9 && "<start>"@.len() == 7 && "<program>"@.len() == 9);
    assert("<expression>"@.len() == 12 && "TMP"@.len() == 3);
    assert("ID"@.len() == 2 && "INTLITERAL"@.len() == 10 && "PLUSOP"@.len() == 6 && "MINUSOP"@.len() == 7);
    assert("ASSIGNOP"@.len() == 8 && "READ"@.len() == 4 && "WRITE"@.len() == 5);
    assert("<statement list>"@.len() == 16 && "AbstractSyntaxTree"@.len() == 18);
    assert("<start>"@[0] != "MINUSOP"@[0]);
}

proof fn lemma_np_start(t: Seq<Tok>, s: St, w: Seq<char>)
    requires
        !ast_label(w),
    ensures
        none_named(ast_start(t, s).0, w),
    decreases (t.len() - s.pos) as nat, 12nat,
{
    lemma_np_program(t, s, w);
}

proof fn lemma_np_program(t: Seq<Tok>, s: St, w: Seq<char>)
    requires
        !ast_label(w),
    ensures
        none_named(ast_program(t, s).0, w),
    decreases (t.len() - s.pos) as nat, 11nat,
{
    lemma_np_statement_list(t, skip(t, s, "BEGIN"@), w);
}

proof fn lemma_np_statement_list(t: Seq<Tok>, s: St, w: Seq<char>)
    requires
        !ast_label(w),
    ensures
        none_named(ast_statement_list(t, s).0, w),
    decreases (t.len() - s.pos) as nat, 10nat,
{
    let (x, s1) = ast_statement(t, fresh(s));
    lemma_np_statement(t, fresh(s), w);
    let n = leaf("<statement list>"@, "<statement list>"@, s.id);
    if ok(t, s, s1) {
        lemma_np_statements(t, s1, w);
        lemma_np_concat(x, ast_statements(t, s1).0, w);
        lemma_np_node(n, x + ast_statements(t, s1).0, w);
    } else {
        lemma_np_node(n, x, w);
    }
}

proof fn lemma_np_statements(t: Seq<Tok>, s: St, w: Seq<char>)
    requires
        !ast_label(w),
    ensures
        none_named(ast_statements(t, s).0, w),
    decreases (t.len() - s.pos) as nat, 9nat,
{
    if starts_statement(t, s.pos) {
        let (x, s1) = ast_statement(t, s);
        lemma_np_statement(t, s, w);
        if ahead(t, s, s1) {
            lemma_np_statements(t, s1, w);
            lemma_np_concat(x, ast_statements(t, s1).0, w);
        }
    }
}

proof fn lemma_np_statement(t: Seq<Tok>, s: St, w: Seq<char>)
    requires
        !ast_label(w),
    ensures
        none_named(ast_statement(t, s).0, w),
    decreases (t.len() - s.pos) as nat, 8nat,
{
    if at(t, s.pos, "ID"@) {
        lemma_np_statement_id(t, s, w);
    } else if at(t, s.pos, "READ"@) {
        lemma_np_statement_read(t, s, w);
    } else if at(t, s.pos, "WRITE"@) {
        lemma_np_statement_write(t, s, w);
    }
}

proof fn lemma_np_statement_id(t: Seq<Tok>, s: St, w: Seq<char>)
    requires
        !ast_label(w),
    ensures
        none_named(ast_statement_id(t, s).0, w),
    decreases (t.len() - s.pos) as nat, 7nat,
{
    let s0 = fresh(s);
    let i = leaf("ID"@, text(t, s0), s0.id);
    let s2 = skip(t, adv(t, fresh(s0)), "ASSIGNOP"@);
    lemma_np_expression(t, s2, w);
    lemma_np_node(i, Seq::empty(), w);
    assert(with_children(i, Seq::empty()) =~~= i);
    lemma_np_concat(seq![i], ast_expression(t, s2).0, w);
    lemma_np_node(leaf("ASSIGNOP"@, ":="@, s.id), seq![i] + ast_expression(t, s2).0, w);
}

proof fn lemma_np_statement_read(t: Seq<Tok>, s: St, w: Seq<char>)
    requires
        !ast_label(w),
    ensures
        none_named(ast_statement_read(t, s).0, w),
    decreases (t.len() - s.pos) as nat, 7nat,
{
    let s2 = skip(t, adv(t, fresh(s)), "LPAREN"@);
    lemma_np_id_list(t, s2, w);
    lemma_np_node(leaf("READ"@, "read"@, s.id), ast_id_list(t, s2).0, w);
}

proof fn lemma_np_statement_write(t: Seq<Tok>, s: St, w: Seq<char>)
    requires
        !ast_label(w),
    ensures
        none_named(ast_statement_write(t, s).0, w),
    decreases (t.len() - s.pos) as nat, 7nat,
{
    let s2 = skip(t, adv(t, fresh(s)), "LPAREN"@);
    lemma_np_expression_list(t, s2, w);
    lemma_np_node(leaf("WRITE"@, "write"@, s.id), ast_expression_list(t, s2).0, w);
}

proof fn lemma_np_id_list(t: Seq<Tok>, s: St, w: Seq<char>)
    requires
        !ast_label(w),
    ensures
        none_named(ast_id_list(t, s).0, w),
    decreases (t.len() - s.pos) as nat, 6nat,
{
    lemma_np_terminal(t, s, "ID"@, w);
    let s1 = terminal(t, s, "ID"@).1;
    lemma_np_ids(t, s1, w);
    lemma_np_concat(terminal(t, s, "ID"@).0, ast_ids(t, s1).0, w);
}

proof fn lemma_np_ids(t: Seq<Tok>, s: St, w: Seq<char>)
    requires
        !ast_label(w),
    ensures
        none_named(ast_ids(t, s).0, w),
    decreases (t.len() - s.pos) as nat, 5nat,
{
    if at(t, s.pos, "COMMA"@) {
        let (i, s2) = terminal(t, adv(t, s), "ID"@);
        lemma_np_terminal(t, adv(t, s), "ID"@, w);
        lemma_np_ids(t, s2, w);
        lemma_np_concat(i, ast_ids(t, s2).0, w);
    }
}

proof fn lemma_np_expression_list(t: Seq<Tok>, s: St, w: Seq<char>)
    requires
        !ast_label(w),
    ensures
        none_named(ast_expression_list(t, s).0, w),
    decreases (t.len() - s.pos) as nat, 6nat,
{
    let (e, s1) = ast_expression(t, s);
    lemma_np_expression(t, s, w);
    if ok(t, s, s1) {
        lemma_np_expressions(t, s1, w);
        lemma_np_concat(e, ast_expressions(t, s1).0, w);
    }
}

proof fn lemma_np_expressions(t: Seq<Tok>, s: St, w: Seq<char>)
    requires
        !ast_label(w),
    ensures
        none_named(ast_expressions(t, s).0, w),
    decreases (t.len() - s.pos) as nat, 5nat,
{
    if at(t, s.pos, "COMMA"@) {
        let s1 = adv(t, s);
        let (e, s2) = ast_expression(t, s1);
        lemma_np_expression(t, s1, w);
        if ok(t, s1, s2) {
            lemma_np_expressions(t, s2, w);
            lemma_np_concat(e, ast_expressions(t, s2).0, w);
        }
    }
}

proof fn lemma_np_expression(t: Seq<Tok>, s: St, w: Seq<char>)
    requires
        !ast_label(w),
    ensures
        none_named(ast_expression(t, s).0, w),
    decreases (t.len() - s.pos) as nat, 4nat,
{
    let (p, s1) = ast_primary(t, fresh(s));
    lemma_np_primary(t, fresh(s), w);
    if ok(t, s, s1) && is_add_op(t, s1.pos) {
        let rest = ast_expression(t, adv(t, s1)).0;
        lemma_np_expression(t, adv(t, s1), w);
        lemma_np_concat(p, rest, w);
        lemma_np_one(TreeV { name: t[s1.pos as int].0, value: t[s1.pos as int].1, id: s.id, children: p + rest }, w);
    }
}

proof fn lemma_np_primary(t: Seq<Tok>, s: St, w: Seq<char>)
    requires
        !ast_label(w),
    ensures
        none_named(ast_primary(t, s).0, w),
    decreases (t.len() - s.pos) as nat, 3nat,
{
    if at(t, s.pos, "INTLITERAL"@) {
        lemma_np_terminal(t, s, "INTLITERAL"@, w);
    } else if at(t, s.pos, "ID"@) {
        lemma_np_terminal(t, s, "ID"@, w);
    } else if at(t, s.pos, "LPAREN"@) {
        lemma_np_primary_paren(t, s, w);
    }
}

proof fn lemma_np_primary_paren(t: Seq<Tok>, s: St, w: Seq<char>)
    requires
        !ast_label(w),
    ensures
        none_named(ast_primary_paren(t, s).0, w),
    decreases (t.len() - s.pos) as nat, 2nat,
{
    if at(t, s.pos, "LPAREN"@) {
        lemma_np_expression(t, adv(t, s), w);
    }
}

proof fn lemma_ast_free_of(t: Seq<Tok>, w: Seq<char>)
    requires
        !ast_label(w),
    ensures
        free_of(ast_of(t), w),
{
    lemma_np_start(t, St { pos: 0, id: 1 }, w);
    let root = leaf("AbstractSyntaxTree"@, "AbstractSyntaxTree"@, 0);
    lemma_np_node(root, ast_start(t, St { pos: 0, id: 1 }).0, w);
    assert(seq![ast_of(t)][0] == ast_of(t));
}

/// The abstract syntax tree of any token sequence holds no node for a
/// primary, for `start` or `program`, for an expression, nor the temporary
/// node that an expression starts from: only names, literals, operators,
/// statements and the statement list stand in it.
pub proof fn lemma_ast_has_no_wrappers(t: Seq<Tok>)
    ensures
        free_of(ast_of(t), "<primary>"@),
        free_of(ast_of(t), "<start>"@),
        free_of(ast_of(t), "<program>"@),
        free_of(ast_of(t), "<expression>"@),
        free_of(ast_of(t), "TMP"@),
{
    lemma_wrappers_are_not_labels();
    lemma_ast_free_of(t, "<primary>"@);
    lemma_ast_free_of(t, "<start>"@);
    lemma_ast_free_of(t, "<program>"@);
    lemma_ast_free_of(t, "<expression>"@);
    lemma_ast_free_of(t, "TMP"@);
}

/// The token at `p` is a name or a literal.
pub open spec fn operand_at(t: Seq<Tok>, p: nat) -> bool {
    at(t, p, "ID"@) || at(t, p, "INTLITERAL"@)
}

/// From `p` on stand `k` operators, each between two operands that are a name
/// or a literal, and no operator follows the last operand.
pub open spec fn operator_chain(t: Seq<Tok>, p: nat, k: nat) -> bool
    decreases k,
{
    operand_at(t, p) && if k == 0 {
        !is_add_op(t, p + 1)
    } else {
        is_add_op(t, p + 1) && operator_chain(t, p + 2, (k - 1) as nat)
    }
}

/// The right fold of such a chain: its operand alone, or its first operator
/// over its first operand and the fold of the rest.
pub open spec fn right_fold(t: Seq<Tok>, p: nat, k: nat, id: nat) -> TreeV
    decreases k,
{
    let a = leaf(t[p as int].0, t[p as int].1, id + 1);
    if k == 0 {
        a
    } else {
        TreeV {
            name: t[p as int + 1].0,
            value: t[p as int + 1].1,
            id,
            children: seq![a, right_fold(t, p + 2, (k - 1) as nat, id + 2)],
        }
    }
}

/// In the abstract pass a chain of `k` operators folds to the right:
/// `a op1 b op2 c ...` gives `op1(a, op2(b, ...))`, consuming all `2k + 1`
/// tokens.
pub proof fn lemma_chain_folds_right(t: Seq<Tok>, s: St, k: nat)
    requires
        operator_chain(t, s.pos, k),
        s.id + 2 * k + 2 < u64::MAX,
    ensures
        ast_expression(t, s) == (seq![right_fold(t, s.pos, k, s.id)], St { pos: s.pos + 2 * k + 1, id: s.id + 2 * k + 2 }),
    decreases k,
{
    reveal_strlit("ID");
    reveal_strlit("INTLITERAL");
    assert("ID"@.len() != "INTLITERAL"@.len());
    let p = s.pos;
    let a = leaf(t[p as int].0, t[p as int].1, s.id + 1);
    assert(ast_primary(t, fresh(s)) == (seq![a], St { pos: p + 1, id: s.id + 2 }));
    if k > 0 {
        let s2 = St { pos: p + 2, id: s.id + 2 };
        lemma_chain_folds_right(t, s2, (k - 1) as nat);
        assert(seq![a] + seq![right_fold(t, p + 2, (k - 1) as nat, s.id + 2)] =~= seq![a, right_fold(t, p + 2, (k - 1) as nat, s.id + 2)]);
    }
}

/// A terminal that is not there is skipped: it adds no leaf and consumes no
/// token. One that is there adds one leaf and consumes its token. This holds
/// of every terminal of both passes, the punctuation of a `write` included.
pub proof fn lemma_absent_terminal_skipped(t: Seq<Tok>, s: St, kind: Seq<char>, value: Seq<char>)
    ensures
        !at(t, s.pos, kind) ==> punct(t, s, kind, value) == (Seq::<TreeV>::empty(), s),
        !at(t, s.pos, kind) ==> terminal(t, s, kind) == (Seq::<TreeV>::empty(), s),
        !at(t, s.pos, kind) ==> skip(t, s, kind) == s,
        at(t, s.pos, kind) ==> punct(t, s, kind, value).0.len() == 1 && punct(t, s, kind, value).1.pos == s.pos + 1,
        at(t, s.pos, kind) ==> terminal(t, s, kind).0.len() == 1 && terminal(t, s, kind).1.pos == s.pos + 1,
        at(t, s.pos, kind) ==> skip(t, s, kind).pos == s.pos + 1,
{
}

/// A `write` whose closing parenthesis is missing gets no leaf for it, and
/// the token found in its place is left for what follows.
pub proof fn lemma_write_without_rparen(t: Seq<Tok>, s: St)
    requires
        at(t, s.pos, "WRITE"@),
    ensures
        ({
            let s1 = adv(t, fresh(s));
            let (l, s2) = punct(t, s1, "LPAREN"@, "("@);
            let (es, s3) = cst_expression_list(t, s2);
            !at(t, s3.pos, "RPAREN"@) ==> cst_statement_write(t, s) == (
                seq![leaf("WRITE"@, "WRITE"@, s.id)] + l + es + punct(t, s3, "SEMICOLON"@, ";"@).0,
                punct(t, s3, "SEMICOLON"@, ";"@).1,
            )
        }),
        ({
            let s2 = skip(t, adv(t, fresh(s)), "LPAREN"@);
            let (es, s3) = ast_expression_list(t, s2);
            !at(t, s3.pos, "RPAREN"@) ==> ast_statement_write(t, s) == (
                seq![with_children(leaf("WRITE"@, "write"@, s.id), es)],
                skip(t, s3, "SEMICOLON"@),
            )
        }),
{
    let s1 = adv(t, fresh(s));
    let (l, s2) = punct(t, s1, "LPAREN"@, "("@);
    let (es, s3) = cst_expression_list(t, s2);
    let w = seq![leaf("WRITE"@, "WRITE"@, s.id)];
    if !at(t, s3.pos, "RPAREN"@) {
        assert(w + l + es + Seq::<TreeV>::empty() =~= w + l + es);
    }
}

/// A parser over a token sequence; it keeps the last trees it built.
pub struct Par4m {
    tokens: Token4m,
    ids: u64,
    concrete_syntax_tree: Node,
    abstract_syntax_tree: Node,
}

impl Par4m {
    pub closed spec fn inv(&self) -> bool {
        self.tokens.wf()
    }

    /// The tokens the parser reads.
    pub closed spec fn toks(&self) -> Seq<Tok> {
        self.tokens@.toks
    }

    pub closed spec fn st(&self) -> St {
        St { pos: self.tokens@.pos, id: self.ids as nat }
    }

    pub closed spec fn cst(&self) -> TreeV {
        self.concrete_syntax_tree@
    }

    pub closed spec fn ast(&self) -> TreeV {
        self.abstract_syntax_tree@
    }

    pub fn concrete_syntax_tree(&self) -> (r: &Node)
        ensures
            r@ == self.cst(),
    {
        &self.concrete_syntax_tree
    }

    pub fn abstract_syntax_tree(&self) -> (r: &Node)
        ensures
            r@ == self.ast(),
    {
        &self.abstract_syntax_tree
    }

    /// A parser over `tokens`, from its first token on, whose trees are two
    /// bare roots until it builds them.
    pub fn new(tokens: Token4m) -> (r: Self)
        requires
            tokens.wf(),
        ensures
            r.inv(),
            r.toks() == tokens@.toks,
            r.cst() == leaf("ConcreteSyntaxTree"@, Seq::empty(), 0),
            r.ast() == leaf("AbstractSyntaxTree"@, Seq::empty(), 1),
    {
        let mut ids: u64 = 0;
        let concrete_syntax_tree = Node::new(String::from_str("ConcreteSyntaxTree"), String::new(), &mut ids);
        let abstract_syntax_tree = Node::new(String::from_str("AbstractSyntaxTree"), String::new(), &mut ids);
        Par4m { tokens, ids, concrete_syntax_tree, abstract_syntax_tree }
    }

    fn next_is(&self, kind: &str) -> (r: bool)
        requires
            self.inv(),
        ensures
            r == at(self.toks(), self.st().pos, kind@),
    {
        self.tokens.next_is(kind)
    }

    fn consume(&mut self)
        requires
            old(self).inv(),
        ensures
            final(self).inv(),
            final(self).toks() == old(self).toks(),
            final(self).st() == adv(old(self).toks(), old(self).st()),
            final(self).cst() == old(self).cst(),
            final(self).ast() == old(self).ast(),
    {
        self.tokens.consume_token();
    }

    /// A new node, whose identifier is the next one.
    fn node(&mut self, name: &str, value: &str) -> (r: Node)
        requires
            old(self).inv(),
        ensures
            final(self).inv(),
            final(self).toks() == old(self).toks(),
            final(self).st() == fresh(old(self).st()),
            r@ == leaf(name@, value@, old(self).st().id),
            final(self).cst() == old(self).cst(),
            final(self).ast() == old(self).ast(),
    {
        Node::new(String::from_str(name), String::from_str(value), &mut self.ids)
    }

    /// A new node holding the kind and the text of the token under the cursor.
    fn token_node(&mut self) -> (r: Node)
        requires
            old(self).inv(),
            old(self).st().pos < old(self).toks().len(),
        ensures
            final(self).inv(),
            final(self).toks() == old(self).toks(),
            final(self).st() == fresh(old(self).st()),
            r@ == leaf(old(self).toks()[old(self).st().pos as int].0, text(old(self).toks(), old(self).st()), old(self).st().id),
            final(self).cst() == old(self).cst(),
            final(self).ast() == old(self).ast(),
    {
        let kind = self.tokens.next_kind();
        let value = self.tokens.next_text();
        Node::new(kind, value, &mut self.ids)
    }

    /// Adds a leaf for a terminal of kind `kind`, holding `value`, if the next
    /// token is one, and consumes it.
    fn punct(&mut self, father_node: &mut Node, kind: &str, value: &str)
        requires
            old(self).inv(),
        ensures
            final(self).inv(),
            final(self).toks() == old(self).toks(),
            final(father_node)@ == with_children(old(father_node)@, punct(old(self).toks(), old(self).st(), kind@, value@).0),
            final(self).st() == punct(old(self).toks(), old(self).st(), kind@, value@).1,
            final(self).cst() == old(self).cst(),
            final(self).ast() == old(self).ast(),
    {
        if self.next_is(kind) {
            let n = self.node(kind, value);
            father_node.add_child(n);
            self.consume();
            proof { lemma_with_one_child(old(father_node)@, n@); }
        } else {
            proof { lemma_with_no_children(old(father_node)@); }
        }
    }

    /// Adds a leaf for a terminal of kind `kind`, holding its text, if the
    /// next token is one, and consumes it.
    fn terminal(&mut self, father_node: &mut Node, kind: &str)
        requires
            old(self).inv(),
        ensures
            final(self).inv(),
            final(self).toks() == old(self).toks(),
            final(father_node)@ == with_children(old(father_node)@, terminal(old(self).toks(), old(self).st(), kind@).0),
            final(self).st() == terminal(old(self).toks(), old(self).st(), kind@).1,
            final(self).cst() == old(self).cst(),
            final(self).ast() == old(self).ast(),
    {
        if self.next_is(kind) {
            let n = self.token_node();
            father_node.add_child(n);
            self.consume();
            proof { lemma_with_one_child(old(father_node)@, n@); }
        } else {
            proof { lemma_with_no_children(old(father_node)@); }
        }
    }

    /// One rule has run: it added `r.0` to the node of its caller (which went
    /// from `before` to `after`), and left the parser in the state `r.1`.
    pub closed spec fn did(&self, next: &Par4m, before: TreeV, after: TreeV, r: (Seq<TreeV>, St)) -> bool {
        &&& next.inv()
        &&& next.toks() == self.toks()
        &&& after == with_children(before, r.0)
        &&& next.st() == r.1
        &&& self.st().pos <= next.st().pos
        &&& next.cst() == self.cst()
        &&& next.ast() == self.ast()
    }

    /// Consumes the token under the cursor if it is of kind `kind`.
    fn skip(&mut self, kind: &str)
        requires
            old(self).inv(),
        ensures
            final(self).inv(),
            final(self).toks() == old(self).toks(),
            final(self).st() == skip(old(self).toks(), old(self).st(), kind@),
            final(self).cst() == old(self).cst(),
            final(self).ast() == old(self).ast(),
    {
        if self.next_is(kind) {
            self.consume();
        }
    }

    /*
    The abstract syntax tree.
    */

    /// Builds the abstract syntax tree of the tokens, from the first one on.
    pub fn generate_abstract_syntax_tree(&mut self)
        requires
            old(self).inv(),
        ensures
            final(self).inv(),
            final(self).toks() == old(self).toks(),
            final(self).ast() == ast_of(old(self).toks()),
            final(self).cst() == old(self).cst(),
    {
        self.tokens.reset();
        reset_global_counter(&mut self.ids);
        let mut root_node = self.node("AbstractSyntaxTree", "AbstractSyntaxTree");
        self._ast_start(&mut root_node);
        self.abstract_syntax_tree = root_node;
    }

    // <start> ::= <program> SCANEOF
    fn _ast_start(&mut self, father_node: &mut Node)
        requires
            old(self).inv(),
        ensures
            old(self).did(final(self), old(father_node)@, final(father_node)@, ast_start(old(self).toks(), old(self).st())),
        decreases (old(self).toks().len() - old(self).st().pos) as nat, 12nat,
    {
        self._ast_program(father_node);
        self.skip("SCANEOF");
    }

    // <program> ::= BEGIN <statement_list> END
    fn _ast_program(&mut self, father_node: &mut Node)
        requires
            old(self).inv(),
        ensures
            old(self).did(final(self), old(father_node)@, final(father_node)@, ast_program(old(self).toks(), old(self).st())),
        decreases (old(self).toks().len() - old(self).st().pos) as nat, 11nat,
    {
        self.skip("BEGIN");
        self._ast_statement_list(father_node);
        self.skip("END");
    }

    // <statement_list> ::= <statement> { <statement> }
    fn _ast_statement_list(&mut self, father_node: &mut Node)
        requires
            old(self).inv(),
        ensures
            old(self).did(final(self), old(father_node)@, final(father_node)@, ast_statement_list(old(self).toks(), old(self).st())),
        decreases (old(self).toks().len() - old(self).st().pos) as nat, 10nat,
    {
        let ghost t = self.toks();
        let ghost s = self.st();
        let mut statement_list_node = self.node("<statement list>", "<statement list>");
        let ghost n0 = statement_list_node@;
        self._ast_statement(&mut statement_list_node);
        let ghost r1 = ast_statement(t, fresh(s));
        let ghost n1 = statement_list_node@;
        while self.next_is("ID") || self.next_is("READ") || self.next_is("WRITE")
            invariant
                self.inv(),
                self.toks() == t,
                t == old(self).toks(),
                s == old(self).st(),
                r1.1.pos <= self.st().pos,
                self.cst() == old(self).cst(),
                self.ast() == old(self).ast(),
                with_children(statement_list_node@, ast_statements(t, self.st()).0) == with_children(n1, ast_statements(t, r1.1).0),
                ast_statements(t, self.st()).1 == ast_statements(t, r1.1).1,
            decreases t.len() - self.st().pos,
        {
            let ghost cur = self.st();
            let ghost before = statement_list_node@;
            self._ast_statement(&mut statement_list_node);
            proof {
                lemma_with_children_twice(before, ast_statement(t, cur).0, ast_statements(t, self.st()).0);
            }
        }
        proof {
            lemma_with_no_children(statement_list_node@);
            lemma_with_children_twice(n0, r1.0, ast_statements(t, r1.1).0);
            lemma_with_one_child(old(father_node)@, statement_list_node@);
        }
        father_node.add_child(statement_list_node);
    }

    // <statement> ::= ID ASSIGNOP <expression> SEMICOLON
    //              | READ LPAREN <id_list> RPAREN SEMICOLON
    //              | WRITE LPAREN <expression_list> RPAREN SEMICOLON
    fn _ast_statement(&mut self, father_node: &mut Node)
        requires
            old(self).inv(),
        ensures
            old(self).did(final(self), old(father_node)@, final(father_node)@, ast_statement(old(self).toks(), old(self).st())),
            starts_statement(old(self).toks(), old(self).st().pos) ==> old(self).st().pos < final(self).st().pos,
        decreases (old(self).toks().len() - old(self).st().pos) as nat, 8nat,
    {
        if self.next_is("ID") {
            self._ast_statement_id(father_node);
        } else if self.next_is("READ") {
            self._ast_statement_read(father_node);
        } else if self.next_is("WRITE") {
            self._ast_statement_write(father_node);
        } else {
            proof { lemma_with_no_children(father_node@); }
        }
    }

    // <statement> ::= ID ASSIGNOP <expression> SEMICOLON
    fn _ast_statement_id(&mut self, father_node: &mut Node)
        requires
            old(self).inv(),
            at(old(self).toks(), old(self).st().pos, "ID"@),
        ensures
            old(self).did(final(self), old(father_node)@, final(father_node)@, ast_statement_id(old(self).toks(), old(self).st())),
            old(self).st().pos < final(self).st().pos,
        decreases (old(self).toks().len() - old(self).st().pos) as nat, 7nat,
    {
        let ghost t = self.toks();
        let ghost s = self.st();
        let mut assign_op_node = self.node("ASSIGNOP", ":=");
        let ghost n0 = assign_op_node@;
        let target = self.token_node();
        let ghost i = target@;
        assign_op_node.add_child(target);
        self.consume();
        self.skip("ASSIGNOP");
        let ghost s2 = self.st();
        self._ast_expression(&mut assign_op_node);
        self.skip("SEMICOLON");
        proof {
            lemma_with_one_child(n0, i);
            lemma_with_children_twice(n0, seq![i], ast_expression(t, s2).0);
            lemma_with_one_child(old(father_node)@, assign_op_node@);
        }
        father_node.add_child(assign_op_node);
    }

    // <statement> ::= READ LPAREN <id_list> RPAREN SEMICOLON
    fn _ast_statement_read(&mut self, father_node: &mut Node)
        requires
            old(self).inv(),
            at(old(self).toks(), old(self).st().pos, "READ"@),
        ensures
            old(self).did(final(self), old(father_node)@, final(father_node)@, ast_statement_read(old(self).toks(), old(self).st())),
            old(self).st().pos < final(self).st().pos,
        decreases (old(self).toks().len() - old(self).st().pos) as nat, 7nat,
    {
        let mut read_node = self.node("READ", "read");
        self.consume();
        self.skip("LPAREN");
        self._ast_id_list(&mut read_node);
        self.skip("RPAREN");
        self.skip("SEMICOLON");
        proof { lemma_with_one_child(old(father_node)@, read_node@); }
        father_node.add_child(read_node);
    }

    // <statement> ::= WRITE LPAREN <expression_list> RPAREN SEMICOLON
    fn _ast_statement_write(&mut self, father_node: &mut Node)
        requires
            old(self).inv(),
            at(old(self).toks(), old(self).st().pos, "WRITE"@),
        ensures
            old(self).did(final(self), old(father_node)@, final(father_node)@, ast_statement_write(old(self).toks(), old(self).st())),
            old(self).st().pos < final(self).st().pos,
        decreases (old(self).toks().len() - old(self).st().pos) as nat, 7nat,
    {
        let mut write_node = self.node("WRITE", "write");
        self.consume();
        self.skip("LPAREN");
        self._ast_expression_list(&mut write_node);
        self.skip("RPAREN");
        self.skip("SEMICOLON");
        proof { lemma_with_one_child(old(father_node)@, write_node@); }
        father_node.add_child(write_node);
    }

    // <id_list> ::= ID { COMMA ID }
    fn _ast_id_list(&mut self, father_node: &mut Node)
        requires
            old(self).inv(),
        ensures
            old(self).did(final(self), old(father_node)@, final(father_node)@, ast_id_list(old(self).toks(), old(self).st())),
        decreases (old(self).toks().len() - old(self).st().pos) as nat, 6nat,
    {
        let ghost t = self.toks();
        let ghost s = self.st();
        let ghost f0 = father_node@;
        self.terminal(father_node, "ID");
        let ghost r1 = terminal(t, s, "ID"@);
        let ghost f1 = father_node@;
        while self.next_is("COMMA")
            invariant
                self.inv(),
                self.toks() == t,
                t == old(self).toks(),
                s == old(self).st(),
                r1.1.pos <= self.st().pos,
                self.cst() == old(self).cst(),
                self.ast() == old(self).ast(),
                with_children(father_node@, ast_ids(t, self.st()).0) == with_children(f1, ast_ids(t, r1.1).0),
                ast_ids(t, self.st()).1 == ast_ids(t, r1.1).1,
            decreases t.len() - self.st().pos,
        {
            let ghost before = father_node@;
            self.consume();
            let ghost s1 = self.st();
            self.terminal(father_node, "ID");
            proof {
                lemma_with_children_twice(before, terminal(t, s1, "ID"@).0, ast_ids(t, self.st()).0);
            }
        }
        proof {
            lemma_with_no_children(father_node@);
            lemma_with_children_twice(f0, r1.0, ast_ids(t, r1.1).0);
        }
    }

    // <expression_list> ::= <expression> { COMMA <expression> }
    fn _ast_expression_list(&mut self, father_node: &mut Node)
        requires
            old(self).inv(),
        ensures
            old(self).did(final(self), old(father_node)@, final(father_node)@, ast_expression_list(old(self).toks(), old(self).st())),
        decreases (old(self).toks().len() - old(self).st().pos) as nat, 6nat,
    {
        let ghost t = self.toks();
        let ghost s = self.st();
        let ghost f0 = father_node@;
        self._ast_expression(father_node);
        let ghost r1 = ast_expression(t, s);
        let ghost f1 = father_node@;
        while self.next_is("COMMA")
            invariant
                self.inv(),
                self.toks() == t,
                t == old(self).toks(),
                s == old(self).st(),
                r1.1.pos <= self.st().pos,
                s.pos <= r1.1.pos,
                self.cst() == old(self).cst(),
                self.ast() == old(self).ast(),
                with_children(father_node@, ast_expressions(t, self.st()).0) == with_children(f1, ast_expressions(t, r1.1).0),
                ast_expressions(t, self.st()).1 == ast_expressions(t, r1.1).1,
            decreases t.len() - self.st().pos,
        {
            let ghost before = father_node@;
            self.consume();
            let ghost s1 = self.st();
            self._ast_expression(father_node);
            proof {
                lemma_with_children_twice(before, ast_expression(t, s1).0, ast_expressions(t, self.st()).0);
            }
        }
        proof {
            lemma_with_no_children(father_node@);
            lemma_with_children_twice(f0, r1.0, ast_expressions(t, r1.1).0);
        }
    }

    // <expression> ::= <primary> { <add_op> <expression> }
    // An operator becomes a node over the primary before it and the whole
    // rest of the expression; without an operator no node is left.
    fn _ast_expression(&mut self, father_node: &mut Node)
        requires
            old(self).inv(),
        ensures
            old(self).did(final(self), old(father_node)@, final(father_node)@, ast_expression(old(self).toks(), old(self).st())),
        decreases (old(self).toks().len() - old(self).st().pos) as nat, 4nat,
    {
        let ghost t = self.toks();
        let ghost s = self.st();
        let mut add_op_node = self.node("TMP", "TMP");
        let ghost n0 = add_op_node@;
        self._ast_primary(&mut add_op_node);
        let ghost r1 = ast_primary(t, fresh(s));
        if self.next_is("PLUSOP") || self.next_is("MINUSOP") {
            let kind = self.tokens.next_kind();
            let value = self.tokens.next_text();
            add_op_node.set_name(kind);
            add_op_node.set_value(value);
            self.consume();
            let ghost s2 = self.st();
            let ghost n1 = add_op_node@;
            self._ast_expression(&mut add_op_node);
            proof {
                lemma_with_children_twice(n0, r1.0, ast_expression(t, s2).0);
                assert(add_op_node@ =~~= TreeV { name: t[r1.1.pos as int].0, value: t[r1.1.pos as int].1, id: s.id, children: r1.0 + ast_expression(t, s2).0 });
                lemma_with_one_child(old(father_node)@, add_op_node@);
            }
            father_node.add_child(add_op_node);
        } else {
            let children = add_op_node.take_children();
            proof {
                assert(n0.children.len() == 0);
                assert(views(children@) =~= r1.0);
            }
            father_node.add_children(children);
        }
    }

    // <primary> ::= INTLITERAL | ID | LPAREN <expression> RPAREN
    fn _ast_primary(&mut self, father_node: &mut Node)
        requires
            old(self).inv(),
        ensures
            old(self).did(final(self), old(father_node)@, final(father_node)@, ast_primary(old(self).toks(), old(self).st())),
        decreases (old(self).toks().len() - old(self).st().pos) as nat, 3nat,
    {
        if self.next_is("INTLITERAL") {
            self._ast_primary_intliteral(father_node);
        } else if self.next_is("ID") {
            self._ast_primary_id(father_node);
        } else if self.next_is("LPAREN") {
            self._ast_primary_paren(father_node);
        } else {
            proof { lemma_with_no_children(father_node@); }
        }
    }

    // <primary> ::= INTLITERAL
    fn _ast_primary_intliteral(&mut self, father_node: &mut Node)
        requires
            old(self).inv(),
        ensures
            old(self).did(final(self), old(father_node)@, final(father_node)@, terminal(old(self).toks(), old(self).st(), "INTLITERAL"@)),
    {
        self.terminal(father_node, "INTLITERAL");
    }

    // <primary> ::= ID
    fn _ast_primary_id(&mut self, father_node: &mut Node)
        requires
            old(self).inv(),
        ensures
            old(self).did(final(self), old(father_node)@, final(father_node)@, terminal(old(self).toks(), old(self).st(), "ID"@)),
    {
        self.terminal(father_node, "ID");
    }

    // <primary> ::= LPAREN <expression> RPAREN
    fn _ast_primary_paren(&mut self, father_node: &mut Node)
        requires
            old(self).inv(),
            at(old(self).toks(), old(self).st().pos, "LPAREN"@),
        ensures
            old(self).did(final(self), old(father_node)@, final(father_node)@, ast_primary_paren(old(self).toks(), old(self).st())),
        decreases (old(self).toks().len() - old(self).st().pos) as nat, 2nat,
    {
        self.consume();
        self._ast_expression(father_node);
        self.skip("RPAREN");
    }

    /*
    The concrete syntax tree.
    */

    /// Builds the concrete syntax tree of the tokens, from the first one on.
    pub fn generate_concrete_syntax_tree(&mut self)
        requires
            old(self).inv(),
        ensures
            final(self).inv(),
            final(self).toks() == old(self).toks(),
            final(self).cst() == cst_of(old(self).toks()),
            final(self).ast() == old(self).ast(),
    {
        self.tokens.reset();
        reset_global_counter(&mut self.ids);
        let mut root_node = self.node("ConcreteSyntaxTree", "ConcreteSyntaxTree");
        self._start(&mut root_node);
        self.concrete_syntax_tree = root_node;
    }

    // <start> ::= <program> SCANEOF
    fn _start(&mut self, father_node: &mut Node)
        requires
            old(self).inv(),
        ensures
            old(self).did(final(self), old(father_node)@, final(father_node)@, cst_start(old(self).toks(), old(self).st())),
        decreases (old(self).toks().len() - old(self).st().pos) as nat, 12nat,
    {
        let ghost t = self.toks();
        let ghost s = self.st();
        let mut start_node = self.node("<start>", "START");
        let ghost n0 = start_node@;
        self._program(&mut start_node);
        let ghost r1 = cst_program(t, fresh(s));
        self.punct(&mut start_node, "SCANEOF", "SCANEOF");
        proof {
            lemma_with_children_twice(n0, r1.0, punct(t, r1.1, "SCANEOF"@, "SCANEOF"@).0);
            lemma_with_one_child(old(father_node)@, start_node@);
        }
        father_node.add_child(start_node);
    }

    // <program> ::= BEGIN <statement_list> END
    fn _program(&mut self, father_node: &mut Node)
        requires
            old(self).inv(),
        ensures
            old(self).did(final(self), old(father_node)@, final(father_node)@, cst_program(old(self).toks(), old(self).st())),
        decreases (old(self).toks().len() - old(self).st().pos) as nat, 11nat,
    {
        let ghost t = self.toks();
        let ghost s = self.st();
        let mut program_node = self.node("<program>", "PROGRAM");
        let ghost n0 = program_node@;
        self.punct(&mut program_node, "BEGIN", "BEGIN");
        let ghost r1 = punct(t, fresh(s), "BEGIN"@, "BEGIN"@);
        self._statement_list(&mut program_node);
        let ghost r2 = cst_statement_list(t, r1.1);
        self.punct(&mut program_node, "END", "END");
        proof {
            lemma_with_children_twice(n0, r1.0, r2.0);
            lemma_with_children_twice(n0, r1.0 + r2.0, punct(t, r2.1, "END"@, "END"@).0);
            lemma_with_one_child(old(father_node)@, program_node@);
        }
        father_node.add_child(program_node);
    }

    // <statement_list> ::= <statement> { <statement> }
    fn _statement_list(&mut self, father_node: &mut Node)
        requires
            old(self).inv(),
        ensures
            old(self).did(final(self), old(father_node)@, final(father_node)@, cst_statement_list(old(self).toks(), old(self).st())),
        decreases (old(self).toks().len() - old(self).st().pos) as nat, 10nat,
    {
        let ghost t = self.toks();
        let ghost s = self.st();
        let mut statement_list_node = self.node("<statement list>", "STATEMENT_LIST");
        let ghost n0 = statement_list_node@;
        self._statement(&mut statement_list_node);
        let ghost r1 = cst_statement(t, fresh(s));
        let ghost n1 = statement_list_node@;
        while self.next_is("ID") || self.next_is("READ") || self.next_is("WRITE")
            invariant
                self.inv(),
                self.toks() == t,
                t == old(self).toks(),
                s == old(self).st(),
                r1.1.pos <= self.st().pos,
                self.cst() == old(self).cst(),
                self.ast() == old(self).ast(),
                with_children(statement_list_node@, cst_statements(t, self.st()).0) == with_children(n1, cst_statements(t, r1.1).0),
                cst_statements(t, self.st()).1 == cst_statements(t, r1.1).1,
            decreases t.len() - self.st().pos,
        {
            let ghost cur = self.st();
            let ghost before = statement_list_node@;
            self._statement(&mut statement_list_node);
            proof {
                lemma_with_children_twice(before, cst_statement(t, cur).0, cst_statements(t, self.st()).0);
            }
        }
        proof {
            lemma_with_no_children(statement_list_node@);
            lemma_with_children_twice(n0, r1.0, cst_statements(t, r1.1).0);
            lemma_with_one_child(old(father_node)@, statement_list_node@);
        }
        father_node.add_child(statement_list_node);
    }

    // <statement> ::= ID ASSIGNOP <expression> SEMICOLON
    //              | READ LPAREN <id_list> RPAREN SEMICOLON
    //              | WRITE LPAREN <expression_list> RPAREN SEMICOLON
    fn _statement(&mut self, father_node: &mut Node)
        requires
            old(self).inv(),
        ensures
            old(self).did(final(self), old(father_node)@, final(father_node)@, cst_statement(old(self).toks(), old(self).st())),
            starts_statement(old(self).toks(), old(self).st().pos) ==> old(self).st().pos < final(self).st().pos,
        decreases (old(self).toks().len() - old(self).st().pos) as nat, 8nat,
    {
        let ghost t = self.toks();
        let ghost s = self.st();
        let mut statement_node = self.node("<statement>", "STATEMENT");
        if self.next_is("ID") {
            self._statement_id(&mut statement_node);
        } else if self.next_is("READ") {
            self._statment_read(&mut statement_node);
        } else if self.next_is("WRITE") {
            self._statment_write(&mut statement_node);
        } else {
            proof { lemma_with_no_children(statement_node@); }
        }
        proof { lemma_with_one_child(old(father_node)@, statement_node@); }
        father_node.add_child(statement_node);
    }

    // <statement> ::= ID ASSIGNOP <expression> SEMICOLON
    fn _statement_id(&mut self, father_node: &mut Node)
        requires
            old(self).inv(),
            at(old(self).toks(), old(self).st().pos, "ID"@),
        ensures
            old(self).did(final(self), old(father_node)@, final(father_node)@, cst_statement_id(old(self).toks(), old(self).st())),
            old(self).st().pos < final(self).st().pos,
        decreases (old(self).toks().len() - old(self).st().pos) as nat, 7nat,
    {
        let ghost t = self.toks();
        let ghost s = self.st();
        let ghost f0 = father_node@;
        let id_node = self.token_node();
        father_node.add_child(id_node);
        self.consume();
        let ghost f1 = father_node@;
        let ghost s1 = self.st();
        self.punct(father_node, "ASSIGNOP", ":=");
        let ghost r2 = punct(t, s1, "ASSIGNOP"@, ":="@);
        self._expression(father_node);
        let ghost r3 = cst_expression(t, r2.1);
        self.punct(father_node, "SEMICOLON", ";");
        let ghost r4 = punct(t, r3.1, "SEMICOLON"@, ";"@);
        proof {
            let i = seq![leaf("ID"@, text(t, s), s.id)];
            lemma_with_one_child(f0, id_node@);
            lemma_with_children_twice(f0, i, r2.0);
            lemma_with_children_twice(f0, i + r2.0, r3.0);
            lemma_with_children_twice(f0, i + r2.0 + r3.0, r4.0);
        }
    }

    // <statement> ::= READ LPAREN <id_list> RPAREN SEMICOLON
    fn _statment_read(&mut self, father_node: &mut Node)
        requires
            old(self).inv(),
            at(old(self).toks(), old(self).st().pos, "READ"@),
        ensures
            old(self).did(final(self), old(father_node)@, final(father_node)@, cst_statement_read(old(self).toks(), old(self).st())),
            old(self).st().pos < final(self).st().pos,
        decreases (old(self).toks().len() - old(self).st().pos) as nat, 7nat,
    {
        let ghost t = self.toks();
        let ghost s = self.st();
        let ghost f0 = father_node@;
        let read_node = self.node("READ", "READ");
        father_node.add_child(read_node);
        self.consume();
        let ghost s1 = self.st();
        self.punct(father_node, "LPAREN", "(");
        let ghost r2 = punct(t, s1, "LPAREN"@, "("@);
        self._id_list(father_node);
        let ghost r3 = cst_id_list(t, r2.1);
        self.punct(father_node, "RPAREN", ")");
        let ghost r4 = punct(t, r3.1, "RPAREN"@, ")"@);
        self.punct(father_node, "SEMICOLON", ";");
        let ghost r5 = punct(t, r4.1, "SEMICOLON"@, ";"@);
        proof {
            let r = seq![leaf("READ"@, "READ"@, s.id)];
            lemma_with_one_child(f0, read_node@);
            lemma_with_children_twice(f0, r, r2.0);
            lemma_with_children_twice(f0, r + r2.0, r3.0);
            lemma_with_children_twice(f0, r + r2.0 + r3.0, r4.0);
            lemma_with_children_twice(f0, r + r2.0 + r3.0 + r4.0, r5.0);
        }
    }

    // <statement> ::= WRITE LPAREN <expression_list> RPAREN SEMICOLON
    fn _statment_write(&mut self, father_node: &mut Node)
        requires
            old(self).inv(),
            at(old(self).toks(), old(self).st().pos, "WRITE"@),
        ensures
            old(self).did(final(self), old(father_node)@, final(father_node)@, cst_statement_write(old(self).toks(), old(self).st())),
            old(self).st().pos < final(self).st().pos,
        decreases (old(self).toks().len() - old(self).st().pos) as nat, 7nat,
    {
        let ghost t = self.toks();
        let ghost s = self.st();
        let ghost f0 = father_node@;
        let write_node = self.node("WRITE", "WRITE");
        father_node.add_child(write_node);
        self.consume();
        let ghost s1 = self.st();
        self.punct(father_node, "LPAREN", "(");
        let ghost r2 = punct(t, s1, "LPAREN"@, "("@);
        self._expression_list(father_node);
        let ghost r3 = cst_expression_list(t, r2.1);
        self.punct(father_node, "RPAREN", ")");
        let ghost r4 = punct(t, r3.1, "RPAREN"@, ")"@);
        self.punct(father_node, "SEMICOLON", ";");
        let ghost r5 = punct(t, r4.1, "SEMICOLON"@, ";"@);
        proof {
            let w = seq![leaf("WRITE"@, "WRITE"@, s.id)];
            lemma_with_one_child(f0, write_node@);
            lemma_with_children_twice(f0, w, r2.0);
            lemma_with_children_twice(f0, w + r2.0, r3.0);
            lemma_with_children_twice(f0, w + r2.0 + r3.0, r4.0);
            lemma_with_children_twice(f0, w + r2.0 + r3.0 + r4.0, r5.0);
        }
    }

    // <id_list> ::= ID { COMMA ID }
    fn _id_list(&mut self, father_node: &mut Node)
        requires
            old(self).inv(),
        ensures
            old(self).did(final(self), old(father_node)@, final(father_node)@, cst_id_list(old(self).toks(), old(self).st())),
        decreases (old(self).toks().len() - old(self).st().pos) as nat, 6nat,
    {
        let ghost t = self.toks();
        let ghost s = self.st();
        let mut id_list_node = self.node("<id list>", "ID_LIST");
        let ghost n0 = id_list_node@;
        self.terminal(&mut id_list_node, "ID");
        let ghost r1 = terminal(t, fresh(s), "ID"@);
        let ghost n1 = id_list_node@;
        while self.next_is("COMMA")
            invariant
                self.inv(),
                self.toks() == t,
                t == old(self).toks(),
                s == old(self).st(),
                r1.1.pos <= self.st().pos,
                self.cst() == old(self).cst(),
                self.ast() == old(self).ast(),
                with_children(id_list_node@, cst_ids(t, self.st()).0) == with_children(n1, cst_ids(t, r1.1).0),
                cst_ids(t, self.st()).1 == cst_ids(t, r1.1).1,
            decreases t.len() - self.st().pos,
        {
            let ghost cur = self.st();
            let ghost before = id_list_node@;
            let comma_node = self.token_node();
            id_list_node.add_child(comma_node);
            self.consume();
            let ghost s1 = self.st();
            self.terminal(&mut id_list_node, "ID");
            proof {
                let c = seq![leaf("COMMA"@, text(t, cur), cur.id)];
                let i = terminal(t, s1, "ID"@).0;
                lemma_with_one_child(before, comma_node@);
                lemma_with_children_twice(before, c, i);
                lemma_with_children_twice(before, c + i, cst_ids(t, self.st()).0);
            }
        }
        proof {
            lemma_with_no_children(id_list_node@);
            lemma_with_children_twice(n0, r1.0, cst_ids(t, r1.1).0);
            lemma_with_one_child(old(father_node)@, id_list_node@);
        }
        father_node.add_child(id_list_node);
    }

    // <expression_list> ::= <expression> { COMMA <expression> }
    fn _expression_list(&mut self, father_node: &mut Node)
        requires
            old(self).inv(),
        ensures
            old(self).did(final(self), old(father_node)@, final(father_node)@, cst_expression_list(old(self).toks(), old(self).st())),
        decreases (old(self).toks().len() - old(self).st().pos) as nat, 6nat,
    {
        let ghost t = self.toks();
        let ghost s = self.st();
        let mut expression_list_node = self.node("<expression list>", "EXPRESSION_LIST");
        let ghost n0 = expression_list_node@;
        self._expression(&mut expression_list_node);
        let ghost r1 = cst_expression(t, fresh(s));
        let ghost n1 = expression_list_node@;
        while self.next_is("COMMA")
            invariant
                self.inv(),
                self.toks() == t,
                t == old(self).toks(),
                s == old(self).st(),
                r1.1.pos <= self.st().pos,
                self.cst() == old(self).cst(),
                self.ast() == old(self).ast(),
                with_children(expression_list_node@, cst_expressions(t, self.st()).0) == with_children(n1, cst_expressions(t, r1.1).0),
                cst_expressions(t, self.st()).1 == cst_expressions(t, r1.1).1,
            decreases t.len() - self.st().pos,
        {
            let ghost cur = self.st();
            let ghost before = expression_list_node@;
            let comma_node = self.token_node();
            expression_list_node.add_child(comma_node);
            self.consume();
            let ghost s1 = self.st();
            self._expression(&mut expression_list_node);
            proof {
                let c = seq![leaf("COMMA"@, text(t, cur), cur.id)];
                let e = cst_expression(t, s1).0;
                lemma_with_one_child(before, comma_node@);
                lemma_with_children_twice(before, c, e);
                lemma_with_children_twice(before, c + e, cst_expressions(t, self.st()).0);
            }
        }
        proof {
            lemma_with_no_children(expression_list_node@);
            lemma_with_children_twice(n0, r1.0, cst_expressions(t, r1.1).0);
            lemma_with_one_child(old(father_node)@, expression_list_node@);
        }
        father_node.add_child(expression_list_node);
    }

    // <expression> ::= <primary> { <add_op> <primary> }
    fn _expression(&mut self, father_node: &mut Node)
        requires
            old(self).inv(),
        ensures
            old(self).did(final(self), old(father_node)@, final(father_node)@, cst_expression(old(self).toks(), old(self).st())),
        decreases (old(self).toks().len() - old(self).st().pos) as nat, 4nat,
    {
        let ghost t = self.toks();
        let ghost s = self.st();
        let mut expression_node = self.node("<expression>", "EXPRESSION");
        let ghost n0 = expression_node@;
        self._primary(&mut expression_node);
        let ghost r1 = cst_primary(t, fresh(s));
        let ghost n1 = expression_node@;
        while self.next_is("PLUSOP") || self.next_is("MINUSOP")
            invariant
                self.inv(),
                self.toks() == t,
                t == old(self).toks(),
                s == old(self).st(),
                r1.1.pos <= self.st().pos,
                s.pos <= r1.1.pos,
                self.cst() == old(self).cst(),
                self.ast() == old(self).ast(),
                with_children(expression_node@, cst_operations(t, self.st()).0) == with_children(n1, cst_operations(t, r1.1).0),
                cst_operations(t, self.st()).1 == cst_operations(t, r1.1).1,
            decreases t.len() - self.st().pos,
        {
            let ghost cur = self.st();
            let ghost before = expression_node@;
            self._add_op(&mut expression_node);
            let ghost s1 = self.st();
            self._primary(&mut expression_node);
            proof {
                let a = cst_add_op(t, cur).0;
                let p = cst_primary(t, s1).0;
                lemma_with_children_twice(before, a, p);
                lemma_with_children_twice(before, a + p, cst_operations(t, self.st()).0);
            }
        }
        proof {
            lemma_with_no_children(expression_node@);
            lemma_with_children_twice(n0, r1.0, cst_operations(t, r1.1).0);
            lemma_with_one_child(old(father_node)@, expression_node@);
        }
        father_node.add_child(expression_node);
    }

    // <primary> ::= INTLITERAL | ID | LPAREN <expression> RPAREN
    fn _primary(&mut self, father_node: &mut Node)
        requires
            old(self).inv(),
        ensures
            old(self).did(final(self), old(father_node)@, final(father_node)@, cst_primary(old(self).toks(), old(self).st())),
        decreases (old(self).toks().len() - old(self).st().pos) as nat, 2nat,
    {
        let mut primary_node = self.node("<primary>", "PRIMARY");
        if self.next_is("INTLITERAL") {
            self._primary_intliteral(&mut primary_node);
        } else if self.next_is("ID") {
            self._primary_id(&mut primary_node);
        } else if self.next_is("LPAREN") {
            self._primary_paren(&mut primary_node);
        } else {
            proof { lemma_with_no_children(primary_node@); }
        }
        proof { lemma_with_one_child(old(father_node)@, primary_node@); }
        father_node.add_child(primary_node);
    }

    // <primary> ::= INTLITERAL
    fn _primary_intliteral(&mut self, father_node: &mut Node)
        requires
            old(self).inv(),
        ensures
            old(self).did(final(self), old(father_node)@, final(father_node)@, terminal(old(self).toks(), old(self).st(), "INTLITERAL"@)),
    {
        self.terminal(father_node, "INTLITERAL");
    }

    // <primary> ::= ID
    fn _primary_id(&mut self, father_node: &mut Node)
        requires
            old(self).inv(),
        ensures
            old(self).did(final(self), old(father_node)@, final(father_node)@, terminal(old(self).toks(), old(self).st(), "ID"@)),
    {
        self.terminal(father_node, "ID");
    }

    // <primary> ::= LPAREN <expression> RPAREN
    fn _primary_paren(&mut self, father_node: &mut Node)
        requires
            old(self).inv(),
            at(old(self).toks(), old(self).st().pos, "LPAREN"@),
        ensures
            old(self).did(final(self), old(father_node)@, final(father_node)@, cst_primary_paren(old(self).toks(), old(self).st())),
        decreases (old(self).toks().len() - old(self).st().pos) as nat, 1nat,
    {
        let ghost t = self.toks();
        let ghost s = self.st();
        let ghost f0 = father_node@;
        self.terminal(father_node, "LPAREN");
        let ghost r1 = terminal(t, s, "LPAREN"@);
        self._expression(father_node);
        let ghost r2 = cst_expression(t, r1.1);
        self.terminal(father_node, "RPAREN");
        proof {
            lemma_with_children_twice(f0, r1.0, r2.0);
            lemma_with_children_twice(f0, r1.0 + r2.0, terminal(t, r2.1, "RPAREN"@).0);
        }
    }

    // <add_op> ::= PLUSOP | MINUSOP
    fn _add_op(&mut self, father_node: &mut Node)
        requires
            old(self).inv(),
        ensures
            old(self).did(final(self), old(father_node)@, final(father_node)@, cst_add_op(old(self).toks(), old(self).st())),
            is_add_op(old(self).toks(), old(self).st().pos) ==> final(self).st().pos == old(self).st().pos + 1,
    {
        let mut add_op_node = self.node("<addop>", "ADDOP");
        if self.next_is("PLUSOP") || self.next_is("MINUSOP") {
            let op_node = self.token_node();
            add_op_node.add_child(op_node);
            self.consume();
        }
        proof { lemma_with_one_child(old(father_node)@, add_op_node@); }
        father_node.add_child(add_op_node);
    }
}

} // verus!
