use vstd::prelude::*;
use vstd::string::*;
use crate::node4m::{bump, dec, push_dec, views, Node, TreeV};
use crate::token4m::str_eq;

verus! {

/// Steps the register counter by one and returns its new value.
pub fn increment_global_counter(counter: &mut u64) -> (r: u64)
    ensures
        *final(counter) == bump(*old(counter) as nat),
        r == *final(counter),
{
    if *counter < u64::MAX {
        *counter = *counter + 1;
    }
    *counter
}

pub fn get_global_counter(counter: &u64) -> (r: u64)
    ensures
        r == *counter,
{
    *counter
}

pub fn reset_global_counter(counter: &mut u64)
    ensures
        *final(counter) == 0,
{
    *counter = 0;
}

/// What a register is bound to: an operator node, by its identifier, or a
/// name or literal, by its text.
pub enum SsaKey {
    ByIdentity(u64),
    ByName(String),
}

pub enum KeyV {
    ByIdentity(nat),
    ByName(Seq<char>),
}

impl View for SsaKey {
    type V = KeyV;

    open spec fn view(&self) -> KeyV {
        match self {
            SsaKey::ByIdentity(i) => KeyV::ByIdentity(*i as nat),
            SsaKey::ByName(s) => KeyV::ByName(s@),
        }
    }
}

/// The state of code generation: the bindings made so far, in order, and
/// the next register number.
pub struct GenV {
    pub table: Seq<(KeyV, nat)>,
    pub next: nat,
}

/// The register that `k` was bound to last, if any.
pub open spec fn lookup(table: Seq<(KeyV, nat)>, k: KeyV) -> Option<nat>
    decreases table.len(),
{
    if table.len() == 0 {
        None
    } else if table.last().0 == k {
        Some(table.last().1)
    } else {
        lookup(table.drop_last(), k)
    }
}

pub open spec fn is_operator(t: TreeV) -> bool {
    t.name == "PLUSOP"@ || t.name == "MINUSOP"@
}

/// The key of a node: its identifier for an operator, its text otherwise.
pub open spec fn key_of(t: TreeV) -> KeyV {
    if is_operator(t) {
        KeyV::ByIdentity(t.id)
    } else {
        KeyV::ByName(t.value)
    }
}

/// The register of a node: whether it is a first definition, its number,
/// and the state after. An unbound key, or any key when `force_new` holds,
/// gets the next register; a bound one otherwise keeps its register.
pub open spec fn ssa(g: GenV, t: TreeV, force_new: bool) -> (bool, nat, GenV) {
    let k = key_of(t);
    match lookup(g.table, k) {
        Some(r) => if force_new {
            (false, g.next, GenV { table: g.table.push((k, g.next)), next: bump(g.next) })
        } else {
            (false, r, g)
        },
        None => (true, g.next, GenV { table: g.table.push((k, g.next)), next: bump(g.next) }),
    }
}

pub open spec fn spaces(n: nat) -> Seq<char>
    decreases n,
{
    if n == 0 {
        Seq::empty()
    } else {
        spaces((n - 1) as nat) + " "@
    }
}

pub open spec fn reg(r: nat) -> Seq<char> {
    "%"@ + dec(r)
}

pub open spec fn const_line(sp: Seq<char>, r: nat, v: Seq<char>) -> Seq<char> {
    sp + reg(r) + " = arith.constant "@ + v + " : i32\n"@
}

pub open spec fn declare_line(sp: Seq<char>, r: nat, name: Seq<char>) -> Seq<char> {
    sp + reg(r) + " = arith.constant 0 : i32 // Declare "@ + name + "\n"@
}

pub open spec fn read_line(sp: Seq<char>, r: nat) -> Seq<char> {
    sp + reg(r) + " = call @read() : () -> i32\n"@
}

pub open spec fn print_line(sp: Seq<char>, r: nat) -> Seq<char> {
    sp + "call @print("@ + reg(r) + ") : (i32) -> ()\n"@
}

pub open spec fn binop_line(sp: Seq<char>, op: Seq<char>, r: nat, a: nat, b: nat) -> Seq<char> {
    sp + reg(r) + " = arith."@ + op + " "@ + reg(a) + ", "@ + reg(b) + " : i32\n"@
}

/// The lines that lower a subtree, and the state after them.
pub open spec fn emit(t: TreeV, sp: Seq<char>, g: GenV) -> (Seq<char>, GenV)
    decreases t, 1nat, 0nat,
{
    if t.name == "READ"@ {
        let (text, g1) = emit_read(t, t.children.len() as nat, sp, g);
        (text + "\n"@, g1)
    } else if t.name == "WRITE"@ {
        emit_write(t, t.children.len() as nat, sp, g)
    } else if t.name == "INTLITERAL"@ {
        let (_, r, g1) = ssa(g, t, true);
        (const_line(sp, r, t.value), g1)
    } else if is_operator(t) && t.children.len() >= 2 {
        let (a, g1) = emit(t.children[0], sp, g);
        let (b, g2) = emit(t.children[1], sp, g1);
        let (_, r, g3) = ssa(g2, t, true);
        let (_, ra, g4) = ssa(g3, t.children[0], false);
        let (_, rb, g5) = ssa(g4, t.children[1], false);
        let op = if t.name == "PLUSOP"@ { "addi"@ } else { "subi"@ };
        (a + b + binop_line(sp, op, r, ra, rb), g5)
    } else if t.name == "ASSIGNOP"@ && t.children.len() >= 2 {
        let target = t.children[0];
        let (e, g0) = emit(t.children[1], sp, g);
        let (_, re, g1) = ssa(g0, t.children[1], false);
        let (_, r1, g2) = ssa(g1, target, true);
        let (_, prev, g3) = ssa(g2, target, false);
        let (_, r2, g4) = ssa(g3, target, true);
        (e + declare_line(sp, r1, target.value) + binop_line(sp, "addi"@, r2, prev, re) + "\n"@, g4)
    } else {
        emit_children(t, t.children.len() as nat, sp, g)
    }
}

/// The lines of the first `k` children of `t`, each lowered in turn.
pub open spec fn emit_children(t: TreeV, k: nat, sp: Seq<char>, g: GenV) -> (Seq<char>, GenV)
    decreases t, 0nat, k,
{
    if k == 0 || k > t.children.len() {
        (Seq::empty(), g)
    } else {
        let (a, g1) = emit_children(t, (k - 1) as nat, sp, g);
        let (b, g2) = emit(t.children[k - 1], sp, g1);
        (a + b, g2)
    }
}

/// The lines that read the first `k` names under a `READ` node: a declaration
/// for a name without a register, then a read into a new register.
pub open spec fn emit_read(t: TreeV, k: nat, sp: Seq<char>, g: GenV) -> (Seq<char>, GenV)
    decreases k,
{
    if k == 0 || k > t.children.len() {
        (Seq::empty(), g)
    } else {
        let c = t.children[k - 1];
        let (a, g1) = emit_read(t, (k - 1) as nat, sp, g);
        let (first, r, g2) = ssa(g1, c, false);
        let d = if first { declare_line(sp, r, c.value) } else { Seq::empty() };
        let (_, r2, g3) = ssa(g2, c, true);
        (a + d + read_line(sp, r2), g3)
    }
}

/// The lines that print the first `k` expressions under a `WRITE` node.
pub open spec fn emit_write(t: TreeV, k: nat, sp: Seq<char>, g: GenV) -> (Seq<char>, GenV)
    decreases t, 0nat, k,
{
    if k == 0 || k > t.children.len() {
        (Seq::empty(), g)
    } else {
        let c = t.children[k - 1];
        let (a, g1) = emit_write(t, (k - 1) as nat, sp, g);
        if c.name == "INTLITERAL"@ {
            let (_, r, g2) = ssa(g1, c, true);
            let (_, r2, g3) = ssa(g2, c, false);
            (a + const_line(sp, r, c.value) + print_line(sp, r2), g3)
        } else if c.name == "ID"@ {
            let (_, r, g2) = ssa(g1, c, false);
            (a + print_line(sp, r), g2)
        } else {
            let (b, g2) = emit(c, sp, g1);
            let (_, r, g3) = ssa(g2, c, false);
            (a + b + print_line(sp, r), g3)
        }
    }
}

pub open spec fn preamble() -> Seq<char> {
    "module {\n"@ + "  func.func private @read() -> i32\n"@ + "  func.func private @print(i32)\n\n"@ + "  func.func @main() {\n"@
}

pub open spec fn epilogue() -> Seq<char> {
    "    return\n"@ + "  }\n"@ + "}\n"@
}

/// The state of a generator that has made no binding yet.
pub open spec fn fresh_gen() -> GenV {
    GenV { table: Seq::empty(), next: 0 }
}

/// The whole module text for a tree, lowered from the state `g`.
pub open spec fn mlir_from(t: TreeV, g: GenV) -> Seq<char> {
    preamble() + emit(t, spaces(4), g).0 + epilogue()
}

/// The module text that a new generator gives for a tree.
pub open spec fn mlir_of(t: TreeV) -> Seq<char> {
    mlir_from(t, fresh_gen())
}


/// The module text for a tree, lowered by a new generator.
pub fn lower_to_mlir(ast: &Node) -> (r: String)
    ensures
        r@ == mlir_of(ast@),
{
    let mut generator = Mlir4m::new(ast);
    generator.generate_mlir()
}

/// Two runs of a new generator on equal trees give the same text: the text
/// depends on the tree alone.
pub proof fn lemma_generation_deterministic(a: TreeV, b: TreeV)
    requires
        a == b,
    ensures
        mlir_of(a) == mlir_of(b),
{
}

/// Reading one name twice in a `READ`, when the name has no register yet,
/// gives one declaration and then two reads into two different registers.
pub proof fn lemma_read_declares_once(t: TreeV, sp: Seq<char>, g: GenV)
    requires
        t.name == "READ"@,
        t.children.len() == 2,
        t.children[0].value == t.children[1].value,
        !is_operator(t.children[0]),
        !is_operator(t.children[1]),
        lookup(g.table, KeyV::ByName(t.children[0].value)) is None,
        g.next + 2 < u64::MAX,
    ensures
        emit(t, sp, g).0 == declare_line(sp, g.next, t.children[0].value) + read_line(sp, g.next + 1)
            + read_line(sp, g.next + 2) + "\n"@,
        g.next + 1 != g.next + 2,
{
    let v = t.children[0].value;
    let k = KeyV::ByName(v);
    let (a0, g0) = emit_read(t, 0, sp, g);
    let g1 = GenV { table: g.table.push((k, g.next)), next: g.next + 1 };
    let g2 = GenV { table: g1.table.push((k, g.next + 1)), next: g.next + 2 };
    assert(ssa(g, t.children[0], false) == (true, g.next, g1));
    assert(g1.table.drop_last() == g.table);
    assert(lookup(g1.table, k) == Some(g.next));
    assert(ssa(g1, t.children[0], true) == (false, g.next + 1, g2));
    assert(emit_read(t, 1, sp, g) == (declare_line(sp, g.next, v) + read_line(sp, g.next + 1), g2));
    assert(lookup(g2.table, k) == Some(g.next + 1));
    let g3 = GenV { table: g2.table.push((k, g.next + 2)), next: g.next + 3 };
    assert(ssa(g2, t.children[1], false) == (false, g.next + 1, g2));
    assert(ssa(g2, t.children[1], true) == (false, g.next + 2, g3));
    assert(emit_read(t, 2, sp, g).0 == declare_line(sp, g.next, v) + read_line(sp, g.next + 1) + Seq::<char>::empty()
        + read_line(sp, g.next + 2));
    assert(emit_read(t, 2, sp, g).0 =~= declare_line(sp, g.next, v) + read_line(sp, g.next + 1) + read_line(sp, g.next + 2));
}

/// Whether `v` is the text of one of the first `k` children of `t`.
pub open spec fn among_first(t: TreeV, k: nat, v: Seq<char>) -> bool {
    exists|i: int| 0 <= i < k && #[trigger] t.children[i].value == v
}

/// The names among the first `k` children of `t` that have no register in
/// `table`.
pub open spec fn new_names(t: TreeV, k: nat, table: Seq<(KeyV, nat)>) -> Set<Seq<char>>
    decreases k,
{
    if k == 0 || k > t.children.len() {
        Set::empty()
    } else {
        let v = t.children[k - 1].value;
        let prev = new_names(t, (k - 1) as nat, table);
        if lookup(table, KeyV::ByName(v)) is None {
            prev.insert(v)
        } else {
            prev
        }
    }
}

/// Reading the first `k` names under a `READ` node takes one register for
/// each read and one for each declaration, and a name is declared once only:
/// the first time it is read without having a register. After it every name
/// read has a register.
pub proof fn lemma_read_registers(t: TreeV, k: nat, sp: Seq<char>, g: GenV)
    requires
        k <= t.children.len(),
        forall|i: int| 0 <= i < t.children.len() ==> !is_operator(#[trigger] t.children[i]),
        g.next + 2 * k < u64::MAX,
    ensures
        new_names(t, k, g.table).finite(),
        emit_read(t, k, sp, g).1.next == g.next + k + new_names(t, k, g.table).len(),
        forall|v: Seq<char>| #[trigger] new_names(t, k, g.table).contains(v) <==> (lookup(g.table, KeyV::ByName(v)) is None
            && among_first(t, k, v)),
        forall|v: Seq<char>| (#[trigger] lookup(emit_read(t, k, sp, g).1.table, KeyV::ByName(v)) is None) <==> (lookup(
            g.table,
            KeyV::ByName(v),
        ) is None && !among_first(t, k, v)),
    decreases k,
{
    if k == 0 {
        assert forall|v: Seq<char>| !among_first(t, 0, v) by {}
    } else {
        let k1 = (k - 1) as nat;
        lemma_read_registers(t, k1, sp, g);
        let c = t.children[k - 1];
        let v = c.value;
        let kv = KeyV::ByName(v);
        let g1 = emit_read(t, k1, sp, g).1;
        let prev = new_names(t, k1, g.table);
        assert(!is_operator(c));
        assert(g1.next <= g.next + 2 * k1) by {
            lemma_set_len_bound(t, k1, g.table);
        }
        let g2 = ssa(g1, c, false).2;
        let g3 = ssa(g2, c, true).2;
        assert(emit_read(t, k, sp, g).1 == g3);
        assert forall|w: Seq<char>| among_first(t, k, w) <==> (among_first(t, k1, w) || w == v) by {
            if among_first(t, k, w) {
                let i = choose|i: int| 0 <= i < k && #[trigger] t.children[i].value == w;
                if i < k1 {
                    assert(among_first(t, k1, w));
                }
            }
            if among_first(t, k1, w) {
                let i = choose|i: int| 0 <= i < k1 && #[trigger] t.children[i].value == w;
                assert(0 <= i < k && t.children[i].value == w);
            }
            if w == v {
                assert(t.children[k - 1].value == w);
            }
        }
        assert forall|w: Seq<char>| (#[trigger] lookup(g3.table, KeyV::ByName(w)) is None) <==> (lookup(
            g.table,
            KeyV::ByName(w),
        ) is None && !among_first(t, k, w)) by {
            let kw = KeyV::ByName(w);
            assert(g3.table.last().0 == kv);
            assert(g3.table.drop_last() == g2.table);
            if lookup(g1.table, kv) is None {
                assert(g2.table.drop_last() == g1.table);
                assert(g2.table.last().0 == kv);
            }
            if w == v {
                assert(lookup(g3.table, kw) is Some);
                assert(among_first(t, k, w));
            } else {
                assert(kw != kv);
                assert(lookup(g3.table, kw) == lookup(g2.table, kw));
                assert(lookup(g2.table, kw) == lookup(g1.table, kw));
                assert(among_first(t, k, w) == among_first(t, k1, w));
            }
        }
        if lookup(g1.table, kv) is None {
            assert(!prev.contains(v));
        }
    }
}

proof fn lemma_set_len_bound(t: TreeV, k: nat, table: Seq<(KeyV, nat)>)
    ensures
        new_names(t, k, table).finite(),
        new_names(t, k, table).len() <= k,
    decreases k,
{
    if k > 0 && k <= t.children.len() {
        lemma_set_len_bound(t, (k - 1) as nat, table);
    }
}

fn make_spaces(n: usize) -> (r: String)
    ensures
        r@ == spaces(n as nat),
{
    let mut r = String::new();
    let mut i: usize = 0;
    while i < n
        invariant
            i <= n,
            r@ == spaces(i as nat),
        decreases n - i,
    {
        r.append(" ");
        i = i + 1;
    }
    r
}

fn push_reg(mlir: &mut String, r: u64)
    ensures
        final(mlir)@ == old(mlir)@ + reg(r as nat),
{
    mlir.append("%");
    push_dec(mlir, r);
    assert(final(mlir)@ =~= old(mlir)@ + reg(r as nat));
}

fn push_const_line(mlir: &mut String, sp: &str, r: u64, v: &str)
    ensures
        final(mlir)@ == old(mlir)@ + const_line(sp@, r as nat, v@),
{
    mlir.append(sp);
    push_reg(mlir, r);
    mlir.append(" = arith.constant ");
    mlir.append(v);
    mlir.append(" : i32\n");
    assert(final(mlir)@ =~= old(mlir)@ + const_line(sp@, r as nat, v@));
}

fn push_declare_line(mlir: &mut String, sp: &str, r: u64, name: &str)
    ensures
        final(mlir)@ == old(mlir)@ + declare_line(sp@, r as nat, name@),
{
    mlir.append(sp);
    push_reg(mlir, r);
    mlir.append(" = arith.constant 0 : i32 // Declare ");
    mlir.append(name);
    mlir.append("\n");
    assert(final(mlir)@ =~= old(mlir)@ + declare_line(sp@, r as nat, name@));
}

fn push_read_line(mlir: &mut String, sp: &str, r: u64)
    ensures
        final(mlir)@ == old(mlir)@ + read_line(sp@, r as nat),
{
    mlir.append(sp);
    push_reg(mlir, r);
    mlir.append(" = call @read() : () -> i32\n");
    assert(final(mlir)@ =~= old(mlir)@ + read_line(sp@, r as nat));
}

fn push_print_line(mlir: &mut String, sp: &str, r: u64)
    ensures
        final(mlir)@ == old(mlir)@ + print_line(sp@, r as nat),
{
    mlir.append(sp);
    mlir.append("call @print(");
    push_reg(mlir, r);
    mlir.append(") : (i32) -> ()\n");
    assert(final(mlir)@ =~= old(mlir)@ + print_line(sp@, r as nat));
}

fn push_binop_line(mlir: &mut String, sp: &str, op: &str, r: u64, a: u64, b: u64)
    ensures
        final(mlir)@ == old(mlir)@ + binop_line(sp@, op@, r as nat, a as nat, b as nat),
{
    mlir.append(sp);
    push_reg(mlir, r);
    mlir.append(" = arith.");
    mlir.append(op);
    mlir.append(" ");
    push_reg(mlir, a);
    mlir.append(", ");
    push_reg(mlir, b);
    mlir.append(" : i32\n");
    assert(final(mlir)@ =~= old(mlir)@ + binop_line(sp@, op@, r as nat, a as nat, b as nat));
}

fn key_eq(a: &SsaKey, b: &SsaKey) -> (r: bool)
    ensures
        r == (a@ == b@),
{
    match (a, b) {
        (SsaKey::ByIdentity(x), SsaKey::ByIdentity(y)) => *x == *y,
        (SsaKey::ByName(x), SsaKey::ByName(y)) => str_eq(x.as_str(), y.as_str()),
        _ => false,
    }
}

/// Lowers a syntax tree to the text of an SSA-style module.
pub struct Mlir4m<'a> {
    ast: &'a Node,
    id_map: Vec<(SsaKey, u64)>,
    counter: u64,
}

impl<'a> Mlir4m<'a> {
    /// The tree that the generator lowers.
    pub closed spec fn tree(&self) -> TreeV {
        self.ast@
    }

    pub closed spec fn gen(&self) -> GenV {
        GenV {
            table: self.id_map@.map_values(|p: (SsaKey, u64)| (p.0@, p.1 as nat)),
            next: self.counter as nat,
        }
    }

    /// A generator for `ast`, without any binding, whose registers start at 0.
    pub fn new(ast: &'a Node) -> (r: Self)
        ensures
            r.tree() == ast@,
            r.gen() == fresh_gen(),
    {
        let mut counter: u64 = 1;
        reset_global_counter(&mut counter);
        let r = Self { ast, id_map: Vec::new(), counter };
        assert(r.gen().table =~= Seq::empty());
        r
    }

    /// The whole module text for the tree, lowered from the generator's
    /// current state.
    pub fn generate_mlir(&mut self) -> (r: String)
        ensures
            r@ == mlir_from(old(self).tree(), old(self).gen()),
            final(self).tree() == old(self).tree(),
            final(self).gen() == emit(old(self).tree(), spaces(4), old(self).gen()).1,
    {
        let mut mlir = String::new();
        mlir.append("module {\n");
        mlir.append("  func.func private @read() -> i32\n");
        mlir.append("  func.func private @print(i32)\n\n");
        mlir.append("  func.func @main() {\n");
        let ast = self.ast;
        self.traverse_ast(ast, 4, &mut mlir);
        mlir.append("    return\n");
        mlir.append("  }\n");
        mlir.append("}\n");
        assert(mlir@ =~= mlir_from(old(self).tree(), old(self).gen()));
        mlir
    }

    fn lookup_key(&self, k: &SsaKey) -> (r: Option<u64>)
        ensures
            match lookup(self.gen().table, k@) {
                Some(x) => r == Some(x as u64) && x <= u64::MAX,
                None => r is None,
            },
    {
        let ghost table = self.gen().table;
        let mut i = self.id_map.len();
        assert(table.take(i as int) =~= table);
        while i > 0
            invariant
                i <= self.id_map@.len(),
                table == self.gen().table,
                lookup(table, k@) == lookup(table.take(i as int), k@),
            decreases i,
        {
            assert(table.take(i as int).drop_last() =~= table.take(i - 1));
            if key_eq(&self.id_map[i - 1].0, k) {
                return Some(self.id_map[i - 1].1);
            }
            i = i - 1;
        }
        assert(table.take(0) =~= Seq::<(KeyV, nat)>::empty());
        None
    }

    /// The register of a node, by the rule of `ssa`.
    fn get_ssa(&mut self, node: &Node, increment: bool) -> (r: (bool, u64))
        ensures
            ssa(old(self).gen(), node@, increment) == (r.0, r.1 as nat, final(self).gen()),
            final(self).tree() == old(self).tree(),
    {
        let value = if str_eq(node.name().as_str(), "PLUSOP") || str_eq(node.name().as_str(), "MINUSOP") {
            SsaKey::ByIdentity(node.id())
        } else {
            SsaKey::ByName(node.value().clone())
        };
        let ghost k = value@;
        assert(k == key_of(node@));
        match self.lookup_key(&value) {
            Some(id) => {
                if increment {
                    let new_id = get_global_counter(&self.counter);
                    increment_global_counter(&mut self.counter);
                    self.id_map.push((value, new_id));
                    assert(self.gen().table =~= old(self).gen().table.push((k, new_id as nat)));
                    (false, new_id)
                } else {
                    (false, id)
                }
            },
            None => {
                let new_id = get_global_counter(&self.counter);
                increment_global_counter(&mut self.counter);
                self.id_map.push((value, new_id));
                assert(self.gen().table =~= old(self).gen().table.push((k, new_id as nat)));
                (true, new_id)
            },
        }
    }

    /// Lowers a subtree, appending its lines to `mlir`.
    fn traverse_ast(&mut self, node: &Node, indent: usize, mlir: &mut String)
        ensures
            final(mlir)@ == old(mlir)@ + emit(node@, spaces(indent as nat), old(self).gen()).0,
            final(self).gen() == emit(node@, spaces(indent as nat), old(self).gen()).1,
            final(self).tree() == old(self).tree(),
        decreases node@, 1nat,
    {
        let indent_text = make_spaces(indent);
        let sp = indent_text.as_str();
        let ghost t = node@;
        let ghost g0 = self.gen();
        let ghost sv = spaces(indent as nat);
        let ghost start = mlir@;
        let children = node.children();
        if str_eq(node.name().as_str(), "READ") {
            self.lower_read(node, sp, mlir);
            mlir.append("\n");
            assert(mlir@ =~= start + emit(t, sv, g0).0);
        } else if str_eq(node.name().as_str(), "WRITE") {
            self.lower_write(node, indent, sp, mlir);
        } else if str_eq(node.name().as_str(), "INTLITERAL") {
            let (_, ssa) = self.get_ssa(node, true);
            push_const_line(mlir, sp, ssa, node.value().as_str());
        } else if (str_eq(node.name().as_str(), "PLUSOP") || str_eq(node.name().as_str(), "MINUSOP"))
            && children.len() >= 2 {
            assert(decreases_to!(t => t.children[0]));
            assert(decreases_to!(t => t.children[1]));
            assert(children@[0]@ == t.children[0] && children@[1]@ == t.children[1]);
            self.traverse_ast(&children[0], indent, mlir);
            self.traverse_ast(&children[1], indent, mlir);
            let (_, ssa) = self.get_ssa(node, true);
            let (_, left) = self.get_ssa(&children[0], false);
            let (_, right) = self.get_ssa(&children[1], false);
            if str_eq(node.name().as_str(), "PLUSOP") {
                push_binop_line(mlir, sp, "addi", ssa, left, right);
            } else {
                push_binop_line(mlir, sp, "subi", ssa, left, right);
            }
            assert(mlir@ =~= start + emit(t, sv, g0).0);
        } else if str_eq(node.name().as_str(), "ASSIGNOP") && children.len() >= 2 {
            assert(decreases_to!(t => t.children[1]));
            assert(children@[0]@ == t.children[0] && children@[1]@ == t.children[1]);
            self.traverse_ast(&children[1], indent, mlir);
            let (_, computed) = self.get_ssa(&children[1], false);
            let (_, declared) = self.get_ssa(&children[0], true);
            push_declare_line(mlir, sp, declared, children[0].value().as_str());
            let (_, old_ssa) = self.get_ssa(&children[0], false);
            let (_, assigned) = self.get_ssa(&children[0], true);
            push_binop_line(mlir, sp, "addi", assigned, old_ssa, computed);
            mlir.append("\n");
            assert(mlir@ =~= start + emit(t, sv, g0).0);
        } else {
            self.lower_children(node, indent, mlir);
        }
    }

    /// The reads of a `READ` node's names.
    fn lower_read(&mut self, node: &Node, sp: &str, mlir: &mut String)
        ensures
            final(mlir)@ == old(mlir)@ + emit_read(node@, node@.children.len() as nat, sp@, old(self).gen()).0,
            final(self).gen() == emit_read(node@, node@.children.len() as nat, sp@, old(self).gen()).1,
            final(self).tree() == old(self).tree(),
    {
        let ghost t = node@;
        let ghost g0 = self.gen();
        let ghost start = mlir@;
        let children = node.children();
        let mut i: usize = 0;
        while i < children.len()
            invariant
                i <= children@.len(),
                views(children@) == t.children,
                t == node@,
                mlir@ == start + emit_read(t, i as nat, sp@, g0).0,
                self.gen() == emit_read(t, i as nat, sp@, g0).1,
                self.tree() == old(self).tree(),
            decreases children@.len() - i,
        {
            let child = &children[i];
            assert(child@ == t.children[i as int]);
            let (flag, ssa) = self.get_ssa(child, false);
            if flag {
                push_declare_line(mlir, sp, ssa, child.value().as_str());
            }
            let (_, new_ssa) = self.get_ssa(child, true);
            push_read_line(mlir, sp, new_ssa);
            i = i + 1;
            assert(mlir@ =~= start + emit_read(t, i as nat, sp@, g0).0);
        }
    }

    /// The prints of a `WRITE` node's expressions.
    fn lower_write(&mut self, node: &Node, indent: usize, sp: &str, mlir: &mut String)
        requires
            sp@ == spaces(indent as nat),
        ensures
            final(mlir)@ == old(mlir)@ + emit_write(node@, node@.children.len() as nat, sp@, old(self).gen()).0,
            final(self).gen() == emit_write(node@, node@.children.len() as nat, sp@, old(self).gen()).1,
            final(self).tree() == old(self).tree(),
        decreases node@, 0nat,
    {
        let ghost t = node@;
        let ghost g0 = self.gen();
        let ghost start = mlir@;
        let children = node.children();
        let mut i: usize = 0;
        while i < children.len()
            invariant
                i <= children@.len(),
                views(children@) == t.children,
                t == node@,
                sp@ == spaces(indent as nat),
                mlir@ == start + emit_write(t, i as nat, sp@, g0).0,
                self.gen() == emit_write(t, i as nat, sp@, g0).1,
                self.tree() == old(self).tree(),
            decreases children@.len() - i,
        {
            let child = &children[i];
            assert(child@ == t.children[i as int]);
            let ghost before = mlir@;
            let ghost g1 = self.gen();
            if str_eq(child.name().as_str(), "INTLITERAL") {
                let (_, ssa) = self.get_ssa(child, true);
                push_const_line(mlir, sp, ssa, child.value().as_str());
                let (_, ssa2) = self.get_ssa(child, false);
                push_print_line(mlir, sp, ssa2);
            } else if str_eq(child.name().as_str(), "ID") {
                let (_, ssa) = self.get_ssa(child, false);
                push_print_line(mlir, sp, ssa);
            } else {
                assert(decreases_to!(t => t.children[i as int]));
                self.traverse_ast(child, indent, mlir);
                let (_, ssa) = self.get_ssa(child, false);
                push_print_line(mlir, sp, ssa);
            }
            i = i + 1;
            assert(mlir@ =~= start + emit_write(t, i as nat, sp@, g0).0);
        }
    }

    /// Each child lowered in turn.
    fn lower_children(&mut self, node: &Node, indent: usize, mlir: &mut String)
        ensures
            final(mlir)@ == old(mlir)@ + emit_children(node@, node@.children.len() as nat, spaces(indent as nat), old(self).gen()).0,
            final(self).gen() == emit_children(node@, node@.children.len() as nat, spaces(indent as nat), old(self).gen()).1,
            final(self).tree() == old(self).tree(),
        decreases node@, 0nat,
    {
        let ghost t = node@;
        let ghost g0 = self.gen();
        let ghost start = mlir@;
        let ghost sv = spaces(indent as nat);
        let children = node.children();
        let mut i: usize = 0;
        while i < children.len()
            invariant
                i <= children@.len(),
                views(children@) == t.children,
                t == node@,
                sv == spaces(indent as nat),
                mlir@ == start + emit_children(t, i as nat, sv, g0).0,
                self.gen() == emit_children(t, i as nat, sv, g0).1,
                self.tree() == old(self).tree(),
            decreases children@.len() - i,
        {
            assert(decreases_to!(t => t.children[i as int]));
            assert(children@[i as int]@ == t.children[i as int]);
            self.traverse_ast(&children[i], indent, mlir);
            i = i + 1;
            assert(mlir@ =~= start + emit_children(t, i as nat, sv, g0).0);
        }
    }
}

} // verus!
