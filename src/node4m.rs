use vstd::prelude::*;
use vstd::string::*;

verus! {

/// A syntax tree as a value: kind tag, literal text, identifier and children.
#[verifier::ext_equal]
pub struct TreeV {
    pub name: Seq<char>,
    pub value: Seq<char>,
    pub id: nat,
    pub children: Seq<TreeV>,
}

/// A leaf: a node without children.
pub open spec fn leaf(name: Seq<char>, value: Seq<char>, id: nat) -> TreeV {
    TreeV { name, value, id, children: Seq::empty() }
}

/// The same node with one more child at the end.
pub open spec fn with_child(t: TreeV, c: TreeV) -> TreeV {
    TreeV { children: t.children.push(c), ..t }
}

/// The same node with more children at the end.
pub open spec fn with_children(t: TreeV, cs: Seq<TreeV>) -> TreeV {
    TreeV { children: t.children + cs, ..t }
}

pub proof fn lemma_with_no_children(t: TreeV)
    ensures
        with_children(t, Seq::empty()) == t,
{
    assert(t.children + Seq::empty() =~= t.children);
}

pub proof fn lemma_with_one_child(t: TreeV, c: TreeV)
    ensures
        with_children(t, seq![c]) == with_child(t, c),
{
    assert(t.children + seq![c] =~= t.children.push(c));
}

pub proof fn lemma_with_children_twice(t: TreeV, a: Seq<TreeV>, b: Seq<TreeV>)
    ensures
        with_children(with_children(t, a), b) == with_children(t, a + b),
{
    assert(t.children + a + b =~= t.children + (a + b));
}

/// The trees that a sequence of nodes stands for.
pub open spec fn views(v: Seq<Node>) -> Seq<TreeV> {
    v.map_values(|n: Node| n@)
}

/// The next value of an identifier counter. The counter stops at `u64::MAX`,
/// a number of nodes that no tree in memory reaches.
pub open spec fn bump(n: nat) -> nat {
    if n < u64::MAX {
        n + 1
    } else {
        n
    }
}

/// Steps the counter by one and returns its new value.
pub fn increment_global_counter(counter: &mut u64) -> (r: u64)
    ensures
        *final(counter) == bump(*old(counter) as nat),
        r == *final(counter),
{
    if *counter < u64::MAX {
        *counter = *counter + 1;
    }
    *counter
}

pub fn get_global_counter(counter: &u64) -> (r: u64)
    ensures
        r == *counter,
{
    *counter
}

pub fn reset_global_counter(counter: &mut u64)
    ensures
        *final(counter) == 0,
{
    *counter = 0;
}

/// A node of a syntax tree; it owns its children.
pub struct Node {
    name: String,
    value: String,
    children: Vec<Node>,
    id: u64,
}

impl View for Node {
    type V = TreeV;

    closed spec fn view(&self) -> TreeV
        decreases self, 1nat, 0nat,
    {
        TreeV {
            name: self.name@,
            value: self.value@,
            id: self.id as nat,
            children: child_views(self, self.children@.len()),
        }
    }
}

/// The trees of the first `k` children of `n`.
closed spec fn child_views(n: &Node, k: nat) -> Seq<TreeV>
    decreases n, 0nat, k,
{
    if k == 0 || k > n.children@.len() {
        Seq::empty()
    } else {
        child_views(n, (k - 1) as nat).push(n.children[k - 1].view())
    }
}

proof fn lemma_child_views(n: &Node, k: nat)
    requires
        k <= n.children@.len(),
    ensures
        child_views(n, k) == views(n.children@.take(k as int)),
    decreases k,
{
    if k > 0 {
        lemma_child_views(n, (k - 1) as nat);
        assert(n.children@.take(k as int) =~= n.children@.take(k - 1).push(n.children@[k - 1]));
        assert(views(n.children@.take(k as int)) =~= views(n.children@.take(k - 1)).push(n.children@[k - 1]@));
    } else {
        assert(views(n.children@.take(0)) =~= Seq::empty());
    }
}

/// The decimal digits of `n`, most significant first.
pub open spec fn dec(n: nat) -> Seq<char>
    decreases n,
{
    if n < 10 {
        digit(n)
    } else {
        dec(n / 10) + digit(n % 10)
    }
}

pub open spec fn digit(d: nat) -> Seq<char> {
    if d == 0 { "0"@ }
    else if d == 1 { "1"@ }
    else if d == 2 { "2"@ }
    else if d == 3 { "3"@ }
    else if d == 4 { "4"@ }
    else if d == 5 { "5"@ }
    else if d == 6 { "6"@ }
    else if d == 7 { "7"@ }
    else if d == 8 { "8"@ }
    else { "9"@ }
}

fn push_digit(s: &mut String, d: u64)
    requires
        d < 10,
    ensures
        final(s)@ == old(s)@ + digit(d as nat),
{
    if d == 0 { s.append("0") }
    else if d == 1 { s.append("1") }
    else if d == 2 { s.append("2") }
    else if d == 3 { s.append("3") }
    else if d == 4 { s.append("4") }
    else if d == 5 { s.append("5") }
    else if d == 6 { s.append("6") }
    else if d == 7 { s.append("7") }
    else if d == 8 { s.append("8") }
    else { s.append("9") }
}

/// Appends the decimal digits of `n`.
pub fn push_dec(s: &mut String, n: u64)
    ensures
        final(s)@ == old(s)@ + dec(n as nat),
    decreases n,
{
    if n >= 10 {
        push_dec(s, n / 10);
        push_digit(s, n % 10);
        assert(final(s)@ =~= old(s)@ + dec(n as nat));
    } else {
        push_digit(s, n);
    }
}

/// The graph statement that declares a node, labelled by its value or its kind.
pub open spec fn dot_vertex(t: TreeV, display_value: bool) -> Seq<char> {
    "    \""@ + dec(t.id) + "\" [label=\""@ + (if display_value { t.value } else { t.name }) + "\"];\n"@
}

/// The graph statement for the edge from a parent to a child.
pub open spec fn dot_edge(from: nat, to: nat) -> Seq<char> {
    "    \""@ + dec(from) + "\" -> \""@ + dec(to) + "\";\n"@
}

/// The statements of a subtree in pre-order: the node, then for each child
/// its edge followed by the child's own statements.
pub open spec fn dot_tree(t: TreeV, display_value: bool) -> Seq<char>
    decreases t, 1nat, 0nat,
{
    dot_vertex(t, display_value) + dot_children(t, t.children.len() as nat, display_value)
}

/// The statements of the first `k` children of `t`, each with its edge.
pub open spec fn dot_children(t: TreeV, k: nat, display_value: bool) -> Seq<char>
    decreases t, 0nat, k,
{
    if k == 0 || k > t.children.len() {
        Seq::empty()
    } else {
        let c = t.children[k - 1];
        dot_children(t, (k - 1) as nat, display_value) + dot_edge(t.id, c.id) + dot_tree(c, display_value)
    }
}

/// The whole graph description of a tree.
pub open spec fn dot_graph(t: TreeV, display_value: bool) -> Seq<char> {
    "digraph G {\n"@ + dot_tree(t, display_value) + "}\n"@
}

impl Node {
    proof fn lemma_children_view(&self)
        ensures
            self@.children == views(self.children@),
    {
        lemma_child_views(self, self.children@.len());
        assert(self.children@.take(self.children@.len() as int) =~= self.children@);
    }
    pub fn id(&self) -> (r: u64)
        ensures
            r == self@.id,
    {
        self.id
    }

    pub fn set_name(&mut self, name: String)
        ensures
            final(self)@ == (TreeV { name: name@, ..old(self)@ }),
    {
        proof { self.lemma_children_view(); }
        self.name = name;
        proof { self.lemma_children_view(); }
        assert(final(self)@ =~= (TreeV { name: name@, ..old(self)@ }));
    }

    pub fn set_value(&mut self, value: String)
        ensures
            final(self)@ == (TreeV { value: value@, ..old(self)@ }),
    {
        proof { self.lemma_children_view(); }
        self.value = value;
        proof { self.lemma_children_view(); }
        assert(final(self)@ =~= (TreeV { value: value@, ..old(self)@ }));
    }

    pub fn name(&self) -> (r: &String)
        ensures
            r@ == self@.name,
    {
        &self.name
    }

    pub fn value(&self) -> (r: &String)
        ensures
            r@ == self@.value,
    {
        &self.value
    }

    /// A node without children whose identifier is drawn from `counter`.
    pub fn new(name: String, value: String, counter: &mut u64) -> (r: Node)
        ensures
            r@ == leaf(name@, value@, *old(counter) as nat),
            *final(counter) == bump(*old(counter) as nat),
    {
        let id = get_global_counter(counter);
        increment_global_counter(counter);
        let r = Node { name, value, children: Vec::new(), id };
        assert(r@ =~= leaf(name@, value@, id as nat));
        r
    }

    pub fn children(&self) -> (r: &Vec<Node>)
        ensures
            views(r@) == self@.children,
    {
        proof { self.lemma_children_view(); }
        &self.children
    }

    /// Moves the children out, leaving the node without any.
    pub fn take_children(&mut self) -> (r: Vec<Node>)
        ensures
            views(r@) == old(self)@.children,
            final(self)@ == (TreeV { children: Seq::empty(), ..old(self)@ }),
    {
        proof { self.lemma_children_view(); }
        let mut r: Vec<Node> = Vec::new();
        std::mem::swap(&mut self.children, &mut r);
        assert(final(self)@ =~= (TreeV { children: Seq::empty(), ..old(self)@ }));
        r
    }

    pub fn add_child(&mut self, child: Node)
        ensures
            final(self)@ == with_child(old(self)@, child@),
    {
        proof { self.lemma_children_view(); }
        self.children.push(child);
        proof { self.lemma_children_view(); }
        assert(views(self.children@) =~= views(old(self).children@).push(child@));
        assert(final(self)@ =~= with_child(old(self)@, child@));
    }

    /// Adds `children` after the node's own children, in their order.
    pub fn add_children(&mut self, children: Vec<Node>)
        ensures
            final(self)@ == with_children(old(self)@, views(children@)),
    {
        proof { self.lemma_children_view(); }
        let mut children = children;
        let ghost moved = children@;
        self.children.append(&mut children);
        proof { self.lemma_children_view(); }
        assert(views(self.children@) =~= views(old(self).children@) + views(moved));
        assert(final(self)@ =~~= with_children(old(self)@, views(moved)));
    }

    /// A one-line description of the node: its kind and its value.
    pub fn to_string(&self) -> (r: String)
        ensures
            r@ == "Node(name: "@ + self@.name + ", value: "@ + self@.value + ")"@,
    {
        let mut r = String::from_str("Node(name: ");
        r.append(self.name.as_str());
        r.append(", value: ");
        r.append(self.value.as_str());
        r.append(")");
        assert(r@ =~= "Node(name: "@ + self@.name + ", value: "@ + self@.value + ")"@);
        r
    }

    /// The tree as a directed-graph description, each node labelled by its
    /// value when `display_value` holds and by its kind otherwise.
    pub fn to_dot(&self, display_value: bool) -> (r: String)
        ensures
            r@ == dot_graph(self@, display_value),
    {
        let mut dot = String::new();
        dot.append("digraph G {\n");
        self.to_dot_helper(&mut dot, display_value);
        dot.append("}\n");
        dot
    }

    fn to_dot_helper(&self, dot: &mut String, display_value: bool)
        ensures
            final(dot)@ == old(dot)@ + dot_tree(self@, display_value),
        decreases self@,
    {
        dot.append("    \"");
        push_dec(dot, self.id);
        dot.append("\" [label=\"");
        if display_value {
            dot.append(self.value.as_str());
        } else {
            dot.append(self.name.as_str());
        }
        dot.append("\"];\n");
        proof { self.lemma_children_view(); }
        let ghost start = dot@;
        assert(start =~= old(dot)@ + dot_vertex(self@, display_value));
        let mut i: usize = 0;
        while i < self.children.len()
            invariant
                0 <= i <= self.children@.len(),
                self@.children == views(self.children@),
                dot@ == start + dot_children(self@, i as nat, display_value),
            decreases self.children@.len() - i,
        {
            let child = &self.children[i];
            let ghost before = dot@;
            dot.append("    \"");
            push_dec(dot, self.id);
            dot.append("\" -> \"");
            push_dec(dot, child.id);
            dot.append("\";\n");
            assert(dot@ =~= before + dot_edge(self@.id, child@.id));
            let ghost mid = dot@;
            assert(decreases_to!(self@ => self@.children[i as int]));
            child.to_dot_helper(dot, display_value);
            i = i + 1;
            assert(dot_children(self@, i as nat, display_value) == dot_children(self@, (i - 1) as nat, display_value)
                + dot_edge(self@.id, child@.id) + dot_tree(child@, display_value));
            assert(dot@ =~= start + dot_children(self@, i as nat, display_value));
        }
    }
}

} // verus!
