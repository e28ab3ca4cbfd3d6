use vstd::prelude::*;
use vstd::string::*;

verus! {

/// A token as the lexical layer hands it over: its kind and its text.
pub type Tok = (Seq<char>, Seq<char>);

/// What a cursor is: the tokens it walks and its position among them.
pub struct CursorV {
    pub toks: Seq<Tok>,
    pub pos: nat,
}

/// The tokens of a program, read one at a time.
pub struct Token4m {
    tokens: Vec<(String, String)>,
    current_index: usize,
}

/// Where the cursor goes when it moves on: one further, but never past the end.
pub open spec fn next_pos(toks: Seq<Tok>, pos: nat) -> nat {
    if pos < toks.len() {
        pos + 1
    } else {
        pos
    }
}

/// The token at `pos` exists and is of kind `kind`.
pub open spec fn at(toks: Seq<Tok>, pos: nat, kind: Seq<char>) -> bool {
    pos < toks.len() && toks[pos as int].0 == kind
}

/// Whether two strings hold the same characters.
pub fn str_eq(a: &str, b: &str) -> (r: bool)
    ensures
        r == (a@ == b@),
{
    let n = a.unicode_len();
    if n != b.unicode_len() {
        return false;
    }
    let mut i: usize = 0;
    while i < n
        invariant
            n == a@.len(),
            n == b@.len(),
            i <= n,
            a@.take(i as int) == b@.take(i as int),
        decreases n - i,
    {
        if a.get_char(i) != b.get_char(i) {
            assert(a@[i as int] != b@[i as int]);
            return false;
        }
        assert(a@.take(i + 1) =~= a@.take(i as int).push(a@[i as int]));
        assert(b@.take(i + 1) =~= b@.take(i as int).push(b@[i as int]));
        i = i + 1;
    }
    assert(a@ =~= a@.take(n as int));
    assert(b@ =~= b@.take(n as int));
    true
}

pub open spec fn tok_view(t: (String, String)) -> Tok {
    (t.0@, t.1@)
}

impl View for Token4m {
    type V = CursorV;

    closed spec fn view(&self) -> CursorV {
        CursorV { toks: self.tokens@.map_values(|t: (String, String)| tok_view(t)), pos: self.current_index as nat }
    }
}

impl Token4m {
    /// The cursor never stands past the end of its tokens.
    pub open spec fn wf(&self) -> bool {
        self@.pos <= self@.toks.len()
    }

    pub fn new(tokens: Vec<(String, String)>) -> (r: Self)
        ensures
            r.wf(),
            r@.toks == tokens@.map_values(|t: (String, String)| tok_view(t)),
            r@.pos == 0,
    {
        Token4m { tokens, current_index: 0 }
    }

    /// The token under the cursor, if any is left.
    pub fn next_token(&mut self) -> (r: Option<(String, String)>)
        requires
            old(self).wf(),
        ensures
            *final(self) == *old(self),
            old(self)@.pos < old(self)@.toks.len() ==> (r matches Some(t) && tok_view(t) == old(self)@.toks[old(self)@.pos as int]),
            old(self)@.pos >= old(self)@.toks.len() ==> r is None,
    {
        self.peek()
    }

    pub fn peek(&self) -> (r: Option<(String, String)>)
        requires
            self.wf(),
        ensures
            self@.pos < self@.toks.len() ==> (r matches Some(t) && tok_view(t) == self@.toks[self@.pos as int]),
            self@.pos >= self@.toks.len() ==> r is None,
    {
        if self.current_index < self.tokens.len() {
            let t = &self.tokens[self.current_index];
            Some((t.0.clone(), t.1.clone()))
        } else {
            None
        }
    }

    /// Whether the token under the cursor is of kind `kind`.
    pub fn next_is(&self, kind: &str) -> (r: bool)
        requires
            self.wf(),
        ensures
            r == at(self@.toks, self@.pos, kind@),
    {
        if self.current_index < self.tokens.len() {
            str_eq(self.tokens[self.current_index].0.as_str(), kind)
        } else {
            false
        }
    }

    /// The kind of the token under the cursor, which must exist.
    pub fn next_kind(&self) -> (r: String)
        requires
            self.wf(),
            self@.pos < self@.toks.len(),
        ensures
            r@ == self@.toks[self@.pos as int].0,
    {
        self.tokens[self.current_index].0.clone()
    }

    /// The text of the token under the cursor, which must exist.
    pub fn next_text(&self) -> (r: String)
        requires
            self.wf(),
            self@.pos < self@.toks.len(),
        ensures
            r@ == self@.toks[self@.pos as int].1,
    {
        self.tokens[self.current_index].1.clone()
    }

    /// Moves past the token under the cursor; at the end it stays where it is.
    pub fn consume_token(&mut self)
        requires
            old(self).wf(),
        ensures
            final(self).wf(),
            final(self)@.toks == old(self)@.toks,
            final(self)@.pos == next_pos(old(self)@.toks, old(self)@.pos),
    {
        if self.current_index < self.tokens.len() {
            self.current_index = self.current_index + 1;
        }
    }

    /// Moves the cursor back to the first token.
    pub fn reset(&mut self)
        requires
            old(self).wf(),
        ensures
            final(self).wf(),
            final(self)@.toks == old(self)@.toks,
            final(self)@.pos == 0,
    {
        self.current_index = 0;
    }
}

} // verus!
