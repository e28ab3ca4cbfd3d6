use vstd::prelude::*;
use vstd::string::*;
use crate::token4m::{tok_view, Tok};

verus! {

/// A source text and the tokens read from it so far.
pub struct Lex4m {
    input: String,
    tokens: Vec<(String, String)>,
}

impl Lex4m {
    pub closed spec fn source(&self) -> Seq<char> {
        self.input@
    }

    pub closed spec fn toks(&self) -> Seq<Tok> {
        self.tokens@.map_values(|t: (String, String)| tok_view(t))
    }

    /// A lexer over `input` that has read no token yet.
    pub fn new(input: String) -> (r: Self)
        ensures
            r.source() == input@,
            r.toks() == Seq::<Tok>::empty(),
    {
        let r = Lex4m { input, tokens: Vec::new() };
        assert(r.toks() =~= Seq::<Tok>::empty());
        r
    }

    pub fn input(&self) -> (r: &String)
        ensures
            r@ == self.source(),
    {
        &self.input
    }

    pub fn tokens(&self) -> (r: &Vec<(String, String)>)
        ensures
            r@.map_values(|t: (String, String)| tok_view(t)) == self.toks(),
    {
        &self.tokens
    }

    /// Records one more token, of kind `kind` and text `text`.
    pub fn push_token(&mut self, kind: String, text: String)
        ensures
            final(self).source() == old(self).source(),
            final(self).toks() == old(self).toks().push((kind@, text@)),
    {
        self.tokens.push((kind, text));
        assert(self.toks() =~= old(self).toks().push((kind@, text@)));
    }

    /// Ends the token sequence with the `SCANEOF` sentinel, whose text is empty.
    pub fn finish(&mut self)
        ensures
            final(self).source() == old(self).source(),
            final(self).toks() == old(self).toks().push(("SCANEOF"@, Seq::empty())),
    {
        self.push_token(String::from_str("SCANEOF"), String::new());
    }
}

} // verus!
