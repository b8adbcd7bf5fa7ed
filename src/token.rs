use vstd::prelude::*;

verus! {

/// The bracket pair around a group.
#[derive(Clone, Copy, Debug, PartialEq, Eq, Structural)]
pub enum Delimiter {
    Parenthesis,
    Brace,
    Bracket,
    /// An invisible group, as the compiler makes around expanded fragments.
    Invisible,
}

/// One lexical token, or a group of them between a pair of delimiters.
#[derive(Debug, PartialEq, Eq)]
pub enum Token {
    Group(Delimiter, Vec<Token>),
    Ident(String),
    /// A punctuation character; `true` when it is joined to the next one (`::`).
    Punct(char, bool),
    /// A literal in its source form, such as `"a\n"`, `r"x"` or `42u8`.
    Literal(String),
}

/// The mathematical form of a [`Token`].
pub enum TokenTree {
    Group(Delimiter, Seq<TokenTree>),
    Ident(Seq<char>),
    Punct(char, bool),
    Literal(Seq<char>),
    /// Stands, in a description of output only, for any string literal whose
    /// value is this text: how such a literal is written is up to the writer.
    StringHolding(Seq<char>),
}

impl Token {
    pub open spec fn tree(self) -> TokenTree
        decreases self,
    {
        match self {
            Token::Group(d, v) => TokenTree::Group(d, trees(v@)),
            Token::Ident(s) => TokenTree::Ident(s@),
            Token::Punct(c, j) => TokenTree::Punct(c, j),
            Token::Literal(s) => TokenTree::Literal(s@),
        }
    }
}

/// The mathematical form of a token sequence.
pub open spec fn trees(s: Seq<Token>) -> Seq<TokenTree>
    decreases s,
{
    if s.len() == 0 {
        Seq::empty()
    } else {
        trees(s.drop_last()).push(s.last().tree())
    }
}

pub proof fn lemma_trees_index(s: Seq<Token>)
    ensures
        trees(s).len() == s.len(),
        forall|i: int| 0 <= i < s.len() ==> #[trigger] trees(s)[i] == s[i].tree(),
    decreases s.len(),
{
    if s.len() > 0 {
        lemma_trees_index(s.drop_last());
    }
}

pub proof fn lemma_trees_push(s: Seq<Token>, t: Token)
    ensures
        trees(s.push(t)) == trees(s).push(t.tree()),
{
    assert(s.push(t).drop_last() =~= s);
}

/// A token with the same mathematical form as `t`.
pub fn copy_token(t: &Token) -> (r: Token)
    ensures
        r.tree() == t.tree(),
    decreases t,
{
    match t {
        Token::Group(d, v) => Token::Group(*d, copy_tokens(v)),
        Token::Ident(s) => Token::Ident(s.clone()),
        Token::Punct(c, j) => Token::Punct(*c, *j),
        Token::Literal(s) => Token::Literal(s.clone()),
    }
}

/// Tokens with the same mathematical form as `v`.
pub fn copy_tokens(v: &Vec<Token>) -> (r: Vec<Token>)
    ensures
        trees(r@) == trees(v@),
    decreases v,
{
    let mut out: Vec<Token> = Vec::new();
    let mut i: usize = 0;
    while i < v.len()
        invariant
            i <= v@.len(),
            trees(out@) == trees(v@.take(i as int)),
        decreases v@.len() - i,
    {
        assert(decreases_to!(v => v@[i as int]));
        let t = copy_token(&v[i]);
        proof {
            lemma_trees_push(out@, t);
            assert(v@.take(i + 1).drop_last() =~= v@.take(i as int));
        }
        out.push(t);
        i += 1;
    }
    assert(v@.take(i as int) =~= v@);
    out
}

} // verus!
