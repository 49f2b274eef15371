//! The surface syntax: a tree of tokens and lists, and the reader that
//! makes one from text.
//!
//! The reader is the `sexp` crate. Verus does not read it: what this file
//! says of it is taken on trust, and the parser is verified on the tree
//! that it hands over.

use vstd::prelude::*;

verus! {

/// A single token: a symbol, an integer, or a floating-point number, of
/// which the language has none and keeps no more than its presence.
#[derive(Debug, PartialEq, Eq)]
pub enum Token {
    Symbol(String),
    Integer(i64),
    Float,
}

/// A token or a parenthesized list.
#[derive(Debug, PartialEq, Eq)]
pub enum Tree {
    Atom(Token),
    List(Vec<Tree>),
}

/// The model of a token.
pub enum SpecToken {
    Symbol(Seq<char>),
    Integer(int),
    Float,
}

/// The model of a list tree.
pub enum SpecTree {
    Atom(SpecToken),
    List(Seq<SpecTree>),
}

impl View for Token {
    type V = SpecToken;

    open spec fn view(&self) -> SpecToken {
        match self {
            Token::Symbol(s) => SpecToken::Symbol(s@),
            Token::Integer(n) => SpecToken::Integer(*n as int),
            Token::Float => SpecToken::Float,
        }
    }
}

/// The models of a list of trees, in order.
pub open spec fn trees_of(items: Vec<Tree>) -> Seq<SpecTree>
    decreases items,
{
    Seq::new(
        items.len() as nat,
        |i: int|
            if 0 <= i < items.len() {
                items[i].model()
            } else {
                arbitrary()
            },
    )
}

impl Tree {
    /// The model of this tree.
    pub open spec fn model(&self) -> SpecTree
        decreases self,
    {
        match self {
            Tree::Atom(a) => SpecTree::Atom(a@),
            Tree::List(items) => SpecTree::List(trees_of(*items)),
        }
    }
}

impl View for Tree {
    type V = SpecTree;

    open spec fn view(&self) -> SpecTree {
        self.model()
    }
}

/// `sexp::Sexp`: the reader's own tree, which is handed from the reader to
/// the conversion below and no further.
#[verifier::external_type_specification]
#[verifier::external_body]
pub struct ExSexp(sexp::Sexp);

/// What `sexp::parse` makes of a text: the tree that the text denotes, or
/// `None` where the text is no single s-expression.
pub uninterp spec fn sexp_parse(text: Seq<char>) -> Option<SpecTree>;

/// A tree of the `sexp` crate as a tree of this library: the same atoms and
/// lists, a floating-point atom without its number.
#[verifier::external_body]
fn lift(s: &sexp::Sexp) -> Tree {
    match s {
        sexp::Sexp::Atom(sexp::Atom::S(name)) => Tree::Atom(Token::Symbol(name.clone())),
        sexp::Sexp::Atom(sexp::Atom::I(n)) => Tree::Atom(Token::Integer(*n)),
        sexp::Sexp::Atom(sexp::Atom::F(_)) => Tree::Atom(Token::Float),
        sexp::Sexp::List(items) => Tree::List(items.iter().map(lift).collect()),
    }
}

/// `sexp::parse`: reads one s-expression from `text`. The result depends
/// on the text alone. The reader descends once for each level of nesting.
#[verifier::external_body]
pub(crate) fn read_sexp(text: &str) -> (r: Option<Tree>)
    ensures
        match r {
            Some(s) => sexp_parse(text@) == Some(s@),
            None => sexp_parse(text@) is None,
        },
{
    match sexp::parse(text) {
        Ok(s) => Some(lift(&s)),
        Err(_) => None,
    }
}

} // verus!
