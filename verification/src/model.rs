//! The values that parsing produces: literals and prefabs.

use vstd::prelude::*;

verus! {

/// The value of a variable in a prefab.
///
/// Text is kept as bytes, exactly as the map wrote it. A number is kept as
/// its decimal text, which has been checked against the number grammar.
#[derive(Debug, PartialEq, Eq)]
pub enum Literal {
    /// A decimal number, as written.
    Number(Vec<u8>),
    /// The text between the double quotes of a string.
    String(Vec<u8>),
    /// A type path, leading slash included.
    Path(Vec<u8>),
    /// The text between the single quotes of a file reference.
    File(Vec<u8>),
    /// The bare word `null`.
    Null,
    /// A value that matched no literal grammar, as raw text.
    Fallback(Vec<u8>),
    /// A list of values.
    List(Vec<Literal>),
    /// A list of key and value pairs.
    AssocList(Vec<(Literal, Literal)>),
}

/// A literal as a mathematical value.
pub ghost enum Lit {
    Number(Seq<u8>),
    String(Seq<u8>),
    Path(Seq<u8>),
    File(Seq<u8>),
    Null,
    Fallback(Seq<u8>),
    List(Seq<Lit>),
    AssocList(Seq<(Lit, Lit)>),
}

/// The mathematical value of a literal.
pub open spec fn lit_view(l: Literal) -> Lit
    decreases l,
{
    match l {
        Literal::Number(t) => Lit::Number(t@),
        Literal::String(t) => Lit::String(t@),
        Literal::Path(t) => Lit::Path(t@),
        Literal::File(t) => Lit::File(t@),
        Literal::Null => Lit::Null,
        Literal::Fallback(t) => Lit::Fallback(t@),
        Literal::List(items) => Lit::List(
            Seq::new(
                items@.len(),
                |i: int|
                    if 0 <= i < items@.len() {
                        lit_view(items@[i])
                    } else {
                        Lit::Null
                    },
            ),
        ),
        Literal::AssocList(pairs) => Lit::AssocList(
            Seq::new(
                pairs@.len(),
                |i: int|
                    if 0 <= i < pairs@.len() {
                        (lit_view(pairs@[i].0), lit_view(pairs@[i].1))
                    } else {
                        (Lit::Null, Lit::Null)
                    },
            ),
        ),
    }
}

impl View for Literal {
    type V = Lit;

    open spec fn view(&self) -> Lit {
        lit_view(*self)
    }
}

/// One variable of a prefab: its name and its value.
pub type Var = (Vec<u8>, Literal);

/// One placeable layer of a tile: a type path, and the variables that the map
/// sets on it. `vars` is `None` when the prefab has no variable block.
#[derive(Debug, PartialEq, Eq)]
pub struct Prefab {
    pub path: Vec<u8>,
    pub vars: Option<Vec<Var>>,
}

/// A prefab as a mathematical value.
pub ghost struct PrefabModel {
    pub path: Seq<u8>,
    pub vars: Option<Seq<(Seq<u8>, Lit)>>,
}

/// The variables of a prefab as a mathematical value, in their order.
pub open spec fn vars_view(vars: Seq<Var>) -> Seq<(Seq<u8>, Lit)> {
    Seq::new(vars.len(), |i: int| (vars[i].0@, vars[i].1@))
}

impl View for Prefab {
    type V = PrefabModel;

    open spec fn view(&self) -> PrefabModel {
        PrefabModel {
            path: self.path@,
            vars: match self.vars {
                Some(vars) => Some(vars_view(vars@)),
                None => None,
            },
        }
    }
}

} // verus!
