//! The environment: a table from symbol names to the values they are bound to.

use vstd::prelude::*;
use vstd::hash_map::StringHashMap;
use crate::expr::{Builtin, Expr, Sexp};

verus! {

/// A flat table of bindings. It is made once for a session and handed to
/// every evaluation.
pub struct Env {
    pub data: StringHashMap<Expr>,
}

impl View for Env {
    type V = Map<Seq<char>, Sexp>;

    /// The bindings, as a map from names to values.
    open spec fn view(&self) -> Map<Seq<char>, Sexp> {
        self.data@.map_values(|bound: Expr| bound@)
    }
}

/// The bindings every session starts with: `+` and `-`.
pub open spec fn default_bindings() -> Map<Seq<char>, Sexp> {
    Map::<Seq<char>, Sexp>::empty().insert("+"@, Sexp::Func(Builtin::Add)).insert(
        "-"@,
        Sexp::Func(Builtin::Sub),
    )
}

/// The environment with the native operations bound to their names.
pub fn default_env() -> (env: Env)
    ensures
        env@ == default_bindings(),
{
    let mut data: StringHashMap<Expr> = StringHashMap::new();
    data.insert("+".to_owned(), Expr::Func(Builtin::Add));
    data.insert("-".to_owned(), Expr::Func(Builtin::Sub));
    Env { data }
}

} // verus!
