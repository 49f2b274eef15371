//! The persistent hash maps of the `im` crate, as the compiler uses them:
//! the lexical environment, from a variable's name to where it lives, and
//! the arity table, from a function's name to its number of parameters.
//!
//! Verus does not read `im`. Everything in this file is a statement about
//! that crate which the proofs of the compiler take on trust.

use crate::types::LocPtr;
use vstd::prelude::*;

verus! {

/// `im::HashMap`: a value of it is carried through, and read and changed by
/// the functions below alone.
#[verifier::external_type_specification]
#[verifier::external_body]
#[verifier::reject_recursive_types(K)]
#[verifier::reject_recursive_types(V)]
#[verifier::reject_recursive_types(S)]
pub struct ExHashMap<K, V, S>(im::HashMap<K, V, S>);

/// The entries of an environment: for the characters of each name that it
/// holds, the location bound to that name.
pub uninterp spec fn env_entries(env: im::HashMap<String, LocPtr>) -> Map<Seq<char>, LocPtr>;

/// The entries of an arity table: for the characters of each function name
/// that it holds, the number recorded for that name.
pub uninterp spec fn arity_entries(table: im::HashMap<String, i32>) -> Map<Seq<char>, i32>;

/// The environment that binds nothing.
pub open spec fn no_bindings() -> Map<Seq<char>, LocPtr> {
    Map::empty()
}

/// The arity table that knows no function.
pub open spec fn no_arities() -> Map<Seq<char>, i32> {
    Map::empty()
}

/// `im::HashMap::new`: a map without entries.
#[verifier::external_body]
pub(crate) fn env_new() -> (env: im::HashMap<String, LocPtr>)
    ensures
        env_entries(env) == no_bindings(),
{
    im::HashMap::new()
}

/// `im::HashMap::get`: the location bound to `name`, or `None` where the
/// map holds no entry for it. Keys are compared by their characters.
#[verifier::external_body]
pub(crate) fn env_get(env: &im::HashMap<String, LocPtr>, name: &String) -> (loc: Option<LocPtr>)
    ensures
        loc == (if env_entries(*env).contains_key(name@) {
            Some(env_entries(*env)[name@])
        } else {
            None
        }),
{
    env.get(name).copied()
}

/// `im::HashMap::update`: a new map that holds the entries of `env` and
/// binds `name` to `loc`, in place of an earlier entry for `name` if there
/// was one. `env` itself is left as it was.
#[verifier::external_body]
pub(crate) fn env_update(env: &im::HashMap<String, LocPtr>, name: String, loc: LocPtr) -> (out:
    im::HashMap<String, LocPtr>)
    ensures
        env_entries(out) == env_entries(*env).insert(name@, loc),
{
    env.update(name, loc)
}

/// `im::HashMap::insert`: binds `name` to `loc` in `env`, in place of an
/// earlier entry for `name` if there was one.
#[verifier::external_body]
pub(crate) fn env_insert(env: &mut im::HashMap<String, LocPtr>, name: String, loc: LocPtr)
    ensures
        env_entries(*final(env)) == env_entries(*old(env)).insert(name@, loc),
{
    env.insert(name, loc);
}

/// `Clone` for `im::HashMap`: a map with the same entries.
#[verifier::external_body]
pub(crate) fn env_clone(env: &im::HashMap<String, LocPtr>) -> (out: im::HashMap<String, LocPtr>)
    ensures
        env_entries(out) == env_entries(*env),
{
    env.clone()
}

/// `im::HashMap::new`: a table without entries.
#[verifier::external_body]
pub(crate) fn arity_new() -> (table: im::HashMap<String, i32>)
    ensures
        arity_entries(table) == no_arities(),
{
    im::HashMap::new()
}

/// `im::HashMap::get`: the number recorded for `name`, or `None` where the
/// table holds no entry for it. Keys are compared by their characters.
#[verifier::external_body]
pub(crate) fn arity_get(table: &im::HashMap<String, i32>, name: &String) -> (arity: Option<i32>)
    ensures
        arity == (if arity_entries(*table).contains_key(name@) {
            Some(arity_entries(*table)[name@])
        } else {
            None
        }),
{
    table.get(name).copied()
}

/// `im::HashMap::insert`: records `arity` for `name` in `table`, in place of
/// an earlier entry for `name` if there was one.
#[verifier::external_body]
pub(crate) fn arity_insert(table: &mut im::HashMap<String, i32>, name: String, arity: i32)
    ensures
        arity_entries(*final(table)) == arity_entries(*old(table)).insert(name@, arity),
{
    table.insert(name, arity);
}

} // verus!
