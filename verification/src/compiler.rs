//! The compiler's world as far as the library shapes it: the values that it
//! defines in a document's global scope, among them the Lua data bound as
//! `_LUADATA`.
use vstd::prelude::*;
use vstd::string::StringExecFns;
use crate::value::{
    dict_get, dict_insert, keys_distinct, law_insert_then_get, TypstDict, TypstV, TypstValue,
};

verus! {

/// The version of Typst that the library compiles with.
pub fn typst_version() -> (v: &'static str)
    ensures
        v@ == "0.14.2"@,
{
    "0.14.2"
}

/// A compilation world: the values that it defines in a document's global
/// scope, besides Typst's standard library.
pub struct SystemWorld {
    pub defined: TypstDict,
}

/// The name under which the Lua data is bound in a document.
pub open spec fn lua_data_name() -> Seq<char> {
    "_LUADATA"@
}

impl SystemWorld {
    /// A world that defines nothing of its own.
    pub fn new() -> (w: Self)
        ensures
            w.defined@ == Seq::<(Seq<char>, TypstV)>::empty(),
            w.defined.wf(),
    {
        SystemWorld { defined: TypstDict::new() }
    }

    /// Binds `var` under `label` in the global scope; a label already bound
    /// keeps its place and takes the new value.
    pub fn define(&mut self, label: &str, var: &TypstValue)
        requires
            old(self).defined.wf(),
        ensures
            final(self).defined.wf(),
            final(self).defined@ == dict_insert(old(self).defined@, label@, var@),
    {
        let name = String::from_str(label);
        let value = var.clone();
        self.defined.insert(name, value);
    }
}

/// Binds the Lua data, when there is any, as `_LUADATA`.
pub fn bind_lua_data(world: &mut SystemWorld, var: &Option<TypstValue>)
    requires
        old(world).defined.wf(),
    ensures
        final(world).defined.wf(),
        match var {
            Some(v) => final(world).defined@ == dict_insert(old(world).defined@, lua_data_name(), v@),
            None => final(world).defined@ == old(world).defined@,
        },
{
    match var {
        Some(v) => world.define("_LUADATA", v),
        None => {},
    }
}

/// After a world defines a label, the label is bound to the value defined,
/// and every other label keeps its binding.
pub proof fn law_define_then_lookup(
    before: Seq<(Seq<char>, TypstV)>,
    label: Seq<char>,
    var: TypstV,
    other: Seq<char>,
)
    requires
        keys_distinct(before),
    ensures
        dict_get(dict_insert(before, label, var), label) == Some(var),
        other != label ==> dict_get(dict_insert(before, label, var), other) == dict_get(before, other),
{
    law_insert_then_get(before, label, var, other);
}

} // verus!
