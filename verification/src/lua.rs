//! The Lua values that the library converts, modelled on `mlua::Value`, and
//! the errors that a conversion reports, modelled on `mlua::Error`.
//!
//! What the conversions read of a value that only the Lua state or floating
//! point can compute (how a value is shown, whether a float is integral) is
//! carried as plain data next to it.
use vstd::prelude::*;

verus! {

/// A Lua float. The conversions read it only through these plain values.
#[derive(Debug)]
pub struct LuaNumber {
    /// The bits of its IEEE 754 representation.
    pub bits: u64,
    /// The integer it equals, when it has no fractional part (`n as i64`).
    pub integral: Option<i64>,
    /// Its decimal rendering (`n.to_string()`).
    pub text: String,
}

/// A Lua value that the conversions do not look into: a function, a thread,
/// a userdata and the like. It is known by how it is shown.
#[derive(Debug)]
pub struct LuaHandle {
    /// The name of its Lua type, as `mlua::Value` names it.
    pub kind: String,
    /// Its `Debug` rendering.
    pub debug: String,
    /// Its rendering by Lua's `tostring`.
    pub display: String,
}

/// A Lua table: its key-value pairs in the order in which `pairs` walks them.
#[derive(Debug)]
pub struct LuaTable {
    pub pairs: Vec<(LuaValue, LuaValue)>,
    /// Its `Debug` rendering.
    pub debug: String,
    /// Its rendering by Lua's `tostring`.
    pub display: String,
}

/// A Lua value.
#[derive(Debug)]
pub enum LuaValue {
    Nil,
    Boolean(bool),
    Integer(i64),
    Number(LuaNumber),
    /// A Lua string: bytes, not necessarily UTF-8.
    String(Vec<u8>),
    Table(LuaTable),
    UserData(LuaHandle),
    /// Any other value: light userdata, function, thread, error.
    Other(LuaHandle),
}

/// The mathematical view of a [`LuaError`].
pub enum LuaErrorV {
    RuntimeError(Seq<char>),
    FromLuaConversionError { from: Seq<char>, to: Seq<char>, message: Option<Seq<char>> },
    ToLuaConversionError { from: Seq<char>, to: Seq<char>, message: Option<Seq<char>> },
}

/// The errors that a conversion reports, as `mlua::Error` has them.
#[derive(Debug, PartialEq, Eq)]
pub enum LuaError {
    /// `mlua::Error::RuntimeError`.
    RuntimeError(String),
    /// `mlua::Error::FromLuaConversionError`: a Lua value could not become the
    /// Rust type named by `to`.
    FromLuaConversionError { from: String, to: String, message: Option<String> },
    /// `mlua::Error::ToLuaConversionError`.
    ToLuaConversionError { from: String, to: String, message: Option<String> },
}

/// The view of an optional message.
pub open spec fn message_view(m: Option<String>) -> Option<Seq<char>> {
    match m {
        Some(s) => Some(s@),
        None => None,
    }
}

impl View for LuaError {
    type V = LuaErrorV;

    open spec fn view(&self) -> LuaErrorV {
        match self {
            LuaError::RuntimeError(m) => LuaErrorV::RuntimeError(m@),
            LuaError::FromLuaConversionError { from, to, message } => LuaErrorV::FromLuaConversionError {
                from: from@,
                to: to@,
                message: message_view(*message),
            },
            LuaError::ToLuaConversionError { from, to, message } => LuaErrorV::ToLuaConversionError {
                from: from@,
                to: to@,
                message: message_view(*message),
            },
        }
    }
}

/// A key that a counter of positions counts: an integer or any float.
pub open spec fn is_numeric_key(k: LuaValue) -> bool {
    k is Integer || k is Number
}

/// The number of pairs whose key is numeric.
pub open spec fn numeric_keys(p: Seq<(LuaValue, LuaValue)>) -> nat
    decreases p.len(),
{
    if p.len() == 0 {
        0
    } else {
        numeric_keys(p.drop_last()) + if is_numeric_key(p.last().0) {
            1nat
        } else {
            0nat
        }
    }
}

/// Every table reachable from the value through values has fewer than
/// `limit` numeric keys.
pub open spec fn value_fits(v: LuaValue, limit: int) -> bool
    decreases v,
{
    match v {
        LuaValue::Table(t) => table_fits(t, limit),
        _ => true,
    }
}

/// The table, and every table reachable from it through values, has fewer
/// than `limit` numeric keys.
pub open spec fn table_fits(t: LuaTable, limit: int) -> bool
    decreases t,
{
    &&& numeric_keys(t.pairs@) < limit
    &&& forall|i: int| 0 <= i < t.pairs@.len() ==> value_fits(#[trigger] t.pairs@[i].1, limit)
}

} // verus!
