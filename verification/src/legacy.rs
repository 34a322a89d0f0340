//! The earlier conversion of Lua tables into Typst values, whose result is
//! bound in a document's scope as `_LUADATA`. Like [`crate::convert`] it
//! makes an array of a table exactly when the table's keys are 1, 2, ..., n;
//! it differs in how it treats keys and errors: a float key renders as the
//! float's text, a string that is not UTF-8 is an error also as a value, and
//! values or keys of other kinds are reported as conversion errors naming the
//! value.
use vstd::prelude::*;
use vstd::utf8::{decode_utf8, valid_utf8};
use vstd::string::StringExecFns;
use crate::convert::{
    dense_array, dense_indices, in_index_order, index_occurs, index_of_key, key_as_index, key_indices,
    lemma_sequential_is_dense, names_index, not_utf8_error, position_of,
};
use crate::lua::{
    is_numeric_key, numeric_keys, table_fits, value_fits, LuaError, LuaErrorV, LuaNumber, LuaTable, LuaValue,
};
use crate::text::{bool_text, bool_to_text, decimal, i64_text, utf8_text};
use crate::value::{
    array_view, dict_get, dict_insert, has_key, keys_distinct, law_insert_then_get, TypstDict, TypstV, TypstValue,
};

verus! {

/// What the earlier conversion has built after some of a table's pairs.
pub struct LegacyState {
    pub arr: Seq<TypstV>,
    pub map: Seq<(Seq<char>, TypstV)>,
    pub is_array: bool,
    pub expected: int,
}

/// The state before any pair.
pub open spec fn legacy_initial() -> LegacyState {
    LegacyState { arr: Seq::empty(), map: Seq::empty(), is_array: true, expected: 1 }
}


/// How the earlier conversion shows a value in an error message: Lua's
/// `tostring` rendering.
pub open spec fn shown_by_lua(v: LuaValue) -> Seq<char> {
    match v {
        LuaValue::Nil => "nil"@,
        LuaValue::Table(t) => t.display@,
        LuaValue::UserData(h) => h.display@,
        LuaValue::Other(h) => h.display@,
        _ => Seq::empty(),
    }
}

/// The Lua type name of a value that the earlier conversion refuses.
pub open spec fn refused_kind(v: LuaValue) -> Seq<char> {
    match v {
        LuaValue::UserData(h) => h.kind@,
        LuaValue::Other(h) => h.kind@,
        _ => "nil"@,
    }
}

/// Adds one pair, whose value has already been converted to `v`. A numeric
/// key continues the sequence 1, 2, ... when it is the next index (a float
/// only when it has no fractional part); every numeric key advances the next
/// index; every pair goes into the dictionary.
pub open spec fn legacy_step(st: LegacyState, key: LuaValue, v: TypstV) -> Result<LegacyState, LuaErrorV> {
    match key {
        LuaValue::Number(n) => {
            let is_array = st.is_array && names_index(n.integral, st.expected);
            Ok(
                LegacyState {
                    arr: if is_array {
                        st.arr.push(v)
                    } else {
                        st.arr
                    },
                    map: dict_insert(st.map, n.text@, v),
                    is_array,
                    expected: st.expected + 1,
                },
            )
        },
        LuaValue::Integer(i) => {
            let is_array = st.is_array && i == st.expected;
            Ok(
                LegacyState {
                    arr: if is_array {
                        st.arr.push(v)
                    } else {
                        st.arr
                    },
                    map: dict_insert(st.map, decimal(i as int), v),
                    is_array,
                    expected: st.expected + 1,
                },
            )
        },
        LuaValue::String(s) => if valid_utf8(s@) {
            Ok(LegacyState { map: dict_insert(st.map, decode_utf8(s@), v), is_array: false, ..st })
        } else {
            Err(not_utf8_error(s@))
        },
        LuaValue::Boolean(b) => Ok(
            LegacyState { map: dict_insert(st.map, bool_text(b), v), is_array: false, ..st },
        ),
        _ => Err(
            LuaErrorV::ToLuaConversionError {
                from: "Unsupported key type"@,
                to: "String or Number"@,
                message: Some(shown_by_lua(key)),
            },
        ),
    }
}

/// Converts the pairs one after the other; the first error stops it. Beside
/// the state it collects the converted values in the order of their pairs.
pub open spec fn legacy_fold(p: Seq<(LuaValue, LuaValue)>) -> Result<(LegacyState, Seq<TypstV>), LuaErrorV>
    decreases p,
{
    if p.len() == 0 {
        Ok((legacy_initial(), Seq::empty()))
    } else {
        match legacy_fold(p.drop_last()) {
            Err(e) => Err(e),
            Ok((st, vals)) => match legacy_value(p.last().1) {
                Err(e) => Err(e),
                Ok(v) => match legacy_step(st, p.last().0, v) {
                    Err(e) => Err(e),
                    Ok(st2) => Ok((st2, vals.push(v))),
                },
            },
        }
    }
}

/// What a table becomes: an array of its values ordered by key when its keys
/// are exactly 1, 2, ..., n, else a dictionary.
pub open spec fn legacy_table(t: LuaTable) -> Result<TypstV, LuaErrorV>
    decreases t,
{
    match legacy_fold(t.pairs@) {
        Err(e) => Err(e),
        Ok((st, vals)) => Ok(
            if dense_indices(key_indices(t.pairs@)) {
                TypstV::Array(in_index_order(key_indices(t.pairs@), vals))
            } else {
                TypstV::Dict(st.map)
            },
        ),
    }
}

/// What a Lua value becomes.
pub open spec fn legacy_value(v: LuaValue) -> Result<TypstV, LuaErrorV>
    decreases v,
{
    match v {
        LuaValue::String(s) => if valid_utf8(s@) {
            Ok(TypstV::Str(decode_utf8(s@)))
        } else {
            Err(not_utf8_error(s@))
        },
        LuaValue::Table(t) => legacy_table(t),
        LuaValue::Number(n) => Ok(TypstV::Float(n.bits)),
        LuaValue::Integer(i) => Ok(TypstV::Int(i)),
        LuaValue::Boolean(b) => Ok(TypstV::Bool(b)),
        _ => Err(
            LuaErrorV::ToLuaConversionError {
                from: "Unsupported type"@,
                to: "Value"@,
                message: Some(shown_by_lua(v) + " -- "@ + refused_kind(v)),
            },
        ),
    }
}

/// Unfolds the conversion of the first `k + 1` pairs.
proof fn lemma_legacy_next(p: Seq<(LuaValue, LuaValue)>, k: int)
    requires
        0 <= k < p.len(),
    ensures
        legacy_fold(p.take(k + 1)) == (match legacy_fold(p.take(k)) {
            Err(e) => Err(e),
            Ok((st, vals)) => match legacy_value(p[k].1) {
                Err(e) => Err(e),
                Ok(v) => match legacy_step(st, p[k].0, v) {
                    Err(e) => Err(e),
                    Ok(st2) => Ok((st2, vals.push(v))),
                },
            },
        }),
{
    assert(p.take(k + 1).drop_last() =~= p.take(k));
    assert(p.take(k + 1).last() == p[k]);
}

/// Once a prefix of the pairs fails, the whole conversion fails the same way.
proof fn lemma_legacy_error_persists(p: Seq<(LuaValue, LuaValue)>, k: int, e: LuaErrorV)
    requires
        0 <= k <= p.len(),
        legacy_fold(p.take(k)) == Err::<(LegacyState, Seq<TypstV>), LuaErrorV>(e),
    ensures
        legacy_fold(p) == Err::<(LegacyState, Seq<TypstV>), LuaErrorV>(e),
    decreases p.len() - k,
{
    if k == p.len() {
        assert(p.take(k) =~= p);
    } else {
        lemma_legacy_next(p, k);
        lemma_legacy_error_persists(p, k + 1, e);
    }
}

/// The error of a value or key that Lua shows by `tostring`.
fn shown(v: &LuaValue) -> (s: String)
    ensures
        s@ == shown_by_lua(*v),
{
    match v {
        LuaValue::Nil => String::from_str("nil"),
        LuaValue::Table(t) => String::from_str(t.display.as_str()),
        LuaValue::UserData(h) => String::from_str(h.display.as_str()),
        LuaValue::Other(h) => String::from_str(h.display.as_str()),
        _ => String::new(),
    }
}

/// Adds one pair to the table being built, as [`legacy_step`] says: `arr`
/// collects the values while the keys are 1, 2, ... in the order in which
/// they come, `map` every pair under its key rendered as a string. A failed
/// step changes nothing, except that a string key has already ended the
/// sequence. Once the sequence has ended, no later key resumes it or adds to
/// `arr`.
pub fn update_data(
    arr: &mut Vec<TypstValue>,
    map: &mut TypstDict,
    is_array: &mut bool,
    expected_key: &mut i32,
    key: &LuaValue,
    value: TypstValue,
) -> (res: Result<(), LuaError>)
    requires
        old(map).wf(),
        is_numeric_key(*key) ==> *old(expected_key) < i32::MAX,
    ensures
        match legacy_step(
            LegacyState {
                arr: array_view(old(arr)@),
                map: old(map)@,
                is_array: *old(is_array),
                expected: *old(expected_key) as int,
            },
            *key,
            value@,
        ) {
            Ok(st) => {
                &&& res is Ok
                &&& st == LegacyState {
                    arr: array_view(final(arr)@),
                    map: final(map)@,
                    is_array: *final(is_array),
                    expected: *final(expected_key) as int,
                }
                &&& final(map).wf()
            },
            Err(e) => {
                &&& res matches Err(r) && r@ == e
                &&& final(arr)@ == old(arr)@
                &&& final(map)@ == old(map)@
                &&& *final(expected_key) == *old(expected_key)
                &&& *final(is_array) == (*old(is_array) && !(key is String))
            },
        },
        !*old(is_array) ==> !*final(is_array) && final(arr)@ == old(arr)@,
{
    match key {
        LuaValue::Number(n) => {
            let continues = match n.integral {
                Some(i) => i == *expected_key as i64,
                None => false,
            };
            if !continues {
                *is_array = false;
            }
            *expected_key = *expected_key + 1;
            if *is_array {
                let c = value.clone();
                arr.push(c);
                assert(array_view(arr@) =~= array_view(old(arr)@).push(value@));
            }
            let k = String::from_str(n.text.as_str());
            map.insert(k, value);
            Ok(())
        },
        LuaValue::Integer(n) => {
            if *n != *expected_key as i64 {
                *is_array = false;
            }
            *expected_key = *expected_key + 1;
            if *is_array {
                let c = value.clone();
                arr.push(c);
                assert(array_view(arr@) =~= array_view(old(arr)@).push(value@));
            }
            let k = i64_text(*n);
            map.insert(k, value);
            Ok(())
        },
        LuaValue::String(s) => {
            *is_array = false;
            match utf8_text(s.as_slice()) {
                Ok(text) => {
                    map.insert(text, value);
                    Ok(())
                },
                Err(detail) => Err(
                    LuaError::FromLuaConversionError {
                        from: String::from_str("string"),
                        to: String::from_str("&str"),
                        message: Some(detail),
                    },
                ),
            }
        },
        LuaValue::Boolean(b) => {
            *is_array = false;
            let text = bool_to_text(*b);
            map.insert(text, value);
            Ok(())
        },
        _ => Err(
            LuaError::ToLuaConversionError {
                from: String::from_str("Unsupported key type"),
                to: String::from_str("String or Number"),
                message: Some(shown(key)),
            },
        ),
    }
}

/// What the earlier conversion of the first `k` pairs has collected: each
/// value converted in order; and while the keys have come as 1, 2, ..., k,
/// the array holds all of them.
proof fn lemma_legacy_prefix(p: Seq<(LuaValue, LuaValue)>, k: int)
    requires
        0 <= k <= p.len(),
        legacy_fold(p.take(k)) is Ok,
    ensures
        ({
            let (st, vals) = legacy_fold(p.take(k))->Ok_0;
            &&& vals.len() == k
            &&& forall|i: int| 0 <= i < k ==> legacy_value(p[i].1) == Ok::<TypstV, LuaErrorV>(#[trigger] vals[i])
            &&& st.is_array ==> {
                &&& st.expected == k + 1
                &&& st.arr == vals
                &&& forall|i: int| 0 <= i < k ==> names_index(#[trigger] key_as_index(p[i].0), i + 1)
            }
        }),
    decreases k,
{
    if k == 0 {
        assert(p.take(0) =~= Seq::<(LuaValue, LuaValue)>::empty());
    } else {
        lemma_legacy_next(p, k - 1);
        let prev = legacy_fold(p.take(k - 1));
        assert(prev is Ok);
        lemma_legacy_prefix(p, k - 1);
        let (st0, vals0) = prev->Ok_0;
        let v = legacy_value(p[k - 1].1)->Ok_0;
        let (st, vals) = legacy_fold(p.take(k))->Ok_0;
        assert(vals == vals0.push(v));
        assert forall|i: int| 0 <= i < k implies legacy_value(p[i].1) == Ok::<TypstV, LuaErrorV>(#[trigger] vals[i]) by {
            if i < k - 1 {
                assert(vals[i] == vals0[i]);
            }
        }
        if st.is_array {
            assert(st0.is_array);
            assert(st.arr =~= vals);
            assert(names_index(key_as_index(p[k - 1].0), k));
        }
    }
}

/// Counting the numeric keys of the first `k + 1` pairs adds the pair at
/// `k` to those of the first `k`.
proof fn lemma_numeric_keys_next(p: Seq<(LuaValue, LuaValue)>, k: int)
    requires
        0 <= k < p.len(),
    ensures
        numeric_keys(p.take(k + 1)) == numeric_keys(p.take(k)) + if is_numeric_key(p[k].0) {
            1int
        } else {
            0int
        },
{
    assert(p.take(k + 1).drop_last() =~= p.take(k));
    assert(p.take(k + 1).last() == p[k]);
}

/// A prefix of the pairs has no more numeric keys than all of them.
proof fn lemma_numeric_keys_prefix(p: Seq<(LuaValue, LuaValue)>, k: int)
    requires
        0 <= k <= p.len(),
    ensures
        numeric_keys(p.take(k)) <= numeric_keys(p),
    decreases p.len() - k,
{
    if k == p.len() {
        assert(p.take(k) =~= p);
    } else {
        lemma_numeric_keys_next(p, k);
        lemma_numeric_keys_prefix(p, k + 1);
    }
}

/// Converts a Lua table: an array of its values ordered by key when its keys
/// are exactly 1, 2, ..., n; otherwise a dictionary. The result is always
/// present.
pub fn lua_table_to_typst_value(table: &LuaTable) -> (res: Result<Option<TypstValue>, LuaError>)
    requires
        table_fits(*table, i32::MAX as int),
    ensures
        match res {
            Ok(Some(v)) => legacy_table(*table) == Ok::<TypstV, LuaErrorV>(v@),
            Ok(None) => false,
            Err(e) => legacy_table(*table) == Err::<TypstV, LuaErrorV>(e@),
        },
    decreases table, 0nat,
{
    let mut arr: Vec<TypstValue> = Vec::new();
    let mut map = TypstDict::new();
    let mut is_array = true;
    let mut expected_key: i32 = 1;
    let mut vals: Vec<TypstValue> = Vec::new();
    let mut ixs: Vec<Option<i64>> = Vec::new();
    let mut k: usize = 0;
    proof {
        assert(table.pairs@.take(0) =~= Seq::<(LuaValue, LuaValue)>::empty());
        assert(array_view(arr@) =~= Seq::<TypstV>::empty());
        assert(array_view(vals@) =~= Seq::<TypstV>::empty());
        assert(ixs@ =~= key_indices(table.pairs@.take(0)));
        assert(numeric_keys(table.pairs@.take(0)) == 0);
    }
    while k < table.pairs.len()
        invariant
            k <= table.pairs@.len(),
            table_fits(*table, i32::MAX as int),
            map.wf(),
            expected_key == 1 + numeric_keys(table.pairs@.take(k as int)),
            vals@.len() == k,
            ixs@ == key_indices(table.pairs@.take(k as int)),
            legacy_fold(table.pairs@.take(k as int)) == Ok::<(LegacyState, Seq<TypstV>), LuaErrorV>(
                (
                    LegacyState {
                        arr: array_view(arr@),
                        map: map@,
                        is_array,
                        expected: expected_key as int,
                    },
                    array_view(vals@),
                ),
            ),
        decreases table.pairs@.len() - k,
    {
        proof {
            lemma_legacy_next(table.pairs@, k as int);
            lemma_numeric_keys_next(table.pairs@, k as int);
            lemma_numeric_keys_prefix(table.pairs@, k + 1);
            assert(decreases_to!(*table => table.pairs));
            assert(decreases_to!(table.pairs => table.pairs@[k as int]));
            assert(decreases_to!(table.pairs@[k as int] => table.pairs@[k as int].1));
            assert(value_fits(table.pairs@[k as int].1, i32::MAX as int));
        }
        let value = match lua_value_to_typst_value(&table.pairs[k].1) {
            Ok(v) => v,
            Err(e) => {
                proof {
                    lemma_legacy_error_persists(table.pairs@, k + 1, e@);
                }
                return Err(e);
            },
        };
        let c = value.clone();
        match update_data(&mut arr, &mut map, &mut is_array, &mut expected_key, &table.pairs[k].0, c) {
            Ok(()) => {},
            Err(e) => {
                proof {
                    lemma_legacy_error_persists(table.pairs@, k + 1, e@);
                }
                return Err(e);
            },
        }
        let ghost old_vals = vals@;
        vals.push(value);
        ixs.push(index_of_key(&table.pairs[k].0));
        proof {
            assert(array_view(vals@) =~= array_view(old_vals).push(value@));
            assert(ixs@ =~= key_indices(table.pairs@.take(k + 1)));
        }
        k += 1;
    }
    proof {
        assert(table.pairs@.take(table.pairs@.len() as int) =~= table.pairs@);
        lemma_legacy_prefix(table.pairs@, table.pairs@.len() as int);
    }
    if is_array {
        proof {
            assert forall|i: int| 0 <= i < ixs@.len() implies names_index(#[trigger] ixs@[i], i + 1) by {
                assert(ixs@[i] == key_as_index(table.pairs@[i].0));
            }
            lemma_sequential_is_dense(ixs@, array_view(vals@));
        }
        Ok(Some(TypstValue::Array(arr)))
    } else {
        match dense_array(&ixs, &vals) {
            Some(a) => Ok(Some(TypstValue::Array(a))),
            None => Ok(Some(TypstValue::Dict(map))),
        }
    }
}

/// Converts a Lua value into a Typst value.
pub fn lua_value_to_typst_value(value: &LuaValue) -> (res: Result<TypstValue, LuaError>)
    requires
        value_fits(*value, i32::MAX as int),
    ensures
        match res {
            Ok(v) => legacy_value(*value) == Ok::<TypstV, LuaErrorV>(v@),
            Err(e) => legacy_value(*value) == Err::<TypstV, LuaErrorV>(e@),
        },
    decreases value, 1nat,
{
    match value {
        LuaValue::String(s) => match utf8_text(s.as_slice()) {
            Ok(text) => Ok(TypstValue::Str(text)),
            Err(detail) => Err(
                LuaError::FromLuaConversionError {
                    from: String::from_str("string"),
                    to: String::from_str("&str"),
                    message: Some(detail),
                },
            ),
        },
        LuaValue::Table(t) => {
            proof {
                assert(decreases_to!(*value => value->Table_0));
            }
            match lua_table_to_typst_value(t) {
                Ok(Some(v)) => Ok(v),
                Ok(None) => Err(
                    LuaError::ToLuaConversionError {
                        from: String::from_str("Unsupported type"),
                        to: String::from_str("Value"),
                        message: Some(String::from_str("Table type not supported")),
                    },
                ),
                Err(e) => Err(e),
            }
        },
        LuaValue::Number(n) => Ok(TypstValue::Float(n.bits)),
        LuaValue::Integer(i) => Ok(TypstValue::Int(*i)),
        LuaValue::Boolean(b) => Ok(TypstValue::Bool(*b)),
        _ => {
            let kind = match value {
                LuaValue::UserData(h) => String::from_str(h.kind.as_str()),
                LuaValue::Other(h) => String::from_str(h.kind.as_str()),
                _ => String::from_str("nil"),
            };
            let msg = shown(value).concat(" -- ").concat(kind.as_str());
            Err(
                LuaError::ToLuaConversionError {
                    from: String::from_str("Unsupported type"),
                    to: String::from_str("Value"),
                    message: Some(msg),
                },
            )
        },
    }
}

/// The data that a Lua value hands to a document, to be bound as
/// `_LUADATA`: a table hands over what it converts to; any other value hands
/// over nothing.
pub fn legacy_data(data: &LuaValue) -> (res: Result<Option<TypstValue>, LuaError>)
    requires
        value_fits(*data, i32::MAX as int),
    ensures
        match *data {
            LuaValue::Table(t) => match res {
                Ok(Some(v)) => legacy_table(t) == Ok::<TypstV, LuaErrorV>(v@),
                Ok(None) => false,
                Err(e) => legacy_table(t) == Err::<TypstV, LuaErrorV>(e@),
            },
            _ => res matches Ok(None),
        },
{
    match data {
        LuaValue::Table(t) => lua_table_to_typst_value(t),
        _ => Ok(None),
    }
}

/// A key rendered as a dictionary key by the earlier conversion: a float as
/// its text, an integer in decimal, a UTF-8 string as its text, a boolean as
/// "true" or "false". Other keys have none.
pub open spec fn legacy_key_text(k: LuaValue) -> Option<Seq<char>> {
    match k {
        LuaValue::Number(n) => Some(n.text@),
        LuaValue::Integer(i) => Some(decimal(i as int)),
        LuaValue::String(s) => if valid_utf8(s@) {
            Some(decode_utf8(s@))
        } else {
            None
        },
        LuaValue::Boolean(b) => Some(bool_text(b)),
        _ => None,
    }
}

/// A value that the earlier conversion accepts: a boolean, a number, a UTF-8
/// string, or a table whose every key renders and whose every value is
/// accepted, at any depth.
pub open spec fn legacy_value_supported(v: LuaValue) -> bool
    decreases v,
{
    match v {
        LuaValue::Boolean(_) => true,
        LuaValue::Integer(_) => true,
        LuaValue::Number(_) => true,
        LuaValue::String(s) => valid_utf8(s@),
        LuaValue::Table(t) => legacy_table_supported(t),
        _ => false,
    }
}

/// A table whose every key renders and whose every value the earlier
/// conversion accepts, at any depth.
pub open spec fn legacy_table_supported(t: LuaTable) -> bool
    decreases t,
{
    forall|i: int|
        0 <= i < t.pairs@.len() ==> (#[trigger] legacy_key_text(t.pairs@[i].0)) is Some
            && legacy_value_supported(t.pairs@[i].1)
}

/// The first `k` pairs convert exactly when each of their keys renders and
/// each of their values converts.
proof fn lemma_legacy_succeeds(p: Seq<(LuaValue, LuaValue)>, k: int)
    requires
        0 <= k <= p.len(),
    ensures
        legacy_fold(p.take(k)) is Ok <==> forall|i: int|
            0 <= i < k ==> (#[trigger] legacy_key_text(p[i].0)) is Some && legacy_value(p[i].1) is Ok,
    decreases k,
{
    if k == 0 {
        assert(p.take(0) =~= Seq::<(LuaValue, LuaValue)>::empty());
    } else {
        lemma_legacy_succeeds(p, k - 1);
        lemma_legacy_next(p, k - 1);
        if forall|i: int| 0 <= i < k ==> (#[trigger] legacy_key_text(p[i].0)) is Some && legacy_value(p[i].1) is Ok {
            assert(legacy_key_text(p[k - 1].0) is Some);
            assert forall|i: int| 0 <= i < k - 1 implies (#[trigger] legacy_key_text(p[i].0)) is Some
                && legacy_value(p[i].1) is Ok by {
                assert(legacy_key_text(p[i].0) is Some);
            }
        }
        if legacy_fold(p.take(k)) is Ok {
            assert(legacy_fold(p.take(k - 1)) is Ok);
            assert(legacy_value(p[k - 1].1) is Ok);
            assert(legacy_key_text(p[k - 1].0) is Some);
            assert forall|i: int| 0 <= i < k implies (#[trigger] legacy_key_text(p[i].0)) is Some
                && legacy_value(p[i].1) is Ok by {
                if i < k - 1 {
                    assert(legacy_key_text(p[i].0) is Some);
                }
            }
        }
    }
}

/// A value converts exactly when the earlier conversion accepts it.
proof fn lemma_legacy_value_converts(v: LuaValue)
    ensures
        legacy_value(v) is Ok <==> legacy_value_supported(v),
    decreases v,
{
    if let LuaValue::Table(t) = v {
        lemma_legacy_table_converts(t);
    }
}

/// A table's pairs convert exactly when the earlier conversion accepts the
/// table.
proof fn lemma_legacy_table_converts(t: LuaTable)
    ensures
        legacy_fold(t.pairs@) is Ok <==> legacy_table_supported(t),
    decreases t,
{
    let p = t.pairs@;
    lemma_legacy_succeeds(p, p.len() as int);
    assert(p.take(p.len() as int) =~= p);
    assert forall|i: int| 0 <= i < p.len() implies (legacy_value(p[i].1) is Ok <==> legacy_value_supported(
        p[i].1,
    )) by {
        assert(decreases_to!(t => t.pairs));
        assert(decreases_to!(t.pairs => t.pairs@[i]));
        assert(decreases_to!(t.pairs@[i] => t.pairs@[i].1));
        lemma_legacy_value_converts(p[i].1);
    }
    if legacy_table_supported(t) {
        assert forall|i: int| 0 <= i < p.len() implies (#[trigger] legacy_key_text(p[i].0)) is Some
            && legacy_value(p[i].1) is Ok by {
            assert(legacy_key_text(t.pairs@[i].0) is Some);
        }
    }
    if legacy_fold(p) is Ok {
        assert forall|i: int| 0 <= i < p.len() implies (#[trigger] legacy_key_text(t.pairs@[i].0)) is Some
            && legacy_value_supported(t.pairs@[i].1) by {
            assert(legacy_key_text(p[i].0) is Some);
        }
    }
}

/// The earlier conversion turns a value into a Typst value exactly when it
/// accepts it: a boolean, a number, a UTF-8 string, or a table whose every
/// key at any depth is a number, a UTF-8 string or a boolean and whose every
/// value is accepted.
pub proof fn law_legacy_supported_values_convert(v: LuaValue)
    ensures
        legacy_value(v) is Ok <==> legacy_value_supported(v),
{
    lemma_legacy_value_converts(v);
}

/// The earlier conversion turns a table into a Typst value exactly when it
/// accepts the table.
pub proof fn law_legacy_supported_tables_convert(t: LuaTable)
    ensures
        legacy_table(t) is Ok <==> legacy_table_supported(t),
{
    lemma_legacy_table_converts(t);
}

/// The earlier conversion turns a UTF-8 Lua string, of any length, the
/// empty one included, into the Typst string of its decoded characters, and
/// refuses a string that is not UTF-8 as `mlua` does; a boolean, an integer
/// and a float keep their value; nil is refused.
pub proof fn law_legacy_plain_values(bytes: Vec<u8>, b: bool, i: i64, n: LuaNumber)
    ensures
        valid_utf8(bytes@) ==> legacy_value(LuaValue::String(bytes)) == Ok::<TypstV, LuaErrorV>(
            TypstV::Str(decode_utf8(bytes@)),
        ),
        !valid_utf8(bytes@) ==> legacy_value(LuaValue::String(bytes)) == Err::<TypstV, LuaErrorV>(
            not_utf8_error(bytes@),
        ),
        legacy_value(LuaValue::Boolean(b)) == Ok::<TypstV, LuaErrorV>(TypstV::Bool(b)),
        legacy_value(LuaValue::Integer(i)) == Ok::<TypstV, LuaErrorV>(TypstV::Int(i)),
        legacy_value(LuaValue::Number(n)) == Ok::<TypstV, LuaErrorV>(TypstV::Float(n.bits)),
        legacy_value(LuaValue::Nil) is Err,
{
}

/// How the earlier conversion renders a key as a dictionary key: a float as
/// its text, an integer in decimal, a UTF-8 string as its decoded
/// characters, a boolean as "true" or "false"; other keys have none.
pub proof fn law_legacy_key_rendering(bytes: Vec<u8>, i: i64, n: LuaNumber)
    ensures
        legacy_key_text(LuaValue::Number(n)) == Some(n.text@),
        legacy_key_text(LuaValue::Integer(i)) == Some(decimal(i as int)),
        valid_utf8(bytes@) ==> legacy_key_text(LuaValue::String(bytes)) == Some(decode_utf8(bytes@)),
        !valid_utf8(bytes@) ==> legacy_key_text(LuaValue::String(bytes)) is None,
        legacy_key_text(LuaValue::Boolean(true)) == Some(seq!['t', 'r', 'u', 'e']),
        legacy_key_text(LuaValue::Boolean(false)) == Some(seq!['f', 'a', 'l', 's', 'e']),
        legacy_key_text(LuaValue::Nil) is None,
{
}

/// The rendered key of the pair at `i` occurs at no later position among the
/// first `k` pairs.
pub open spec fn legacy_last_with_its_key(p: Seq<(LuaValue, LuaValue)>, k: int, i: int) -> bool {
    forall|j: int| i < j < k ==> legacy_key_text(#[trigger] p[j].0) != legacy_key_text(p[i].0)
}

/// No two of the first `k` pairs have the same rendered key.
pub open spec fn legacy_rendered_keys_distinct(p: Seq<(LuaValue, LuaValue)>, k: int) -> bool {
    forall|i: int, j: int|
        0 <= i < j < k ==> legacy_key_text(#[trigger] p[i].0) != legacy_key_text(#[trigger] p[j].0)
}

/// What the earlier conversion of the first `k` pairs has put in its
/// dictionary: distinct keys, exactly the rendered keys of the pairs, each
/// with the value of the last pair that has it.
proof fn lemma_legacy_map_facts(p: Seq<(LuaValue, LuaValue)>, k: int)
    requires
        0 <= k <= p.len(),
        legacy_fold(p.take(k)) is Ok,
    ensures
        ({
            let (st, vals) = legacy_fold(p.take(k))->Ok_0;
            &&& vals.len() == k
            &&& forall|i: int| 0 <= i < k ==> (#[trigger] legacy_key_text(p[i].0)) is Some
            &&& forall|i: int|
                0 <= i < k ==> legacy_value(p[i].1) == Ok::<TypstV, LuaErrorV>(#[trigger] vals[i])
            &&& keys_distinct(st.map)
            &&& forall|i: int| 0 <= i < k ==> has_key(st.map, (#[trigger] legacy_key_text(p[i].0))->0)
            &&& forall|s: Seq<char>|
                #[trigger] has_key(st.map, s) ==> exists|i: int|
                    0 <= i < k && legacy_key_text(p[i].0) == Some(s)
            &&& forall|i: int|
                0 <= i < k && #[trigger] legacy_last_with_its_key(p, k, i) ==> dict_get(
                    st.map,
                    legacy_key_text(p[i].0)->0,
                ) == Some(vals[i])
            &&& legacy_rendered_keys_distinct(p, k) ==> st.map.len() == k
        }),
    decreases k,
{
    if k == 0 {
        assert(p.take(0) =~= Seq::<(LuaValue, LuaValue)>::empty());
    } else {
        lemma_legacy_next(p, k - 1);
        let prev = legacy_fold(p.take(k - 1));
        assert(prev is Ok);
        lemma_legacy_map_facts(p, k - 1);
        let (st0, vals0) = prev->Ok_0;
        let v = legacy_value(p[k - 1].1)->Ok_0;
        let (st, vals) = legacy_fold(p.take(k))->Ok_0;
        assert(legacy_key_text(p[k - 1].0) is Some);
        let s = legacy_key_text(p[k - 1].0)->0;
        assert(st.map == dict_insert(st0.map, s, v));
        assert(vals == vals0.push(v));
        law_insert_then_get(st0.map, s, v, s);
        assert forall|i: int| 0 <= i < k implies legacy_value(p[i].1) == Ok::<TypstV, LuaErrorV>(
            #[trigger] vals[i],
        ) by {
            if i < k - 1 {
                assert(vals[i] == vals0[i]);
            }
        }
        assert forall|i: int| 0 <= i < k implies has_key(st.map, (#[trigger] legacy_key_text(p[i].0))->0) by {
            let si = legacy_key_text(p[i].0)->0;
            law_insert_then_get(st0.map, s, v, si);
        }
        assert forall|x: Seq<char>| #[trigger] has_key(st.map, x) implies exists|i: int|
            0 <= i < k && legacy_key_text(p[i].0) == Some(x) by {
            law_insert_then_get(st0.map, s, v, x);
            if x == s {
                assert(legacy_key_text(p[k - 1].0) == Some(x));
            } else {
                assert(has_key(st0.map, x));
                let i = choose|i: int| 0 <= i < k - 1 && legacy_key_text(p[i].0) == Some(x);
                assert(0 <= i < k && legacy_key_text(p[i].0) == Some(x));
            }
        }
        assert forall|i: int|
            0 <= i < k && #[trigger] legacy_last_with_its_key(p, k, i) implies dict_get(
                st.map,
                legacy_key_text(p[i].0)->0,
            ) == Some(vals[i]) by {
            let si = legacy_key_text(p[i].0)->0;
            law_insert_then_get(st0.map, s, v, si);
            if i < k - 1 {
                assert(legacy_key_text(p[k - 1].0) != legacy_key_text(p[i].0));
                assert(legacy_last_with_its_key(p, k - 1, i));
                assert(vals[i] == vals0[i]);
            }
        }
        if legacy_rendered_keys_distinct(p, k) {
            assert(legacy_rendered_keys_distinct(p, k - 1));
            if has_key(st0.map, s) {
                let i = choose|i: int| 0 <= i < k - 1 && legacy_key_text(p[i].0) == Some(s);
                assert(legacy_key_text(p[i].0) != legacy_key_text(p[k - 1].0));
            }
        }
    }
}

/// An accepted table that the earlier conversion does not make an array
/// becomes a dictionary in which no key occurs twice; every pair's key
/// occurs rendered as a string, and nothing else does; a key holds the
/// converted value of the last pair whose key renders to it; and when no two
/// keys render alike, it has one entry per pair.
pub proof fn law_legacy_dictionary_contents(t: LuaTable)
    requires
        legacy_table_supported(t),
    ensures
        legacy_table(t) is Ok,
        legacy_table(t)->Ok_0 matches TypstV::Dict(m) ==> {
            let p = t.pairs@;
            &&& keys_distinct(m)
            &&& forall|i: int|
                0 <= i < p.len() ==> ((#[trigger] legacy_key_text(p[i].0)) matches Some(s) && has_key(m, s))
            &&& forall|s: Seq<char>|
                #[trigger] has_key(m, s) ==> exists|i: int| 0 <= i < p.len() && legacy_key_text(p[i].0) == Some(s)
            &&& forall|i: int|
                0 <= i < p.len() && #[trigger] legacy_last_with_its_key(p, p.len() as int, i) ==> dict_get(
                    m,
                    legacy_key_text(p[i].0)->0,
                ) == Some(legacy_value(p[i].1)->Ok_0)
            &&& legacy_rendered_keys_distinct(p, p.len() as int) ==> m.len() == p.len()
        },
{
    lemma_legacy_table_converts(t);
    let p = t.pairs@;
    assert(p.take(p.len() as int) =~= p);
    lemma_legacy_map_facts(p, p.len() as int);
    let (st, vals) = legacy_fold(p)->Ok_0;
    assert forall|i: int| 0 <= i < p.len() implies ((#[trigger] legacy_key_text(p[i].0)) matches Some(s)
        && has_key(st.map, s)) by {
        assert(legacy_key_text(p[i].0) is Some);
        assert(has_key(st.map, legacy_key_text(p[i].0)->0));
    }
    assert forall|i: int|
        0 <= i < p.len() && #[trigger] legacy_last_with_its_key(p, p.len() as int, i) implies dict_get(
            st.map,
            legacy_key_text(p[i].0)->0,
        ) == Some(legacy_value(p[i].1)->Ok_0) by {
        assert(legacy_value(p[i].1) == Ok::<TypstV, LuaErrorV>(vals[i]));
    }
}

/// The earlier conversion turns an accepted table into an array exactly
/// when its keys are exactly 1, 2, ..., n, in whatever order Lua walks them;
/// the array then has n elements, and the element at position k - 1 is the
/// converted value of the pair whose key is k.
pub proof fn law_legacy_array_exactly_for_dense_keys(t: LuaTable)
    requires
        legacy_table_supported(t),
    ensures
        legacy_table(t) is Ok,
        (legacy_table(t)->Ok_0 is Array) <==> dense_indices(key_indices(t.pairs@)),
        legacy_table(t)->Ok_0 matches TypstV::Array(a) ==> {
            &&& a.len() == t.pairs@.len()
            &&& forall|i: int|
                0 <= i < t.pairs@.len() ==> match key_as_index(#[trigger] t.pairs@[i].0) {
                    Some(k) => legacy_value(t.pairs@[i].1) == Ok::<TypstV, LuaErrorV>(a[k - 1]),
                    None => false,
                }
        },
{
    lemma_legacy_table_converts(t);
    let p = t.pairs@;
    let ix = key_indices(p);
    assert(p.take(p.len() as int) =~= p);
    lemma_legacy_prefix(p, p.len() as int);
    if dense_indices(ix) {
        let vals = legacy_fold(p)->Ok_0.1;
        let a = in_index_order(ix, vals);
        assert forall|i: int| 0 <= i < p.len() implies match key_as_index(#[trigger] p[i].0) {
            Some(k) => legacy_value(p[i].1) == Ok::<TypstV, LuaErrorV>(a[k - 1]),
            None => false,
        } by {
            assert(ix[i] == key_as_index(p[i].0));
            let k = ix[i]->0;
            assert(1 <= k <= p.len());
            assert(index_occurs(ix, k as int));
            let q = position_of(ix, k as int);
            assert(ix[q] == ix[i]);
            assert(q == i);
            assert(a[k - 1] == vals[q]);
        }
    }
}

} // verus!
