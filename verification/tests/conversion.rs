use typst_lua::lua::{LuaError, LuaHandle, LuaNumber, LuaTable, LuaValue};
use typst_lua::value::{TypstDict, TypstValue};
use typst_lua::convert::inputs_from_lua;
use typst_lua::text::{bool_to_text, i64_text, u32_text, utf8_text};

fn lint(i: i64) -> LuaValue {
    LuaValue::Integer(i)
}

fn lstr(s: &str) -> LuaValue {
    LuaValue::String(s.as_bytes().to_vec())
}

fn number(n: f64) -> LuaValue {
    LuaValue::Number(LuaNumber {
        bits: n.to_bits(),
        integral: if n.fract() == 0.0 { Some(n as i64) } else { None },
        text: n.to_string(),
    })
}

fn table_of(pairs: Vec<(LuaValue, LuaValue)>) -> LuaTable {
    LuaTable { pairs, debug: "Table(Ref(0x10))".to_string(), display: "table: 0x10".to_string() }
}

fn table(pairs: Vec<(LuaValue, LuaValue)>) -> LuaValue {
    LuaValue::Table(table_of(pairs))
}

fn handle(kind: &str, debug: &str, display: &str) -> LuaHandle {
    LuaHandle { kind: kind.to_string(), debug: debug.to_string(), display: display.to_string() }
}

fn tstr(s: &str) -> TypstValue {
    TypstValue::Str(s.to_string())
}

fn dict(entries: Vec<(&str, TypstValue)>) -> TypstDict {
    let mut d = TypstDict::new();
    for (k, v) in entries {
        d.insert(k.to_string(), v);
    }
    d
}

#[test]
fn dense_sequence_becomes_array() {
    // local data = {1, 2, 3, 4}
    let t = table(vec![(lint(1), lint(1)), (lint(2), lint(2)), (lint(3), lint(3)), (lint(4), lint(4))]);
    assert_eq!(
        t.to_typst(),
        Ok(TypstValue::Array(vec![
            TypstValue::Int(1),
            TypstValue::Int(2),
            TypstValue::Int(3),
            TypstValue::Int(4)
        ]))
    );
}

#[test]
fn explicit_dense_keys_become_array() {
    // local data = {[1] = "a", [2] = "b", [3] = "c"}
    let t = table(vec![(lint(1), lstr("a")), (lint(2), lstr("b")), (lint(3), lstr("c"))]);
    assert_eq!(t.to_typst(), Ok(TypstValue::Array(vec![tstr("a"), tstr("b"), tstr("c")])));
}

#[test]
fn gap_in_keys_becomes_dictionary() {
    // local data = {[1] = 1, [2] = 2, [4] = 4}
    let t = table(vec![(lint(1), lint(1)), (lint(2), lint(2)), (lint(4), lint(4))]);
    let expected = dict(vec![("1", TypstValue::Int(1)), ("2", TypstValue::Int(2)), ("4", TypstValue::Int(4))]);
    assert_eq!(t.to_typst(), Ok(TypstValue::Dict(expected)));
}

#[test]
fn named_keys_become_dictionary() {
    // local data = {name = "Alice", age = 30}
    let t = table(vec![(lstr("name"), lstr("Alice")), (lstr("age"), lint(30))]);
    let expected = dict(vec![("name", tstr("Alice")), ("age", TypstValue::Int(30))]);
    assert_eq!(t.to_typst(), Ok(TypstValue::Dict(expected)));
}

#[test]
fn mixed_keys_keep_the_index_entries() {
    // local data = {[1] = "first", name = "Alice"}
    let t = table(vec![(lint(1), lstr("first")), (lstr("name"), lstr("Alice"))]);
    let expected = dict(vec![("1", tstr("first")), ("name", tstr("Alice"))]);
    assert_eq!(t.to_typst(), Ok(TypstValue::Dict(expected)));
}

#[test]
fn empty_table_becomes_empty_array() {
    assert_eq!(table(vec![]).to_typst(), Ok(TypstValue::Array(vec![])));
}

#[test]
fn dense_keys_walked_out_of_order_become_array_ordered_by_key() {
    // Keys exactly {1, 2}, walked as 2 then 1.
    let t = table(vec![(lint(2), lstr("b")), (lint(1), lstr("a"))]);
    assert_eq!(t.to_typst(), Ok(TypstValue::Array(vec![tstr("a"), tstr("b")])));
}

#[test]
fn shuffled_dense_keys_become_array_ordered_by_key() {
    let t = table(vec![(lint(3), lstr("c")), (number(1.0), lstr("a")), (lint(2), lstr("b"))]);
    assert_eq!(t.to_typst(), Ok(TypstValue::Array(vec![tstr("a"), tstr("b"), tstr("c")])));
}

#[test]
fn keys_not_starting_at_one_become_dictionary() {
    let t = table(vec![(lint(2), lstr("b")), (lint(3), lstr("c"))]);
    let expected = dict(vec![("2", tstr("b")), ("3", tstr("c"))]);
    assert_eq!(t.to_typst(), Ok(TypstValue::Dict(expected)));
}

#[test]
fn repeated_index_is_not_a_sequence() {
    // Two pairs whose keys both stand for 1: not the indices 1 and 2.
    let t = table(vec![(lint(1), lstr("a")), (number(1.0), lstr("b"))]);
    assert_eq!(t.to_typst(), Ok(TypstValue::Dict(dict(vec![("1", tstr("b"))]))));
}

#[test]
fn inputs_of_shuffled_dense_keys_map_indices_to_values() {
    let data = table(vec![(lint(2), lstr("b")), (lint(1), lstr("a"))]);
    assert_eq!(inputs_from_lua(&data), Ok(Some(dict(vec![("2", tstr("b")), ("1", tstr("a"))]))));
}

#[test]
fn integral_float_keys_count_as_indices() {
    let t = table(vec![(number(1.0), lstr("a")), (number(2.0), lstr("b"))]);
    assert_eq!(t.to_typst(), Ok(TypstValue::Array(vec![tstr("a"), tstr("b")])));
}

#[test]
fn fractional_float_key_is_refused() {
    let t = table(vec![(number(1.5), lstr("a"))]);
    assert_eq!(
        t.to_typst(),
        Err(LuaError::RuntimeError("Unsupported Lua table key: Number(1.5)".to_string()))
    );
}

#[test]
fn boolean_keys_render_as_words() {
    let t = table(vec![(LuaValue::Boolean(true), lint(1)), (LuaValue::Boolean(false), lint(0))]);
    let expected = dict(vec![("true", TypstValue::Int(1)), ("false", TypstValue::Int(0))]);
    assert_eq!(t.to_typst(), Ok(TypstValue::Dict(expected)));
}

#[test]
fn negative_index_key_renders_with_sign() {
    let t = table(vec![(lint(-7), lstr("x"))]);
    assert_eq!(t.to_typst(), Ok(TypstValue::Dict(dict(vec![("-7", tstr("x"))]))));
}

#[test]
fn repeated_key_keeps_its_place_and_takes_the_last_value() {
    let t = table(vec![(lint(1), lstr("a")), (lstr("x"), lstr("y")), (lstr("1"), lstr("b"))]);
    let d = match t.to_typst() {
        Ok(TypstValue::Dict(d)) => d,
        other => panic!("expected a dictionary, got {other:?}"),
    };
    assert_eq!(d.len(), 2);
    assert_eq!(d.entries[0], ("1".to_string(), tstr("b")));
    assert_eq!(d.entries[1], ("x".to_string(), tstr("y")));
}

#[test]
fn nested_tables_follow_the_same_rule() {
    let inner_array = table(vec![(lint(1), lint(10)), (lint(2), lint(20))]);
    let inner_dict = table(vec![(lstr("k"), LuaValue::Boolean(true))]);
    let t = table(vec![(lstr("list"), inner_array), (lstr("map"), inner_dict)]);
    let expected = dict(vec![
        ("list", TypstValue::Array(vec![TypstValue::Int(10), TypstValue::Int(20)])),
        ("map", TypstValue::Dict(dict(vec![("k", TypstValue::Bool(true))]))),
    ]);
    assert_eq!(t.to_typst(), Ok(TypstValue::Dict(expected)));
}

#[test]
fn scalar_values_convert() {
    assert_eq!(LuaValue::Nil.to_typst(), Ok(TypstValue::Nothing));
    assert_eq!(LuaValue::Boolean(false).to_typst(), Ok(TypstValue::Bool(false)));
    assert_eq!(lint(-3).to_typst(), Ok(TypstValue::Int(-3)));
    assert_eq!(number(2.5).to_typst(), Ok(TypstValue::Float(2.5f64.to_bits())));
    assert_eq!(lstr("héllo").to_typst(), Ok(tstr("héllo")));
}

#[test]
fn non_utf8_string_value_becomes_bytes() {
    let v = LuaValue::String(vec![0x66, 0xff, 0x6f]);
    assert_eq!(v.to_typst(), Ok(TypstValue::Bytes(vec![0x66, 0xff, 0x6f])));
}

#[test]
fn non_utf8_string_key_is_refused() {
    let t = table(vec![(LuaValue::String(vec![0xff]), lint(1))]);
    let detail = std::str::from_utf8(&[0xffu8]).unwrap_err().to_string();
    assert_eq!(
        t.to_typst(),
        Err(LuaError::FromLuaConversionError {
            from: "string".to_string(),
            to: "&str".to_string(),
            message: Some(detail),
        })
    );
}

#[test]
fn userdata_value_is_refused() {
    let t = table(vec![(lstr("u"), LuaValue::UserData(handle("userdata", "UserData(Ref(0x20))", "userdata: 0x20")))]);
    assert_eq!(
        t.to_typst(),
        Err(LuaError::RuntimeError("Lua userdata cannot be converted to Typst value".to_string()))
    );
}

#[test]
fn function_value_is_refused_with_its_rendering() {
    let f = LuaValue::Other(handle("function", "Function(Ref(0x30))", "function: 0x30"));
    assert_eq!(
        f.to_typst(),
        Err(LuaError::RuntimeError("Unsupported Lua value: Function(Ref(0x30))".to_string()))
    );
}

#[test]
fn table_key_is_refused_with_its_rendering() {
    let t = table(vec![(table(vec![]), lint(1))]);
    assert_eq!(
        t.to_typst(),
        Err(LuaError::RuntimeError("Unsupported Lua table key: Table(Ref(0x10))".to_string()))
    );
}

#[test]
fn value_error_comes_before_key_error() {
    let f = LuaValue::Other(handle("function", "Function(Ref(0x30))", "function: 0x30"));
    let t = table(vec![(LuaValue::Nil, f)]);
    assert_eq!(
        t.to_typst(),
        Err(LuaError::RuntimeError("Unsupported Lua value: Function(Ref(0x30))".to_string()))
    );
}

#[test]
fn inputs_of_a_named_table_are_its_dictionary() {
    // typst.compile("helloworld.typ", { who = "World!" })
    let data = table(vec![(lstr("who"), lstr("World!"))]);
    assert_eq!(inputs_from_lua(&data), Ok(Some(dict(vec![("who", tstr("World!"))]))));
}

#[test]
fn inputs_of_a_dense_table_are_a_dictionary_of_indices() {
    let data = table(vec![(lint(1), lstr("a")), (lint(2), lstr("b"))]);
    assert_eq!(inputs_from_lua(&data), Ok(Some(dict(vec![("1", tstr("a")), ("2", tstr("b"))]))));
}

#[test]
fn inputs_of_a_non_table_are_absent() {
    assert_eq!(inputs_from_lua(&lstr("x")), Ok(None));
    assert_eq!(inputs_from_lua(&LuaValue::Nil), Ok(None));
}

#[test]
fn inputs_report_conversion_errors() {
    let data = table(vec![(table(vec![]), lint(1))]);
    assert_eq!(
        inputs_from_lua(&data),
        Err(LuaError::RuntimeError("Unsupported Lua table key: Table(Ref(0x10))".to_string()))
    );
}

#[test]
fn integers_render_in_decimal() {
    assert_eq!(i64_text(0), "0");
    assert_eq!(i64_text(1234), "1234");
    assert_eq!(i64_text(-5), "-5");
    assert_eq!(i64_text(i64::MIN), i64::MIN.to_string());
    assert_eq!(i64_text(i64::MAX), i64::MAX.to_string());
    assert_eq!(u32_text(u32::MAX), "4294967295");
}

#[test]
fn booleans_render_as_words() {
    assert_eq!(bool_to_text(true), "true");
    assert_eq!(bool_to_text(false), "false");
}

#[test]
fn utf8_decoding_checks_the_bytes() {
    assert_eq!(utf8_text("añb".as_bytes()), Ok("añb".to_string()));
    assert!(utf8_text(&[0xc3]).is_err());
}

#[test]
fn dictionary_insert_then_get() {
    let mut d = TypstDict::new();
    d.insert("a".to_string(), TypstValue::Int(1));
    d.insert("b".to_string(), TypstValue::Int(2));
    d.insert("a".to_string(), TypstValue::Int(3));
    assert_eq!(d.len(), 2);
    assert_eq!(d.get(&"a".to_string()), Some(&TypstValue::Int(3)));
    assert_eq!(d.get(&"b".to_string()), Some(&TypstValue::Int(2)));
    assert_eq!(d.get(&"c".to_string()), None);
    assert_eq!(d.entries[0].0, "a");
}

#[test]
fn cloned_values_are_equal() {
    let v = TypstValue::Array(vec![tstr("a"), TypstValue::Dict(dict(vec![("k", TypstValue::Bytes(vec![1, 2]))]))]);
    assert_eq!(v.clone(), v);
}
