use typst_lua::legacy::{legacy_data, lua_table_to_typst_value, lua_value_to_typst_value, update_data};
use typst_lua::lua::{LuaError, LuaHandle, LuaNumber, LuaTable, LuaValue};
use typst_lua::value::{TypstDict, TypstValue};

fn lint(i: i64) -> LuaValue {
    LuaValue::Integer(i)
}

fn lstr(s: &str) -> LuaValue {
    LuaValue::String(s.as_bytes().to_vec())
}

fn number(n: f64) -> LuaValue {
    LuaValue::Number(LuaNumber {
        bits: n.to_bits(),
        integral: if n.fract() == 0.0 { Some(n as i64) } else { None },
        text: n.to_string(),
    })
}

fn table_of(pairs: Vec<(LuaValue, LuaValue)>) -> LuaTable {
    LuaTable { pairs, debug: "Table(Ref(0x10))".to_string(), display: "table: 0x10".to_string() }
}

fn tstr(s: &str) -> TypstValue {
    TypstValue::Str(s.to_string())
}

fn dict(entries: Vec<(&str, TypstValue)>) -> TypstDict {
    let mut d = TypstDict::new();
    for (k, v) in entries {
        d.insert(k.to_string(), v);
    }
    d
}

#[test]
fn legacy_dense_table_becomes_array() {
    let t = table_of(vec![(lint(1), lstr("a")), (lint(2), lstr("b"))]);
    assert_eq!(lua_table_to_typst_value(&t), Ok(Some(TypstValue::Array(vec![tstr("a"), tstr("b")]))));
}

#[test]
fn legacy_mixed_table_keeps_every_pair() {
    // local data = {[1] = "first", name = "Alice"}
    let t = table_of(vec![(lint(1), lstr("first")), (lstr("name"), lstr("Alice"))]);
    let expected = dict(vec![("1", tstr("first")), ("name", tstr("Alice"))]);
    assert_eq!(lua_table_to_typst_value(&t), Ok(Some(TypstValue::Dict(expected))));
}

#[test]
fn legacy_large_integer_key_is_not_an_index() {
    // 4294967297 is not the first index, whatever its low bits.
    let t = table_of(vec![(lint(4294967297), lstr("x"))]);
    assert_eq!(lua_table_to_typst_value(&t), Ok(Some(TypstValue::Dict(dict(vec![("4294967297", tstr("x"))])))));
}

#[test]
fn legacy_fractional_float_key_renders_as_float() {
    let t = table_of(vec![(number(2.5), lstr("x"))]);
    assert_eq!(lua_table_to_typst_value(&t), Ok(Some(TypstValue::Dict(dict(vec![("2.5", tstr("x"))])))));
}

#[test]
fn legacy_fractional_float_key_is_not_an_index() {
    // 1.5 is not an integer, so not the first index.
    let t = table_of(vec![(number(1.5), lstr("x"))]);
    assert_eq!(lua_table_to_typst_value(&t), Ok(Some(TypstValue::Dict(dict(vec![("1.5", tstr("x"))])))));
}

#[test]
fn legacy_integral_float_keys_count_as_indices() {
    let t = table_of(vec![(number(1.0), lstr("a")), (number(2.0), lstr("b"))]);
    assert_eq!(lua_table_to_typst_value(&t), Ok(Some(TypstValue::Array(vec![tstr("a"), tstr("b")]))));
}

#[test]
fn legacy_dense_keys_walked_out_of_order_become_array_ordered_by_key() {
    let t = table_of(vec![(lint(2), lstr("b")), (lint(1), lstr("a"))]);
    assert_eq!(lua_table_to_typst_value(&t), Ok(Some(TypstValue::Array(vec![tstr("a"), tstr("b")]))));
}

#[test]
fn legacy_gap_in_keys_becomes_dictionary() {
    let t = table_of(vec![(lint(1), lint(1)), (lint(2), lint(2)), (lint(4), lint(4))]);
    let expected = dict(vec![("1", TypstValue::Int(1)), ("2", TypstValue::Int(2)), ("4", TypstValue::Int(4))]);
    assert_eq!(lua_table_to_typst_value(&t), Ok(Some(TypstValue::Dict(expected))));
}

#[test]
fn legacy_non_utf8_string_value_is_refused() {
    let v = LuaValue::String(vec![0xff]);
    let detail = std::str::from_utf8(&[0xffu8]).unwrap_err().to_string();
    assert_eq!(
        lua_value_to_typst_value(&v),
        Err(LuaError::FromLuaConversionError {
            from: "string".to_string(),
            to: "&str".to_string(),
            message: Some(detail),
        })
    );
}

#[test]
fn legacy_nil_value_is_refused() {
    assert_eq!(
        lua_value_to_typst_value(&LuaValue::Nil),
        Err(LuaError::ToLuaConversionError {
            from: "Unsupported type".to_string(),
            to: "Value".to_string(),
            message: Some("nil -- nil".to_string()),
        })
    );
}

#[test]
fn legacy_function_value_is_refused() {
    let f = LuaValue::Other(LuaHandle {
        kind: "function".to_string(),
        debug: "Function(Ref(0x30))".to_string(),
        display: "function: 0x30".to_string(),
    });
    assert_eq!(
        lua_value_to_typst_value(&f),
        Err(LuaError::ToLuaConversionError {
            from: "Unsupported type".to_string(),
            to: "Value".to_string(),
            message: Some("function: 0x30 -- function".to_string()),
        })
    );
}

#[test]
fn legacy_table_key_is_refused() {
    let t = table_of(vec![(LuaValue::Table(table_of(vec![])), lint(1))]);
    assert_eq!(
        lua_table_to_typst_value(&t),
        Err(LuaError::ToLuaConversionError {
            from: "Unsupported key type".to_string(),
            to: "String or Number".to_string(),
            message: Some("table: 0x10".to_string()),
        })
    );
}

#[test]
fn legacy_scalars_convert() {
    assert_eq!(lua_value_to_typst_value(&lint(7)), Ok(TypstValue::Int(7)));
    assert_eq!(lua_value_to_typst_value(&LuaValue::Boolean(true)), Ok(TypstValue::Bool(true)));
    assert_eq!(lua_value_to_typst_value(&number(0.25)), Ok(TypstValue::Float(0.25f64.to_bits())));
    assert_eq!(lua_value_to_typst_value(&lstr("ok")), Ok(tstr("ok")));
}

#[test]
fn update_data_tracks_the_sequence() {
    let mut arr = Vec::new();
    let mut map = TypstDict::new();
    let mut is_array = true;
    let mut expected = 1;
    assert_eq!(update_data(&mut arr, &mut map, &mut is_array, &mut expected, &lint(1), tstr("a")), Ok(()));
    assert!(is_array);
    assert_eq!(expected, 2);
    assert_eq!(arr, vec![tstr("a")]);
    assert_eq!(update_data(&mut arr, &mut map, &mut is_array, &mut expected, &lint(5), tstr("b")), Ok(()));
    assert!(!is_array);
    assert_eq!(expected, 3);
    assert_eq!(arr.len(), 1);
    assert_eq!(map, dict(vec![("1", tstr("a")), ("5", tstr("b"))]));
    assert_eq!(update_data(&mut arr, &mut map, &mut is_array, &mut expected, &LuaValue::Boolean(false), tstr("c")), Ok(()));
    assert_eq!(expected, 3);
    assert_eq!(map.len(), 3);
}

#[test]
fn legacy_data_only_for_tables() {
    let t = LuaValue::Table(table_of(vec![(lstr("who"), lstr("World!"))]));
    assert_eq!(legacy_data(&t), Ok(Some(TypstValue::Dict(dict(vec![("who", tstr("World!"))])))));
    assert_eq!(legacy_data(&lint(3)), Ok(None));
}

#[test]
fn update_data_compares_the_whole_integer_key() {
    let mut arr = Vec::new();
    let mut map = TypstDict::new();
    let mut is_array = true;
    let mut expected = 1;
    assert_eq!(update_data(&mut arr, &mut map, &mut is_array, &mut expected, &lint(4294967297), TypstValue::Int(7)), Ok(()));
    assert!(!is_array);
    assert!(arr.is_empty());
    assert_eq!(expected, 2);
    assert_eq!(map, dict(vec![("4294967297", TypstValue::Int(7))]));
}

#[test]
fn update_data_counts_a_float_only_when_integral() {
    let mut arr = Vec::new();
    let mut map = TypstDict::new();
    let mut is_array = true;
    let mut expected = 1;
    assert_eq!(update_data(&mut arr, &mut map, &mut is_array, &mut expected, &number(1.0), tstr("a")), Ok(()));
    assert!(is_array);
    assert_eq!(arr, vec![tstr("a")]);
    assert_eq!(update_data(&mut arr, &mut map, &mut is_array, &mut expected, &number(2.5), tstr("b")), Ok(()));
    assert!(!is_array);
    assert_eq!(expected, 3);
    assert_eq!(arr, vec![tstr("a")]);
    assert_eq!(map, dict(vec![("1", tstr("a")), ("2.5", tstr("b"))]));
}

#[test]
fn update_data_error_on_string_key_only_ends_the_sequence() {
    let mut arr = vec![tstr("a")];
    let mut map = dict(vec![("1", tstr("a"))]);
    let mut is_array = true;
    let mut expected = 2;
    let key = LuaValue::String(vec![0xff]);
    assert!(matches!(
        update_data(&mut arr, &mut map, &mut is_array, &mut expected, &key, tstr("b")),
        Err(LuaError::FromLuaConversionError { .. })
    ));
    assert!(!is_array);
    assert_eq!(arr, vec![tstr("a")]);
    assert_eq!(map, dict(vec![("1", tstr("a"))]));
    assert_eq!(expected, 2);
}

#[test]
fn update_data_error_on_other_key_changes_nothing() {
    let mut arr = vec![tstr("a")];
    let mut map = dict(vec![("1", tstr("a"))]);
    let mut is_array = true;
    let mut expected = 2;
    assert_eq!(
        update_data(&mut arr, &mut map, &mut is_array, &mut expected, &LuaValue::Nil, tstr("b")),
        Err(LuaError::ToLuaConversionError {
            from: "Unsupported key type".to_string(),
            to: "String or Number".to_string(),
            message: Some("nil".to_string()),
        })
    );
    assert!(is_array);
    assert_eq!(arr, vec![tstr("a")]);
    assert_eq!(map, dict(vec![("1", tstr("a"))]));
    assert_eq!(expected, 2);
}

#[test]
fn update_data_never_resumes_a_sequence() {
    let mut arr = Vec::new();
    let mut map = TypstDict::new();
    let mut is_array = true;
    let mut expected = 1;
    assert_eq!(update_data(&mut arr, &mut map, &mut is_array, &mut expected, &lstr("k"), tstr("a")), Ok(()));
    assert!(!is_array);
    assert_eq!(update_data(&mut arr, &mut map, &mut is_array, &mut expected, &lint(1), tstr("b")), Ok(()));
    assert!(!is_array);
    assert!(arr.is_empty());
    assert_eq!(expected, 2);
}

#[test]
fn legacy_repeated_rendered_key_keeps_its_place_and_takes_the_last_value() {
    // The integer 5 and the string "5" render alike.
    let t = table_of(vec![(lint(5), lstr("a")), (lstr("x"), lstr("y")), (lstr("5"), lstr("b"))]);
    let expected = dict(vec![("5", tstr("b")), ("x", tstr("y"))]);
    assert_eq!(lua_table_to_typst_value(&t), Ok(Some(TypstValue::Dict(expected))));
}

#[test]
fn legacy_nested_refused_value_fails_the_table() {
    let inner = LuaValue::Table(table_of(vec![(lint(1), LuaValue::Nil)]));
    let t = table_of(vec![(lint(1), inner)]);
    assert_eq!(
        lua_table_to_typst_value(&t),
        Err(LuaError::ToLuaConversionError {
            from: "Unsupported type".to_string(),
            to: "Value".to_string(),
            message: Some("nil -- nil".to_string()),
        })
    );
}
