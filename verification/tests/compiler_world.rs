use typst_lua::compiler::{bind_lua_data, typst_version, SystemWorld};
use typst_lua::value::TypstValue;

#[test]
fn version_is_the_one_compiled_with() {
    assert_eq!(typst_version(), "0.14.2");
}

#[test]
fn define_binds_and_rebinds() {
    let mut world = SystemWorld::new();
    world.define("x", &TypstValue::Int(1));
    world.define("y", &TypstValue::Bool(true));
    world.define("x", &TypstValue::Int(2));
    assert_eq!(world.defined.len(), 2);
    assert_eq!(world.defined.get(&"x".to_string()), Some(&TypstValue::Int(2)));
    assert_eq!(world.defined.entries[0].0, "x");
}

#[test]
fn lua_data_is_bound_only_when_present() {
    let mut world = SystemWorld::new();
    bind_lua_data(&mut world, &None);
    assert_eq!(world.defined.len(), 0);
    bind_lua_data(&mut world, &Some(TypstValue::Str("hi".to_string())));
    assert_eq!(world.defined.get(&"_LUADATA".to_string()), Some(&TypstValue::Str("hi".to_string())));
}
