//! Scenario tests: variables resolved from simulated target memory and
//! rendered for the user.

use varcache::cache::VariableCache;
use varcache::error::DebugError;
use varcache::location::VariableLocation;
use varcache::memory::{MemoryInterface, SimulatedMemory};
use varcache::types::{VariableName, VariableNodeType, VariableValue};
use varcache::variable::Variable;
use varcache::vtype::VariableType;

fn named(name: &str) -> VariableName {
    VariableName::Named(name.to_string())
}

fn base_var(name: &str, base_type: &str, address: u32) -> Variable {
    let mut v = Variable::new(None, None);
    v.name = named(name);
    v.variable_type = VariableType::Base(base_type.to_string());
    v.memory_location = VariableLocation::Address(address);
    v.variable_node_type = VariableNodeType::RecurseToBaseType;
    v
}

#[test]
fn scalar_root_formats_with_name_and_type() {
    let mut mem = SimulatedMemory::new(0x2000_0000, vec![0x2a, 0, 0, 0]);
    let mut cache = VariableCache::new();
    let a = cache
        .cache_variable(None, base_var("a", "u32", 0x2000_0000), &mut mem)
        .unwrap();
    assert!(matches!(&a.value, VariableValue::Valid(t) if t == "42"));
    assert_eq!(a.formatted_variable_value(&cache, 0, true), "a: u32 = 42");
    assert_eq!(a.get_value(&cache), "42");
}

#[test]
fn update_value_writes_back_and_rereads() {
    let mut mem = SimulatedMemory::new(0x2000_0000, vec![0x2a, 0, 0, 0]);
    let mut cache = VariableCache::new();
    let a = cache
        .cache_variable(None, base_var("a", "u32", 0x2000_0000), &mut mem)
        .unwrap();
    let updated = a.update_value(&mut mem, &mut cache, "100".to_string()).unwrap();
    assert_eq!(updated, "100");
    assert_eq!(mem.read_word_32(0x2000_0000).unwrap(), 100);
    // the cache sees the write immediately
    let stored = cache.get_variable_by_key(a.variable_key).unwrap();
    assert!(matches!(&stored.value, VariableValue::Valid(t) if t == "100"));
    // a fresh variable at the same address decodes the written bytes
    let b = cache
        .cache_variable(None, base_var("b", "u32", 0x2000_0000), &mut mem)
        .unwrap();
    assert_eq!(b.get_value(&cache), "100");
}

#[test]
fn tuple_struct_formats_as_tuple() {
    let mut mem = SimulatedMemory::new(0x2000_0000, vec![3, 0, 0, 0, 4, 0, 0, 0]);
    let mut cache = VariableCache::new();
    let mut s = Variable::new(None, None);
    s.name = named("S");
    s.variable_type = VariableType::Struct("Point".to_string());
    s.memory_location = VariableLocation::Address(0x2000_0000);
    let s = cache.cache_variable(None, s, &mut mem).unwrap();
    cache
        .cache_variable(Some(s.variable_key), base_var("__0", "u32", 0x2000_0000), &mut mem)
        .unwrap();
    cache
        .cache_variable(Some(s.variable_key), base_var("__1", "u32", 0x2000_0004), &mut mem)
        .unwrap();
    assert_eq!(s.get_value(&cache), "S: Point(u32) = Point(\n\t3, \n\t4)");
}

#[test]
fn childless_struct_formats_as_bare_name() {
    let mut mem = SimulatedMemory::new(0, vec![]);
    let mut cache = VariableCache::new();
    let mut v = Variable::new(None, None);
    v.name = named("V");
    v.variable_type = VariableType::Struct("None".to_string());
    v.memory_location = VariableLocation::Address(0x10);
    let v = cache.cache_variable(None, v, &mut mem).unwrap();
    assert_eq!(v.formatted_variable_value(&cache, 0, true), "V");
    // without children the user-visible value falls back to the idiomatic
    // `None` of an Option
    assert_eq!(v.get_value(&cache), "None");
}

#[test]
fn deferred_pointer_shows_placeholder() {
    let mut mem = SimulatedMemory::new(0, vec![]);
    let mut cache = VariableCache::new();
    let mut p = Variable::new(None, None);
    p.name = named("P");
    p.variable_type = VariableType::Pointer(Some("&Foo".to_string()));
    p.variable_node_type = VariableNodeType::ReferenceOffset(0x77);
    p.memory_location = VariableLocation::Address(0xdead_beef);
    let p = cache.cache_variable(None, p, &mut mem).unwrap();
    assert!(matches!(&p.value, VariableValue::Valid(t) if t == "&Foo @ 0xDEADBEEF"));
    assert_eq!(p.get_value(&cache), "&Foo @ 0xDEADBEEF");
    assert!(cache.get_children(Some(p.variable_key)).unwrap().is_empty());
}

#[test]
fn array_formats_children_without_names() {
    let mut mem = SimulatedMemory::new(0x100, vec![7, 9]);
    let mut cache = VariableCache::new();
    let mut arr = Variable::new(None, None);
    arr.name = named("xs");
    arr.variable_type = VariableType::Array {
        entry_type: named("u8"),
        count: 2,
    };
    arr.memory_location = VariableLocation::Address(0x100);
    let arr = cache.cache_variable(None, arr, &mut mem).unwrap();
    cache
        .cache_variable(Some(arr.variable_key), base_var("__0", "u8", 0x100), &mut mem)
        .unwrap();
    cache
        .cache_variable(Some(arr.variable_key), base_var("__1", "u8", 0x101), &mut mem)
        .unwrap();
    assert_eq!(arr.get_value(&cache), "xs: [u8; 2] = [\n\t7, \n\t9]");
}

#[test]
fn str_codec_reads_utf8_bytes() {
    let mut mem = SimulatedMemory::new(0x2000_1000, b"Hello".to_vec());
    let mut cache = VariableCache::new();

    let mut s = Variable::new(None, None);
    s.name = named("msg");
    s.variable_type = VariableType::Struct("&str".to_string());
    s.memory_location = VariableLocation::Address(0x4000_0000);
    let s = cache.cache_variable(None, s, &mut mem).unwrap();

    let mut length = Variable::new(None, None);
    length.name = named("length");
    length.variable_type = VariableType::Base("usize".to_string());
    length.memory_location = VariableLocation::Value;
    length.value = VariableValue::Valid("5".to_string());
    cache.cache_variable(Some(s.variable_key), length, &mut mem).unwrap();

    let mut data_ptr = Variable::new(None, None);
    data_ptr.name = named("data_ptr");
    data_ptr.variable_type = VariableType::Pointer(Some("*const u8".to_string()));
    data_ptr.memory_location = VariableLocation::Value;
    let data_ptr = cache
        .cache_variable(Some(s.variable_key), data_ptr, &mut mem)
        .unwrap();

    let mut pointee = Variable::new(None, None);
    pointee.name = named("*data_ptr");
    pointee.variable_type = VariableType::Base("u8".to_string());
    pointee.memory_location = VariableLocation::Address(0x2000_1000);
    pointee.value = VariableValue::Valid("72".to_string());
    cache
        .cache_variable(Some(data_ptr.variable_key), pointee, &mut mem)
        .unwrap();

    let mut again = cache.get_variable_by_key(s.variable_key).unwrap();
    again.value = VariableValue::Empty;
    let resolved = cache.cache_variable(None, again, &mut mem).unwrap();
    assert!(matches!(&resolved.value, VariableValue::Valid(t) if t == "Hello"));
    assert_eq!(resolved.get_value(&cache), "Hello");
}

#[test]
fn str_codec_truncates_very_long_strings() {
    let mut mem = SimulatedMemory::new(0x2000_1000, vec![b'a'; 250]);
    let mut cache = VariableCache::new();

    let mut s = Variable::new(None, None);
    s.name = named("msg");
    s.variable_type = VariableType::Struct("&str".to_string());
    s.memory_location = VariableLocation::Address(0x4000_0000);
    let s = cache.cache_variable(None, s, &mut mem).unwrap();

    let mut length = Variable::new(None, None);
    length.name = named("length");
    length.variable_type = VariableType::Base("usize".to_string());
    length.memory_location = VariableLocation::Value;
    length.value = VariableValue::Valid("1000".to_string());
    cache.cache_variable(Some(s.variable_key), length, &mut mem).unwrap();

    let mut data_ptr = Variable::new(None, None);
    data_ptr.name = named("data_ptr");
    data_ptr.variable_type = VariableType::Pointer(Some("*const u8".to_string()));
    data_ptr.memory_location = VariableLocation::Value;
    let data_ptr = cache
        .cache_variable(Some(s.variable_key), data_ptr, &mut mem)
        .unwrap();

    let mut pointee = Variable::new(None, None);
    pointee.name = named("*data_ptr");
    pointee.variable_type = VariableType::Base("u8".to_string());
    pointee.memory_location = VariableLocation::Address(0x2000_1000);
    pointee.value = VariableValue::Valid("97".to_string());
    cache
        .cache_variable(Some(data_ptr.variable_key), pointee, &mut mem)
        .unwrap();

    let mut again = cache.get_variable_by_key(s.variable_key).unwrap();
    again.value = VariableValue::Empty;
    let resolved = cache.cache_variable(None, again, &mut mem).unwrap();
    match &resolved.value {
        VariableValue::Valid(t) => assert_eq!(t.len(), 200),
        other => panic!("expected a valid value, got {:?}", other),
    }
}

#[test]
fn set_value_concatenates_error_text() {
    let mut v = Variable::new(None, None);
    v.set_value(VariableValue::Error("first".to_string()));
    v.set_value(VariableValue::Error("second".to_string()));
    assert!(matches!(&v.value, VariableValue::Error(t) if t == "< first > : < second >"));
    // a valid value replaces any error
    v.set_value(VariableValue::Valid("7".to_string()));
    assert!(matches!(&v.value, VariableValue::Valid(t) if t == "7"));
}

#[test]
fn update_value_rejects_bad_inputs() {
    let mut mem = SimulatedMemory::new(0x2000_0000, vec![0; 4]);
    let mut cache = VariableCache::new();
    let a = cache
        .cache_variable(None, base_var("a", "u32", 0x2000_0000), &mut mem)
        .unwrap();

    // unparsable text
    let r = a.update_value(&mut mem, &mut cache, "not a number".to_string());
    assert!(matches!(r, Err(DebugError::DecodeFailed(_))));

    // pointer dereference
    let p = cache
        .cache_variable(None, base_var("*ptr", "u32", 0x2000_0000), &mut mem)
        .unwrap();
    let r = p.update_value(&mut mem, &mut cache, "1".to_string());
    assert!(matches!(r, Err(DebugError::UnsupportedPointerWrite)));

    // unknown type
    let mut u = Variable::new(None, None);
    u.name = named("u");
    u.memory_location = VariableLocation::Address(0x2000_0000);
    let u = cache.cache_variable(None, u, &mut mem).unwrap();
    let r = u.update_value(&mut mem, &mut cache, "1".to_string());
    assert!(matches!(r, Err(DebugError::Unwritable)));

    // a type outside the scalar registry
    let f = cache
        .cache_variable(None, base_var("f", "f32", 0x2000_0000), &mut mem)
        .unwrap();
    let r = f.update_value(&mut mem, &mut cache, "1".to_string());
    assert!(matches!(r, Err(DebugError::UnsupportedType(_))));

    // strings are read-only
    let mut s = Variable::new(None, None);
    s.name = named("s");
    s.variable_type = VariableType::Struct("&str".to_string());
    s.memory_location = VariableLocation::Address(0x2000_0000);
    let s = cache.cache_variable(None, s, &mut mem).unwrap();
    let r = s.update_value(&mut mem, &mut cache, "x".to_string());
    assert!(matches!(r, Err(DebugError::UnsupportedWrite)));

    // a write outside the mapped memory fails on the transport
    let mut far = cache
        .cache_variable(None, base_var("far", "u32", 0x9000_0000), &mut mem)
        .unwrap();
    far.value = VariableValue::Valid("0".to_string());
    let r = far.update_value(&mut mem, &mut cache, "1".to_string());
    assert!(matches!(r, Err(DebugError::MemoryIO(_))));
}

#[test]
fn is_indexed_requires_two_underscores_and_digit() {
    let mut v = Variable::new(None, None);
    v.name = named("__0");
    assert!(v.is_indexed());
    v.name = named("__12");
    assert!(v.is_indexed());
    v.name = named("__x");
    assert!(!v.is_indexed());
    v.name = named("_0");
    assert!(!v.is_indexed());
    v.name = named("plain");
    assert!(!v.is_indexed());
    v.name = VariableName::Unknown;
    assert!(!v.is_indexed());
}

#[test]
fn ok_struct_formats_with_repeated_type() {
    let mut mem = SimulatedMemory::new(0x100, vec![42, 0, 0, 0]);
    let mut cache = VariableCache::new();
    let mut r = Variable::new(None, None);
    r.name = named("r");
    r.variable_type = VariableType::Struct("Ok<u32>".to_string());
    r.memory_location = VariableLocation::Address(0x100);
    let r = cache.cache_variable(None, r, &mut mem).unwrap();
    cache
        .cache_variable(Some(r.variable_key), base_var("__0", "u32", 0x100), &mut mem)
        .unwrap();
    assert_eq!(r.get_value(&cache), "r: Ok<u32> = Ok<u32>(\n\t42)");
}

#[test]
fn pointer_formats_its_first_child() {
    let mut mem = SimulatedMemory::new(0x100, vec![42, 0, 0, 0]);
    let mut cache = VariableCache::new();
    let mut p = Variable::new(None, None);
    p.name = named("p");
    p.variable_type = VariableType::Pointer(Some("&u32".to_string()));
    p.memory_location = VariableLocation::Address(0x200);
    let p = cache.cache_variable(None, p, &mut mem).unwrap();
    cache
        .cache_variable(Some(p.variable_key), base_var("*p", "u32", 0x100), &mut mem)
        .unwrap();
    assert_eq!(p.get_value(&cache), "\n\t*p: u32 = 42");
}

#[test]
fn named_struct_members_format_with_names() {
    let mut mem = SimulatedMemory::new(0x100, vec![1, 2]);
    let mut cache = VariableCache::new();
    let mut cfg = Variable::new(None, None);
    cfg.name = named("cfg");
    cfg.variable_type = VariableType::Struct("Config".to_string());
    cfg.memory_location = VariableLocation::Address(0x100);
    let cfg = cache.cache_variable(None, cfg, &mut mem).unwrap();
    cache
        .cache_variable(Some(cfg.variable_key), base_var("x", "u8", 0x100), &mut mem)
        .unwrap();
    cache
        .cache_variable(Some(cfg.variable_key), base_var("y", "u8", 0x101), &mut mem)
        .unwrap();
    assert_eq!(cfg.get_value(&cache), "Config {\n\tx: u8 = 1, \n\ty: u8 = 2}");
    assert_eq!(
        cfg.formatted_variable_value(&cache, 0, true),
        "cfg: Config = Config {\n\tx: u8 = 1, \n\ty: u8 = 2}"
    );
}

#[test]
fn namespaces_render_as_nothing() {
    let mut mem = SimulatedMemory::new(0, vec![]);
    let mut cache = VariableCache::new();
    let mut ns = Variable::new(None, None);
    ns.name = VariableName::Namespace("core".to_string());
    let ns = cache.cache_variable(None, ns, &mut mem).unwrap();
    assert_eq!(ns.get_value(&cache), "");
    let mut anon = Variable::new(None, None);
    anon.name = VariableName::AnonymousNamespace;
    let anon = cache.cache_variable(None, anon, &mut mem).unwrap();
    assert_eq!(anon.get_value(&cache), "");
}

#[test]
fn unit_and_never_types_have_fixed_values() {
    let mut mem = SimulatedMemory::new(0x100, vec![0]);
    let mut cache = VariableCache::new();
    let unit = cache
        .cache_variable(None, base_var("u", "()", 0x100), &mut mem)
        .unwrap();
    assert!(matches!(&unit.value, VariableValue::Valid(t) if t == "()"));
    let never = cache
        .cache_variable(None, base_var("n", "!", 0x100), &mut mem)
        .unwrap();
    assert!(matches!(&never.value, VariableValue::Valid(t) if t == "<Never returns>"));
}
