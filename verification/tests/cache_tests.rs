//! Tests of the cache's structural operations: keys, parent/child
//! integrity, lookups, reparenting and recursive removal.

use varcache::cache::VariableCache;
use varcache::error::DebugError;
use varcache::memory::SimulatedMemory;
use varcache::types::{VariableName, VariableNodeType, VariableValue};
use varcache::variable::Variable;
use varcache::vtype::VariableType;

fn named(name: &str) -> VariableName {
    VariableName::Named(name.to_string())
}

fn bare(name: &str) -> Variable {
    let mut v = Variable::new(None, None);
    v.name = named(name);
    v
}

fn empty_mem() -> SimulatedMemory {
    SimulatedMemory::new(0, vec![])
}

#[test]
fn keys_are_strictly_increasing() {
    let mut mem = empty_mem();
    let mut cache = VariableCache::new();
    let a = cache.cache_variable(None, bare("a"), &mut mem).unwrap();
    let b = cache.cache_variable(None, bare("b"), &mut mem).unwrap();
    let c = cache
        .cache_variable(Some(a.variable_key), bare("c"), &mut mem)
        .unwrap();
    assert!(a.variable_key >= 1);
    assert!(a.variable_key < b.variable_key);
    assert!(b.variable_key < c.variable_key);
}

#[test]
fn every_parent_key_resolves_after_inserts() {
    let mut mem = empty_mem();
    let mut cache = VariableCache::new();
    let a = cache.cache_variable(None, bare("a"), &mut mem).unwrap();
    let b = cache
        .cache_variable(Some(a.variable_key), bare("b"), &mut mem)
        .unwrap();
    let c = cache
        .cache_variable(Some(b.variable_key), bare("c"), &mut mem)
        .unwrap();
    for v in [&a, &b, &c] {
        if let Some(p) = v.parent_key {
            assert!(cache.get_variable_by_key(p).is_some());
        }
    }
    assert_eq!(a.parent_key, None);
    assert_eq!(b.parent_key, Some(a.variable_key));
    assert_eq!(c.parent_key, Some(b.variable_key));
}

#[test]
fn insert_with_absent_parent_fails() {
    let mut mem = empty_mem();
    let mut cache = VariableCache::new();
    let r = cache.cache_variable(Some(999), bare("a"), &mut mem);
    assert!(matches!(r, Err(DebugError::BadParent(999))));
    assert!(cache.get_children(None).unwrap().is_empty());
}

#[test]
fn update_of_absent_key_fails() {
    let mut mem = empty_mem();
    let mut cache = VariableCache::new();
    let mut ghostly = bare("nobody");
    ghostly.variable_key = 123;
    let r = cache.cache_variable(None, ghostly, &mut mem);
    assert!(matches!(r, Err(DebugError::UnknownKey(123))));
}

#[test]
fn update_overwrites_in_place() {
    let mut mem = empty_mem();
    let mut cache = VariableCache::new();
    let a = cache.cache_variable(None, bare("a"), &mut mem).unwrap();
    let mut changed = a.clone();
    changed.name = named("renamed");
    changed.value = VariableValue::Valid("7".to_string());
    let stored = cache.cache_variable(None, changed, &mut mem).unwrap();
    assert_eq!(stored.variable_key, a.variable_key);
    let read_back = cache.get_variable_by_key(a.variable_key).unwrap();
    assert_eq!(read_back.name, named("renamed"));
    assert!(matches!(&read_back.value, VariableValue::Valid(t) if t == "7"));
    assert_eq!(cache.get_children(None).unwrap().len(), 1);
}

#[test]
fn children_come_back_sorted_by_key() {
    let mut mem = empty_mem();
    let mut cache = VariableCache::new();
    let root = cache.cache_variable(None, bare("root"), &mut mem).unwrap();
    for name in ["one", "two", "three", "four"] {
        cache
            .cache_variable(Some(root.variable_key), bare(name), &mut mem)
            .unwrap();
    }
    let children = cache.get_children(Some(root.variable_key)).unwrap();
    assert_eq!(children.len(), 4);
    for pair in children.windows(2) {
        assert!(pair[0].variable_key < pair[1].variable_key);
    }
    assert_eq!(children[0].name, named("one"));
    assert_eq!(children[3].name, named("four"));
    assert!(cache.has_children(&root).unwrap());
    assert!(!cache.has_children(&children[0]).unwrap());
}

#[test]
fn lookup_by_name_prefers_first_and_parent_scoped_prefers_last() {
    let mut mem = empty_mem();
    let mut cache = VariableCache::new();
    let root = cache.cache_variable(None, bare("root"), &mut mem).unwrap();
    let first = cache
        .cache_variable(Some(root.variable_key), bare("twin"), &mut mem)
        .unwrap();
    let second = cache
        .cache_variable(Some(root.variable_key), bare("twin"), &mut mem)
        .unwrap();
    let by_name = cache.get_variable_by_name(&named("twin")).unwrap();
    assert_eq!(by_name.variable_key, first.variable_key);
    let by_both = cache
        .get_variable_by_name_and_parent(&named("twin"), Some(root.variable_key))
        .unwrap();
    assert_eq!(by_both.variable_key, second.variable_key);
    assert!(cache.get_variable_by_name(&named("absent")).is_none());
    assert!(cache
        .get_variable_by_name_and_parent(&named("twin"), Some(second.variable_key))
        .is_none());
}

#[test]
fn remove_cache_entry_removes_whole_subtree() {
    let mut mem = empty_mem();
    let mut cache = VariableCache::new();
    let root = cache.cache_variable(None, bare("root"), &mut mem).unwrap();
    let child = cache
        .cache_variable(Some(root.variable_key), bare("child"), &mut mem)
        .unwrap();
    let grand = cache
        .cache_variable(Some(child.variable_key), bare("grand"), &mut mem)
        .unwrap();
    let other = cache.cache_variable(None, bare("other"), &mut mem).unwrap();

    cache.remove_cache_entry(root.variable_key).unwrap();
    assert!(cache.get_variable_by_key(root.variable_key).is_none());
    assert!(cache.get_variable_by_key(child.variable_key).is_none());
    assert!(cache.get_variable_by_key(grand.variable_key).is_none());
    assert!(cache.get_variable_by_key(other.variable_key).is_some());
    // no variable is left whose parent names the removed key
    for v in cache.get_children(None).unwrap() {
        assert_ne!(v.parent_key, Some(root.variable_key));
    }
}

#[test]
fn remove_of_absent_key_reports_remove_failed() {
    let mut mem = empty_mem();
    let mut cache = VariableCache::new();
    let r = cache.remove_cache_entry(55);
    assert!(matches!(r, Err(DebugError::RemoveFailed(55))));
}

#[test]
fn remove_children_keeps_the_entry_itself() {
    let mut mem = empty_mem();
    let mut cache = VariableCache::new();
    let root = cache.cache_variable(None, bare("root"), &mut mem).unwrap();
    let child = cache
        .cache_variable(Some(root.variable_key), bare("child"), &mut mem)
        .unwrap();
    let grand = cache
        .cache_variable(Some(child.variable_key), bare("grand"), &mut mem)
        .unwrap();
    cache.remove_cache_entry_children(root.variable_key).unwrap();
    assert!(cache.get_variable_by_key(root.variable_key).is_some());
    assert!(cache.get_variable_by_key(child.variable_key).is_none());
    assert!(cache.get_variable_by_key(grand.variable_key).is_none());
}

#[test]
fn adopt_grand_children_collapses_intermediate_node() {
    let mut mem = empty_mem();
    let mut cache = VariableCache::new();
    let p = cache.cache_variable(None, bare("P"), &mut mem).unwrap();
    // an intermediate node of unknown type
    let i = cache
        .cache_variable(Some(p.variable_key), bare("I"), &mut mem)
        .unwrap();
    assert!(matches!(i.variable_type, VariableType::Unknown));
    let c1 = cache
        .cache_variable(Some(i.variable_key), bare("c1"), &mut mem)
        .unwrap();
    let c2 = cache
        .cache_variable(Some(i.variable_key), bare("c2"), &mut mem)
        .unwrap();

    cache.adopt_grand_children(&p, &i).unwrap();
    assert!(cache.get_variable_by_key(i.variable_key).is_none());
    let c1_now = cache.get_variable_by_key(c1.variable_key).unwrap();
    let c2_now = cache.get_variable_by_key(c2.variable_key).unwrap();
    assert_eq!(c1_now.parent_key, Some(p.variable_key));
    assert_eq!(c2_now.parent_key, Some(p.variable_key));
    // the rest of the tree is untouched
    let p_now = cache.get_variable_by_key(p.variable_key).unwrap();
    assert_eq!(p_now.parent_key, None);
}

#[test]
fn adopt_grand_children_skips_do_not_recurse_nodes() {
    let mut mem = empty_mem();
    let mut cache = VariableCache::new();
    let p = cache.cache_variable(None, bare("P"), &mut mem).unwrap();
    let mut keeper = bare("keeper");
    keeper.variable_type = VariableType::Struct("Keep".to_string());
    keeper.variable_node_type = VariableNodeType::DoNotRecurse;
    let keeper = cache
        .cache_variable(Some(p.variable_key), keeper, &mut mem)
        .unwrap();
    let child = cache
        .cache_variable(Some(keeper.variable_key), bare("child"), &mut mem)
        .unwrap();
    cache.adopt_grand_children(&p, &keeper).unwrap();
    // nothing moved: the node is neither unknown nor marked for recursion
    assert!(cache.get_variable_by_key(keeper.variable_key).is_some());
    let child_now = cache.get_variable_by_key(child.variable_key).unwrap();
    assert_eq!(child_now.parent_key, Some(keeper.variable_key));
}

#[test]
fn caches_seeded_from_the_shared_counter_never_reuse_keys() {
    let mut mem = empty_mem();
    // the front end keeps one process-wide counter and seeds every cache
    // from it, so keys stay unambiguous across debug sessions
    let mut counter: i64 = 1;
    let mut one = VariableCache::new_from_mark(counter);
    let a = one.cache_variable(None, bare("a"), &mut mem).unwrap();
    let b = one.cache_variable(None, bare("b"), &mut mem).unwrap();
    counter = one.allocator_mark();
    let mut two = VariableCache::new_from_mark(counter);
    let c = two.cache_variable(None, bare("c"), &mut mem).unwrap();
    let d = two.cache_variable(None, bare("d"), &mut mem).unwrap();
    assert_eq!(a.variable_key, 1);
    assert_eq!(b.variable_key, 2);
    assert_eq!(c.variable_key, 3);
    assert_eq!(d.variable_key, 4);
    for key in [c.variable_key, d.variable_key] {
        assert!(one.get_variable_by_key(key).is_none());
    }
    for key in [a.variable_key, b.variable_key] {
        assert!(two.get_variable_by_key(key).is_none());
    }
}

#[test]
fn update_with_stale_parent_fails() {
    let mut mem = empty_mem();
    let mut cache = VariableCache::new();
    let root = cache.cache_variable(None, bare("root"), &mut mem).unwrap();
    let child = cache
        .cache_variable(Some(root.variable_key), bare("child"), &mut mem)
        .unwrap();
    // the kept clone goes stale when its parent is removed
    cache.remove_cache_entry(root.variable_key).unwrap();
    let fresh = cache.cache_variable(None, bare("fresh"), &mut mem).unwrap();
    let mut resubmit = child.clone();
    resubmit.variable_key = fresh.variable_key;
    let r = cache.cache_variable(None, resubmit, &mut mem);
    assert!(matches!(r, Err(DebugError::BadParent(k)) if k == root.variable_key));
    // the cached entry keeps its resolvable parent
    let fresh_now = cache.get_variable_by_key(fresh.variable_key).unwrap();
    assert_eq!(fresh_now.parent_key, None);
}
