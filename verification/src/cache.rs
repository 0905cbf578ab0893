//! The variable cache: the owner of every [`Variable`] of a debug session.
//!
//! The cache assigns unique, strictly increasing keys, enforces parent/child
//! integrity, and supports queries, in-place updates, collapsing of
//! intermediate nodes, and recursive deletion. Every read hands out a clone;
//! a caller re-submits a changed variable through
//! [`VariableCache::cache_variable`] to make the change last.

use vstd::prelude::*;
use vstd::string::StringExecFns;

use crate::error::DebugError;
use crate::extract::extract_outcome;
use crate::memory::MemoryInterface;
use crate::types::{name_eq_spec, VariableName};
use crate::variable::{same_but_value, Variable};

verus! {

/// Some entry of `entries` carries the key `k`.
pub open spec fn cache_contains_key(entries: Seq<Variable>, k: i64) -> bool {
    exists|i: int| 0 <= i < entries.len() && #[trigger] entries[i].variable_key == k
}

/// The position of the entry carrying key `k`.
pub open spec fn index_of_key(entries: Seq<Variable>, k: i64) -> int {
    choose|i: int| 0 <= i < entries.len() && #[trigger] entries[i].variable_key == k
}

/// The entry carrying key `k`.
pub open spec fn entry_for(entries: Seq<Variable>, k: i64) -> Variable {
    entries[index_of_key(entries, k)]
}

/// The entries whose parent is `parent_key`, in storage order (ascending by
/// key). With `parent_key == None` these are the roots of the tree.
pub open spec fn children_of(entries: Seq<Variable>, parent_key: Option<i64>) -> Seq<Variable> {
    entries.filter(|v: Variable| v.parent_key == parent_key)
}

/// The entries whose name equals `name`, in storage order.
pub open spec fn entries_named(entries: Seq<Variable>, name: VariableName) -> Seq<Variable> {
    entries.filter(|v: Variable| name_eq_spec(v.name, name))
}

/// The entries whose name equals `name` and whose parent is `parent_key`,
/// in storage order.
pub open spec fn entries_named_under(
    entries: Seq<Variable>,
    name: VariableName,
    parent_key: Option<i64>,
) -> Seq<Variable> {
    entries.filter(|v: Variable| name_eq_spec(v.name, name) && v.parent_key == parent_key)
}

/// `ks` together with the keys of all entries whose parent is in `ks`.
pub open spec fn child_step(entries: Seq<Variable>, ks: Set<i64>) -> Set<i64> {
    ks.union(
        Set::new(
            |k: i64|
                exists|i: int|
                    0 <= i < entries.len() && #[trigger] entries[i].variable_key == k
                        && entries[i].parent_key is Some && ks.contains(
                        entries[i].parent_key.unwrap(),
                    ),
        ),
    )
}

/// `base` closed under [`child_step`] `n` times.
pub open spec fn closure_n(entries: Seq<Variable>, base: Set<i64>, n: nat) -> Set<i64>
    decreases n,
{
    if n == 0 {
        base
    } else {
        child_step(entries, closure_n(entries, base, (n - 1) as nat))
    }
}

/// The key `k` with every key reachable from it through parent links:
/// the whole subtree that a recursive removal of `k` deletes.
pub open spec fn subtree_keys(entries: Seq<Variable>, k: i64) -> Set<i64> {
    closure_n(entries, Set::empty().insert(k), entries.len() + 1)
}

/// The keys of the direct children of `k`.
pub open spec fn direct_child_keys(entries: Seq<Variable>, k: i64) -> Set<i64> {
    Set::new(
        |c: i64|
            exists|i: int|
                0 <= i < entries.len() && #[trigger] entries[i].variable_key == c
                    && entries[i].parent_key == Some(k),
    )
}

/// Every key reachable from `k` through parent links, `k` itself excluded
/// (unless a parent cycle leads back to it): what removing only the
/// children of `k` deletes.
pub open spec fn descendant_keys(entries: Seq<Variable>, k: i64) -> Set<i64> {
    closure_n(entries, direct_child_keys(entries, k), entries.len() + 1)
}

/// `entries` with every child of `from_key` handed over to `to_key`.
pub open spec fn reparent_spec(entries: Seq<Variable>, from_key: i64, to_key: i64) -> Seq<
    Variable,
> {
    entries.map_values(
        |v: Variable|
            if v.parent_key == Some(from_key) {
                Variable { parent_key: Some(to_key), ..v }
            } else {
                v
            },
    )
}

/// Every entry's parent key, when present, names another entry.
pub open spec fn parents_valid(entries: Seq<Variable>) -> bool {
    forall|i: int|
        0 <= i < entries.len() && #[trigger] entries[i].parent_key is Some ==> cache_contains_key(
            entries,
            entries[i].parent_key.unwrap(),
        )
}

/// Stores the variables of one debug session, keyed by strictly increasing
/// non-zero keys; the view is the sequence of entries in key order.
///
/// Keys are meant to stay unique across every cache of the process, so that
/// they remain unambiguous in diagnostics: the allocator can be seeded from
/// a process-wide counter through [`VariableCache::new_from_mark`], and
/// [`lemma_disjoint_marks_share_no_keys`] shows that caches whose mark
/// ranges do not overlap never share a key. [`VariableCache::new`] starts
/// the sequence at key 1.
pub struct VariableCache {
    entries: Vec<Variable>,
    first_key: i64,
    next_key: i64,
}

impl View for VariableCache {
    type V = Seq<Variable>;

    closed spec fn view(&self) -> Seq<Variable> {
        self.entries@
    }
}

impl Default for VariableCache {
    fn default() -> (r: Self)
        ensures
            r@ == Seq::<Variable>::empty(),
            r.first_key_spec() == 1,
            r.next_key_spec() == 1,
            r.wf(),
    {
        VariableCache::new()
    }
}

impl VariableCache {
    /// The key the allocator will hand to the next interned variable.
    pub closed spec fn next_key_spec(&self) -> i64 {
        self.next_key
    }

    /// The mark the cache was created with: every key it ever assigns is at
    /// least this.
    pub closed spec fn first_key_spec(&self) -> i64 {
        self.first_key
    }

    /// The cache is well formed: keys lie between the starting mark and the
    /// allocator mark, and appear in strictly increasing storage order.
    pub open spec fn wf(&self) -> bool {
        &&& 1 <= self.first_key_spec() <= self.next_key_spec()
        &&& forall|i: int|
            0 <= i < self@.len() ==> self.first_key_spec()
                <= #[trigger] self@[i].variable_key < self.next_key_spec()
        &&& forall|i: int, j: int|
            0 <= i < j < self@.len() ==> self@[i].variable_key < self@[j].variable_key
    }

    /// Creates an empty cache; its allocator starts at key 1.
    pub fn new() -> (r: Self)
        ensures
            r@ == Seq::<Variable>::empty(),
            r.first_key_spec() == 1,
            r.next_key_spec() == 1,
            r.wf(),
    {
        VariableCache::new_from_mark(1)
    }

    /// Creates an empty cache whose allocator starts at `start`. Seeding
    /// each cache of the process from one shared, monotonically increasing
    /// counter keeps keys globally unambiguous: a cache never assigns a key
    /// below its starting mark, so caches with disjoint mark ranges never
    /// share a key (see [`lemma_disjoint_marks_share_no_keys`]).
    pub fn new_from_mark(start: i64) -> (r: Self)
        requires
            start >= 1,
        ensures
            r@ == Seq::<Variable>::empty(),
            r.first_key_spec() == start,
            r.next_key_spec() == start,
            r.wf(),
    {
        let r = VariableCache { entries: Vec::new(), first_key: start, next_key: start };
        proof {
            assert(r@ =~= Seq::<Variable>::empty());
        }
        r
    }

    /// The key the allocator will hand to the next interned variable; hand
    /// this to [`VariableCache::new_from_mark`] (or store it back into a
    /// process-wide counter) when a later cache must not reuse this one's
    /// keys.
    pub fn allocator_mark(&self) -> (r: i64)
        ensures
            r == self.next_key_spec(),
    {
        self.next_key
    }

    /// The number of variables the cache holds.
    pub fn entry_count(&self) -> (r: usize)
        ensures
            r == self@.len(),
    {
        self.entries.len()
    }

    /// Two positions holding the same key are the same position.
    proof fn lemma_key_at_most_once(&self, i: int, j: int)
        requires
            self.wf(),
            0 <= i < self@.len(),
            0 <= j < self@.len(),
            self@[i].variable_key == self@[j].variable_key,
        ensures
            i == j,
    {
    }

    /// Finds the position of the entry carrying `variable_key`.
    fn find_index(&self, variable_key: i64) -> (r: Option<usize>)
        requires
            self.wf(),
        ensures
            match r {
                Some(i) => i < self@.len() && self@[i as int].variable_key == variable_key && i
                    == index_of_key(self@, variable_key) && cache_contains_key(
                    self@,
                    variable_key,
                ),
                None => !cache_contains_key(self@, variable_key),
            },
    {
        let n = self.entries.len();
        let mut i: usize = 0;
        while i < n
            invariant
                0 <= i <= n,
                n == self@.len(),
                self.wf(),
                forall|j: int| 0 <= j < i ==> #[trigger] self@[j].variable_key != variable_key,
            decreases n - i,
        {
            if self.entries[i].variable_key == variable_key {
                proof {
                    let w = index_of_key(self@, variable_key);
                    assert(cache_contains_key(self@, variable_key));
                    self.lemma_key_at_most_once(i as int, w);
                }
                return Some(i);
            }
            i = i + 1;
        }
        None
    }

    /// Hands out a clone of the variable stored under `variable_key`.
    pub fn get_variable_by_key(&self, variable_key: i64) -> (r: Option<Variable>)
        requires
            self.wf(),
        ensures
            match r {
                Some(v) => cache_contains_key(self@, variable_key) && v == entry_for(
                    self@,
                    variable_key,
                ),
                None => !cache_contains_key(self@, variable_key),
            },
    {
        match self.find_index(variable_key) {
            Some(i) => Some(self.entries[i].clone()),
            None => None,
        }
    }

    /// Hands out clones of all children of `parent_key`, in ascending key
    /// order; with `None`, all roots of the tree.
    pub fn get_children(&self, parent_key: Option<i64>) -> (r: Result<Vec<Variable>, DebugError>)
        ensures
            r is Ok,
            r.unwrap()@ == children_of(self@, parent_key),
    {
        let n = self.entries.len();
        let mut out: Vec<Variable> = Vec::new();
        let mut i: usize = 0;
        proof {
            assert(self@.subrange(0, 0) =~= Seq::<Variable>::empty());
            assert(out@ =~= children_of(self@.subrange(0, 0), parent_key));
        }
        while i < n
            invariant
                0 <= i <= n,
                n == self@.len(),
                out@ == children_of(self@.subrange(0, i as int), parent_key),
            decreases n - i,
        {
            let ghost prefix = self@.subrange(0, i as int);
            let matches = option_key_eq(self.entries[i].parent_key, parent_key);
            if matches {
                out.push(self.entries[i].clone());
            }
            i = i + 1;
            proof {
                reveal(Seq::filter);
                assert(self@.subrange(0, i as int).drop_last() =~= prefix);
                assert(self@.subrange(0, i as int).last() == self@[i - 1]);
            }
        }
        proof {
            assert(self@.subrange(0, n as int) =~= self@);
        }
        Ok(out)
    }

    /// Whether the given variable has children in this cache.
    pub fn has_children(&self, parent_variable: &Variable) -> (r: Result<bool, DebugError>)
        ensures
            r is Ok,
            r.unwrap() == (children_of(self@, Some(parent_variable.variable_key)).len() != 0),
    {
        match self.get_children(Some(parent_variable.variable_key)) {
            Ok(children) => Ok(children.len() != 0),
            Err(e) => Err(e),
        }
    }

    /// Hands out a clone of the first entry (smallest key) carrying `name`,
    /// if any. A hierarchy may hold the same name under several parents.
    pub fn get_variable_by_name(&self, variable_name: &VariableName) -> (r: Option<Variable>)
        ensures
            match r {
                Some(v) => entries_named(self@, *variable_name).len() != 0 && v == entries_named(
                    self@,
                    *variable_name,
                ).first(),
                None => entries_named(self@, *variable_name).len() == 0,
            },
    {
        let n = self.entries.len();
        let mut found: Option<Variable> = None;
        let mut i: usize = 0;
        proof {
            assert(self@.subrange(0, 0) =~= Seq::<Variable>::empty());
        }
        while i < n
            invariant
                0 <= i <= n,
                n == self@.len(),
                match found {
                    Some(v) => entries_named(self@.subrange(0, i as int), *variable_name).len()
                        != 0 && v == entries_named(self@.subrange(0, i as int), *variable_name)
                        .first(),
                    None => entries_named(self@.subrange(0, i as int), *variable_name).len() == 0,
                },
            decreases n - i,
        {
            let ghost prefix = self@.subrange(0, i as int);
            if found.is_none() && self.entries[i].name == *variable_name {
                found = Some(self.entries[i].clone());
            }
            i = i + 1;
            proof {
                reveal(Seq::filter);
                assert(self@.subrange(0, i as int).drop_last() =~= prefix);
                assert(self@.subrange(0, i as int).last() == self@[i - 1]);
                crate::cache::lemma_filter_first_kept(
                    self@.subrange(0, i as int),
                    |v: Variable| name_eq_spec(v.name, *variable_name),
                );
            }
        }
        proof {
            assert(self@.subrange(0, n as int) =~= self@);
        }
        found
    }

    /// Hands out a clone of the last entry (largest key, hence last
    /// inserted) carrying `name` under `parent_key`, if any.
    pub fn get_variable_by_name_and_parent(
        &self,
        variable_name: &VariableName,
        parent_key: Option<i64>,
    ) -> (r: Option<Variable>)
        ensures
            match r {
                Some(v) => entries_named_under(self@, *variable_name, parent_key).len() != 0 && v
                    == entries_named_under(self@, *variable_name, parent_key).last(),
                None => entries_named_under(self@, *variable_name, parent_key).len() == 0,
            },
    {
        let n = self.entries.len();
        let mut found: Option<Variable> = None;
        let mut i: usize = 0;
        proof {
            assert(self@.subrange(0, 0) =~= Seq::<Variable>::empty());
        }
        while i < n
            invariant
                0 <= i <= n,
                n == self@.len(),
                match found {
                    Some(v) => entries_named_under(
                        self@.subrange(0, i as int),
                        *variable_name,
                        parent_key,
                    ).len() != 0 && v == entries_named_under(
                        self@.subrange(0, i as int),
                        *variable_name,
                        parent_key,
                    ).last(),
                    None => entries_named_under(
                        self@.subrange(0, i as int),
                        *variable_name,
                        parent_key,
                    ).len() == 0,
                },
            decreases n - i,
        {
            let ghost prefix = self@.subrange(0, i as int);
            let name_hit = self.entries[i].name == *variable_name;
            let parent_hit = option_key_eq(self.entries[i].parent_key, parent_key);
            if name_hit && parent_hit {
                found = Some(self.entries[i].clone());
            }
            i = i + 1;
            proof {
                reveal(Seq::filter);
                assert(self@.subrange(0, i as int).drop_last() =~= prefix);
                assert(self@.subrange(0, i as int).last() == self@[i - 1]);
            }
        }
        proof {
            assert(self@.subrange(0, n as int) =~= self@);
        }
        found
    }
}

/// The entries of `entries` whose key is not in `ks`, in storage order.
pub open spec fn without_keys(entries: Seq<Variable>, ks: Set<i64>) -> Seq<Variable> {
    entries.filter(|v: Variable| !ks.contains(v.variable_key))
}

/// The set of keys a key sequence holds.
pub open spec fn key_set(keys: Seq<i64>) -> Set<i64> {
    Set::new(|k: i64| keys.contains(k))
}

/// [`child_step`] restricted to the first `j` entries.
spec fn child_step_partial(entries: Seq<Variable>, ks: Set<i64>, j: int) -> Set<i64> {
    ks.union(
        Set::new(
            |k: i64|
                exists|i: int|
                    0 <= i < j && #[trigger] entries[i].variable_key == k
                        && entries[i].parent_key is Some && ks.contains(
                        entries[i].parent_key.unwrap(),
                    ),
        ),
    )
}

/// Filtering keeps the strict key order, and every kept element comes from
/// the original sequence.
pub proof fn lemma_filter_sorted(s: Seq<Variable>, pred: spec_fn(Variable) -> bool)
    requires
        forall|i: int, j: int| 0 <= i < j < s.len() ==> s[i].variable_key < s[j].variable_key,
    ensures
        forall|i: int, j: int|
            0 <= i < j < s.filter(pred).len() ==> s.filter(pred)[i].variable_key < s.filter(
                pred,
            )[j].variable_key,
        forall|i: int|
            #![trigger s.filter(pred)[i]]
            0 <= i < s.filter(pred).len() ==> exists|m: int|
                0 <= m < s.len() && s.filter(pred)[i] == s[m],
    decreases s.len(),
{
    reveal(Seq::filter);
    if s.len() > 0 {
        let sub = s.drop_last();
        lemma_filter_sorted(sub, pred);
        assert(forall|i: int|
            0 <= i < sub.len() ==> sub[i] == s[i] && #[trigger] sub[i].variable_key
                == s[i].variable_key);
        let f = s.filter(pred);
        if pred(s.last()) {
            assert(f == sub.filter(pred).push(s.last()));
            assert forall|i: int, j: int| 0 <= i < j < f.len() implies f[i].variable_key
                < f[j].variable_key by {
                if j < f.len() - 1 {
                } else {
                    let m = choose|m: int| 0 <= m < sub.len() && #[trigger] sub.filter(pred)[i]
                        == sub[m];
                    assert(f[i] == sub.filter(pred)[i]);
                    assert(f[j] == s.last());
                    assert(sub[m].variable_key < s.last().variable_key);
                }
            }
            assert forall|i: int| 0 <= i < f.len() implies exists|m: int|
                0 <= m < s.len() && #[trigger] f[i] == s[m] by {
                if i < f.len() - 1 {
                    let m = choose|m: int| 0 <= m < sub.len() && #[trigger] sub.filter(pred)[i]
                        == sub[m];
                    assert(f[i] == s[m]);
                } else {
                    assert(f[i] == s[s.len() - 1]);
                }
            }
        } else {
            assert(f == sub.filter(pred));
        }
    }
}

/// Appending `x` to a key list makes it hold exactly the old keys and `x`.
proof fn lemma_push_contains(s: Seq<i64>, x: i64, k: i64)
    ensures
        s.push(x).contains(k) <==> s.contains(k) || k == x,
{
    if s.push(x).contains(k) {
        let i = choose|i: int| 0 <= i < s.push(x).len() && s.push(x)[i] == k;
        if i < s.len() {
            assert(s[i] == k);
        }
    }
    if s.contains(k) {
        let i = choose|i: int| 0 <= i < s.len() && s[i] == k;
        assert(s.push(x)[i] == k);
    }
    if k == x {
        assert(s.push(x)[s.len() as int] == k);
    }
}

/// Tests whether the key list holds `k`.
fn keys_contain(keys: &Vec<i64>, k: i64) -> (r: bool)
    ensures
        r == keys@.contains(k),
{
    let n = keys.len();
    let mut i: usize = 0;
    while i < n
        invariant
            0 <= i <= n,
            n == keys@.len(),
            forall|j: int| 0 <= j < i ==> keys@[j] != k,
        decreases n - i,
    {
        if keys[i] == k {
            return true;
        }
        i = i + 1;
    }
    false
}

/// Copies a key list.
fn copy_keys(keys: &Vec<i64>) -> (r: Vec<i64>)
    ensures
        r@ == keys@,
{
    let n = keys.len();
    let mut out: Vec<i64> = Vec::new();
    let mut i: usize = 0;
    while i < n
        invariant
            0 <= i <= n,
            n == keys@.len(),
            out@ =~= keys@.subrange(0, i as int),
        decreases n - i,
    {
        out.push(keys[i]);
        proof {
            assert(out@ =~= keys@.subrange(0, i + 1));
        }
        i = i + 1;
    }
    proof {
        assert(out@ =~= keys@);
    }
    out
}

impl VariableCache {
    /// Computes one [`child_step`]: the keys of `acc` together with the
    /// keys of every entry whose parent is in `acc`.
    fn child_step_exec(&self, acc: &Vec<i64>) -> (r: Vec<i64>)
        ensures
            key_set(r@) == child_step(self@, key_set(acc@)),
    {
        let ghost entries0 = self@;
        let ghost ks = key_set(acc@);
        let n = self.entries.len();
        let mut next = copy_keys(acc);
        let mut j: usize = 0;
        proof {
            assert(key_set(next@) =~= child_step_partial(entries0, ks, 0));
        }
        while j < n
            invariant
                0 <= j <= n,
                n == entries0.len(),
                self@ == entries0,
                ks == key_set(acc@),
                key_set(next@) == child_step_partial(entries0, ks, j as int),
            decreases n - j,
        {
            let e_parent = self.entries[j].parent_key;
            let e_key = self.entries[j].variable_key;
            let hit = match e_parent {
                Some(p) => keys_contain(acc, p),
                None => false,
            };
            proof {
                assert forall|k: i64|
                    child_step_partial(entries0, ks, j + 1).contains(k)
                        == (child_step_partial(entries0, ks, j as int).contains(k) || (hit && k
                        == e_key)) by {
                    if child_step_partial(entries0, ks, j + 1).contains(k) && !ks.contains(k) {
                        let i = choose|i: int|
                            0 <= i < j + 1 && #[trigger] entries0[i].variable_key == k
                                && entries0[i].parent_key is Some && ks.contains(
                                entries0[i].parent_key.unwrap(),
                            );
                        if i < j {
                            assert(child_step_partial(entries0, ks, j as int).contains(k));
                        } else {
                            assert(k == e_key && hit);
                        }
                    }
                    if child_step_partial(entries0, ks, j as int).contains(k) && !ks.contains(
                        k,
                    ) {
                        let i = choose|i: int|
                            0 <= i < j && #[trigger] entries0[i].variable_key == k
                                && entries0[i].parent_key is Some && ks.contains(
                                entries0[i].parent_key.unwrap(),
                            );
                        assert(child_step_partial(entries0, ks, j + 1).contains(k));
                    }
                    if hit && k == e_key {
                        assert(entries0[j as int].variable_key == k && entries0[
                            j as int
                        ].parent_key is Some && ks.contains(
                            entries0[j as int].parent_key.unwrap(),
                        ));
                        assert(child_step_partial(entries0, ks, j + 1).contains(k));
                    }
                }
            }
            if hit {
                if !keys_contain(&next, e_key) {
                    let ghost before = next@;
                    next.push(e_key);
                    proof {
                        assert(key_set(before) == child_step_partial(entries0, ks, j as int));
                        assert forall|k: i64|
                            key_set(next@).contains(k) == child_step_partial(
                                entries0,
                                ks,
                                j + 1,
                            ).contains(k) by {
                            lemma_push_contains(before, e_key, k);
                            assert(key_set(next@).contains(k) == next@.contains(k));
                            assert(before.contains(k) == key_set(before).contains(k));
                        }
                        assert(key_set(next@) =~= child_step_partial(entries0, ks, j + 1));
                    }
                } else {
                    proof {
                        assert(key_set(next@) =~= child_step_partial(entries0, ks, j + 1));
                    }
                }
            } else {
                proof {
                    assert(key_set(next@) =~= child_step_partial(entries0, ks, j + 1));
                }
            }
            j = j + 1;
        }
        proof {
            assert(child_step_partial(entries0, ks, n as int) =~= child_step(entries0, ks));
        }
        next
    }

    /// Removes every entry whose key lies in the closure of `start` under
    /// the child relation: the subtrees rooted at the given keys.
    fn remove_keys_closure(&mut self, start: Vec<i64>)
        requires
            old(self).wf(),
        ensures
            final(self).wf(),
            final(self).next_key_spec() == old(self).next_key_spec(),
            final(self).first_key_spec() == old(self).first_key_spec(),
            final(self)@ == without_keys(
                old(self)@,
                closure_n(old(self)@, key_set(start@), old(self)@.len() + 1),
            ),
    {
        let ghost entries0 = self@;
        let ghost base = key_set(start@);
        let n = self.entries.len();
        let mut acc = start;
        let mut round: usize = 0;
        while round < n
            invariant
                0 <= round <= n,
                n == entries0.len(),
                self@ == entries0,
                self.wf(),
                key_set(acc@) == closure_n(entries0, base, round as nat),
            decreases n - round,
        {
            acc = self.child_step_exec(&acc);
            round = round + 1;
        }
        acc = self.child_step_exec(&acc);
        let ghost removed = closure_n(entries0, base, entries0.len() + 1);
        proof {
            assert(key_set(acc@) == removed);
        }
        let ghost pred = |v: Variable| !removed.contains(v.variable_key);
        let mut kept: Vec<Variable> = Vec::new();
        let mut j: usize = 0;
        proof {
            assert(kept@ =~= entries0.subrange(0, 0).filter(pred));
        }
        while j < n
            invariant
                0 <= j <= n,
                n == entries0.len(),
                self@ == entries0,
                self.wf(),
                key_set(acc@) == removed,
                pred == (|v: Variable| !removed.contains(v.variable_key)),
                kept@ == entries0.subrange(0, j as int).filter(pred),
            decreases n - j,
        {
            let ghost prefix = entries0.subrange(0, j as int);
            let keep = !keys_contain(&acc, self.entries[j].variable_key);
            proof {
                assert(pred(entries0[j as int]) == keep);
            }
            if keep {
                kept.push(self.entries[j].clone());
            }
            j = j + 1;
            proof {
                reveal(Seq::filter);
                assert(entries0.subrange(0, j as int).drop_last() =~= prefix);
                assert(entries0.subrange(0, j as int).last() == entries0[j - 1]);
            }
        }
        proof {
            assert(entries0.subrange(0, n as int) =~= entries0);
            lemma_filter_sorted(entries0, pred);
            assert((|v: Variable| !removed.contains(v.variable_key)) =~= pred);
            assert(without_keys(entries0, removed) == entries0.filter(pred));
        }
        self.entries = kept;
        proof {
            assert forall|i: int|
                0 <= i < self@.len() implies 1 <= #[trigger] self@[i].variable_key
                < self.next_key_spec() by {
                assert(exists|m: int|
                    0 <= m < entries0.len() && entries0.filter(pred)[i] == entries0[m]);
                let m = choose|m: int|
                    0 <= m < entries0.len() && entries0.filter(pred)[i] == entries0[m];
                assert(1 <= entries0[m].variable_key < self.next_key_spec());
            }
        }
    }

    /// Deletes every descendant of `parent_variable_key` from the cache,
    /// leaving the entry itself in place.
    pub fn remove_cache_entry_children(&mut self, parent_variable_key: i64) -> (r: Result<
        (),
        DebugError,
    >)
        requires
            old(self).wf(),
        ensures
            final(self).wf(),
            final(self).next_key_spec() == old(self).next_key_spec(),
            final(self).first_key_spec() == old(self).first_key_spec(),
            r is Ok,
            final(self)@ == without_keys(
                old(self)@,
                descendant_keys(old(self)@, parent_variable_key),
            ),
    {
        let ghost entries0 = self@;
        let n = self.entries.len();
        let mut start: Vec<i64> = Vec::new();
        let mut j: usize = 0;
        while j < n
            invariant
                0 <= j <= n,
                n == entries0.len(),
                self@ == entries0,
                self.wf(),
                forall|k: i64|
                    #[trigger] start@.contains(k) <==> exists|i: int|
                        0 <= i < j && #[trigger] entries0[i].variable_key == k
                            && entries0[i].parent_key == Some(parent_variable_key),
            decreases n - j,
        {
            let hit = match self.entries[j].parent_key {
                Some(p) => p == parent_variable_key,
                None => false,
            };
            let ghost before = start@;
            if hit {
                start.push(self.entries[j].variable_key);
                proof {
                    assert forall|k: i64| start@.contains(k) <==> before.contains(k) || k
                        == entries0[j as int].variable_key by {
                        lemma_push_contains(before, entries0[j as int].variable_key, k);
                    }
                }
            }
            j = j + 1;
            proof {
                assert forall|k: i64|
                    start@.contains(k) <==> exists|i: int|
                        0 <= i < j && #[trigger] entries0[i].variable_key == k
                            && entries0[i].parent_key == Some(parent_variable_key) by {
                    if start@.contains(k) {
                        if before.contains(k) {
                            let i = choose|i: int|
                                0 <= i < j - 1 && #[trigger] entries0[i].variable_key == k
                                    && entries0[i].parent_key == Some(parent_variable_key);
                            assert(entries0[i].variable_key == k && entries0[i].parent_key
                                == Some(parent_variable_key));
                        } else {
                            assert(hit && k == entries0[j - 1].variable_key);
                            assert(entries0[j - 1].variable_key == k && entries0[
                                j - 1
                            ].parent_key == Some(parent_variable_key));
                        }
                    }
                    if exists|i: int|
                        0 <= i < j && #[trigger] entries0[i].variable_key == k && entries0[
                            i
                        ].parent_key == Some(parent_variable_key) {
                        let i = choose|i: int|
                            0 <= i < j && #[trigger] entries0[i].variable_key == k && entries0[
                                i
                            ].parent_key == Some(parent_variable_key);
                        if i < j - 1 {
                            assert(before.contains(k));
                            if hit {
                                lemma_push_contains(before, entries0[j - 1].variable_key, k);
                            }
                            assert(start@.contains(k));
                        } else {
                            assert(hit);
                            assert(start@ == before.push(entries0[j - 1].variable_key));
                            lemma_push_contains(before, entries0[j - 1].variable_key, k);
                            assert(start@.contains(k));
                        }
                    }
                }
            }
        }
        proof {
            assert(key_set(start@) =~= direct_child_keys(entries0, parent_variable_key));
        }
        self.remove_keys_closure(start);
        Ok(())
    }

    /// Deletes the entry stored under `variable_key` together with all its
    /// descendants. Fails with [`DebugError::RemoveFailed`] when no entry
    /// carries that key.
    pub fn remove_cache_entry(&mut self, variable_key: i64) -> (r: Result<(), DebugError>)
        requires
            old(self).wf(),
        ensures
            final(self).wf(),
            final(self).next_key_spec() == old(self).next_key_spec(),
            final(self).first_key_spec() == old(self).first_key_spec(),
            r is Ok <==> cache_contains_key(old(self)@, variable_key),
            r is Ok ==> final(self)@ == without_keys(
                old(self)@,
                subtree_keys(old(self)@, variable_key),
            ),
            r is Err ==> final(self)@ == old(self)@ && r == Result::<(), DebugError>::Err(
                DebugError::RemoveFailed(variable_key),
            ),
    {
        if self.find_index(variable_key).is_none() {
            return Err(DebugError::RemoveFailed(variable_key));
        }
        let mut start: Vec<i64> = Vec::new();
        start.push(variable_key);
        proof {
            assert forall|k: i64| start@.contains(k) <==> k == variable_key by {
                lemma_push_contains(Seq::<i64>::empty(), variable_key, k);
                if Seq::<i64>::empty().contains(k) {
                    let i = choose|i: int|
                        0 <= i < Seq::<i64>::empty().len() && Seq::<i64>::empty()[i] == k;
                }
            }
            assert(key_set(start@) =~= Set::empty().insert(variable_key));
        }
        self.remove_keys_closure(start);
        Ok(())
    }

    /// Hands the children of an obsolete intermediate node over to
    /// `parent_variable` and deletes the node, so that nodes the debug
    /// information introduced for its own bookkeeping never reach the user.
    /// For a node typed [`crate::vtype::VariableType::Unknown`] or still
    /// marked for recursion this reassigns every direct child and then
    /// removes the node; for any other node it silently does nothing.
    pub fn adopt_grand_children(
        &mut self,
        parent_variable: &Variable,
        obsolete_child_variable: &Variable,
    ) -> (r: Result<(), DebugError>)
        requires
            old(self).wf(),
        ensures
            final(self).wf(),
            final(self).next_key_spec() == old(self).next_key_spec(),
            final(self).first_key_spec() == old(self).first_key_spec(),
            !(obsolete_child_variable.variable_type is Unknown) && obsolete_child_variable
                .variable_node_type is DoNotRecurse ==> r is Ok && final(self)@ == old(self)@,
            (obsolete_child_variable.variable_type is Unknown || !(obsolete_child_variable
                .variable_node_type is DoNotRecurse)) ==> {
                let reparented = reparent_spec(
                    old(self)@,
                    obsolete_child_variable.variable_key,
                    parent_variable.variable_key,
                );
                &&& (r is Ok <==> cache_contains_key(
                    old(self)@,
                    obsolete_child_variable.variable_key,
                ))
                &&& r is Ok ==> final(self)@ == without_keys(
                    reparented,
                    subtree_keys(reparented, obsolete_child_variable.variable_key),
                )
                &&& r is Err ==> final(self)@ == reparented && r == Result::<
                    (),
                    DebugError,
                >::Err(DebugError::RemoveFailed(obsolete_child_variable.variable_key))
            },
    {
        let is_unknown_type = matches!(obsolete_child_variable.variable_type, crate::vtype::VariableType::Unknown);
        let is_do_not_recurse = matches!(obsolete_child_variable.variable_node_type, crate::types::VariableNodeType::DoNotRecurse);
        if !is_unknown_type && is_do_not_recurse {
            return Ok(());
        }
        let ghost entries0 = self@;
        let from_key = obsolete_child_variable.variable_key;
        let to_key = parent_variable.variable_key;
        let n = self.entries.len();
        let mut j: usize = 0;
        while j < n
            invariant
                0 <= j <= n,
                n == entries0.len(),
                self@.len() == entries0.len(),
                self.next_key_spec() == old(self).next_key_spec(),
                self.first_key_spec() == old(self).first_key_spec(),
                old(self).wf(),
                forall|i: int| j <= i < n ==> self@[i] == entries0[i],
                forall|i: int|
                    0 <= i < j ==> self@[i] == reparent_spec(entries0, from_key, to_key)[i],
            decreases n - j,
        {
            let hit = match self.entries[j].parent_key {
                Some(p) => p == from_key,
                None => false,
            };
            if hit {
                let mut e = self.entries[j].clone();
                e.parent_key = Some(to_key);
                self.entries[j] = e;
            }
            j = j + 1;
        }
        proof {
            let reparented = reparent_spec(entries0, from_key, to_key);
            assert(self@ =~= reparented);
            assert(forall|i: int|
                0 <= i < reparented.len() ==> #[trigger] reparented[i].variable_key
                    == entries0[i].variable_key);
            assert(self.wf());
            assert forall|k: i64|
                cache_contains_key(reparented, k) == cache_contains_key(entries0, k) by {
                if cache_contains_key(reparented, k) {
                    let i = choose|i: int|
                        0 <= i < reparented.len() && reparented[i].variable_key == k;
                    assert(entries0[i].variable_key == k);
                }
                if cache_contains_key(entries0, k) {
                    let i = choose|i: int|
                        0 <= i < entries0.len() && entries0[i].variable_key == k;
                    assert(reparented[i].variable_key == k);
                }
            }
        }
        self.remove_cache_entry(from_key)
    }
}

/// What [`VariableCache::cache_variable`] promises, relating the cache
/// before (`pre`, with allocator mark `pre_mark`) and after (`post`,
/// `post_mark`) to the arguments and the result.
///
/// An absent parent fails with [`DebugError::BadParent`]; an update of an
/// absent key fails with [`DebugError::UnknownKey`]; both leave the cache
/// unchanged. An insert (`candidate.variable_key == 0`) appends the
/// candidate under the freshly allocated key with its parent set to
/// `parent_key`; an update overwrites the entry in place, keeping the
/// candidate's own parent when none is supplied — that kept parent must
/// itself resolve, else the update fails with [`DebugError::BadParent`],
/// so a stale clone can never re-intern a dangling parent. In both cases
/// the stored
/// variable's value is then resolved from memory as [`extract_outcome`]
/// describes, and a clone of the stored variable is returned.
pub open spec fn cache_variable_post(
    pre: Seq<Variable>,
    pre_mark: i64,
    post: Seq<Variable>,
    post_mark: i64,
    parent_key: Option<i64>,
    candidate: Variable,
    m: Map<u32, u8>,
    r: Result<Variable, DebugError>,
) -> bool {
    let bad_parent = parent_key is Some && !cache_contains_key(pre, parent_key.unwrap());
    let update = candidate.variable_key != 0;
    let unknown = update && !cache_contains_key(pre, candidate.variable_key);
    let stale_parent = update && parent_key is None && candidate.parent_key is Some
        && !cache_contains_key(pre, candidate.parent_key.unwrap());
    if bad_parent {
        &&& r == Result::<Variable, DebugError>::Err(DebugError::BadParent(parent_key.unwrap()))
        &&& post == pre
        &&& post_mark == pre_mark
    } else if unknown {
        &&& r == Result::<Variable, DebugError>::Err(
            DebugError::UnknownKey(candidate.variable_key),
        )
        &&& post == pre
        &&& post_mark == pre_mark
    } else if stale_parent {
        &&& r == Result::<Variable, DebugError>::Err(
            DebugError::BadParent(candidate.parent_key.unwrap()),
        )
        &&& post == pre
        &&& post_mark == pre_mark
    } else if !update {
        &&& post_mark == pre_mark + 1
        &&& r is Ok
        &&& {
            let stored = r.unwrap();
            let seeded = Variable { variable_key: pre_mark, parent_key: parent_key, ..candidate };
            &&& same_but_value(seeded, stored)
            &&& match extract_outcome(seeded, m, pre.push(seeded)) {
                Some(val) => stored.value@ == val,
                None => stored.value@ is Error,
            }
            &&& post == pre.push(stored)
        }
    } else {
        &&& post_mark == pre_mark
        &&& r is Ok
        &&& {
            let i = index_of_key(pre, candidate.variable_key);
            let pk = if parent_key is Some {
                parent_key
            } else {
                candidate.parent_key
            };
            let stored = r.unwrap();
            let seeded = Variable { parent_key: pk, ..candidate };
            &&& same_but_value(seeded, stored)
            &&& match extract_outcome(seeded, m, pre.update(i, seeded)) {
                Some(val) => stored.value@ == val,
                None => stored.value@ is Error,
            }
            &&& post == pre.update(i, stored)
        }
    }
}

impl VariableCache {
    /// Adds a new variable to the cache or updates a stored one, resolves
    /// its value from target memory, and returns a clone of what was
    /// stored, exactly as [`cache_variable_post`] describes.
    ///
    /// A candidate with `variable_key == 0` is interned under a fresh,
    /// strictly increasing key; any other key must already be present. A
    /// supplied `parent_key` must resolve to a cached entry.
    pub fn cache_variable<M: MemoryInterface>(
        &mut self,
        parent_key: Option<i64>,
        cache_variable: Variable,
        core: &mut M,
    ) -> (r: Result<Variable, DebugError>)
        requires
            old(self).wf(),
            cache_variable.variable_key == 0 ==> old(self).next_key_spec() < i64::MAX,
        ensures
            final(self).wf(),
            final(core).mem() == old(core).mem(),
            old(self).next_key_spec() <= final(self).next_key_spec() <= old(self).next_key_spec()
                + 1,
            final(self).first_key_spec() == old(self).first_key_spec(),
            cache_variable_post(
                old(self)@,
                old(self).next_key_spec(),
                final(self)@,
                final(self).next_key_spec(),
                parent_key,
                cache_variable,
                old(core).mem(),
                r,
            ),
    {
        let ghost pre = self@;
        let mut variable_to_add = cache_variable.clone();
        if let Some(new_parent_key) = parent_key {
            if self.find_index(new_parent_key).is_some() {
                variable_to_add.parent_key = Some(new_parent_key);
            } else {
                return Err(DebugError::BadParent(new_parent_key));
            }
        }
        let idx: usize;
        if variable_to_add.variable_key == 0 {
            variable_to_add.parent_key = parent_key;
            variable_to_add.variable_key = self.next_key;
            // the allocator invariant puts every stored key below the mark,
            // so the fresh key cannot collide; the check mirrors the
            // interface's promise to refuse a duplicate rather than corrupt
            // the cache
            if self.find_index(variable_to_add.variable_key).is_some() {
                return Err(DebugError::DuplicateKey(variable_to_add.variable_key));
            }
            self.next_key = self.next_key + 1;
            idx = self.entries.len();
            let ghost seeded = variable_to_add;
            self.entries.push(variable_to_add);
            proof {
                assert(self@ == pre.push(seeded));
            }
        } else {
            match self.find_index(variable_to_add.variable_key) {
                Some(i) => {
                    if parent_key.is_none() {
                        // no parent was supplied: the candidate's own parent
                        // is kept, so it must still resolve
                        if let Some(kept_parent) = variable_to_add.parent_key {
                            if self.find_index(kept_parent).is_none() {
                                return Err(DebugError::BadParent(kept_parent));
                            }
                        }
                    }
                    idx = i;
                    let ghost seeded = variable_to_add;
                    self.entries[i] = variable_to_add;
                    proof {
                        assert(self@ == pre.update(i as int, seeded));
                    }
                },
                None => {
                    return Err(DebugError::UnknownKey(variable_to_add.variable_key));
                },
            }
        }
        let mut stored = self.entries[idx].clone();
        let ghost seeded_g = stored;
        let ghost entries1 = self@;
        stored.extract_value(core, self);
        let returned = stored.clone();
        let ghost stored_g = stored;
        self.entries[idx] = stored;
        proof {
            assert(same_but_value(seeded_g, stored_g));
            if cache_variable.variable_key == 0 {
                assert(seeded_g == Variable {
                    variable_key: old(self).next_key_spec(),
                    parent_key: parent_key,
                    ..cache_variable
                });
                assert(entries1 == pre.push(seeded_g));
                assert(self@ =~= pre.push(stored_g));
            } else {
                let i = index_of_key(pre, cache_variable.variable_key);
                assert(idx == i);
                let pk = if parent_key is Some {
                    parent_key
                } else {
                    cache_variable.parent_key
                };
                assert(seeded_g == Variable { parent_key: pk, ..cache_variable });
                assert(entries1 == pre.update(i, seeded_g));
                assert(self@ =~= pre.update(i, stored_g));
            }
        }
        Ok(returned)
    }
}

/// A filtered sequence keeps its first element when the sequence grows on
/// the right.
pub proof fn lemma_filter_first_kept(s: Seq<Variable>, pred: spec_fn(Variable) -> bool)
    requires
        s.len() > 0,
    ensures
        s.drop_last().filter(pred).len() != 0 ==> s.filter(pred).first() == s.drop_last().filter(
            pred,
        ).first(),
        s.drop_last().filter(pred).len() == 0 && pred(s.last()) ==> s.filter(pred).first()
            == s.last(),
{
    reveal(Seq::filter);
}

/// Law: the keys the allocator hands out are strictly increasing. An
/// insert returns the allocator mark and raises it by one, no operation
/// ever lowers the mark, and every stored key lies below the mark
/// ([`VariableCache::wf`], exported by
/// [`lemma_fresh_key_exceeds_existing`]); so of two keys returned by
/// inserts, the later is the larger.
pub proof fn lemma_allocator_keys_increase(k1: i64, mark1: i64, mark2: i64, k2: i64)
    requires
        k1 < mark1,
        mark1 <= mark2,
        k2 == mark2,
    ensures
        k1 < k2,
{
}

/// Law: every key a cache holds lies within its mark range: at least the
/// starting mark it was created with, below the mark it will assign next.
pub proof fn lemma_keys_within_marks(c: &VariableCache)
    requires
        c.wf(),
    ensures
        forall|i: int|
            0 <= i < c@.len() ==> c.first_key_spec() <= #[trigger] c@[i].variable_key
                < c.next_key_spec(),
{
}

/// Law: caches with disjoint mark ranges never share a key. When one
/// cache's allocator mark is no later than another's starting mark — as
/// when each cache of the process is seeded from one shared, increasing
/// counter — no key of the first is a key of the second.
pub proof fn lemma_disjoint_marks_share_no_keys(a: &VariableCache, b: &VariableCache)
    requires
        a.wf(),
        b.wf(),
        a.next_key_spec() <= b.first_key_spec(),
    ensures
        forall|k: i64| cache_contains_key(a@, k) ==> !cache_contains_key(b@, k),
{
    assert forall|k: i64|
        cache_contains_key(a@, k) implies !cache_contains_key(b@, k) by {
        let i = choose|i: int| 0 <= i < a@.len() && #[trigger] a@[i].variable_key == k;
        assert(k < a.next_key_spec());
        if cache_contains_key(b@, k) {
            let j = choose|j: int| 0 <= j < b@.len() && #[trigger] b@[j].variable_key == k;
            assert(k >= b.first_key_spec());
        }
    }
}

/// Law: a freshly allocated key exceeds every key already stored, so an
/// insert can never collide with a cached entry.
pub proof fn lemma_fresh_key_exceeds_existing(c: &VariableCache)
    requires
        c.wf(),
    ensures
        forall|i: int| 0 <= i < c@.len() ==> #[trigger] c@[i].variable_key < c.next_key_spec(),
        !cache_contains_key(c@, c.next_key_spec()),
{
}

/// A well-formed cache can hold at most `i64::MAX - 1` variables: its keys
/// are distinct integers between 1 and the allocator mark.
pub proof fn lemma_entry_count_bounded(c: &VariableCache)
    requires
        c.wf(),
    ensures
        c@.len() < i64::MAX as nat,
{
    if c@.len() > 0 {
        lemma_sorted_keys_at_least_index(c, c@.len() - 1);
        assert(c@[c@.len() - 1].variable_key < c.next_key_spec() <= i64::MAX);
    }
}

/// In strictly increasing storage order, the key at position `i` is at
/// least `1 + i`.
proof fn lemma_sorted_keys_at_least_index(c: &VariableCache, i: int)
    requires
        c.wf(),
        0 <= i < c@.len(),
    ensures
        c@[i].variable_key >= 1 + i,
    decreases i,
{
    if i > 0 {
        lemma_sorted_keys_at_least_index(c, i - 1);
    }
}

/// Law: a variable still carrying the not-yet-interned key 0 is never
/// reachable from a well-formed cache; stored keys start at 1.
pub proof fn lemma_zero_key_never_cached(c: &VariableCache)
    requires
        c.wf(),
    ensures
        !cache_contains_key(c@, 0),
{
}

/// Law: the children of any parent are sorted ascending by key (their
/// storage order, which is their insertion order).
pub proof fn lemma_children_sorted(c: &VariableCache, parent_key: Option<i64>)
    requires
        c.wf(),
    ensures
        forall|i: int, j: int|
            0 <= i < j < children_of(c@, parent_key).len() ==> children_of(
                c@,
                parent_key,
            )[i].variable_key < children_of(c@, parent_key)[j].variable_key,
{
    let pred = |v: Variable| v.parent_key == parent_key;
    lemma_filter_sorted(c@, pred);
    assert(children_of(c@, parent_key) == c@.filter(pred));
}

/// Law: a successful insert preserves parent validity: if every stored
/// parent key named a stored entry before, the same holds after, since
/// the inserted variable's parent was validated and nothing else changed.
/// So after any run of successful inserts into a fresh cache, every
/// cached variable's parent key is `None` or names a cached variable.
pub proof fn lemma_insert_preserves_parent_validity(
    pre: Seq<Variable>,
    pre_mark: i64,
    post: Seq<Variable>,
    post_mark: i64,
    parent_key: Option<i64>,
    candidate: Variable,
    m: Map<u32, u8>,
    r: Result<Variable, DebugError>,
)
    requires
        parents_valid(pre),
        candidate.variable_key == 0,
        r is Ok,
        cache_variable_post(pre, pre_mark, post, post_mark, parent_key, candidate, m, r),
    ensures
        parents_valid(post),
{
    let stored = r.unwrap();
    assert(post == pre.push(stored));
    assert(stored.parent_key == parent_key);
    assert forall|i: int|
        0 <= i < post.len() && #[trigger] post[i].parent_key is Some implies cache_contains_key(
        post,
        post[i].parent_key.unwrap(),
    ) by {
        if i < pre.len() {
            assert(post[i] == pre[i]);
            assert(cache_contains_key(pre, pre[i].parent_key.unwrap()));
            let w = index_of_key(pre, pre[i].parent_key.unwrap());
            assert(post[w].variable_key == pre[i].parent_key.unwrap());
        } else {
            assert(post[i] == stored);
            let p = parent_key.unwrap();
            assert(cache_contains_key(pre, p));
            let w = index_of_key(pre, p);
            assert(post[w].variable_key == p);
        }
    }
}

/// Law: every cache store preserves parent integrity, update or insert,
/// success or failure. An insert stores the validated supplied parent; an
/// update stores either the validated supplied parent or the candidate's
/// own parent, which is validated as well; every failure leaves the cache
/// unchanged. And on success with a supplied parent, that parent was a
/// cached key at entry.
pub proof fn lemma_cache_variable_preserves_parent_validity(
    pre: Seq<Variable>,
    pre_mark: i64,
    post: Seq<Variable>,
    post_mark: i64,
    parent_key: Option<i64>,
    candidate: Variable,
    m: Map<u32, u8>,
    r: Result<Variable, DebugError>,
)
    requires
        parents_valid(pre),
        cache_variable_post(pre, pre_mark, post, post_mark, parent_key, candidate, m, r),
    ensures
        parents_valid(post),
        r is Ok && parent_key is Some ==> cache_contains_key(pre, parent_key.unwrap()),
{
    let bad_parent = parent_key is Some && !cache_contains_key(pre, parent_key.unwrap());
    let update = candidate.variable_key != 0;
    let unknown = update && !cache_contains_key(pre, candidate.variable_key);
    let stale_parent = update && parent_key is None && candidate.parent_key is Some
        && !cache_contains_key(pre, candidate.parent_key.unwrap());
    if bad_parent || unknown || stale_parent {
        assert(post == pre);
    } else if !update {
        lemma_insert_preserves_parent_validity(
            pre,
            pre_mark,
            post,
            post_mark,
            parent_key,
            candidate,
            m,
            r,
        );
    } else {
        let i = index_of_key(pre, candidate.variable_key);
        let pk = if parent_key is Some {
            parent_key
        } else {
            candidate.parent_key
        };
        let stored = r.unwrap();
        assert(0 <= i < pre.len() && pre[i].variable_key == candidate.variable_key);
        assert(stored.variable_key == candidate.variable_key && stored.parent_key == pk);
        assert(post == pre.update(i, stored));
        assert(forall|w: int|
            0 <= w < pre.len() ==> #[trigger] post[w].variable_key == pre[w].variable_key);
        assert forall|j: int|
            0 <= j < post.len() && #[trigger] post[j].parent_key is Some
            implies cache_contains_key(post, post[j].parent_key.unwrap()) by {
            let p = post[j].parent_key.unwrap();
            if j == i {
                assert(cache_contains_key(pre, p));
            } else {
                assert(post[j] == pre[j]);
                assert(cache_contains_key(pre, p));
            }
            let w = choose|w: int| 0 <= w < pre.len() && #[trigger] pre[w].variable_key == p;
            assert(post[w].variable_key == p);
        }
    }
}

/// One closure stage contains the stage before it.
proof fn lemma_closure_grows(entries: Seq<Variable>, base: Set<i64>, n: nat)
    ensures
        closure_n(entries, base, n).subset_of(closure_n(entries, base, n + 1)),
    decreases n,
{
    if n == 0 {
        assert(closure_n(entries, base, 0) == base);
        assert(closure_n(entries, base, 1) == child_step(entries, closure_n(entries, base, 0)));
        assert(base.subset_of(child_step(entries, base)));
    } else {
        lemma_closure_grows(entries, base, (n - 1) as nat);
        assert forall|k: i64|
            closure_n(entries, base, n).contains(k) implies closure_n(
            entries,
            base,
            n + 1,
        ).contains(k) by {
            let prev = closure_n(entries, base, (n - 1) as nat);
            let next = closure_n(entries, base, n);
            if prev.contains(k) {
                assert(next.contains(k));
            } else {
                let i = choose|i: int|
                    0 <= i < entries.len() && #[trigger] entries[i].variable_key == k && entries[
                        i
                    ].parent_key is Some && prev.contains(entries[i].parent_key.unwrap());
                assert(next.contains(entries[i].parent_key.unwrap()));
                assert(child_step(entries, next).contains(k));
            }
        }
    }
}

/// Every closure stage is contained in every later stage.
proof fn lemma_closure_monotone(entries: Seq<Variable>, base: Set<i64>, m: nat, n: nat)
    requires
        m <= n,
    ensures
        closure_n(entries, base, m).subset_of(closure_n(entries, base, n)),
    decreases n - m,
{
    if m < n {
        lemma_closure_grows(entries, base, m);
        lemma_closure_monotone(entries, base, m + 1, n);
    }
}

/// Law: removing an entry recursively leaves neither the entry itself nor
/// any variable whose parent key names it: the entry's key seeds the
/// removed set, so every direct child's key enters the set at the very
/// next stage.
pub proof fn lemma_remove_leaves_no_children(pre: Seq<Variable>, post: Seq<Variable>, k: i64)
    requires
        post == without_keys(pre, subtree_keys(pre, k)),
    ensures
        !cache_contains_key(post, k),
        forall|i: int| 0 <= i < post.len() ==> #[trigger] post[i].parent_key != Some(k),
{
    let removed = subtree_keys(pre, k);
    let base = Set::empty().insert(k);
    let pred = |v: Variable| !removed.contains(v.variable_key);
    lemma_closure_monotone(pre, base, 0, pre.len() + 1);
    assert(removed.contains(k));
    assert forall|i: int| 0 <= i < post.len() implies pred(#[trigger] post[i]) by {
        pre.lemma_filter_pred(pred, i);
        assert(post == pre.filter(pred));
    }
    assert forall|i: int|
        0 <= i < post.len() implies #[trigger] post[i].parent_key != Some(k) by {
        assert(pred(post[i]));
        lemma_filter_elements(pre, pred, i);
        if post[i].parent_key == Some(k) {
            let j = choose|j: int| 0 <= j < pre.len() && pre[j] == post[i];
            assert(child_step(pre, base).contains(pre[j].variable_key));
            lemma_closure_monotone(pre, base, 1, pre.len() + 1);
            assert(removed.contains(post[i].variable_key));
        }
    }
    if cache_contains_key(post, k) {
        let i = choose|i: int| 0 <= i < post.len() && #[trigger] post[i].variable_key == k;
        assert(pred(post[i]));
    }
}

/// Every element of a filtered sequence comes from the original sequence.
proof fn lemma_filter_elements(s: Seq<Variable>, pred: spec_fn(Variable) -> bool, i: int)
    requires
        0 <= i < s.filter(pred).len(),
    ensures
        exists|j: int| 0 <= j < s.len() && s[j] == s.filter(pred)[i],
    decreases s.len(),
{
    reveal(Seq::filter);
    if s.len() > 0 {
        let sub = s.drop_last();
        if pred(s.last()) {
            if i < s.filter(pred).len() - 1 {
                lemma_filter_elements(sub, pred, i);
                let j = choose|j: int| 0 <= j < sub.len() && sub[j] == sub.filter(pred)[i];
                assert(s[j] == s.filter(pred)[i]);
            } else {
                assert(s[s.len() - 1] == s.filter(pred)[i]);
            }
        } else {
            lemma_filter_elements(sub, pred, i);
            let j = choose|j: int| 0 <= j < sub.len() && sub[j] == sub.filter(pred)[i];
            assert(s[j] == s.filter(pred)[i]);
        }
    }
}

/// The set of keys the entries hold.
spec fn entries_key_set(entries: Seq<Variable>) -> Set<i64> {
    entries.map_values(|v: Variable| v.variable_key).to_set()
}

/// Every closure stage stays within the starting keys and the entry keys.
proof fn lemma_closure_in_universe(entries: Seq<Variable>, base: Set<i64>, n: nat)
    ensures
        closure_n(entries, base, n).subset_of(base.union(entries_key_set(entries))),
    decreases n,
{
    if n > 0 {
        lemma_closure_in_universe(entries, base, (n - 1) as nat);
        let prev = closure_n(entries, base, (n - 1) as nat);
        assert forall|k: i64|
            closure_n(entries, base, n).contains(k) implies base.union(
            entries_key_set(entries),
        ).contains(k) by {
            if !prev.contains(k) {
                let i = choose|i: int|
                    0 <= i < entries.len() && #[trigger] entries[i].variable_key == k && entries[
                        i
                    ].parent_key is Some && prev.contains(entries[i].parent_key.unwrap());
                let keys = entries.map_values(|v: Variable| v.variable_key);
                assert(keys[i] == k);
                assert(keys.contains(k));
                assert(entries_key_set(entries).contains(k));
            }
        }
    }
}

/// The starting keys and the entry keys form a finite set of bounded size.
proof fn lemma_universe_finite(entries: Seq<Variable>, base: Set<i64>)
    requires
        base.finite(),
    ensures
        base.union(entries_key_set(entries)).finite(),
        base.union(entries_key_set(entries)).len() <= base.len() + entries.len(),
{
    broadcast use vstd::seq_lib::seq_to_set_is_finite;

    let keys = entries.map_values(|v: Variable| v.variable_key);
    keys.lemma_cardinality_of_set();
    vstd::set_lib::lemma_len_union(base, entries_key_set(entries));
}

/// Once a closure stage stops growing, every later stage is the same.
proof fn lemma_closure_stable(entries: Seq<Variable>, base: Set<i64>, j: nat, n: nat)
    requires
        j <= n,
        closure_n(entries, base, j) == closure_n(entries, base, j + 1),
    ensures
        closure_n(entries, base, n) == closure_n(entries, base, j),
    decreases n - j,
{
    if j < n {
        assert(closure_n(entries, base, j + 2) == child_step(
            entries,
            closure_n(entries, base, j + 1),
        ));
        lemma_closure_stable(entries, base, j + 1, n);
    }
}

/// Each closure stage is finite, and either the next stage is no larger or
/// the chain has grown by at least one key per stage so far.
proof fn lemma_chain_growth(entries: Seq<Variable>, base: Set<i64>, j: nat)
    requires
        base.finite(),
    ensures
        closure_n(entries, base, j).finite(),
        closure_n(entries, base, j + 1).finite(),
        closure_n(entries, base, j + 1) == closure_n(entries, base, j) || closure_n(
            entries,
            base,
            j + 1,
        ).len() >= base.len() + j + 1,
    decreases j,
{
    broadcast use vstd::set_lib::lemma_set_subset_finite;

    let universe = base.union(entries_key_set(entries));
    lemma_universe_finite(entries, base);
    lemma_closure_in_universe(entries, base, j);
    lemma_closure_in_universe(entries, base, j + 1);
    let cur = closure_n(entries, base, j);
    let next = closure_n(entries, base, j + 1);
    lemma_closure_grows(entries, base, j);
    if j == 0 {
        if next != base {
            assert(exists|k: i64| next.contains(k) && !base.contains(k)) by {
                if forall|k: i64| #[trigger] next.contains(k) ==> base.contains(k) {
                    assert(next =~= base);
                }
            }
            let k = choose|k: i64| next.contains(k) && !base.contains(k);
            base.lemma_subset_not_in_lt(next, k);
        }
    } else {
        lemma_chain_growth(entries, base, (j - 1) as nat);
        let prev = closure_n(entries, base, (j - 1) as nat);
        if cur == prev {
            lemma_closure_stable(entries, base, (j - 1) as nat, j + 1);
        } else {
            assert(cur.len() >= base.len() + j);
            if next != cur {
                assert(exists|k: i64| next.contains(k) && !cur.contains(k)) by {
                    if forall|k: i64| #[trigger] next.contains(k) ==> cur.contains(k) {
                        assert(next =~= cur);
                    }
                }
                let k = choose|k: i64| next.contains(k) && !cur.contains(k);
                cur.lemma_subset_not_in_lt(next, k);
            }
        }
    }
}

/// After as many stages as the cache has entries, the closure is a
/// fixpoint: no entry's parent lies inside without the entry's own key
/// lying inside as well.
proof fn lemma_closure_saturated(entries: Seq<Variable>, base: Set<i64>)
    requires
        base.finite(),
    ensures
        child_step(entries, closure_n(entries, base, entries.len() + 1)) == closure_n(
            entries,
            base,
            entries.len() + 1,
        ),
{
    let n = entries.len();
    let last = closure_n(entries, base, n + 1);
    lemma_chain_growth(entries, base, n + 1);
    if closure_n(entries, base, n + 2) != last {
        let universe = base.union(entries_key_set(entries));
        lemma_universe_finite(entries, base);
        lemma_closure_in_universe(entries, base, n + 2);
        vstd::set_lib::lemma_len_subset(closure_n(entries, base, n + 2), universe);
    }
    assert(closure_n(entries, base, n + 2) == child_step(entries, last));
}

/// Law: recursive removal keeps parent integrity. If every stored parent
/// key named a stored entry before a subtree removal, the same holds
/// after: a surviving entry cannot point at a removed one, because the
/// removed set is closed under the child relation.
pub proof fn lemma_removal_preserves_parent_validity(
    pre: Seq<Variable>,
    post: Seq<Variable>,
    base: Set<i64>,
)
    requires
        parents_valid(pre),
        base.finite(),
        post == without_keys(pre, closure_n(pre, base, pre.len() + 1)),
    ensures
        parents_valid(post),
{
    let removed = closure_n(pre, base, pre.len() + 1);
    lemma_closure_saturated(pre, base);
    let pred = |v: Variable| !removed.contains(v.variable_key);
    assert(post == pre.filter(pred));
    assert forall|i: int|
        0 <= i < post.len() && #[trigger] post[i].parent_key is Some implies cache_contains_key(
        post,
        post[i].parent_key.unwrap(),
    ) by {
        pre.lemma_filter_pred(pred, i);
        lemma_filter_elements(pre, pred, i);
        let j = choose|j: int| 0 <= j < pre.len() && pre[j] == post[i];
        let p = post[i].parent_key.unwrap();
        assert(cache_contains_key(pre, p));
        let w = choose|w: int| 0 <= w < pre.len() && #[trigger] pre[w].variable_key == p;
        if removed.contains(p) {
            assert(child_step(pre, removed).contains(pre[j].variable_key));
            assert(!pred(post[i]));
        }
        assert(pred(pre[w]));
        pre.lemma_filter_contains(pred, w);
        let x = choose|x: int| 0 <= x < post.len() && #[trigger] post[x] == pre[w];
        assert(post[x].variable_key == p);
    }
}

/// Law: [`VariableCache::remove_cache_entry`] keeps parent integrity.
pub proof fn lemma_remove_entry_preserves_parent_validity(
    pre: Seq<Variable>,
    post: Seq<Variable>,
    k: i64,
)
    requires
        parents_valid(pre),
        post == without_keys(pre, subtree_keys(pre, k)),
    ensures
        parents_valid(post),
{
    broadcast use vstd::set::group_set_axioms;

    assert(Set::empty().insert(k).finite());
    lemma_removal_preserves_parent_validity(pre, post, Set::empty().insert(k));
}

/// Law: [`VariableCache::remove_cache_entry_children`] keeps parent
/// integrity.
pub proof fn lemma_remove_children_preserves_parent_validity(
    pre: Seq<Variable>,
    post: Seq<Variable>,
    k: i64,
)
    requires
        parents_valid(pre),
        post == without_keys(pre, descendant_keys(pre, k)),
    ensures
        parents_valid(post),
{
    broadcast use {vstd::seq_lib::seq_to_set_is_finite, vstd::set_lib::lemma_set_subset_finite};

    let keys = pre.map_values(|v: Variable| v.variable_key);
    assert forall|c: i64|
        direct_child_keys(pre, k).contains(c) implies entries_key_set(pre).contains(c) by {
        let i = choose|i: int|
            0 <= i < pre.len() && #[trigger] pre[i].variable_key == c && pre[i].parent_key == Some(
                k,
            );
        assert(keys[i] == c);
        assert(keys.contains(c));
    }
    assert(direct_child_keys(pre, k).subset_of(entries_key_set(pre)));
    assert(direct_child_keys(pre, k).finite());
    lemma_removal_preserves_parent_validity(pre, post, direct_child_keys(pre, k));
}

/// Law: under parent integrity no stored parent names an absent key. This
/// closes the failing branch of a removal: when the entry to remove is
/// already absent, the cache is left unchanged and still no variable's
/// parent names that key.
pub proof fn lemma_no_parents_name_absent_key(entries: Seq<Variable>, k: i64)
    requires
        parents_valid(entries),
        !cache_contains_key(entries, k),
    ensures
        forall|i: int| 0 <= i < entries.len() ==> #[trigger] entries[i].parent_key != Some(k),
{
    assert forall|i: int|
        0 <= i < entries.len() implies #[trigger] entries[i].parent_key != Some(k) by {
        if entries[i].parent_key == Some(k) {
            assert(cache_contains_key(entries, k));
        }
    }
}

/// A key with no children in the cache has a subtree of itself alone.
pub proof fn lemma_childless_subtree_is_singleton(entries: Seq<Variable>, k: i64)
    requires
        forall|i: int| 0 <= i < entries.len() ==> #[trigger] entries[i].parent_key != Some(k),
    ensures
        subtree_keys(entries, k) == Set::empty().insert(k),
{
    let base = Set::empty().insert(k);
    lemma_childless_closure_fixed(entries, k, entries.len() + 1);
}

/// With no children of `k` present, the closure of `{k}` never grows.
proof fn lemma_childless_closure_fixed(entries: Seq<Variable>, k: i64, n: nat)
    requires
        forall|i: int| 0 <= i < entries.len() ==> #[trigger] entries[i].parent_key != Some(k),
    ensures
        closure_n(entries, Set::empty().insert(k), n) == Set::empty().insert(k),
    decreases n,
{
    let base = Set::empty().insert(k);
    if n > 0 {
        lemma_childless_closure_fixed(entries, k, (n - 1) as nat);
        assert forall|c: i64|
            child_step(entries, base).contains(c) implies base.contains(c) by {
            if !base.contains(c) {
                let i = choose|i: int|
                    0 <= i < entries.len() && #[trigger] entries[i].variable_key == c && entries[
                        i
                    ].parent_key is Some && base.contains(entries[i].parent_key.unwrap());
                assert(entries[i].parent_key == Some(k));
            }
        }
        assert(child_step(entries, base) =~= base);
    }
}

/// Law: adopting grand-children is exact. For an obsolete child `c` that
/// is still marked for recursion, stored in the cache, and distinct from
/// the new parent `p`, the operation hands every direct child of `c` over
/// to `p` and removes exactly the entry of `c`, leaving the rest of the
/// tree as it was: afterwards the cache is the reparented sequence with
/// only the key of `c` filtered out.
pub proof fn lemma_adopt_exact(
    pre: Seq<Variable>,
    post: Seq<Variable>,
    parent_variable: Variable,
    obsolete_child_variable: Variable,
)
    requires
        !(obsolete_child_variable.variable_node_type is DoNotRecurse),
        parent_variable.variable_key != obsolete_child_variable.variable_key,
        post == without_keys(
            reparent_spec(
                pre,
                obsolete_child_variable.variable_key,
                parent_variable.variable_key,
            ),
            subtree_keys(
                reparent_spec(
                    pre,
                    obsolete_child_variable.variable_key,
                    parent_variable.variable_key,
                ),
                obsolete_child_variable.variable_key,
            ),
        ),
    ensures
        post == without_keys(
            reparent_spec(
                pre,
                obsolete_child_variable.variable_key,
                parent_variable.variable_key,
            ),
            Set::empty().insert(obsolete_child_variable.variable_key),
        ),
        !cache_contains_key(post, obsolete_child_variable.variable_key),
        forall|k: i64|
            k != obsolete_child_variable.variable_key ==> (cache_contains_key(post, k)
                <==> cache_contains_key(pre, k)),
{
    let ck = obsolete_child_variable.variable_key;
    let pk = parent_variable.variable_key;
    let reparented = reparent_spec(pre, ck, pk);
    assert forall|i: int|
        0 <= i < reparented.len() implies #[trigger] reparented[i].parent_key != Some(ck) by {
        if pre[i].parent_key == Some(ck) {
            assert(reparented[i].parent_key == Some(pk));
        } else {
            assert(reparented[i] == pre[i]);
        }
    }
    lemma_childless_subtree_is_singleton(reparented, ck);
    lemma_remove_leaves_no_children(reparented, post, ck);
    let singleton = Set::empty().insert(ck);
    let pred = |v: Variable| !singleton.contains(v.variable_key);
    assert(post == reparented.filter(pred));
    assert forall|k: i64|
        k != ck implies (cache_contains_key(post, k) <==> cache_contains_key(pre, k)) by {
        if cache_contains_key(post, k) {
            let i = choose|i: int| 0 <= i < post.len() && #[trigger] post[i].variable_key == k;
            lemma_filter_elements(reparented, pred, i);
            let j = choose|j: int| 0 <= j < reparented.len() && reparented[j] == post[i];
            assert(pre[j].variable_key == k);
        }
        if cache_contains_key(pre, k) {
            let i = choose|i: int| 0 <= i < pre.len() && #[trigger] pre[i].variable_key == k;
            assert(reparented[i].variable_key == k);
            assert(pred(reparented[i]));
            reparented.lemma_filter_contains(pred, i);
            let j = choose|j: int|
                0 <= j < post.len() && #[trigger] post[j] == reparented[i];
            assert(post[j].variable_key == k);
        }
    }
}

/// Law: adopting grand-children keeps parent integrity whenever the new
/// parent is itself cached: reassigned children point at the cached
/// parent, and the removal of the obsolete node deletes a closed subtree.
pub proof fn lemma_adopt_preserves_parent_validity(
    pre: Seq<Variable>,
    post: Seq<Variable>,
    parent_variable: Variable,
    obsolete_child_variable: Variable,
)
    requires
        parents_valid(pre),
        cache_contains_key(pre, parent_variable.variable_key),
        post == without_keys(
            reparent_spec(
                pre,
                obsolete_child_variable.variable_key,
                parent_variable.variable_key,
            ),
            subtree_keys(
                reparent_spec(
                    pre,
                    obsolete_child_variable.variable_key,
                    parent_variable.variable_key,
                ),
                obsolete_child_variable.variable_key,
            ),
        ),
    ensures
        parents_valid(post),
{
    let ck = obsolete_child_variable.variable_key;
    let pk = parent_variable.variable_key;
    let reparented = reparent_spec(pre, ck, pk);
    assert forall|i: int|
        0 <= i < reparented.len() && #[trigger] reparented[i].parent_key is Some
        implies cache_contains_key(reparented, reparented[i].parent_key.unwrap()) by {
        if pre[i].parent_key == Some(ck) {
            assert(reparented[i].parent_key == Some(pk));
            let w = choose|w: int| 0 <= w < pre.len() && #[trigger] pre[w].variable_key == pk;
            assert(reparented[w].variable_key == pk);
        } else {
            assert(reparented[i] == pre[i]);
            let p = pre[i].parent_key.unwrap();
            assert(cache_contains_key(pre, p));
            let w = choose|w: int| 0 <= w < pre.len() && #[trigger] pre[w].variable_key == p;
            assert(reparented[w].variable_key == p);
        }
    }
    lemma_remove_entry_preserves_parent_validity(reparented, post, ck);
}

/// Compares two optional keys.
fn option_key_eq(a: Option<i64>, b: Option<i64>) -> (r: bool)
    ensures
        r == (a == b),
{
    match (a, b) {
        (Some(x), Some(y)) => x == y,
        (None, None) => true,
        _ => false,
    }
}

} // verus!
