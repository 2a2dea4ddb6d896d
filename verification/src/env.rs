use vstd::prelude::*;

use crate::ast::FunctionOrValueType;
use crate::value::OranValue;

verus! {

/// The mathematical key of a binding: scope id, binding kind, name.
pub ghost struct EnvKey {
    pub scope: int,
    pub kind: FunctionOrValueType,
    pub name: Seq<char>,
}

/// One live binding of the store.
pub struct Binding {
    pub scope: usize,
    pub kind: FunctionOrValueType,
    pub name: String,
    pub val: OranValue,
}

impl Binding {
    pub open spec fn key(self) -> EnvKey {
        EnvKey { scope: self.scope as int, kind: self.kind, name: self.name@ }
    }
}

impl Clone for Binding {
    fn clone(&self) -> (res: Self)
        ensures
            res == *self,
    {
        Binding {
            scope: self.scope,
            kind: self.kind,
            name: self.name.clone(),
            val: self.val.clone(),
        }
    }
}

/// The binding each key holds after the writes of `s`, in order: a later
/// write to a key overrides an earlier one.
pub open spec fn entries_map(s: Seq<Binding>) -> Map<EnvKey, OranValue>
    decreases s.len(),
{
    if s.len() == 0 {
        Map::empty()
    } else {
        entries_map(s.drop_last()).insert(s.last().key(), s.last().val)
    }
}

/// The environment store: the sole mutable state of evaluation, a mapping
/// from (scope id, binding kind, name) to a runtime value. Writes append;
/// the view keeps only each key's latest write, so an insert overwrites.
pub struct Env {
    entries: Vec<Binding>,
}

impl View for Env {
    type V = Map<EnvKey, OranValue>;

    closed spec fn view(&self) -> Map<EnvKey, OranValue> {
        entries_map(self.entries@)
    }
}

/// Bindings at positions `i` and beyond never use key `k`, so the store's
/// view at `k` is already settled by the first `i` bindings.
proof fn lemma_entries_map_prefix(s: Seq<Binding>, k: EnvKey, i: int)
    requires
        0 <= i <= s.len(),
        forall|j: int| i <= j < s.len() ==> (#[trigger] s[j]).key() != k,
    ensures
        entries_map(s).contains_key(k) == entries_map(s.take(i)).contains_key(k),
        entries_map(s).contains_key(k) ==> entries_map(s)[k] == entries_map(s.take(i))[k],
    decreases s.len() - i,
{
    if i < s.len() {
        lemma_entries_map_prefix(s, k, i + 1);
        assert(s.take(i + 1).drop_last() =~= s.take(i));
        assert(s.take(i + 1).last() == s[i]);
    } else {
        assert(s.take(i) =~= s);
    }
}

impl Env {
    /// A fresh store with no bindings.
    pub fn new() -> (r: Env)
        ensures
            r@ == Map::<EnvKey, OranValue>::empty(),
    {
        let e = Env { entries: Vec::new() };
        proof {
            assert(e.entries@.len() == 0);
        }
        e
    }

    /// Looks a binding up by its exact key.
    pub fn get(&self, scope: usize, kind: FunctionOrValueType, name: &String) -> (r: Option<
        &OranValue,
    >)
        ensures
            ({
                let k = EnvKey { scope: scope as int, kind, name: name@ };
                match r {
                    Some(v) => self@.contains_key(k) && *v == self@[k],
                    None => !self@.contains_key(k),
                }
            }),
    {
        let ghost k = EnvKey { scope: scope as int, kind, name: name@ };
        let mut i = self.entries.len();
        while i > 0
            invariant
                k == (EnvKey { scope: scope as int, kind, name: name@ }),
                i <= self.entries@.len(),
                forall|j: int|
                    i <= j < self.entries@.len() ==> (#[trigger] self.entries@[j]).key() != k,
            decreases i,
        {
            i = i - 1;
            let b = &self.entries[i];
            if b.scope == scope && b.kind == kind && b.name.eq(name) {
                proof {
                    assert(self.entries@[i as int].key() == k);
                    lemma_entries_map_prefix(self.entries@, k, i + 1);
                    assert(self.entries@.take(i + 1).drop_last() =~= self.entries@.take(i as int));
                    assert(self.entries@.take(i + 1).last() == self.entries@[i as int]);
                    assert(entries_map(self.entries@.take(i + 1))[k] == self.entries@[i as int].val);
                }
                return Some(&self.entries[i].val);
            }
            proof {
                assert(self.entries@[i as int].key() != k);
            }
        }
        proof {
            lemma_entries_map_prefix(self.entries@, k, 0);
            assert(self.entries@.take(0) =~= Seq::<Binding>::empty());
        }
        None
    }

    /// Writes a binding, overwriting any existing binding at the same key.
    pub fn insert(&mut self, scope: usize, kind: FunctionOrValueType, name: String, val: OranValue)
        ensures
            final(self)@ == old(self)@.insert(
                EnvKey { scope: scope as int, kind, name: name@ },
                val,
            ),
    {
        let ghost pre = self.entries@;
        let b = Binding { scope, kind, name, val };
        self.entries.push(b);
        proof {
            assert(self.entries@.drop_last() =~= pre);
        }
    }

    /// Removes every binding whose scope id equals `scope`; all other
    /// bindings keep their values. Used at call-frame teardown.
    pub fn purge(&mut self, scope: usize)
        ensures
            forall|k: EnvKey| k.scope == scope as int ==> !final(self)@.contains_key(k),
            forall|k: EnvKey|
                k.scope != scope as int ==> final(self)@.contains_key(k) == old(
                    self,
                )@.contains_key(k),
            forall|k: EnvKey|
                k.scope != scope as int && old(self)@.contains_key(k) ==> final(self)@[k] == old(
                    self,
                )@[k],
    {
        let ghost pre = self.entries@;
        let mut kept: Vec<Binding> = Vec::new();
        let mut i: usize = 0;
        while i < self.entries.len()
            invariant
                i <= self.entries@.len(),
                self.entries@ == pre,
                forall|k: EnvKey|
                    k.scope == scope as int ==> !entries_map(kept@).contains_key(k),
                forall|k: EnvKey|
                    k.scope != scope as int ==> entries_map(kept@).contains_key(k) == entries_map(
                        pre.take(i as int),
                    ).contains_key(k),
                forall|k: EnvKey|
                    k.scope != scope as int && entries_map(pre.take(i as int)).contains_key(k)
                        ==> entries_map(kept@)[k] == entries_map(pre.take(i as int))[k],
            decreases self.entries@.len() - i,
        {
            let ghost kept_pre = kept@;
            let b = &self.entries[i];
            if b.scope != scope {
                let c = b.clone();
                kept.push(c);
                proof {
                    assert(kept@.drop_last() =~= kept_pre);
                    assert(kept@.last() == pre[i as int]);
                    assert(entries_map(kept@) == entries_map(kept_pre).insert(
                        pre[i as int].key(),
                        pre[i as int].val,
                    ));
                    assert(pre[i as int].key().scope != scope as int);
                }
            }
            proof {
                assert(pre.take(i + 1).drop_last() =~= pre.take(i as int));
                assert(pre.take(i + 1).last() == pre[i as int]);
                assert(entries_map(pre.take(i + 1)) == entries_map(pre.take(i as int)).insert(
                    pre[i as int].key(),
                    pre[i as int].val,
                ));
            }
            i = i + 1;
        }
        proof {
            assert(pre.take(pre.len() as int) =~= pre);
        }
        self.entries = kept;
    }
}

} // verus!
