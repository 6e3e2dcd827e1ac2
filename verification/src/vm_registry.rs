//! The virtual machines of the scripts.
use crate::text::same_text;
use boa_engine::Context;
use vstd::prelude::*;

verus! {

/// The virtual machines of the scripts, by the identifiers of the scripts.
pub struct JsVmRegistry {
    vms: Vec<(String, Context)>,
}

/// The virtual machines under their keys, in which a later entry replaces an earlier one.
pub open spec fn machines(vms: Seq<(String, Context)>) -> Map<Seq<char>, Context>
    decreases vms.len(),
{
    if vms.len() == 0 {
        Map::empty()
    } else {
        machines(vms.drop_last()).insert(vms.last().0@, vms.last().1)
    }
}

impl View for JsVmRegistry {
    type V = Map<Seq<char>, Context>;

    closed spec fn view(&self) -> Map<Seq<char>, Context> {
        machines(self.vms@)
    }
}

/// The key of a script.
pub fn sid_key(script_id: &str) -> (key: String)
    ensures
        key@ == script_id@,
{
    script_id.to_owned()
}

/// No key occurs twice.
spec fn distinct(vms: Seq<(String, Context)>) -> bool {
    forall|i: int, k: int|
        0 <= i < k < vms.len() ==> (#[trigger] vms[i]).0@ != (#[trigger] vms[k]).0@
}

/// A script has a virtual machine.
spec fn holds(vms: Seq<(String, Context)>, key: Seq<char>) -> bool {
    exists|i: int| 0 <= i < vms.len() && (#[trigger] vms[i]).0@ == key
}

/// The keys of the registry are those of its entries, and what is under a key is the entry's.
proof fn lemma_machines(vms: Seq<(String, Context)>)
    requires
        distinct(vms),
    ensures
        forall|i: int|
            0 <= i < vms.len() ==> machines(vms).contains_key((#[trigger] vms[i]).0@) && machines(
                vms,
            )[vms[i].0@] == vms[i].1,
        forall|key: Seq<char>| #[trigger] machines(vms).contains_key(key) ==> holds(vms, key),
    decreases vms.len(),
{
    if vms.len() > 0 {
        let before = vms.drop_last();
        let last = vms.len() - 1;
        assert(distinct(before)) by {
            assert forall|i: int, k: int| 0 <= i < k < before.len() implies (#[trigger] before[i]).0@
                != (#[trigger] before[k]).0@ by {
                assert(vms[i].0@ != vms[k].0@);
            }
        }
        lemma_machines(before);
        assert forall|i: int| 0 <= i < vms.len() implies machines(vms).contains_key(
            (#[trigger] vms[i]).0@,
        ) && machines(vms)[vms[i].0@] == vms[i].1 by {
            if i < last {
                assert(before[i] == vms[i]);
                assert(vms[i].0@ != vms[last].0@);
            }
        }
        assert forall|key: Seq<char>| #[trigger] machines(vms).contains_key(key) implies holds(
            vms,
            key,
        ) by {
            if key == vms[last].0@ {
            } else {
                assert(machines(before).contains_key(key));
                let i = choose|i: int| 0 <= i < before.len() && (#[trigger] before[i]).0@ == key;
                assert(vms[i].0@ == key);
            }
        }
    }
}

/// Without an entry, its key has no virtual machine and the others have theirs.
proof fn lemma_without(vms: Seq<(String, Context)>, at: int)
    requires
        distinct(vms),
        0 <= at < vms.len(),
    ensures
        distinct(vms.remove(at)),
        machines(vms.remove(at)) == machines(vms).remove(vms[at].0@),
{
    let rest = vms.remove(at);
    assert(distinct(rest)) by {
        assert forall|i: int, k: int| 0 <= i < k < rest.len() implies (#[trigger] rest[i]).0@ != (
        #[trigger] rest[k]).0@ by {
            let i_before = if i < at { i } else { i + 1 };
            let k_before = if k < at { k } else { k + 1 };
            assert(vms[i_before].0@ != vms[k_before].0@);
        }
    }
    lemma_machines(vms);
    lemma_machines(rest);
    let key = vms[at].0@;
    assert forall|own: Seq<char>| machines(vms).remove(key).contains_key(own) implies machines(
        rest,
    ).contains_key(own) && machines(rest)[own] == machines(vms)[own] by {
        assert(holds(vms, own));
        let i = choose|i: int| 0 <= i < vms.len() && (#[trigger] vms[i]).0@ == own;
        let i_after = if i < at { i } else { i - 1 };
        assert(rest[i_after] == vms[i]);
        assert(machines(vms)[vms[i].0@] == vms[i].1);
    }
    assert forall|own: Seq<char>| machines(rest).contains_key(own) implies machines(vms).remove(
        key,
    ).contains_key(own) by {
        assert(holds(rest, own));
        let i = choose|i: int| 0 <= i < rest.len() && (#[trigger] rest[i]).0@ == own;
        let i_before = if i < at { i } else { i + 1 };
        assert(rest[i] == vms[i_before]);
        assert(vms[i_before].0@ != key) by {
            if i_before < at {
                assert(vms[i_before].0@ != vms[at].0@);
            } else {
                assert(vms[at].0@ != vms[i_before].0@);
            }
        }
    }
    assert(machines(rest) =~= machines(vms).remove(key));
}

impl JsVmRegistry {
    /// No script has two virtual machines.
    #[verifier::type_invariant]
    spec fn unambiguous(self) -> bool {
        distinct(self.vms@)
    }

    /// No virtual machines.
    pub fn new() -> (registry: JsVmRegistry)
        ensures
            registry@ == Map::<Seq<char>, Context>::empty(),
    {
        JsVmRegistry { vms: Vec::new() }
    }

    /// Takes the virtual machine of a script out of the registry.
    pub fn take(&mut self, key: &str) -> (vm: Option<Context>)
        ensures
            vm == (if old(self)@.contains_key(key@) {
                Some(old(self)@[key@])
            } else {
                None
            }),
            final(self)@ == old(self)@.remove(key@),
    {
        proof {
            use_type_invariant(&*self);
            lemma_machines(self.vms@);
        }
        let ghost vms = self.vms@;
        let mut i: usize = 0;
        while i < self.vms.len()
            invariant
                i <= self.vms@.len(),
                self.vms@ == vms,
                old(self).vms@ == vms,
                distinct(vms),
                old(self)@ == machines(vms),
                forall|k: int|
                    0 <= k < vms.len() ==> machines(vms).contains_key((#[trigger] vms[k]).0@)
                        && machines(vms)[vms[k].0@] == vms[k].1,
                forall|own: Seq<char>| #[trigger]
                    machines(vms).contains_key(own) ==> holds(vms, own),
                forall|k: int| 0 <= k < i ==> (#[trigger] vms[k]).0@ != key@,
            decreases self.vms@.len() - i,
        {
            if same_text(&self.vms[i].0, key) {
                let mut rest: Vec<(String, Context)> = Vec::new();
                std::mem::swap(&mut rest, &mut self.vms);
                proof {
                    lemma_without(vms, i as int);
                }
                let entry = rest.remove(i);
                self.vms = rest;
                return Some(entry.1);
            }
            i = i + 1;
        }
        assert(!machines(vms).contains_key(key@));
        assert(machines(vms).remove(key@) =~= machines(vms));
        None
    }

    /// Gives a script a virtual machine, and hands back the one that it had.
    pub fn insert(&mut self, key: String, vm: Context) -> (previous: Option<Context>)
        ensures
            previous == (if old(self)@.contains_key(key@) {
                Some(old(self)@[key@])
            } else {
                None
            }),
            final(self)@ == old(self)@.insert(key@, vm),
    {
        let previous = self.take(&key);
        proof {
            use_type_invariant(&*self);
            lemma_machines(self.vms@);
        }
        let ghost vms = self.vms@;
        let ghost added = vms.push((key, vm));
        let mut rest: Vec<(String, Context)> = Vec::new();
        std::mem::swap(&mut rest, &mut self.vms);
        rest.push((key, vm));
        proof {
            assert forall|i: int, k: int| 0 <= i < k < added.len() implies (#[trigger] added[i]).0@
                != (#[trigger] added[k]).0@ by {
                if k == vms.len() {
                    assert(machines(vms).contains_key(vms[i].0@));
                } else {
                    assert(vms[i].0@ != vms[k].0@);
                }
            }
            assert(added.drop_last() == vms);
            assert(machines(added) =~= old(self)@.insert(added.last().0@, added.last().1));
        }
        self.vms = rest;
        previous
    }
}

} // verus!
