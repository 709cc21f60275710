use vstd::prelude::*;

use crate::merge::contains_string;
use crate::workload::strs;

verus! {

/// The state that the runtime reports for an instance.
#[derive(Clone, Copy, Debug, PartialEq, Eq, Structural)]
pub enum InstanceState {
    Running,
    Stopped,
    Failed,
    Unknown,
}

/// The kind of object that owns an instance.
#[derive(Clone, Copy, Debug, PartialEq, Eq, Structural)]
pub enum ProcessKind {
    Cargo,
    Job,
    Vm,
}

/// One concrete unit that runs for a workload.
#[derive(Debug)]
pub struct Instance {
    pub key: String,
    pub owner_key: String,
    pub kind: ProcessKind,
    pub state: InstanceState,
    pub namespace: String,
}

impl Instance {
    /// A copy of this instance.
    pub fn copy(&self) -> (r: Instance)
        ensures
            r == *self,
    {
        Instance {
            key: self.key.clone(),
            owner_key: self.owner_key.clone(),
            kind: self.kind,
            state: self.state,
            namespace: self.namespace.clone(),
        }
    }
}

/// No two instances share a key.
pub open spec fn keys_unique(s: Seq<Instance>) -> bool {
    forall|a: int, b: int|
        0 <= a < s.len() && 0 <= b < s.len() && a != b ==> #[trigger] s[a].key@ != #[trigger] s[b].key@
}

/// The keys of the instances that `owner` owns.
pub open spec fn owned_keys(s: Seq<Instance>, owner: Seq<char>) -> Set<Seq<char>> {
    Set::new(|k: Seq<char>| exists|i: int| 0 <= i < s.len() && #[trigger] s[i].key@ == k && s[i].owner_key@ == owner)
}

/// The keys of all instances.
pub open spec fn all_keys(s: Seq<Instance>) -> Set<Seq<char>> {
    Set::new(|k: Seq<char>| exists|i: int| 0 <= i < s.len() && #[trigger] s[i].key@ == k)
}

/// Joining two sequences of instances joins the keys they hold, those of
/// one owner and all of them.
pub proof fn lemma_owned_concat(a: Seq<Instance>, b: Seq<Instance>, owner: Seq<char>)
    ensures
        owned_keys(a + b, owner) == owned_keys(a, owner).union(owned_keys(b, owner)),
        all_keys(a + b) == all_keys(a).union(all_keys(b)),
{
    let ab = a + b;
    assert forall|k: Seq<char>| owned_keys(ab, owner).contains(k) <==> owned_keys(a, owner).union(owned_keys(b, owner)).contains(k) by {
        if owned_keys(ab, owner).contains(k) {
            let i = choose|i: int| 0 <= i < ab.len() && #[trigger] ab[i].key@ == k && ab[i].owner_key@ == owner;
            if i < a.len() {
                assert(a[i].key@ == k);
            } else {
                assert(b[i - a.len()].key@ == k);
            }
        }
        if owned_keys(a, owner).contains(k) {
            let i = choose|i: int| 0 <= i < a.len() && #[trigger] a[i].key@ == k && a[i].owner_key@ == owner;
            assert(ab[i].key@ == k);
        }
        if owned_keys(b, owner).contains(k) {
            let i = choose|i: int| 0 <= i < b.len() && #[trigger] b[i].key@ == k && b[i].owner_key@ == owner;
            assert(ab[i + a.len()].key@ == k);
        }
    }
    assert forall|k: Seq<char>| all_keys(ab).contains(k) <==> all_keys(a).union(all_keys(b)).contains(k) by {
        if all_keys(ab).contains(k) {
            let i = choose|i: int| 0 <= i < ab.len() && #[trigger] ab[i].key@ == k;
            if i < a.len() {
                assert(a[i].key@ == k);
            } else {
                assert(b[i - a.len()].key@ == k);
            }
        }
        if all_keys(a).contains(k) {
            let i = choose|i: int| 0 <= i < a.len() && #[trigger] a[i].key@ == k;
            assert(ab[i].key@ == k);
        }
        if all_keys(b).contains(k) {
            let i = choose|i: int| 0 <= i < b.len() && #[trigger] b[i].key@ == k;
            assert(ab[i + a.len()].key@ == k);
        }
    }
    assert(owned_keys(ab, owner) =~= owned_keys(a, owner).union(owned_keys(b, owner)));
    assert(all_keys(ab) =~= all_keys(a).union(all_keys(b)));
}

/// Two sequences of instances with unique keys, no key in both, have
/// unique keys together.
pub proof fn lemma_unique_concat(a: Seq<Instance>, b: Seq<Instance>)
    requires
        keys_unique(a),
        keys_unique(b),
        forall|k: Seq<char>| all_keys(a).contains(k) ==> !#[trigger] all_keys(b).contains(k),
    ensures
        keys_unique(a + b),
{
    let ab = a + b;
    assert forall|x: int, y: int| 0 <= x < ab.len() && 0 <= y < ab.len() && x != y implies #[trigger] ab[x].key@ != #[trigger] ab[y].key@ by {
        if x < a.len() && y >= a.len() {
            assert(all_keys(a).contains(a[x].key@));
            assert(all_keys(b).contains(b[y - a.len()].key@));
        } else if x >= a.len() && y < a.len() {
            assert(all_keys(a).contains(a[y].key@));
            assert(all_keys(b).contains(b[x - a.len()].key@));
        } else if x < a.len() {
            assert(a[x].key@ != a[y].key@);
        } else {
            assert(b[x - a.len()].key@ != b[y - a.len()].key@);
        }
    }
}

/// The instances whose key is not listed in `drop`, in order.
pub fn retain_instances(insts: &Vec<Instance>, drop: &Vec<String>) -> (r: Vec<Instance>)
    requires
        keys_unique(insts@),
    ensures
        keys_unique(r@),
        forall|o: Seq<char>|
            #[trigger] owned_keys(r@, o) == owned_keys(insts@, o).difference(strs(drop@).to_set()),
        all_keys(r@) == all_keys(insts@).difference(strs(drop@).to_set()),
        forall|a: int| 0 <= a < r@.len() ==> insts@.contains(#[trigger] r@[a]),
{
    let ghost d = strs(drop@).to_set();
    let ghost mut idx: Seq<int> = Seq::empty();
    let mut r: Vec<Instance> = Vec::new();
    let mut i: usize = 0;
    while i < insts.len()
        invariant
            d == strs(drop@).to_set(),
            keys_unique(insts@),
            i <= insts@.len(),
            idx.len() == r@.len(),
            forall|a: int| 0 <= a < r@.len() ==> 0 <= #[trigger] idx[a] < i && r@[a] == insts@[idx[a]] && !d.contains(insts@[idx[a]].key@),
            forall|j: int| 0 <= j < i && !d.contains(#[trigger] insts@[j].key@) ==> exists|a: int| 0 <= a < r@.len() && #[trigger] r@[a] == insts@[j],
            keys_unique(r@),
        decreases insts@.len() - i,
    {
        if !contains_string(drop, &insts[i].key) {
            let ghost before = r@;
            assert forall|a: int| 0 <= a < before.len() implies before[a].key@ != insts@[i as int].key@ by {
                assert(insts@[idx[a]].key@ != insts@[i as int].key@);
            }
            r.push(insts[i].copy());
            proof {
                idx = idx.push(i as int);
            }
            assert forall|j: int| 0 <= j < i + 1 && !d.contains(#[trigger] insts@[j].key@) implies exists|a: int| 0 <= a < r@.len() && #[trigger] r@[a] == insts@[j] by {
                if j < i {
                    let a = choose|a: int| 0 <= a < before.len() && #[trigger] before[a] == insts@[j];
                    assert(r@[a] == insts@[j]);
                } else {
                    assert(r@[before.len() as int] == insts@[j]);
                }
            }
        } else {
            assert(strs(drop@).contains(insts@[i as int].key@));
        }
        i = i + 1;
    }
    assert forall|o: Seq<char>| #[trigger] owned_keys(r@, o) == owned_keys(insts@, o).difference(d) by {
        assert forall|k: Seq<char>| owned_keys(r@, o).contains(k) <==> owned_keys(insts@, o).difference(d).contains(k) by {
            if owned_keys(r@, o).contains(k) {
                let a = choose|a: int| 0 <= a < r@.len() && #[trigger] r@[a].key@ == k && r@[a].owner_key@ == o;
                assert(insts@[idx[a]].key@ == k);
            }
            if owned_keys(insts@, o).difference(d).contains(k) {
                let j = choose|j: int| 0 <= j < insts@.len() && #[trigger] insts@[j].key@ == k && insts@[j].owner_key@ == o;
                let a = choose|a: int| 0 <= a < r@.len() && #[trigger] r@[a] == insts@[j];
                assert(r@[a].key@ == k);
            }
        }
        assert(owned_keys(r@, o) =~= owned_keys(insts@, o).difference(d));
    }
    assert forall|k: Seq<char>| all_keys(r@).contains(k) <==> all_keys(insts@).difference(d).contains(k) by {
        if all_keys(r@).contains(k) {
            let a = choose|a: int| 0 <= a < r@.len() && #[trigger] r@[a].key@ == k;
            assert(insts@[idx[a]].key@ == k);
        }
        if all_keys(insts@).difference(d).contains(k) {
            let j = choose|j: int| 0 <= j < insts@.len() && #[trigger] insts@[j].key@ == k;
            let a = choose|a: int| 0 <= a < r@.len() && #[trigger] r@[a] == insts@[j];
            assert(r@[a].key@ == k);
        }
    }
    assert(all_keys(r@) =~= all_keys(insts@).difference(d));
    assert forall|a: int| 0 <= a < r@.len() implies insts@.contains(#[trigger] r@[a]) by {
        assert(r@[a] == insts@[idx[a]]);
    }
    r
}

} // verus!
