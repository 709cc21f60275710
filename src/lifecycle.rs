use vstd::prelude::*;

use crate::instance::{
    Instance, InstanceState, ProcessKind, all_keys, keys_unique, lemma_owned_concat, lemma_unique_concat,
    owned_keys, retain_instances,
};
use crate::merge::{contains_string, merge_spec, merged_spec};
use crate::replication::{instance_count, resolve_replication};
use crate::workload::{strs, SpecPatch, WorkloadSpec, WorkloadView};

verus! {

/// One persisted version of a workload spec.
#[derive(Debug)]
pub struct SpecRecord {
    pub key: String,
    pub namespace: String,
    pub version: String,
    pub spec: WorkloadSpec,
}

/// A spec record with each string seen as its characters.
pub struct RecordView {
    pub key: Seq<char>,
    pub namespace: Seq<char>,
    pub version: Seq<char>,
    pub spec: WorkloadView,
}

impl View for SpecRecord {
    type V = RecordView;

    open spec fn view(&self) -> RecordView {
        RecordView { key: self.key@, namespace: self.namespace@, version: self.version@, spec: self.spec@ }
    }
}

/// The views of a sequence of records.
pub open spec fn record_views(s: Seq<SpecRecord>) -> Seq<RecordView> {
    s.map_values(|r: SpecRecord| r@)
}

/// Whether some version of the workload `key` is persisted.
pub open spec fn has_spec(s: Seq<SpecRecord>, key: Seq<char>) -> bool {
    exists|i: int| 0 <= i < s.len() && #[trigger] s[i].key@ == key
}

/// The index of the current (latest persisted) version of the workload `key`.
pub open spec fn latest(s: Seq<SpecRecord>, key: Seq<char>) -> Option<int>
    decreases s.len(),
{
    if s.len() == 0 {
        None
    } else if s.last().key@ == key {
        Some(s.len() - 1)
    } else {
        latest(s.drop_last(), key)
    }
}

/// The owner of every instance has a spec.
pub open spec fn owners_have_specs(insts: Seq<Instance>, specs: Seq<SpecRecord>) -> bool {
    forall|i: int| 0 <= i < insts.len() ==> has_spec(specs, (#[trigger] insts[i]).owner_key@)
}

/// Adding a record keeps every owner that had a spec.
pub proof fn lemma_owners_push(insts: Seq<Instance>, specs: Seq<SpecRecord>, rec: SpecRecord)
    requires
        owners_have_specs(insts, specs),
    ensures
        owners_have_specs(insts, specs.push(rec)),
{
    assert forall|i: int| 0 <= i < insts.len() implies has_spec(specs.push(rec), (#[trigger] insts[i]).owner_key@) by {
        let j = choose|j: int| 0 <= j < specs.len() && #[trigger] specs[j].key@ == insts[i].owner_key@;
        assert(specs.push(rec)[j] == specs[j]);
    }
}

/// Owners that have specs in two sequences of instances have them in both
/// together.
pub proof fn lemma_owners_concat(a: Seq<Instance>, b: Seq<Instance>, specs: Seq<SpecRecord>)
    requires
        owners_have_specs(a, specs),
        owners_have_specs(b, specs),
    ensures
        owners_have_specs(a + b, specs),
{
    assert forall|i: int| 0 <= i < (a + b).len() implies has_spec(specs, (#[trigger] (a + b)[i]).owner_key@) by {
        if i < a.len() {
            assert((a + b)[i] == a[i]);
        } else {
            assert((a + b)[i] == b[i - a.len()]);
        }
    }
}

/// Instances taken from a sequence whose owners have specs have owners
/// with specs.
pub proof fn lemma_owners_subset(r: Seq<Instance>, insts: Seq<Instance>, specs: Seq<SpecRecord>)
    requires
        owners_have_specs(insts, specs),
        forall|a: int| 0 <= a < r.len() ==> insts.contains(#[trigger] r[a]),
    ensures
        owners_have_specs(r, specs),
{
    assert forall|a: int| 0 <= a < r.len() implies has_spec(specs, (#[trigger] r[a]).owner_key@) by {
        assert(insts.contains(r[a]));
        let j = choose|j: int| 0 <= j < insts.len() && insts[j] == r[a];
        assert(has_spec(specs, insts[j].owner_key@));
    }
}

/// The current version is a version of the key, and there is one exactly
/// when some version is persisted.
pub proof fn lemma_latest(s: Seq<SpecRecord>, key: Seq<char>)
    ensures
        match latest(s, key) {
            Some(i) => 0 <= i < s.len() && s[i].key@ == key,
            None => !has_spec(s, key),
        },
    decreases s.len(),
{
    if s.len() > 0 && s.last().key@ != key {
        lemma_latest(s.drop_last(), key);
        match latest(s.drop_last(), key) {
            Some(i) => {
                assert(s[i] == s.drop_last()[i]);
            },
            None => {
                assert forall|i: int| 0 <= i < s.len() implies #[trigger] s[i].key@ != key by {
                    if i < s.len() - 1 {
                        assert(s[i] == s.drop_last()[i]);
                    }
                }
            },
        }
    }
}

/// The instances that `owner` owns, in order.
pub open spec fn owned_seq(s: Seq<Instance>, owner: Seq<char>) -> Seq<Instance>
    decreases s.len(),
{
    if s.len() == 0 {
        s
    } else if s.last().owner_key@ == owner {
        owned_seq(s.drop_last(), owner).push(s.last())
    } else {
        owned_seq(s.drop_last(), owner)
    }
}

/// How many instances of a sequence the runtime reports as running.
pub open spec fn count_running(s: Seq<Instance>) -> nat
    decreases s.len(),
{
    if s.len() == 0 {
        0
    } else {
        count_running(s.drop_last()) + if s.last().state == InstanceState::Running { 1nat } else { 0nat }
    }
}

/// The keys of the instances that the runtime created, in order.
pub open spec fn created_keys(c: Seq<Result<String, String>>) -> Seq<Seq<char>>
    decreases c.len(),
{
    if c.len() == 0 {
        Seq::empty()
    } else {
        match c.last() {
            Ok(k) => created_keys(c.drop_last()).push(k@),
            Err(_) => created_keys(c.drop_last()),
        }
    }
}

/// What the runtime reported for the instances it could not create, in order.
pub open spec fn failure_reasons(c: Seq<Result<String, String>>) -> Seq<Seq<char>>
    decreases c.len(),
{
    if c.len() == 0 {
        Seq::empty()
    } else {
        match c.last() {
            Ok(_) => failure_reasons(c.drop_last()),
            Err(e) => failure_reasons(c.drop_last()).push(e@),
        }
    }
}

/// A batch of `n` instances was created: every create call succeeded, and
/// the keys are distinct and were not taken by another instance.
pub open spec fn batch_ok(c: Seq<Result<String, String>>, n: nat, taken: Set<Seq<char>>) -> bool {
    &&& c.len() == n
    &&& created_keys(c).len() == n
    &&& created_keys(c).no_duplicates()
    &&& forall|i: int| 0 <= i < created_keys(c).len() ==> !taken.contains(#[trigger] created_keys(c)[i])
}

/// `s` holds one instance for each key, in order, owned by `owner`.
pub open spec fn fresh_batch(
    s: Seq<Instance>,
    keys: Seq<Seq<char>>,
    owner: Seq<char>,
    namespace: Seq<char>,
    state: InstanceState,
) -> bool {
    &&& s.len() == keys.len()
    &&& forall|i: int| 0 <= i < s.len() ==> {
        &&& (#[trigger] s[i]).key@ == keys[i]
        &&& s[i].owner_key@ == owner
        &&& s[i].namespace@ == namespace
        &&& s[i].state == state
        &&& s[i].kind == ProcessKind::Cargo
    }
}

/// The keys of a fresh batch are the keys it was made from, all owned by
/// its owner; with distinct keys there are as many as instances.
pub proof fn lemma_fresh_batch(
    s: Seq<Instance>,
    keys: Seq<Seq<char>>,
    owner: Seq<char>,
    namespace: Seq<char>,
    state: InstanceState,
)
    requires
        fresh_batch(s, keys, owner, namespace, state),
    ensures
        owned_keys(s, owner) == keys.to_set(),
        all_keys(s) == keys.to_set(),
        forall|o: Seq<char>| o != owner ==> #[trigger] owned_keys(s, o) == Set::<Seq<char>>::empty(),
        keys.no_duplicates() ==> keys_unique(s) && keys.to_set().len() == keys.len(),
{
    assert forall|k: Seq<char>| owned_keys(s, owner).contains(k) <==> keys.to_set().contains(k) by {
        if keys.to_set().contains(k) {
            let i = choose|i: int| 0 <= i < keys.len() && keys[i] == k;
            assert(s[i].key@ == k);
        }
    }
    assert(owned_keys(s, owner) =~= keys.to_set());
    assert forall|k: Seq<char>| all_keys(s).contains(k) <==> keys.to_set().contains(k) by {
        if keys.to_set().contains(k) {
            let i = choose|i: int| 0 <= i < keys.len() && keys[i] == k;
            assert(s[i].key@ == k);
        }
    }
    assert(all_keys(s) =~= keys.to_set());
    assert forall|o: Seq<char>| o != owner implies #[trigger] owned_keys(s, o) == Set::<Seq<char>>::empty() by {
        assert(owned_keys(s, o) =~= Set::<Seq<char>>::empty());
    }
    if keys.no_duplicates() {
        keys.unique_seq_to_set();
    }
}

/// The instances of a fresh batch have an owner with a spec, where the
/// owner has one.
pub proof fn lemma_fresh_owners(
    s: Seq<Instance>,
    keys: Seq<Seq<char>>,
    owner: Seq<char>,
    namespace: Seq<char>,
    state: InstanceState,
    specs: Seq<SpecRecord>,
)
    requires
        fresh_batch(s, keys, owner, namespace, state),
        has_spec(specs, owner),
    ensures
        owners_have_specs(s, specs),
{
    assert forall|i: int| 0 <= i < s.len() implies has_spec(specs, (#[trigger] s[i]).owner_key@) by {
        assert(s[i].owner_key@ == owner);
    }
}

/// The keys and the failure reasons of a batch that the runtime reported.
fn split_batch(c: &Vec<Result<String, String>>) -> (r: (Vec<String>, Vec<String>))
    ensures
        strs(r.0@) == created_keys(c@),
        strs(r.1@) == failure_reasons(c@),
{
    let mut keys: Vec<String> = Vec::new();
    let mut reasons: Vec<String> = Vec::new();
    let mut i: usize = 0;
    while i < c.len()
        invariant
            i <= c@.len(),
            strs(keys@) == created_keys(c@.take(i as int)),
            strs(reasons@) == failure_reasons(c@.take(i as int)),
        decreases c@.len() - i,
    {
        assert(c@.take(i as int + 1).drop_last() =~= c@.take(i as int));
        let ghost bk = strs(keys@);
        let ghost br = strs(reasons@);
        match &c[i] {
            Ok(k) => {
                keys.push(k.clone());
                assert(strs(keys@) =~= bk.push(k@));
            },
            Err(e) => {
                reasons.push(e.clone());
                assert(strs(reasons@) =~= br.push(e@));
            },
        }
        i = i + 1;
    }
    assert(c@.take(c@.len() as int) =~= c@);
    (keys, reasons)
}

/// Whether the keys are distinct and none is the key of an instance.
fn keys_fresh(keys: &Vec<String>, insts: &Vec<Instance>) -> (r: bool)
    ensures
        r == (strs(keys@).no_duplicates() && forall|i: int|
            0 <= i < keys@.len() ==> !all_keys(insts@).contains(#[trigger] strs(keys@)[i])),
{
    let ghost ks = strs(keys@);
    let mut i: usize = 0;
    while i < keys.len()
        invariant
            ks == strs(keys@),
            i <= keys@.len(),
            forall|a: int, b: int| 0 <= a < i && 0 <= b < i && a != b ==> ks[a] != ks[b],
            forall|a: int| 0 <= a < i ==> !all_keys(insts@).contains(#[trigger] ks[a]),
        decreases keys@.len() - i,
    {
        let mut j: usize = 0;
        while j < i
            invariant
                ks == strs(keys@),
                i < keys@.len(),
                j <= i,
                forall|a: int| 0 <= a < j ==> ks[a] != ks[i as int],
            decreases i - j,
        {
            if keys[j] == keys[i] {
                assert(ks[j as int] == ks[i as int]);
                return false;
            }
            j = j + 1;
        }
        let mut m: usize = 0;
        while m < insts.len()
            invariant
                ks == strs(keys@),
                i < keys@.len(),
                m <= insts@.len(),
                forall|b: int| 0 <= b < m ==> insts@[b].key@ != ks[i as int],
            decreases insts@.len() - m,
        {
            if insts[m].key == keys[i] {
                assert(all_keys(insts@).contains(ks[i as int])) by {
                    assert(insts@[m as int].key@ == ks[i as int]);
                }
                return false;
            }
            m = m + 1;
        }
        i = i + 1;
    }
    true
}

/// One instance for each key, owned by `owner` in `namespace`.
fn spawn(keys: &Vec<String>, owner: &String, namespace: &String, state: InstanceState) -> (r: Vec<Instance>)
    ensures
        fresh_batch(r@, strs(keys@), owner@, namespace@, state),
{
    let mut r: Vec<Instance> = Vec::new();
    let mut i: usize = 0;
    while i < keys.len()
        invariant
            i <= keys@.len(),
            fresh_batch(r@, strs(keys@).take(i as int), owner@, namespace@, state),
        decreases keys@.len() - i,
    {
        r.push(Instance {
            key: keys[i].clone(),
            owner_key: owner.clone(),
            kind: ProcessKind::Cargo,
            state,
            namespace: namespace.clone(),
        });
        i = i + 1;
    }
    assert(strs(keys@).take(keys@.len() as int) =~= strs(keys@));
    r
}

/// The strings of `a` that are (with `present`) or are not in `b`, in order.
fn select(a: &Vec<String>, b: &Vec<String>, present: bool) -> (r: Vec<String>)
    ensures
        strs(r@).to_set() == if present {
            strs(a@).to_set().intersect(strs(b@).to_set())
        } else {
            strs(a@).to_set().difference(strs(b@).to_set())
        },
        strs(a@).no_duplicates() ==> strs(r@).no_duplicates(),
{
    let ghost av = strs(a@);
    let ghost bs = strs(b@).to_set();
    let ghost mut idx: Seq<int> = Seq::empty();
    let mut r: Vec<String> = Vec::new();
    let mut i: usize = 0;
    while i < a.len()
        invariant
            av == strs(a@),
            bs == strs(b@).to_set(),
            i <= a@.len(),
            idx.len() == r@.len(),
            forall|x: int, y: int| 0 <= x < y < idx.len() ==> idx[x] < idx[y],
            forall|x: int| 0 <= x < r@.len() ==> 0 <= #[trigger] idx[x] < i && r@[x]@ == av[idx[x]]
                && bs.contains(av[idx[x]]) == present,
            forall|j: int| 0 <= j < i && bs.contains(#[trigger] av[j]) == present ==> strs(r@).contains(av[j]),
        decreases a@.len() - i,
    {
        let found = contains_string(b, &a[i]);
        if found == present {
            let ghost before = r@;
            r.push(a[i].clone());
            proof {
                idx = idx.push(i as int);
                assert forall|j: int| 0 <= j < i + 1 && bs.contains(#[trigger] av[j]) == present implies strs(r@).contains(av[j]) by {
                    if j < i {
                        let x = choose|x: int| 0 <= x < strs(before).len() && strs(before)[x] == av[j];
                        assert(strs(r@)[x] == av[j]);
                    } else {
                        assert(strs(r@)[before.len() as int] == av[j]);
                    }
                }
            }
        }
        i = i + 1;
    }
    let ghost target = if present {
        strs(a@).to_set().intersect(bs)
    } else {
        strs(a@).to_set().difference(bs)
    };
    assert forall|k: Seq<char>| strs(r@).to_set().contains(k) <==> target.contains(k) by {
        if strs(r@).contains(k) {
            let x = choose|x: int| 0 <= x < strs(r@).len() && strs(r@)[x] == k;
            assert(av.contains(av[idx[x]]));
        }
        if target.contains(k) {
            let j = choose|j: int| 0 <= j < av.len() && av[j] == k;
            assert(bs.contains(av[j]) == present);
        }
    }
    assert(strs(r@).to_set() =~= target);
    proof {
        if strs(a@).no_duplicates() {
            assert forall|x: int, y: int| 0 <= x < strs(r@).len() && 0 <= y < strs(r@).len() && x != y implies strs(r@)[x] != strs(r@)[y] by {
                if x < y {
                    assert(idx[x] < idx[y]);
                } else {
                    assert(idx[y] < idx[x]);
                }
            }
        }
    }
    r
}

/// What the spec and process stores hold: the versions of every workload
/// spec, oldest first, and the instances that run for them.
#[derive(Debug)]
pub struct Registry {
    pub specs: Vec<SpecRecord>,
    pub instances: Vec<Instance>,
}

/// A read-only view of a workload: its current spec and its instances, with
/// how many there are and how many are running.
#[derive(Debug)]
pub struct WorkloadInspect {
    pub key: String,
    pub namespace: String,
    pub version: String,
    pub spec: WorkloadSpec,
    pub instance_total: usize,
    pub instance_running: usize,
    pub instances: Vec<Instance>,
}

impl Registry {
    /// No two instances share a key, and the owner of every instance has a
    /// spec.
    pub open spec fn wf(&self) -> bool {
        &&& keys_unique(self.instances@)
        &&& owners_have_specs(self.instances@, self.specs@)
    }

    /// Empty stores.
    pub fn new() -> (r: Registry)
        ensures
            r.wf(),
            r.specs@.len() == 0,
            r.instances@.len() == 0,
    {
        Registry { specs: Vec::new(), instances: Vec::new() }
    }

    /// The index of the current version of the workload `key`.
    pub fn find_latest(&self, key: &String) -> (r: Option<usize>)
        ensures
            match r {
                Some(i) => latest(self.specs@, key@) == Some(i as int) && i < self.specs@.len()
                    && self.specs@[i as int].key@ == key@,
                None => latest(self.specs@, key@).is_none() && !has_spec(self.specs@, key@),
            },
    {
        proof {
            lemma_latest(self.specs@, key@);
        }
        let mut i: usize = self.specs.len();
        assert(self.specs@.take(i as int) =~= self.specs@);
        while i > 0
            invariant
                i <= self.specs@.len(),
                latest(self.specs@, key@) == latest(self.specs@.take(i as int), key@),
            decreases i,
        {
            assert(self.specs@.take(i as int).drop_last() =~= self.specs@.take(i - 1));
            if self.specs[i - 1].key == *key {
                return Some(i - 1);
            }
            i = i - 1;
        }
        None
    }

    /// The current spec of the workload `key`, with its instances and how
    /// many of them are running; `NotFound` for an unknown key.
    pub fn inspect_workload(&self, key: &String) -> (r: Result<WorkloadInspect, LifecycleError>)
        ensures
            match r {
                Ok(v) => {
                    &&& latest(self.specs@, key@) is Some
                    &&& v.key@ == key@
                    &&& self.specs@[latest(self.specs@, key@)->0]@ == (RecordView {
                        key: v.key@,
                        namespace: v.namespace@,
                        version: v.version@,
                        spec: v.spec@,
                    })
                    &&& v.instances@ == owned_seq(self.instances@, key@)
                    &&& v.instance_total == owned_seq(self.instances@, key@).len()
                    &&& v.instance_running == count_running(owned_seq(self.instances@, key@))
                },
                Err(e) => latest(self.specs@, key@) is None && e == LifecycleError::NotFound(*key),
            },
    {
        match self.find_latest(key) {
            None => Err(LifecycleError::NotFound(key.clone())),
            Some(p) => {
                let rec = &self.specs[p];
                let mut instances: Vec<Instance> = Vec::new();
                let mut running: usize = 0;
                let mut i: usize = 0;
                while i < self.instances.len()
                    invariant
                        i <= self.instances@.len(),
                        instances@ == owned_seq(self.instances@.take(i as int), key@),
                        running == count_running(instances@),
                        running <= instances@.len(),
                        instances@.len() <= i,
                    decreases self.instances@.len() - i,
                {
                    assert(self.instances@.take(i as int + 1).drop_last() =~= self.instances@.take(i as int));
                    if self.instances[i].owner_key == *key {
                        let ghost before = instances@;
                        instances.push(self.instances[i].copy());
                        assert(instances@.drop_last() =~= before);
                        if self.instances[i].state == InstanceState::Running {
                            running = running + 1;
                        }
                    }
                    i = i + 1;
                }
                assert(self.instances@.take(self.instances@.len() as int) =~= self.instances@);
                let total = instances.len();
                Ok(WorkloadInspect {
                    key: rec.key.clone(),
                    namespace: rec.namespace.clone(),
                    version: rec.version.clone(),
                    spec: rec.spec.copy(),
                    instance_total: total,
                    instance_running: running,
                    instances,
                })
            },
        }
    }
}

impl Registry {
    /// The keys of the instances that `owner` owns.
    pub fn owned_list(&self, owner: &String) -> (r: Vec<String>)
        ensures
            strs(r@).to_set() == owned_keys(self.instances@, owner@),
            self.wf() ==> strs(r@).no_duplicates(),
    {
        let ghost s = self.instances@;
        let ghost mut idx: Seq<int> = Seq::empty();
        let mut r: Vec<String> = Vec::new();
        let mut i: usize = 0;
        while i < self.instances.len()
            invariant
                s == self.instances@,
                i <= s.len(),
                idx.len() == r@.len(),
                forall|x: int, y: int| 0 <= x < y < idx.len() ==> idx[x] < idx[y],
                forall|x: int| 0 <= x < r@.len() ==> 0 <= #[trigger] idx[x] < i && r@[x]@ == s[idx[x]].key@
                    && s[idx[x]].owner_key@ == owner@,
                forall|j: int| 0 <= j < i && (#[trigger] s[j]).owner_key@ == owner@ ==> strs(r@).contains(s[j].key@),
            decreases s.len() - i,
        {
            if self.instances[i].owner_key == *owner {
                let ghost before = r@;
                r.push(self.instances[i].key.clone());
                proof {
                    idx = idx.push(i as int);
                    assert forall|j: int| 0 <= j < i + 1 && (#[trigger] s[j]).owner_key@ == owner@ implies strs(r@).contains(s[j].key@) by {
                        if j < i {
                            let x = choose|x: int| 0 <= x < strs(before).len() && strs(before)[x] == s[j].key@;
                            assert(strs(r@)[x] == s[j].key@);
                        } else {
                            assert(strs(r@)[before.len() as int] == s[j].key@);
                        }
                    }
                }
            }
            i = i + 1;
        }
        assert forall|k: Seq<char>| strs(r@).to_set().contains(k) <==> owned_keys(s, owner@).contains(k) by {
            if strs(r@).contains(k) {
                let x = choose|x: int| 0 <= x < strs(r@).len() && strs(r@)[x] == k;
                assert(s[idx[x]].key@ == k);
            }
            if owned_keys(s, owner@).contains(k) {
                let j = choose|j: int| 0 <= j < s.len() && #[trigger] s[j].key@ == k && s[j].owner_key@ == owner@;
                assert(s[j].owner_key@ == owner@);
            }
        }
        assert(strs(r@).to_set() =~= owned_keys(s, owner@));
        proof {
            if self.wf() {
                assert forall|x: int, y: int| 0 <= x < strs(r@).len() && 0 <= y < strs(r@).len() && x != y implies strs(r@)[x] != strs(r@)[y] by {
                    if x < y {
                        assert(idx[x] < idx[y]);
                    } else {
                        assert(idx[y] < idx[x]);
                    }
                    assert(s[idx[x]].key@ != s[idx[y]].key@);
                }
            }
        }
        r
    }

    /// Creates a workload: persists its spec as a new key and records the
    /// batch of instances that the runtime created for it, not started.
    /// `created` holds what the runtime answered to each create call. Where
    /// a call failed, or the batch is not what the replication policy asks
    /// for, the spec is deleted again and the instances that were created
    /// are to be removed: nothing of the workload stays.
    pub fn create_workload(
        &mut self,
        key: &String,
        namespace: &String,
        version: &String,
        spec: &WorkloadSpec,
        created: &Vec<Result<String, String>>,
    ) -> (r: Result<Vec<String>, LifecycleError>)
        requires
            old(self).wf(),
        ensures
            final(self).wf(),
            create_outcome(old(self), final(self), key@, namespace@, version@, spec@, created@, r),
    {
        if self.find_latest(key).is_some() {
            return Err(LifecycleError::Conflict(key.clone()));
        }
        let n = resolve_replication(&spec.replication);
        let (keys, reasons) = split_batch(created);
        let complete = created.len() as u64 == n && keys.len() == created.len();
        if !complete || !keys_fresh(&keys, &self.instances) {
            return Err(LifecycleError::CreateFailed { rolled_back: keys, reasons });
        }
        let ghost before = self.instances@;
        let ghost rv = record_views(self.specs@);
        self.specs.push(
            SpecRecord {
                key: key.clone(),
                namespace: namespace.clone(),
                version: version.clone(),
                spec: spec.copy(),
            },
        );
        assert(record_views(self.specs@) =~= rv.push(
            RecordView { key: key@, namespace: namespace@, version: version@, spec: spec@ },
        ));
        let mut fresh = spawn(&keys, key, namespace, InstanceState::Stopped);
        let ghost fv = fresh@;
        proof {
            lemma_fresh_batch(fv, strs(keys@), key@, namespace@, InstanceState::Stopped);
            lemma_unique_concat(before, fv);
            lemma_owners_push(before, old(self).specs@, self.specs@.last());
            assert(old(self).specs@.push(self.specs@.last()) =~= self.specs@);
            assert(self.specs@[self.specs@.len() - 1].key@ == key@);
            lemma_fresh_owners(fv, strs(keys@), key@, namespace@, InstanceState::Stopped, self.specs@);
            lemma_owners_concat(before, fv, self.specs@);
        }
        self.instances.append(&mut fresh);
        assert(self.instances@ =~= before + fv);
        assert(self.instances@.skip(before.len() as int) =~= fv);
        Ok(keys)
    }
}

/// What creating the workload `key` from `spec` does to the stores and
/// returns, given what the runtime answered to the create calls.
pub open spec fn create_outcome(
    pre: &Registry,
    post: &Registry,
    key: Seq<char>,
    namespace: Seq<char>,
    version: Seq<char>,
    spec: WorkloadView,
    created: Seq<Result<String, String>>,
    r: Result<Vec<String>, LifecycleError>,
) -> bool {
    if has_spec(pre.specs@, key) {
        &&& *post == *pre
        &&& r matches Err(LifecycleError::Conflict(k)) && k@ == key
    } else if !batch_ok(created, instance_count(spec.replication), all_keys(pre.instances@)) {
        &&& *post == *pre
        &&& r matches Err(LifecycleError::CreateFailed { rolled_back, reasons })
        &&& strs(rolled_back@) == created_keys(created)
        &&& strs(reasons@) == failure_reasons(created)
    } else {
        &&& r matches Ok(keys) && strs(keys@) == created_keys(created)
        &&& record_views(post.specs@) == record_views(pre.specs@).push(
            RecordView { key, namespace, version, spec },
        )
        &&& post.instances@ == pre.instances@ + post.instances@.skip(pre.instances@.len() as int)
        &&& fresh_batch(
            post.instances@.skip(pre.instances@.len() as int),
            created_keys(created),
            key,
            namespace,
            InstanceState::Stopped,
        )
    }
}

/// What recording the outcome of a new batch for the workload `key` (in
/// `namespace`, asking for `n` instances) does to its instances and
/// returns, given what the runtime answered: `created` for the create calls
/// of the batch, `started` for starting it, `removed` for the instances it
/// removed afterwards.
pub open spec fn batch_outcome(
    pre: Seq<Instance>,
    post: Seq<Instance>,
    key: Seq<char>,
    namespace: Seq<char>,
    n: nat,
    created: Seq<Result<String, String>>,
    started: Result<(), String>,
    removed: Seq<String>,
    r: Result<Vec<String>, LifecycleError>,
) -> bool {
    let fresh = created_keys(created).to_set();
    let gone = strs(removed).to_set();
    let before = owned_keys(pre, key);
    let after = owned_keys(post, key);
    if !batch_ok(created, n, all_keys(pre)) {
        &&& post == pre
        &&& r matches Err(LifecycleError::CreateFailed { rolled_back, reasons })
        &&& strs(rolled_back@) == created_keys(created)
        &&& strs(reasons@) == failure_reasons(created)
    } else if started is Err {
        &&& post == pre + post.skip(pre.len() as int)
        &&& after == before.union(fresh.difference(gone))
        &&& all_keys(post) == all_keys(pre).union(fresh.difference(gone))
        &&& r matches Err(LifecycleError::PutRolledBack { not_removed, reason })
        &&& strs(not_removed@).to_set() == fresh.difference(gone)
        &&& fresh_batch(post.skip(pre.len() as int), strs(not_removed@), key, namespace, InstanceState::Stopped)
        &&& reason@ == started->Err_0@
    } else {
        &&& after == before.difference(gone).union(fresh)
        &&& all_keys(post) == all_keys(pre).difference(before.intersect(gone)).union(fresh)
        &&& (r is Ok <==> before.subset_of(gone))
        &&& (r matches Ok(keys) ==> strs(keys@) == created_keys(created))
        &&& (r matches Err(e) ==> (e matches LifecycleError::PartialRemoval { remaining }
            && strs(remaining@).to_set() == before.difference(gone)))
    }
}

/// What a replacement of the spec of the workload `key` by `spec` (at
/// `version`, in the namespace of its current version) does to the stores
/// and returns: the new version is recorded, whatever the runtime answers
/// afterwards, and the new batch is recorded as `batch_outcome` says.
pub open spec fn put_outcome(
    pre: &Registry,
    post: &Registry,
    key: Seq<char>,
    version: Seq<char>,
    spec: WorkloadView,
    created: Seq<Result<String, String>>,
    started: Result<(), String>,
    removed: Seq<String>,
    r: Result<Vec<String>, LifecycleError>,
) -> bool {
    match latest(pre.specs@, key) {
        None => {
            &&& *post == *pre
            &&& r matches Err(LifecycleError::NotFound(k)) && k@ == key
        },
        Some(p) => {
            &&& record_views(post.specs@) == record_views(pre.specs@).push(
                RecordView { key, namespace: pre.specs@[p].namespace@, version, spec },
            )
            &&& batch_outcome(
                pre.instances@,
                post.instances@,
                key,
                pre.specs@[p].namespace@,
                instance_count(spec.replication),
                created,
                started,
                removed,
                r,
            )
        },
    }
}

impl Registry {
    /// Records a new version of the spec of a workload, in the namespace of
    /// its current version; this is the first step of a replacement, before
    /// the runtime creates the new batch.
    pub fn record_version(&mut self, key: &String, version: &String, spec: &WorkloadSpec) -> (r: Result<(), LifecycleError>)
        requires
            old(self).wf(),
        ensures
            final(self).wf(),
            match latest(old(self).specs@, key@) {
                None => *final(self) == *old(self) && (r matches Err(LifecycleError::NotFound(k)) && k@ == key@),
                Some(p) => {
                    &&& r is Ok
                    &&& final(self).instances@ == old(self).instances@
                    &&& record_views(final(self).specs@) == record_views(old(self).specs@).push(
                        RecordView { key: key@, namespace: old(self).specs@[p].namespace@, version: version@, spec: spec@ },
                    )
                },
            },
    {
        let p = match self.find_latest(key) {
            None => {
                return Err(LifecycleError::NotFound(key.clone()));
            },
            Some(p) => p,
        };
        let namespace = self.specs[p].namespace.clone();
        let ghost rv = record_views(self.specs@);
        self.specs.push(
            SpecRecord { key: key.clone(), namespace, version: version.clone(), spec: spec.copy() },
        );
        proof {
            lemma_owners_push(self.instances@, old(self).specs@, self.specs@.last());
            assert(old(self).specs@.push(self.specs@.last()) =~= self.specs@);
        }
        assert(record_views(self.specs@) =~= rv.push(
            RecordView { key: key@, namespace: old(self).specs@[p as int].namespace@, version: version@, spec: spec@ },
        ));
        Ok(())
    }

    /// Records the outcome of a new batch of instances for a workload, the
    /// second step of a replacement: the batch that the runtime created for
    /// its current version, then either the old instances kept and the new
    /// ones dropped, where starting the new ones failed, or the old ones
    /// dropped. Where the batch could not be created, the old instances
    /// stay and nothing is started.
    pub fn apply_batch(
        &mut self,
        key: &String,
        created: &Vec<Result<String, String>>,
        started: &Result<(), String>,
        removed: &Vec<String>,
    ) -> (r: Result<Vec<String>, LifecycleError>)
        requires
            old(self).wf(),
        ensures
            final(self).wf(),
            match latest(old(self).specs@, key@) {
                None => *final(self) == *old(self) && (r matches Err(LifecycleError::NotFound(k)) && k@ == key@),
                Some(p) => {
                    &&& final(self).specs@ == old(self).specs@
                    &&& batch_outcome(
                        old(self).instances@,
                        final(self).instances@,
                        key@,
                        old(self).specs@[p].namespace@,
                        instance_count(old(self).specs@[p].spec.replication),
                        created@,
                        *started,
                        removed@,
                        r,
                    )
                },
            },
    {
        let p = match self.find_latest(key) {
            None => {
                return Err(LifecycleError::NotFound(key.clone()));
            },
            Some(p) => p,
        };
        let namespace = self.specs[p].namespace.clone();
        let n = resolve_replication(&self.specs[p].spec.replication);
        let (keys, reasons) = split_batch(created);
        let complete = created.len() as u64 == n && keys.len() == created.len();
        if !complete || !keys_fresh(&keys, &self.instances) {
            return Err(LifecycleError::CreateFailed { rolled_back: keys, reasons });
        }
        let ghost pre = self.instances@;
        let ghost specs = self.specs@;
        let ghost fresh = strs(keys@).to_set();
        let ghost gone = strs(removed@).to_set();
        let ghost before = owned_keys(pre, key@);
        proof {
            assert(has_spec(specs, key@));
        }
        match started {
            Err(reason) => {
                let not_removed = select(&keys, removed, false);
                let mut kept = spawn(&not_removed, key, &namespace, InstanceState::Stopped);
                let ghost kv = kept@;
                proof {
                    lemma_fresh_batch(kv, strs(not_removed@), key@, namespace@, InstanceState::Stopped);
                    assert forall|k: Seq<char>| all_keys(pre).contains(k) implies !#[trigger] all_keys(kv).contains(k) by {
                        if all_keys(kv).contains(k) {
                            assert(strs(not_removed@).to_set().contains(k));
                            let i = choose|i: int| 0 <= i < strs(keys@).len() && strs(keys@)[i] == k;
                            assert(!all_keys(pre).contains(strs(keys@)[i]));
                        }
                    }
                    lemma_unique_concat(pre, kv);
                    lemma_owned_concat(pre, kv, key@);
                    lemma_fresh_owners(kv, strs(not_removed@), key@, namespace@, InstanceState::Stopped, specs);
                    lemma_owners_concat(pre, kv, specs);
                }
                self.instances.append(&mut kept);
                assert(self.instances@ =~= pre + kv);
                assert(self.instances@.skip(pre.len() as int) =~= kv);
                Err(LifecycleError::PutRolledBack { not_removed, reason: reason.clone() })
            },
            Ok(()) => {
                let old_keys = self.owned_list(key);
                let dropped = select(&old_keys, removed, true);
                let remaining = select(&old_keys, removed, false);
                let kept = retain_instances(&self.instances, &dropped);
                let ghost kv = kept@;
                let mut added = spawn(&keys, key, &namespace, InstanceState::Running);
                let ghost av = added@;
                proof {
                    lemma_fresh_batch(av, strs(keys@), key@, namespace@, InstanceState::Running);
                    assert forall|k: Seq<char>| all_keys(kv).contains(k) implies !#[trigger] all_keys(av).contains(k) by {
                        if all_keys(av).contains(k) {
                            let i = choose|i: int| 0 <= i < strs(keys@).len() && strs(keys@)[i] == k;
                            assert(!all_keys(pre).contains(strs(keys@)[i]));
                        }
                    }
                    lemma_unique_concat(kv, av);
                    lemma_owned_concat(kv, av, key@);
                    assert(before.difference(before.intersect(gone)) =~= before.difference(gone));
                    assert(owned_keys(kv + av, key@) =~= before.difference(gone).union(fresh));
                    lemma_owners_subset(kv, pre, specs);
                    lemma_fresh_owners(av, strs(keys@), key@, namespace@, InstanceState::Running, specs);
                    lemma_owners_concat(kv, av, specs);
                }
                self.instances = kept;
                self.instances.append(&mut added);
                assert(self.instances@ =~= kv + av);
                if remaining.len() == 0 {
                    proof {
                        assert forall|k: Seq<char>| before.contains(k) implies gone.contains(k) by {
                            if !gone.contains(k) {
                                assert(strs(remaining@).to_set().contains(k));
                                assert(strs(remaining@).contains(k));
                            }
                        }
                    }
                    Ok(keys)
                } else {
                    proof {
                        assert(strs(remaining@).to_set().contains(strs(remaining@)[0]));
                    }
                    Err(LifecycleError::PartialRemoval { remaining })
                }
            },
        }
    }
}

impl Registry {
    /// Replaces the spec of a workload, the rolling update: records the new
    /// version, then the outcome of its new batch (see `apply_batch`). The
    /// new version stays recorded where the batch fails; the error tells
    /// that the instances still run the previous one.
    pub fn put_workload(
        &mut self,
        key: &String,
        version: &String,
        spec: &WorkloadSpec,
        created: &Vec<Result<String, String>>,
        started: &Result<(), String>,
        removed: &Vec<String>,
    ) -> (r: Result<Vec<String>, LifecycleError>)
        requires
            old(self).wf(),
        ensures
            final(self).wf(),
            put_outcome(old(self), final(self), key@, version@, spec@, created@, *started, removed@, r),
    {
        match self.record_version(key, version, spec) {
            Err(e) => {
                return Err(e);
            },
            Ok(()) => {},
        }
        proof {
            assert(latest(old(self).specs@, key@) is Some);
            assert(record_views(self.specs@).len() == self.specs@.len());
            assert(record_views(old(self).specs@).len() == old(self).specs@.len());
            let last = self.specs@.len() - 1;
            assert(record_views(self.specs@)[last] == self.specs@[last]@);
            assert(self.specs@[last].key@ == key@);
            assert(latest(self.specs@, key@) == Some(last));
        }
        self.apply_batch(key, created, started, removed)
    }
}

/// What deleting the workload `key` does to the stores and returns, given
/// the instances that the runtime removed.
pub open spec fn delete_outcome(
    pre: &Registry,
    post: &Registry,
    key: Seq<char>,
    removed: Seq<String>,
    r: Result<(), LifecycleError>,
) -> bool {
    let gone = strs(removed).to_set();
    let before = owned_keys(pre.instances@, key);
    if !has_spec(pre.specs@, key) {
        &&& *post == *pre
        &&& r matches Err(LifecycleError::NotFound(k)) && k@ == key
    } else {
        &&& owned_keys(post.instances@, key) == before.difference(gone)
        &&& all_keys(post.instances@) == all_keys(pre.instances@).difference(before.intersect(gone))
        &&& (r is Ok <==> before.subset_of(gone))
        &&& (r is Ok ==> !has_spec(post.specs@, key) && forall|k: Seq<char>|
            k != key ==> (#[trigger] has_spec(post.specs@, k) <==> has_spec(pre.specs@, k)))
        &&& (r matches Err(e) ==> post.specs@ == pre.specs@ && (e matches LifecycleError::PartialRemoval {
            remaining,
        } && strs(remaining@).to_set() == before.difference(gone)))
    }
}

impl SpecRecord {
    /// A copy of this record.
    pub fn copy(&self) -> (r: SpecRecord)
        ensures
            r@ == self@,
    {
        SpecRecord {
            key: self.key.clone(),
            namespace: self.namespace.clone(),
            version: self.version.clone(),
            spec: self.spec.copy(),
        }
    }
}

/// The records of every workload but `key`, in order.
fn records_without(s: &Vec<SpecRecord>, key: &String) -> (r: Vec<SpecRecord>)
    ensures
        forall|k: Seq<char>| #[trigger] has_spec(r@, k) <==> has_spec(s@, k) && k != key@,
{
    let mut r: Vec<SpecRecord> = Vec::new();
    let mut i: usize = 0;
    while i < s.len()
        invariant
            i <= s@.len(),
            forall|k: Seq<char>| #[trigger] has_spec(r@, k) <==> has_spec(s@.take(i as int), k) && k != key@,
        decreases s@.len() - i,
    {
        let ghost before = r@;
        let ghost t = s@.take(i as int);
        let ghost t1 = s@.take(i as int + 1);
        assert(t1 =~= t.push(s@[i as int]));
        if s[i].key != *key {
            r.push(s[i].copy());
            assert forall|k: Seq<char>| #[trigger] has_spec(r@, k) <==> has_spec(t1, k) && k != key@ by {
                if has_spec(r@, k) {
                    let x = choose|x: int| 0 <= x < r@.len() && #[trigger] r@[x].key@ == k;
                    if x < before.len() {
                        assert(before[x].key@ == k);
                        assert(has_spec(before, k));
                        let y = choose|y: int| 0 <= y < t.len() && #[trigger] t[y].key@ == k;
                        assert(t1[y] == t[y]);
                        assert(t1[y].key@ == k);
                    } else {
                        assert(t1[i as int].key@ == k);
                    }
                }
                if has_spec(t1, k) && k != key@ {
                    let y = choose|y: int| 0 <= y < t1.len() && #[trigger] t1[y].key@ == k;
                    if y < i {
                        assert(t[y].key@ == k);
                        assert(has_spec(t, k));
                        assert(has_spec(before, k));
                        let x = choose|x: int| 0 <= x < before.len() && #[trigger] before[x].key@ == k;
                        assert(r@[x] == before[x]);
                        assert(r@[x].key@ == k);
                    } else {
                        assert(r@[before.len() as int].key@ == k);
                    }
                }
            }
        } else {
            assert forall|k: Seq<char>| #[trigger] has_spec(r@, k) <==> has_spec(t1, k) && k != key@ by {
                if has_spec(t, k) {
                    let y = choose|y: int| 0 <= y < t.len() && #[trigger] t[y].key@ == k;
                    assert(t1[y].key@ == k);
                }
                if has_spec(t1, k) && k != key@ {
                    let y = choose|y: int| 0 <= y < t1.len() && #[trigger] t1[y].key@ == k;
                    assert(y < i);
                    assert(t[y].key@ == k);
                }
            }
        }
        i = i + 1;
    }
    assert(s@.take(s@.len() as int) =~= s@);
    r
}

impl Registry {
    /// Deletes a workload: the runtime tried to remove each of its
    /// instances, and `removed` lists those it removed. Only where all of
    /// them are gone are the versions of its spec deleted; otherwise the
    /// spec stays and the error lists the instances that remain.
    pub fn delete_workload(&mut self, key: &String, removed: &Vec<String>) -> (r: Result<(), LifecycleError>)
        requires
            old(self).wf(),
        ensures
            final(self).wf(),
            delete_outcome(old(self), final(self), key@, removed@, r),
    {
        if self.find_latest(key).is_none() {
            return Err(LifecycleError::NotFound(key.clone()));
        }
        let ghost pre = self.instances@;
        let ghost gone = strs(removed@).to_set();
        let ghost before = owned_keys(pre, key@);
        let old_keys = self.owned_list(key);
        let dropped = select(&old_keys, removed, true);
        let remaining = select(&old_keys, removed, false);
        let kept = retain_instances(&self.instances, &dropped);
        self.instances = kept;
        proof {
            assert(before.difference(before.intersect(gone)) =~= before.difference(gone));
            lemma_owners_subset(self.instances@, pre, self.specs@);
        }
        if remaining.len() == 0 {
            proof {
                assert forall|k: Seq<char>| before.contains(k) implies gone.contains(k) by {
                    if !gone.contains(k) {
                        assert(strs(remaining@).to_set().contains(k));
                        assert(strs(remaining@).contains(k));
                    }
                }
            }
            let ghost kept_specs = self.specs@;
            let specs = records_without(&self.specs, key);
            self.specs = specs;
            proof {
                let post = self.instances@;
                assert forall|a: int| 0 <= a < post.len() implies has_spec(self.specs@, (#[trigger] post[a]).owner_key@) by {
                    assert(has_spec(kept_specs, post[a].owner_key@));
                    if post[a].owner_key@ == key@ {
                        assert(owned_keys(post, key@).contains(post[a].key@));
                        assert(before.contains(post[a].key@));
                    }
                }
            }
            Ok(())
        } else {
            proof {
                assert(strs(remaining@).to_set().contains(strs(remaining@)[0]));
            }
            Err(LifecycleError::PartialRemoval { remaining })
        }
    }

    /// Applies a partial update: merges it into the current spec and
    /// replaces the spec by the result, as `put_workload` does.
    pub fn patch_workload(
        &mut self,
        key: &String,
        version: &String,
        patch: &SpecPatch,
        created: &Vec<Result<String, String>>,
        started: &Result<(), String>,
        removed: &Vec<String>,
    ) -> (r: Result<Vec<String>, LifecycleError>)
        requires
            old(self).wf(),
        ensures
            final(self).wf(),
            match latest(old(self).specs@, key@) {
                None => *final(self) == *old(self) && (r matches Err(LifecycleError::NotFound(k)) && k@ == key@),
                Some(p) => put_outcome(
                    old(self),
                    final(self),
                    key@,
                    version@,
                    merged_spec(old(self).specs@[p].spec@, *patch),
                    created@,
                    *started,
                    removed@,
                    r,
                ),
            },
    {
        match self.find_latest(key) {
            None => Err(LifecycleError::NotFound(key.clone())),
            Some(p) => {
                let merged = merge_spec(&self.specs[p].spec, patch);
                self.put_workload(key, version, &merged, created, started, removed)
            },
        }
    }
}

/// A failed creation of a new workload leaves no spec and no instance of
/// it behind.
pub proof fn law_create_rollback(
    pre: &Registry,
    post: &Registry,
    key: Seq<char>,
    namespace: Seq<char>,
    version: Seq<char>,
    spec: WorkloadView,
    created: Seq<Result<String, String>>,
    r: Result<Vec<String>, LifecycleError>,
)
    requires
        pre.wf(),
        create_outcome(pre, post, key, namespace, version, spec, created, r),
        !has_spec(pre.specs@, key),
        r is Err,
    ensures
        !has_spec(post.specs@, key),
        owned_keys(post.instances@, key) == Set::<Seq<char>>::empty(),
{
    lemma_no_spec_no_instances(pre, key);
}

/// A workload without a spec owns no instance.
pub proof fn lemma_no_spec_no_instances(reg: &Registry, key: Seq<char>)
    requires
        reg.wf(),
        !has_spec(reg.specs@, key),
    ensures
        owned_keys(reg.instances@, key) == Set::<Seq<char>>::empty(),
{
    assert forall|k: Seq<char>| !owned_keys(reg.instances@, key).contains(k) by {
        if owned_keys(reg.instances@, key).contains(k) {
            let i = choose|i: int| 0 <= i < reg.instances@.len() && #[trigger] reg.instances@[i].key@ == k
                && reg.instances@[i].owner_key@ == key;
            assert(has_spec(reg.specs@, reg.instances@[i].owner_key@));
        }
    }
    assert(owned_keys(reg.instances@, key) =~= Set::<Seq<char>>::empty());
}

/// A successful creation gives the workload exactly the instances its
/// replication policy asks for: the keys that the runtime gave, distinct,
/// added after the instances there were before.
pub proof fn law_create_instances(
    pre: &Registry,
    post: &Registry,
    key: Seq<char>,
    namespace: Seq<char>,
    version: Seq<char>,
    spec: WorkloadView,
    created: Seq<Result<String, String>>,
    r: Result<Vec<String>, LifecycleError>,
)
    requires
        pre.wf(),
        create_outcome(pre, post, key, namespace, version, spec, created, r),
        r is Ok,
    ensures
        owned_keys(post.instances@, key) == created_keys(created).to_set(),
        owned_keys(post.instances@, key).len() == instance_count(spec.replication),
        post.instances@.len() == pre.instances@.len() + instance_count(spec.replication),
{
    lemma_no_spec_no_instances(pre, key);
    let fv = post.instances@.skip(pre.instances@.len() as int);
    lemma_owned_concat(pre.instances@, fv, key);
    lemma_fresh_batch(fv, created_keys(created), key, namespace, InstanceState::Stopped);
    assert(owned_keys(pre.instances@, key).union(created_keys(created).to_set()) =~= created_keys(created).to_set());
}

/// Where starting the new instances fails and the runtime removed them
/// again, the workload owns the same instances as before, and the
/// instances there were before are untouched.
pub proof fn law_put_rollback(
    pre: &Registry,
    post: &Registry,
    key: Seq<char>,
    version: Seq<char>,
    spec: WorkloadView,
    created: Seq<Result<String, String>>,
    started: Result<(), String>,
    removed: Seq<String>,
    r: Result<Vec<String>, LifecycleError>,
)
    requires
        put_outcome(pre, post, key, version, spec, created, started, removed, r),
        started is Err,
        created_keys(created).to_set().subset_of(strs(removed).to_set()),
    ensures
        owned_keys(post.instances@, key) == owned_keys(pre.instances@, key),
        post.instances@.take(pre.instances@.len() as int) == pre.instances@,
        r is Err,
{
    let fresh = created_keys(created).to_set();
    let gone = strs(removed).to_set();
    assert(fresh.difference(gone) =~= Set::<Seq<char>>::empty());
    assert(owned_keys(pre.instances@, key).union(fresh.difference(gone)) =~= owned_keys(pre.instances@, key));
}

/// After a successful replacement the workload owns exactly the new batch:
/// none of its earlier instances, and as many as the new spec asks for.
pub proof fn law_put_swap(
    pre: &Registry,
    post: &Registry,
    key: Seq<char>,
    version: Seq<char>,
    spec: WorkloadView,
    created: Seq<Result<String, String>>,
    started: Result<(), String>,
    removed: Seq<String>,
    r: Result<Vec<String>, LifecycleError>,
)
    requires
        put_outcome(pre, post, key, version, spec, created, started, removed, r),
        r is Ok,
    ensures
        owned_keys(post.instances@, key) == created_keys(created).to_set(),
        forall|k: Seq<char>| #[trigger] owned_keys(pre.instances@, key).contains(k) ==> !owned_keys(post.instances@, key).contains(k),
        owned_keys(post.instances@, key).len() == instance_count(spec.replication),
{
    let fresh = created_keys(created).to_set();
    let gone = strs(removed).to_set();
    let before = owned_keys(pre.instances@, key);
    assert(before.difference(gone) =~= Set::<Seq<char>>::empty());
    assert(before.difference(gone).union(fresh) =~= fresh);
    created_keys(created).unique_seq_to_set();
    assert forall|k: Seq<char>| #[trigger] before.contains(k) implies !fresh.contains(k) by {
        if fresh.contains(k) {
            let i = choose|i: int| 0 <= i < created_keys(created).len() && created_keys(created)[i] == k;
            let j = choose|j: int| 0 <= j < pre.instances@.len() && #[trigger] pre.instances@[j].key@ == k && pre.instances@[j].owner_key@ == key;
            assert(all_keys(pre.instances@).contains(pre.instances@[j].key@));
        }
    }
}

/// A deletion in which some instance could not be removed keeps the spec of
/// the workload.
pub proof fn law_delete_keeps_spec(
    pre: &Registry,
    post: &Registry,
    key: Seq<char>,
    removed: Seq<String>,
    r: Result<(), LifecycleError>,
)
    requires
        delete_outcome(pre, post, key, removed, r),
        has_spec(pre.specs@, key),
        r is Err,
    ensures
        has_spec(post.specs@, key),
        post.specs@ == pre.specs@,
{
}

/// Why a lifecycle operation failed.
#[derive(Debug)]
pub enum LifecycleError {
    /// No workload has this key.
    NotFound(String),
    /// A workload with this key exists already.
    Conflict(String),
    /// The batch of instances could not be created: the instances that were
    /// created are to be removed again. A creation leaves nothing behind; a
    /// replacement keeps its new version recorded and the old instances
    /// running.
    CreateFailed { rolled_back: Vec<String>, reasons: Vec<String> },
    /// The new instances could not be started: the old ones were left
    /// running and the new ones removed, but for those listed.
    PutRolledBack { not_removed: Vec<String>, reason: String },
    /// Some instances were removed and these were not.
    PartialRemoval { remaining: Vec<String> },
}

impl Registry {
    /// Whether a batch that the runtime created for `spec` is complete and
    /// fresh, so that its instances are to be started.
    pub fn batch_accepted(&self, spec: &WorkloadSpec, created: &Vec<Result<String, String>>) -> (r: bool)
        ensures
            r == batch_ok(created@, instance_count(spec.replication), all_keys(self.instances@)),
    {
        let n = resolve_replication(&spec.replication);
        let (keys, _reasons) = split_batch(created);
        created.len() as u64 == n && keys.len() == created.len() && keys_fresh(&keys, &self.instances)
    }

    /// The instances that the runtime is to remove once the new batch of a
    /// replacement was started or failed to start: the workload's current
    /// instances where the start succeeded, the new batch where it failed.
    pub fn teardown_after_start(&self, key: &String, new_keys: &Vec<String>, started: bool) -> (r: Vec<String>)
        ensures
            strs(r@).to_set() == if started {
                owned_keys(self.instances@, key@)
            } else {
                strs(new_keys@).to_set()
            },
    {
        if started {
            self.owned_list(key)
        } else {
            crate::workload::copy_strings(new_keys)
        }
    }
}

impl LifecycleError {
    /// Whether the operation can be retried as it is: all but a removal
    /// that left instances behind, or a rollback that could not remove all
    /// new instances, which need a look first.
    pub fn is_retry_safe(&self) -> (r: bool)
        ensures
            r == match self {
                LifecycleError::PartialRemoval { .. } => false,
                LifecycleError::PutRolledBack { not_removed, .. } => not_removed@.len() == 0,
                _ => true,
            },
    {
        match self {
            LifecycleError::PartialRemoval { .. } => false,
            LifecycleError::PutRolledBack { not_removed, .. } => not_removed.len() == 0,
            _ => true,
        }
    }
}

} // verus!
