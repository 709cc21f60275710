use vstd::prelude::*;

use crate::workload::{
    copy_opt_container, copy_opt_strings, copy_strings, opt_container, opt_str, opt_strs, strs,
    ContainerConfig, ContainerPatch, ContainerView, SpecPatch, WorkloadSpec, WorkloadView,
};

verus! {

/// The index of the first `=` at or after `from` in an entry.
pub open spec fn find_sep(e: Seq<char>, from: int) -> Option<int>
    decreases e.len() - from,
{
    if from < 0 || from >= e.len() {
        None
    } else if e[from] == '=' {
        Some(from)
    } else {
        find_sep(e, from + 1)
    }
}

/// The key of a `KEY=VALUE` entry: what stands before its first `=`. An
/// entry without `=` has no key.
pub open spec fn env_key(e: Seq<char>) -> Option<Seq<char>> {
    match find_sep(e, 0) {
        Some(p) => Some(e.take(p)),
        None => None,
    }
}

/// The first index at or after `from` of an entry whose key is `key`.
pub open spec fn env_position(env: Seq<Seq<char>>, key: Seq<char>, from: int) -> Option<int>
    decreases env.len() - from,
{
    if from < 0 || from >= env.len() {
        None
    } else if env_key(env[from]) == Some(key) {
        Some(from)
    } else {
        env_position(env, key, from + 1)
    }
}

/// One patch entry merged into an environment: a malformed entry is dropped;
/// an entry with an empty value removes the key; another one replaces the
/// entry of its key in place; an entry of a new key is appended.
pub open spec fn merge_env_entry(env: Seq<Seq<char>>, e: Seq<char>) -> Seq<Seq<char>> {
    match env_key(e) {
        None => env,
        Some(k) => match env_position(env, k, 0) {
            Some(i) => if e.len() == k.len() + 1 {
                env.remove(i)
            } else {
                env.update(i, e)
            },
            None => env.push(e),
        },
    }
}

/// The patch entries merged into an environment, in order.
pub open spec fn merge_env(env: Seq<Seq<char>>, patch: Seq<Seq<char>>) -> Seq<Seq<char>>
    decreases patch.len(),
{
    if patch.len() == 0 {
        env
    } else {
        merge_env_entry(merge_env(env, patch.drop_last()), patch.last())
    }
}

/// The patch's binds appended, in order, to the current ones, each only if
/// not already present.
pub open spec fn merge_binds(cur: Seq<Seq<char>>, patch: Seq<Seq<char>>) -> Seq<Seq<char>>
    decreases patch.len(),
{
    if patch.len() == 0 {
        cur
    } else {
        let c = merge_binds(cur, patch.drop_last());
        if c.contains(patch.last()) {
            c
        } else {
            c.push(patch.last())
        }
    }
}

/// The index of the first `=` in an entry.
pub fn separator_index(e: &String) -> (r: Option<usize>)
    ensures
        match r {
            Some(p) => find_sep(e@, 0) == Some(p as int) && p < e@.len(),
            None => find_sep(e@, 0).is_none(),
        },
{
    let s = e.as_str();
    let n = s.unicode_len();
    let mut i: usize = 0;
    while i < n
        invariant
            n == e@.len(),
            s@ == e@,
            i <= n,
            find_sep(e@, 0) == find_sep(e@, i as int),
        decreases n - i,
    {
        if s.get_char(i) == '=' {
            return Some(i);
        }
        i = i + 1;
    }
    None
}

/// The key of a `KEY=VALUE` entry, if it has one.
pub fn entry_key(e: &String) -> (r: Option<String>)
    ensures
        match r {
            Some(k) => env_key(e@) == Some(k@) && k@.len() < e@.len(),
            None => env_key(e@).is_none(),
        },
{
    match separator_index(e) {
        Some(p) => {
            let k = String::from_str(e.as_str().substring_char(0, p));
            assert(k@ =~= e@.take(p as int));
            Some(k)
        },
        None => None,
    }
}

/// The position of the entry whose key is `key`, if there is one.
pub fn find_entry(env: &Vec<String>, key: &String) -> (r: Option<usize>)
    ensures
        match r {
            Some(i) => env_position(strs(env@), key@, 0) == Some(i as int) && i < env@.len(),
            None => env_position(strs(env@), key@, 0).is_none(),
        },
{
    let ghost sv = strs(env@);
    let mut i: usize = 0;
    while i < env.len()
        invariant
            sv == strs(env@),
            i <= env@.len(),
            env_position(sv, key@, 0) == env_position(sv, key@, i as int),
        decreases env@.len() - i,
    {
        let k = entry_key(&env[i]);
        match k {
            Some(k) => {
                if k == *key {
                    return Some(i);
                }
            },
            None => {},
        }
        i = i + 1;
    }
    None
}

/// Merges patch entries into an environment list (see `merge_env`).
pub fn merge_env_vars(current: &Vec<String>, patch: &Vec<String>) -> (r: Vec<String>)
    ensures
        strs(r@) == merge_env(strs(current@), strs(patch@)),
{
    let mut out = crate::workload::copy_strings(current);
    let ghost pv = strs(patch@);
    let mut i: usize = 0;
    assert(pv.take(0) =~= Seq::<Seq<char>>::empty());
    while i < patch.len()
        invariant
            pv == strs(patch@),
            i <= patch@.len(),
            strs(out@) == merge_env(strs(current@), pv.take(i as int)),
        decreases patch@.len() - i,
    {
        let ghost before = strs(out@);
        let e = &patch[i];
        assert(pv.take(i as int + 1).drop_last() =~= pv.take(i as int));
        assert(pv.take(i as int + 1).last() == e@);
        match entry_key(e) {
            Some(k) => {
                match find_entry(&out, &k) {
                    Some(p) => {
                        if e.as_str().unicode_len() == k.as_str().unicode_len() + 1 {
                            out.remove(p);
                            assert(strs(out@) =~= before.remove(p as int));
                        } else {
                            out.set(p, e.clone());
                            assert(strs(out@) =~= before.update(p as int, e@));
                        }
                    },
                    None => {
                        out.push(e.clone());
                        assert(strs(out@) =~= before.push(e@));
                    },
                }
            },
            None => {},
        }
        i = i + 1;
    }
    assert(pv.take(patch@.len() as int) =~= pv);
    out
}

/// Whether a list holds a string equal to `s`.
pub fn contains_string(v: &Vec<String>, s: &String) -> (r: bool)
    ensures
        r == strs(v@).contains(s@),
{
    let mut i: usize = 0;
    while i < v.len()
        invariant
            i <= v@.len(),
            forall|j: int| 0 <= j < i ==> v@[j]@ != s@,
        decreases v@.len() - i,
    {
        if v[i] == *s {
            assert(strs(v@)[i as int] == s@);
            return true;
        }
        i = i + 1;
    }
    assert forall|j: int| 0 <= j < strs(v@).len() implies strs(v@)[j] != s@ by {}
    false
}

/// Appends to the current binds those of the patch that are not present yet
/// (see `merge_binds`).
pub fn merge_volume_binds(current: &Vec<String>, patch: &Vec<String>) -> (r: Vec<String>)
    ensures
        strs(r@) == merge_binds(strs(current@), strs(patch@)),
{
    let mut out = crate::workload::copy_strings(current);
    let ghost pv = strs(patch@);
    let mut i: usize = 0;
    assert(pv.take(0) =~= Seq::<Seq<char>>::empty());
    while i < patch.len()
        invariant
            pv == strs(patch@),
            i <= patch@.len(),
            strs(out@) == merge_binds(strs(current@), pv.take(i as int)),
        decreases patch@.len() - i,
    {
        let ghost before = strs(out@);
        let e = &patch[i];
        assert(pv.take(i as int + 1).drop_last() =~= pv.take(i as int));
        assert(pv.take(i as int + 1).last() == e@);
        if !contains_string(&out, e) {
            out.push(e.clone());
            assert(strs(out@) =~= before.push(e@));
        }
        i = i + 1;
    }
    assert(pv.take(patch@.len() as int) =~= pv);
    out
}

/// The entries of an optional patch list; an absent list has none.
pub open spec fn patch_list(o: Option<Vec<String>>) -> Seq<Seq<char>> {
    match o {
        Some(v) => strs(v@),
        None => Seq::empty(),
    }
}

/// A container configuration after a container patch: image and command are
/// replaced where the patch has them, the environment and the binds are
/// merged, labels and resource limits are kept.
pub open spec fn merged_container(cur: ContainerView, p: ContainerPatch) -> ContainerView {
    ContainerView {
        image: if p.image.is_some() { opt_str(p.image) } else { cur.image },
        cmd: if p.cmd.is_some() { opt_strs(p.cmd) } else { cur.cmd },
        env: merge_env(cur.env, patch_list(p.env)),
        binds: merge_binds(cur.binds, patch_list(p.binds)),
        labels: cur.labels,
        memory: cur.memory,
        cpu_shares: cur.cpu_shares,
        nano_cpus: cur.nano_cpus,
    }
}

/// A workload spec after a partial update: the container is merged, the
/// other fields are replaced where the patch has them, and the name is kept.
pub open spec fn merged_spec(cur: WorkloadView, p: SpecPatch) -> WorkloadView {
    WorkloadView {
        name: cur.name,
        container: match p.container {
            Some(c) => merged_container(cur.container, c),
            None => cur.container,
        },
        init_container: if p.init_container.is_some() {
            opt_container(p.init_container)
        } else {
            cur.init_container
        },
        replication: if p.replication.is_some() { p.replication } else { cur.replication },
        secrets: if p.secrets.is_some() { opt_strs(p.secrets) } else { cur.secrets },
        metadata: if p.metadata.is_some() { opt_strs(p.metadata) } else { cur.metadata },
    }
}

/// The entries of an optional patch list, copied.
fn patch_entries(o: &Option<Vec<String>>) -> (r: Vec<String>)
    ensures
        strs(r@) == patch_list(*o),
{
    match o {
        Some(v) => copy_strings(v),
        None => {
            let r: Vec<String> = Vec::new();
            assert(strs(r@) =~= Seq::<Seq<char>>::empty());
            r
        },
    }
}

/// Applies a container patch to a container configuration.
pub fn merge_container(cur: &ContainerConfig, p: &ContainerPatch) -> (r: ContainerConfig)
    ensures
        r@ == merged_container(cur@, *p),
{
    let image = match &p.image {
        Some(i) => Some(i.clone()),
        None => crate::workload::copy_opt_string(&cur.image),
    };
    let cmd = if p.cmd.is_some() {
        copy_opt_strings(&p.cmd)
    } else {
        copy_opt_strings(&cur.cmd)
    };
    let env = merge_env_vars(&cur.env, &patch_entries(&p.env));
    let binds = merge_volume_binds(&cur.binds, &patch_entries(&p.binds));
    ContainerConfig {
        image,
        cmd,
        env,
        binds,
        labels: crate::workload::copy_labels(&cur.labels),
        memory: cur.memory,
        cpu_shares: cur.cpu_shares,
        nano_cpus: cur.nano_cpus,
    }
}

/// Merges a partial update into a workload spec, giving the full spec that
/// a replacement then applies.
pub fn merge_spec(cur: &WorkloadSpec, p: &SpecPatch) -> (r: WorkloadSpec)
    ensures
        r@ == merged_spec(cur@, *p),
{
    let container = match &p.container {
        Some(c) => merge_container(&cur.container, c),
        None => cur.container.copy(),
    };
    let init_container = if p.init_container.is_some() {
        copy_opt_container(&p.init_container)
    } else {
        copy_opt_container(&cur.init_container)
    };
    let replication = if p.replication.is_some() {
        p.replication
    } else {
        cur.replication
    };
    let secrets = if p.secrets.is_some() {
        copy_opt_strings(&p.secrets)
    } else {
        copy_opt_strings(&cur.secrets)
    };
    let metadata = if p.metadata.is_some() {
        copy_opt_strings(&p.metadata)
    } else {
        copy_opt_strings(&cur.metadata)
    };
    WorkloadSpec {
        name: cur.name.clone(),
        container,
        init_container,
        replication,
        secrets,
        metadata,
    }
}

/// Merging a patch without environment entries leaves the environment as it
/// was, in order and values.
pub proof fn law_empty_env_patch(cur: WorkloadView, p: SpecPatch)
    requires
        match p.container {
            Some(c) => patch_list(c.env).len() == 0,
            None => true,
        },
    ensures
        merged_spec(cur, p).container.env == cur.container.env,
{
    match p.container {
        Some(c) => {
            assert(merge_env(cur.container.env, patch_list(c.env)) == cur.container.env);
        },
        None => {},
    }
}

/// A bind is in the merged binds exactly when it is in the current ones or
/// in the patch.
pub proof fn law_binds_union(cur: Seq<Seq<char>>, patch: Seq<Seq<char>>)
    ensures
        forall|b: Seq<char>| #[trigger] merge_binds(cur, patch).contains(b) <==> cur.contains(b) || patch.contains(b),
    decreases patch.len(),
{
    if patch.len() > 0 {
        law_binds_union(cur, patch.drop_last());
        let c = merge_binds(cur, patch.drop_last());
        assert forall|b: Seq<char>| #[trigger] patch.contains(b) <==> patch.drop_last().contains(b) || b == patch.last() by {
            if patch.contains(b) {
                let j = choose|j: int| 0 <= j < patch.len() && patch[j] == b;
                if j < patch.len() - 1 {
                    assert(patch.drop_last()[j] == b);
                }
            }
            if patch.drop_last().contains(b) {
                let j = choose|j: int| 0 <= j < patch.drop_last().len() && patch.drop_last()[j] == b;
                assert(patch[j] == b);
            }
            if b == patch.last() {
                assert(patch[patch.len() - 1] == b);
            }
        }
        if !c.contains(patch.last()) {
            let d = c.push(patch.last());
            assert forall|b: Seq<char>| #[trigger] d.contains(b) <==> c.contains(b) || b == patch.last() by {
                if d.contains(b) {
                    let j = choose|j: int| 0 <= j < d.len() && d[j] == b;
                    if j < c.len() {
                        assert(c[j] == b);
                    }
                }
                if c.contains(b) {
                    let j = choose|j: int| 0 <= j < c.len() && c[j] == b;
                    assert(d[j] == b);
                }
                if b == patch.last() {
                    assert(d[c.len() as int] == b);
                }
            }
        }
    }
}

/// Merging binds never duplicates a bind: where the current binds hold no
/// duplicates, neither does the result.
pub proof fn law_binds_no_duplicates(cur: Seq<Seq<char>>, patch: Seq<Seq<char>>)
    requires
        cur.no_duplicates(),
    ensures
        merge_binds(cur, patch).no_duplicates(),
    decreases patch.len(),
{
    if patch.len() > 0 {
        law_binds_no_duplicates(cur, patch.drop_last());
        let c = merge_binds(cur, patch.drop_last());
        if !c.contains(patch.last()) {
            let d = c.push(patch.last());
            assert forall|x: int, y: int| 0 <= x < d.len() && 0 <= y < d.len() && x != y implies d[x] != d[y] by {
                if x == c.len() {
                    assert(c[y] == d[y]);
                } else if y == c.len() {
                    assert(c[x] == d[x]);
                }
            }
        }
    }
}

} // verus!
