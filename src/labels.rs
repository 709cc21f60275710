use vstd::prelude::*;

verus! {

/// A list of labels with each string seen as its characters.
pub open spec fn label_view(v: Seq<(String, String)>) -> Seq<(Seq<char>, Seq<char>)> {
    v.map_values(|p: (String, String)| (p.0@, p.1@))
}

/// The first index at or after `from` of a label with key `k`.
pub open spec fn label_position(v: Seq<(Seq<char>, Seq<char>)>, k: Seq<char>, from: int) -> Option<int>
    decreases v.len() - from,
{
    if from < 0 || from >= v.len() {
        None
    } else if v[from].0 == k {
        Some(from)
    } else {
        label_position(v, k, from + 1)
    }
}

/// No two labels share a key.
pub open spec fn label_keys_unique(v: Seq<(Seq<char>, Seq<char>)>) -> bool {
    forall|a: int, b: int| 0 <= a < v.len() && 0 <= b < v.len() && a != b ==> #[trigger] v[a].0 != #[trigger] v[b].0
}

/// Where `label_position` finds a key, the label there has it; where it
/// finds none, no label from `from` on has it.
pub proof fn lemma_label_position(v: Seq<(Seq<char>, Seq<char>)>, k: Seq<char>, from: int)
    requires
        0 <= from,
    ensures
        match label_position(v, k, from) {
            Some(i) => from <= i < v.len() && v[i].0 == k,
            None => forall|j: int| from <= j < v.len() ==> v[j].0 != k,
        },
    decreases v.len() - from,
{
    if from < v.len() && v[from].0 != k {
        lemma_label_position(v, k, from + 1);
    }
}

/// Setting a label keeps the keys unique.
pub proof fn lemma_set_label_unique(v: Seq<(Seq<char>, Seq<char>)>, k: Seq<char>, val: Seq<char>)
    requires
        label_keys_unique(v),
    ensures
        label_keys_unique(set_label(v, k, val)),
{
    lemma_label_position(v, k, 0);
    let w = set_label(v, k, val);
    match label_position(v, k, 0) {
        Some(i) => {
            assert forall|a: int, b: int| 0 <= a < w.len() && 0 <= b < w.len() && a != b implies #[trigger] w[a].0 != #[trigger] w[b].0 by {
                assert(w[a].0 == v[a].0);
                assert(w[b].0 == v[b].0);
            }
        },
        None => {
            assert forall|a: int, b: int| 0 <= a < w.len() && 0 <= b < w.len() && a != b implies #[trigger] w[a].0 != #[trigger] w[b].0 by {
                if a < v.len() && b < v.len() {
                    assert(w[a] == v[a] && w[b] == v[b]);
                } else if a < v.len() {
                    assert(w[a] == v[a]);
                } else {
                    assert(w[b] == v[b]);
                }
            }
        },
    }
}

/// A label set to a value, as a map insert does: the value of an existing
/// key is replaced in place, a new key is appended.
pub open spec fn set_label(v: Seq<(Seq<char>, Seq<char>)>, k: Seq<char>, val: Seq<char>) -> Seq<(Seq<char>, Seq<char>)> {
    match label_position(v, k, 0) {
        Some(i) => v.update(i, (k, val)),
        None => v.push((k, val)),
    }
}

/// The labels that mark a container as run by the orchestrator for the
/// workload `key` in `namespace`, set over the user's labels.
pub open spec fn hooked(
    v: Seq<(Seq<char>, Seq<char>)>,
    key: Seq<char>,
    namespace: Seq<char>,
) -> Seq<(Seq<char>, Seq<char>)> {
    set_label(
        set_label(
            set_label(
                set_label(set_label(v, "io.nanocl"@, "enabled"@), "io.nanocl.kind"@, "Cargo"@),
                "io.nanocl.c"@,
                key,
            ),
            "io.nanocl.n"@,
            namespace,
        ),
        "com.docker.compose.project"@,
        "nanocl_"@ + namespace,
    )
}

/// Sets a label to a value, replacing the value of an existing key.
pub fn insert_label(labels: &mut Vec<(String, String)>, k: String, val: String)
    requires
        label_keys_unique(label_view(old(labels)@)),
    ensures
        label_view(final(labels)@) == set_label(label_view(old(labels)@), k@, val@),
        label_keys_unique(label_view(final(labels)@)),
{
    proof {
        lemma_set_label_unique(label_view(labels@), k@, val@);
    }
    let ghost lv = label_view(labels@);
    let mut i: usize = 0;
    let mut found: Option<usize> = None;
    while i < labels.len() && found.is_none()
        invariant
            lv == label_view(labels@),
            i <= labels@.len(),
            match found {
                Some(j) => label_position(lv, k@, 0) == Some(j as int) && j < labels@.len(),
                None => label_position(lv, k@, 0) == label_position(lv, k@, i as int),
            },
        decreases labels@.len() - i,
    {
        if labels[i].0 == k {
            assert(lv[i as int].0 == k@);
            found = Some(i);
        }
        i = i + 1;
    }
    match found {
        Some(j) => {
            labels.set(j, (k, val));
            assert(label_view(labels@) =~= lv.update(j as int, (k@, val@)));
        },
        None => {
            labels.push((k, val));
            assert(label_view(labels@) =~= lv.push((k@, val@)));
        },
    }
}

/// The user's labels with the orchestrator's own set over them: the marker,
/// the kind, the owning key, the namespace and the compose project. Like
/// the entries of a map, the labels have distinct keys.
pub fn hook_labels(key: &str, namespace: &str, labels: &Vec<(String, String)>) -> (r: Vec<(String, String)>)
    requires
        label_keys_unique(label_view(labels@)),
    ensures
        label_view(r@) == hooked(label_view(labels@), key@, namespace@),
        label_keys_unique(label_view(r@)),
{
    let mut hooked_labels: Vec<(String, String)> = Vec::new();
    let mut i: usize = 0;
    while i < labels.len()
        invariant
            i <= labels@.len(),
            label_view(hooked_labels@) == label_view(labels@).take(i as int),
        decreases labels@.len() - i,
    {
        let a = labels[i].0.clone();
        let b = labels[i].1.clone();
        let ghost before = label_view(hooked_labels@);
        hooked_labels.push((a, b));
        assert(label_view(hooked_labels@) =~= before.push(label_view(labels@)[i as int]));
        assert(label_view(hooked_labels@) =~= label_view(labels@).take(i as int + 1));
        i = i + 1;
    }
    assert(label_view(labels@).take(labels@.len() as int) =~= label_view(labels@));
    insert_label(&mut hooked_labels, String::from_str("io.nanocl"), String::from_str("enabled"));
    insert_label(&mut hooked_labels, String::from_str("io.nanocl.kind"), String::from_str("Cargo"));
    insert_label(&mut hooked_labels, String::from_str("io.nanocl.c"), String::from_str(key));
    insert_label(&mut hooked_labels, String::from_str("io.nanocl.n"), String::from_str(namespace));
    let mut project = String::from_str("nanocl_");
    project.append(namespace);
    insert_label(&mut hooked_labels, String::from_str("com.docker.compose.project"), project);
    hooked_labels
}

} // verus!
