//! The YAML document model the configuration files are read into, and the
//! deep merge that lays a per-account override over the shared base.

use vstd::prelude::*;

verus! {

/// The mathematical model of a YAML value. A mapping is an ordered list of
/// key/value entries (the order the document gave them in).
pub enum Yaml {
    Null,
    Bool(bool),
    Number(Seq<char>),
    Text(Seq<char>),
    Sequence(Seq<Yaml>),
    Mapping(Seq<(Yaml, Yaml)>),
    Tagged(Seq<char>, Box<Yaml>),
}

/// A YAML value as read from a configuration file. Numbers keep the text that
/// the YAML reader renders them as (`12`, `-3`, `1.5`, `.inf`).
#[derive(Debug)]
pub enum YamlValue {
    Null,
    Bool(bool),
    Number(String),
    String(String),
    Sequence(Vec<YamlValue>),
    Mapping(Vec<(YamlValue, YamlValue)>),
    Tagged(String, Box<YamlValue>),
}

/// The YAML reader's document value.
#[verifier::external_type_specification]
#[verifier::external_body]
pub struct ExSerdeYamlValue(serde_yaml_ng::Value);

/// The YAML reader's error.
#[verifier::external_type_specification]
#[verifier::external_body]
pub struct ExSerdeYamlError(serde_yaml_ng::Error);

/// Whether `text` reads as a YAML document (`serde_yaml_ng::from_str` into a
/// `serde_yaml_ng::Value` succeeds).
pub uninterp spec fn yaml_parses(text: Seq<char>) -> bool;

/// The model of the document that `serde_yaml_ng::from_str` reads from `text`.
pub uninterp spec fn yaml_parsed(text: Seq<char>) -> Yaml;

/// The library's form of a value of the YAML reader, variant for variant
/// (numbers as the text the reader renders them as, tags with their `!`).
#[verifier::external_body]
fn yaml_value_of(v: serde_yaml_ng::Value) -> YamlValue {
    match v {
        serde_yaml_ng::Value::Null => YamlValue::Null,
        serde_yaml_ng::Value::Bool(b) => YamlValue::Bool(b),
        serde_yaml_ng::Value::Number(n) => YamlValue::Number(n.to_string()),
        serde_yaml_ng::Value::String(s) => YamlValue::String(s),
        serde_yaml_ng::Value::Sequence(items) => YamlValue::Sequence(items.into_iter().map(yaml_value_of).collect()),
        serde_yaml_ng::Value::Mapping(m) => YamlValue::Mapping(m.into_iter().map(|(k, x)| (yaml_value_of(k), yaml_value_of(x))).collect()),
        serde_yaml_ng::Value::Tagged(t) => YamlValue::Tagged(t.tag.to_string(), Box::new(yaml_value_of(t.value))),
    }
}

/// Reads a YAML text with `serde_yaml_ng::from_str` into a `serde_yaml_ng::Value`
/// and converts it (see `yaml_value_of`). Claimed: it succeeds exactly when
/// `yaml_parses(text)`, and then the value's model is `yaml_parsed(text)`; both
/// depend on the text alone.
#[verifier::external_body]
pub(crate) fn parse_yaml(text: &str) -> (r: Result<YamlValue, serde_yaml_ng::Error>)
    ensures
        r is Ok <==> yaml_parses(text@),
        r matches Ok(v) ==> v@ == yaml_parsed(text@),
{
    serde_yaml_ng::from_str::<serde_yaml_ng::Value>(text).map(yaml_value_of)
}

/// The model of a value.
pub open spec fn yaml_view(v: &YamlValue) -> Yaml
    decreases v, 0int,
{
    match v {
        YamlValue::Null => Yaml::Null,
        YamlValue::Bool(b) => Yaml::Bool(*b),
        YamlValue::Number(n) => Yaml::Number(n@),
        YamlValue::String(s) => Yaml::Text(s@),
        YamlValue::Sequence(items) => {
            proof {
                assert(decreases_to!(*v => v->Sequence_0));
                assert(decreases_to!(v->Sequence_0 => v->Sequence_0@));
            }
            Yaml::Sequence(items_view(items@))
        },
        YamlValue::Mapping(items) => {
            proof {
                assert(decreases_to!(*v => v->Mapping_0));
                assert(decreases_to!(v->Mapping_0 => v->Mapping_0@));
            }
            Yaml::Mapping(entries_view(items@))
        },
        YamlValue::Tagged(t, b) => Yaml::Tagged(t@, Box::new(yaml_view(b))),
    }
}

/// The models of a run of values.
pub open spec fn items_view(items: Seq<YamlValue>) -> Seq<Yaml>
    decreases items, 0int,
{
    if items.len() == 0 {
        Seq::empty()
    } else {
        proof {
            assert(decreases_to!(items => items[items.len() - 1]));
        }
        items_view(items.drop_last()).push(yaml_view(&items[items.len() - 1]))
    }
}

/// The models of a run of mapping entries.
pub open spec fn entries_view(items: Seq<(YamlValue, YamlValue)>) -> Seq<(Yaml, Yaml)>
    decreases items, 0int,
{
    if items.len() == 0 {
        Seq::empty()
    } else {
        proof {
            assert(decreases_to!(items => items[items.len() - 1]));
            assert(decreases_to!(items[items.len() - 1] => items[items.len() - 1].0));
            assert(decreases_to!(items[items.len() - 1] => items[items.len() - 1].1));
        }
        entries_view(items.drop_last()).push((yaml_view(&items[items.len() - 1].0), yaml_view(&items[items.len() - 1].1)))
    }
}

pub proof fn lemma_items_view(items: Seq<YamlValue>)
    ensures
        items_view(items).len() == items.len(),
        forall|i: int| 0 <= i < items.len() ==> #[trigger] items_view(items)[i] == yaml_view(&items[i]),
    decreases items.len(),
{
    if items.len() > 0 {
        lemma_items_view(items.drop_last());
    }
}

pub proof fn lemma_entries_view(items: Seq<(YamlValue, YamlValue)>)
    ensures
        entries_view(items).len() == items.len(),
        forall|i: int| 0 <= i < items.len() ==> #[trigger] entries_view(items)[i] == (yaml_view(&items[i].0), yaml_view(&items[i].1)),
    decreases items.len(),
{
    if items.len() > 0 {
        lemma_entries_view(items.drop_last());
    }
}

impl View for YamlValue {
    type V = Yaml;

    open spec fn view(&self) -> Yaml {
        yaml_view(self)
    }
}

/// A copy of a value with the same model.
pub fn deep_clone(v: &YamlValue) -> (r: YamlValue)
    ensures r@ == v@,
    decreases v,
{
    match v {
        YamlValue::Null => YamlValue::Null,
        YamlValue::Bool(b) => YamlValue::Bool(*b),
        YamlValue::Number(n) => YamlValue::Number(n.clone()),
        YamlValue::String(s) => YamlValue::String(s.clone()),
        YamlValue::Sequence(items) => {
            let mut out: Vec<YamlValue> = Vec::new();
            let mut i: usize = 0;
            while i < items.len()
                invariant
                    i <= items.len(),
                    out.len() == i,
                    *v == YamlValue::Sequence(*items),
                    forall|j: int| 0 <= j < i ==> out[j]@ == items[j]@,
                decreases items.len() - i,
            {
                proof {
                    assert(decreases_to!(*v => v->Sequence_0));
                    assert(decreases_to!(*items => items@));
                    assert(decreases_to!(items@ => items@[i as int]));
                    assert(decreases_to!(v => items@[i as int]));
                }
                let c = deep_clone(&items[i]);
                out.push(c);
                i += 1;
            }
            let r = YamlValue::Sequence(out);
            proof {
                lemma_items_view(out@);
                lemma_items_view(items@);
                assert(items_view(out@) =~= items_view(items@));
            }
            r
        },
        YamlValue::Mapping(items) => {
            let mut out: Vec<(YamlValue, YamlValue)> = Vec::new();
            let mut i: usize = 0;
            while i < items.len()
                invariant
                    i <= items.len(),
                    out.len() == i,
                    *v == YamlValue::Mapping(*items),
                    forall|j: int| 0 <= j < i ==> out[j].0@ == items[j].0@ && out[j].1@ == items[j].1@,
                decreases items.len() - i,
            {
                proof {
                    assert(decreases_to!(*v => v->Mapping_0));
                    assert(decreases_to!(*items => items@));
                    assert(decreases_to!(items@ => items@[i as int]));
                    assert(decreases_to!(items@[i as int] => items@[i as int].0));
                    assert(decreases_to!(v => items@[i as int].0));
                    assert(decreases_to!(v => items@[i as int].1));
                }
                let k = deep_clone(&items[i].0);
                let x = deep_clone(&items[i].1);
                out.push((k, x));
                i += 1;
            }
            let r = YamlValue::Mapping(out);
            proof {
                lemma_entries_view(out@);
                lemma_entries_view(items@);
                assert(entries_view(out@) =~= entries_view(items@));
            }
            r
        },
        YamlValue::Tagged(t, b) => YamlValue::Tagged(t.clone(), Box::new(deep_clone(b))),
    }
}


/// Whether two values are the same YAML value (entry order of mappings counts).
pub fn values_equal(a: &YamlValue, b: &YamlValue) -> (r: bool)
    ensures
        r == (a@ == b@),
    decreases a,
{
    match (a, b) {
        (YamlValue::Null, YamlValue::Null) => true,
        (YamlValue::Bool(x), YamlValue::Bool(y)) => *x == *y,
        (YamlValue::Number(x), YamlValue::Number(y)) => x.eq(y),
        (YamlValue::String(x), YamlValue::String(y)) => x.eq(y),
        (YamlValue::Sequence(xs), YamlValue::Sequence(ys)) => {
            proof {
                lemma_items_view(xs@);
                lemma_items_view(ys@);
            }
            assert(a@ == Yaml::Sequence(items_view(xs@)));
            assert(b@ == Yaml::Sequence(items_view(ys@)));
            if xs.len() != ys.len() {
                return false;
            }
            let mut i: usize = 0;
            while i < xs.len()
                invariant
                    xs.len() == ys.len(),
                    i <= xs.len(),
                    *a == YamlValue::Sequence(*xs),
                    *b == YamlValue::Sequence(*ys),
                    items_view(xs@).len() == xs.len(),
                    items_view(ys@).len() == ys.len(),
                    forall|j: int| 0 <= j < xs.len() ==> #[trigger] items_view(xs@)[j] == yaml_view(&xs@[j]),
                    forall|j: int| 0 <= j < ys.len() ==> #[trigger] items_view(ys@)[j] == yaml_view(&ys@[j]),
                    forall|j: int| 0 <= j < i ==> items_view(xs@)[j] == items_view(ys@)[j],
                decreases xs.len() - i,
            {
                proof {
                    assert(decreases_to!(*a => a->Sequence_0));
                    assert(decreases_to!(a->Sequence_0 => a->Sequence_0@));
                    assert(decreases_to!(a->Sequence_0@ => a->Sequence_0@[i as int]));
                }
                if !values_equal(&xs[i], &ys[i]) {
                    assert(items_view(xs@)[i as int] != items_view(ys@)[i as int]);
                    return false;
                }
                i += 1;
            }
            assert(items_view(xs@) =~= items_view(ys@));
            true
        },
        (YamlValue::Mapping(xs), YamlValue::Mapping(ys)) => {
            proof {
                lemma_entries_view(xs@);
                lemma_entries_view(ys@);
            }
            assert(a@ == Yaml::Mapping(entries_view(xs@)));
            assert(b@ == Yaml::Mapping(entries_view(ys@)));
            if xs.len() != ys.len() {
                return false;
            }
            let mut i: usize = 0;
            while i < xs.len()
                invariant
                    xs.len() == ys.len(),
                    i <= xs.len(),
                    *a == YamlValue::Mapping(*xs),
                    *b == YamlValue::Mapping(*ys),
                    entries_view(xs@).len() == xs.len(),
                    entries_view(ys@).len() == ys.len(),
                    forall|j: int| 0 <= j < xs.len() ==> #[trigger] entries_view(xs@)[j] == (yaml_view(&xs@[j].0), yaml_view(&xs@[j].1)),
                    forall|j: int| 0 <= j < ys.len() ==> #[trigger] entries_view(ys@)[j] == (yaml_view(&ys@[j].0), yaml_view(&ys@[j].1)),
                    forall|j: int| 0 <= j < i ==> entries_view(xs@)[j] == entries_view(ys@)[j],
                decreases xs.len() - i,
            {
                proof {
                    assert(decreases_to!(*a => a->Mapping_0));
                    assert(decreases_to!(a->Mapping_0 => a->Mapping_0@));
                    assert(decreases_to!(a->Mapping_0@ => a->Mapping_0@[i as int]));
                    assert(decreases_to!(a->Mapping_0@[i as int] => a->Mapping_0@[i as int].0));
                    assert(decreases_to!(a->Mapping_0@[i as int] => a->Mapping_0@[i as int].1));
                }
                if !values_equal(&xs[i].0, &ys[i].0) || !values_equal(&xs[i].1, &ys[i].1) {
                    assert(entries_view(xs@)[i as int] != entries_view(ys@)[i as int]);
                    return false;
                }
                i += 1;
            }
            assert(entries_view(xs@) =~= entries_view(ys@));
            true
        },
        (YamlValue::Tagged(t, x), YamlValue::Tagged(u, y)) => {
            assert(a@ == Yaml::Tagged(t@, Box::new(yaml_view(x))));
            assert(b@ == Yaml::Tagged(u@, Box::new(yaml_view(y))));
            if !t.eq(u) {
                return false;
            }
            values_equal(x, y)
        },
        _ => false,
    }
}

/// The index of the first entry whose key is `key`, or -1 when there is none.
pub open spec fn key_index(entries: Seq<(Yaml, Yaml)>, key: Yaml) -> int
    decreases entries.len(),
{
    if entries.len() == 0 {
        -1
    } else {
        let i = key_index(entries.drop_last(), key);
        if i >= 0 {
            i
        } else if entries.last().0 == key {
            entries.len() - 1
        } else {
            -1
        }
    }
}

/// The value bound to `key`, if any.
pub open spec fn lookup(entries: Seq<(Yaml, Yaml)>, key: Yaml) -> Option<Yaml> {
    let i = key_index(entries, key);
    if i >= 0 { Some(entries[i].1) } else { None }
}

/// No key occurs twice.
pub open spec fn keys_unique(entries: Seq<(Yaml, Yaml)>) -> bool {
    forall|i: int, j: int| 0 <= i < entries.len() && 0 <= j < entries.len() && i != j ==> #[trigger] entries[i].0 != #[trigger] entries[j].0
}

/// Removes entry `i` by moving the last entry into its place (how the YAML
/// reader's mapping removes a key).
pub open spec fn swap_remove_entry(entries: Seq<(Yaml, Yaml)>, i: int) -> Seq<(Yaml, Yaml)> {
    entries.update(i, entries.last()).drop_last()
}

/// Deep merge of `over` onto `base`: two mappings merge key by key (a key of
/// `over` that `base` has is removed from `base` and appended with the merged
/// value; a new key is appended), while anything else in `over` replaces `base`.
pub open spec fn merge(base: Yaml, over: Yaml) -> Yaml
    decreases over, 1int,
{
    match (base, over) {
        (Yaml::Mapping(b), Yaml::Mapping(o)) => {
            proof {
                assert(decreases_to!(over => over->Mapping_0));
            }
            Yaml::Mapping(merge_entries(b, o, o.len() as nat))
        },
        _ => over,
    }
}

/// The entries of `base` after the first `n` entries of `over` were merged in.
pub open spec fn merge_entries(base: Seq<(Yaml, Yaml)>, over: Seq<(Yaml, Yaml)>, n: nat) -> Seq<(Yaml, Yaml)>
    decreases over, n,
{
    if n == 0 || n > over.len() {
        base
    } else {
        let acc = merge_entries(base, over, (n - 1) as nat);
        let (key, value) = over[n - 1];
        let i = key_index(acc, key);
        proof {
            assert(decreases_to!(over => over[n - 1]));
            assert(decreases_to!(over[n - 1] => over[n - 1].1));
        }
        if i >= 0 {
            swap_remove_entry(acc, i).push((key, merge(acc[i].1, value)))
        } else {
            acc.push((key, value))
        }
    }
}

/// `key_index` is the first position holding the key.
pub proof fn lemma_key_index(entries: Seq<(Yaml, Yaml)>, key: Yaml)
    ensures
        -1 <= key_index(entries, key) < entries.len(),
        key_index(entries, key) == -1 ==> forall|j: int| 0 <= j < entries.len() ==> #[trigger] entries[j].0 != key,
        key_index(entries, key) >= 0 ==> entries[key_index(entries, key)].0 == key,
        forall|j: int| 0 <= j < key_index(entries, key) ==> #[trigger] entries[j].0 != key,
    decreases entries.len(),
{
    if entries.len() > 0 {
        let p = entries.drop_last();
        lemma_key_index(p, key);
        assert forall|j: int| 0 <= j < p.len() implies #[trigger] p[j] == entries[j] by {}
        let k = key_index(p, key);
        if k >= 0 {
            assert(key_index(entries, key) == k);
            assert forall|j: int| 0 <= j < k implies #[trigger] entries[j].0 != key by {
                assert(p[j].0 != key);
            }
        } else if entries.last().0 == key {
            assert(key_index(entries, key) == entries.len() - 1);
            assert forall|j: int| 0 <= j < entries.len() - 1 implies #[trigger] entries[j].0 != key by {
                assert(p[j].0 != key);
            }
        } else {
            assert(key_index(entries, key) == -1);
            assert forall|j: int| 0 <= j < entries.len() implies #[trigger] entries[j].0 != key by {
                if j < entries.len() - 1 {
                    assert(p[j].0 != key);
                }
            }
        }
    }
}

/// The position of the first entry whose key equals `key`.
fn find_key(entries: &Vec<(YamlValue, YamlValue)>, key: &YamlValue) -> (r: Option<usize>)
    ensures
        match r {
            Some(i) => i as int == key_index(entries_view(entries@), key@),
            None => key_index(entries_view(entries@), key@) == -1,
        },
{
    proof {
        lemma_entries_view(entries@);
        lemma_key_index(entries_view(entries@), key@);
    }
    let mut i: usize = 0;
    while i < entries.len()
        invariant
            i <= entries.len(),
            entries_view(entries@).len() == entries.len(),
            forall|j: int| 0 <= j < entries.len() ==> #[trigger] entries_view(entries@)[j] == (yaml_view(&entries@[j].0), yaml_view(&entries@[j].1)),
            forall|j: int| 0 <= j < i ==> entries_view(entries@)[j].0 != key@,
            -1 <= key_index(entries_view(entries@), key@) < entries.len(),
            key_index(entries_view(entries@), key@) == -1 ==> forall|j: int| 0 <= j < entries.len() ==> #[trigger] entries_view(entries@)[j].0 != key@,
            key_index(entries_view(entries@), key@) >= 0 ==> entries_view(entries@)[key_index(entries_view(entries@), key@)].0 == key@,
            forall|j: int| 0 <= j < key_index(entries_view(entries@), key@) ==> #[trigger] entries_view(entries@)[j].0 != key@,
        decreases entries.len() - i,
    {
        if values_equal(&entries[i].0, key) {
            proof {
                let ki = key_index(entries_view(entries@), key@);
                assert(entries_view(entries@)[i as int].0 == key@);
                if ki == -1 {
                    assert(entries_view(entries@)[i as int].0 != key@);
                } else if ki < i {
                    assert(entries_view(entries@)[ki].0 != key@);
                } else if ki > i {
                    assert(entries_view(entries@)[i as int].0 != key@);
                }
            }
            return Some(i);
        }
        i += 1;
    }
    None
}

/// Deep-merges `over` onto `base`: nested mappings merge recursively, while
/// sequences and scalars in `over` replace the corresponding base value (a
/// mismatched shape replaces too).
pub fn deep_merge(base: YamlValue, over: YamlValue) -> (r: YamlValue)
    ensures
        r@ == merge(base@, over@),
    decreases over,
{
    let ghost over_g = over;
    let ghost base_g = base;
    match over {
        YamlValue::Mapping(o) => {
            match base {
                YamlValue::Mapping(b) => {
                    let mut b = b;
                    let ghost ov = entries_view(o@);
                    let ghost bv0 = entries_view(b@);
                    proof {
                        lemma_entries_view(o@);
                        assert(over_g@ == Yaml::Mapping(ov));
                        assert(base_g@ == Yaml::Mapping(bv0));
                    }
                    for entry in it: o
                        invariant
                            it.seq() == over_g->Mapping_0@,
                            over_g == over,
                            over_g is Mapping,
                            ov == entries_view(it.seq()),
                            ov.len() == it.seq().len(),
                            forall|j: int| 0 <= j < it.seq().len() ==> #[trigger] ov[j] == (yaml_view(&it.seq()[j].0), yaml_view(&it.seq()[j].1)),
                            entries_view(b@) == merge_entries(bv0, ov, it.index() as nat),
                    {
                        let ghost n = it.index();
                        let (key, value) = entry;
                        proof {
                            assert(decreases_to!(over_g => over_g->Mapping_0));
                            assert(decreases_to!(over_g->Mapping_0 => over_g->Mapping_0@));
                            assert(decreases_to!(over_g->Mapping_0@ => over_g->Mapping_0@[n]));
                            assert(decreases_to!(over_g->Mapping_0@[n] => over_g->Mapping_0@[n].1));
                            lemma_entries_view(b@);
                        }
                        let found = find_key(&b, &key);
                        proof {
                            lemma_key_index(entries_view(b@), key@);
                            assert(entry == it.seq()[n]);
                            assert(decreases_to!(over_g => value));
                        }
                        match found {
                            Some(i) => {
                                let ghost before = b@;
                                let (_, existing) = b.swap_remove(i);
                                let merged = deep_merge(existing, value);
                                b.push((key, merged));
                                proof {
                                    lemma_entries_view(b@);
                                    lemma_entries_view(before);
                                    let acc = entries_view(before);
                                    assert(entries_view(b@) =~= swap_remove_entry(acc, i as int).push((ov[n].0, merge(acc[i as int].1, ov[n].1))));
                                }
                            },
                            None => {
                                let ghost before = b@;
                                b.push((key, value));
                                proof {
                                    lemma_entries_view(b@);
                                    lemma_entries_view(before);
                                    assert(entries_view(b@) =~= entries_view(before).push(ov[n]));
                                }
                            },
                        }
                    }
                    YamlValue::Mapping(b)
                },
                _ => YamlValue::Mapping(o),
            }
        },
        _ => over,
    }
}

/// In a mapping without repeated keys, a key sits at exactly one position.
proof fn lemma_unique_index(entries: Seq<(Yaml, Yaml)>, j: int)
    requires
        keys_unique(entries),
        0 <= j < entries.len(),
    ensures
        key_index(entries, entries[j].0) == j,
        lookup(entries, entries[j].0) == Some(entries[j].1),
{
    lemma_key_index(entries, entries[j].0);
    let ki = key_index(entries, entries[j].0);
    if ki != j {
        assert(entries[ki].0 == entries[j].0);
    }
}

/// Looking a key up in a mapping without repeated keys.
proof fn lemma_lookup_unique(entries: Seq<(Yaml, Yaml)>, key: Yaml)
    requires
        keys_unique(entries),
    ensures
        lookup(entries, key) is None <==> forall|j: int| 0 <= j < entries.len() ==> #[trigger] entries[j].0 != key,
        forall|j: int| 0 <= j < entries.len() && #[trigger] entries[j].0 == key ==> lookup(entries, key) == Some(entries[j].1),
{
    lemma_key_index(entries, key);
    assert forall|j: int| 0 <= j < entries.len() && #[trigger] entries[j].0 == key implies lookup(entries, key) == Some(entries[j].1) by {
        lemma_unique_index(entries, j);
    }
}

/// Removing one entry keeps the other bindings and the absence of repeated keys.
proof fn lemma_swap_remove(entries: Seq<(Yaml, Yaml)>, i: int, key: Yaml)
    requires
        keys_unique(entries),
        0 <= i < entries.len(),
        entries[i].0 != key,
    ensures
        keys_unique(swap_remove_entry(entries, i)),
        lookup(swap_remove_entry(entries, i), key) == lookup(entries, key),
        lookup(swap_remove_entry(entries, i), entries[i].0) is None,
{
    let r = swap_remove_entry(entries, i);
    let last = entries.len() - 1;
    assert forall|x: int, y: int| 0 <= x < r.len() && 0 <= y < r.len() && x != y implies #[trigger] r[x].0 != #[trigger] r[y].0 by {
        let ox = if x == i { last } else { x };
        let oy = if y == i { last } else { y };
        assert(r[x] == entries[ox]);
        assert(r[y] == entries[oy]);
    }
    lemma_lookup_unique(entries, key);
    lemma_lookup_unique(r, key);
    lemma_lookup_unique(r, entries[i].0);
    assert forall|j: int| 0 <= j < r.len() implies #[trigger] r[j].0 != entries[i].0 by {
        let oj = if j == i { last } else { j };
        assert(r[j] == entries[oj]);
    }
    if lookup(entries, key) is Some {
        let j = choose|j: int| 0 <= j < entries.len() && #[trigger] entries[j].0 == key;
        if j == last {
            assert(r[i] == entries[j]);
        } else {
            assert(r[j] == entries[j]);
        }
    } else {
        assert forall|j: int| 0 <= j < r.len() implies #[trigger] r[j].0 != key by {
            let oj = if j == i { last } else { j };
            assert(r[j] == entries[oj]);
        }
    }
}

/// Appending a key that is absent keeps keys unique and binds it.
proof fn lemma_push_new(entries: Seq<(Yaml, Yaml)>, key: Yaml, value: Yaml, other: Yaml)
    requires
        keys_unique(entries),
        lookup(entries, key) is None,
        other != key,
    ensures
        keys_unique(entries.push((key, value))),
        lookup(entries.push((key, value)), key) == Some(value),
        lookup(entries.push((key, value)), other) == lookup(entries, other),
{
    let r = entries.push((key, value));
    lemma_lookup_unique(entries, key);
    assert forall|x: int, y: int| 0 <= x < r.len() && 0 <= y < r.len() && x != y implies #[trigger] r[x].0 != #[trigger] r[y].0 by {
        if x < entries.len() && y < entries.len() {
            assert(r[x] == entries[x] && r[y] == entries[y]);
        } else if x < entries.len() {
            assert(r[x] == entries[x]);
        } else {
            assert(r[y] == entries[y]);
        }
    }
    lemma_lookup_unique(r, key);
    assert(r[entries.len() as int].0 == key);
    lemma_lookup_unique(entries, other);
    lemma_lookup_unique(r, other);
    if lookup(entries, other) is Some {
        let j = choose|j: int| 0 <= j < entries.len() && #[trigger] entries[j].0 == other;
        assert(r[j] == entries[j]);
    } else {
        assert forall|j: int| 0 <= j < r.len() implies #[trigger] r[j].0 != other by {
            if j < entries.len() {
                assert(r[j] == entries[j]);
            }
        }
    }
}

/// What a merged mapping binds `key` to, after the first `n` entries of `over`.
pub open spec fn merged_binding(base: Seq<(Yaml, Yaml)>, over: Seq<(Yaml, Yaml)>, n: nat, key: Yaml) -> Option<Yaml> {
    match lookup(over.take(n as int), key) {
        Some(v) => Some(
            match lookup(base, key) {
                Some(b) => merge(b, v),
                None => v,
            },
        ),
        None => lookup(base, key),
    }
}

proof fn lemma_merge_entries(base: Seq<(Yaml, Yaml)>, over: Seq<(Yaml, Yaml)>, n: nat, key: Yaml)
    requires
        keys_unique(base),
        keys_unique(over),
        n <= over.len(),
    ensures
        keys_unique(merge_entries(base, over, n)),
        lookup(merge_entries(base, over, n), key) == merged_binding(base, over, n, key),
    decreases n,
{
    if n > 0 {
        let m = (n - 1) as nat;
        lemma_merge_entries(base, over, m, key);
        let acc = merge_entries(base, over, m);
        let (k, v) = over[m as int];
        lemma_merge_entries(base, over, m, k);
        let pre = over.take(m as int);
        let cur = over.take(n as int);
        assert(cur =~= pre.push((k, v)));
        assert(keys_unique(pre)) by {
            assert forall|x: int, y: int| 0 <= x < pre.len() && 0 <= y < pre.len() && x != y implies #[trigger] pre[x].0 != #[trigger] pre[y].0 by {
                assert(pre[x] == over[x] && pre[y] == over[y]);
            }
        }
        lemma_lookup_unique(pre, k);
        assert forall|j: int| 0 <= j < pre.len() implies #[trigger] pre[j].0 != k by {
            assert(pre[j] == over[j]);
        }
        assert(lookup(pre, k) is None);
        lemma_key_index(acc, k);
        let i = key_index(acc, k);
        // the binding of k before this step is the base one
        assert(lookup(acc, k) == lookup(base, k));
        if i >= 0 {
            let removed = swap_remove_entry(acc, i);
            lemma_unique_index(acc, i);
            assert(acc[i].0 == k);
            assert(lookup(acc, k) == Some(acc[i].1));
            let mv = merge(acc[i].1, v);
            if key != k {
                lemma_swap_remove(acc, i, key);
                lemma_push_new(removed, k, mv, key);
                lemma_push_new(pre, k, v, key);
            } else {
                let dummy = if k == Yaml::Null { Yaml::Bool(true) } else { Yaml::Null };
                lemma_swap_remove(acc, i, dummy);
                lemma_push_new(removed, k, mv, dummy);
                lemma_push_new(pre, k, v, dummy);
            }
        } else {
            assert(lookup(acc, k) is None);
            if key != k {
                lemma_push_new(acc, k, v, key);
                lemma_push_new(pre, k, v, key);
            } else {
                let dummy = if k == Yaml::Null { Yaml::Bool(true) } else { Yaml::Null };
                lemma_push_new(acc, k, v, dummy);
                lemma_push_new(pre, k, v, dummy);
            }
        }
    } else {
        assert(over.take(0) =~= Seq::<(Yaml, Yaml)>::empty());
    }
}

/// Merging two mappings without repeated keys: a key of `over` ends up bound to
/// its `over` value merged onto the base value (or to the `over` value alone when
/// the base lacks it); every other key keeps its base binding; and no key is
/// repeated in the result.
pub proof fn law_merge_mapping_bindings(base: Seq<(Yaml, Yaml)>, over: Seq<(Yaml, Yaml)>, key: Yaml)
    requires
        keys_unique(base),
        keys_unique(over),
    ensures
        merge(Yaml::Mapping(base), Yaml::Mapping(over)) is Mapping,
        keys_unique(merge(Yaml::Mapping(base), Yaml::Mapping(over))->Mapping_0),
        lookup(merge(Yaml::Mapping(base), Yaml::Mapping(over))->Mapping_0, key) == match lookup(over, key) {
            Some(v) => Some(
                match lookup(base, key) {
                    Some(b) => merge(b, v),
                    None => v,
                },
            ),
            None => lookup(base, key),
        },
{
    lemma_merge_entries(base, over, over.len() as nat, key);
    assert(over.take(over.len() as int) =~= over);
}

/// The keys a mapping binds.
pub open spec fn keys_of(entries: Seq<(Yaml, Yaml)>) -> Set<Yaml> {
    Set::new(|k: Yaml| exists|j: int| 0 <= j < entries.len() && #[trigger] entries[j].0 == k)
}

proof fn lemma_merge_entries_keys(base: Seq<(Yaml, Yaml)>, over: Seq<(Yaml, Yaml)>, n: nat)
    requires
        n <= over.len(),
    ensures
        keys_of(merge_entries(base, over, n)) == keys_of(base).union(keys_of(over.take(n as int))),
    decreases n,
{
    if n == 0 {
        assert(over.take(0) =~= Seq::<(Yaml, Yaml)>::empty());
        assert(keys_of(over.take(0)) =~= Set::<Yaml>::empty());
        assert(keys_of(base).union(Set::<Yaml>::empty()) =~= keys_of(base));
    } else {
        let m = (n - 1) as nat;
        lemma_merge_entries_keys(base, over, m);
        let acc = merge_entries(base, over, m);
        let (k, v) = over[m as int];
        let pre = over.take(m as int);
        let cur = over.take(n as int);
        assert(cur =~= pre.push((k, v)));
        assert(keys_of(cur) =~= keys_of(pre).insert(k)) by {
            assert forall|x: Yaml| keys_of(cur).contains(x) implies keys_of(pre).insert(k).contains(x) by {
                let j = choose|j: int| 0 <= j < cur.len() && #[trigger] cur[j].0 == x;
                if j < pre.len() {
                    assert(pre[j] == cur[j]);
                }
            }
            assert forall|x: Yaml| keys_of(pre).insert(k).contains(x) implies keys_of(cur).contains(x) by {
                if x == k {
                    assert(cur[m as int].0 == k);
                } else {
                    let j = choose|j: int| 0 <= j < pre.len() && #[trigger] pre[j].0 == x;
                    assert(cur[j] == pre[j]);
                }
            }
        }
        lemma_key_index(acc, k);
        let i = key_index(acc, k);
        let res = merge_entries(base, over, n);
        if i >= 0 {
            let removed = swap_remove_entry(acc, i);
            let last = acc.len() - 1;
            assert(res == removed.push((k, merge(acc[i].1, v))));
            assert(keys_of(res) =~= keys_of(acc)) by {
                assert forall|x: Yaml| keys_of(res).contains(x) implies keys_of(acc).contains(x) by {
                    let j = choose|j: int| 0 <= j < res.len() && #[trigger] res[j].0 == x;
                    if j == removed.len() {
                        assert(acc[i].0 == x);
                    } else if j == i {
                        assert(removed[j] == acc[last]);
                    } else {
                        assert(removed[j] == acc[j]);
                    }
                }
                assert forall|x: Yaml| keys_of(acc).contains(x) implies keys_of(res).contains(x) by {
                    let j = choose|j: int| 0 <= j < acc.len() && #[trigger] acc[j].0 == x;
                    if j == i {
                        assert(res[removed.len() as int].0 == x);
                    } else if j == last {
                        assert(res[i] == acc[last]);
                    } else {
                        assert(res[j] == acc[j]);
                    }
                }
            }
            assert(keys_of(acc).contains(k)) by {
                assert(acc[i].0 == k);
            }
        } else {
            assert(res == acc.push((k, v)));
            assert(keys_of(res) =~= keys_of(acc).insert(k)) by {
                assert forall|x: Yaml| keys_of(res).contains(x) implies keys_of(acc).insert(k).contains(x) by {
                    let j = choose|j: int| 0 <= j < res.len() && #[trigger] res[j].0 == x;
                    if j < acc.len() {
                        assert(res[j] == acc[j]);
                    }
                }
                assert forall|x: Yaml| keys_of(acc).insert(k).contains(x) implies keys_of(res).contains(x) by {
                    if x == k {
                        assert(res[acc.len() as int].0 == k);
                    } else {
                        let j = choose|j: int| 0 <= j < acc.len() && #[trigger] acc[j].0 == x;
                        assert(res[j] == acc[j]);
                    }
                }
            }
        }
        assert(keys_of(res) =~= keys_of(base).union(keys_of(cur)));
    }
}

/// Merging two mappings, whatever keys they repeat, binds exactly the keys of
/// either.
pub proof fn law_merge_keys(base: Seq<(Yaml, Yaml)>, over: Seq<(Yaml, Yaml)>)
    ensures
        merge(Yaml::Mapping(base), Yaml::Mapping(over)) is Mapping,
        keys_of(merge(Yaml::Mapping(base), Yaml::Mapping(over))->Mapping_0) == keys_of(base).union(keys_of(over)),
{
    lemma_merge_entries_keys(base, over, over.len() as nat);
    assert(over.take(over.len() as int) =~= over);
}

/// Anything but a mapping merged onto a value, or anything merged onto a value
/// that is not a mapping, replaces it.
pub proof fn law_merge_replaces(base: Yaml, over: Yaml)
    requires
        !(base is Mapping && over is Mapping),
    ensures
        merge(base, over) == over,
{
}

/// Merging an empty mapping onto a mapping leaves it as it was.
pub proof fn law_merge_empty_override(base: Seq<(Yaml, Yaml)>)
    ensures
        merge(Yaml::Mapping(base), Yaml::Mapping(Seq::empty())) == Yaml::Mapping(base),
{
}

/// The key under which a document keeps its per-account override blocks.
pub open spec fn accounts_key() -> Yaml {
    Yaml::Text("accounts"@)
}

/// A document with the `accounts` entry taken out (by the mapping's swap-removal).
pub open spec fn split_base(v: Yaml) -> Yaml {
    match v {
        Yaml::Mapping(es) => {
            let i = key_index(es, accounts_key());
            if i >= 0 { Yaml::Mapping(swap_remove_entry(es, i)) } else { v }
        },
        _ => v,
    }
}

/// The string-keyed entries of a mapping, in order.
pub open spec fn text_keyed(es: Seq<(Yaml, Yaml)>) -> Seq<(Seq<char>, Yaml)>
    decreases es.len(),
{
    if es.len() == 0 {
        Seq::empty()
    } else {
        let rest = text_keyed(es.drop_last());
        match es.last().0 {
            Yaml::Text(k) => rest.push((k, es.last().1)),
            _ => rest,
        }
    }
}

/// The per-account override blocks of a document: the string-keyed entries of
/// its `accounts` mapping (none when there is no such mapping).
pub open spec fn split_blocks(v: Yaml) -> Seq<(Seq<char>, Yaml)> {
    match v {
        Yaml::Mapping(es) => {
            let i = key_index(es, accounts_key());
            if i >= 0 {
                match es[i].1 {
                    Yaml::Mapping(bs) => text_keyed(bs),
                    _ => Seq::empty(),
                }
            } else {
                Seq::empty()
            }
        },
        _ => Seq::empty(),
    }
}

/// The block bound to `id`, if any.
pub open spec fn block_for(blocks: Seq<(Seq<char>, Yaml)>, id: Seq<char>) -> Option<Yaml>
    decreases blocks.len(),
{
    if blocks.len() == 0 {
        None
    } else if blocks[0].0 == id {
        Some(blocks[0].1)
    } else {
        block_for(blocks.drop_first(), id)
    }
}

/// A YAML document made of a shared base plus per-account override blocks,
/// each deep-merged over the base when an account's view is asked for.
pub struct LayeredDocument {
    base: YamlValue,
    accounts: Vec<(String, YamlValue)>,
}

impl LayeredDocument {
    /// The shared base (the document without its `accounts` entry).
    pub closed spec fn base_view(&self) -> Yaml {
        self.base@
    }

    /// The override blocks, by account id, in document order.
    pub closed spec fn blocks_view(&self) -> Seq<(Seq<char>, Yaml)> {
        Seq::new(self.accounts.len() as nat, |i: int| (self.accounts@[i].0@, self.accounts@[i].1@))
    }

    /// Splits a parsed document into its base and its `accounts:` override blocks.
    pub fn from_value(value: YamlValue) -> (r: LayeredDocument)
        ensures
            r.base_view() == split_base(value@),
            r.blocks_view() == split_blocks(value@),
    {
        let ghost v = value@;
        let mut accounts: Vec<(String, YamlValue)> = Vec::new();
        let base = match value {
            YamlValue::Mapping(es) => {
                let mut es = es;
                let key = YamlValue::String(crate::text::owned("accounts"));
                proof {
                    lemma_entries_view(es@);
                    assert(key@ == accounts_key());
                    assert(v == Yaml::Mapping(entries_view(es@)));
                }
                match find_key(&es, &key) {
                    Some(i) => {
                        proof {
                            lemma_key_index(entries_view(es@), key@);
                        }
                        let ghost before = es@;
                        let (_, block) = es.swap_remove(i);
                        proof {
                            lemma_entries_view(es@);
                            lemma_entries_view(before);
                            assert(entries_view(es@) =~= swap_remove_entry(entries_view(before), i as int));
                            assert(block@ == entries_view(before)[i as int].1);
                        }
                        match block {
                            YamlValue::Mapping(bs) => {
                                let ghost bv = entries_view(bs@);
                                proof {
                                    lemma_entries_view(bs@);
                                }
                                for entry in it: bs
                                    invariant
                                        bv == entries_view(it.seq()),
                                        bv.len() == it.seq().len(),
                                        forall|j: int| 0 <= j < it.seq().len() ==> #[trigger] bv[j] == (yaml_view(&it.seq()[j].0), yaml_view(&it.seq()[j].1)),
                                        Seq::new(accounts.len() as nat, |j: int| (accounts@[j].0@, accounts@[j].1@)) == text_keyed(bv.take(it.index() as int)),
                                {
                                    let ghost n = it.index();
                                    let ghost before_acc = Seq::new(accounts.len() as nat, |j: int| (accounts@[j].0@, accounts@[j].1@));
                                    assert(bv.take(n + 1).drop_last() =~= bv.take(n as int));
                                    assert(entry == it.seq()[n]);
                                    let (k, b) = entry;
                                    match k {
                                        YamlValue::String(name) => {
                                            let ghost nv = name@;
                                            let ghost bview = b@;
                                            accounts.push((name, b));
                                            assert(bv[n as int] == (Yaml::Text(nv), bview));
                                            assert(Seq::new(accounts.len() as nat, |j: int| (accounts@[j].0@, accounts@[j].1@)) =~= before_acc.push((nv, bview)));
                                        },
                                        _ => {
                                            assert(!(bv[n as int].0 is Text));
                                        },
                                    }
                                }
                                proof {
                                    assert(bv.take(bv.len() as int) =~= bv);
                                }
                            },
                            _ => {},
                        }
                    },
                    None => {},
                }
                YamlValue::Mapping(es)
            },
            other => other,
        };
        LayeredDocument { base, accounts }
    }

    /// The effective document for one account: its override block deep-merged
    /// over the base, or the base alone when `account` is `None` or has no block.
    pub fn merged_for(&self, account: Option<&str>) -> (r: YamlValue)
        ensures
            r@ == layered(self.base_view(), self.blocks_view(), account_text(account)),
    {
        match account {
            Some(id) => {
                let mut i: usize = 0;
                assert(self.blocks_view().skip(0) =~= self.blocks_view());
                while i < self.accounts.len()
                    invariant
                        i <= self.accounts.len(),
                        account == Some(id),
                        block_for(self.blocks_view(), id@) == block_for(self.blocks_view().skip(i as int), id@),
                    decreases self.accounts.len() - i,
                {
                    let ghost rest = self.blocks_view().skip(i as int);
                    assert(rest[0] == (self.accounts@[i as int].0@, self.accounts@[i as int].1@));
                    assert(rest.drop_first() =~= self.blocks_view().skip(i + 1));
                    if crate::text::str_equal(self.accounts[i].0.as_str(), id) {
                        assert(rest.len() > 0);
                        assert(block_for(rest, id@) == Some(rest[0].1));
                        let block = deep_clone(&self.accounts[i].1);
                        let base = deep_clone(&self.base);
                        return deep_merge(base, block);
                    }
                    i += 1;
                }
                assert(self.blocks_view().skip(i as int) =~= Seq::<(Seq<char>, Yaml)>::empty());
                deep_clone(&self.base)
            },
            None => deep_clone(&self.base),
        }
    }
}

/// The entries of a document's `accounts` mapping (none when it has no such
/// mapping).
pub open spec fn accounts_entries(v: Yaml) -> Seq<(Yaml, Yaml)> {
    match v {
        Yaml::Mapping(es) => {
            let i = key_index(es, accounts_key());
            if i >= 0 {
                match es[i].1 {
                    Yaml::Mapping(bs) => bs,
                    _ => Seq::empty(),
                }
            } else {
                Seq::empty()
            }
        },
        _ => Seq::empty(),
    }
}

/// The effective document of a parsed file for one account (or for none): the
/// account's override block merged over the base, else the base alone.
pub open spec fn document_for(v: Yaml, account: Option<Seq<char>>) -> Yaml {
    layered(split_base(v), split_blocks(v), account)
}

/// A base with override blocks, seen by one account (or by none): the account's
/// block merged over the base, else the base alone.
pub open spec fn layered(base: Yaml, blocks: Seq<(Seq<char>, Yaml)>, account: Option<Seq<char>>) -> Yaml {
    match account {
        Some(id) => match block_for(blocks, id) {
            Some(block) => merge(base, block),
            None => base,
        },
        None => base,
    }
}

/// The text of an optional account id.
pub open spec fn account_text(account: Option<&str>) -> Option<Seq<char>> {
    match account {
        Some(id) => Some(id@),
        None => None,
    }
}

proof fn lemma_text_keyed_absent(es: Seq<(Yaml, Yaml)>, id: Seq<char>)
    requires
        forall|j: int| 0 <= j < es.len() ==> #[trigger] es[j].0 != Yaml::Text(id),
    ensures
        forall|j: int| 0 <= j < text_keyed(es).len() ==> #[trigger] text_keyed(es)[j].0 != id,
    decreases es.len(),
{
    if es.len() > 0 {
        let init = es.drop_last();
        assert forall|j: int| 0 <= j < init.len() implies #[trigger] init[j].0 != Yaml::Text(id) by {
            assert(init[j] == es[j]);
        }
        lemma_text_keyed_absent(init, id);
        assert(es.last().0 != Yaml::Text(id));
        let rest = text_keyed(init);
        assert forall|j: int| 0 <= j < text_keyed(es).len() implies #[trigger] text_keyed(es)[j].0 != id by {
            match es.last().0 {
                Yaml::Text(k) => {
                    assert(text_keyed(es) == rest.push((k, es.last().1)));
                    if j < rest.len() {
                        assert(text_keyed(es)[j] == rest[j]);
                    }
                },
                _ => {
                    assert(text_keyed(es) == rest);
                },
            }
        }
    }
}

proof fn lemma_block_for_absent(blocks: Seq<(Seq<char>, Yaml)>, id: Seq<char>)
    requires
        forall|j: int| 0 <= j < blocks.len() ==> #[trigger] blocks[j].0 != id,
    ensures
        block_for(blocks, id) is None,
    decreases blocks.len(),
{
    if blocks.len() > 0 {
        assert(blocks[0].0 != id);
        assert forall|j: int| 0 <= j < blocks.drop_first().len() implies #[trigger] blocks.drop_first()[j].0 != id by {
            assert(blocks.drop_first()[j] == blocks[j + 1]);
        }
        lemma_block_for_absent(blocks.drop_first(), id);
    }
}

/// An account whose id the `accounts` mapping does not name has no override
/// block, and its effective document is the shared base: the same as asking
/// for no account at all.
pub proof fn law_unlisted_account_gets_the_base(v: Yaml, id: Seq<char>)
    requires
        forall|j: int| 0 <= j < accounts_entries(v).len() ==> #[trigger] accounts_entries(v)[j].0 != Yaml::Text(id),
    ensures
        block_for(split_blocks(v), id) is None,
        document_for(v, Some(id)) == document_for(v, None),
{
    lemma_text_keyed_absent(accounts_entries(v), id);
    assert(split_blocks(v) == text_keyed(accounts_entries(v)));
    lemma_block_for_absent(split_blocks(v), id);
}

/// The first position of a key is unchanged when the value stored there changes.
proof fn lemma_key_index_update(es: Seq<(Yaml, Yaml)>, key: Yaml, x: Yaml)
    requires
        key_index(es, key) >= 0,
    ensures
        key_index(es.update(key_index(es, key), (key, x)), key) == key_index(es, key),
{
    let i = key_index(es, key);
    let u = es.update(i, (key, x));
    lemma_key_index(es, key);
    lemma_key_index(u, key);
    let k = key_index(u, key);
    if k == -1 {
        assert(u[i].0 == key);
    } else if k < i {
        assert(u[k] == es[k]);
    } else if k > i {
        assert(u[i].0 == key);
    }
}

/// The shared base does not depend on the `accounts` block: a document whose
/// `accounts` entry holds anything else has the same base.
pub proof fn law_base_ignores_accounts_block(es: Seq<(Yaml, Yaml)>, x: Yaml)
    requires
        key_index(es, accounts_key()) >= 0,
    ensures
        split_base(Yaml::Mapping(es.update(key_index(es, accounts_key()), (accounts_key(), x))))
            == split_base(Yaml::Mapping(es)),
{
    let i = key_index(es, accounts_key());
    let u = es.update(i, (accounts_key(), x));
    lemma_key_index(es, accounts_key());
    lemma_key_index_update(es, accounts_key(), x);
    assert(swap_remove_entry(u, i) =~= swap_remove_entry(es, i));
}

/// In a mapping without repeated keys, the base has no `accounts` entry left:
/// it is its own base and holds no override block.
pub proof fn law_base_has_no_accounts(es: Seq<(Yaml, Yaml)>)
    requires
        keys_unique(es),
    ensures
        split_base(split_base(Yaml::Mapping(es))) == split_base(Yaml::Mapping(es)),
        split_blocks(split_base(Yaml::Mapping(es))).len() == 0,
{
    let i = key_index(es, accounts_key());
    lemma_key_index(es, accounts_key());
    if i >= 0 {
        let r = swap_remove_entry(es, i);
        let last = es.len() - 1;
        assert forall|j: int| 0 <= j < r.len() implies #[trigger] r[j].0 != accounts_key() by {
            let oj = if j == i { last } else { j };
            assert(r[j] == es[oj]);
            assert(es[i].0 == accounts_key());
        }
        lemma_key_index(r, accounts_key());
        assert(key_index(r, accounts_key()) == -1);
    }
}

} // verus!
