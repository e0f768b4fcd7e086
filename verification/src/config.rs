//! The configuration of a node: a JSON value, and the settings that the
//! nodes read from it.
use vstd::prelude::*;
use vstd::pervasive::VecAdditionalExecFns;

verus! {

/// A JSON value. A number keeps its text, and its value where it is an
/// unsigned integer that fits in a `u64`. An object keeps its entries in a
/// list: a JSON object holds each key once (`unique_entry_keys`), which
/// `dict_merge` keeps, and a lookup reads the first entry of a key, so on a
/// list that names a key twice the later entries are never read.
#[derive(Debug)]
pub enum ConfigValue {
    Null,
    Bool(bool),
    Number(Option<u64>, String),
    Text(String),
    Array(Vec<ConfigValue>),
    Object(Vec<(String, ConfigValue)>),
}

/// The position of the first entry of `entries` whose key reads `key`.
pub open spec fn key_position(entries: Seq<(String, ConfigValue)>, key: Seq<char>) -> Option<nat>
    decreases entries.len(),
{
    if entries.len() == 0 {
        None
    } else if entries[0].0@ == key {
        Some(0)
    } else {
        match key_position(entries.drop_first(), key) {
            Some(i) => Some(i + 1),
            None => None,
        }
    }
}

/// `v[key]`: the value of the entry `key` of an object; `Null` where `v` is
/// not an object or has no such entry.
pub open spec fn config_entry(v: ConfigValue, key: Seq<char>) -> ConfigValue {
    match v {
        ConfigValue::Object(entries) => match key_position(entries@, key) {
            Some(i) => entries@[i as int].1,
            None => ConfigValue::Null,
        },
        _ => ConfigValue::Null,
    }
}

/// `v.as_u64()`.
pub open spec fn spec_as_u64(v: ConfigValue) -> Option<u64> {
    match v {
        ConfigValue::Number(n, _) => n,
        _ => None,
    }
}

/// `v.as_bool()`.
pub open spec fn spec_as_bool(v: ConfigValue) -> Option<bool> {
    match v {
        ConfigValue::Bool(b) => Some(b),
        _ => None,
    }
}

/// `entries` with `key` set to `value`: the first entry of that key is
/// replaced, or a new entry is added at the end.
pub open spec fn insert_entry(entries: Seq<(String, ConfigValue)>, key: String, value: ConfigValue) -> Seq<
    (String, ConfigValue),
> {
    match key_position(entries, key@) {
        Some(i) => entries.update(i as int, (key, value)),
        None => entries.push((key, value)),
    }
}

/// `entries` with each of `fields`, in order, set to its text.
pub open spec fn merge_entries(entries: Seq<(String, ConfigValue)>, fields: Seq<(String, String)>) -> Seq<
    (String, ConfigValue),
>
    decreases fields.len(),
{
    if fields.len() == 0 {
        entries
    } else {
        insert_entry(
            merge_entries(entries, fields.drop_last()),
            fields.last().0,
            ConfigValue::Text(fields.last().1),
        )
    }
}

/// The unsigned integer setting `key`, or `default` without a configuration.
pub open spec fn setting_u64(conf: Option<ConfigValue>, key: Seq<char>, default: u64) -> u64 {
    match conf {
        Some(c) => spec_as_u64(config_entry(c, key))->0,
        None => default,
    }
}

/// The boolean setting `key`, or `default` without a configuration.
pub open spec fn setting_bool(conf: Option<ConfigValue>, key: Seq<char>, default: bool) -> bool {
    match conf {
        Some(c) => spec_as_bool(config_entry(c, key))->0,
        None => default,
    }
}

/// A configuration, where there is one, holds the setting `key` as an
/// unsigned integer.
pub open spec fn has_u64_setting(conf: Option<ConfigValue>, key: Seq<char>) -> bool {
    conf matches Some(c) ==> spec_as_u64(config_entry(c, key)) is Some
}

/// A configuration, where there is one, holds the setting `key` as a
/// boolean.
pub open spec fn has_bool_setting(conf: Option<ConfigValue>, key: Seq<char>) -> bool {
    conf matches Some(c) ==> spec_as_bool(config_entry(c, key)) is Some
}

/// A boolean setting reads the boolean that the configuration holds under
/// its key, whatever the default.
pub proof fn law_bool_setting_reads_the_configured_boolean(c: ConfigValue, key: Seq<char>, b: bool, default: bool)
    requires
        config_entry(c, key) == ConfigValue::Bool(b),
    ensures
        setting_bool(Some(c), key, default) == b,
{
}

/// An unsigned integer setting reads the number that the configuration holds
/// under its key, whatever the default.
pub proof fn law_u64_setting_reads_the_configured_number(
    c: ConfigValue,
    key: Seq<char>,
    n: u64,
    text: String,
    default: u64,
)
    requires
        config_entry(c, key) == ConfigValue::Number(Some(n), text),
    ensures
        setting_u64(Some(c), key, default) == n,
{
}

/// Without a configuration every setting reads its default.
pub proof fn law_settings_default_without_configuration(key: Seq<char>, n: u64, b: bool)
    ensures
        setting_u64(None, key, n) == n,
        setting_bool(None, key, b) == b,
        has_u64_setting(None, key),
        has_bool_setting(None, key),
{
}

proof fn lemma_key_position_bounds(entries: Seq<(String, ConfigValue)>, key: Seq<char>)
    ensures
        match key_position(entries, key) {
            Some(i) => i < entries.len() && entries[i as int].0@ == key && forall|j: int|
                0 <= j < i ==> entries[j].0@ != key,
            None => forall|j: int| 0 <= j < entries.len() ==> entries[j].0@ != key,
        },
    decreases entries.len(),
{
    if entries.len() > 0 {
        lemma_key_position_bounds(entries.drop_first(), key);
        if entries[0].0@ != key {
            match key_position(entries.drop_first(), key) {
                Some(i) => {
                    assert forall|j: int| 0 <= j < i + 1 implies entries[j].0@ != key by {
                        if j > 0 {
                            assert(entries[j] == entries.drop_first()[j - 1]);
                        }
                    }
                },
                None => {
                    assert forall|j: int| 0 <= j < entries.len() implies entries[j].0@ != key by {
                        if j > 0 {
                            assert(entries[j] == entries.drop_first()[j - 1]);
                        }
                    }
                },
            }
        }
    }
}

/// The position of the first entry whose key reads `key`.
fn find_key(entries: &Vec<(String, ConfigValue)>, key: &String) -> (res: Option<usize>)
    ensures
        match res {
            Some(i) => i < entries@.len() && key_position(entries@, key@) == Some(i as nat),
            None => key_position(entries@, key@) is None,
        },
{
    proof {
        lemma_key_position_bounds(entries@, key@);
    }
    let mut i: usize = 0;
    while i < entries.len()
        invariant
            i <= entries@.len(),
            forall|j: int| 0 <= j < i ==> entries@[j].0@ != key@,
            match key_position(entries@, key@) {
                Some(p) => p < entries@.len() && entries@[p as int].0@ == key@ && forall|j: int|
                    0 <= j < p ==> entries@[j].0@ != key@,
                None => forall|j: int| 0 <= j < entries@.len() ==> entries@[j].0@ != key@,
            },
        decreases entries@.len() - i,
    {
        if entries[i].0 == *key {
            return Some(i);
        }
        i = i + 1;
    }
    None
}

/// Whether a configuration, where there is one, holds the setting `key` as an
/// unsigned integer.
pub fn has_u64(conf: &Option<ConfigValue>, key: &str) -> (b: bool)
    ensures
        b == has_u64_setting(*conf, key@),
{
    match conf {
        Some(ConfigValue::Object(entries)) => {
            let k = key.to_owned();
            match find_key(entries, &k) {
                Some(i) => match &entries[i].1 {
                    ConfigValue::Number(Some(_), _) => true,
                    _ => false,
                },
                None => false,
            }
        },
        Some(_) => false,
        None => true,
    }
}

/// Whether a configuration, where there is one, holds the setting `key` as a
/// boolean.
pub fn has_bool(conf: &Option<ConfigValue>, key: &str) -> (b: bool)
    ensures
        b == has_bool_setting(*conf, key@),
{
    match conf {
        Some(ConfigValue::Object(entries)) => {
            let k = key.to_owned();
            match find_key(entries, &k) {
                Some(i) => match &entries[i].1 {
                    ConfigValue::Bool(_) => true,
                    _ => false,
                },
                None => false,
            }
        },
        Some(_) => false,
        None => true,
    }
}

/// Whether the setting `key` of a configuration is a list of texts.
pub fn has_text_list(conf: &ConfigValue, key: &str) -> (b: bool)
    ensures
        b == (config_entry(*conf, key@) matches ConfigValue::Array(items) && forall|i: int|
            0 <= i < items@.len() ==> #[trigger] items@[i] is Text),
{
    match conf {
        ConfigValue::Object(entries) => {
            let k = key.to_owned();
            match find_key(entries, &k) {
                Some(p) => match &entries[p].1 {
                    ConfigValue::Array(items) => {
                        let mut i: usize = 0;
                        assert(config_entry(*conf, key@) == ConfigValue::Array(*items));
                        while i < items.len()
                            invariant
                                i <= items@.len(),
                                config_entry(*conf, key@) == ConfigValue::Array(*items),
                                forall|j: int| 0 <= j < i ==> #[trigger] items@[j] is Text,
                            decreases items@.len() - i,
                        {
                            match &items[i] {
                                ConfigValue::Text(_) => {},
                                _ => {
                                    assert(!(items@[i as int] is Text));
                                    return false;
                                },
                            }
                            i = i + 1;
                        }
                        true
                    },
                    _ => false,
                },
                None => false,
            }
        },
        _ => false,
    }
}

/// Reads the unsigned integer setting `key` of a configuration, or `default`
/// where the node has no configuration.
pub fn u64_setting(conf: &Option<ConfigValue>, key: &str, default: u64) -> (v: u64)
    requires
        has_u64_setting(*conf, key@),
    ensures
        v == setting_u64(*conf, key@, default),
{
    match conf {
        Some(ConfigValue::Object(entries)) => {
            let k = key.to_owned();
            match find_key(entries, &k) {
                Some(i) => match &entries[i].1 {
                    ConfigValue::Number(Some(n), _) => *n,
                    _ => default,
                },
                None => default,
            }
        },
        _ => default,
    }
}

/// Reads the boolean setting `key` of a configuration, or `default` where the
/// node has no configuration.
pub fn bool_setting(conf: &Option<ConfigValue>, key: &str, default: bool) -> (v: bool)
    requires
        has_bool_setting(*conf, key@),
    ensures
        v == setting_bool(*conf, key@, default),
{
    match conf {
        Some(ConfigValue::Object(entries)) => {
            let k = key.to_owned();
            match find_key(entries, &k) {
                Some(i) => match &entries[i].1 {
                    ConfigValue::Bool(b) => *b,
                    _ => default,
                },
                None => default,
            }
        },
        _ => default,
    }
}

/// Sets each of `fields`, in order, to its text in the object `v`; a value
/// that is not an object is returned as it is.
pub fn dict_merge(v: ConfigValue, fields: &Vec<(String, String)>) -> (r: ConfigValue)
    ensures
        match v {
            ConfigValue::Object(m) => r matches ConfigValue::Object(m2) && m2@ == merge_entries(
                m@,
                fields@,
            ),
            _ => r == v,
        },
{
    match v {
        ConfigValue::Object(m) => {
            let ghost m0 = m@;
            let mut m = m;
            let mut j: usize = 0;
            assert(fields@.take(0) =~= Seq::<(String, String)>::empty());
            while j < fields.len()
                invariant
                    j <= fields@.len(),
                    m@ == merge_entries(m0, fields@.take(j as int)),
                decreases fields@.len() - j,
            {
                assert(fields@.take(j + 1).drop_last() =~= fields@.take(j as int));
                let key = fields[j].0.clone();
                let text = fields[j].1.clone();
                match find_key(&m, &key) {
                    Some(i) => {
                        m.set(i, (key, ConfigValue::Text(text)));
                    },
                    None => {
                        m.push((key, ConfigValue::Text(text)));
                    },
                }
                j = j + 1;
            }
            assert(fields@.take(j as int) =~= fields@);
            ConfigValue::Object(m)
        },
        other => other,
    }
}

/// The value of the first entry of `entries` whose key reads `key`.
pub open spec fn entry_value(entries: Seq<(String, ConfigValue)>, key: Seq<char>) -> Option<ConfigValue> {
    match key_position(entries, key) {
        Some(i) => Some(entries[i as int].1),
        None => None,
    }
}

/// The text of the last of `fields` whose key reads `key`.
pub open spec fn last_field(fields: Seq<(String, String)>, key: Seq<char>) -> Option<String>
    decreases fields.len(),
{
    if fields.len() == 0 {
        None
    } else if fields.last().0@ == key {
        Some(fields.last().1)
    } else {
        last_field(fields.drop_last(), key)
    }
}

proof fn lemma_key_position_first(entries: Seq<(String, ConfigValue)>, key: Seq<char>, i: int)
    requires
        0 <= i < entries.len(),
        entries[i].0@ == key,
        forall|j: int| 0 <= j < i ==> entries[j].0@ != key,
    ensures
        key_position(entries, key) == Some(i as nat),
    decreases i,
{
    if i > 0 {
        let rest = entries.drop_first();
        assert forall|j: int| 0 <= j < i - 1 implies rest[j].0@ != key by {
            assert(rest[j] == entries[j + 1]);
        }
        assert(entries[0].0@ != key);
        lemma_key_position_first(rest, key, i - 1);
    }
}

proof fn lemma_key_position_absent(entries: Seq<(String, ConfigValue)>, key: Seq<char>)
    requires
        forall|j: int| 0 <= j < entries.len() ==> entries[j].0@ != key,
    ensures
        key_position(entries, key) is None,
    decreases entries.len(),
{
    if entries.len() > 0 {
        let rest = entries.drop_first();
        assert forall|j: int| 0 <= j < rest.len() implies rest[j].0@ != key by {
            assert(rest[j] == entries[j + 1]);
        }
        assert(entries[0].0@ != key);
        lemma_key_position_absent(rest, key);
    }
}

proof fn lemma_insert_entry_value(
    entries: Seq<(String, ConfigValue)>,
    k: String,
    v: ConfigValue,
    key: Seq<char>,
)
    ensures
        entry_value(insert_entry(entries, k, v), key) == (if k@ == key {
            Some(v)
        } else {
            entry_value(entries, key)
        }),
        first_entry(insert_entry(entries, k, v), key) == (if k@ == key {
            Some((k, v))
        } else {
            first_entry(entries, key)
        }),
{
    let e2 = insert_entry(entries, k, v);
    lemma_key_position_bounds(entries, k@);
    lemma_key_position_bounds(entries, key);
    match key_position(entries, k@) {
        Some(i) => {
            let i = i as int;
            assert(e2 == entries.update(i, (k, v)));
            if k@ == key {
                lemma_key_position_first(e2, key, i);
            } else {
                match key_position(entries, key) {
                    Some(p) => {
                        assert(p as int != i);
                        assert forall|j: int| 0 <= j < p implies e2[j].0@ != key by {
                            if j != i {
                                assert(e2[j] == entries[j]);
                            }
                        }
                        lemma_key_position_first(e2, key, p as int);
                    },
                    None => {
                        assert forall|j: int| 0 <= j < e2.len() implies e2[j].0@ != key by {
                            if j != i {
                                assert(e2[j] == entries[j]);
                            }
                        }
                        lemma_key_position_absent(e2, key);
                    },
                }
            }
        },
        None => {
            assert(e2 == entries.push((k, v)));
            if k@ == key {
                assert forall|j: int| 0 <= j < entries.len() implies e2[j].0@ != key by {
                    assert(e2[j] == entries[j]);
                }
                lemma_key_position_first(e2, key, entries.len() as int);
            } else {
                match key_position(entries, key) {
                    Some(p) => {
                        assert forall|j: int| 0 <= j < p implies e2[j].0@ != key by {
                            assert(e2[j] == entries[j]);
                        }
                        assert(e2[p as int] == entries[p as int]);
                        lemma_key_position_first(e2, key, p as int);
                    },
                    None => {
                        assert forall|j: int| 0 <= j < e2.len() implies e2[j].0@ != key by {
                            if j < entries.len() {
                                assert(e2[j] == entries[j]);
                            }
                        }
                        lemma_key_position_absent(e2, key);
                    },
                }
            }
        },
    }
}

/// Merging sets the fields and leaves the rest alone: after `dict_merge`, a
/// key reads the text of the last field of that key, and a key that no field
/// names reads what it read before.
pub proof fn law_merge_sets_fields(
    entries: Seq<(String, ConfigValue)>,
    fields: Seq<(String, String)>,
    key: Seq<char>,
)
    ensures
        entry_value(merge_entries(entries, fields), key) == (match last_field(fields, key) {
            Some(t) => Some(ConfigValue::Text(t)),
            None => entry_value(entries, key),
        }),
    decreases fields.len(),
{
    if fields.len() > 0 {
        law_merge_sets_fields(entries, fields.drop_last(), key);
        lemma_insert_entry_value(
            merge_entries(entries, fields.drop_last()),
            fields.last().0,
            ConfigValue::Text(fields.last().1),
            key,
        );
    }
}

/// The first entry of `entries` whose key reads `key`.
pub open spec fn first_entry(entries: Seq<(String, ConfigValue)>, key: Seq<char>) -> Option<(String, ConfigValue)> {
    match key_position(entries, key) {
        Some(i) => Some(entries[i as int]),
        None => None,
    }
}

/// The last of `fields` whose key reads `key`.
pub open spec fn last_pair(fields: Seq<(String, String)>, key: Seq<char>) -> Option<(String, String)>
    decreases fields.len(),
{
    if fields.len() == 0 {
        None
    } else if fields.last().0@ == key {
        Some(fields.last())
    } else {
        last_pair(fields.drop_last(), key)
    }
}

proof fn lemma_last_pair_some(fields: Seq<(String, String)>, j: int)
    requires
        0 <= j < fields.len(),
    ensures
        last_pair(fields, fields[j].0@) is Some,
    decreases fields.len(),
{
    if j < fields.len() - 1 && fields.last().0@ != fields[j].0@ {
        assert(fields.drop_last()[j] == fields[j]);
        lemma_last_pair_some(fields.drop_last(), j);
    }
}

proof fn lemma_last_pair_key(fields: Seq<(String, String)>, key: Seq<char>)
    ensures
        last_pair(fields, key) matches Some((k, _)) ==> k@ == key,
    decreases fields.len(),
{
    if fields.len() > 0 && fields.last().0@ != key {
        lemma_last_pair_key(fields.drop_last(), key);
    }
}

proof fn lemma_merge_first_entry(
    entries: Seq<(String, ConfigValue)>,
    fields: Seq<(String, String)>,
    key: Seq<char>,
)
    ensures
        first_entry(merge_entries(entries, fields), key) == (match last_pair(fields, key) {
            Some((k, t)) => Some((k, ConfigValue::Text(t))),
            None => first_entry(entries, key),
        }),
    decreases fields.len(),
{
    if fields.len() > 0 {
        lemma_merge_first_entry(entries, fields.drop_last(), key);
        lemma_insert_entry_value(
            merge_entries(entries, fields.drop_last()),
            fields.last().0,
            ConfigValue::Text(fields.last().1),
            key,
        );
    }
}

proof fn lemma_key_position_same_keys(
    a: Seq<(String, ConfigValue)>,
    b: Seq<(String, ConfigValue)>,
    key: Seq<char>,
)
    requires
        a.len() == b.len(),
        forall|i: int| 0 <= i < a.len() ==> #[trigger] a[i].0@ == b[i].0@,
    ensures
        key_position(a, key) == key_position(b, key),
    decreases a.len(),
{
    if a.len() > 0 {
        assert(a[0].0@ == b[0].0@);
        assert forall|i: int| 0 <= i < a.drop_first().len() implies #[trigger] a.drop_first()[i].0@
            == b.drop_first()[i].0@ by {
            assert(a[i + 1].0@ == b[i + 1].0@);
        }
        lemma_key_position_same_keys(a.drop_first(), b.drop_first(), key);
    }
}

/// What merging does at position `i` of `entries` when every field names a
/// key that `entries` holds: the first entry of a key that a field names
/// becomes the last such field, every other entry stays.
pub open spec fn merged_at(entries: Seq<(String, ConfigValue)>, fields: Seq<(String, String)>, i: int) -> (
    String,
    ConfigValue,
) {
    let key = entries[i].0@;
    match last_pair(fields, key) {
        Some((k, t)) => if key_position(entries, key) == Some(i as nat) {
            (k, ConfigValue::Text(t))
        } else {
            entries[i]
        },
        None => entries[i],
    }
}

proof fn lemma_merge_present_keys(entries: Seq<(String, ConfigValue)>, fields: Seq<(String, String)>)
    requires
        forall|j: int| 0 <= j < fields.len() ==> key_position(entries, #[trigger] fields[j].0@) is Some,
    ensures
        merge_entries(entries, fields).len() == entries.len(),
        forall|i: int| 0 <= i < entries.len() ==> #[trigger] merge_entries(entries, fields)[i]
            == merged_at(entries, fields, i),
    decreases fields.len(),
{
    if fields.len() > 0 {
        let f1 = fields.drop_last();
        assert forall|j: int| 0 <= j < f1.len() implies key_position(entries, #[trigger] f1[j].0@) is Some by {
            assert(f1[j] == fields[j]);
        }
        lemma_merge_present_keys(entries, f1);
        let m1 = merge_entries(entries, f1);
        let (k, t) = fields.last();
        assert forall|i: int| 0 <= i < m1.len() implies #[trigger] m1[i].0@ == entries[i].0@ by {
            assert(m1[i] == merged_at(entries, f1, i));
            lemma_last_pair_key(f1, entries[i].0@);
        }
        lemma_key_position_same_keys(m1, entries, k@);
        assert(key_position(entries, fields[fields.len() - 1].0@) is Some);
        lemma_key_position_bounds(entries, k@);
        let p = key_position(entries, k@)->0 as int;
        let m = merge_entries(entries, fields);
        assert(m == m1.update(p, (k, ConfigValue::Text(t))));
        assert forall|i: int| 0 <= i < entries.len() implies #[trigger] m[i] == merged_at(entries, fields, i) by {
            assert(m1[i] == merged_at(entries, f1, i));
            if i == p {
                assert(last_pair(fields, entries[i].0@) == Some((k, t)));
            } else if entries[i].0@ == k@ {
                assert(key_position(entries, entries[i].0@) != Some(i as nat));
            } else {
                assert(last_pair(fields, entries[i].0@) == last_pair(f1, entries[i].0@));
            }
        }
    }
}

/// Merging is idempotent: merging the same fields a second time changes
/// nothing.
pub proof fn law_merge_is_idempotent(entries: Seq<(String, ConfigValue)>, fields: Seq<(String, String)>)
    ensures
        merge_entries(merge_entries(entries, fields), fields) == merge_entries(entries, fields),
{
    let m1 = merge_entries(entries, fields);
    assert forall|j: int| 0 <= j < fields.len() implies key_position(m1, #[trigger] fields[j].0@) is Some by {
        lemma_last_pair_some(fields, j);
        lemma_merge_first_entry(entries, fields, fields[j].0@);
    }
    lemma_merge_present_keys(m1, fields);
    let m2 = merge_entries(m1, fields);
    assert forall|i: int| 0 <= i < m1.len() implies m2[i] == m1[i] by {
        assert(m2[i] == merged_at(m1, fields, i));
        let key = m1[i].0@;
        if key_position(m1, key) == Some(i as nat) && last_pair(fields, key) is Some {
            lemma_merge_first_entry(entries, fields, key);
        }
    }
    assert(m2 =~= m1);
}

/// No key occurs twice among `entries`, as in a JSON object.
pub open spec fn unique_entry_keys(entries: Seq<(String, ConfigValue)>) -> bool {
    forall|i: int, j: int|
        0 <= i < entries.len() && 0 <= j < entries.len() && i != j ==> entries[i].0@ != entries[j].0@
}

proof fn lemma_insert_entry_unique(entries: Seq<(String, ConfigValue)>, k: String, v: ConfigValue)
    requires
        unique_entry_keys(entries),
    ensures
        unique_entry_keys(insert_entry(entries, k, v)),
{
    lemma_key_position_bounds(entries, k@);
    let e2 = insert_entry(entries, k, v);
    match key_position(entries, k@) {
        Some(p) => {
            assert forall|i: int, j: int|
                0 <= i < e2.len() && 0 <= j < e2.len() && i != j implies e2[i].0@ != e2[j].0@ by {
                if i != p && j != p {
                    assert(e2[i] == entries[i] && e2[j] == entries[j]);
                } else if i == p {
                    assert(e2[j] == entries[j]);
                } else {
                    assert(e2[i] == entries[i]);
                }
            }
        },
        None => {
            assert forall|i: int, j: int|
                0 <= i < e2.len() && 0 <= j < e2.len() && i != j implies e2[i].0@ != e2[j].0@ by {
                if i < entries.len() {
                    assert(e2[i] == entries[i]);
                }
                if j < entries.len() {
                    assert(e2[j] == entries[j]);
                }
            }
        },
    }
}

/// Merging fields into an object whose keys are distinct leaves its keys
/// distinct: `dict_merge` builds a value that a JSON object can hold.
pub proof fn law_merge_keeps_keys_unique(entries: Seq<(String, ConfigValue)>, fields: Seq<(String, String)>)
    requires
        unique_entry_keys(entries),
    ensures
        unique_entry_keys(merge_entries(entries, fields)),
    decreases fields.len(),
{
    if fields.len() > 0 {
        law_merge_keeps_keys_unique(entries, fields.drop_last());
        lemma_insert_entry_unique(
            merge_entries(entries, fields.drop_last()),
            fields.last().0,
            ConfigValue::Text(fields.last().1),
        );
    }
}

/// Reads the setting `key` of a configuration as a list of texts.
pub fn text_list_setting(conf: &ConfigValue, key: &str) -> (v: Vec<String>)
    requires
        config_entry(*conf, key@) matches ConfigValue::Array(items) && forall|i: int|
            0 <= i < items@.len() ==> #[trigger] items@[i] is Text,
    ensures
        config_entry(*conf, key@) matches ConfigValue::Array(items) && v@.len() == items@.len()
            && forall|i: int| 0 <= i < v@.len() ==> items@[i] == ConfigValue::Text(#[trigger] v@[i]),
{
    let mut out: Vec<String> = Vec::new();
    match conf {
        ConfigValue::Object(entries) => {
            let k = key.to_owned();
            match find_key(entries, &k) {
                Some(p) => match &entries[p].1 {
                    ConfigValue::Array(items) => {
                        let mut i: usize = 0;
                        while i < items.len()
                            invariant
                                i <= items@.len(),
                                out@.len() == i,
                                forall|j: int| 0 <= j < items@.len() ==> #[trigger] items@[j] is Text,
                                forall|j: int| 0 <= j < i ==> items@[j] == ConfigValue::Text(#[trigger] out@[j]),
                            decreases items@.len() - i,
                        {
                            match &items[i] {
                                ConfigValue::Text(s) => {
                                    out.push(s.clone());
                                },
                                _ => {},
                            }
                            i = i + 1;
                        }
                    },
                    _ => {},
                },
                None => {},
            }
        },
        _ => {},
    }
    out
}

} // verus!
