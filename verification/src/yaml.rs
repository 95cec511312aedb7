//! The library's model of a parsed YAML frontmatter block: values, mappings, lookups and
//! the equality that YAML values have.
use vstd::prelude::*;
use crate::text::str_eq;

verus! {

/// A YAML value as the frontmatter parser delivers it.
///
/// Integers are held exactly; a float is held by a canonical bit pattern (every NaN one
/// pattern, `-0.0` as `0.0`), so that two floats are equal exactly when their patterns are.
/// A tag is held without its leading `!`.
#[derive(Debug)]
pub enum YamlValue {
    Null,
    Bool(bool),
    Int(i128),
    Float(u64),
    Str(String),
    Sequence(Vec<YamlValue>),
    Mapping(Vec<YamlEntry>),
    Tagged(String, Box<YamlValue>),
}

/// One key/value pair of a YAML mapping.
#[derive(Debug)]
pub struct YamlEntry {
    pub key: YamlValue,
    pub value: YamlValue,
}

/// A YAML mapping (the frontmatter envelope), entries in document order.
#[derive(Debug)]
pub struct YamlMapping {
    pub entries: Vec<YamlEntry>,
}

/// The value with every tag removed.
pub open spec fn untagged(v: YamlValue) -> YamlValue
    decreases v,
{
    match v {
        YamlValue::Tagged(_, inner) => untagged(*inner),
        _ => v,
    }
}

/// The string a value holds, looking through tags.
pub open spec fn value_str(v: YamlValue) -> Option<Seq<char>> {
    match untagged(v) {
        YamlValue::Str(s) => Some(s@),
        _ => None,
    }
}

/// The items of a sequence value, looking through tags.
pub open spec fn value_seq(v: YamlValue) -> Option<Seq<YamlValue>> {
    match untagged(v) {
        YamlValue::Sequence(items) => Some(items@),
        _ => None,
    }
}

/// The key is the plain string `key` (a tagged key is a different key).
pub open spec fn is_key(k: YamlValue, key: Seq<char>) -> bool {
    match k {
        YamlValue::Str(s) => s@ == key,
        _ => false,
    }
}

/// The value stored under the string key `key`: the first entry whose key is that string.
pub open spec fn lookup(entries: Seq<YamlEntry>, key: Seq<char>) -> Option<YamlValue>
    decreases entries.len(),
{
    if entries.len() == 0 {
        None
    } else if is_key(entries[0].key, key) {
        Some(entries[0].value)
    } else {
        lookup(entries.drop_first(), key)
    }
}

impl YamlMapping {
    /// The value under the string key `key`.
    pub open spec fn get_spec(self, key: Seq<char>) -> Option<YamlValue> {
        lookup(self.entries@, key)
    }

    /// The string under `key`, if there is a string there.
    pub open spec fn str_field(self, key: Seq<char>) -> Option<Seq<char>> {
        match self.get_spec(key) {
            Some(v) => value_str(v),
            None => None,
        }
    }

    /// Looks up the value stored under the string key `key`.
    pub fn get(&self, key: &str) -> (r: Option<&YamlValue>)
        ensures
            r matches Some(v) ==> self.get_spec(key@) == Some(*v),
            r is None ==> self.get_spec(key@) is None,
    {
        let mut i: usize = 0;
        assert(self.entries@.skip(0) =~= self.entries@);
        while i < self.entries.len()
            invariant
                i <= self.entries@.len(),
                lookup(self.entries@.skip(i as int), key@) == lookup(self.entries@, key@),
            decreases self.entries@.len() - i,
        {
            assert(self.entries@.skip(i as int).drop_first() =~= self.entries@.skip(i + 1));
            if let YamlValue::Str(k) = &self.entries[i].key {
                if str_eq(k.as_str(), key) {
                    return Some(&self.entries[i].value);
                }
            }
            i = i + 1;
        }
        None
    }

    /// Whether the mapping has the string key `key`.
    pub fn contains_key(&self, key: &str) -> (b: bool)
        ensures
            b == self.get_spec(key@) is Some,
    {
        self.get(key).is_some()
    }

    /// The string stored under `key`, if the value there is a string (tags looked through).
    pub fn get_str(&self, key: &str) -> (r: Option<String>)
        ensures
            r matches Some(s) ==> self.str_field(key@) == Some(s@),
            r is None ==> self.str_field(key@) is None,
    {
        match self.get(key) {
            Some(v) => match v.as_str() {
                Some(s) => Some(s.clone()),
                None => None,
            },
            None => None,
        }
    }
}

impl YamlValue {
    /// The string this value holds, looking through tags.
    pub fn as_str(&self) -> (r: Option<&String>)
        ensures
            r matches Some(s) ==> value_str(*self) == Some(s@),
            r is None ==> value_str(*self) is None,
        decreases self,
    {
        match self {
            YamlValue::Str(s) => Some(s),
            YamlValue::Tagged(_, inner) => inner.as_str(),
            _ => None,
        }
    }

    /// The items of this value when it is a sequence, looking through tags.
    pub fn as_sequence(&self) -> (r: Option<&Vec<YamlValue>>)
        ensures
            r matches Some(items) ==> value_seq(*self) == Some(items@),
            r is None ==> value_seq(*self) is None,
        decreases self,
    {
        match self {
            YamlValue::Sequence(items) => Some(items),
            YamlValue::Tagged(_, inner) => inner.as_sequence(),
            _ => None,
        }
    }
}

/// Equality of YAML values: scalars by value, sequences item by item, tags by name and
/// content, and mappings regardless of entry order (both have as many entries, and every
/// entry of one has an equal entry in the other).
pub open spec fn yaml_eq(a: YamlValue, b: YamlValue) -> bool
    decreases a, 0int,
{
    match a {
        YamlValue::Null => b is Null,
        YamlValue::Bool(x) => b matches YamlValue::Bool(y) && x == y,
        YamlValue::Int(x) => b matches YamlValue::Int(y) && x == y,
        YamlValue::Float(x) => b matches YamlValue::Float(y) && x == y,
        YamlValue::Str(x) => b matches YamlValue::Str(y) && x@ == y@,
        YamlValue::Sequence(xs) => match b {
            YamlValue::Sequence(ys) => xs@.len() == ys@.len() && forall|i: int|
                0 <= i < xs@.len() ==> yaml_eq(#[trigger] xs@[i], ys@[i]),
            _ => false,
        },
        YamlValue::Mapping(xs) => match b {
            YamlValue::Mapping(ys) => {
                proof {
                    assert(decreases_to!(a => a->Mapping_0));
                    assert(decreases_to!(a->Mapping_0 => a->Mapping_0@));
                }
                xs@.len() == ys@.len() && entries_found_from(xs@, ys@, 0)
            },
            _ => false,
        },
        YamlValue::Tagged(t, x) => match b {
            YamlValue::Tagged(u, y) => t@ == u@ && yaml_eq(*x, *y),
            _ => false,
        },
    }
}

/// Every entry of `xs` from position `i` on has an equal entry in `ys`.
pub open spec fn entries_found_from(xs: Seq<YamlEntry>, ys: Seq<YamlEntry>, i: int) -> bool
    decreases xs, xs.len() - i,
{
    if 0 <= i < xs.len() {
        entry_found_from(xs[i], ys, 0) && entries_found_from(xs, ys, i + 1)
    } else {
        true
    }
}

/// `ys` has, at position `j` or later, an entry whose key and value equal those of `e`.
pub open spec fn entry_found_from(e: YamlEntry, ys: Seq<YamlEntry>, j: int) -> bool
    decreases e, ys.len() - j,
{
    if 0 <= j < ys.len() {
        (yaml_eq(e.key, ys[j].key) && yaml_eq(e.value, ys[j].value)) || entry_found_from(
            e,
            ys,
            j + 1,
        )
    } else {
        false
    }
}

proof fn lemma_entries_found_suffix(xs: Seq<YamlEntry>, ys: Seq<YamlEntry>, k: int, i: int)
    requires
        0 <= k <= i,
        entries_found_from(xs, ys, k),
    ensures
        entries_found_from(xs, ys, i),
    decreases i - k,
{
    if k < i && k < xs.len() {
        lemma_entries_found_suffix(xs, ys, k + 1, i);
    }
}

/// Every YAML value equals itself.
pub proof fn lemma_yaml_eq_reflexive(v: YamlValue)
    ensures
        yaml_eq(v, v),
    decreases v, 0int,
{
    match v {
        YamlValue::Sequence(xs) => {
            assert forall|i: int| 0 <= i < xs@.len() implies yaml_eq(#[trigger] xs@[i], xs@[i]) by {
                assert(decreases_to!(v => v->Sequence_0));
                assert(decreases_to!(v->Sequence_0 => v->Sequence_0@));
                assert(decreases_to!(v->Sequence_0@ => v->Sequence_0@[i]));
                lemma_yaml_eq_reflexive(xs@[i]);
            }
        },
        YamlValue::Mapping(xs) => {
            assert(decreases_to!(v => v->Mapping_0));
            assert(decreases_to!(v->Mapping_0 => v->Mapping_0@));
            lemma_entries_found_in_self(xs@, 0);
        },
        YamlValue::Tagged(_, x) => {
            lemma_yaml_eq_reflexive(*x);
        },
        _ => {},
    }
}

proof fn lemma_entries_found_in_self(xs: Seq<YamlEntry>, i: int)
    requires
        0 <= i,
    ensures
        entries_found_from(xs, xs, i),
    decreases xs, xs.len() - i,
{
    if i < xs.len() {
        assert(decreases_to!(xs => xs[i]));
        assert(decreases_to!(xs[i] => xs[i].key));
        assert(decreases_to!(xs[i] => xs[i].value));
        lemma_yaml_eq_reflexive(xs[i].key);
        lemma_yaml_eq_reflexive(xs[i].value);
        lemma_entry_found_at(xs[i], xs, 0, i);
        lemma_entries_found_in_self(xs, i + 1);
    }
}

proof fn lemma_entry_found_at(e: YamlEntry, ys: Seq<YamlEntry>, j: int, k: int)
    requires
        0 <= j <= k < ys.len(),
        yaml_eq(e.key, ys[k].key),
        yaml_eq(e.value, ys[k].value),
    ensures
        entry_found_from(e, ys, j),
    decreases k - j,
{
    if j < k {
        lemma_entry_found_at(e, ys, j + 1, k);
    }
}

/// Whether two YAML values are equal (see `yaml_eq`).
pub fn values_equal(a: &YamlValue, b: &YamlValue) -> (r: bool)
    ensures
        r == yaml_eq(*a, *b),
    decreases a,
{
    match (a, b) {
        (YamlValue::Null, YamlValue::Null) => true,
        (YamlValue::Bool(x), YamlValue::Bool(y)) => *x == *y,
        (YamlValue::Int(x), YamlValue::Int(y)) => *x == *y,
        (YamlValue::Float(x), YamlValue::Float(y)) => *x == *y,
        (YamlValue::Str(x), YamlValue::Str(y)) => str_eq(x.as_str(), y.as_str()),
        (YamlValue::Sequence(xs), YamlValue::Sequence(ys)) => {
            if xs.len() != ys.len() {
                return false;
            }
            let mut i: usize = 0;
            while i < xs.len()
                invariant
                    xs@.len() == ys@.len(),
                    i <= xs@.len(),
                    *a == YamlValue::Sequence(*xs),
                    *b == YamlValue::Sequence(*ys),
                    forall|k: int| 0 <= k < i ==> yaml_eq(#[trigger] xs@[k], ys@[k]),
                decreases xs@.len() - i,
            {
                assert(decreases_to!(*a => a->Sequence_0));
                assert(decreases_to!(a->Sequence_0 => a->Sequence_0@));
                assert(decreases_to!(a->Sequence_0@ => a->Sequence_0@[i as int]));
                if !values_equal(&xs[i], &ys[i]) {
                    return false;
                }
                i = i + 1;
            }
            true
        },
        (YamlValue::Mapping(xs), YamlValue::Mapping(ys)) => {
            if xs.len() != ys.len() {
                return false;
            }
            let mut i: usize = xs.len();
            // scan backwards so that each step extends a suffix that is already known
            while i > 0
                invariant
                    xs@.len() == ys@.len(),
                    i <= xs@.len(),
                    *a == YamlValue::Mapping(*xs),
                    *b == YamlValue::Mapping(*ys),
                    entries_found_from(xs@, ys@, i as int),
                decreases i,
            {
                i = i - 1;
                assert(decreases_to!(*a => a->Mapping_0));
                assert(decreases_to!(a->Mapping_0 => a->Mapping_0@));
                assert(decreases_to!(a->Mapping_0@ => a->Mapping_0@[i as int]));
                assert(decreases_to!(xs@[i as int] => xs@[i as int].key));
                assert(decreases_to!(xs@[i as int] => xs@[i as int].value));
                let mut j: usize = ys.len();
                let mut found = false;
                while j > 0
                    invariant
                        xs@.len() == ys@.len(),
                        i < xs@.len(),
                        j <= ys@.len(),
                        decreases_to!(*a => xs@[i as int].key),
                        decreases_to!(*a => xs@[i as int].value),
                        found == entry_found_from(xs@[i as int], ys@, j as int),
                    decreases j,
                {
                    j = j - 1;
                    let here = values_equal(&xs[i].key, &ys[j].key) && values_equal(
                        &xs[i].value,
                        &ys[j].value,
                    );
                    found = here || found;
                }
                if !found {
                    proof {
                        if entries_found_from(xs@, ys@, 0) {
                            lemma_entries_found_suffix(xs@, ys@, 0, i as int);
                        }
                    }
                    return false;
                }
            }
            true
        },
        (YamlValue::Tagged(t, x), YamlValue::Tagged(u, y)) => {
            assert(decreases_to!(*a => **x));
            str_eq(t.as_str(), u.as_str()) && values_equal(x, y)
        },
        _ => false,
    }
}

} // verus!
