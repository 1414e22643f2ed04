use vstd::prelude::*;
use vstd::string::StrSliceExecFns;
use vstd::string::StringExecFns;

use crate::strutil;

verus! {

/// A validated configuration key: a string free of the reserved
/// separator characters `.`, `,`, `:` and space.
#[derive(Debug)]
pub struct Key(pub String);

impl View for Key {
    type V = Seq<char>;

    open spec fn view(&self) -> Seq<char> {
        self.0@
    }
}

impl DeepView for Key {
    type V = Seq<char>;

    open spec fn deep_view(&self) -> Seq<char> {
        self.0@
    }
}

/// The reserved character that makes `s` invalid as a key, if any;
/// reserved characters are reported in a fixed order.
pub open spec fn key_offender(s: Seq<char>) -> Option<char> {
    if s.contains('.') {
        Some('.')
    } else if s.contains(',') {
        Some(',')
    } else if s.contains(':') {
        Some(':')
    } else if s.contains(' ') {
        Some(' ')
    } else {
        None
    }
}

/// Whether `s` is acceptable as a key.
pub open spec fn key_ok(s: Seq<char>) -> bool {
    key_offender(s) is None
}

/// Rejection of a raw key string, carrying the reserved character that
/// was found in it.
#[derive(Debug, Clone, Copy, PartialEq, Eq, Structural)]
pub struct KeyError {
    pub ch: char,
}

/// The description of a key rejection, as it is printed; only the four
/// reserved characters ever occur in a `KeyError`.
pub open spec fn key_error_message(ch: char) -> Seq<char> {
    if ch == '.' {
        "Config keys cannot contain '.'"@
    } else if ch == ',' {
        "Config keys cannot contain ','"@
    } else if ch == ':' {
        "Config keys cannot contain ':'"@
    } else if ch == ' ' {
        "Config keys cannot contain ' '"@
    } else {
        "Config keys cannot contain a reserved character"@
    }
}

impl KeyError {
    /// A human-readable description of the rejection.
    pub fn message(&self) -> (m: String)
        ensures
            m@ == key_error_message(self.ch),
    {
        let lit: &str = if self.ch == '.' {
            "Config keys cannot contain '.'"
        } else if self.ch == ',' {
            "Config keys cannot contain ','"
        } else if self.ch == ':' {
            "Config keys cannot contain ':'"
        } else if self.ch == ' ' {
            "Config keys cannot contain ' '"
        } else {
            "Config keys cannot contain a reserved character"
        };
        String::from_str(lit)
    }
}

impl Key {
    /// Validates `raw` as a key: fails on the first reserved character,
    /// in the fixed reporting order.
    pub fn parse(raw: String) -> (r: Result<Key, KeyError>)
        ensures
            match r {
                Ok(k) => key_ok(raw@) && k@ == raw@,
                Err(e) => key_offender(raw@) == Some(e.ch),
            },
    {
        if strutil::contains_char(raw.as_str(), '.') {
            Err(KeyError { ch: '.' })
        } else if strutil::contains_char(raw.as_str(), ',') {
            Err(KeyError { ch: ',' })
        } else if strutil::contains_char(raw.as_str(), ':') {
            Err(KeyError { ch: ':' })
        } else if strutil::contains_char(raw.as_str(), ' ') {
            Err(KeyError { ch: ' ' })
        } else {
            Ok(Key(raw))
        }
    }

    /// The key's text.
    pub fn as_str(&self) -> (s: &str)
        ensures
            s@ == self@,
    {
        self.0.as_str()
    }
}

/// One configuration entry: either a plain string variable or a nested
/// table of entries.
#[derive(Debug)]
pub enum Value {
    Str(String),
    Table(Table),
}

/// One nesting level of the configuration document: key/value entries
/// in document order.
#[derive(Debug)]
pub struct Table {
    pub entries: Vec<(Key, Value)>,
}

impl Value {
    /// The held text, when this is a string value.
    pub fn as_string(&self) -> (r: Option<&str>)
        ensures
            match r {
                Some(s) => *self matches Value::Str(v) && v@ == s@,
                None => *self is Table,
            },
    {
        match self {
            Value::Str(v) => Some(v.as_str()),
            Value::Table(_) => None,
        }
    }

    /// The held table, when this is a nested table.
    pub fn as_table(&self) -> (r: Option<&Table>)
        ensures
            match r {
                Some(t) => *self matches Value::Table(inner) && inner == *t,
                None => *self is Str,
            },
    {
        match self {
            Value::Table(t) => Some(t),
            Value::Str(_) => None,
        }
    }
}

/// No two entries share a key.
pub open spec fn entry_keys_unique(s: Seq<(Key, Value)>) -> bool {
    forall|i: int, j: int| 0 <= i < j < s.len() ==> s[i].0@ != s[j].0@
}

/// Every entry's key is free of reserved characters.
pub open spec fn entry_keys_ok(s: Seq<(Key, Value)>) -> bool {
    forall|i: int| 0 <= i < s.len() ==> key_ok(#[trigger] s[i].0@)
}

/// A string value is always well formed; a nested table must be well
/// formed as a table.
pub open spec fn value_wf(v: Value) -> bool
    decreases v,
{
    match v {
        Value::Str(_) => true,
        Value::Table(t) => t.wf(),
    }
}

/// Every entry's value is well formed.
pub open spec fn entries_values_wf(s: Seq<(Key, Value)>) -> bool
    decreases s,
{
    if s.len() == 0 {
        true
    } else {
        entries_values_wf(s.drop_last()) && value_wf(s.last().1)
    }
}

pub proof fn lemma_entries_values_wf_index(s: Seq<(Key, Value)>, i: int)
    requires
        entries_values_wf(s),
        0 <= i < s.len(),
    ensures
        value_wf(s[i].1),
    decreases s.len(),
{
    if i == s.len() - 1 {
    } else {
        lemma_entries_values_wf_index(s.drop_last(), i);
    }
}

/// The value stored under key `k` at this level, if any.
pub open spec fn lookup_entries(s: Seq<(Key, Value)>, k: Seq<char>) -> Option<Value>
    decreases s.len(),
{
    if s.len() == 0 {
        None
    } else if s[0].0@ == k {
        Some(s[0].1)
    } else {
        lookup_entries(s.drop_first(), k)
    }
}

/// The entries of `s` with the key's value replaced if the key is
/// already present (keeping its place in the order), or with the new
/// pair appended otherwise.
pub open spec fn upsert_entries(s: Seq<(Key, Value)>, k: Key, v: Value) -> Seq<(Key, Value)>
    decreases s.len(),
{
    if s.len() == 0 {
        seq![(k, v)]
    } else if s[0].0@ == k@ {
        seq![(k, v)] + s.drop_first()
    } else {
        seq![s[0]] + upsert_entries(s.drop_first(), k, v)
    }
}

impl Table {
    /// Well-formedness: keys are valid and unique at this level, and
    /// nested tables are well formed in turn.
    pub open spec fn wf(self) -> bool
        decreases self,
    {
        entry_keys_unique(self.entries@) && entry_keys_ok(self.entries@) && entries_values_wf(
            self.entries@,
        )
    }

    /// The value stored under key `k` at this level, if any.
    pub open spec fn lookup(self, k: Seq<char>) -> Option<Value> {
        lookup_entries(self.entries@, k)
    }

    /// An empty table.
    pub fn new() -> (t: Table)
        ensures
            t.entries@ == Seq::<(Key, Value)>::empty(),
    {
        Table { entries: Vec::new() }
    }

    /// Inserts `value` under `key`: an existing entry keeps its place in
    /// the order and has its value replaced; otherwise the pair is
    /// appended, last in order.
    pub fn insert(&mut self, key: Key, value: Value)
        ensures
            final(self).entries@ == upsert_entries(old(self).entries@, key, value),
    {
        let n = self.entries.len();
        let mut i: usize = 0;
        while i < n
            invariant
                i <= n,
                n == self.entries@.len(),
                self.entries@ == old(self).entries@,
                forall|l: int| 0 <= l < i ==> self.entries@[l].0@ != key@,
            decreases n - i,
        {
            if strutil::str_eq(self.entries[i].0.as_str(), key.as_str()) {
                self.entries.remove(i);
                self.entries.insert(i, (key, value));
                proof {
                    lemma_upsert_found(old(self).entries@, key, value, i as int);
                    assert(self.entries@ =~= old(self).entries@.subrange(0, i as int) + seq![
                        (key, value),
                    ] + old(self).entries@.subrange(i + 1, n as int));
                }
                return ;
            }
            i = i + 1;
        }
        self.entries.push((key, value));
        proof {
            lemma_upsert_absent(old(self).entries@, key, value);
        }
    }

    /// Looks up `k` at this level by scanning the entries in order.
    pub fn get(&self, k: &str) -> (r: Option<&Value>)
        ensures
            match r {
                Some(v) => self.lookup(k@) == Some(*v),
                None => self.lookup(k@) is None,
            },
    {
        let n = self.entries.len();
        let mut i: usize = 0;
        proof {
            assert(self.entries@.skip(0) =~= self.entries@);
        }
        while i < n
            invariant
                i <= n,
                n == self.entries@.len(),
                lookup_entries(self.entries@.skip(i as int), k@) == lookup_entries(
                    self.entries@,
                    k@,
                ),
            decreases n - i,
        {
            proof {
                assert(self.entries@.skip(i as int)[0] == self.entries@[i as int]);
                assert(self.entries@.skip(i as int).drop_first() =~= self.entries@.skip(i + 1));
            }
            if strutil::str_eq(self.entries[i].0.as_str(), k) {
                return Some(&self.entries[i].1);
            }
            i = i + 1;
        }
        proof {
            assert(self.entries@.skip(n as int) =~= Seq::<(Key, Value)>::empty());
        }
        None
    }
}

/// If no entry matches `key`, the upsert appends the pair.
proof fn lemma_upsert_absent(s: Seq<(Key, Value)>, key: Key, value: Value)
    requires
        forall|l: int| 0 <= l < s.len() ==> s[l].0@ != key@,
    ensures
        upsert_entries(s, key, value) == s.push((key, value)),
    decreases s.len(),
{
    if s.len() == 0 {
        assert(upsert_entries(s, key, value) =~= s.push((key, value)));
    } else {
        assert forall|l: int| 0 <= l < s.drop_first().len() implies s.drop_first()[l].0@
            != key@ by {
            assert(s.drop_first()[l] == s[l + 1]);
        }
        lemma_upsert_absent(s.drop_first(), key, value);
        assert(upsert_entries(s, key, value) =~= s.push((key, value)));
    }
}

/// If the first match is at `i`, the upsert replaces the pair there.
proof fn lemma_upsert_found(s: Seq<(Key, Value)>, key: Key, value: Value, i: int)
    requires
        0 <= i < s.len(),
        s[i].0@ == key@,
        forall|l: int| 0 <= l < i ==> s[l].0@ != key@,
    ensures
        upsert_entries(s, key, value) == s.subrange(0, i) + seq![(key, value)] + s.subrange(
            i + 1,
            s.len() as int,
        ),
    decreases s.len(),
{
    if i == 0 {
        assert(upsert_entries(s, key, value) =~= s.subrange(0, i) + seq![(key, value)]
            + s.subrange(i + 1, s.len() as int));
    } else {
        assert forall|l: int| 0 <= l < i - 1 implies s.drop_first()[l].0@ != key@ by {
            assert(s.drop_first()[l] == s[l + 1]);
        }
        assert(s.drop_first()[i - 1] == s[i]);
        lemma_upsert_found(s.drop_first(), key, value, i - 1);
        assert(upsert_entries(s, key, value) =~= s.subrange(0, i) + seq![(key, value)]
            + s.subrange(i + 1, s.len() as int));
    }
}

/// The dotted path for key `k` under `prefix`.
pub open spec fn dotted(prefix: Seq<char>, k: Seq<char>) -> Seq<char> {
    if prefix.len() == 0 {
        k
    } else {
        prefix + seq!['.'] + k
    }
}

/// The dotted paths of every table-valued entry reachable from the
/// entries `s`, depth first and in document order, each table's own
/// path coming before the paths of its descendants.
pub open spec fn deep_keys_entries(s: Seq<(Key, Value)>, prefix: Seq<char>) -> Seq<Seq<char>>
    decreases s,
{
    if s.len() == 0 {
        Seq::empty()
    } else {
        let init = deep_keys_entries(s.drop_last(), prefix);
        match s.last().1 {
            Value::Str(_) => init,
            Value::Table(t) => init + seq![dotted(prefix, s.last().0@)] + deep_keys_table(
                t,
                dotted(prefix, s.last().0@),
            ),
        }
    }
}

/// The dotted paths of every table-valued entry reachable from `t`.
pub open spec fn deep_keys_table(t: Table, prefix: Seq<char>) -> Seq<Seq<char>>
    decreases t,
{
    deep_keys_entries(t.entries@, prefix)
}

/// Collects the dotted paths of every table-valued entry under `table`,
/// depth first, each parent path before its descendants.
pub fn deep_keys(table: &Table) -> (keys: Vec<String>)
    ensures
        keys.deep_view() == deep_keys_table(*table, Seq::<char>::empty()),
{
    let mut keys: Vec<String> = Vec::new();
    collect_keys(table, "", &mut keys);
    proof {
        reveal_strlit("");
        assert(""@ =~= Seq::<char>::empty());
        assert(keys.deep_view() =~= deep_keys_table(*table, Seq::<char>::empty()));
    }
    keys
}

/// Appends to `keys` the dotted paths of every table-valued entry under
/// `table`, with `prefix` as the path of `table` itself.
fn collect_keys(table: &Table, prefix: &str, keys: &mut Vec<String>)
    ensures
        final(keys).deep_view() == old(keys).deep_view() + deep_keys_table(*table, prefix@),
    decreases *table,
{
    let n = table.entries.len();
    let mut j: usize = 0;
    proof {
        assert(table.entries@.subrange(0, 0) =~= Seq::<(Key, Value)>::empty());
        assert(keys.deep_view() =~= old(keys).deep_view() + deep_keys_entries(
            table.entries@.subrange(0, 0),
            prefix@,
        ));
    }
    while j < n
        invariant
            j <= n,
            n == table.entries@.len(),
            keys.deep_view() == old(keys).deep_view() + deep_keys_entries(
                table.entries@.subrange(0, j as int),
                prefix@,
            ),
        decreases n - j,
    {
        proof {
            assert(table.entries@.subrange(0, j + 1).drop_last() =~= table.entries@.subrange(
                0,
                j as int,
            ));
            assert(table.entries@.subrange(0, j + 1).last() == table.entries@[j as int]);
        }
        let entry = &table.entries[j];
        match &entry.1 {
            Value::Str(_) => {},
            Value::Table(inner) => {
                let mut full_key = String::new();
                if !prefix.is_empty() {
                    full_key.append(prefix);
                    full_key.append(".");
                }
                full_key.append(entry.0.as_str());
                proof {
                    reveal_strlit(".");
                    assert(full_key@ =~= dotted(prefix@, table.entries@[j as int].0@));
                }
                let ghost keys_before = keys.deep_view();
                keys.push(full_key.clone());
                proof {
                    assert(keys.deep_view() =~= keys_before.push(full_key@));
                }
                proof {
                    assert(decreases_to!(*table => table.entries));
                    assert(decreases_to!(table.entries => table.entries@));
                    assert(decreases_to!(table.entries@ => table.entries@[j as int]));
                    assert(decreases_to!(table.entries@[j as int] => table.entries@[j as int].1));
                    assert(decreases_to!(*table => *inner));
                }
                collect_keys(inner, full_key.as_str(), keys);
            },
        }
        proof {
            assert(keys.deep_view() =~= old(keys).deep_view() + deep_keys_entries(
                table.entries@.subrange(0, j + 1),
                prefix@,
            ));
        }
        j = j + 1;
    }
    proof {
        assert(table.entries@.subrange(0, n as int) =~= table.entries@);
    }
}

} // verus!
