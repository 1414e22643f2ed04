use vstd::prelude::*;
use vstd::string::StrSliceExecFns;
use vstd::string::StringExecFns;

use crate::config::{Key, Table, Value};
use crate::shell::{set_var_spec, Shell};
use crate::strutil;
use crate::var_map::{entries_of, new_var_map, upsert, var_map_insert, var_map_keys, var_map_pairs};

verus! {

/// Spec-level image of a resolution failure.
pub enum ResolveErrSpec {
    MissingKey { segment: Seq<char>, options: Seq<Seq<char>> },
    NotATable { segment: Seq<char> },
}

/// A path could not be resolved against the document: either a segment
/// is absent from its level (with the level's table-valued keys as the
/// valid alternatives), or it names a plain string value.
#[derive(Debug)]
pub enum ResolveError {
    MissingKey { segment: String, options: Vec<String> },
    NotATable { segment: String },
}

impl View for ResolveError {
    type V = ResolveErrSpec;

    open spec fn view(&self) -> ResolveErrSpec {
        match self {
            ResolveError::MissingKey { segment, options } => ResolveErrSpec::MissingKey {
                segment: segment@,
                options: options.deep_view(),
            },
            ResolveError::NotATable { segment } => ResolveErrSpec::NotATable {
                segment: segment@,
            },
        }
    }
}

/// The description of a resolution failure, as it is printed.
pub open spec fn resolve_error_message(e: ResolveErrSpec) -> Seq<char> {
    match e {
        ResolveErrSpec::MissingKey { segment, options } => "missing key '"@ + segment
            + "'. Available options: "@ + strutil::join_seqs(options, ", "@),
        ResolveErrSpec::NotATable { segment } => "key '"@ + segment
            + "' does not correspond to a table"@,
    }
}

impl ResolveError {
    /// A human-readable description of the failure.
    pub fn message(&self) -> (m: String)
        ensures
            m@ == resolve_error_message(self@),
    {
        let mut m = String::new();
        match self {
            ResolveError::MissingKey { segment, options } => {
                m.append("missing key '");
                m.append(segment.as_str());
                m.append("'. Available options: ");
                let joined = strutil::join_strs(options, ", ");
                m.append(joined.as_str());
            },
            ResolveError::NotATable { segment } => {
                m.append("key '");
                m.append(segment.as_str());
                m.append("' does not correspond to a table");
            },
        }
        proof {
            assert(m@ =~= resolve_error_message(self@));
        }
        m
    }
}

/// Keys of the table-valued entries of one level, in order: the valid
/// next path segments at that level.
pub open spec fn table_keys(s: Seq<(Key, Value)>) -> Seq<Seq<char>>
    decreases s.len(),
{
    if s.len() == 0 {
        Seq::empty()
    } else {
        let init = table_keys(s.drop_last());
        match s.last().1 {
            Value::Table(_) => init.push(s.last().0@),
            Value::Str(_) => init,
        }
    }
}

/// Folds the string-valued entries of one level into the variable map,
/// in document order: a deeper or later definition of a name replaces
/// the value but keeps the name's first-seen place in the order.
pub open spec fn merge_entries(
    vals: Seq<(Seq<char>, Seq<char>)>,
    s: Seq<(Key, Value)>,
) -> Seq<(Seq<char>, Seq<char>)>
    decreases s.len(),
{
    if s.len() == 0 {
        vals
    } else {
        let prev = merge_entries(vals, s.drop_last());
        match s.last().1 {
            Value::Str(v) => upsert(prev, s.last().0@, v@),
            Value::Table(_) => prev,
        }
    }
}

/// Folds one whole level into the variable map.
pub open spec fn merge_table(vals: Seq<(Seq<char>, Seq<char>)>, t: Table) -> Seq<
    (Seq<char>, Seq<char>),
> {
    merge_entries(vals, t.entries@)
}

/// The effective variable set at the end of `path`, starting from the
/// accumulated variables `vals`: each level's string entries are merged
/// in order, deeper levels overriding shallower ones, until the path is
/// exhausted or an empty segment stops the walk; a segment that is
/// absent or names a string value is an error.
pub open spec fn resolve_spec(
    vals: Seq<(Seq<char>, Seq<char>)>,
    t: Table,
    path: Seq<Seq<char>>,
) -> Result<Seq<(Seq<char>, Seq<char>)>, ResolveErrSpec>
    decreases path.len(),
{
    let merged = merge_table(vals, t);
    if path.len() == 0 || path[0].len() == 0 {
        Ok(merged)
    } else {
        match t.lookup(path[0]) {
            Option::None => Err(
                ResolveErrSpec::MissingKey { segment: path[0], options: table_keys(t.entries@) },
            ),
            Option::Some(Value::Str(_)) => Err(ResolveErrSpec::NotATable { segment: path[0] }),
            Option::Some(Value::Table(inner)) => resolve_spec(merged, inner, path.drop_first()),
        }
    }
}

/// The value the effective variable set holds under `k`, if any.
pub open spec fn vals_lookup(s: Seq<(Seq<char>, Seq<char>)>, k: Seq<char>) -> Option<Seq<char>>
    decreases s.len(),
{
    if s.len() == 0 {
        None
    } else if s[0].0 == k {
        Some(s[0].1)
    } else {
        vals_lookup(s.drop_first(), k)
    }
}

/// An upsert changes the map at the stored key and nowhere else.
proof fn lemma_upsert_lookup(s: Seq<(Seq<char>, Seq<char>)>, k: Seq<char>, v: Seq<char>, q: Seq<char>)
    ensures
        vals_lookup(upsert(s, k, v), q) == if q == k {
            Some(v)
        } else {
            vals_lookup(s, q)
        },
    decreases s.len(),
{
    if s.len() == 0 {
        let u = upsert(s, k, v);
        assert(u == seq![(k, v)]);
        assert(u[0] == (k, v));
        assert(u.drop_first() =~= Seq::<(Seq<char>, Seq<char>)>::empty());
        assert(vals_lookup(u.drop_first(), q) is None);
    } else if s[0].0 == k {
        let u = upsert(s, k, v);
        assert(u == seq![(k, v)] + s.drop_first());
        assert(u[0] == (k, v));
        assert(u.drop_first() =~= s.drop_first());
        assert(vals_lookup(u.drop_first(), q) == vals_lookup(s.drop_first(), q));
    } else {
        let u = upsert(s, k, v);
        assert(u == seq![s[0]] + upsert(s.drop_first(), k, v));
        assert(u[0] == s[0]);
        assert(u.drop_first() =~= upsert(s.drop_first(), k, v));
        lemma_upsert_lookup(s.drop_first(), k, v, q);
    }
}

/// A key absent from the map stays absent through other keys' upserts;
/// an absent key's upsert is a plain append.
proof fn lemma_upsert_absent(s: Seq<(Seq<char>, Seq<char>)>, k: Seq<char>, v: Seq<char>)
    requires
        vals_lookup(s, k) is None,
    ensures
        upsert(s, k, v) == s.push((k, v)),
    decreases s.len(),
{
    if s.len() == 0 {
        assert(upsert(s, k, v) =~= s.push((k, v)));
    } else {
        assert(s[0].0 != k);
        lemma_upsert_absent(s.drop_first(), k, v);
        assert(upsert(s, k, v) =~= s.push((k, v)));
    }
}

/// Lookup distributes over concatenation: the front of the map is
/// consulted first.
proof fn lemma_vals_lookup_concat(a: Seq<(Seq<char>, Seq<char>)>, b: Seq<(Seq<char>, Seq<char>)>, q: Seq<char>)
    ensures
        vals_lookup(a + b, q) == match vals_lookup(a, q) {
            Some(v) => Some(v),
            None => vals_lookup(b, q),
        },
    decreases a.len(),
{
    if a.len() == 0 {
        assert(a + b =~= b);
    } else {
        assert((a + b)[0] == a[0]);
        assert((a + b).drop_first() =~= a.drop_first() + b);
        lemma_vals_lookup_concat(a.drop_first(), b, q);
    }
}

/// With unique keys, the front-first lookup is also decided by the last
/// entry: the last entry answers for its own key, earlier entries for
/// the rest.
proof fn lemma_lookup_snoc(s: Seq<(Key, Value)>, k: Seq<char>)
    requires
        s.len() > 0,
        crate::config::entry_keys_unique(s),
    ensures
        crate::config::lookup_entries(s, k) == if s.last().0@ == k {
            Some(s.last().1)
        } else {
            crate::config::lookup_entries(s.drop_last(), k)
        },
    decreases s.len(),
{
    if s.len() == 1 {
        assert(s.drop_last() =~= Seq::<(Key, Value)>::empty());
        assert(s.drop_first() =~= Seq::<(Key, Value)>::empty());
        assert(s[0] == s.last());
        assert(crate::config::lookup_entries(s.drop_first(), k) is None);
        assert(crate::config::lookup_entries(s.drop_last(), k) is None);
    } else {
        assert(s.drop_last()[0] == s[0]);
        if s[0].0@ == k {
            assert(s.last() == s[s.len() - 1]);
            assert(s.last().0@ != k);
            assert(crate::config::lookup_entries(s.drop_last(), k) == Some(s.drop_last()[0].1));
        } else {
            assert forall|i: int, j: int|
                0 <= i < j < s.drop_first().len() implies s.drop_first()[i].0@
                != s.drop_first()[j].0@ by {
                assert(s.drop_first()[i] == s[i + 1]);
                assert(s.drop_first()[j] == s[j + 1]);
            }
            lemma_lookup_snoc(s.drop_first(), k);
            assert(s.drop_first().last() == s.last());
            assert(s.drop_first().drop_last() =~= s.drop_last().drop_first());
            assert(crate::config::lookup_entries(s, k) == crate::config::lookup_entries(
                s.drop_first(),
                k,
            ));
            if s.last().0@ != k {
                assert(crate::config::lookup_entries(s.drop_last(), k)
                    == crate::config::lookup_entries(s.drop_last().drop_first(), k));
            }
        }
    }
}

/// A key under which no entry stands looks up to nothing.
proof fn lemma_lookup_absent(s: Seq<(Key, Value)>, k: Seq<char>)
    requires
        forall|l: int| 0 <= l < s.len() ==> s[l].0@ != k,
    ensures
        crate::config::lookup_entries(s, k) is None,
    decreases s.len(),
{
    if s.len() == 0 {
    } else {
        assert forall|l: int| 0 <= l < s.drop_first().len() implies s.drop_first()[l].0@
            != k by {
            assert(s.drop_first()[l] == s[l + 1]);
        }
        lemma_lookup_absent(s.drop_first(), k);
    }
}

/// A looked-up value is one of the entries' values.
proof fn lemma_lookup_in_entries(s: Seq<(Key, Value)>, k: Seq<char>)
    ensures
        match crate::config::lookup_entries(s, k) {
            Some(v) => exists|i: int| 0 <= i < s.len() && s[i].1 == v && s[i].0@ == k,
            None => true,
        },
    decreases s.len(),
{
    if s.len() == 0 {
    } else if s[0].0@ == k {
    } else {
        lemma_lookup_in_entries(s.drop_first(), k);
        match crate::config::lookup_entries(s.drop_first(), k) {
            Some(v) => {
                let i = choose|i: int|
                    0 <= i < s.drop_first().len() && s.drop_first()[i].1 == v
                        && s.drop_first()[i].0@ == k;
                assert(s[i + 1] == s.drop_first()[i]);
            },
            None => {},
        }
    }
}

/// The string value one level gives `name`, if any.
pub open spec fn str_lookup(t: Table, name: Seq<char>) -> Option<Seq<char>> {
    match t.lookup(name) {
        Some(Value::Str(v)) => Some(v@),
        _ => None,
    }
}

/// Merging one level into the map answers lookups from that level's
/// string entries first and from the previous map otherwise.
proof fn lemma_merge_lookup(
    acc: Seq<(Seq<char>, Seq<char>)>,
    s: Seq<(Key, Value)>,
    name: Seq<char>,
)
    requires
        crate::config::entry_keys_unique(s),
    ensures
        vals_lookup(merge_entries(acc, s), name) == match crate::config::lookup_entries(s, name) {
            Some(Value::Str(v)) => Some(v@),
            Some(Value::Table(_)) => vals_lookup(acc, name),
            None => vals_lookup(acc, name),
        },
    decreases s.len(),
{
    if s.len() == 0 {
    } else {
        assert forall|i: int, j: int|
            0 <= i < j < s.drop_last().len() implies s.drop_last()[i].0@
            != s.drop_last()[j].0@ by {
            assert(s.drop_last()[i] == s[i]);
            assert(s.drop_last()[j] == s[j]);
        }
        lemma_merge_lookup(acc, s.drop_last(), name);
        lemma_lookup_snoc(s, name);
        let prev = merge_entries(acc, s.drop_last());
        match s.last().1 {
            Value::Str(v) => {
                lemma_upsert_lookup(prev, s.last().0@, v@, name);
                if name == s.last().0@ {
                    assert forall|l: int| 0 <= l < s.drop_last().len() implies s.drop_last()[l].0@
                        != name by {
                        assert(s.drop_last()[l] == s[l]);
                    }
                    lemma_lookup_absent(s.drop_last(), name);
                }
            },
            Value::Table(_) => {
                if name == s.last().0@ {
                    assert forall|l: int| 0 <= l < s.drop_last().len() implies s.drop_last()[l].0@
                        != name by {
                        assert(s.drop_last()[l] == s[l]);
                    }
                    lemma_lookup_absent(s.drop_last(), name);
                }
            },
        }
    }
}

/// The chain of tables a successful walk visits, root first.
pub open spec fn levels(t: Table, path: Seq<Seq<char>>) -> Seq<Table>
    decreases path.len(),
{
    if path.len() == 0 || path[0].len() == 0 {
        seq![t]
    } else {
        match t.lookup(path[0]) {
            Some(Value::Table(inner)) => seq![t] + levels(inner, path.drop_first()),
            _ => seq![t],
        }
    }
}

/// The value the deepest level defining `name` as a string gives it,
/// if any level does.
pub open spec fn deepest_def(ls: Seq<Table>, name: Seq<char>) -> Option<Seq<char>>
    decreases ls.len(),
{
    if ls.len() == 0 {
        None
    } else {
        match str_lookup(ls.last(), name) {
            Some(v) => Some(v),
            None => deepest_def(ls.drop_last(), name),
        }
    }
}

/// Prepending a shallower level leaves deeper answers untouched and
/// answers the rest from that level.
proof fn lemma_deepest_cons(t: Table, ls: Seq<Table>, name: Seq<char>)
    ensures
        deepest_def(seq![t] + ls, name) == match deepest_def(ls, name) {
            Some(v) => Some(v),
            None => str_lookup(t, name),
        },
    decreases ls.len(),
{
    let c = seq![t] + ls;
    if ls.len() == 0 {
        assert(c =~= seq![t]);
        assert(c.last() == t);
        assert(c.drop_last() =~= Seq::<Table>::empty());
    } else {
        assert(c.last() == ls.last());
        assert(c.drop_last() =~= seq![t] + ls.drop_last());
        lemma_deepest_cons(t, ls.drop_last(), name);
    }
}

/// Worker for the override law, generalized over the accumulated map.
proof fn lemma_resolve_from(
    acc: Seq<(Seq<char>, Seq<char>)>,
    t: Table,
    path: Seq<Seq<char>>,
    name: Seq<char>,
)
    requires
        t.wf(),
        resolve_spec(acc, t, path) is Ok,
    ensures
        resolve_spec(acc, t, path) matches Ok(vals) && vals_lookup(vals, name) == (
        match deepest_def(levels(t, path), name) {
            Some(v) => Some(v),
            None => vals_lookup(acc, name),
        }),
    decreases path.len(),
{
    let merged = merge_table(acc, t);
    let ls = levels(t, path);
    lemma_merge_lookup(acc, t.entries@, name);
    if path.len() == 0 || path[0].len() == 0 {
        assert(ls == seq![t]);
        assert(ls.last() == t);
        assert(ls.drop_last() =~= Seq::<Table>::empty());
        assert(deepest_def(ls.drop_last(), name) is None);
    } else {
        match t.lookup(path[0]) {
            Some(Value::Table(inner)) => {
                lemma_lookup_in_entries(t.entries@, path[0]);
                let i = choose|i: int|
                    0 <= i < t.entries@.len() && t.entries@[i].1 == Value::Table(inner)
                        && t.entries@[i].0@ == path[0];
                crate::config::lemma_entries_values_wf_index(t.entries@, i);
                assert(inner.wf());
                lemma_resolve_from(merged, inner, path.drop_first(), name);
                lemma_deepest_cons(t, levels(inner, path.drop_first()), name);
                assert(ls == seq![t] + levels(inner, path.drop_first()));
                assert(resolve_spec(acc, t, path) == resolve_spec(
                    merged,
                    inner,
                    path.drop_first(),
                ));
            },
            _ => {
                assert(false);
            },
        }
    }
}

/// Law: the resolved variable set holds exactly the names that some
/// visited level defines as a string, and each name's value is the one
/// given by the deepest level defining it: deeper definitions win over
/// shallower ones along the whole ancestor chain of the path.
pub proof fn lemma_resolve_deepest_wins(t: Table, path: Seq<Seq<char>>, name: Seq<char>)
    requires
        t.wf(),
        resolve_spec(Seq::<(Seq<char>, Seq<char>)>::empty(), t, path) is Ok,
    ensures
        resolve_spec(Seq::<(Seq<char>, Seq<char>)>::empty(), t, path) matches Ok(vals)
            && vals_lookup(vals, name) == deepest_def(levels(t, path), name),
{
    lemma_resolve_from(Seq::<(Seq<char>, Seq<char>)>::empty(), t, path, name);
}

/// The string-valued entries of one level, in document order, as the
/// variable pairs they contribute.
pub open spec fn str_entries(s: Seq<(Key, Value)>) -> Seq<(Seq<char>, Seq<char>)>
    decreases s.len(),
{
    if s.len() == 0 {
        Seq::empty()
    } else {
        let init = str_entries(s.drop_last());
        match s.last().1 {
            Value::Str(v) => init.push((s.last().0@, v@)),
            Value::Table(_) => init,
        }
    }
}

/// The string entries' keys all come from the level's own keys.
proof fn lemma_str_entries_absent(s: Seq<(Key, Value)>, k: Seq<char>)
    requires
        forall|l: int| 0 <= l < s.len() ==> s[l].0@ != k,
    ensures
        vals_lookup(str_entries(s), k) is None,
    decreases s.len(),
{
    if s.len() == 0 {
        assert(vals_lookup(str_entries(s), k) is None);
    } else {
        assert forall|l: int| 0 <= l < s.drop_last().len() implies s.drop_last()[l].0@
            != k by {
            assert(s.drop_last()[l] == s[l]);
        }
        lemma_str_entries_absent(s.drop_last(), k);
        match s.last().1 {
            Value::Str(v) => {
                let single = seq![(s.last().0@, v@)];
                lemma_vals_lookup_concat(str_entries(s.drop_last()), single, k);
                assert(str_entries(s) =~= str_entries(s.drop_last()) + single);
                assert(single[0].0 == s.last().0@);
                assert(s.last() == s[s.len() - 1]);
                assert(single.drop_first() =~= Seq::<(Seq<char>, Seq<char>)>::empty());
                assert(vals_lookup(single.drop_first(), k) is None);
                assert(vals_lookup(single, k) is None);
            },
            Value::Table(_) => {},
        }
    }
}

/// Merging a level whose keys are unique and absent from the map
/// appends exactly that level's string entries.
proof fn lemma_merge_fresh(acc: Seq<(Seq<char>, Seq<char>)>, s: Seq<(Key, Value)>)
    requires
        crate::config::entry_keys_unique(s),
        forall|l: int| 0 <= l < s.len() ==> vals_lookup(acc, #[trigger] s[l].0@) is None,
    ensures
        merge_entries(acc, s) == acc + str_entries(s),
    decreases s.len(),
{
    if s.len() == 0 {
        assert(merge_entries(acc, s) =~= acc + str_entries(s));
    } else {
        assert forall|i: int, j: int|
            0 <= i < j < s.drop_last().len() implies s.drop_last()[i].0@
            != s.drop_last()[j].0@ by {
            assert(s.drop_last()[i] == s[i]);
            assert(s.drop_last()[j] == s[j]);
        }
        assert forall|l: int| 0 <= l < s.drop_last().len() implies vals_lookup(
            acc,
            #[trigger] s.drop_last()[l].0@,
        ) is None by {
            assert(s.drop_last()[l] == s[l]);
        }
        lemma_merge_fresh(acc, s.drop_last());
        match s.last().1 {
            Value::Str(v) => {
                let k = s.last().0@;
                assert forall|l: int| 0 <= l < s.drop_last().len() implies s.drop_last()[l].0@
                    != k by {
                    assert(s.drop_last()[l] == s[l]);
                }
                lemma_str_entries_absent(s.drop_last(), k);
                lemma_vals_lookup_concat(acc, str_entries(s.drop_last()), k);
                assert(vals_lookup(acc, k) is None);
                lemma_upsert_absent(acc + str_entries(s.drop_last()), k, v@);
                assert(merge_entries(acc, s) =~= acc + str_entries(s));
            },
            Value::Table(_) => {},
        }
    }
}

/// Law: resolving the empty path yields exactly the top-level
/// string-valued entries of the document, in document order.
pub proof fn lemma_resolve_empty_path(t: Table)
    requires
        t.wf(),
    ensures
        resolve_spec(Seq::<(Seq<char>, Seq<char>)>::empty(), t, Seq::<Seq<char>>::empty())
            matches Ok(vals) && vals == str_entries(t.entries@),
{
    let acc = Seq::<(Seq<char>, Seq<char>)>::empty();
    lemma_merge_fresh(acc, t.entries@);
    assert(acc + str_entries(t.entries@) =~= str_entries(t.entries@));
}

/// Law: a non-empty leading segment that names a string value fails the
/// resolution with `NotATable`, naming that segment.
pub proof fn lemma_resolve_not_a_table(
    acc: Seq<(Seq<char>, Seq<char>)>,
    t: Table,
    path: Seq<Seq<char>>,
)
    requires
        path.len() > 0,
        path[0].len() > 0,
        t.lookup(path[0]) matches Some(v) && v is Str,
    ensures
        resolve_spec(acc, t, path) == Result::<
            Seq<(Seq<char>, Seq<char>)>,
            ResolveErrSpec,
        >::Err(ResolveErrSpec::NotATable { segment: path[0] }),
{
}

/// Law: a non-empty leading segment that is absent from its level fails
/// the resolution with `MissingKey`, naming that segment and the
/// level's table-valued keys as the valid alternatives.
pub proof fn lemma_resolve_missing_key(
    acc: Seq<(Seq<char>, Seq<char>)>,
    t: Table,
    path: Seq<Seq<char>>,
)
    requires
        path.len() > 0,
        path[0].len() > 0,
        t.lookup(path[0]) is None,
    ensures
        resolve_spec(acc, t, path) == Result::<
            Seq<(Seq<char>, Seq<char>)>,
            ResolveErrSpec,
        >::Err(
            ResolveErrSpec::MissingKey { segment: path[0], options: table_keys(t.entries@) },
        ),
{
}

/// Law: a non-empty leading segment that names a table descends into
/// it: the resolution continues in the nested table with the level's
/// string entries merged and the segment consumed.
pub proof fn lemma_resolve_descend(
    acc: Seq<(Seq<char>, Seq<char>)>,
    t: Table,
    path: Seq<Seq<char>>,
)
    requires
        path.len() > 0,
        path[0].len() > 0,
        t.lookup(path[0]) matches Some(v) && v is Table,
    ensures
        t.lookup(path[0]) matches Some(v) && v matches Value::Table(inner) && resolve_spec(
            acc,
            t,
            path,
        ) == resolve_spec(merge_table(acc, t), inner, path.drop_first()),
{
}

/// Collects the keys of the table-valued entries of `t`, in order.
fn table_key_list(t: &Table) -> (opts: Vec<String>)
    ensures
        opts.deep_view() == table_keys(t.entries@),
{
    let n = t.entries.len();
    let mut opts: Vec<String> = Vec::new();
    let mut j: usize = 0;
    proof {
        assert(t.entries@.subrange(0, 0) =~= Seq::<(Key, Value)>::empty());
        assert(opts.deep_view() =~= table_keys(t.entries@.subrange(0, 0)));
    }
    while j < n
        invariant
            j <= n,
            n == t.entries@.len(),
            opts.deep_view() == table_keys(t.entries@.subrange(0, j as int)),
        decreases n - j,
    {
        proof {
            assert(t.entries@.subrange(0, j + 1).drop_last() =~= t.entries@.subrange(0, j as int));
            assert(t.entries@.subrange(0, j + 1).last() == t.entries@[j as int]);
        }
        let entry = &t.entries[j];
        match &entry.1 {
            Value::Table(_) => {
                opts.push(entry.0 .0.clone());
                proof {
                    assert(opts.deep_view() =~= table_keys(t.entries@.subrange(0, j + 1)));
                }
            },
            Value::Str(_) => {},
        }
        j = j + 1;
    }
    proof {
        assert(t.entries@.subrange(0, n as int) =~= t.entries@);
    }
    opts
}

/// Walks a key path through a configuration document, accumulating the
/// effective variable set in an insertion-ordered map.
#[derive(Debug)]
pub struct ConfigWalker {
    pub vals: indexmap::IndexMap<String, String>,
}

impl ConfigWalker {
    /// Resolves `keys` against `config`, merging every visited level's
    /// string entries; returns the walker holding exactly the effective
    /// variable set, or the failure that stopped the walk.
    pub fn new(config: &Table, keys: &Vec<Key>) -> (r: Result<ConfigWalker, ResolveError>)
        ensures
            match r {
                Ok(w) => resolve_spec(
                    Seq::<(Seq<char>, Seq<char>)>::empty(),
                    *config,
                    keys.deep_view(),
                ) matches Ok(vs) && vs == entries_of(w.vals),
                Err(e) => resolve_spec(
                    Seq::<(Seq<char>, Seq<char>)>::empty(),
                    *config,
                    keys.deep_view(),
                ) matches Err(se) && se == e@,
            },
    {
        let ghost path = keys.deep_view();
        let ghost whole = resolve_spec(Seq::<(Seq<char>, Seq<char>)>::empty(), *config, path);
        let mut vals = new_var_map();
        let mut cur: &Table = config;
        let mut i: usize = 0;
        let n = keys.len();
        proof {
            assert(path.skip(0) =~= path);
        }
        loop
            invariant
                i <= n,
                n == keys@.len(),
                path == keys.deep_view(),
                whole == resolve_spec(
                    Seq::<(Seq<char>, Seq<char>)>::empty(),
                    *config,
                    keys.deep_view(),
                ),
                resolve_spec(entries_of(vals), *cur, path.skip(i as int)) == whole,
            decreases n - i,
        {
            let ghost vals0 = entries_of(vals);
            let m = cur.entries.len();
            let mut j: usize = 0;
            proof {
                assert(cur.entries@.subrange(0, 0) =~= Seq::<(Key, Value)>::empty());
            }
            while j < m
                invariant
                    j <= m,
                    m == cur.entries@.len(),
                    entries_of(vals) == merge_entries(vals0, cur.entries@.subrange(0, j as int)),
                decreases m - j,
            {
                proof {
                    assert(cur.entries@.subrange(0, j + 1).drop_last() =~= cur.entries@.subrange(
                        0,
                        j as int,
                    ));
                    assert(cur.entries@.subrange(0, j + 1).last() == cur.entries@[j as int]);
                }
                let entry = &cur.entries[j];
                match &entry.1 {
                    Value::Str(v) => {
                        var_map_insert(&mut vals, entry.0 .0.clone(), v.clone());
                    },
                    Value::Table(_) => {},
                }
                j = j + 1;
            }
            proof {
                assert(cur.entries@.subrange(0, m as int) =~= cur.entries@);
                assert(entries_of(vals) == merge_table(vals0, *cur));
            }
            if i >= n {
                return Ok(ConfigWalker { vals });
            }
            let head: &Key = &keys[i];
            proof {
                assert(path.skip(i as int)[0] == path[i as int]);
                assert(path[i as int] == head@);
            }
            if head.0.as_str().is_empty() {
                return Ok(ConfigWalker { vals });
            }
            match cur.get(head.as_str()) {
                Option::None => {
                    let options = table_key_list(cur);
                    return Err(ResolveError::MissingKey { segment: head.0.clone(), options });
                },
                Option::Some(v) => match v {
                    Value::Str(_) => {
                        return Err(ResolveError::NotATable { segment: head.0.clone() });
                    },
                    Value::Table(inner) => {
                        proof {
                            assert(path.skip(i as int).drop_first() =~= path.skip(i + 1));
                        }
                        cur = inner;
                        i = i + 1;
                    },
                },
            }
        }
    }

    /// One export statement per effective variable, in order.
    pub fn set_commands(&self, shell: &Shell) -> (cmds: Vec<String>)
        ensures
            cmds.deep_view() == entries_of(self.vals).map_values(
                |p: (Seq<char>, Seq<char>)| set_var_spec(*shell, p.0, p.1),
            ),
    {
        let pairs = var_map_pairs(&self.vals);
        let n = pairs.len();
        let mut cmds: Vec<String> = Vec::new();
        let mut i: usize = 0;
        while i < n
            invariant
                i <= n,
                n == pairs@.len(),
                pairs.deep_view() == entries_of(self.vals),
                cmds.deep_view().len() == i,
                forall|l: int|
                    0 <= l < i ==> cmds.deep_view()[l] == set_var_spec(
                        *shell,
                        entries_of(self.vals)[l].0,
                        entries_of(self.vals)[l].1,
                    ),
            decreases n - i,
        {
            let ghost cmds0 = cmds.deep_view();
            let cmd = shell.set_var(pairs[i].0.as_str(), pairs[i].1.as_str());
            proof {
                assert(pairs.deep_view()[i as int] == (pairs@[i as int].0@, pairs@[i as int].1@));
            }
            cmds.push(cmd);
            proof {
                assert(cmds.deep_view() =~= cmds0.push(cmd@));
            }
            i = i + 1;
        }
        proof {
            assert(cmds.deep_view() =~= entries_of(self.vals).map_values(
                |p: (Seq<char>, Seq<char>)| set_var_spec(*shell, p.0, p.1),
            ));
        }
        cmds
    }

    /// The effective variable names, in order.
    pub fn variable_names(&self) -> (names: Vec<String>)
        ensures
            names.deep_view() == entries_of(self.vals).map_values(
                |p: (Seq<char>, Seq<char>)| p.0,
            ),
    {
        var_map_keys(&self.vals)
    }

    /// The effective variable names joined with single spaces, for the
    /// summary line.
    pub fn variables(&self) -> (r: String)
        ensures
            r@ == strutil::join_seqs(
                entries_of(self.vals).map_values(|p: (Seq<char>, Seq<char>)| p.0),
                seq![' '],
            ),
    {
        let keys = var_map_keys(&self.vals);
        let r = strutil::join_strs(&keys, " ");
        proof {
            reveal_strlit(" ");
            assert(" "@ =~= seq![' ']);
        }
        r
    }
}

} // verus!
