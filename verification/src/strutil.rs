use vstd::prelude::*;
use vstd::string::StrSliceExecFns;
use vstd::string::StringExecFns;

verus! {

/// Index of the first occurrence of `c` in `s`, or `s.len()` if `c` does
/// not occur.
pub open spec fn find_char(s: Seq<char>, c: char) -> int
    decreases s.len(),
{
    if s.len() == 0 {
        0
    } else if s[0] == c {
        0
    } else {
        1 + find_char(s.drop_first(), c)
    }
}

pub proof fn lemma_find_char(s: Seq<char>, c: char)
    ensures
        0 <= find_char(s, c) <= s.len(),
        find_char(s, c) < s.len() ==> s[find_char(s, c)] == c,
        forall|i: int| 0 <= i < find_char(s, c) ==> s[i] != c,
    decreases s.len(),
{
    if s.len() == 0 {
    } else if s[0] == c {
    } else {
        lemma_find_char(s.drop_first(), c);
        assert forall|i: int| 0 <= i < find_char(s, c) implies s[i] != c by {
            if i > 0 {
                assert(s.drop_first()[i - 1] == s[i]);
            }
        }
    }
}

/// The segments of `s` delimited by `c`, in order; one more segment than
/// there are occurrences of `c`, so the result is never empty.
pub open spec fn split_chars(s: Seq<char>, c: char) -> Seq<Seq<char>>
    decreases s.len(),
{
    if s.len() == 0 {
        seq![Seq::<char>::empty()]
    } else if s[0] == c {
        seq![Seq::<char>::empty()] + split_chars(s.drop_first(), c)
    } else {
        let rest = split_chars(s.drop_first(), c);
        seq![seq![s[0]] + rest[0]] + rest.drop_first()
    }
}

pub proof fn lemma_split_chars_len(s: Seq<char>, c: char)
    ensures
        split_chars(s, c).len() >= 1,
    decreases s.len(),
{
    if s.len() == 0 {
    } else {
        lemma_split_chars_len(s.drop_first(), c);
    }
}

/// Appending the separator closes the current segment and opens an
/// empty one.
pub proof fn lemma_split_push_sep(x: Seq<char>, c: char)
    ensures
        split_chars(x.push(c), c) == split_chars(x, c).push(Seq::<char>::empty()),
    decreases x.len(),
{
    let y = x.push(c);
    if x.len() == 0 {
        assert(y[0] == c);
        assert(y.drop_first() =~= Seq::<char>::empty());
        assert(split_chars(y.drop_first(), c) == seq![Seq::<char>::empty()]);
        assert(split_chars(y, c) =~~= split_chars(x, c).push(Seq::<char>::empty()));
    } else {
        lemma_split_chars_len(x.drop_first(), c);
        lemma_split_push_sep(x.drop_first(), c);
        assert(y[0] == x[0]);
        assert(y.drop_first() =~= x.drop_first().push(c));
        let rest = split_chars(x.drop_first(), c);
        let rest2 = split_chars(y.drop_first(), c);
        assert(rest2 == rest.push(Seq::<char>::empty()));
        if x[0] == c {
            assert(split_chars(y, c) =~~= split_chars(x, c).push(Seq::<char>::empty()));
        } else {
            assert(rest2[0] == rest[0]);
            assert(rest2.drop_first() =~= rest.drop_first().push(Seq::<char>::empty()));
            assert(split_chars(y, c) =~~= split_chars(x, c).push(Seq::<char>::empty()));
        }
    }
}

/// Appending any other character extends the last segment.
pub proof fn lemma_split_push_other(x: Seq<char>, c: char, d: char)
    requires
        d != c,
    ensures
        split_chars(x.push(d), c) == split_chars(x, c).drop_last().push(
            split_chars(x, c).last().push(d),
        ),
    decreases x.len(),
{
    let y = x.push(d);
    if x.len() == 0 {
        assert(y[0] == d);
        assert(y.drop_first() =~= Seq::<char>::empty());
        assert(split_chars(y.drop_first(), c) == seq![Seq::<char>::empty()]);
        assert(split_chars(y, c) =~~= split_chars(x, c).drop_last().push(
            split_chars(x, c).last().push(d),
        ));
    } else {
        lemma_split_chars_len(x.drop_first(), c);
        lemma_split_push_other(x.drop_first(), c, d);
        assert(y[0] == x[0]);
        assert(y.drop_first() =~= x.drop_first().push(d));
        let rest = split_chars(x.drop_first(), c);
        let rest2 = split_chars(y.drop_first(), c);
        assert(rest2 == rest.drop_last().push(rest.last().push(d)));
        if x[0] == c {
            assert(split_chars(y, c) =~~= split_chars(x, c).drop_last().push(
                split_chars(x, c).last().push(d),
            ));
        } else {
            if rest.len() == 1 {
                assert(rest2[0] == rest[0].push(d));
                assert(split_chars(y, c) =~~= split_chars(x, c).drop_last().push(
                    split_chars(x, c).last().push(d),
                ));
            } else {
                assert(rest2[0] == rest[0]);
                assert(rest2.drop_first() =~= rest.drop_first().drop_last().push(
                    rest.drop_first().last().push(d),
                ));
                assert(split_chars(y, c) =~~= split_chars(x, c).drop_last().push(
                    split_chars(x, c).last().push(d),
                ));
            }
        }
    }
}

/// The parts joined by the separator `sep`, in order.
pub open spec fn join_seqs(parts: Seq<Seq<char>>, sep: Seq<char>) -> Seq<char>
    decreases parts.len(),
{
    if parts.len() == 0 {
        Seq::empty()
    } else if parts.len() == 1 {
        parts[0]
    } else {
        parts[0] + sep + join_seqs(parts.drop_first(), sep)
    }
}

pub proof fn lemma_join_push(parts: Seq<Seq<char>>, sep: Seq<char>, x: Seq<char>)
    ensures
        join_seqs(parts.push(x), sep) == if parts.len() == 0 {
            x
        } else {
            join_seqs(parts, sep) + sep + x
        },
    decreases parts.len(),
{
    let p2 = parts.push(x);
    if parts.len() == 0 {
        assert(p2[0] == x);
    } else if parts.len() == 1 {
        assert(p2.drop_first() =~= seq![x]);
        assert(join_seqs(p2.drop_first(), sep) == x);
        assert(join_seqs(p2, sep) =~= parts[0] + sep + x);
    } else {
        lemma_join_push(parts.drop_first(), sep, x);
        assert(p2.drop_first() =~= parts.drop_first().push(x));
        assert(join_seqs(p2, sep) =~= join_seqs(parts, sep) + sep + x);
    }
}

/// Splits `s` on every occurrence of `c`; mirrors `str::split`.
pub fn split_str(s: &str, c: char) -> (parts: Vec<String>)
    ensures
        parts.deep_view() == split_chars(s@, c),
{
    let n = s.unicode_len();
    let mut parts: Vec<String> = Vec::new();
    let mut start: usize = 0;
    let mut i: usize = 0;
    proof {
        assert(s@.subrange(0, 0) =~= Seq::<char>::empty());
        assert(parts.deep_view().push(s@.subrange(0, 0)) =~= split_chars(
            s@.subrange(0, 0),
            c,
        ));
    }
    while i < n
        invariant
            start <= i <= n,
            n == s@.len(),
            parts.deep_view().push(s@.subrange(start as int, i as int)) == split_chars(
                s@.subrange(0, i as int),
                c,
            ),
        decreases n - i,
    {
        let ghost pre = s@.subrange(0, i as int);
        let ghost seg = s@.subrange(start as int, i as int);
        proof {
            lemma_split_chars_len(pre, c);
            assert(s@.subrange(0, i + 1) =~= pre.push(s@[i as int]));
        }
        let ch = s.get_char(i);
        if ch == c {
            proof {
                lemma_split_push_sep(pre, c);
                assert(s@.subrange(i + 1, i + 1) =~= Seq::<char>::empty());
            }
            let piece = s.substring_char(start, i);
            parts.push(piece.to_owned());
            start = i + 1;
            proof {
                assert(parts.deep_view().push(s@.subrange(start as int, i + 1))
                    =~= split_chars(s@.subrange(0, i + 1), c));
            }
        } else {
            proof {
                lemma_split_push_other(pre, c, ch);
                let old_split = split_chars(pre, c);
                assert(old_split.last() == seg);
                assert(old_split.drop_last() =~= parts.deep_view());
                assert(seg.push(ch) =~= s@.subrange(start as int, i + 1));
                assert(parts.deep_view().push(s@.subrange(start as int, i + 1))
                    =~= split_chars(s@.subrange(0, i + 1), c));
            }
        }
        i = i + 1;
    }
    proof {
        assert(s@.subrange(0, n as int) =~= s@);
    }
    let piece = s.substring_char(start, n);
    parts.push(piece.to_owned());
    proof {
        assert(parts.deep_view() =~= split_chars(s@, c));
    }
    parts
}

/// Joins `parts` with `sep` between consecutive parts.
pub fn join_strs(parts: &Vec<String>, sep: &str) -> (r: String)
    ensures
        r@ == join_seqs(parts.deep_view(), sep@),
{
    let mut r = String::new();
    let mut i: usize = 0;
    proof {
        assert(parts.deep_view().subrange(0, 0) =~= Seq::<Seq<char>>::empty());
    }
    while i < parts.len()
        invariant
            i <= parts.len(),
            r@ == join_seqs(parts.deep_view().subrange(0, i as int), sep@),
        decreases parts.len() - i,
    {
        let ghost pre = parts.deep_view().subrange(0, i as int);
        proof {
            lemma_join_push(pre, sep@, parts.deep_view()[i as int]);
            assert(parts.deep_view().subrange(0, i + 1) =~= pre.push(
                parts.deep_view()[i as int],
            ));
        }
        if i > 0 {
            r.append(sep);
        }
        r.append(parts[i].as_str());
        proof {
            assert(r@ =~= join_seqs(parts.deep_view().subrange(0, i + 1), sep@));
        }
        i = i + 1;
    }
    proof {
        assert(parts.deep_view().subrange(0, parts.len() as int) =~= parts.deep_view());
    }
    r
}

/// Whether `c` occurs in `s`.
pub fn contains_char(s: &str, c: char) -> (r: bool)
    ensures
        r == s@.contains(c),
{
    let n = s.unicode_len();
    let mut i: usize = 0;
    while i < n
        invariant
            i <= n,
            n == s@.len(),
            forall|l: int| 0 <= l < i ==> s@[l] != c,
        decreases n - i,
    {
        if s.get_char(i) == c {
            return true;
        }
        i = i + 1;
    }
    false
}

/// The first occurrence of the separator in `a + [c] + b` is the one
/// standing between `a` and `b`, when `a` is free of it.
pub proof fn lemma_find_char_concat(a: Seq<char>, c: char, b: Seq<char>)
    requires
        !a.contains(c),
    ensures
        find_char(a + seq![c] + b, c) == a.len(),
    decreases a.len(),
{
    let s = a + seq![c] + b;
    if a.len() == 0 {
        assert(s[0] == c);
    } else {
        assert(s[0] == a[0]);
        assert(a.contains(a[0]) == false ==> a[0] != c) by {
            if a[0] == c {
                assert(a.contains(c));
            }
        }
        assert(!a.drop_first().contains(c)) by {
            if a.drop_first().contains(c) {
                let w = choose|w: int| 0 <= w < a.drop_first().len() && a.drop_first()[w] == c;
                assert(a[w + 1] == c);
                assert(a.contains(c));
            }
        }
        assert(s.drop_first() =~= a.drop_first() + seq![c] + b);
        lemma_find_char_concat(a.drop_first(), c, b);
    }
}

/// A sequence free of the separator splits into itself alone.
pub proof fn lemma_split_no_sep(s: Seq<char>, c: char)
    requires
        !s.contains(c),
    ensures
        split_chars(s, c) == seq![s],
    decreases s.len(),
{
    if s.len() == 0 {
        assert(split_chars(s, c) =~~= seq![s]);
    } else {
        assert(s[0] != c) by {
            if s[0] == c {
                assert(s.contains(c));
            }
        }
        assert(!s.drop_first().contains(c)) by {
            if s.drop_first().contains(c) {
                let w = choose|w: int|
                    0 <= w < s.drop_first().len() && s.drop_first()[w] == c;
                assert(s[w + 1] == c);
                assert(s.contains(c));
            }
        }
        lemma_split_no_sep(s.drop_first(), c);
        assert(split_chars(s, c) =~~= seq![s]);
    }
}

/// Splitting starts over after the first separator, when the part
/// before it is free of separators.
pub proof fn lemma_split_concat(a: Seq<char>, c: char, b: Seq<char>)
    requires
        !a.contains(c),
    ensures
        split_chars(a + seq![c] + b, c) == seq![a] + split_chars(b, c),
    decreases a.len(),
{
    let s = a + seq![c] + b;
    if a.len() == 0 {
        assert(s[0] == c);
        assert(s.drop_first() =~= b);
        assert(split_chars(s, c) =~~= seq![a] + split_chars(b, c));
    } else {
        assert(s[0] == a[0]);
        assert(a[0] != c) by {
            if a[0] == c {
                assert(a.contains(c));
            }
        }
        assert(!a.drop_first().contains(c)) by {
            if a.drop_first().contains(c) {
                let w = choose|w: int|
                    0 <= w < a.drop_first().len() && a.drop_first()[w] == c;
                assert(a[w + 1] == c);
                assert(a.contains(c));
            }
        }
        assert(s.drop_first() =~= a.drop_first() + seq![c] + b);
        lemma_split_concat(a.drop_first(), c, b);
        lemma_split_chars_len(b, c);
        let rest = split_chars(s.drop_first(), c);
        assert(rest == seq![a.drop_first()] + split_chars(b, c));
        assert(rest[0] == a.drop_first());
        assert(seq![s[0]] + rest[0] =~= a);
        assert(rest.drop_first() =~= split_chars(b, c));
        assert(split_chars(s, c) =~~= seq![a] + split_chars(b, c));
    }
}

/// Splitting on the separator undoes joining with it, for a non-empty
/// list of parts each free of the separator.
pub proof fn lemma_split_of_join(parts: Seq<Seq<char>>, c: char)
    requires
        parts.len() >= 1,
        forall|i: int| 0 <= i < parts.len() ==> !(#[trigger] parts[i]).contains(c),
    ensures
        split_chars(join_seqs(parts, seq![c]), c) == parts,
    decreases parts.len(),
{
    if parts.len() == 1 {
        lemma_split_no_sep(parts[0], c);
        assert(split_chars(join_seqs(parts, seq![c]), c) =~~= parts);
    } else {
        let rest = parts.drop_first();
        assert(forall|i: int| 0 <= i < rest.len() ==> !(#[trigger] rest[i]).contains(c)) by {
            assert(forall|i: int|
                0 <= i < rest.len() ==> rest[i] == parts[i + 1]);
        }
        lemma_split_of_join(rest, c);
        assert(join_seqs(parts, seq![c]) =~= parts[0] + seq![c] + join_seqs(rest, seq![c]));
        lemma_split_concat(parts[0], c, join_seqs(rest, seq![c]));
        assert(split_chars(join_seqs(parts, seq![c]), c) =~~= parts);
    }
}

/// Index of the first occurrence of `c` in `s`, or the length of `s` if
/// `c` does not occur; mirrors `find_char`.
pub fn find_char_str(s: &str, c: char) -> (i: usize)
    ensures
        i as int == find_char(s@, c),
        i as int <= s@.len(),
        (i as int) < s@.len() <==> s@.contains(c),
{
    let n = s.unicode_len();
    let mut i: usize = 0;
    while i < n
        invariant
            i <= n,
            n == s@.len(),
            forall|l: int| 0 <= l < i ==> s@[l] != c,
        decreases n - i,
    {
        if s.get_char(i) == c {
            proof {
                lemma_find_char(s@, c);
            }
            return i;
        }
        i = i + 1;
    }
    proof {
        lemma_find_char(s@, c);
        if s@.contains(c) {
            let w = choose|w: int| 0 <= w < s@.len() && s@[w] == c;
            assert(s@[w] != c);
        }
    }
    n
}

/// Whether `a` and `b` hold the same characters.
pub fn str_eq(a: &str, b: &str) -> (r: bool)
    ensures
        r == (a@ == b@),
{
    let an = a.unicode_len();
    let bn = b.unicode_len();
    if an != bn {
        return false;
    }
    let mut i: usize = 0;
    while i < an
        invariant
            i <= an,
            an == a@.len(),
            an == b@.len(),
            forall|l: int| 0 <= l < i ==> a@[l] == b@[l],
        decreases an - i,
    {
        if a.get_char(i) != b.get_char(i) {
            return false;
        }
        i = i + 1;
    }
    proof {
        assert(a@ =~= b@);
    }
    true
}

/// Whether `p` is a prefix of `s`.
pub fn str_starts_with(s: &str, p: &str) -> (r: bool)
    ensures
        r == (p@.len() <= s@.len() && s@.subrange(0, p@.len() as int) == p@),
{
    let sn = s.unicode_len();
    let pn = p.unicode_len();
    if pn > sn {
        return false;
    }
    let mut i: usize = 0;
    while i < pn
        invariant
            i <= pn <= sn,
            sn == s@.len(),
            pn == p@.len(),
            forall|l: int| 0 <= l < i ==> s@[l] == p@[l],
        decreases pn - i,
    {
        if s.get_char(i) != p.get_char(i) {
            proof {
                assert(s@.subrange(0, p@.len() as int)[i as int] != p@[i as int]);
            }
            return false;
        }
        i = i + 1;
    }
    proof {
        assert(s@.subrange(0, p@.len() as int) =~= p@);
    }
    true
}

} // verus!
