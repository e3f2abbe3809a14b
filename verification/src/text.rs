//! Character-level helpers on strings, with their specifications.

use vstd::prelude::*;

verus! {

/// `String::push` from std: appends one character at the end.
#[verifier::external_body]
fn push_char(s: &mut String, c: char)
    ensures
        final(s)@ == old(s)@.push(c),
{
    s.push(c);
}

/// The characters of `s`, in order.
pub fn chars_of(s: &str) -> (v: Vec<char>)
    ensures
        v@ == s@,
{
    let mut v: Vec<char> = Vec::new();
    for c in it: s.chars()
        invariant
            v@ == it.seq().take(it.index()),
    {
        v.push(c);
    }
    v
}

/// A string made of the characters `v`, in order.
pub fn string_of(v: &Vec<char>) -> (s: String)
    ensures
        s@ == v@,
{
    let mut s = String::new();
    let mut i: usize = 0;
    while i < v.len()
        invariant
            i <= v.len(),
            s@ == v@.take(i as int),
        decreases v.len() - i,
    {
        push_char(&mut s, v[i]);
        assert(v@.take(i + 1) == v@.take(i as int).push(v@[i as int]));
        i = i + 1;
    }
    assert(v@.take(v.len() as int) == v@);
    s
}

/// Index of the first `c` in `s`, if any.
pub open spec fn find_char(s: Seq<char>, c: char) -> Option<int>
    decreases s.len(),
{
    if s.len() == 0 {
        None
    } else if s[0] == c {
        Some(0)
    } else {
        match find_char(s.drop_first(), c) {
            Some(i) => Some(i + 1),
            None => None,
        }
    }
}

/// Index of the last `c` in `s`, if any.
pub open spec fn rfind_char(s: Seq<char>, c: char) -> Option<int>
    decreases s.len(),
{
    if s.len() == 0 {
        None
    } else if s.last() == c {
        Some(s.len() - 1)
    } else {
        rfind_char(s.drop_last(), c)
    }
}

/// How many times `c` occurs in `s`.
pub open spec fn count_char(s: Seq<char>, c: char) -> nat
    decreases s.len(),
{
    if s.len() == 0 {
        0
    } else {
        count_char(s.drop_last(), c) + if s.last() == c { 1nat } else { 0nat }
    }
}

/// `find_char` gives the first occurrence, and `None` only when there is none.
pub proof fn lemma_find_char(s: Seq<char>, c: char)
    ensures
        match find_char(s, c) {
            Some(i) => 0 <= i < s.len() && s[i] == c && forall|j: int| 0 <= j < i ==> s[j] != c,
            None => forall|j: int| 0 <= j < s.len() ==> s[j] != c,
        },
    decreases s.len(),
{
    if s.len() > 0 && s[0] != c {
        lemma_find_char(s.drop_first(), c);
        match find_char(s.drop_first(), c) {
            Some(i) => {
                assert forall|j: int| 0 <= j < i + 1 implies s[j] != c by {
                    if j > 0 {
                        assert(s[j] == s.drop_first()[j - 1]);
                    }
                }
            },
            None => {
                assert forall|j: int| 0 <= j < s.len() implies s[j] != c by {
                    if j > 0 {
                        assert(s[j] == s.drop_first()[j - 1]);
                    }
                }
            },
        }
    }
}

/// `rfind_char` gives the last occurrence, and `None` only when there is none.
pub proof fn lemma_rfind_char(s: Seq<char>, c: char)
    ensures
        match rfind_char(s, c) {
            Some(i) => 0 <= i < s.len() && s[i] == c && forall|j: int| i < j < s.len() ==> s[j] != c,
            None => forall|j: int| 0 <= j < s.len() ==> s[j] != c,
        },
    decreases s.len(),
{
    if s.len() > 0 && s.last() != c {
        lemma_rfind_char(s.drop_last(), c);
        match rfind_char(s.drop_last(), c) {
            Some(i) => {
                assert forall|j: int| i < j < s.len() implies s[j] != c by {
                    if j < s.len() - 1 {
                        assert(s[j] == s.drop_last()[j]);
                    }
                }
            },
            None => {
                assert forall|j: int| 0 <= j < s.len() implies s[j] != c by {
                    if j < s.len() - 1 {
                        assert(s[j] == s.drop_last()[j]);
                    }
                }
            },
        }
    }
}

/// `c` occurs in `s` exactly when its count is positive, and then both
/// `find_char` and `rfind_char` find it.
pub proof fn lemma_count_char(s: Seq<char>, c: char)
    ensures
        count_char(s, c) == 0 <==> forall|j: int| 0 <= j < s.len() ==> s[j] != c,
        count_char(s, c) > 0 ==> find_char(s, c) is Some && rfind_char(s, c) is Some,
    decreases s.len(),
{
    lemma_find_char(s, c);
    lemma_rfind_char(s, c);
    if s.len() > 0 {
        lemma_count_char(s.drop_last(), c);
        if s.last() != c {
            assert forall|j: int| 0 <= j < s.len() && (forall|k: int| 0 <= k < s.drop_last().len() ==> s.drop_last()[k] != c) implies s[j] != c by {
                if j < s.len() - 1 {
                    assert(s[j] == s.drop_last()[j]);
                }
            }
            assert((forall|j: int| 0 <= j < s.len() ==> s[j] != c) ==> (forall|k: int| 0 <= k < s.drop_last().len() ==> s.drop_last()[k] != c)) by {
                if forall|j: int| 0 <= j < s.len() ==> s[j] != c {
                    assert forall|k: int| 0 <= k < s.drop_last().len() implies s.drop_last()[k] != c by {
                        assert(s.drop_last()[k] == s[k]);
                    }
                }
            }
        }
    }
}

/// With two or more occurrences, the first comes before the last.
pub proof fn lemma_count_two(s: Seq<char>, c: char)
    requires
        count_char(s, c) >= 2,
    ensures
        find_char(s, c).unwrap() < rfind_char(s, c).unwrap(),
    decreases s.len(),
{
    lemma_find_char(s, c);
    lemma_rfind_char(s, c);
    lemma_count_char(s.drop_last(), c);
    lemma_find_char(s.drop_last(), c);
    if s.last() == c {
        let k = find_char(s.drop_last(), c).unwrap();
        assert(s[k] == s.drop_last()[k]);
    } else {
        lemma_count_two(s.drop_last(), c);
        lemma_rfind_char(s.drop_last(), c);
        let k = find_char(s.drop_last(), c).unwrap();
        let m = rfind_char(s.drop_last(), c).unwrap();
        assert(s[k] == s.drop_last()[k]);
        assert(s[m] == s.drop_last()[m]);
    }
}

/// `s` holds no `c`.
pub open spec fn lacks(s: Seq<char>, c: char) -> bool {
    forall|i: int| 0 <= i < s.len() ==> s[i] != c
}

/// Counting in a concatenation adds the counts of its parts.
pub proof fn lemma_count_concat(a: Seq<char>, b: Seq<char>, c: char)
    ensures
        count_char(a + b, c) == count_char(a, c) + count_char(b, c),
    decreases b.len(),
{
    if b.len() == 0 {
        assert(a + b =~= a);
    } else {
        lemma_count_concat(a, b.drop_last(), c);
        assert((a + b).drop_last() =~= a + b.drop_last());
        assert((a + b).last() == b.last());
    }
}

/// A text without `c` counts no `c`.
pub proof fn lemma_count_lacking(a: Seq<char>, c: char)
    requires
        lacks(a, c),
    ensures
        count_char(a, c) == 0,
{
    lemma_count_char(a, c);
}

/// The first `c` of `a + b`, when `a` has none and `b` starts with one, is
/// where `b` starts.
pub proof fn lemma_find_after(a: Seq<char>, b: Seq<char>, c: char)
    requires
        lacks(a, c),
        b.len() > 0,
        b[0] == c,
    ensures
        find_char(a + b, c) == Some(a.len() as int),
{
    let s = a + b;
    lemma_find_char(s, c);
    assert(s[a.len() as int] == c);
    match find_char(s, c) {
        Some(i) => {
            if i < a.len() {
                assert(s[i] == a[i]);
            }
        },
        None => {},
    }
}

/// The last `c` of `a + b`, when `a` ends with one and `b` has none, is the
/// last character of `a`.
pub proof fn lemma_rfind_before(a: Seq<char>, b: Seq<char>, c: char)
    requires
        a.len() > 0,
        a[a.len() - 1] == c,
        lacks(b, c),
    ensures
        rfind_char(a + b, c) == Some(a.len() - 1),
{
    let s = a + b;
    lemma_rfind_char(s, c);
    assert(s[a.len() - 1] == c);
    match rfind_char(s, c) {
        Some(i) => {
            if i >= a.len() {
                assert(s[i] == b[i - a.len()]);
            }
        },
        None => {},
    }
}

/// First index of `c` in `v`, as `str::find` with a `char` pattern finds it.
pub fn find_in(v: &Vec<char>, c: char) -> (r: Option<usize>)
    ensures
        match r {
            Some(i) => i < v.len() && find_char(v@, c) == Some(i as int),
            None => find_char(v@, c) is None,
        },
{
    proof {
        lemma_find_char(v@, c);
    }
    let mut i: usize = 0;
    while i < v.len()
        invariant
            i <= v.len(),
            forall|j: int| 0 <= j < i ==> v@[j] != c,
        decreases v.len() - i,
    {
        if v[i] == c {
            proof {
                lemma_find_char(v@, c);
            }
            return Some(i);
        }
        i = i + 1;
    }
    None
}

/// Last index of `c` in `v`, as `str::rfind` with a `char` pattern finds it.
pub fn rfind_in(v: &Vec<char>, c: char) -> (r: Option<usize>)
    ensures
        match r {
            Some(i) => i < v.len() && rfind_char(v@, c) == Some(i as int),
            None => rfind_char(v@, c) is None,
        },
{
    proof {
        lemma_rfind_char(v@, c);
    }
    let mut i: usize = v.len();
    while i > 0
        invariant
            i <= v.len(),
            forall|j: int| i <= j < v.len() ==> v@[j] != c,
        decreases i,
    {
        if v[i - 1] == c {
            proof {
                lemma_rfind_char(v@, c);
            }
            return Some(i - 1);
        }
        i = i - 1;
    }
    None
}

/// How many times `c` occurs in `v`.
pub fn count_in(v: &Vec<char>, c: char) -> (n: usize)
    ensures
        n == count_char(v@, c),
{
    let mut n: usize = 0;
    let mut i: usize = 0;
    while i < v.len()
        invariant
            i <= v.len(),
            n == count_char(v@.take(i as int), c),
            n <= i,
        decreases v.len() - i,
    {
        assert(v@.take(i + 1).drop_last() == v@.take(i as int));
        if v[i] == c {
            n = n + 1;
        }
        i = i + 1;
    }
    assert(v@.take(v.len() as int) == v@);
    n
}

/// The characters of `v` from `from` up to, not including, `to`.
pub fn slice_of(v: &Vec<char>, from: usize, to: usize) -> (r: Vec<char>)
    requires
        from <= to <= v.len(),
    ensures
        r@ == v@.subrange(from as int, to as int),
{
    let mut r: Vec<char> = Vec::new();
    let mut i: usize = from;
    while i < to
        invariant
            from <= i <= to <= v.len(),
            r@ == v@.subrange(from as int, i as int),
        decreases to - i,
    {
        r.push(v[i]);
        assert(v@.subrange(from as int, i + 1) == v@.subrange(from as int, i as int).push(v@[i as int]));
        i = i + 1;
    }
    r
}

/// `a` and `b` hold the same characters.
pub fn same_text(a: &str, b: &str) -> (r: bool)
    ensures
        r == (a@ == b@),
{
    let x = chars_of(a);
    let y = chars_of(b);
    same_chars(&x, &y)
}

/// `x` and `y` hold the same characters.
pub fn same_chars(x: &Vec<char>, y: &Vec<char>) -> (r: bool)
    ensures
        r == (x@ == y@),
{
    if x.len() != y.len() {
        return false;
    }
    let mut i: usize = 0;
    while i < x.len()
        invariant
            x.len() == y.len(),
            i <= x.len(),
            forall|j: int| 0 <= j < i ==> x@[j] == y@[j],
        decreases x.len() - i,
    {
        if x[i] != y[i] {
            return false;
        }
        i = i + 1;
    }
    assert(x@ =~= y@);
    true
}

/// `p` occurs in `s` starting at index `i`.
pub open spec fn occurs_at(s: Seq<char>, p: Seq<char>, i: int) -> bool {
    0 <= i && i + p.len() <= s.len() && s.subrange(i, i + p.len()) == p
}

/// `p` occurs somewhere in `s`, as `str::contains` tests it.
pub open spec fn contains_text(s: Seq<char>, p: Seq<char>) -> bool {
    exists|i: int| occurs_at(s, p, i)
}

fn occurs_at_exec(s: &Vec<char>, p: &Vec<char>, i: usize) -> (r: bool)
    requires
        i <= s.len(),
    ensures
        r == occurs_at(s@, p@, i as int),
{
    if p.len() > s.len() - i {
        return false;
    }
    let mut j: usize = 0;
    while j < p.len()
        invariant
            i + p.len() <= s.len(),
            j <= p.len(),
            forall|k: int| 0 <= k < j ==> s@[i + k] == p@[k],
        decreases p.len() - j,
    {
        if s[i + j] != p[j] {
            assert(s@.subrange(i as int, i + p.len())[j as int] != p@[j as int]);
            return false;
        }
        j = j + 1;
    }
    assert(s@.subrange(i as int, i + p.len()) =~= p@);
    true
}

/// Whether `p` occurs in `s`.
pub fn contains_chars(s: &Vec<char>, p: &Vec<char>) -> (r: bool)
    ensures
        r == contains_text(s@, p@),
{
    let mut i: usize = 0;
    while i < s.len()
        invariant
            i <= s.len(),
            forall|k: int| 0 <= k < i ==> !occurs_at(s@, p@, k),
        decreases s.len() - i,
    {
        if occurs_at_exec(s, p, i) {
            return true;
        }
        i = i + 1;
    }
    if occurs_at_exec(s, p, i) {
        return true;
    }
    assert forall|k: int| !occurs_at(s@, p@, k) by {
        if 0 <= k <= i {
        } else {
            assert(!(k >= 0 && k + p@.len() <= s@.len() && k > s@.len()));
        }
    }
    false
}

/// `s` with every occurrence of `from` replaced by `to`, scanning from the
/// left and never reusing replaced characters: what `str::replace` gives
/// for a nonempty pattern.
pub open spec fn replace_all(s: Seq<char>, from: Seq<char>, to: Seq<char>) -> Seq<char>
    recommends
        from.len() > 0,
    decreases s.len(),
{
    if from.len() == 0 || s.len() < from.len() {
        s
    } else if s.subrange(0, from.len() as int) == from {
        to + replace_all(s.subrange(from.len() as int, s.len() as int), from, to)
    } else {
        seq![s[0]] + replace_all(s.subrange(1, s.len() as int), from, to)
    }
}

/// Replaces every occurrence of `from` in `s` by `to`, as `str::replace` does.
pub fn replace_chars(s: &Vec<char>, from: &Vec<char>, to: &Vec<char>) -> (r: Vec<char>)
    requires
        from.len() > 0,
    ensures
        r@ == replace_all(s@, from@, to@),
{
    let n = s.len();
    let mut out: Vec<char> = Vec::new();
    let mut i: usize = 0;
    assert(s@.subrange(0, n as int) == s@);
    while i < n
        invariant
            n == s.len(),
            i <= n,
            from.len() > 0,
            replace_all(s@, from@, to@) == out@ + replace_all(s@.subrange(i as int, n as int), from@, to@),
        decreases n - i,
    {
        let ghost rest = s@.subrange(i as int, n as int);
        if occurs_at_exec(s, from, i) {
            assert(rest.subrange(0, from.len() as int) =~= s@.subrange(i as int, i + from.len()));
            assert(rest.subrange(from.len() as int, rest.len() as int) =~= s@.subrange(i + from.len(), n as int));
            let mut j: usize = 0;
            let ghost before = out@;
            while j < to.len()
                invariant
                    j <= to.len(),
                    out@ == before + to@.subrange(0, j as int),
                decreases to.len() - j,
            {
                out.push(to[j]);
                assert(to@.subrange(0, j + 1) == to@.subrange(0, j as int).push(to@[j as int]));
                assert(out@ =~= before + to@.subrange(0, j + 1));
                j = j + 1;
            }
            assert(to@.subrange(0, to.len() as int) == to@);
            assert(out@ + replace_all(s@.subrange(i + from.len(), n as int), from@, to@) =~= before
                + (to@ + replace_all(s@.subrange(i + from.len(), n as int), from@, to@)));
            i = i + from.len();
        } else {
            if n - i >= from.len() {
                assert(rest.subrange(0, from.len() as int) =~= s@.subrange(i as int, i + from.len()));
                assert(rest.subrange(1, rest.len() as int) =~= s@.subrange(i + 1, n as int));
                assert(out@.push(s@[i as int]) + replace_all(s@.subrange(i + 1, n as int), from@, to@)
                    =~= out@ + (seq![rest[0]] + replace_all(rest.subrange(1, rest.len() as int), from@, to@)));
                out.push(s[i]);
                i = i + 1;
            } else {
                let ghost before = out@;
                let mut k: usize = i;
                while k < n
                    invariant
                        i <= k <= n,
                        n == s.len(),
                        out@ == before + s@.subrange(i as int, k as int),
                    decreases n - k,
                {
                    out.push(s[k]);
                    assert(s@.subrange(i as int, k + 1) == s@.subrange(i as int, k as int).push(s@[k as int]));
                    assert(out@ =~= before + s@.subrange(i as int, k + 1));
                    k = k + 1;
                }
                assert(s@.subrange(n as int, n as int) =~= Seq::<char>::empty());
                assert(replace_all(Seq::<char>::empty(), from@, to@) == Seq::<char>::empty());
                assert(out@ + replace_all(s@.subrange(n as int, n as int), from@, to@) =~= out@);
                i = n;
            }
        }
    }
    assert(s@.subrange(n as int, n as int) =~= Seq::<char>::empty());
    assert(replace_all(Seq::<char>::empty(), from@, to@) == Seq::<char>::empty());
    assert(out@ + Seq::<char>::empty() =~= out@);
    out
}

proof fn lemma_replace_absent(s: Seq<char>, from: Seq<char>, to: Seq<char>)
    requires
        from.len() > 0,
        !contains_text(s, from),
    ensures
        replace_all(s, from, to) == s,
    decreases s.len(),
{
    if s.len() >= from.len() {
        assert(!occurs_at(s, from, 0));
        let t = s.subrange(1, s.len() as int);
        assert forall|i: int| !occurs_at(t, from, i) by {
            if occurs_at(t, from, i) {
                assert(t.subrange(i, i + from.len()) =~= s.subrange(i + 1, i + 1 + from.len()));
                assert(occurs_at(s, from, i + 1));
            }
        }
        lemma_replace_absent(t, from, to);
        assert(seq![s[0]] + t =~= s);
    }
}

/// No occurrence of `from` can start inside `a`, whatever follows it: from
/// each position of `a`, some character of `a` differs from `from`.
pub open spec fn no_match_in(a: Seq<char>, from: Seq<char>) -> bool {
    forall|i: int| 0 <= i < a.len() ==> #[trigger] differs_at(a, from, i)
}

/// Some character of `a` from position `i` on differs from `from`.
pub open spec fn differs_at(a: Seq<char>, from: Seq<char>, i: int) -> bool {
    exists|j: int| 0 <= j < from.len() && i + j < a.len() && a[i + j] != #[trigger] from[j]
}

/// A text without `c` has no match of a pattern that starts with `c`.
pub proof fn lemma_no_match_without_char(a: Seq<char>, from: Seq<char>, c: char)
    requires
        from.len() > 0,
        from[0] == c,
        forall|i: int| 0 <= i < a.len() ==> a[i] != c,
    ensures
        no_match_in(a, from),
{
    assert forall|i: int| 0 <= i < a.len() implies #[trigger] differs_at(a, from, i) by {
        assert(a[i + 0] != from[0]);
    }
}

/// Where no match of `from` starts inside `a`, replacing in `a + b` leaves
/// `a` as it is and replaces in `b`.
pub proof fn lemma_replace_keeps_prefix(a: Seq<char>, b: Seq<char>, from: Seq<char>, to: Seq<char>)
    requires
        from.len() > 0,
        no_match_in(a, from),
    ensures
        replace_all(a + b, from, to) == a + replace_all(b, from, to),
    decreases a.len(),
{
    let s = a + b;
    if a.len() == 0 {
        assert(s =~= b);
    } else if s.len() < from.len() {
        assert(a + b =~= s);
    } else {
        assert(differs_at(a, from, 0));
        let j = choose|j: int| 0 <= j < from.len() && 0 + j < a.len() && a[0 + j] != #[trigger] from[j];
        assert(s.subrange(0, from.len() as int)[j] == a[j]);
        assert(s.subrange(0, from.len() as int) != from);
        let a1 = a.subrange(1, a.len() as int);
        assert(s.subrange(1, s.len() as int) =~= a1 + b);
        assert forall|i: int| 0 <= i < a1.len() implies #[trigger] differs_at(a1, from, i) by {
            assert(differs_at(a, from, i + 1));
            let k = choose|k: int| 0 <= k < from.len() && (i + 1) + k < a.len() && a[(i + 1) + k] != #[trigger] from[k];
            assert(a1[i + k] == a[(i + 1) + k]);
        }
        lemma_replace_keeps_prefix(a1, b, from, to);
        assert(seq![s[0]] + (a1 + replace_all(b, from, to)) =~= a + replace_all(b, from, to));
    }
}

/// A text that starts with the pattern starts, once replaced, with the
/// replacement, and the rest is replaced in turn.
pub proof fn lemma_replace_front(b: Seq<char>, from: Seq<char>, to: Seq<char>)
    requires
        from.len() > 0,
    ensures
        replace_all(from + b, from, to) == to + replace_all(b, from, to),
{
    let s = from + b;
    assert(s.subrange(0, from.len() as int) =~= from);
    assert(s.subrange(from.len() as int, s.len() as int) =~= b);
}

/// Replacing a pattern that does not occur changes nothing.
pub proof fn law_replace_without_occurrence(s: Seq<char>, from: Seq<char>, to: Seq<char>)
    requires
        from.len() > 0,
        !contains_text(s, from),
    ensures
        replace_all(s, from, to) == s,
{
    lemma_replace_absent(s, from, to);
}

/// Replacing a pattern by itself changes nothing.
pub proof fn law_replace_by_itself(s: Seq<char>, p: Seq<char>)
    requires
        p.len() > 0,
    ensures
        replace_all(s, p, p) == s,
    decreases s.len(),
{
    if s.len() >= p.len() {
        if s.subrange(0, p.len() as int) == p {
            law_replace_by_itself(s.subrange(p.len() as int, s.len() as int), p);
            assert(p + s.subrange(p.len() as int, s.len() as int) =~= s);
        } else {
            law_replace_by_itself(s.subrange(1, s.len() as int), p);
            assert(seq![s[0]] + s.subrange(1, s.len() as int) =~= s);
        }
    }
}

} // verus!
