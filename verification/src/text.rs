//! Small verified string utilities: equality, trimming and splitting at a
//! separator character, with the meaning of the corresponding `str` methods.
use vstd::prelude::*;

verus! {

/// `s` without its leading copies of `c`.
pub open spec fn trim_start_char(s: Seq<char>, c: char) -> Seq<char>
    decreases s.len(),
{
    if s.len() > 0 && s[0] == c {
        trim_start_char(s.drop_first(), c)
    } else {
        s
    }
}

/// `s` without its trailing copies of `c`.
pub open spec fn trim_end_char(s: Seq<char>, c: char) -> Seq<char>
    decreases s.len(),
{
    if s.len() > 0 && s.last() == c {
        trim_end_char(s.drop_last(), c)
    } else {
        s
    }
}

/// `s` without leading and trailing copies of `c` (what `str::trim_matches`
/// does with a character).
pub open spec fn trim_char(s: Seq<char>, c: char) -> Seq<char> {
    trim_end_char(trim_start_char(s, c), c)
}

/// The pieces of `s` between the occurrences of `c`, in order (what
/// `str::split` does with a character): one more piece than there are
/// separators, an empty string giving one empty piece.
pub open spec fn split_char(s: Seq<char>, c: char) -> Seq<Seq<char>>
    decreases s.len(),
{
    if s.len() == 0 {
        seq![Seq::<char>::empty()]
    } else {
        let r = split_char(s.drop_last(), c);
        if s.last() == c {
            r.push(Seq::<char>::empty())
        } else {
            r.update(r.len() - 1, r.last().push(s.last()))
        }
    }
}

pub proof fn lemma_split_nonempty(s: Seq<char>, c: char)
    ensures
        split_char(s, c).len() >= 1,
    decreases s.len(),
{
    if s.len() > 0 {
        lemma_split_nonempty(s.drop_last(), c);
    }
}

/// The pieces joined again, with `c` between each two.
pub open spec fn join_with(pieces: Seq<Seq<char>>, c: char) -> Seq<char>
    decreases pieces.len(),
{
    if pieces.len() == 0 {
        seq![]
    } else if pieces.len() == 1 {
        pieces[0]
    } else {
        join_with(pieces.drop_last(), c) + seq![c] + pieces.last()
    }
}

proof fn lemma_join_extend_last(ps: Seq<Seq<char>>, c: char, x: char)
    requires
        ps.len() >= 1,
    ensures
        join_with(ps.update(ps.len() - 1, ps.last().push(x)), c) == join_with(ps, c).push(x),
{
    let q = ps.update(ps.len() - 1, ps.last().push(x));
    if ps.len() == 1 {
        assert(q[0] == ps[0].push(x));
    } else {
        assert(q.drop_last() =~= ps.drop_last());
        assert(q.last() == ps.last().push(x));
        assert(join_with(ps.drop_last(), c) + seq![c] + ps.last().push(x)
            =~= (join_with(ps.drop_last(), c) + seq![c] + ps.last()).push(x));
    }
}

/// Law: splitting at `c` loses nothing and keeps no separator: joining the
/// pieces with `c` gives `s` back, and no piece holds `c`.
pub proof fn law_split_char(s: Seq<char>, c: char)
    ensures
        split_char(s, c).len() >= 1,
        join_with(split_char(s, c), c) == s,
        forall|p: int, k: int| 0 <= p < split_char(s, c).len() && 0 <= k < split_char(s, c)[p].len()
            ==> split_char(s, c)[p][k] != c,
    decreases s.len(),
{
    if s.len() == 0 {
        assert(join_with(seq![Seq::<char>::empty()], c) == Seq::<char>::empty());
    } else {
        let r = split_char(s.drop_last(), c);
        law_split_char(s.drop_last(), c);
        let x = s.last();
        assert(s.drop_last().push(x) =~= s);
        if x == c {
            let q = r.push(Seq::<char>::empty());
            assert(q.drop_last() =~= r);
            assert(join_with(q, c) == join_with(r, c) + seq![c] + Seq::<char>::empty());
            assert(join_with(r, c) + seq![c] + Seq::<char>::empty() =~= s);
            assert forall|p: int, k: int| 0 <= p < q.len() && 0 <= k < q[p].len() implies q[p][k] != c by {
                assert(q[p] == r[p]);
            }
        } else {
            let q = r.update(r.len() - 1, r.last().push(x));
            lemma_join_extend_last(r, c, x);
            assert forall|p: int, k: int| 0 <= p < q.len() && 0 <= k < q[p].len() implies q[p][k] != c by {
                if p < r.len() - 1 {
                    assert(q[p] == r[p]);
                } else {
                    assert(q[p] == r.last().push(x));
                    if k < r.last().len() {
                        assert(q[p][k] == r[r.len() - 1][k]);
                    }
                }
            }
        }
    }
}

/// A text without `c` splits into itself alone.
pub proof fn lemma_split_without_sep(s: Seq<char>, c: char)
    requires
        forall|k: int| 0 <= k < s.len() ==> s[k] != c,
    ensures
        split_char(s, c) == seq![s],
    decreases s.len(),
{
    if s.len() == 0 {
        assert(s =~= Seq::<char>::empty());
    } else {
        lemma_split_without_sep(s.drop_last(), c);
        assert(s.last() != c);
        assert(s.drop_last().push(s.last()) =~= s);
        assert(seq![s.drop_last()].update(0, s.drop_last().push(s.last())) =~= seq![s]);
    }
}

/// Splitting two texts joined by the separator gives the pieces of the
/// first followed by the pieces of the second.
pub proof fn lemma_split_joined(a: Seq<char>, b: Seq<char>, c: char)
    ensures
        split_char(a + seq![c] + b, c) == split_char(a, c) + split_char(b, c),
    decreases b.len(),
{
    let x = a + seq![c] + b;
    if b.len() == 0 {
        assert(x =~= a.push(c));
        assert(x.drop_last() =~= a);
        assert(split_char(a, c).push(Seq::<char>::empty()) =~= split_char(a, c) + seq![Seq::<char>::empty()]);
    } else {
        assert(x.drop_last() =~= a + seq![c] + b.drop_last());
        assert(x.last() == b.last());
        lemma_split_joined(a, b.drop_last(), c);
        lemma_split_nonempty(b.drop_last(), c);
        let ra = split_char(a, c);
        let rb = split_char(b.drop_last(), c);
        let r = ra + rb;
        if b.last() == c {
            assert(r.push(Seq::<char>::empty()) =~= ra + rb.push(Seq::<char>::empty()));
        } else {
            assert(r.last() == rb.last());
            assert(r.update(r.len() - 1, r.last().push(x.last())) =~= ra + rb.update(rb.len() - 1, rb.last().push(b.last())));
        }
    }
}

/// A text that neither starts nor ends with `c` is its own trim.
pub proof fn lemma_trim_untouched(s: Seq<char>, c: char)
    requires
        s.len() > 0,
        s[0] != c,
        s.last() != c,
    ensures
        trim_char(s, c) == s,
{
}

/// Whether two strings hold the same characters.
pub fn str_eq(a: &str, b: &str) -> (r: bool)
    ensures
        r == (a@ == b@),
{
    let n = a.unicode_len();
    if n != b.unicode_len() {
        return false;
    }
    let mut i: usize = 0;
    while i < n
        invariant
            n == a@.len(),
            n == b@.len(),
            i <= n,
            forall|j: int| 0 <= j < i ==> a@[j] == b@[j],
        decreases n - i,
    {
        if a.get_char(i) != b.get_char(i) {
            return false;
        }
        i = i + 1;
    }
    assert(a@ =~= b@);
    true
}

proof fn lemma_trim_start_skip(s: Seq<char>, c: char, i: int)
    requires
        0 <= i <= s.len(),
        forall|j: int| 0 <= j < i ==> s[j] == c,
    ensures
        trim_start_char(s, c) == trim_start_char(s.skip(i), c),
    decreases i,
{
    if i > 0 {
        assert(s.drop_first().skip(i - 1) =~= s.skip(i));
        lemma_trim_start_skip(s.drop_first(), c, i - 1);
    } else {
        assert(s.skip(0) =~= s);
    }
}

proof fn lemma_trim_end_take(s: Seq<char>, c: char, i: int)
    requires
        0 <= i <= s.len(),
        forall|j: int| i <= j < s.len() ==> s[j] == c,
    ensures
        trim_end_char(s, c) == trim_end_char(s.take(i), c),
    decreases s.len() - i,
{
    if i < s.len() {
        assert(s.drop_last().take(i) =~= s.take(i));
        lemma_trim_end_take(s.drop_last(), c, i);
    } else {
        assert(s.take(i) =~= s);
    }
}

proof fn lemma_trim_start_index(s: Seq<char>, c: char) -> (i: int)
    ensures
        0 <= i <= s.len(),
        trim_start_char(s, c) == s.skip(i),
        forall|k: int| 0 <= k < i ==> s[k] == c,
        i < s.len() ==> s[i] != c,
    decreases s.len(),
{
    if s.len() > 0 && s[0] == c {
        let i = lemma_trim_start_index(s.drop_first(), c);
        assert(s.drop_first().skip(i) =~= s.skip(i + 1));
        assert forall|k: int| 0 <= k < i + 1 implies s[k] == c by {
            if k > 0 {
                assert(s[k] == s.drop_first()[k - 1]);
            }
        }
        i + 1
    } else {
        assert(s.skip(0) =~= s);
        0
    }
}

proof fn lemma_trim_end_index(s: Seq<char>, c: char) -> (j: int)
    ensures
        0 <= j <= s.len(),
        trim_end_char(s, c) == s.take(j),
        forall|k: int| j <= k < s.len() ==> s[k] == c,
        j > 0 ==> s[j - 1] != c,
    decreases s.len(),
{
    if s.len() > 0 && s.last() == c {
        let j = lemma_trim_end_index(s.drop_last(), c);
        assert(s.drop_last().take(j) =~= s.take(j));
        assert forall|k: int| j <= k < s.len() implies s[k] == c by {
            if k < s.len() - 1 {
                assert(s[k] == s.drop_last()[k]);
            }
        }
        j
    } else {
        assert(s.take(s.len() as int) =~= s);
        s.len() as int
    }
}

/// Law: trimming `c` cuts off exactly the leading and trailing runs of `c`:
/// the result is a contiguous piece of `s`, everything before and after it
/// is `c`, and the result neither starts nor ends with `c`.
pub proof fn law_trim_char(s: Seq<char>, c: char)
    ensures
        exists|i: int, j: int| #![trigger s.subrange(i, j)]
            0 <= i <= j <= s.len() && trim_char(s, c) == s.subrange(i, j)
            && (forall|k: int| 0 <= k < i ==> s[k] == c)
            && (forall|k: int| j <= k < s.len() ==> s[k] == c),
        trim_char(s, c).len() > 0 ==> trim_char(s, c)[0] != c && trim_char(s, c).last() != c,
{
    let i = lemma_trim_start_index(s, c);
    let t = s.skip(i);
    let j = lemma_trim_end_index(t, c);
    assert(t.take(j) =~= s.subrange(i, i + j));
    assert forall|k: int| i + j <= k < s.len() implies s[k] == c by {
        assert(s[k] == t[k - i]);
    }
    if j > 0 {
        assert(trim_char(s, c)[0] == s[i]);
    }
    assert(0 <= i <= i + j <= s.len() && trim_char(s, c) == s.subrange(i, i + j));
}

/// `s` without leading and trailing copies of `c`.
pub fn trim_matches_char<'a>(s: &'a str, c: char) -> (r: &'a str)
    ensures
        r@ == trim_char(s@, c),
{
    let n = s.unicode_len();
    let mut start: usize = 0;
    while start < n && s.get_char(start) == c
        invariant
            n == s@.len(),
            start <= n,
            forall|j: int| 0 <= j < start ==> s@[j] == c,
        decreases n - start,
    {
        start = start + 1;
    }
    proof {
        lemma_trim_start_skip(s@, c, start as int);
    }
    let ghost t = s@.skip(start as int);
    assert(trim_start_char(t, c) == t);
    let mut end: usize = n;
    while end > start && s.get_char(end - 1) == c
        invariant
            n == s@.len(),
            start <= end <= n,
            t == s@.skip(start as int),
            forall|j: int| end - start <= j < t.len() ==> t[j] == c,
        decreases end,
    {
        end = end - 1;
    }
    proof {
        lemma_trim_end_take(t, c, end - start);
        assert(t.take(end - start) =~= s@.subrange(start as int, end as int));
    }
    s.substring_char(start, end)
}

/// The pieces of `s` between the occurrences of `c`.
pub fn split_at_char<'a>(s: &'a str, c: char) -> (r: Vec<&'a str>)
    ensures
        r@.map_values(|p: &str| p@) == split_char(s@, c),
        r@.len() >= 1,
{
    let n = s.unicode_len();
    let mut pieces: Vec<&'a str> = Vec::new();
    let mut start: usize = 0;
    let mut i: usize = 0;
    assert(s@.take(0) =~= Seq::<char>::empty());
    while i < n
        invariant
            n == s@.len(),
            start <= i <= n,
            split_char(s@.take(i as int), c) == pieces@.map_values(|p: &str| p@).push(s@.subrange(start as int, i as int)),
        decreases n - i,
    {
        let ghost prefix = s@.take(i as int);
        let ghost next = s@.take(i + 1);
        proof {
            assert(next.drop_last() =~= prefix);
            assert(next.last() == s@[i as int]);
        }
        if s.get_char(i) == c {
            let ghost prev = split_char(prefix, c);
            let ghost pm = pieces@.map_values(|p: &str| p@);
            let piece = s.substring_char(start, i);
            assert(prev == pm.push(piece@));
            assert(split_char(next, c) == prev.push(Seq::<char>::empty()));
            pieces.push(piece);
            assert(pieces@.map_values(|p: &str| p@) =~= pm.push(piece@));
            start = i + 1;
            i = i + 1;
            assert(s@.subrange(start as int, i as int) =~= Seq::<char>::empty());
        } else {
            let ghost prev = split_char(prefix, c);
            let ghost pm = pieces@.map_values(|p: &str| p@);
            let ghost cur = s@.subrange(start as int, i as int);
            assert(prev == pm.push(cur));
            assert(prev.last() == cur);
            assert(split_char(next, c) == prev.update(prev.len() - 1, prev.last().push(s@[i as int])));
            i = i + 1;
            assert(cur.push(s@[i - 1]) =~= s@.subrange(start as int, i as int));
            assert(prev.update(prev.len() - 1, cur.push(s@[i - 1])) =~= pm.push(s@.subrange(start as int, i as int)));
        }
    }
    let last = s.substring_char(start, n);
    pieces.push(last);
    assert(s@.take(n as int) =~= s@);
    assert(split_char(s@, c) =~= pieces@.map_values(|p: &str| p@));
    pieces
}

/// The Unicode lowercase form of a string, as `str::to_lowercase` gives it.
pub uninterp spec fn lowercase(s: Seq<char>) -> Seq<char>;

pub open spec fn is_ascii_text(s: Seq<char>) -> bool {
    forall|i: int| 0 <= i < s.len() ==> (s[i] as u32) < 128
}

/// ASCII lowercase of one character.
pub open spec fn ascii_lower(c: char) -> char {
    if 'A' <= c && c <= 'Z' {
        ((c as u32) + 32) as char
    } else {
        c
    }
}

/// `str::to_lowercase`: the lowercase form of `s` under Unicode's
/// lowercase mapping. Stated: the result is `lowercase` of the input, and on
/// ASCII text each letter A-Z becomes a-z while other characters stay (the
/// documented ASCII behaviour). Not stated: the mapping of non-ASCII text.
#[verifier::external_body]
pub(crate) fn to_lowercase(s: &str) -> (r: String)
    ensures
        r@ == lowercase(s@),
        is_ascii_text(s@) ==> r@ == s@.map_values(|c: char| ascii_lower(c)),
{
    s.to_lowercase()
}

} // verus!
