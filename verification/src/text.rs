//! Text primitives over `Seq<char>`: searching, splitting, joining, trimming.
use vstd::prelude::*;

verus! {

/// What a text says, where there is one.
pub open spec fn str_view(s: Option<&str>) -> Option<Seq<char>> {
    match s {
        Some(content) => Some(content@),
        None => None,
    }
}

/// What a string says, where there is one.
pub open spec fn string_view(s: Option<String>) -> Option<Seq<char>> {
    match s {
        Some(content) => Some(content@),
        None => None,
    }
}

/// What a list of texts holds.
pub open spec fn views(parts: Seq<&str>) -> Seq<Seq<char>> {
    parts.map_values(|p: &str| p@)
}

/// What a list of strings holds.
pub open spec fn string_views(parts: Seq<String>) -> Seq<Seq<char>> {
    parts.map_values(|p: String| p@)
}

/// `pat` is a prefix of `s`.
pub open spec fn begins(s: Seq<char>, pat: Seq<char>) -> bool {
    pat.len() <= s.len() && s.take(pat.len() as int) == pat
}

/// `pat` is a suffix of `s`.
pub open spec fn ends(s: Seq<char>, pat: Seq<char>) -> bool {
    pat.len() <= s.len() && s.skip(s.len() - pat.len()) == pat
}

/// Position of the first occurrence of `pat` in `s`.
pub open spec fn find(s: Seq<char>, pat: Seq<char>) -> Option<int>
    decreases s.len(),
{
    if begins(s, pat) {
        Some(0)
    } else if s.len() == 0 {
        None
    } else {
        match find(s.skip(1), pat) {
            Some(i) => Some(i + 1),
            None => None,
        }
    }
}

/// `pat` occurs somewhere in `s`.
pub open spec fn holds(s: Seq<char>, pat: Seq<char>) -> bool {
    find(s, pat) is Some
}

/// The text before and after the first occurrence of `pat`.
pub open spec fn cut(s: Seq<char>, pat: Seq<char>) -> Option<(Seq<char>, Seq<char>)> {
    match find(s, pat) {
        Some(i) => Some((s.take(i), s.skip(i + pat.len()))),
        None => None,
    }
}

/// The pieces of `s` between the non-overlapping occurrences of `pat`, taken from the left.
pub open spec fn pieces(s: Seq<char>, pat: Seq<char>) -> Seq<Seq<char>>
    decreases s.len(),
{
    match find(s, pat) {
        Some(i) if 0 <= i && pat.len() > 0 && i + pat.len() <= s.len() => seq![s.take(i)] + pieces(
            s.skip(i + pat.len()),
            pat,
        ),
        _ => seq![s],
    }
}

/// `parts` one after the other with `sep` between neighbours.
pub open spec fn joined(parts: Seq<Seq<char>>, sep: Seq<char>) -> Seq<char>
    decreases parts.len(),
{
    if parts.len() == 0 {
        Seq::empty()
    } else if parts.len() == 1 {
        parts[0]
    } else {
        joined(parts.drop_last(), sep) + sep + parts.last()
    }
}

/// `s` with every occurrence of `pat` (non-overlapping, from the left) replaced by `with`.
pub open spec fn replaced(s: Seq<char>, pat: Seq<char>, with: Seq<char>) -> Seq<char> {
    joined(pieces(s, pat), with)
}

/// How many times `c` occurs in `s`.
pub open spec fn count_of(s: Seq<char>, c: char) -> nat
    decreases s.len(),
{
    if s.len() == 0 {
        0
    } else {
        count_of(s.drop_last(), c) + (if s.last() == c {
            1nat
        } else {
            0nat
        })
    }
}

/// Position of the last `c` in `s`; -1 where there is none.
pub open spec fn last_index(s: Seq<char>, c: char) -> int
    decreases s.len(),
{
    if s.len() == 0 {
        -1
    } else if s.last() == c {
        s.len() - 1
    } else {
        last_index(s.drop_last(), c)
    }
}

/// The characters with the Unicode property `White_Space`.
pub open spec fn is_space(c: char) -> bool {
    ||| '\u{9}' <= c <= '\u{d}'
    ||| c == ' '
    ||| c == '\u{85}'
    ||| c == '\u{a0}'
    ||| c == '\u{1680}'
    ||| '\u{2000}' <= c <= '\u{200a}'
    ||| c == '\u{2028}'
    ||| c == '\u{2029}'
    ||| c == '\u{202f}'
    ||| c == '\u{205f}'
    ||| c == '\u{3000}'
}

/// `s` without its leading white space.
pub open spec fn trimmed_start(s: Seq<char>) -> Seq<char>
    decreases s.len(),
{
    if s.len() > 0 && is_space(s[0]) {
        trimmed_start(s.skip(1))
    } else {
        s
    }
}

/// `s` without its trailing white space.
pub open spec fn trimmed_end(s: Seq<char>) -> Seq<char>
    decreases s.len(),
{
    if s.len() > 0 && is_space(s.last()) {
        trimmed_end(s.drop_last())
    } else {
        s
    }
}

/// `s` without leading and trailing white space.
pub open spec fn trimmed(s: Seq<char>) -> Seq<char> {
    trimmed_end(trimmed_start(s))
}

/// Where an occurrence found by `find` lies.
pub proof fn lemma_find_bounds(s: Seq<char>, pat: Seq<char>)
    ensures
        find(s, pat) matches Some(i) ==> 0 <= i && i + pat.len() <= s.len() && s.subrange(
            i,
            i + pat.len(),
        ) == pat,
    decreases s.len(),
{
    if begins(s, pat) {
        assert(s.subrange(0, pat.len() as int) =~= s.take(pat.len() as int));
    } else if s.len() > 0 {
        lemma_find_bounds(s.skip(1), pat);
        if let Some(i) = find(s.skip(1), pat) {
            assert(s.subrange(i + 1, i + 1 + pat.len()) =~= s.skip(1).subrange(i, i + pat.len()));
        }
    }
}

/// The occurrence found by `find` is the first one.
pub proof fn lemma_find_first(s: Seq<char>, pat: Seq<char>, j: int)
    requires
        0 <= j <= s.len(),
        find(s, pat) matches Some(i) ==> j < i,
    ensures
        !begins(s.skip(j), pat),
    decreases s.len(),
{
    assert(s.skip(0) =~= s);
    if j > 0 && !begins(s, pat) {
        lemma_find_first(s.skip(1), pat, j - 1);
        assert(s.skip(1).skip(j - 1) =~= s.skip(j));
    }
}

/// An occurrence that none comes before is the one that `find` gives.
pub proof fn lemma_find_is(s: Seq<char>, pat: Seq<char>, i: int)
    requires
        0 <= i <= s.len(),
        begins(s.skip(i), pat),
        forall|j: int| 0 <= j < i ==> !begins(#[trigger] s.skip(j), pat),
    ensures
        find(s, pat) == Some(i),
    decreases s.len(),
{
    assert(s.skip(0) =~= s);
    if i > 0 {
        let rest = s.skip(1);
        assert(rest.skip(i - 1) =~= s.skip(i));
        assert forall|j: int| 0 <= j < i - 1 implies !begins(#[trigger] rest.skip(j), pat) by {
            assert(rest.skip(j) =~= s.skip(j + 1));
        }
        lemma_find_is(rest, pat, i - 1);
    }
}

/// Replacing all of a text leaves what stands in its place.
pub proof fn lemma_replaced_whole(s: Seq<char>, with: Seq<char>)
    requires
        s.len() > 0,
    ensures
        replaced(s, s, with) == with,
{
    let nothing = Seq::<char>::empty();
    assert(s.skip(s.len() as int) =~= nothing);
    assert(s.take(0) =~= nothing);
    assert(begins(s, s)) by {
        assert(s.take(s.len() as int) =~= s);
    }
    lemma_find_bounds(nothing, s);
    assert(pieces(nothing, s) =~= seq![nothing]);
    assert(pieces(s, s) =~= seq![nothing, nothing]);
    assert(seq![nothing, nothing].drop_last() =~= seq![nothing]);
    assert(joined(seq![nothing], with) =~= nothing);
    assert(joined(seq![nothing, nothing], with) =~= with);
}

/// Where a text ends at its first separator, the separator and what follows can be split off.
pub proof fn lemma_pieces_head(head: Seq<char>, pat: Seq<char>, tail: Seq<char>)
    requires
        pat.len() > 0,
        find(head + pat, pat) == Some(head.len() as int),
    ensures
        pieces(head + pat + tail, pat) == seq![head] + pieces(tail, pat),
{
    let s = head + pat + tail;
    let n = head.len() as int;
    assert(s.skip(n).take(pat.len() as int) =~= pat);
    assert forall|j: int| 0 <= j < n implies !begins(#[trigger] s.skip(j), pat) by {
        lemma_find_first(head + pat, pat, j);
        assert((head + pat).skip(j).take(pat.len() as int) =~= s.skip(j).take(pat.len() as int));
    }
    lemma_find_is(s, pat, n);
    assert(s.take(n) =~= head);
    assert(s.skip(n + pat.len()) =~= tail);
}

/// A separator of one character splits a text in two wherever it stands.
pub proof fn lemma_pieces_concat(a: Seq<char>, pat: Seq<char>, b: Seq<char>)
    requires
        pat.len() == 1,
    ensures
        pieces(a + pat + b, pat) == pieces(a, pat) + pieces(b, pat),
    decreases a.len(),
{
    lemma_find_bounds(a, pat);
    match find(a, pat) {
        Some(i) => {
            let head = a.take(i);
            let rest = a.skip(i + 1);
            assert(a =~= head + pat + rest) by {
                assert(a.subrange(i, i + 1) =~= pat);
                assert(a[i] == a.subrange(i, i + 1)[0]);
            }
            assert forall|j: int| 0 <= j < i implies !begins(
                #[trigger] (head + pat).skip(j),
                pat,
            ) by {
                lemma_find_first(a, pat, j);
                assert((head + pat).skip(j).take(1) =~= a.skip(j).take(1));
            }
            assert((head + pat).skip(i) =~= pat);
            assert(pat.take(1) =~= pat);
            lemma_find_is(head + pat, pat, i);
            lemma_pieces_concat(rest, pat, b);
            assert(a + pat + b =~= head + pat + (rest + pat + b));
            lemma_pieces_head(head, pat, rest + pat + b);
            assert(seq![head] + (pieces(rest, pat) + pieces(b, pat)) =~= (seq![head] + pieces(
                rest,
                pat,
            )) + pieces(b, pat));
        },
        None => {
            let n = a.len() as int;
            assert forall|j: int| 0 <= j < n implies !begins(#[trigger] (a + pat).skip(j), pat) by {
                lemma_find_first(a, pat, j);
                assert((a + pat).skip(j).take(1) =~= a.skip(j).take(1));
            }
            assert((a + pat).skip(n) =~= pat);
            assert(pat.take(1) =~= pat);
            lemma_find_is(a + pat, pat, n);
            lemma_pieces_head(a, pat, b);
        },
    }
}

/// No piece holds the separator.
pub proof fn lemma_pieces_free(s: Seq<char>, pat: Seq<char>)
    requires
        pat.len() == 1,
    ensures
        forall|k: int|
            0 <= k < pieces(s, pat).len() ==> !(#[trigger] pieces(s, pat)[k]).contains(pat[0]),
    decreases s.len(),
{
    lemma_find_bounds(s, pat);
    let until = match find(s, pat) {
        Some(i) => i,
        None => s.len() as int,
    };
    assert forall|j: int| 0 <= j < until implies s[j] != pat[0] by {
        lemma_find_first(s, pat, j);
        if s[j] == pat[0] {
            assert(s.skip(j).take(1) =~= pat);
        }
    }
    let all = pieces(s, pat);
    if find(s, pat) is Some {
        let rest = pieces(s.skip(until + 1), pat);
        lemma_pieces_free(s.skip(until + 1), pat);
        assert(all =~= seq![s.take(until)] + rest);
        assert forall|k: int| 0 <= k < all.len() implies !(#[trigger] all[k]).contains(pat[0]) by {
            if k > 0 {
                assert(all[k] == rest[k - 1]);
            }
        }
    } else {
        assert(all =~= seq![s]);
    }
}

/// Texts without the separator come back when what they were joined to is split.
pub proof fn lemma_pieces_joined(parts: Seq<Seq<char>>, pat: Seq<char>)
    requires
        pat.len() == 1,
        parts.len() > 0,
        forall|k: int| 0 <= k < parts.len() ==> !(#[trigger] parts[k]).contains(pat[0]),
    ensures
        pieces(joined(parts, pat), pat) == parts,
    decreases parts.len(),
{
    let last = parts.last();
    assert(!last.contains(pat[0])) by {
        assert(last == parts[parts.len() - 1]);
    }
    lemma_find_bounds(last, pat);
    if let Some(i) = find(last, pat) {
        assert(last[i] == last.subrange(i, i + 1)[0]);
        assert(last.contains(pat[0]));
    }
    assert(pieces(last, pat) =~= seq![last]);
    if parts.len() == 1 {
        assert(parts =~= seq![last]);
    } else {
        let init = parts.drop_last();
        assert forall|k: int| 0 <= k < init.len() implies !(#[trigger] init[k]).contains(pat[0]) by {
            assert(init[k] == parts[k]);
        }
        lemma_pieces_joined(init, pat);
        lemma_pieces_concat(joined(init, pat), pat, last);
        assert(init + seq![last] =~= parts);
    }
}

/// The last piece is a suffix.
pub proof fn lemma_last_piece(s: Seq<char>, pat: Seq<char>)
    ensures
        pieces(s, pat).len() > 0,
        pieces(s, pat).last().len() <= s.len(),
        s.skip(s.len() - pieces(s, pat).last().len()) == pieces(s, pat).last(),
    decreases s.len(),
{
    lemma_find_bounds(s, pat);
    match find(s, pat) {
        Some(i) if 0 <= i && pat.len() > 0 && i + pat.len() <= s.len() => {
            let rest = s.skip(i + pat.len());
            lemma_last_piece(rest, pat);
            let last = pieces(rest, pat).last();
            assert(s.skip(s.len() - last.len()) =~= rest.skip(rest.len() - last.len()));
        },
        _ => {
            assert(s.skip(0) =~= s);
        },
    }
}

/// Stepping over a position where `pat` does not begin.
proof fn lemma_find_step(s: Seq<char>, pat: Seq<char>, n: int)
    requires
        0 <= n < s.len(),
        !begins(s.skip(n), pat),
    ensures
        find(s.skip(n), pat) == (match find(s.skip(n + 1), pat) {
            Some(i) => Some(i + 1),
            None => None::<int>,
        }),
{
    assert(s.skip(n).skip(1) =~= s.skip(n + 1));
}

/// The characters of `s`.
pub fn chars_of(s: &str) -> (r: Vec<char>)
    ensures
        r@ == s@,
{
    let mut r: Vec<char> = Vec::new();
    for c in it: s.chars()
        invariant
            r@ == s@.take(it.index() as int),
            it.seq() == s@,
    {
        r.push(c);
        assert(s@.take(it.index() + 1) =~= s@.take(it.index() as int).push(c));
    }
    assert(s@.take(s@.len() as int) =~= s@);
    r
}

/// Whether two texts are equal.
pub fn same(a: &str, b: &str) -> (r: bool)
    ensures
        r == (a@ == b@),
{
    a.to_owned() == b.to_owned()
}

/// Whether `pat` stands in `s` at position `at`.
fn stands_at(s: &Vec<char>, pat: &Vec<char>, at: usize) -> (r: bool)
    requires
        at <= s.len(),
    ensures
        r == begins(s@.skip(at as int), pat@),
{
    if pat.len() > s.len() - at {
        return false;
    }
    let mut i: usize = 0;
    while i < pat.len()
        invariant
            i <= pat.len() <= s.len() - at,
            forall|j: int| 0 <= j < i ==> s@[at + j] == pat@[j],
        decreases pat.len() - i,
    {
        if s[at + i] != pat[i] {
            assert(s@.skip(at as int).take(pat@.len() as int)[i as int] != pat@[i as int]);
            return false;
        }
        i += 1;
    }
    assert(s@.skip(at as int).take(pat@.len() as int) =~= pat@);
    true
}

/// Position of the first occurrence of `pat` in `s` at or behind `from`.
fn find_from(s: &Vec<char>, pat: &Vec<char>, from: usize) -> (r: Option<usize>)
    requires
        from <= s.len(),
    ensures
        match r {
            Some(i) => from <= i && find(s@.skip(from as int), pat@) == Some(i - from),
            None => find(s@.skip(from as int), pat@) is None,
        },
{
    let mut i: usize = from;
    loop
        invariant
            from <= i <= s.len(),
            find(s@.skip(from as int), pat@) == (match find(s@.skip(i as int), pat@) {
                Some(k) => Some(k + (i - from)),
                None => None::<int>,
            }),
        decreases s.len() - i,
    {
        if stands_at(s, pat, i) {
            return Some(i);
        }
        if i == s.len() {
            return None;
        }
        proof {
            lemma_find_step(s@, pat@, i as int);
        }
        i += 1;
    }
}

/// Whether `s` starts with `pat`.
pub fn starts_with(s: &str, pat: &str) -> (r: bool)
    ensures
        r == begins(s@, pat@),
{
    let cs = chars_of(s);
    assert(cs@.skip(0) =~= cs@);
    stands_at(&cs, &chars_of(pat), 0)
}

/// Whether `s` ends with `pat`.
pub fn ends_with(s: &str, pat: &str) -> (r: bool)
    ensures
        r == ends(s@, pat@),
{
    let cs = chars_of(s);
    let ps = chars_of(pat);
    if ps.len() > cs.len() {
        return false;
    }
    let at: usize = cs.len() - ps.len();
    let r = stands_at(&cs, &ps, at);
    assert(cs@.skip(at as int).take(ps@.len() as int) =~= cs@.skip(at as int));
    r
}

/// Whether `pat` occurs in `s`.
pub fn contains(s: &str, pat: &str) -> (r: bool)
    ensures
        r == holds(s@, pat@),
{
    let cs = chars_of(s);
    assert(cs@.skip(0) =~= cs@);
    find_from(&cs, &chars_of(pat), 0).is_some()
}

/// The text before and after the first occurrence of `pat`.
pub fn split_once<'a>(s: &'a str, pat: &str) -> (r: Option<(&'a str, &'a str)>)
    ensures
        match r {
            Some((a, b)) => cut(s@, pat@) == Some((a@, b@)),
            None => cut(s@, pat@) is None,
        },
{
    let cs = chars_of(s);
    let ps = chars_of(pat);
    assert(cs@.skip(0) =~= cs@);
    proof {
        lemma_find_bounds(s@, pat@);
    }
    match find_from(&cs, &ps, 0) {
        Some(i) => {
            let end: usize = cs.len();
            assert(i + ps@.len() <= end);
            Some((s.substring_char(0, i), s.substring_char(i + ps.len(), end)))
        },
        None => None,
    }
}

/// The pieces of `s` between the occurrences of a non-empty `pat`.
pub fn split<'a>(s: &'a str, pat: &str) -> (r: Vec<&'a str>)
    requires
        pat@.len() > 0,
    ensures
        views(r@) == pieces(s@, pat@),
{
    let cs = chars_of(s);
    let ps = chars_of(pat);
    let mut r: Vec<&'a str> = Vec::new();
    let mut start: usize = 0;
    assert(cs@.skip(0) =~= cs@);
    assert(views(r@) + pieces(cs@, ps@) =~= pieces(cs@, ps@));
    loop
        invariant
            cs@ == s@,
            ps@ == pat@,
            ps.len() > 0,
            start <= cs.len(),
            pieces(s@, pat@) == views(r@) + pieces(cs@.skip(start as int), ps@),
        decreases cs.len() - start,
    {
        let ghost rest = cs@.skip(start as int);
        proof {
            lemma_find_bounds(rest, ps@);
        }
        match find_from(&cs, &ps, start) {
            Some(i) => {
                let ghost before = views(r@);
                let piece = s.substring_char(start, i);
                assert(piece@ =~= rest.take(i - start));
                assert(rest.skip(i - start + ps@.len()) =~= cs@.skip(i + ps@.len()));
                r.push(piece);
                start = i + ps.len();
                assert(views(r@) =~= before.push(piece@));
                assert(before + (seq![piece@] + pieces(cs@.skip(start as int), ps@)) =~= views(r@) + pieces(cs@.skip(start as int), ps@));
            },
            None => {
                let ghost before = views(r@);
                let piece = s.substring_char(start, cs.len());
                assert(piece@ =~= rest);
                r.push(piece);
                assert(views(r@) =~= before.push(piece@));
                assert(before + seq![rest] =~= before.push(piece@));
                return r;
            },
        }
    }
}

/// `parts` one after the other with `sep` between neighbours.
pub fn join(parts: &Vec<&str>, sep: &str) -> (r: String)
    ensures
        r@ == joined(views(parts@), sep@),
{
    let ghost all = views(parts@);
    let mut r = String::new();
    let mut i: usize = 0;
    while i < parts.len()
        invariant
            i <= parts.len(),
            all == views(parts@),
            r@ == joined(all.take(i as int), sep@),
        decreases parts.len() - i,
    {
        if i > 0 {
            r.append(sep);
        }
        r.append(parts[i]);
        proof {
            let now = all.take(i + 1);
            assert(now.drop_last() =~= all.take(i as int));
            assert(now.last() == parts@[i as int]@);
            assert(joined(Seq::<Seq<char>>::empty(), sep@) =~= Seq::empty());
            if i == 0 {
                assert(r@ =~= now[0]);
            }
        }
        i += 1;
    }
    assert(all.take(all.len() as int) =~= all);
    r
}

/// `s` with every occurrence of a non-empty `pat` replaced by `with`.
pub fn replace(s: &str, pat: &str, with: &str) -> (r: String)
    requires
        pat@.len() > 0,
    ensures
        r@ == replaced(s@, pat@, with@),
{
    join(&split(s, pat), with)
}

/// How many times `c` occurs in `s`.
pub fn count(s: &str, c: char) -> (r: usize)
    ensures
        r == count_of(s@, c),
{
    let cs = chars_of(s);
    let mut n: usize = 0;
    let mut i: usize = 0;
    while i < cs.len()
        invariant
            i <= cs.len(),
            n <= i,
            cs@ == s@,
            n == count_of(cs@.take(i as int), c),
        decreases cs.len() - i,
    {
        assert(cs@.take(i + 1).drop_last() =~= cs@.take(i as int));
        if cs[i] == c {
            n += 1;
        }
        i += 1;
    }
    assert(cs@.take(cs@.len() as int) =~= cs@);
    n
}

/// Position of the last `c` in `s`.
pub fn rfind(s: &str, c: char) -> (r: Option<usize>)
    ensures
        match r {
            Some(i) => i == last_index(s@, c) && i < s@.len(),
            None => last_index(s@, c) == -1,
        },
{
    let cs = chars_of(s);
    let mut n: usize = cs.len();
    assert(cs@.take(n as int) =~= cs@);
    while n > 0
        invariant
            n <= cs.len(),
            cs@ == s@,
            last_index(s@, c) == last_index(cs@.take(n as int), c),
        decreases n,
    {
        assert(cs@.take(n as int).drop_last() =~= cs@.take(n - 1));
        if cs[n - 1] == c {
            return Some(n - 1);
        }
        n -= 1;
    }
    None
}

/// Whether `c` has the Unicode property `White_Space`.
pub fn is_white_space(c: char) -> (r: bool)
    ensures
        r == is_space(c),
{
    ('\u{9}' <= c && c <= '\u{d}') || c == ' ' || c == '\u{85}' || c == '\u{a0}' || c == '\u{1680}'
        || ('\u{2000}' <= c && c <= '\u{200a}') || c == '\u{2028}' || c == '\u{2029}' || c
        == '\u{202f}' || c == '\u{205f}' || c == '\u{3000}'
}

/// `s` without leading and trailing white space.
pub fn trim<'a>(s: &'a str) -> (r: &'a str)
    ensures
        r@ == trimmed(s@),
{
    let cs = chars_of(s);
    let mut a: usize = 0;
    let mut b: usize = cs.len();
    assert(cs@.skip(0) =~= cs@);
    while a < cs.len() && is_white_space(cs[a])
        invariant
            a <= cs.len(),
            trimmed_start(cs@) == trimmed_start(cs@.skip(a as int)),
        decreases cs.len() - a,
    {
        assert(cs@.skip(a as int).skip(1) =~= cs@.skip(a + 1));
        a += 1;
    }
    assert(cs@.skip(a as int) =~= cs@.subrange(a as int, b as int));
    while b > a && is_white_space(cs[b - 1])
        invariant
            a <= b <= cs.len(),
            trimmed_end(cs@.skip(a as int)) == trimmed_end(cs@.subrange(a as int, b as int)),
        decreases b,
    {
        assert(cs@.subrange(a as int, b as int).drop_last() =~= cs@.subrange(a as int, b - 1));
        b -= 1;
    }
    s.substring_char(a, b)
}

/// Moves the texts of `more` behind those of `list`.
pub fn add_all(list: &mut Vec<String>, more: Vec<String>)
    ensures
        string_views(final(list)@) == string_views(old(list)@) + string_views(
            more@,
        ),
{
    let ghost before = list@;
    let mut i: usize = 0;
    while i < more.len()
        invariant
            i <= more@.len(),
            string_views(list@) == string_views(before) + string_views(
                more@,
            ).take(i as int),
        decreases more@.len() - i,
    {
        let ghost now = string_views(list@);
        list.push(more[i].clone());
        assert(string_views(list@) =~= now.push(more@[i as int]@));
        assert(string_views(more@).take(i + 1) =~= string_views(more@).take(
            i as int,
        ).push(more@[i as int]@));
        i += 1;
    }
    assert(string_views(more@).take(more@.len() as int) =~= string_views(more@));
}

/// `find` gives the first place at which `pat` stands in `s`, and none exactly if it stands
/// nowhere.
pub proof fn law_find_gives_first(s: Seq<char>, pat: Seq<char>)
    ensures
        find(s, pat) matches Some(i) ==> 0 <= i && i + pat.len() <= s.len() && s.subrange(
            i,
            i + pat.len(),
        ) == pat && forall|k: int| 0 <= k < i ==> #[trigger] s.subrange(k, k + pat.len()) != pat,
        find(s, pat) is None ==> forall|k: int|
            0 <= k && k + pat.len() <= s.len() ==> #[trigger] s.subrange(k, k + pat.len()) != pat,
{
    lemma_find_bounds(s, pat);
    assert forall|k: int|
        0 <= k && k + pat.len() <= s.len() && (find(s, pat) matches Some(i) ==> k
            < i) implies #[trigger] s.subrange(k, k + pat.len()) != pat by {
        lemma_find_first(s, pat, k);
        assert(s.skip(k).take(pat.len() as int) =~= s.subrange(k, k + pat.len()));
    }
}

/// A text begins and ends with what it was put together from, and is put together from what it
/// begins or ends with.
pub proof fn law_ends_of_a_text(s: Seq<char>, pat: Seq<char>, rest: Seq<char>)
    ensures
        begins(pat + rest, pat),
        ends(rest + pat, pat),
        begins(s, pat) ==> s == pat + s.subrange(pat.len() as int, s.len() as int),
        ends(s, pat) ==> s == s.subrange(0, s.len() - pat.len()) + pat,
{
    assert((pat + rest).take(pat.len() as int) =~= pat);
    assert((rest + pat).skip(rest.len() as int) =~= pat);
    if begins(s, pat) {
        assert(s =~= s.take(pat.len() as int) + s.subrange(pat.len() as int, s.len() as int));
    }
    if ends(s, pat) {
        assert(s =~= s.subrange(0, s.len() - pat.len()) + s.skip(s.len() - pat.len()));
    }
}

/// A text holds another exactly if this stands somewhere in it.
pub proof fn law_holds_what_stands_in_it(s: Seq<char>, pat: Seq<char>, a: Seq<char>, b: Seq<char>)
    ensures
        holds(a + pat + b, pat),
        holds(s, pat) <==> exists|k: int|
            0 <= k && k + pat.len() <= s.len() && #[trigger] s.subrange(k, k + pat.len()) == pat,
{
    law_find_gives_first(s, pat);
    let whole = a + pat + b;
    law_find_gives_first(whole, pat);
    assert(whole.subrange(a.len() as int, (a.len() + pat.len()) as int) =~= pat);
    if let Some(i) = find(s, pat) {
        assert(s.subrange(i, i + pat.len()) == pat);
    }
}

/// A text holds a single character exactly if this is one of its own.
pub proof fn law_holds_characters(s: Seq<char>, pat: Seq<char>)
    requires
        pat.len() == 1,
    ensures
        holds(s, pat) <==> s.contains(pat[0]),
{
    law_find_gives_first(s, pat);
    if let Some(i) = find(s, pat) {
        assert(s[i] == s.subrange(i, i + 1)[0]);
    }
    if s.contains(pat[0]) {
        let k = s.index_of(pat[0]);
        assert(s.subrange(k, k + 1) =~= pat);
    }
}

/// A text is cut at the first place where `pat` stands: what comes out, with `pat` between, is the
/// text. It is not cut exactly if it does not hold `pat`.
pub proof fn law_cut_takes_apart(s: Seq<char>, pat: Seq<char>)
    ensures
        cut(s, pat) is Some <==> holds(s, pat),
        cut(s, pat) matches Some((a, b)) ==> s == a + pat + b && find(s, pat) == Some(
            a.len() as int,
        ),
{
    lemma_find_bounds(s, pat);
    if let Some(i) = find(s, pat) {
        assert(s =~= s.take(i) + s.subrange(i, i + pat.len()) + s.skip(i + pat.len()));
    }
}

/// A character that does not occur before cuts a text where it stands.
pub proof fn law_cut_at_character(head: Seq<char>, pat: Seq<char>, rest: Seq<char>)
    requires
        pat.len() == 1,
        !head.contains(pat[0]),
    ensures
        find(head + pat + rest, pat) == Some(head.len() as int),
        cut(head + pat + rest, pat) == Some((head, rest)),
{
    let s = head + pat + rest;
    let n = head.len() as int;
    assert(s.skip(n).take(1) =~= pat);
    assert forall|j: int| 0 <= j < n implies !begins(#[trigger] s.skip(j), pat) by {
        assert(s.skip(j)[0] == head[j]);
        assert(head.contains(head[j]));
        if begins(s.skip(j), pat) {
            assert(s.skip(j).take(1)[0] == pat[0]);
        }
    }
    lemma_find_is(s, pat, n);
    assert(s.take(n) =~= head);
    assert(s.skip(n + 1) =~= rest);
}

/// Joining can start with the first part.
pub proof fn lemma_joined_cons(first: Seq<char>, rest: Seq<Seq<char>>, sep: Seq<char>)
    requires
        rest.len() > 0,
    ensures
        joined(seq![first] + rest, sep) == first + sep + joined(rest, sep),
    decreases rest.len(),
{
    let all = seq![first] + rest;
    assert(all.last() == rest.last());
    if rest.len() == 1 {
        assert(all.drop_last() =~= seq![first]);
        assert(joined(seq![first], sep) == first);
        assert(joined(rest, sep) == rest[0]);
    } else {
        assert(all.drop_last() =~= seq![first] + rest.drop_last());
        lemma_joined_cons(first, rest.drop_last(), sep);
        assert(joined(all, sep) =~= first + sep + joined(rest, sep));
    }
}

/// The pieces of a text, joined by what stood between them, are the text again, and none of them
/// holds it.
pub proof fn law_pieces_join_again(s: Seq<char>, pat: Seq<char>)
    requires
        pat.len() > 0,
    ensures
        pieces(s, pat).len() > 0,
        joined(pieces(s, pat), pat) == s,
        forall|k: int| 0 <= k < pieces(s, pat).len() ==> !holds(#[trigger] pieces(s, pat)[k], pat),
    decreases s.len(),
{
    law_find_gives_first(s, pat);
    let all = pieces(s, pat);
    match find(s, pat) {
        Some(i) => {
            let head = s.take(i);
            let tail = s.skip(i + pat.len());
            let rest = pieces(tail, pat);
            law_pieces_join_again(tail, pat);
            assert(all =~= seq![head] + rest);
            lemma_joined_cons(head, rest, pat);
            assert(s =~= head + s.subrange(i, i + pat.len()) + tail);
            law_find_gives_first(head, pat);
            if let Some(k) = find(head, pat) {
                assert(head.subrange(k, k + pat.len()) =~= s.subrange(k, k + pat.len()));
            }
            assert forall|k: int| 0 <= k < all.len() implies !holds(#[trigger] all[k], pat) by {
                if k > 0 {
                    assert(all[k] == rest[k - 1]);
                }
            }
        },
        None => {
            assert(all =~= seq![s]);
        },
    }
}

/// Replacing goes from the left: the first occurrence gives way, and so do those behind it. A text
/// that does not hold what is replaced stays as it is.
pub proof fn law_replaced_from_the_left(
    a: Seq<char>,
    pat: Seq<char>,
    b: Seq<char>,
    with: Seq<char>,
)
    requires
        pat.len() > 0,
    ensures
        find(a + pat, pat) == Some(a.len() as int) ==> replaced(a + pat + b, pat, with) == a + with
            + replaced(b, pat, with),
        !holds(a, pat) ==> replaced(a, pat, with) == a,
{
    if find(a + pat, pat) == Some(a.len() as int) {
        lemma_pieces_head(a, pat, b);
        law_pieces_join_again(b, pat);
        lemma_joined_cons(a, pieces(b, pat), with);
    }
    if !holds(a, pat) {
        assert(pieces(a, pat) =~= seq![a]);
        assert(joined(seq![a], with) == a);
    }
}

/// Characters are counted one by one.
pub proof fn law_count_goes_by_characters(a: Seq<char>, b: Seq<char>, c: char, d: char)
    ensures
        count_of(Seq::empty(), c) == 0,
        count_of(seq![d], c) == (if d == c {
            1nat
        } else {
            0
        }),
        count_of(a + b, c) == count_of(a, c) + count_of(b, c),
    decreases b.len(),
{
    assert(seq![d].drop_last() =~= Seq::empty());
    assert(count_of(Seq::empty(), c) == 0);
    if b.len() == 0 {
        assert(a + b =~= a);
    } else {
        law_count_goes_by_characters(a, b.drop_last(), c, d);
        assert((a + b).drop_last() =~= a + b.drop_last());
        assert((a + b).last() == b.last());
    }
}

/// A text without a character counts none of it.
pub proof fn lemma_count_none(s: Seq<char>, c: char)
    requires
        !s.contains(c),
    ensures
        count_of(s, c) == 0,
    decreases s.len(),
{
    if s.len() > 0 {
        let init = s.drop_last();
        assert(s.contains(s[s.len() - 1]));
        assert forall|i: int| 0 <= i < init.len() implies init[i] != c by {
            assert(s.contains(s[i]));
        }
        lemma_count_none(init, c);
    }
}

/// The last place of a character: it stands there and nowhere behind. Without a place it does not
/// occur.
pub proof fn law_last_index_is_last(s: Seq<char>, c: char)
    ensures
        s.contains(c) ==> 0 <= last_index(s, c) < s.len() && s[last_index(s, c)] == c,
        !s.contains(c) ==> last_index(s, c) == -1,
        forall|i: int| last_index(s, c) < i < s.len() ==> #[trigger] s[i] != c,
    decreases s.len(),
{
    if s.len() > 0 {
        let init = s.drop_last();
        law_last_index_is_last(init, c);
        if s.last() == c {
            assert(s.contains(s[s.len() - 1]));
        } else {
            assert forall|i: int| last_index(s, c) < i < s.len() implies #[trigger] s[i] != c by {
                if i < s.len() - 1 {
                    assert(init[i] == s[i]);
                }
            }
            if s.contains(c) {
                let k = s.index_of(c);
                assert(init[k] == c);
            }
            if init.contains(c) {
                let k = init.index_of(c);
                assert(s[k] == c);
            }
        }
    }
}

/// The white space of ASCII is what separates words and lines; letters, digits and signs are none.
/// Beyond ASCII the property `White_Space` decides.
pub proof fn law_white_space(c: char)
    ensures
        c <= '\u{7f}' ==> (is_space(c) <==> c == ' ' || c == '\t' || c == '\n' || c == '\r' || c
            == '\u{b}' || c == '\u{c}'),
        c > '\u{7f}' ==> (is_space(c) <==> c == '\u{85}' || c == '\u{a0}' || c == '\u{1680}' || (
        '\u{2000}' <= c && c <= '\u{200a}') || c == '\u{2028}' || c == '\u{2029}' || c
            == '\u{202f}' || c == '\u{205f}' || c == '\u{3000}'),
{
}

/// Nothing but white space.
pub open spec fn is_blank(s: Seq<char>) -> bool {
    forall|i: int| 0 <= i < s.len() ==> is_space(#[trigger] s[i])
}

/// A text that does not start or end with white space.
pub open spec fn is_tight(s: Seq<char>) -> bool {
    s.len() > 0 ==> !is_space(s[0]) && !is_space(s[s.len() - 1])
}

proof fn lemma_trimmed_start(s: Seq<char>)
    ensures
        trimmed_start(s).len() <= s.len(),
        s == s.take(s.len() - trimmed_start(s).len()) + trimmed_start(s),
        is_blank(s.take(s.len() - trimmed_start(s).len())),
        trimmed_start(s).len() > 0 ==> !is_space(trimmed_start(s)[0]),
    decreases s.len(),
{
    if s.len() > 0 && is_space(s[0]) {
        let rest = s.skip(1);
        lemma_trimmed_start(rest);
        let n = s.len() - trimmed_start(s).len();
        assert forall|i: int| 0 <= i < n implies is_space(#[trigger] s.take(n)[i]) by {
            if i > 0 {
                assert(rest.take(n - 1)[i - 1] == s[i]);
            }
        }
        assert(s =~= seq![s[0]] + rest);
        assert(s.take(n) + trimmed_start(s) =~= seq![s[0]] + (rest.take(n - 1) + trimmed_start(
            rest,
        )));
    } else {
        assert(s.take(0) + s =~= s);
    }
}

proof fn lemma_trimmed_end(s: Seq<char>)
    ensures
        trimmed_end(s).len() <= s.len(),
        s == trimmed_end(s) + s.skip(trimmed_end(s).len() as int),
        is_blank(s.skip(trimmed_end(s).len() as int)),
        trimmed_end(s).len() > 0 ==> !is_space(trimmed_end(s).last()),
    decreases s.len(),
{
    if s.len() > 0 && is_space(s.last()) {
        let init = s.drop_last();
        lemma_trimmed_end(init);
        let n = trimmed_end(s).len() as int;
        assert forall|i: int| 0 <= i < s.skip(n).len() implies is_space(
            #[trigger] s.skip(n)[i],
        ) by {
            if n + i < s.len() - 1 {
                assert(init.skip(n)[i] == s[n + i]);
            }
        }
        assert(s =~= init.push(s.last()));
        assert(trimmed_end(init) + s.skip(n) =~= (trimmed_end(init) + init.skip(n)).push(s.last()));
    } else {
        assert(s + s.skip(s.len() as int) =~= s);
    }
}

/// Trimming takes white space off at both ends and nothing else, and leaves none there.
pub proof fn law_trimmed_is_tight(s: Seq<char>)
    ensures
        is_tight(trimmed(s)),
        exists|a: Seq<char>, b: Seq<char>|
            is_blank(a) && is_blank(b) && s == #[trigger] (a + trimmed(s) + b),
{
    let inner = trimmed_start(s);
    lemma_trimmed_start(s);
    lemma_trimmed_end(inner);
    let a = s.take(s.len() - inner.len());
    let b = inner.skip(trimmed(s).len() as int);
    assert(s =~= a + trimmed(s) + b);
    if trimmed(s).len() > 0 {
        assert(trimmed(s)[0] == inner[0]);
    }
}

/// A tight text comes out of any white space around it.
pub proof fn law_trimming_undoes_padding(a: Seq<char>, s: Seq<char>, b: Seq<char>)
    requires
        is_blank(a),
        is_blank(b),
        is_tight(s),
    ensures
        trimmed(a + s + b) == s,
    decreases a.len() + b.len(),
{
    let whole = a + s + b;
    if a.len() > 0 {
        assert(whole[0] == a[0]);
        assert(whole.skip(1) =~= a.skip(1) + s + b);
        assert forall|i: int| 0 <= i < a.skip(1).len() implies is_space(#[trigger] a.skip(1)[i]) by {
            assert(a.skip(1)[i] == a[i + 1]);
        }
        law_trimming_undoes_padding(a.skip(1), s, b);
    } else if s.len() > 0 {
        assert(whole[0] == s[0]);
        assert(trimmed_start(whole) == whole);
        lemma_trimmed_end(whole);
        let t = trimmed_end(whole);
        if b.len() > 0 {
            assert(whole.last() == b[b.len() - 1]);
            assert(whole.drop_last() =~= a + s + b.drop_last());
            assert forall|i: int| 0 <= i < b.drop_last().len() implies is_space(
                #[trigger] b.drop_last()[i],
            ) by {
                assert(b.drop_last()[i] == b[i]);
            }
            law_trimming_undoes_padding(a, s, b.drop_last());
            let less = whole.drop_last();
            assert(less[0] == s[0]);
            assert(trimmed_start(less) == less);
        } else {
            assert(whole =~= s);
            assert(whole.last() == s[s.len() - 1]);
        }
    } else if b.len() > 0 {
        assert(whole =~= b);
        assert(whole[0] == b[0]);
        assert(whole.skip(1) =~= a + s + b.skip(1));
        assert forall|i: int| 0 <= i < b.skip(1).len() implies is_space(#[trigger] b.skip(1)[i]) by {
            assert(b.skip(1)[i] == b[i + 1]);
        }
        law_trimming_undoes_padding(a, s, b.skip(1));
    } else {
        assert(whole =~= s);
    }
}

} // verus!
