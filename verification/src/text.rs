//! Character-level text handling: splitting on a separator and joining with one.
//!
//! The model of a string is its sequence of characters (`s@`). Splitting follows
//! `str::split` with a non-empty pattern: matches are found from the left and do
//! not overlap, and every piece, empty ones included, is kept.
use vstd::prelude::*;

verus! {

/// The character views of a sequence of strings.
pub open spec fn views(v: Seq<String>) -> Seq<Seq<char>> {
    v.map_values(|x: String| x@)
}

/// `pat` occurs in `s` starting at index `i`.
pub open spec fn match_at(s: Seq<char>, pat: Seq<char>, i: int) -> bool {
    &&& 0 <= i
    &&& i + pat.len() <= s.len()
    &&& s.subrange(i, i + pat.len()) == pat
}

/// The pieces that splitting `s` on `pat` yields from the point where the
/// current piece began (`start`) and the search for the next match stands (`i`).
pub open spec fn split_from(s: Seq<char>, pat: Seq<char>, start: int, i: int) -> Seq<Seq<char>>
    decreases s.len() - i,
{
    if pat.len() == 0 || i < 0 || i + pat.len() > s.len() {
        seq![s.subrange(start, s.len() as int)]
    } else if s.subrange(i, i + pat.len()) == pat {
        seq![s.subrange(start, i)] + split_from(s, pat, i + pat.len(), i + pat.len())
    } else {
        split_from(s, pat, start, i + 1)
    }
}

/// The pieces of `s` between the non-overlapping occurrences of `pat`, searched
/// from the left.
pub open spec fn split_seq(s: Seq<char>, pat: Seq<char>) -> Seq<Seq<char>> {
    split_from(s, pat, 0, 0)
}

/// The pieces, in order, with `sep` between each two neighbours.
pub open spec fn join_seq(parts: Seq<Seq<char>>, sep: Seq<char>) -> Seq<char>
    decreases parts.len(),
{
    if parts.len() == 0 {
        Seq::empty()
    } else if parts.len() == 1 {
        parts[0]
    } else {
        join_seq(parts.drop_last(), sep) + sep + parts.last()
    }
}

/// No piece holds a character of the separator.
pub open spec fn pieces_avoid(parts: Seq<Seq<char>>, sep: Seq<char>) -> bool {
    forall|k: int, c: int|
        0 <= k < parts.len() && 0 <= c < sep.len() ==> !(#[trigger] parts[k]).contains(
            #[trigger] sep[c],
        )
}

// ---------------------------------------------------------------------------
// Lemmas
// ---------------------------------------------------------------------------

proof fn lemma_split_from_nonempty(s: Seq<char>, pat: Seq<char>, start: int, i: int)
    ensures
        split_from(s, pat, start, i).len() >= 1,
    decreases s.len() - i,
{
    if pat.len() == 0 || i < 0 || i + pat.len() > s.len() {
    } else if s.subrange(i, i + pat.len()) == pat {
        lemma_split_from_nonempty(s, pat, i + pat.len(), i + pat.len());
    } else {
        lemma_split_from_nonempty(s, pat, start, i + 1);
    }
}

proof fn lemma_join_prepend(a: Seq<char>, parts: Seq<Seq<char>>, sep: Seq<char>)
    requires
        parts.len() >= 1,
    ensures
        join_seq(seq![a] + parts, sep) == a + sep + join_seq(parts, sep),
    decreases parts.len(),
{
    let all = seq![a] + parts;
    if parts.len() == 1 {
        assert(all.drop_last() =~= seq![a]);
        assert(all.last() == parts[0]);
        assert(join_seq(seq![a], sep) == a);
        assert(join_seq(parts, sep) == parts[0]);
        assert(join_seq(all, sep) == join_seq(all.drop_last(), sep) + sep + all.last());
    } else {
        assert(all.drop_last() =~= seq![a] + parts.drop_last());
        lemma_join_prepend(a, parts.drop_last(), sep);
        assert(all.last() == parts.last());
        assert(join_seq(all, sep) =~= a + sep + join_seq(parts, sep));
    }
}

/// For two or more pieces, the join is the first piece, the separator, and the
/// join of the rest.
proof fn lemma_join_front(parts: Seq<Seq<char>>, sep: Seq<char>)
    requires
        parts.len() >= 2,
    ensures
        join_seq(parts, sep) == parts[0] + sep + join_seq(parts.drop_first(), sep),
{
    assert(parts =~= seq![parts[0]] + parts.drop_first());
    lemma_join_prepend(parts[0], parts.drop_first(), sep);
}

proof fn lemma_join_split_from(s: Seq<char>, pat: Seq<char>, start: int, i: int)
    requires
        pat.len() > 0,
        0 <= start <= i <= s.len(),
    ensures
        join_seq(split_from(s, pat, start, i), pat) == s.subrange(start, s.len() as int),
    decreases s.len() - i,
{
    if i + pat.len() > s.len() {
    } else if s.subrange(i, i + pat.len()) == pat {
        let j = i + pat.len();
        let rest = split_from(s, pat, j, j);
        lemma_split_from_nonempty(s, pat, j, j);
        lemma_join_split_from(s, pat, j, j);
        lemma_join_prepend(s.subrange(start, i), rest, pat);
        assert(s.subrange(start, i) + pat + s.subrange(j, s.len() as int) =~= s.subrange(
            start,
            s.len() as int,
        ));
    } else {
        lemma_join_split_from(s, pat, start, i + 1);
    }
}

proof fn lemma_split_from_join(
    s: Seq<char>,
    pat: Seq<char>,
    start: int,
    k: int,
    j: int,
    parts: Seq<Seq<char>>,
)
    requires
        pat.len() > 0,
        parts.len() >= 1,
        forall|q: int| 0 <= q < parts.len() ==> !(#[trigger] parts[q]).contains(pat[0]),
        0 <= start <= k <= j <= k + parts[0].len(),
        k <= s.len(),
        s.subrange(k, s.len() as int) == join_seq(parts, pat),
    ensures
        split_from(s, pat, start, j) == seq![s.subrange(start, k) + parts[0]]
            + parts.drop_first(),
    decreases parts.len(), k + parts[0].len() - j,
{
    let p0 = parts[0];
    let tail = s.subrange(k, s.len() as int);
    if parts.len() >= 2 {
        lemma_join_front(parts, pat);
    }
    assert(tail.len() >= p0.len());
    if j < k + p0.len() {
        // The character at `j` belongs to the first piece, so no match starts there.
        assert(s[j] == tail[j - k]);
        assert(tail[j - k] == p0[j - k]);
        assert(!p0.contains(pat[0])) by {
            assert(parts[0] == p0);
        }
        if j + pat.len() > s.len() {
            assert(parts.len() == 1);
            assert(s.subrange(start, s.len() as int) =~= s.subrange(start, k) + p0);
            assert(parts.drop_first() =~= Seq::<Seq<char>>::empty());
            assert(split_from(s, pat, start, j) =~= seq![s.subrange(start, k) + p0]
                + parts.drop_first());
        } else {
            assert(s.subrange(j, j + pat.len())[0] == s[j]);
            assert(s.subrange(j, j + pat.len()) != pat);
            lemma_split_from_join(s, pat, start, k, j + 1, parts);
        }
    } else {
        assert(j == k + p0.len());
        if parts.len() == 1 {
            assert(s.len() == j);
            assert(s.subrange(start, s.len() as int) =~= s.subrange(start, k) + p0);
            assert(parts.drop_first() =~= Seq::<Seq<char>>::empty());
            assert(split_from(s, pat, start, j) =~= seq![s.subrange(start, k) + p0]
                + parts.drop_first());
        } else {
            let rest = parts.drop_first();
            let k2 = j + pat.len();
            assert(tail =~= p0 + pat + join_seq(rest, pat));
            assert(s.subrange(j, k2) =~= pat) by {
                assert forall|x: int| 0 <= x < pat.len() implies s.subrange(j, k2)[x] == pat[x] by {
                    assert(s[j + x] == tail[j + x - k]);
                }
            }
            assert(s.subrange(k2, s.len() as int) =~= join_seq(rest, pat)) by {
                assert forall|x: int| 0 <= x < s.len() - k2 implies s.subrange(
                    k2,
                    s.len() as int,
                )[x] == join_seq(rest, pat)[x] by {
                    assert(s[k2 + x] == tail[k2 + x - k]);
                }
            }
            assert(s.subrange(start, j) =~= s.subrange(start, k) + p0) by {
                assert forall|x: int| k - start <= x < j - start implies s.subrange(start, j)[x]
                    == (s.subrange(start, k) + p0)[x] by {
                    assert(s[start + x] == tail[start + x - k]);
                }
            }
            assert forall|q: int| 0 <= q < rest.len() implies !(#[trigger] rest[q]).contains(
                pat[0],
            ) by {
                assert(rest[q] == parts[q + 1]);
            }
            lemma_split_from_join(s, pat, k2, k2, k2, rest);
            assert(s.subrange(k2, k2) + rest[0] =~= rest[0]);
            assert(seq![rest[0]] + rest.drop_first() =~= rest);
        }
    }
}

/// Joining the pieces of a split with the same separator gives the string back.
pub proof fn law_join_of_split(s: Seq<char>, sep: Seq<char>)
    requires
        sep.len() > 0,
    ensures
        join_seq(split_seq(s, sep), sep) == s,
{
    lemma_join_split_from(s, sep, 0, 0);
    assert(s.subrange(0, s.len() as int) =~= s);
}

/// Splitting a join gives the pieces back, when no piece holds a character of
/// the separator.
pub proof fn law_split_of_join(parts: Seq<Seq<char>>, sep: Seq<char>)
    requires
        sep.len() > 0,
        parts.len() >= 1,
        pieces_avoid(parts, sep),
    ensures
        split_seq(join_seq(parts, sep), sep) == parts,
{
    let s = join_seq(parts, sep);
    assert forall|q: int| 0 <= q < parts.len() implies !(#[trigger] parts[q]).contains(sep[0]) by {
        assert(!parts[q].contains(sep[0]));
    }
    assert(s.subrange(0, s.len() as int) =~= s);
    lemma_split_from_join(s, sep, 0, 0, 0, parts);
    assert(s.subrange(0, 0) + parts[0] =~= parts[0]);
    assert(seq![parts[0]] + parts.drop_first() =~= parts);
}

proof fn lemma_split_from_no_match(x: Seq<char>, pat: Seq<char>, start: int, i: int)
    requires
        pat.len() == 1,
        0 <= start <= i <= x.len(),
        forall|j: int| i <= j < x.len() ==> x[j] != pat[0],
    ensures
        split_from(x, pat, start, i) == seq![x.subrange(start, x.len() as int)],
    decreases x.len() - i,
{
    if i + 1 > x.len() {
    } else {
        assert(x.subrange(i, i + 1)[0] == x[i]);
        assert(x.subrange(i, i + 1) != pat);
        lemma_split_from_no_match(x, pat, start, i + 1);
    }
}

proof fn lemma_split_from_last(x: Seq<char>, pat: Seq<char>, k: int, start: int, i: int)
    requires
        pat.len() == 1,
        0 <= start <= i <= k < x.len(),
        x[k] == pat[0],
        forall|j: int| k < j < x.len() ==> x[j] != pat[0],
    ensures
        split_from(x, pat, start, i).last() == x.subrange(k + 1, x.len() as int),
        split_from(x, pat, start, i).len() >= 1,
    decreases k - i,
{
    if x.subrange(i, i + 1) == pat {
        let rest = split_from(x, pat, i + 1, i + 1);
        if i == k {
            lemma_split_from_no_match(x, pat, k + 1, k + 1);
        } else {
            lemma_split_from_last(x, pat, k, i + 1, i + 1);
        }
        assert((seq![x.subrange(start, i)] + rest).last() == rest.last());
    } else {
        assert(i != k) by {
            if i == k {
                assert(x.subrange(i, i + 1) =~= pat);
            }
        }
        lemma_split_from_last(x, pat, k, start, i + 1);
    }
}

/// A string without the one-character separator splits into itself alone.
pub(crate) proof fn lemma_split_whole(x: Seq<char>, pat: Seq<char>)
    requires
        pat.len() == 1,
        forall|j: int| 0 <= j < x.len() ==> x[j] != pat[0],
    ensures
        split_seq(x, pat) == seq![x],
{
    lemma_split_from_no_match(x, pat, 0, 0);
    assert(x.subrange(0, x.len() as int) =~= x);
}

/// Splitting on a one-character separator, the last piece is what follows the
/// separator's last occurrence.
pub proof fn law_split_last_piece(s: Seq<char>, c: char, t: Seq<char>)
    requires
        !t.contains(c),
    ensures
        split_seq(s + seq![c] + t, seq![c]).last() == t,
{
    let x = s + seq![c] + t;
    let k = s.len() as int;
    assert(x[k] == c);
    assert forall|j: int| k < j < x.len() implies x[j] != seq![c][0] by {
        assert(x[j] == t[j - k - 1]);
    }
    lemma_split_from_last(x, seq![c], k, 0, 0);
    assert(x.subrange(k + 1, x.len() as int) =~= t);
}

// ---------------------------------------------------------------------------
// Executable functions
// ---------------------------------------------------------------------------

/// The characters of `s`, in order.
pub fn chars_of(s: &str) -> (r: Vec<char>)
    ensures
        r@ == s@,
{
    let mut r: Vec<char> = Vec::new();
    for c in it: s.chars()
        invariant
            r@ == it.seq().take(it.index() as int),
            it.seq() == s@,
    {
        r.push(c);
    }
    r
}

/// `String::from_iter` (through `collect`) over the characters `v[start..end]`:
/// claimed to give a string of exactly those characters, in order.
#[verifier::external_body]
pub(crate) fn string_from_char_range(v: &Vec<char>, start: usize, end: usize) -> (r: String)
    requires
        start <= end <= v.len(),
    ensures
        r@ == v@.subrange(start as int, end as int),
{
    v[start..end].iter().collect::<String>()
}

/// Whether the characters `pat` stand in `s` from index `i` on.
fn chars_match_at(s: &Vec<char>, pat: &Vec<char>, i: usize) -> (r: bool)
    requires
        i <= s.len(),
        pat.len() <= s.len() - i,
    ensures
        r == (s@.subrange(i as int, i + pat.len()) == pat@),
{
    let mut k: usize = 0;
    while k < pat.len()
        invariant
            i <= s.len(),
            pat.len() <= s.len() - i,
            k <= pat.len(),
            forall|x: int| 0 <= x < k ==> s@[i + x] == pat@[x],
        decreases pat.len() - k,
    {
        if s[i + k] != pat[k] {
            assert(s@.subrange(i as int, i + pat.len())[k as int] != pat@[k as int]);
            return false;
        }
        k = k + 1;
    }
    assert(s@.subrange(i as int, i + pat.len()) =~= pat@);
    true
}

/// Whether two strings hold the same characters.
pub fn str_eq(a: &str, b: &str) -> (r: bool)
    ensures
        r == (a@ == b@),
{
    let x = chars_of(a);
    let y = chars_of(b);
    if x.len() != y.len() {
        return false;
    }
    let r = chars_match_at(&x, &y, 0);
    assert(x@.subrange(0, y@.len() as int) =~= x@);
    r
}

/// `s.split(pat)`, each piece as a `String`.
pub fn split_str(s: &str, pat: &str) -> (r: Vec<String>)
    requires
        pat@.len() > 0,
    ensures
        views(r@) == split_seq(s@, pat@),
        r@.len() >= 1,
{
    let sc = chars_of(s);
    let pc = chars_of(pat);
    let n = sc.len();
    let p = pc.len();
    let mut pieces: Vec<String> = Vec::new();
    let mut start: usize = 0;
    let mut i: usize = 0;
    while i <= n && p <= n - i
        invariant
            sc@ == s@,
            pc@ == pat@,
            n == sc.len(),
            p == pc.len(),
            p > 0,
            start <= i,
            i <= n,
            views(pieces@) + split_from(s@, pat@, start as int, i as int) == split_seq(
                s@,
                pat@,
            ),
        decreases n - i,
    {
        let ghost old_pieces = pieces@;
        if chars_match_at(&sc, &pc, i) {
            let piece = string_from_char_range(&sc, start, i);
            pieces.push(piece);
            assert(views(pieces@) =~= views(old_pieces).push(piece@));
            assert(views(pieces@) + split_from(s@, pat@, (i + p) as int, (i + p) as int)
                =~= views(old_pieces) + split_from(s@, pat@, start as int, i as int));
            i = i + p;
            start = i;
        } else {
            i = i + 1;
        }
    }
    let ghost old_pieces = pieces@;
    let last = string_from_char_range(&sc, start, n);
    pieces.push(last);
    assert(views(pieces@) =~= views(old_pieces).push(last@));
    assert(views(pieces@) =~= split_seq(s@, pat@));
    pieces
}

/// The strings of `parts` with `sep` between each two neighbours.
pub fn join_strs(parts: &Vec<String>, sep: &str) -> (r: String)
    ensures
        r@ == join_seq(views(parts@), sep@),
{
    let mut r = String::new();
    let ghost vs = views(parts@);
    for k in 0..parts.len()
        invariant
            vs == views(parts@),
            r@ == join_seq(vs.take(k as int), sep@),
    {
        let ghost before = r@;
        if k > 0 {
            r.append(sep);
        }
        r.append(parts[k].as_str());
        proof {
            assert(vs.take(k + 1).drop_last() =~= vs.take(k as int));
            assert(vs.take(k + 1).last() == parts@[k as int]@);
            if k == 0 {
                assert(before =~= Seq::<char>::empty());
                assert(r@ =~= join_seq(vs.take(k + 1), sep@));
            }
        }
    }
    assert(vs.take(parts.len() as int) =~= vs);
    r
}

} // verus!
