//! Text splitting as the report parsers need it: pieces between separators,
//! lines, trimming of white space, and the whitespace-separated words of a line.
//! Text is handled as vectors of characters; each operation states the
//! sequence of characters it yields.

use vstd::prelude::*;

verus! {

/// The views of a vector of character vectors.
pub open spec fn views(v: Seq<Vec<char>>) -> Seq<Seq<char>> {
    v.map_values(|x: Vec<char>| x@)
}

/// The pieces of `s` between occurrences of `sep`, as `str::split` with a
/// one-character pattern yields them: there is always at least one piece, and
/// `k` separators give `k + 1` pieces.
pub open spec fn split_char(s: Seq<char>, sep: char) -> Seq<Seq<char>>
    decreases s.len(),
{
    if s.len() == 0 {
        seq![seq![]]
    } else {
        let p = split_char(s.drop_last(), sep);
        if s.last() == sep {
            p.push(seq![])
        } else {
            p.update(p.len() - 1, p.last().push(s.last()))
        }
    }
}

/// `split_char` never yields an empty list of pieces.
pub proof fn lemma_split_char_len(s: Seq<char>, sep: char)
    ensures
        split_char(s, sep).len() >= 1,
    decreases s.len(),
{
    if s.len() > 0 {
        lemma_split_char_len(s.drop_last(), sep);
    }
}

/// The pieces of `s` between occurrences of `sep`.
pub fn split_chars(s: &[char], sep: char) -> (r: Vec<Vec<char>>)
    ensures
        views(r@) == split_char(s@, sep),
{
    let mut done: Vec<Vec<char>> = Vec::new();
    let mut cur: Vec<char> = Vec::new();
    let mut i: usize = 0;
    while i < s.len()
        invariant
            i <= s@.len(),
            split_char(s@.take(i as int), sep) == views(done@).push(cur@),
        decreases s@.len() - i,
    {
        let ghost before = views(done@).push(cur@);
        assert(s@.take(i + 1).drop_last() =~= s@.take(i as int));
        if s[i] == sep {
            done.push(cur);
            cur = Vec::new();
            assert(views(done@).push(cur@) =~= before.push(seq![]));
        } else {
            cur.push(s[i]);
            assert(views(done@).push(cur@) =~= before.update(
                before.len() - 1,
                before.last().push(s@[i as int]),
            ));
        }
        i = i + 1;
    }
    assert(s@.take(s@.len() as int) =~= s@);
    done.push(cur);
    assert(views(done@) =~= split_char(s@, sep));
    done
}

/// Unicode white space, as `char::is_whitespace` defines it.
pub open spec fn is_ws(c: char) -> bool {
    let v = c as u32;
    v == 32 || (9 <= v <= 13) || v == 0x85 || v == 0xa0 || v == 0x1680 || (0x2000 <= v
        <= 0x200a) || v == 0x2028 || v == 0x2029 || v == 0x202f || v == 0x205f || v == 0x3000
}

fn is_whitespace(c: char) -> (b: bool)
    ensures
        b == is_ws(c),
{
    let v = c as u32;
    v == 32 || (9 <= v && v <= 13) || v == 0x85 || v == 0xa0 || v == 0x1680 || (0x2000 <= v && v
        <= 0x200a) || v == 0x2028 || v == 0x2029 || v == 0x202f || v == 0x205f || v == 0x3000
}

/// `s` without its leading white space.
pub open spec fn trim_start(s: Seq<char>) -> Seq<char>
    decreases s.len(),
{
    if s.len() > 0 && is_ws(s[0]) {
        trim_start(s.drop_first())
    } else {
        s
    }
}

/// `s` without its trailing white space.
pub open spec fn trim_end(s: Seq<char>) -> Seq<char>
    decreases s.len(),
{
    if s.len() > 0 && is_ws(s.last()) {
        trim_end(s.drop_last())
    } else {
        s
    }
}

/// `s` without leading and trailing white space, as `str::trim` gives it.
pub open spec fn trim(s: Seq<char>) -> Seq<char> {
    trim_end(trim_start(s))
}

/// A copy of `s[a..b]`.
pub fn copy_range(s: &[char], a: usize, b: usize) -> (r: Vec<char>)
    requires
        a <= b <= s@.len(),
    ensures
        r@ == s@.subrange(a as int, b as int),
{
    let mut r: Vec<char> = Vec::new();
    let mut i: usize = a;
    while i < b
        invariant
            a <= i <= b,
            b <= s@.len(),
            r@ == s@.subrange(a as int, i as int),
        decreases b - i,
    {
        r.push(s[i]);
        assert(r@ =~= s@.subrange(a as int, i + 1));
        i = i + 1;
    }
    r
}

/// `s` without leading and trailing white space.
pub fn trim_chars(s: &[char]) -> (r: Vec<char>)
    ensures
        r@ == trim(s@),
{
    let n = s.len();
    let mut a: usize = 0;
    assert(s@.subrange(0, n as int) =~= s@);
    while a < n && is_whitespace(s[a])
        invariant
            a <= n,
            n == s@.len(),
            trim_start(s@) == trim_start(s@.subrange(a as int, n as int)),
        decreases n - a,
    {
        assert(s@.subrange(a as int, n as int).drop_first() =~= s@.subrange(a + 1, n as int));
        a = a + 1;
    }
    let ghost t = s@.subrange(a as int, n as int);
    assert(trim_start(s@) == t);
    let mut b: usize = n;
    while b > a && is_whitespace(s[b - 1])
        invariant
            a <= b <= n,
            n == s@.len(),
            t == s@.subrange(a as int, n as int),
            trim_end(t) == trim_end(s@.subrange(a as int, b as int)),
        decreases b,
    {
        assert(s@.subrange(a as int, b as int).drop_last() =~= s@.subrange(a as int, b - 1));
        b = b - 1;
    }
    copy_range(s, a, b)
}

/// `l` without one trailing carriage return.
pub open spec fn strip_cr(l: Seq<char>) -> Seq<char> {
    if l.len() > 0 && l.last() == '\r' {
        l.drop_last()
    } else {
        l
    }
}

/// Every piece of `p` without one trailing carriage return.
pub open spec fn strip_all(p: Seq<Seq<char>>) -> Seq<Seq<char>> {
    p.map_values(|l: Seq<char>| strip_cr(l))
}

/// The lines of `s`, as `str::lines` yields them: pieces between line feeds,
/// each without a carriage return that ends it before the line feed; a last
/// piece that is empty (the text ends with a line feed, or is empty) is no line.
pub open spec fn lines(s: Seq<char>) -> Seq<Seq<char>> {
    let p = split_char(s, '\n');
    let body = strip_all(p.drop_last());
    if p.last().len() == 0 {
        body
    } else {
        body.push(p.last())
    }
}

/// The lines of `s`.
pub fn lines_of(s: &[char]) -> (r: Vec<Vec<char>>)
    ensures
        views(r@) == lines(s@),
{
    let p = split_chars(s, '\n');
    proof {
        lemma_split_char_len(s@, '\n');
    }
    let ghost ps = split_char(s@, '\n');
    let m = p.len() - 1;
    let mut r: Vec<Vec<char>> = Vec::new();
    let mut i: usize = 0;
    while i < m
        invariant
            i <= m,
            m + 1 == p@.len(),
            views(p@) == ps,
            views(r@) == strip_all(ps.take(i as int)),
        decreases m - i,
    {
        let line = &p[i];
        assert(line@ == ps[i as int]);
        let k = line.len();
        let l = if k > 0 && line[k - 1] == '\r' {
            copy_range(line.as_slice(), 0, k - 1)
        } else {
            copy_range(line.as_slice(), 0, k)
        };
        assert(l@ == strip_cr(ps[i as int]));
        let ghost before = views(r@);
        r.push(l);
        assert(views(r@) =~= before.push(strip_cr(ps[i as int])));
        assert(strip_all(ps.take(i + 1)) =~= strip_all(ps.take(i as int)).push(strip_cr(ps[i as int])));
        i = i + 1;
    }
    assert(ps.take(m as int) =~= ps.drop_last());
    let last = &p[m];
    assert(last@ == ps.last());
    if last.len() > 0 {
        let l = copy_range(last.as_slice(), 0, last.len());
        assert(l@ =~= ps.last());
        let ghost before = views(r@);
        r.push(l);
        assert(views(r@) =~= before.push(ps.last()));
        assert(views(r@) =~= lines(s@));
    } else {
        assert(views(r@) =~= lines(s@));
    }
    r
}

/// The pieces of `s` between spaces that are not empty, as
/// `split(" ").filter(|s| *s != "")` yields them.
pub open spec fn fields(s: Seq<char>) -> Seq<Seq<char>> {
    nonempty(split_char(s, ' '))
}

/// The elements of `p` that are not empty, in order.
pub open spec fn nonempty(p: Seq<Seq<char>>) -> Seq<Seq<char>>
    decreases p.len(),
{
    if p.len() == 0 {
        seq![]
    } else if p.last().len() == 0 {
        nonempty(p.drop_last())
    } else {
        nonempty(p.drop_last()).push(p.last())
    }
}

/// The non-empty pieces of `s` between spaces.
pub fn fields_of(s: &[char]) -> (r: Vec<Vec<char>>)
    ensures
        views(r@) == fields(s@),
{
    let p = split_chars(s, ' ');
    let ghost ps = split_char(s@, ' ');
    let mut r: Vec<Vec<char>> = Vec::new();
    let mut i: usize = 0;
    while i < p.len()
        invariant
            i <= p@.len(),
            views(p@) == ps,
            views(r@) == nonempty(ps.take(i as int)),
        decreases p@.len() - i,
    {
        assert(ps.take(i + 1).drop_last() =~= ps.take(i as int));
        let w = &p[i];
        assert(w@ == ps[i as int]);
        assert(ps.take(i + 1).last() == ps[i as int]);
        if w.len() > 0 {
            let ghost before = views(r@);
            let c = copy_range(w.as_slice(), 0, w.len());
            assert(c@ =~= ps[i as int]);
            r.push(c);
            assert(views(r@) =~= before.push(ps[i as int]));
        }
        i = i + 1;
    }
    assert(ps.take(p@.len() as int) =~= ps);
    r
}

/// Whether `s` holds `pat` at position `i`.
pub open spec fn occurs_at(s: Seq<char>, pat: Seq<char>, i: int) -> bool {
    0 <= i && i + pat.len() <= s.len() && s.subrange(i, i + pat.len()) == pat
}

/// Whether `pat` occurs in `s`, as `str::contains` answers.
pub open spec fn contains(s: Seq<char>, pat: Seq<char>) -> bool {
    exists|i: int| occurs_at(s, pat, i)
}

/// Whether `s` holds `pat` at position `i`.
fn matches_at(s: &[char], pat: &[char], i: usize) -> (b: bool)
    requires
        i <= s@.len(),
    ensures
        b == occurs_at(s@, pat@, i as int),
{
    if pat.len() > s.len() - i {
        return false;
    }
    let mut k: usize = 0;
    while k < pat.len()
        invariant
            k <= pat@.len(),
            i + pat@.len() <= s.len(),
            forall|j: int| 0 <= j < k ==> s@[i + j] == pat@[j],
        decreases pat@.len() - k,
    {
        if s[i + k] != pat[k] {
            assert(s@.subrange(i as int, i + pat@.len())[k as int] != pat@[k as int]);
            return false;
        }
        k = k + 1;
    }
    assert(s@.subrange(i as int, i + pat@.len()) =~= pat@);
    true
}

/// Whether `pat` occurs in `s`.
pub fn contains_chars(s: &[char], pat: &[char]) -> (b: bool)
    ensures
        b == contains(s@, pat@),
{
    let mut i: usize = 0;
    while i < s.len()
        invariant
            i <= s@.len(),
            forall|j: int| 0 <= j < i ==> !occurs_at(s@, pat@, j),
        decreases s@.len() - i,
    {
        if matches_at(s, pat, i) {
            return true;
        }
        i = i + 1;
    }
    if matches_at(s, pat, i) {
        return true;
    }
    assert forall|j: int| !occurs_at(s@, pat@, j) by {
        if 0 <= j && j <= i {
        }
    }
    false
}

/// Whether two character sequences are equal.
pub fn chars_eq(a: &[char], b: &[char]) -> (r: bool)
    ensures
        r == (a@ == b@),
{
    if a.len() != b.len() {
        return false;
    }
    let mut i: usize = 0;
    while i < a.len()
        invariant
            i <= a@.len(),
            a@.len() == b@.len(),
            forall|j: int| 0 <= j < i ==> a@[j] == b@[j],
        decreases a@.len() - i,
    {
        if a[i] != b[i] {
            return false;
        }
        i = i + 1;
    }
    assert(a@ =~= b@);
    true
}

/// The first position at or after `i` where `pat` occurs in `s`.
pub open spec fn find_from(s: Seq<char>, pat: Seq<char>, i: int) -> Option<int>
    decreases s.len() + 1 - i,
{
    if i < 0 || i + pat.len() > s.len() {
        None
    } else if occurs_at(s, pat, i) {
        Some(i)
    } else {
        find_from(s, pat, i + 1)
    }
}

/// A position that `find_from` gives is an occurrence at or after `i`.
pub proof fn lemma_find_from(s: Seq<char>, pat: Seq<char>, i: int)
    ensures
        find_from(s, pat, i) matches Some(j) ==> i <= j && occurs_at(s, pat, j),
    decreases s.len() + 1 - i,
{
    if 0 <= i && i + pat.len() <= s.len() && !occurs_at(s, pat, i) {
        lemma_find_from(s, pat, i + 1);
    }
}

/// The pieces of `s` between the occurrences of the non-empty `pat`, taken from
/// the left without overlap, as `str::split` with a string pattern yields them.
pub open spec fn split_pat(s: Seq<char>, pat: Seq<char>) -> Seq<Seq<char>>
    decreases s.len(),
{
    if pat.len() == 0 {
        seq![s]
    } else {
        match find_from(s, pat, 0) {
            None => seq![s],
            Some(i) => {
                proof {
                    lemma_find_from(s, pat, 0);
                }
                seq![s.take(i)] + split_pat(s.skip(i + pat.len()), pat)
            },
        }
    }
}

/// Occurrences in a suffix are occurrences in the whole text, shifted.
proof fn lemma_occurs_in_suffix(s: Seq<char>, pat: Seq<char>, start: int, j: int)
    requires
        0 <= start <= s.len(),
        0 <= j,
    ensures
        occurs_at(s.skip(start), pat, j) == occurs_at(s, pat, start + j),
{
    if j + pat.len() <= s.len() - start {
        assert(s.skip(start).subrange(j, j + pat.len()) =~= s.subrange(start + j, start + j
            + pat.len()));
    }
}

/// The pieces of `s` between the occurrences of `pat`.
pub fn split_pattern(s: &[char], pat: &[char]) -> (r: Vec<Vec<char>>)
    requires
        pat@.len() > 0,
    ensures
        views(r@) == split_pat(s@, pat@),
{
    let n = s.len();
    let m = pat.len();
    let mut done: Vec<Vec<char>> = Vec::new();
    let mut start: usize = 0;
    let mut i: usize = 0;
    assert(s@.skip(0) =~= s@);
    while i < n && m <= n - i
        invariant
            n == s@.len(),
            m == pat@.len(),
            m > 0,
            start <= i <= n,
            views(done@) + split_pat(s@.skip(start as int), pat@) == split_pat(s@, pat@),
            find_from(s@.skip(start as int), pat@, 0) == find_from(
                s@.skip(start as int),
                pat@,
                i - start,
            ),
        decreases n - i,
    {
        let ghost rest = s@.skip(start as int);
        proof {
            lemma_occurs_in_suffix(s@, pat@, start as int, i - start);
        }
        if matches_at(s, pat, i) {
            assert(find_from(rest, pat@, i - start) == Some(i - start));
            let piece = copy_range(s, start, i);
            assert(piece@ =~= rest.take(i - start));
            assert(rest.skip(i - start + m) =~= s@.skip(i + m));
            let ghost before = views(done@);
            done.push(piece);
            assert(views(done@) =~= before.push(piece@));
            assert(split_pat(rest, pat@) == seq![rest.take(i - start)] + split_pat(
                s@.skip(i + m),
                pat@,
            ));
            assert(views(done@) + split_pat(s@.skip(i + m), pat@) =~= before + split_pat(
                rest,
                pat@,
            ));
            i = i + m;
            start = i;
        } else {
            i = i + 1;
        }
    }
    let ghost rest = s@.skip(start as int);
    assert(find_from(rest, pat@, i - start) is None);
    let piece = copy_range(s, start, n);
    assert(piece@ =~= rest);
    let ghost before = views(done@);
    done.push(piece);
    assert(views(done@) =~= before + split_pat(rest, pat@));
    done
}

proof fn lemma_join_extend_last(ps: Seq<Seq<char>>, sep: char, c: char)
    requires
        ps.len() >= 1,
    ensures
        joined(ps.update(ps.len() - 1, ps.last().push(c)), seq![sep]) == joined(ps, seq![sep]).push(c),
{
    let qs = ps.update(ps.len() - 1, ps.last().push(c));
    if ps.len() == 1 {
        assert(qs[0] == ps[0].push(c));
    } else {
        assert(qs.drop_last() =~= ps.drop_last());
        assert(qs.last() == ps.last().push(c));
        assert(joined(qs, seq![sep]) == joined(ps.drop_last(), seq![sep]) + seq![sep] + ps.last().push(c));
        assert(joined(ps.drop_last(), seq![sep]) + seq![sep] + ps.last().push(c) =~= (joined(
            ps.drop_last(),
            seq![sep],
        ) + seq![sep] + ps.last()).push(c));
    }
}

/// Joining the pieces of a split with the separator gives the text back.
pub proof fn lemma_split_join(s: Seq<char>, sep: char)
    ensures
        joined(split_char(s, sep), seq![sep]) == s,
    decreases s.len(),
{
    if s.len() > 0 {
        let p = split_char(s.drop_last(), sep);
        lemma_split_join(s.drop_last(), sep);
        lemma_split_char_len(s.drop_last(), sep);
        if s.last() == sep {
            let q = p.push(seq![]);
            assert(q.drop_last() =~= p);
            assert(joined(q, seq![sep]) == joined(p, seq![sep]) + seq![sep] + Seq::<char>::empty());
            assert(joined(q, seq![sep]) =~= s);
        } else {
            lemma_join_extend_last(p, sep, s.last());
            assert(s.drop_last().push(s.last()) =~= s);
        }
    }
}

/// No piece of a split holds the separator.
pub proof fn lemma_split_pieces_free(s: Seq<char>, sep: char, i: int, k: int)
    requires
        0 <= i < split_char(s, sep).len(),
        0 <= k < split_char(s, sep)[i].len(),
    ensures
        split_char(s, sep)[i][k] != sep,
    decreases s.len(),
{
    if s.len() > 0 {
        let p = split_char(s.drop_last(), sep);
        lemma_split_char_len(s.drop_last(), sep);
        if s.last() == sep {
            if i < p.len() {
                lemma_split_pieces_free(s.drop_last(), sep, i, k);
            }
        } else {
            if i < p.len() - 1 {
                lemma_split_pieces_free(s.drop_last(), sep, i, k);
            } else if k < p.last().len() {
                lemma_split_pieces_free(s.drop_last(), sep, i, k);
            }
        }
    }
}

/// A text without the separator splits into itself alone.
pub proof fn lemma_split_without_sep(s: Seq<char>, sep: char)
    requires
        forall|k: int| 0 <= k < s.len() ==> s[k] != sep,
    ensures
        split_char(s, sep) == seq![s],
    decreases s.len(),
{
    if s.len() > 0 {
        lemma_split_without_sep(s.drop_last(), sep);
        assert(s.drop_last().push(s.last()) =~= s);
        assert(split_char(s, sep) =~= seq![s]);
    } else {
        assert(s =~= Seq::<char>::empty());
    }
}

/// The first piece of a split, split again, is itself.
pub proof fn lemma_first_piece_stable(s: Seq<char>, sep: char)
    ensures
        split_char(split_char(s, sep)[0], sep)[0] == split_char(s, sep)[0],
{
    lemma_split_char_len(s, sep);
    let f = split_char(s, sep)[0];
    assert forall|k: int| 0 <= k < f.len() implies f[k] != sep by {
        lemma_split_pieces_free(s, sep, 0, k);
    }
    lemma_split_without_sep(f, sep);
}

proof fn lemma_trim_start_head(s: Seq<char>)
    ensures
        trim_start(s).len() == 0 || !is_ws(trim_start(s)[0]),
    decreases s.len(),
{
    if s.len() > 0 && is_ws(s[0]) {
        lemma_trim_start_head(s.drop_first());
    }
}

proof fn lemma_trim_end_shape(s: Seq<char>)
    ensures
        trim_end(s).len() <= s.len(),
        trim_end(s) == s.take(trim_end(s).len() as int),
        trim_end(s).len() == 0 || !is_ws(trim_end(s).last()),
    decreases s.len(),
{
    if s.len() > 0 && is_ws(s.last()) {
        lemma_trim_end_shape(s.drop_last());
        let t = trim_end(s.drop_last());
        assert(s.drop_last().take(t.len() as int) =~= s.take(t.len() as int));
    } else {
        assert(s.take(s.len() as int) =~= s);
    }
}

/// Trimming a trimmed text changes nothing.
pub proof fn lemma_trim_idempotent(s: Seq<char>)
    ensures
        trim(trim(s)) == trim(s),
{
    let t = trim_start(s);
    lemma_trim_start_head(s);
    lemma_trim_end_shape(t);
    let u = trim_end(t);
    if u.len() > 0 {
        assert(u[0] == t[0]);
    }
    assert(trim_start(u) == u);
    assert(trim_end(u) == u);
}

/// Splitting two texts joined by the separator gives the pieces of the first,
/// then the pieces of the second.
pub proof fn lemma_split_concat(a: Seq<char>, b: Seq<char>, sep: char)
    ensures
        split_char(a + seq![sep] + b, sep) == split_char(a, sep) + split_char(b, sep),
    decreases b.len(),
{
    let ab = a + seq![sep] + b;
    if b.len() == 0 {
        assert(ab.drop_last() =~= a);
        assert(ab.last() == sep);
        assert(split_char(ab, sep) =~= split_char(a, sep) + split_char(b, sep));
    } else {
        lemma_split_concat(a, b.drop_last(), sep);
        assert(ab.drop_last() =~= a + seq![sep] + b.drop_last());
        assert(ab.last() == b.last());
        let x = split_char(a, sep);
        let y = split_char(b.drop_last(), sep);
        lemma_split_char_len(b.drop_last(), sep);
        if b.last() == sep {
            assert((x + y).push(seq![]) =~= x + y.push(seq![]));
        } else {
            assert((x + y).update(x.len() + y.len() - 1, (x + y).last().push(b.last())) =~= x
                + y.update(y.len() - 1, y.last().push(b.last())));
        }
    }
}

/// The texts of a list of strings.
pub open spec fn texts(v: Seq<String>) -> Seq<Seq<char>> {
    v.map_values(|x: String| x@)
}

/// The texts `ps` with `sep` between each two of them.
pub open spec fn joined(ps: Seq<Seq<char>>, sep: Seq<char>) -> Seq<char>
    decreases ps.len(),
{
    if ps.len() == 0 {
        seq![]
    } else if ps.len() == 1 {
        ps[0]
    } else {
        joined(ps.drop_last(), sep) + sep + ps.last()
    }
}

/// The strings of `parts`, with `sep` between each two of them.
pub fn join(parts: &Vec<String>, sep: &str) -> (r: String)
    ensures
        r@ == joined(texts(parts@), sep@),
{
    let ghost ts = texts(parts@);
    let mut r = String::from_str("");
    proof {
        reveal_strlit("");
        assert(ts.take(0) =~= Seq::<Seq<char>>::empty());
    }
    let mut i: usize = 0;
    while i < parts.len()
        invariant
            i <= parts@.len(),
            ts == texts(parts@),
            r@ == joined(ts.take(i as int), sep@),
        decreases parts@.len() - i,
    {
        assert(ts.take(i + 1).drop_last() =~= ts.take(i as int));
        assert(ts.take(i + 1).last() == parts@[i as int]@);
        if i > 0 {
            r.append(sep);
        }
        r.append(parts[i].as_str());
        proof {
            if i == 0 {
                assert(r@ =~= ts.take(1)[0]);
            } else {
                assert(r@ =~= joined(ts.take(i as int), sep@) + sep@ + ts.take(i + 1).last());
            }
        }
        i = i + 1;
    }
    assert(ts.take(parts@.len() as int) =~= ts);
    r
}

} // verus!
