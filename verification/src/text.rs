//! Character-level string operations with their specifications.
use vstd::prelude::*;

verus! {

/// The views of a sequence of strings.
pub open spec fn views(v: Seq<String>) -> Seq<Seq<char>> {
    v.map_values(|s: String| s@)
}

/// Splitting at every occurrence of a character, as `str::split` with a `char`
/// pattern does: there is always at least one piece.
pub open spec fn split_char(s: Seq<char>, c: char) -> Seq<Seq<char>>
    decreases s.len(),
{
    if s.len() == 0 {
        seq![Seq::<char>::empty()]
    } else {
        let r = split_char(s.drop_last(), c);
        if s.last() == c {
            r.push(Seq::<char>::empty())
        } else {
            r.update(r.len() - 1, r.last().push(s.last()))
        }
    }
}

/// Joining pieces with a separator, as `[S]::join` does.
pub open spec fn join(parts: Seq<Seq<char>>, sep: Seq<char>) -> Seq<char>
    decreases parts.len(),
{
    if parts.len() == 0 {
        Seq::<char>::empty()
    } else if parts.len() == 1 {
        parts[0]
    } else {
        join(parts.drop_last(), sep) + sep + parts.last()
    }
}

pub proof fn lemma_split_char_len(s: Seq<char>, c: char)
    ensures
        split_char(s, c).len() >= 1,
    decreases s.len(),
{
    if s.len() > 0 {
        lemma_split_char_len(s.drop_last(), c);
    }
}

/// Splits `s` at every `c`.
pub fn split_char_exec(s: &str, c: char) -> (res: Vec<String>)
    ensures
        views(res@) == split_char(s@, c),
{
    let n = s.unicode_len();
    let mut parts: Vec<String> = Vec::new();
    let mut cur = String::new();
    let mut i: usize = 0;
    while i < n
        invariant
            n == s@.len(),
            i <= n,
            views(parts@).push(cur@) == split_char(s@.take(i as int), c),
        decreases n - i,
    {
        let ch = s.get_char(i);
        let ghost prev = views(parts@).push(cur@);
        proof {
            assert(s@.take(i + 1).last() == ch);
            assert(s@.take(i + 1).drop_last() =~= s@.take(i as int));
            lemma_split_char_len(s@.take(i as int), c);
        }
        if ch == c {
            let ghost before = parts@;
            let done = cur;
            parts.push(done);
            cur = String::new();
            assert(views(parts@) =~= views(before).push(done@));
        } else {
            let piece = s.substring_char(i, i + 1);
            assert(piece@ =~= seq![ch]);
            let ghost old_cur = cur@;
            cur.append(piece);
            assert(cur@ =~= old_cur.push(ch));
            assert(prev.last() == old_cur);
            assert(views(parts@).push(cur@) =~= prev.update(prev.len() - 1, prev.last().push(ch)));
        }
        i = i + 1;
    }
    parts.push(cur);
    proof {
        assert(s@.take(n as int) =~= s@);
    }
    parts
}

} // verus!

verus! {

/// Joins `parts` with `sep` between them.
pub fn join_exec(parts: &Vec<String>, sep: &str) -> (res: String)
    ensures
        res@ == join(views(parts@), sep@),
{
    let mut res = String::new();
    let ghost all = views(parts@);
    let mut i: usize = 0;
    while i < parts.len()
        invariant
            i <= parts.len(),
            all == views(parts@),
            res@ == join(all.take(i as int), sep@),
        decreases parts.len() - i,
    {
        assert(all.take(i + 1).drop_last() =~= all.take(i as int));
        if i != 0 {
            res.append(sep);
        }
        res.append(parts[i].as_str());
        i = i + 1;
    }
    assert(all.take(parts.len() as int) =~= all);
    res
}

/// The characters that `char::is_whitespace` accepts (Unicode `White_Space`).
pub open spec fn is_ws(c: char) -> bool {
    ||| c == '\t' || c == '\n' || c == '\u{0B}' || c == '\u{0C}' || c == '\r' || c == ' '
    ||| c == '\u{85}' || c == '\u{A0}' || c == '\u{1680}'
    ||| ('\u{2000}' <= c && c <= '\u{200A}')
    ||| c == '\u{2028}' || c == '\u{2029}' || c == '\u{202F}' || c == '\u{205F}' || c == '\u{3000}'
}

pub fn is_ws_exec(c: char) -> (r: bool)
    ensures
        r == is_ws(c),
{
    c == '\t' || c == '\n' || c == '\u{0B}' || c == '\u{0C}' || c == '\r' || c == ' ' || c
        == '\u{85}' || c == '\u{A0}' || c == '\u{1680}' || ('\u{2000}' <= c && c <= '\u{200A}')
        || c == '\u{2028}' || c == '\u{2029}' || c == '\u{202F}' || c == '\u{205F}' || c
        == '\u{3000}'
}

/// `str::trim_start`: drops leading whitespace.
pub open spec fn trim_start(s: Seq<char>) -> Seq<char>
    decreases s.len(),
{
    if s.len() > 0 && is_ws(s[0]) {
        trim_start(s.drop_first())
    } else {
        s
    }
}

/// `str::trim_end`: drops trailing whitespace.
pub open spec fn trim_end(s: Seq<char>) -> Seq<char>
    decreases s.len(),
{
    if s.len() > 0 && is_ws(s.last()) {
        trim_end(s.drop_last())
    } else {
        s
    }
}

/// `str::trim`.
pub open spec fn trim(s: Seq<char>) -> Seq<char> {
    trim_end(trim_start(s))
}

/// Drops leading and trailing whitespace, as `str::trim` does.
pub fn trim_exec(s: &str) -> (res: String)
    ensures
        res@ == trim(s@),
{
    let n = s.unicode_len();
    let mut i: usize = 0;
    assert(s@.subrange(0, n as int) =~= s@);
    while i < n && is_ws_exec(s.get_char(i))
        invariant
            n == s@.len(),
            i <= n,
            trim_start(s@) == trim_start(s@.subrange(i as int, n as int)),
        decreases n - i,
    {
        assert(s@.subrange(i as int, n as int).drop_first() =~= s@.subrange(i + 1, n as int));
        i = i + 1;
    }
    assert(trim_start(s@) == s@.subrange(i as int, n as int));
    let mut j: usize = n;
    while j > i && is_ws_exec(s.get_char(j - 1))
        invariant
            n == s@.len(),
            i <= j <= n,
            trim(s@) == trim_end(s@.subrange(i as int, j as int)),
        decreases j,
    {
        assert(s@.subrange(i as int, j as int).drop_last() =~= s@.subrange(i as int, j - 1));
        j = j - 1;
    }
    String::from_str(s.substring_char(i, j))
}

/// The words of `s` as `str::split_whitespace` yields them.
pub open spec fn words(s: Seq<char>) -> Seq<Seq<char>>
    decreases s.len(),
{
    if s.len() == 0 {
        Seq::empty()
    } else {
        let w = words(s.drop_last());
        let x = s.last();
        if is_ws(x) {
            w
        } else if s.len() > 1 && !is_ws(s[s.len() - 2]) && w.len() > 0 {
            w.update(w.len() - 1, w.last().push(x))
        } else {
            w.push(seq![x])
        }
    }
}

/// The `clean` operation of the log page reader: the words of `s` joined by
/// single spaces.
pub open spec fn clean(s: Seq<char>) -> Seq<char> {
    join(words(s), seq![' '])
}

pub proof fn lemma_words_last_nonempty(s: Seq<char>)
    ensures
        s.len() > 0 && !is_ws(s.last()) ==> words(s).len() > 0,
        forall|k: int| 0 <= k < words(s).len() ==> #[trigger] words(s)[k].len() > 0,
    decreases s.len(),
{
    if s.len() > 0 {
        lemma_words_last_nonempty(s.drop_last());
        let w = words(s.drop_last());
        let x = s.last();
        if !is_ws(x) && s.len() > 1 && !is_ws(s[s.len() - 2]) && w.len() > 0 {
            assert forall|k: int| 0 <= k < words(s).len() implies #[trigger] words(s)[k].len() > 0 by {
                if k < w.len() - 1 {
                    assert(words(s)[k] == w[k]);
                }
            }
        }
    }
}

/// Splits `s` into its whitespace-separated words.
pub fn words_exec(s: &str) -> (res: Vec<String>)
    ensures
        views(res@) == words(s@),
{
    let n = s.unicode_len();
    let mut out: Vec<String> = Vec::new();
    let mut i: usize = 0;
    while i < n
        invariant
            n == s@.len(),
            i <= n,
            views(out@) == words(s@.take(i as int)),
        decreases n - i,
    {
        let c = s.get_char(i);
        let ghost pre = s@.take(i as int);
        proof {
            assert(s@.take(i + 1).drop_last() =~= pre);
            assert(s@.take(i + 1).last() == c);
            lemma_words_last_nonempty(pre);
        }
        if !is_ws_exec(c) {
            let piece = s.substring_char(i, i + 1);
            assert(piece@ =~= seq![c]);
            if i > 0 && !is_ws_exec(s.get_char(i - 1)) && out.len() > 0 {
                let ghost before = views(out@);
                let last = out.len() - 1;
                let mut w = out[last].clone();
                assert(w@ == before.last());
                w.append(piece);
                assert(w@ =~= before.last().push(c));
                out.set(last, w);
                assert(views(out@) =~= before.update(before.len() - 1, before.last().push(c)));
            } else {
                let ghost before = views(out@);
                out.push(String::from_str(piece));
                assert(views(out@) =~= before.push(seq![c]));
            }
        }
        i = i + 1;
    }
    assert(s@.take(n as int) =~= s@);
    out
}

/// The words of `s` joined by single spaces.
pub fn clean_exec(s: &str) -> (res: String)
    ensures
        res@ == clean(s@),
{
    let w = words_exec(s);
    let r = join_exec(&w, " ");
    proof {
        reveal_strlit(" ");
        assert(" "@ =~= seq![' ']);
    }
    r
}

} // verus!

verus! {

/// Whether `s` starts with `p`.
pub open spec fn is_prefix(p: Seq<char>, s: Seq<char>) -> bool {
    p.len() <= s.len() && s.take(p.len() as int) == p
}

/// Whether `s` ends with `p`.
pub open spec fn is_suffix(p: Seq<char>, s: Seq<char>) -> bool {
    p.len() <= s.len() && s.skip(s.len() - p.len()) == p
}

/// Character-wise equality of two string slices.
pub fn str_eq(a: &str, b: &str) -> (r: bool)
    ensures
        r == (a@ == b@),
{
    let n = a.unicode_len();
    let m = b.unicode_len();
    if n != m {
        return false;
    }
    let mut i: usize = 0;
    while i < n
        invariant
            n == a@.len(),
            m == b@.len(),
            n == m,
            i <= n,
            forall|k: int| 0 <= k < i ==> a@[k] == b@[k],
        decreases n - i,
    {
        if a.get_char(i) != b.get_char(i) {
            return false;
        }
        i = i + 1;
    }
    assert(a@ =~= b@);
    true
}

/// Whether `s` starts with `p`.
pub fn starts_with(s: &str, p: &str) -> (r: bool)
    ensures
        r == is_prefix(p@, s@),
{
    let n = s.unicode_len();
    let m = p.unicode_len();
    if m > n {
        return false;
    }
    let mut i: usize = 0;
    while i < m
        invariant
            n == s@.len(),
            m == p@.len(),
            m <= n,
            i <= m,
            forall|k: int| 0 <= k < i ==> s@[k] == p@[k],
        decreases m - i,
    {
        if s.get_char(i) != p.get_char(i) {
            assert(s@.take(m as int)[i as int] != p@[i as int]);
            return false;
        }
        i = i + 1;
    }
    assert(s@.take(m as int) =~= p@);
    true
}

/// Whether `s` ends with `p`.
pub fn ends_with(s: &str, p: &str) -> (r: bool)
    ensures
        r == is_suffix(p@, s@),
{
    let n = s.unicode_len();
    let m = p.unicode_len();
    if m > n {
        return false;
    }
    let d = n - m;
    let mut i: usize = 0;
    while i < m
        invariant
            n == s@.len(),
            m == p@.len(),
            m <= n,
            d == n - m,
            i <= m,
            forall|k: int| 0 <= k < i ==> s@[d + k] == p@[k],
        decreases m - i,
    {
        if s.get_char(d + i) != p.get_char(i) {
            assert(s@.skip(d as int)[i as int] != p@[i as int]);
            return false;
        }
        i = i + 1;
    }
    assert(s@.skip(d as int) =~= p@);
    true
}

/// Index of the first `c` in `s`, or -1.
pub open spec fn first_char(s: Seq<char>, c: char) -> int
    decreases s.len(),
{
    if s.len() == 0 {
        -1
    } else {
        let f = first_char(s.drop_last(), c);
        if f >= 0 {
            f
        } else if s.last() == c {
            s.len() - 1
        } else {
            -1
        }
    }
}

pub proof fn lemma_first_char(s: Seq<char>, c: char)
    ensures
        -1 <= first_char(s, c) < s.len(),
        first_char(s, c) >= 0 ==> s[first_char(s, c)] == c,
        forall|k: int| 0 <= k < s.len() && (first_char(s, c) < 0 || k < first_char(s, c)) ==> s[k] != c,
    decreases s.len(),
{
    if s.len() > 0 {
        lemma_first_char(s.drop_last(), c);
        assert forall|k: int|
            0 <= k < s.len() && (first_char(s, c) < 0 || k < first_char(s, c)) implies s[k] != c by {
            if k < s.len() - 1 {
                assert(s[k] == s.drop_last()[k]);
            }
        }
    }
}

/// Index of the first `c` in `s`, if any.
pub fn find_char(s: &str, c: char) -> (r: Option<usize>)
    ensures
        r is Some <==> first_char(s@, c) >= 0,
        r matches Some(i) ==> i == first_char(s@, c),
{
    let n = s.unicode_len();
    let mut i: usize = 0;
    while i < n
        invariant
            n == s@.len(),
            i <= n,
            first_char(s@.take(i as int), c) == -1,
        decreases n - i,
    {
        assert(s@.take(i + 1).drop_last() =~= s@.take(i as int));
        if s.get_char(i) == c {
            proof {
                lemma_first_char(s@, c);
                lemma_first_char(s@.take(i as int), c);
                lemma_first_char_prefix(s@, c, i + 1);
            }
            return Some(i);
        }
        i = i + 1;
    }
    assert(s@.take(n as int) =~= s@);
    None
}

/// A first occurrence in a prefix is the first occurrence in the whole.
pub proof fn lemma_first_char_prefix(s: Seq<char>, c: char, k: int)
    requires
        0 <= k <= s.len(),
        first_char(s.take(k), c) >= 0,
    ensures
        first_char(s, c) == first_char(s.take(k), c),
    decreases s.len() - k,
{
    if k < s.len() {
        assert(s.take(k + 1).drop_last() =~= s.take(k));
        lemma_first_char_prefix(s, c, k + 1);
    } else {
        assert(s.take(k) =~= s);
    }
}

/// `str::split_once` with a `char` pattern.
pub open spec fn split_once(s: Seq<char>, c: char) -> Option<(Seq<char>, Seq<char>)> {
    let i = first_char(s, c);
    if i >= 0 {
        Some((s.take(i), s.skip(i + 1)))
    } else {
        None
    }
}

/// Splits `s` at the first `c`.
pub fn split_once_exec(s: &str, c: char) -> (r: Option<(String, String)>)
    ensures
        r is Some <==> split_once(s@, c) is Some,
        r matches Some(p) ==> split_once(s@, c) == Some((p.0@, p.1@)),
{
    proof {
        lemma_first_char(s@, c);
    }
    match find_char(s, c) {
        Some(i) => {
            let n = s.unicode_len();
            let a = String::from_str(s.substring_char(0, i));
            let b = String::from_str(s.substring_char(i + 1, n));
            assert(a@ =~= s@.take(i as int));
            assert(b@ =~= s@.skip(i + 1));
            Some((a, b))
        },
        None => None,
    }
}

/// Every non-overlapping occurrence of `p`, from the left, becomes `r`, as
/// `str::replace` does for a non-empty `p`. An empty `p` leaves `s` as it is
/// (unlike `str::replace`); every caller here replaces a non-empty pattern.
pub open spec fn replace(s: Seq<char>, p: Seq<char>, r: Seq<char>) -> Seq<char>
    decreases s.len(),
{
    if s.len() == 0 || p.len() == 0 {
        s
    } else if is_prefix(p, s) {
        r + replace(s.skip(p.len() as int), p, r)
    } else {
        seq![s[0]] + replace(s.skip(1), p, r)
    }
}

/// Replaces every occurrence of `p` in `s` by `r`.
pub fn replace_exec(s: &str, p: &str, r: &str) -> (res: String)
    requires
        p@.len() > 0,
    ensures
        res@ == replace(s@, p@, r@),
{
    let n = s.unicode_len();
    let m = p.unicode_len();
    let mut out = String::new();
    let mut i: usize = 0;
    assert(s@.skip(0) =~= s@);
    while i < n
        invariant
            n == s@.len(),
            m == p@.len(),
            m > 0,
            i <= n,
            out@ + replace(s@.skip(i as int), p@, r@) == replace(s@, p@, r@),
        decreases n - i,
    {
        let rest = s.substring_char(i, n);
        assert(rest@ =~= s@.skip(i as int));
        if starts_with(rest, p) {
            assert(s@.skip(i as int).skip(m as int) =~= s@.skip(i + m));
            out.append(r);
            assert(out@ + replace(s@.skip(i + m), p@, r@) =~= replace(s@, p@, r@));
            i = i + m;
        } else {
            let piece = s.substring_char(i, i + 1);
            assert(piece@ =~= seq![s@[i as int]]);
            assert(s@.skip(i as int).skip(1) =~= s@.skip(i + 1));
            out.append(piece);
            assert(out@ + replace(s@.skip(i + 1), p@, r@) =~= replace(s@, p@, r@));
            i = i + 1;
        }
    }
    assert(s@.skip(n as int) =~= Seq::<char>::empty());
    assert(out@ =~= replace(s@, p@, r@));
    out
}

/// `str::trim_end_matches` with a string pattern.
pub open spec fn trim_end_matches(s: Seq<char>, p: Seq<char>) -> Seq<char>
    decreases s.len(),
{
    if p.len() > 0 && is_suffix(p, s) {
        trim_end_matches(s.take(s.len() - p.len()), p)
    } else {
        s
    }
}

/// Drops every trailing occurrence of `p` from `s`.
pub fn trim_end_matches_exec(s: &str, p: &str) -> (res: String)
    ensures
        res@ == trim_end_matches(s@, p@),
{
    let m = p.unicode_len();
    let mut cur = String::from_str(s);
    if m == 0 {
        return cur;
    }
    while ends_with(cur.as_str(), p)
        invariant
            m == p@.len(),
            m > 0,
            trim_end_matches(cur@, p@) == trim_end_matches(s@, p@),
        decreases cur@.len(),
    {
        let k = cur.as_str().unicode_len();
        let next = String::from_str(cur.as_str().substring_char(0, k - m));
        assert(next@ =~= cur@.take(cur@.len() - m));
        cur = next;
    }
    cur
}

} // verus!

verus! {

/// `p` occurs in `s` at index `i`.
pub open spec fn occurs_at(s: Seq<char>, p: Seq<char>, i: int) -> bool {
    0 <= i && i + p.len() <= s.len() && s.subrange(i, i + p.len()) == p
}

/// `str::contains` with a string pattern.
pub open spec fn contains_str(s: Seq<char>, p: Seq<char>) -> bool {
    exists|i: int| #[trigger] occurs_at(s, p, i)
}

/// Index of the first occurrence of `p` in `s`, or -1.
#[verifier::opaque]
pub open spec fn find_str(s: Seq<char>, p: Seq<char>) -> int {
    if contains_str(s, p) {
        choose|i: int| #[trigger] occurs_at(s, p, i) && forall|j: int| 0 <= j < i ==> !occurs_at(s, p, j)
    } else {
        -1
    }
}

/// Index of the first occurrence of `p` in `s`, if any.
pub fn find_str_exec(s: &str, p: &str) -> (r: Option<usize>)
    ensures
        r is Some <==> contains_str(s@, p@),
        r matches Some(i) ==> i == find_str(s@, p@) && occurs_at(s@, p@, i as int),
        r is None ==> find_str(s@, p@) == -1,
{
    reveal(find_str);
    let n = s.unicode_len();
    let m = p.unicode_len();
    if m > n {
        assert forall|i: int| !occurs_at(s@, p@, i) by {}
        return None;
    }
    if m == 0 {
        assert(s@.subrange(0, 0) =~= p@);
        assert(occurs_at(s@, p@, 0));
        let ghost c = choose|k: int| #[trigger] occurs_at(s@, p@, k) && forall|j: int| 0 <= j < k ==> !occurs_at(s@, p@, j);
        assert(c == 0) by {
            if c > 0 {
                assert(!occurs_at(s@, p@, 0));
            }
        }
        return Some(0);
    }
    let mut i: usize = 0;
    while i <= n - m
        invariant
            n == s@.len(),
            m == p@.len(),
            m <= n,
            m > 0,
            i <= n - m + 1,
            forall|j: int| 0 <= j < i ==> !occurs_at(s@, p@, j),
        decreases n - m + 1 - i,
    {
        let rest = s.substring_char(i, n);
        if starts_with(rest, p) {
            assert(rest@.take(m as int) =~= s@.subrange(i as int, i + m));
            assert(occurs_at(s@, p@, i as int));
            assert(occurs_at(s@, p@, i as int) && forall|j: int| 0 <= j < i ==> !occurs_at(s@, p@, j));
            reveal(find_str);
            let ghost c = choose|k: int| #[trigger] occurs_at(s@, p@, k) && forall|j: int| 0 <= j < k ==> !occurs_at(s@, p@, j);
            assert(c == i) by {
                if c < i {} else if c > i {}
            }
            return Some(i);
        }
        assert(!occurs_at(s@, p@, i as int)) by {
            if occurs_at(s@, p@, i as int) {
                assert(rest@.take(m as int) =~= s@.subrange(i as int, i + m));
            }
        }
        i = i + 1;
    }
    assert forall|j: int| !occurs_at(s@, p@, j) by {
        if 0 <= j < i {}
    }
    None
}

/// Whether `p` occurs in `s`.
pub fn contains_exec(s: &str, p: &str) -> (r: bool)
    ensures
        r == contains_str(s@, p@),
{
    find_str_exec(s, p).is_some()
}

/// The piece after the first `p` and before the next one: the second item of
/// `str::split` with pattern `p`, if there is one.
pub open spec fn second_piece(s: Seq<char>, p: Seq<char>) -> Option<Seq<char>> {
    let f = find_str(s, p);
    if f >= 0 {
        let a = s.skip(f + p.len());
        let g = find_str(a, p);
        Some(if g >= 0 { a.take(g) } else { a })
    } else {
        None
    }
}

/// The second item of splitting `s` at `p`, if there is one.
pub fn second_piece_exec(s: &str, p: &str) -> (r: Option<String>)
    requires
        p@.len() > 0,
    ensures
        r is Some <==> second_piece(s@, p@) is Some,
        r matches Some(t) ==> second_piece(s@, p@) == Some(t@),
{
    match find_str_exec(s, p) {
        None => None,
        Some(f) => {
            let n = s.unicode_len();
            let m = p.unicode_len();
            let a = s.substring_char(f + m, n);
            assert(a@ =~= s@.skip(f + m));
            match find_str_exec(a, p) {
                Some(g) => {
                    let t = String::from_str(a.substring_char(0, g));
                    assert(t@ =~= a@.take(g as int));
                    Some(t)
                },
                None => Some(String::from_str(a)),
            }
        },
    }
}

/// Drops one trailing carriage return.
pub open spec fn strip_cr(l: Seq<char>) -> Seq<char> {
    if l.len() > 0 && l.last() == '\r' {
        l.drop_last()
    } else {
        l
    }
}

/// The lines of `s` as `str::lines` yields them: split at `\n`, a `\r`
/// before a `\n` dropped, and no empty last line after a final `\n`.
pub open spec fn lines(s: Seq<char>) -> Seq<Seq<char>> {
    if s.len() == 0 {
        Seq::empty()
    } else {
        let parts = split_char(s, '\n');
        let body = parts.drop_last().map_values(|l: Seq<char>| strip_cr(l));
        if parts.last().len() == 0 {
            body
        } else {
            body.push(parts.last())
        }
    }
}

/// The lines of `s`.
pub fn lines_exec(s: &str) -> (res: Vec<String>)
    ensures
        views(res@) == lines(s@),
{
    let mut res: Vec<String> = Vec::new();
    if s.unicode_len() == 0 {
        assert(views(res@) =~= lines(s@));
        return res;
    }
    let parts = split_char_exec(s, '\n');
    proof {
        lemma_split_char_len(s@, '\n');
    }
    let k = parts.len() - 1;
    let ghost body = views(parts@).drop_last().map_values(|l: Seq<char>| strip_cr(l));
    let mut i: usize = 0;
    while i < k
        invariant
            k + 1 == parts.len(),
            i <= k,
            body == views(parts@).drop_last().map_values(|l: Seq<char>| strip_cr(l)),
            views(res@) == body.take(i as int),
        decreases k - i,
    {
        let l = parts[i].as_str();
        let n = l.unicode_len();
        let ghost before = views(res@);
        assert(body[i as int] == strip_cr(l@));
        if n > 0 && l.get_char(n - 1) == '\r' {
            let t = String::from_str(l.substring_char(0, n - 1));
            assert(t@ =~= l@.drop_last());
            res.push(t);
            assert(views(res@) =~= before.push(strip_cr(l@)));
        } else {
            res.push(String::from_str(l));
            assert(views(res@) =~= before.push(strip_cr(l@)));
        }
        assert(views(res@) =~= body.take(i + 1));
        i = i + 1;
    }
    assert(body.take(k as int) =~= body);
    if parts[k].as_str().unicode_len() > 0 {
        let ghost before = views(res@);
        res.push(parts[k].clone());
        assert(views(res@) =~= before.push(views(parts@).last()));
    }
    res
}

/// Whether `c` is an ASCII digit.
pub open spec fn is_digit(c: char) -> bool {
    '0' <= c && c <= '9'
}

/// The value of a string of decimal digits.
pub open spec fn digits_value(s: Seq<char>) -> int
    decreases s.len(),
{
    if s.len() == 0 {
        0
    } else {
        digits_value(s.drop_last()) * 10 + (s.last() as int - '0' as int)
    }
}

/// The sign and digits of an integer literal as `i32::from_str` reads it.
pub open spec fn signed_parts(s: Seq<char>) -> (bool, Seq<char>) {
    if s.len() > 0 && s[0] == '-' {
        (true, s.drop_first())
    } else if s.len() > 0 && s[0] == '+' {
        (false, s.drop_first())
    } else {
        (false, s)
    }
}

/// `i32::from_str`: an optional sign, then one or more decimal digits, in range.
pub open spec fn parse_i32(s: Seq<char>) -> Option<i32> {
    let (neg, ds) = signed_parts(s);
    if ds.len() == 0 || !(forall|k: int| 0 <= k < ds.len() ==> is_digit(#[trigger] ds[k])) {
        None
    } else {
        let v = if neg { -digits_value(ds) } else { digits_value(ds) };
        if i32::MIN <= v <= i32::MAX {
            Some(v as i32)
        } else {
            None
        }
    }
}

pub proof fn lemma_digits_value_grows(s: Seq<char>, k: int)
    requires
        0 <= k <= s.len(),
        forall|j: int| 0 <= j < s.len() ==> is_digit(#[trigger] s[j]),
    ensures
        digits_value(s) >= digits_value(s.take(k)) >= 0,
    decreases s.len() - k,
{
    if k < s.len() {
        assert(s.take(k + 1).drop_last() =~= s.take(k));
        assert(is_digit(s.take(k + 1).last()));
        lemma_digits_value_grows(s, k + 1);
    } else {
        assert(s.take(k) =~= s);
        lemma_digits_value_nonneg(s);
    }
}

pub proof fn lemma_digits_value_nonneg(s: Seq<char>)
    requires
        forall|j: int| 0 <= j < s.len() ==> is_digit(#[trigger] s[j]),
    ensures
        digits_value(s) >= 0,
    decreases s.len(),
{
    if s.len() > 0 {
        assert(is_digit(s.last()));
        assert forall|j: int| 0 <= j < s.drop_last().len() implies is_digit(#[trigger] s.drop_last()[j]) by {
            assert(s.drop_last()[j] == s[j]);
        }
        lemma_digits_value_nonneg(s.drop_last());
    }
}

/// Parses a decimal `i32` as `str::parse::<i32>` does.
pub fn parse_i32_exec(s: &str) -> (r: Option<i32>)
    ensures
        r == parse_i32(s@),
{
    let n = s.unicode_len();
    let mut start: usize = 0;
    let mut neg = false;
    if n > 0 && s.get_char(0) == '-' {
        start = 1;
        neg = true;
    } else if n > 0 && s.get_char(0) == '+' {
        start = 1;
    }
    let ghost ds = signed_parts(s@).1;
    assert(ds =~= s@.skip(start as int));
    assert(neg == signed_parts(s@).0);
    if start == n {
        return None;
    }
    let mut acc: i64 = 0;
    let mut i: usize = start;
    while i < n
        invariant
            n == s@.len(),
            start <= i <= n,
            start < n,
            ds == s@.skip(start as int),
            ds == signed_parts(s@).1,
            forall|k: int| 0 <= k < i - start ==> is_digit(#[trigger] ds[k]),
            acc == digits_value(ds.take(i - start)),
            0 <= acc <= 2147483648,
        decreases n - i,
    {
        let c = s.get_char(i);
        if !('0' <= c && c <= '9') {
            assert(ds[i - start] == c);
            assert(!is_digit(ds[i - start]));
            proof {
                lemma_parse_nondigit(s@, i - start);
            }
            return None;
        }
        assert(ds.take(i - start + 1).drop_last() =~= ds.take(i - start));
        assert(ds.take(i - start + 1).last() == c);
        let d = (c as u32 - '0' as u32) as i64;
        acc = acc * 10 + d;
        i = i + 1;
        if acc > 2147483648 {
            proof {
                lemma_digits_value_grows_rest(ds, i - start);
                if forall|j: int| 0 <= j < ds.len() ==> is_digit(#[trigger] ds[j]) {
                    lemma_parse_too_big(s@);
                } else {
                    let k = choose|j: int| 0 <= j < ds.len() && !is_digit(#[trigger] ds[j]);
                    lemma_parse_nondigit(s@, k);
                }
            }
            return None;
        }
    }
    assert(ds.take(n - start) =~= ds);
    if neg {
        Some((0 - acc) as i32)
    } else if acc <= 2147483647 {
        Some(acc as i32)
    } else {
        None
    }
}

/// A character that is not a digit makes `parse_i32` fail.
pub proof fn lemma_parse_nondigit(s: Seq<char>, k: int)
    requires
        0 <= k < signed_parts(s).1.len(),
        !is_digit(signed_parts(s).1[k]),
    ensures
        parse_i32(s) is None,
{
}

/// A value beyond the range of `i32` makes `parse_i32` fail.
pub proof fn lemma_parse_too_big(s: Seq<char>)
    requires
        digits_value(signed_parts(s).1) > 2147483648,
    ensures
        parse_i32(s) is None,
{
}

/// Once the digits read so far exceed the `i32` range, no valid literal
/// follows: either a later character is not a digit or the value stays too large.
pub proof fn lemma_digits_value_grows_rest(ds: Seq<char>, k: int)
    requires
        0 <= k <= ds.len(),
        forall|j: int| 0 <= j < k ==> is_digit(#[trigger] ds[j]),
        digits_value(ds.take(k)) > 2147483648,
    ensures
        (forall|j: int| 0 <= j < ds.len() ==> is_digit(#[trigger] ds[j])) ==> digits_value(ds) > 2147483648,
{
    if forall|j: int| 0 <= j < ds.len() ==> is_digit(#[trigger] ds[j]) {
        lemma_digits_value_grows(ds, k);
    }
}

} // verus!

verus! {

/// The items of `s` in order, each kept at its first occurrence only.
pub open spec fn dedup(s: Seq<Seq<char>>) -> Seq<Seq<char>>
    decreases s.len(),
{
    if s.len() == 0 {
        Seq::empty()
    } else {
        let d = dedup(s.drop_last());
        if d.contains(s.last()) {
            d
        } else {
            d.push(s.last())
        }
    }
}

/// Whether `s` is among the strings of `v`.
pub fn contains_string(v: &Vec<String>, s: &str) -> (r: bool)
    ensures
        r == views(v@).contains(s@),
{
    let mut i: usize = 0;
    while i < v.len()
        invariant
            i <= v.len(),
            forall|j: int| 0 <= j < i ==> views(v@)[j] != s@,
        decreases v.len() - i,
    {
        if str_eq(v[i].as_str(), s) {
            assert(views(v@)[i as int] == s@);
            return true;
        }
        i = i + 1;
    }
    false
}

/// Keeps the first occurrence of each string, in order.
pub fn dedup_exec(v: &Vec<String>) -> (r: Vec<String>)
    ensures
        views(r@) == dedup(views(v@)),
{
    let mut out: Vec<String> = Vec::new();
    let ghost all = views(v@);
    let mut i: usize = 0;
    while i < v.len()
        invariant
            i <= v.len(),
            all == views(v@),
            views(out@) == dedup(all.take(i as int)),
        decreases v.len() - i,
    {
        assert(all.take(i + 1).drop_last() =~= all.take(i as int));
        assert(all.take(i + 1).last() == v[i as int]@);
        if !contains_string(&out, v[i].as_str()) {
            let ghost before = views(out@);
            out.push(v[i].clone());
            assert(views(out@) =~= before.push(v[i as int]@));
        }
        i = i + 1;
    }
    assert(all.take(v.len() as int) =~= all);
    out
}

} // verus!

verus! {

pub proof fn lemma_prefix_char(c: char, s: Seq<char>)
    ensures
        is_prefix(seq![c], s) == (s.len() > 0 && s[0] == c),
{
    if s.len() > 0 {
        if s[0] == c {
            assert(s.take(1) =~= seq![c]);
        } else {
            assert(s.take(1)[0] != seq![c][0]);
        }
    }
}

pub proof fn lemma_suffix_char(c: char, s: Seq<char>)
    ensures
        is_suffix(seq![c], s) == (s.len() > 0 && s.last() == c),
{
    if s.len() > 0 {
        if s.last() == c {
            assert(s.skip(s.len() - 1) =~= seq![c]);
        } else {
            assert(s.skip(s.len() - 1)[0] != seq![c][0]);
        }
    }
}

} // verus!

verus! {

/// What `trim_end_matches` leaves does not end with the pattern.
pub proof fn lemma_trim_end_matches_done(s: Seq<char>, p: Seq<char>)
    requires
        p.len() > 0,
    ensures
        !is_suffix(p, trim_end_matches(s, p)),
    decreases s.len(),
{
    if is_suffix(p, s) {
        lemma_trim_end_matches_done(s.take(s.len() - p.len()), p);
    }
}

} // verus!

verus! {

/// No piece of `split_char(s, c)` holds `c`.
pub proof fn lemma_split_char_pieces(s: Seq<char>, c: char)
    ensures
        forall|k: int| 0 <= k < split_char(s, c).len() ==> !(#[trigger] split_char(s, c)[k]).contains(c),
    decreases s.len(),
{
    if s.len() > 0 {
        lemma_split_char_pieces(s.drop_last(), c);
        lemma_split_char_len(s.drop_last(), c);
        let r = split_char(s.drop_last(), c);
        if s.last() != c {
            assert forall|k: int| 0 <= k < split_char(s, c).len() implies !(#[trigger] split_char(s, c)[k]).contains(c) by {
                if k == r.len() - 1 {
                    let p = r.last().push(s.last());
                    assert forall|j: int| 0 <= j < p.len() implies p[j] != c by {
                        if j < p.len() - 1 {
                            assert(p[j] == r.last()[j]);
                            assert(!r[r.len() - 1].contains(c));
                            if r.last()[j] == c {
                                assert(r[r.len() - 1].contains(c));
                            }
                        }
                    }
                } else {
                    assert(split_char(s, c)[k] == r[k]);
                }
            }
        } else {
            assert forall|k: int| 0 <= k < split_char(s, c).len() implies !(#[trigger] split_char(s, c)[k]).contains(c) by {
                if k < r.len() {
                    assert(split_char(s, c)[k] == r[k]);
                } else {
                    assert(split_char(s, c)[k] =~= Seq::<char>::empty());
                }
            }
        }
    }
}

/// A text without `c` is one piece.
pub proof fn lemma_split_char_whole(b: Seq<char>, c: char)
    requires
        !b.contains(c),
    ensures
        split_char(b, c) == seq![b],
    decreases b.len(),
{
    if b.len() > 0 {
        assert(!b.drop_last().contains(c)) by {
            if b.drop_last().contains(c) {
                let j = choose|j: int| 0 <= j < b.drop_last().len() && b.drop_last()[j] == c;
                assert(b[j] == c);
            }
        }
        lemma_split_char_whole(b.drop_last(), c);
        assert(b.last() != c) by {
            assert(b[b.len() - 1] == b.last());
        }
        assert(b.drop_last().push(b.last()) =~= b);
        assert(split_char(b, c) =~= seq![b]);
    } else {
        assert(b =~= Seq::<char>::empty());
        assert(split_char(b, c) =~= seq![b]);
    }
}

/// Splitting at a separator splits each side apart.
pub proof fn lemma_split_char_concat(a: Seq<char>, b: Seq<char>, c: char)
    ensures
        split_char(a + seq![c] + b, c) == split_char(a, c) + split_char(b, c),
    decreases b.len(),
{
    lemma_split_char_len(a, c);
    if b.len() == 0 {
        assert((a + seq![c] + b).drop_last() =~= a);
        assert(split_char(b, c) =~= seq![Seq::<char>::empty()]);
        assert(split_char(a + seq![c] + b, c) =~= split_char(a, c) + split_char(b, c));
    } else {
        let s = a + seq![c] + b;
        assert(s.drop_last() =~= a + seq![c] + b.drop_last());
        assert(s.last() == b.last());
        lemma_split_char_concat(a, b.drop_last(), c);
        lemma_split_char_len(b.drop_last(), c);
        let ra = split_char(a, c);
        let rb = split_char(b.drop_last(), c);
        if b.last() == c {
            assert(split_char(s, c) =~= ra + rb.push(Seq::<char>::empty()));
        } else {
            assert((ra + rb).last() == rb.last());
            assert(split_char(s, c) =~= ra + rb.update(rb.len() - 1, rb.last().push(b.last())));
        }
    }
}

/// Splitting a join at its separator gives back the pieces, when none holds
/// the separator.
pub proof fn lemma_split_join(xs: Seq<Seq<char>>, c: char)
    requires
        xs.len() > 0,
        forall|k: int| 0 <= k < xs.len() ==> !(#[trigger] xs[k]).contains(c),
    ensures
        split_char(join(xs, seq![c]), c) == xs,
    decreases xs.len(),
{
    if xs.len() == 1 {
        assert(!xs[0].contains(c));
        lemma_split_char_whole(xs[0], c);
        assert(seq![xs[0]] =~= xs);
    } else {
        let init = xs.drop_last();
        assert forall|k: int| 0 <= k < init.len() implies !(#[trigger] init[k]).contains(c) by {
            assert(init[k] == xs[k]);
        }
        lemma_split_join(init, c);
        assert(!xs[xs.len() - 1].contains(c));
        lemma_split_char_whole(xs.last(), c);
        lemma_split_char_concat(join(init, seq![c]), xs.last(), c);
        assert(init + seq![xs.last()] =~= xs);
    }
}

/// Words hold no whitespace and are not empty.
pub proof fn lemma_words_shape(s: Seq<char>)
    ensures
        forall|k: int| 0 <= k < words(s).len() ==> (#[trigger] words(s)[k]).len() > 0 && forall|j: int|
            0 <= j < words(s)[k].len() ==> !is_ws(words(s)[k][j]),
    decreases s.len(),
{
    lemma_words_last_nonempty(s);
    if s.len() > 0 {
        lemma_words_shape(s.drop_last());
        let w = words(s.drop_last());
        let x = s.last();
        assert forall|k: int| 0 <= k < words(s).len() implies (#[trigger] words(s)[k]).len() > 0 && forall|j: int|
            0 <= j < words(s)[k].len() ==> !is_ws(words(s)[k][j]) by {
            if k < w.len() && !(k == w.len() - 1 && !is_ws(x) && s.len() > 1 && !is_ws(s[s.len() - 2])) {
                assert(words(s)[k] == w[k]);
            } else if k == w.len() - 1 {
                let p = w.last().push(x);
                assert(words(s)[k] == p);
                assert forall|j: int| 0 <= j < p.len() implies !is_ws(p[j]) by {
                    if j < p.len() - 1 {
                        assert(p[j] == w[w.len() - 1][j]);
                    }
                }
            } else {
                assert(words(s)[k] == seq![x]);
            }
        }
    }
}

/// A word on its own is one word.
proof fn lemma_words_single(b: Seq<char>)
    requires
        b.len() > 0,
        forall|j: int| 0 <= j < b.len() ==> !is_ws(#[trigger] b[j]),
    ensures
        words(b) == seq![b],
    decreases b.len(),
{
    if b.len() == 1 {
        assert(b.drop_last() =~= Seq::<char>::empty());
        assert(words(b.drop_last()) =~= Seq::<Seq<char>>::empty());
        assert(!is_ws(b[0]));
        assert(b.last() == b[0]);
        assert(seq![b.last()] =~= b);
        assert(words(b) =~= seq![b]);
    } else {
        lemma_words_single(b.drop_last());
        assert(!is_ws(b[b.len() - 2]));
        assert(!is_ws(b[b.len() - 1]));
        assert(b.drop_last().push(b.last()) =~= b);
        assert(words(b) =~= seq![b]);
    }
}

/// A space separates the words on each side.
proof fn lemma_words_concat(a: Seq<char>, b: Seq<char>)
    ensures
        words(a + seq![' '] + b) == words(a) + words(b),
    decreases b.len(),
{
    let s = a + seq![' '] + b;
    if b.len() == 0 {
        assert(s.drop_last() =~= a);
        assert(words(s) =~= words(a) + words(b));
    } else {
        assert(s.drop_last() =~= a + seq![' '] + b.drop_last());
        assert(s.last() == b.last());
        lemma_words_concat(a, b.drop_last());
        lemma_words_last_nonempty(b.drop_last());
        let wa = words(a);
        let wb = words(b.drop_last());
        let x = b.last();
        if !is_ws(x) {
            if b.len() > 1 {
                assert(s[s.len() - 2] == b[b.len() - 2]);
                assert(b.drop_last().last() == b[b.len() - 2]);
                if !is_ws(b[b.len() - 2]) {
                    assert((wa + wb).last() == wb.last());
                    assert(words(s) =~= words(a) + words(b));
                } else {
                    assert(words(s) =~= words(a) + words(b));
                }
            } else {
                assert(s[s.len() - 2] == ' ');
                assert(b.drop_last() =~= Seq::<char>::empty());
                assert(words(s) =~= words(a) + words(b));
            }
        } else {
            assert(words(s) =~= words(a) + words(b));
        }
    }
}

/// The words of words joined by spaces are those words.
proof fn lemma_words_join(ws: Seq<Seq<char>>)
    requires
        forall|k: int| 0 <= k < ws.len() ==> (#[trigger] ws[k]).len() > 0 && forall|j: int|
            0 <= j < ws[k].len() ==> !is_ws(ws[k][j]),
    ensures
        words(join(ws, seq![' '])) == ws,
    decreases ws.len(),
{
    if ws.len() == 0 {
    } else if ws.len() == 1 {
        assert(ws[0].len() > 0);
        lemma_words_single(ws[0]);
        assert(seq![ws[0]] =~= ws);
    } else {
        let init = ws.drop_last();
        assert forall|k: int| 0 <= k < init.len() implies (#[trigger] init[k]).len() > 0 && forall|j: int|
            0 <= j < init[k].len() ==> !is_ws(init[k][j]) by {
            assert(init[k] == ws[k]);
        }
        lemma_words_join(init);
        assert(ws[ws.len() - 1] == ws.last());
        assert forall|j: int| 0 <= j < ws.last().len() implies !is_ws(#[trigger] ws.last()[j]) by {
            assert(ws.last()[j] == ws[ws.len() - 1][j]);
        }
        lemma_words_single(ws.last());
        lemma_words_concat(join(init, seq![' ']), ws.last());
        assert(init + seq![ws.last()] =~= ws);
    }
}

/// Cleaning twice is cleaning once.
pub proof fn lemma_clean_idempotent(s: Seq<char>)
    ensures
        clean(clean(s)) == clean(s),
{
    lemma_words_shape(s);
    lemma_words_join(words(s));
}

} // verus!

verus! {

/// `dedup` keeps each item of its input, once, and nothing else.
pub proof fn lemma_dedup(s: Seq<Seq<char>>)
    ensures
        dedup(s).no_duplicates(),
        forall|k: int| 0 <= k < dedup(s).len() ==> s.contains(#[trigger] dedup(s)[k]),
        forall|x: Seq<char>| s.contains(x) ==> #[trigger] dedup(s).contains(x),
        s.len() > 0 ==> dedup(s).len() > 0,
    decreases s.len(),
{
    if s.len() > 0 {
        lemma_dedup(s.drop_last());
        let d = dedup(s.drop_last());
        assert forall|x: Seq<char>| s.contains(x) implies #[trigger] dedup(s).contains(x) by {
            let j = choose|j: int| 0 <= j < s.len() && s[j] == x;
            if j < s.len() - 1 {
                assert(s.drop_last()[j] == x);
                assert(s.drop_last().contains(x));
                assert(d.contains(x));
                let i = choose|i: int| 0 <= i < d.len() && d[i] == x;
                if !d.contains(s.last()) {
                    assert(d.push(s.last())[i] == x);
                }
            } else if !d.contains(s.last()) {
                assert(d.push(s.last())[d.len() as int] == x);
            }
        }
        assert forall|k: int| 0 <= k < dedup(s).len() implies s.contains(#[trigger] dedup(s)[k]) by {
            if k < d.len() {
                assert(dedup(s)[k] == d[k]);
                assert(s.drop_last().contains(d[k]));
                let j = choose|j: int| 0 <= j < s.drop_last().len() && s.drop_last()[j] == d[k];
                assert(s[j] == d[k]);
            } else {
                assert(s[s.len() - 1] == s.last());
            }
        }
        if s.drop_last().len() == 0 {
            assert(!d.contains(s.last()));
        }
    }
}

} // verus!

verus! {

/// The decimal digit for `d` (below ten).
pub open spec fn digit_char(d: nat) -> char {
    if d == 0 {
        '0'
    } else if d == 1 {
        '1'
    } else if d == 2 {
        '2'
    } else if d == 3 {
        '3'
    } else if d == 4 {
        '4'
    } else if d == 5 {
        '5'
    } else if d == 6 {
        '6'
    } else if d == 7 {
        '7'
    } else if d == 8 {
        '8'
    } else {
        '9'
    }
}

proof fn lemma_digit_char(d: nat)
    requires
        d < 10,
    ensures
        digit_char(d) as int == '0' as int + d,
        is_digit(digit_char(d)),
{
}

/// How `n` is written in decimal, without leading zeros.
pub open spec fn decimal(n: nat) -> Seq<char>
    decreases n,
{
    if n < 10 {
        seq![digit_char(n)]
    } else {
        decimal(n / 10).push(digit_char(n % 10))
    }
}

/// A number written in decimal is a non-empty run of digits whose value is
/// the number.
pub proof fn lemma_decimal(n: nat)
    ensures
        decimal(n).len() > 0,
        forall|k: int| 0 <= k < decimal(n).len() ==> is_digit(#[trigger] decimal(n)[k]),
        digits_value(decimal(n)) == n,
    decreases n,
{
    if n < 10 {
        lemma_digit_char(n);
        let s = decimal(n);
        assert(s.drop_last() =~= Seq::<char>::empty());
        assert(digits_value(s.drop_last()) == 0);
        assert(s.last() == digit_char(n));
        assert(digits_value(s) == digits_value(s.drop_last()) * 10 + (s.last() as int - '0' as int));
    } else {
        lemma_digit_char(n % 10);
        lemma_decimal(n / 10);
        let d = decimal(n / 10);
        assert(decimal(n).drop_last() =~= d);
        assert forall|k: int| 0 <= k < decimal(n).len() implies is_digit(#[trigger] decimal(n)[k]) by {
            if k < d.len() {
                assert(decimal(n)[k] == d[k]);
            }
        }
        assert(decimal(n).last() == digit_char(n % 10));
        assert(digits_value(decimal(n)) == digits_value(d) * 10 + (n % 10));
        assert(n == (n / 10) * 10 + n % 10);
    }
}

/// Reading a number written in decimal gives it back, for every `i32`
/// value that is not negative.
pub proof fn lemma_parse_decimal(n: i32)
    requires
        n >= 0,
    ensures
        parse_i32(decimal(n as nat)) == Some(n),
{
    lemma_decimal(n as nat);
    let s = decimal(n as nat);
    assert(is_digit(s[0]));
    assert(signed_parts(s) == (false, s));
}

} // verus!
