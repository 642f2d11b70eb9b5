//! Text as a sequence of characters: searching, splitting, trimming, replacing, decimal numbers.

use vstd::prelude::*;

verus! {

/// `String::push` of std appends one character at the end.
pub assume_specification[ String::push ](s: &mut String, c: char)
    ensures
        final(s)@ == old(s)@.push(c),
;

/// The characters of each text of a list.
pub open spec fn texts(v: Seq<String>) -> Seq<Seq<char>> {
    v.map_values(|s: String| s@)
}

/// The first index at or after `from` whose item satisfies `p`; the length where there is none.
pub open spec fn first_where<A>(s: Seq<A>, p: spec_fn(A) -> bool, from: int) -> int
    decreases s.len() - from,
{
    if from >= s.len() {
        s.len() as int
    } else if p(s[from]) {
        from
    } else {
        first_where(s, p, from + 1)
    }
}

/// What `first_where` finds: nothing before it satisfies `p`, and it does unless it is the end.
pub proof fn lemma_first_where<A>(s: Seq<A>, p: spec_fn(A) -> bool, from: int)
    requires
        0 <= from <= s.len(),
    ensures
        from <= first_where(s, p, from) <= s.len(),
        forall|j: int| from <= j < first_where(s, p, from) ==> !p(#[trigger] s[j]),
        first_where(s, p, from) < s.len() ==> p(s[first_where(s, p, from)]),
    decreases s.len() - from,
{
    if from < s.len() && !p(s[from]) {
        lemma_first_where(s, p, from + 1);
    }
}

/// An index that satisfies `p` with none before it is what `first_where` finds.
pub proof fn lemma_first_where_is<A>(s: Seq<A>, p: spec_fn(A) -> bool, from: int, k: int)
    requires
        0 <= from <= k <= s.len(),
        forall|j: int| from <= j < k ==> !p(#[trigger] s[j]),
        k < s.len() ==> p(s[k]),
    ensures
        first_where(s, p, from) == k,
    decreases k - from,
{
    if from < k {
        lemma_first_where_is(s, p, from + 1, k);
    }
}

/// Searching a suffix from its start is searching the whole from the place of the cut.
pub proof fn lemma_first_where_skip<A>(s: Seq<A>, p: spec_fn(A) -> bool, cut: int)
    requires
        0 <= cut <= s.len(),
    ensures
        first_where(s.skip(cut), p, 0) + cut == first_where(s, p, cut),
{
    let k = first_where(s, p, cut);
    lemma_first_where(s, p, cut);
    let t = s.skip(cut);
    assert forall|j: int| 0 <= j < k - cut implies !p(#[trigger] t[j]) by {
        assert(t[j] == s[j + cut]);
    }
    if k < s.len() {
        assert(t[k - cut] == s[k]);
    }
    lemma_first_where_is(t, p, 0, k - cut);
}

/// The predicate "is the character `c`".
pub open spec fn is_char(c: char) -> spec_fn(char) -> bool {
    |x: char| x == c
}

/// The predicate "is white space".
pub open spec fn is_white() -> spec_fn(char) -> bool {
    |x: char| white_space(x)
}

/// The predicate "is not white space".
pub open spec fn is_ink() -> spec_fn(char) -> bool {
    |x: char| !white_space(x)
}

/// Characters with the Unicode property White_Space.
pub open spec fn white_space(c: char) -> bool {
    let n = c as u32;
    ||| 0x09 <= n <= 0x0d
    ||| n == 0x20
    ||| n == 0x85
    ||| n == 0xa0
    ||| n == 0x1680
    ||| 0x2000 <= n <= 0x200a
    ||| n == 0x2028
    ||| n == 0x2029
    ||| n == 0x202f
    ||| n == 0x205f
    ||| n == 0x3000
}

/// Whether `c` is white space.
pub fn is_white_space(c: char) -> (r: bool)
    ensures
        r == white_space(c),
{
    let n: u32 = c as u32;
    (0x09 <= n && n <= 0x0d) || n == 0x20 || n == 0x85 || n == 0xa0 || n == 0x1680 || (0x2000 <= n
        && n <= 0x200a) || n == 0x2028 || n == 0x2029 || n == 0x202f || n == 0x205f || n == 0x3000
}

/// The characters of `s`, in order.
pub fn chars_of(s: &str) -> (r: Vec<char>)
    ensures
        r@ == s@,
{
    let mut v: Vec<char> = Vec::new();
    for c in it: s.chars()
        invariant
            v@ == it.seq().take(it.index()),
            it.seq() == s@,
    {
        v.push(c);
    }
    v
}

/// The text whose characters are `v`.
pub fn string_of(v: &Vec<char>) -> (r: String)
    ensures
        r@ == v@,
{
    let mut s: String = String::new();
    for i in 0..v.len()
        invariant
            s@ == v@.take(i as int),
    {
        s.push(v[i]);
    }
    s
}

/// Whether two texts are the same.
pub fn same(a: &str, b: &str) -> (r: bool)
    ensures
        r == (a@ == b@),
{
    let x: String = a.to_owned();
    let y: String = b.to_owned();
    x == y
}

/// The index of `name` in `list`, from `from` on.
pub open spec fn index_in(list: Seq<Seq<char>>, name: Seq<char>, from: int) -> Option<int>
    decreases list.len() - from,
{
    if from >= list.len() {
        None
    } else if list[from] == name {
        Some(from)
    } else {
        index_in(list, name, from + 1)
    }
}

/// Finds the first text of `list` that is `name`.
pub fn position(list: &[String], name: &str) -> (r: Option<usize>)
    ensures
        match r {
            Some(i) => i < list@.len() && index_in(texts(list@), name@, 0) == Some(i as int),
            None => index_in(texts(list@), name@, 0) is None,
        },
{
    let mut i: usize = 0;
    while i < list.len()
        invariant
            i <= list.len(),
            index_in(texts(list@), name@, i as int) == index_in(texts(list@), name@, 0),
        decreases list.len() - i,
    {
        if same(list[i].as_str(), name) {
            return Some(i);
        }
        i = i + 1;
    }
    None
}

/// What `index_in` finds: the first of that name, or that there is none.
pub proof fn lemma_index_in(list: Seq<Seq<char>>, name: Seq<char>, from: int)
    requires
        0 <= from,
    ensures
        match index_in(list, name, from) {
            Some(i) => from <= i < list.len() && list[i] == name && forall|j: int|
                from <= j < i ==> #[trigger] list[j] != name,
            None => forall|j: int| from <= j < list.len() ==> #[trigger] list[j] != name,
        },
    decreases list.len() - from,
{
    if from < list.len() && list[from] != name {
        lemma_index_in(list, name, from + 1);
    }
}

/// A copy of the items `from..to`.
pub fn part<T: Copy>(v: &Vec<T>, from: usize, to: usize) -> (r: Vec<T>)
    requires
        from <= to <= v.len(),
    ensures
        r@ == v@.subrange(from as int, to as int),
{
    let mut out: Vec<T> = Vec::new();
    for i in from..to
        invariant
            from <= i <= to <= v.len(),
            out@ == v@.subrange(from as int, i as int),
    {
        out.push(v[i]);
    }
    out
}

/// The index of the first `c` at or after `from`, or the length.
pub fn find_char(v: &Vec<char>, c: char, from: usize) -> (r: usize)
    requires
        from <= v.len(),
    ensures
        from <= r <= v.len(),
        r == first_where(v@, is_char(c), from as int),
{
    let mut i: usize = from;
    while i < v.len() && v[i] != c
        invariant
            from <= i <= v.len(),
            forall|j: int| from <= j < i ==> !(is_char(c))(#[trigger] v@[j]),
        decreases v.len() - i,
    {
        i = i + 1;
    }
    proof {
        lemma_first_where_is(v@, is_char(c), from as int, i as int);
    }
    i
}

/// The parts before and after the first `c`, where it occurs.
pub open spec fn cut_at(s: Seq<char>, c: char) -> Option<(Seq<char>, Seq<char>)> {
    let k = first_where(s, is_char(c), 0);
    if k < s.len() {
        Some((s.take(k), s.skip(k + 1)))
    } else {
        None
    }
}

/// Splits at the first `c`.
pub fn split_once(v: &Vec<char>, c: char) -> (r: Option<(Vec<char>, Vec<char>)>)
    ensures
        match r {
            Some((a, b)) => cut_at(v@, c) == Some((a@, b@)),
            None => cut_at(v@, c) is None,
        },
{
    let k: usize = find_char(v, c, 0);
    if k < v.len() {
        let a: Vec<char> = part(v, 0, k);
        let b: Vec<char> = part(v, k + 1, v.len());
        proof {
            assert(a@ == v@.take(k as int));
            assert(b@ == v@.skip(k + 1));
        }
        Some((a, b))
    } else {
        None
    }
}

/// `s` without its leading white space.
pub open spec fn trim_start(s: Seq<char>) -> Seq<char> {
    s.skip(first_where(s, is_ink(), 0))
}

/// `s` without its trailing white space.
pub open spec fn trim_end(s: Seq<char>) -> Seq<char>
    decreases s.len(),
{
    if s.len() > 0 && white_space(s.last()) {
        trim_end(s.drop_last())
    } else {
        s
    }
}

/// `s` without white space at either end.
pub open spec fn trimmed(s: Seq<char>) -> Seq<char> {
    trim_end(trim_start(s))
}

/// The index of the first character at or after `from` that is not white space, or the length.
pub fn find_ink(v: &Vec<char>, from: usize) -> (r: usize)
    requires
        from <= v.len(),
    ensures
        from <= r <= v.len(),
        r == first_where(v@, is_ink(), from as int),
{
    let mut i: usize = from;
    while i < v.len() && is_white_space(v[i])
        invariant
            from <= i <= v.len(),
            forall|j: int| from <= j < i ==> !(is_ink())(#[trigger] v@[j]),
        decreases v.len() - i,
    {
        i = i + 1;
    }
    proof {
        lemma_first_where_is(v@, is_ink(), from as int, i as int);
    }
    i
}

/// The index of the first white space at or after `from`, or the length.
pub fn find_white(v: &Vec<char>, from: usize) -> (r: usize)
    requires
        from <= v.len(),
    ensures
        from <= r <= v.len(),
        r == first_where(v@, is_white(), from as int),
{
    let mut i: usize = from;
    while i < v.len() && !is_white_space(v[i])
        invariant
            from <= i <= v.len(),
            forall|j: int| from <= j < i ==> !(is_white())(#[trigger] v@[j]),
        decreases v.len() - i,
    {
        i = i + 1;
    }
    proof {
        lemma_first_where_is(v@, is_white(), from as int, i as int);
    }
    i
}

/// Removes white space at both ends.
pub fn trim(v: &Vec<char>) -> (r: Vec<char>)
    ensures
        r@ == trimmed(v@),
{
    let a: usize = find_ink(v, 0);
    let mut b: usize = v.len();
    let ghost t = v@.skip(a as int);
    proof {
        assert(t == v@.subrange(a as int, b as int));
    }
    while b > a && is_white_space(v[b - 1])
        invariant
            a <= b <= v.len(),
            trim_end(v@.subrange(a as int, b as int)) == trim_end(t),
        decreases b,
    {
        proof {
            let u = v@.subrange(a as int, b as int);
            assert(u.last() == v@[b - 1]);
            assert(u.drop_last() == v@.subrange(a as int, b - 1));
        }
        b = b - 1;
    }
    proof {
        let u = v@.subrange(a as int, b as int);
        if u.len() > 0 {
            assert(u.last() == v@[b - 1]);
        }
    }
    part(v, a, b)
}

/// The first run of non-white characters and what follows it.
pub open spec fn first_word(s: Seq<char>) -> Option<(Seq<char>, Seq<char>)> {
    let t = trim_start(s);
    if t.len() == 0 {
        None
    } else {
        let k = first_where(t, is_white(), 0);
        Some((t.take(k), t.skip(k)))
    }
}

/// Splits off the first word.
pub fn next_word(v: &Vec<char>) -> (r: Option<(Vec<char>, Vec<char>)>)
    ensures
        match r {
            Some((a, b)) => first_word(v@) == Some((a@, b@)),
            None => first_word(v@) is None,
        },
{
    let a: usize = find_ink(v, 0);
    if a == v.len() {
        None
    } else {
        let k: usize = find_white(v, a);
        let w: Vec<char> = part(v, a, k);
        let rest: Vec<char> = part(v, k, v.len());
        proof {
            lemma_first_where_skip(v@, is_white(), a as int);
            let t = v@.skip(a as int);
            assert(w@ == t.take(k - a));
            assert(rest@ == t.skip(k - a));
        }
        Some((w, rest))
    }
}

/// A line without the carriage return that ends it.
pub open spec fn without_cr(s: Seq<char>) -> Seq<char> {
    if s.len() > 0 && s.last() == '\r' {
        s.drop_last()
    } else {
        s
    }
}

/// The lines of a text. A line ends in a newline, or a carriage return and a newline; what
/// follows the last newline is a line if it is not empty.
pub open spec fn lines_of(s: Seq<char>) -> Seq<Seq<char>>
    decreases s.len(),
{
    if s.len() == 0 {
        Seq::empty()
    } else {
        let k = first_where(s, is_char('\n'), 0);
        if 0 <= k < s.len() {
            seq![without_cr(s.take(k))] + lines_of(s.skip(k + 1))
        } else {
            seq![s]
        }
    }
}

/// Splits a text into lines.
pub fn lines(v: &Vec<char>) -> (r: Vec<String>)
    ensures
        texts(r@) == lines_of(v@),
{
    let n: usize = v.len();
    let mut out: Vec<String> = Vec::new();
    let mut i: usize = 0;
    proof {
        assert(v@.skip(0) == v@);
        assert(texts(out@) + lines_of(v@) == lines_of(v@));
    }
    while i < n
        invariant
            i <= n,
            n == v.len(),
            texts(out@) + lines_of(v@.skip(i as int)) == lines_of(v@),
        decreases n - i,
    {
        let k: usize = find_char(v, '\n', i);
        let ghost tail = v@.skip(i as int);
        let ghost before = texts(out@);
        proof {
            lemma_first_where_skip(v@, is_char('\n'), i as int);
        }
        if k < n {
            let mut e: usize = k;
            if k > i && v[k - 1] == '\r' {
                e = k - 1;
            }
            let piece: Vec<char> = part(v, i, e);
            let line: String = string_of(&piece);
            proof {
                assert(tail.take(k - i) == v@.subrange(i as int, k as int));
                if k > i {
                    assert(tail.take(k - i).last() == v@[k - 1]);
                }
                assert(piece@ == without_cr(tail.take(k - i)));
                assert(tail.skip(k - i + 1) == v@.skip(k + 1));
            }
            out.push(line);
            proof {
                assert(texts(out@) == before.push(line@));
                assert(before + (seq![line@] + lines_of(v@.skip(k + 1))) == before.push(line@)
                    + lines_of(v@.skip(k + 1)));
            }
            i = k + 1;
        } else {
            let piece: Vec<char> = part(v, i, n);
            let line: String = string_of(&piece);
            proof {
                assert(piece@ == tail);
            }
            out.push(line);
            proof {
                assert(texts(out@) == before.push(line@));
                assert(v@.skip(n as int).len() == 0);
                assert(before + seq![line@] == before.push(line@) + Seq::<Seq<char>>::empty());
            }
            i = n;
        }
    }
    proof {
        assert(v@.skip(n as int).len() == 0);
        assert(texts(out@) + Seq::<Seq<char>>::empty() == texts(out@));
    }
    out
}

/// Whether `p` stands in `s` at index `i`.
pub open spec fn stands_at(s: Seq<char>, p: Seq<char>, i: int) -> bool {
    0 <= i && i + p.len() <= s.len() && s.subrange(i, i + p.len()) == p
}

/// Whether `p` occurs somewhere in `s`.
pub open spec fn occurs(s: Seq<char>, p: Seq<char>) -> bool {
    exists|i: int| #[trigger] stands_at(s, p, i)
}

/// Whether `p` stands in `v` at index `i`.
pub fn matches_at(v: &Vec<char>, p: &Vec<char>, i: usize) -> (r: bool)
    ensures
        r == stands_at(v@, p@, i as int),
{
    if i > v.len() || p.len() > v.len() - i {
        return false;
    }
    let mut j: usize = 0;
    while j < p.len()
        invariant
            i <= v.len(),
            p.len() <= v.len() - i,
            j <= p.len(),
            v@.subrange(i as int, i + j) == p@.take(j as int),
        decreases p.len() - j,
    {
        if v[i + j] != p[j] {
            proof {
                assert(v@.subrange(i as int, i + p@.len())[j as int] == v@[i + j]);
            }
            return false;
        }
        proof {
            assert(v@.subrange(i as int, i + j + 1) == v@.subrange(i as int, i + j).push(v@[i + j]));
            assert(p@.take(j + 1) == p@.take(j as int).push(p@[j as int]));
        }
        j = j + 1;
    }
    proof {
        assert(p@.take(p@.len() as int) == p@);
    }
    true
}

/// Whether `p` occurs in `s`.
pub fn contains(s: &str, p: &str) -> (r: bool)
    ensures
        r == occurs(s@, p@),
{
    let v: Vec<char> = chars_of(s);
    let q: Vec<char> = chars_of(p);
    let mut i: usize = 0;
    while i <= v.len()
        invariant
            v@ == s@,
            q@ == p@,
            i <= v.len() + 1,
            forall|j: int| 0 <= j < i ==> !#[trigger] stands_at(v@, q@, j),
        decreases v.len() + 1 - i,
    {
        if matches_at(&v, &q, i) {
            return true;
        }
        if i == v.len() {
            proof {
                assert forall|j: int| !#[trigger] stands_at(s@, p@, j) by {
                    if 0 <= j <= i {
                    }
                }
            }
            return false;
        }
        i = i + 1;
    }
    false
}

/// Whether `s` begins with `p`.
pub open spec fn begins(s: Seq<char>, p: Seq<char>) -> bool {
    stands_at(s, p, 0)
}

/// Whether `s` ends with `p`.
pub open spec fn ends(s: Seq<char>, p: Seq<char>) -> bool {
    stands_at(s, p, s.len() - p.len())
}

/// Whether `s` begins with `p`.
pub fn starts_with(s: &str, p: &str) -> (r: bool)
    ensures
        r == begins(s@, p@),
{
    let v: Vec<char> = chars_of(s);
    let q: Vec<char> = chars_of(p);
    matches_at(&v, &q, 0)
}

/// Whether `s` ends with `p`.
pub fn ends_with(s: &str, p: &str) -> (r: bool)
    ensures
        r == ends(s@, p@),
{
    let v: Vec<char> = chars_of(s);
    let q: Vec<char> = chars_of(p);
    if q.len() > v.len() {
        return false;
    }
    matches_at(&v, &q, v.len() - q.len())
}

/// What follows the prefix `p` of `s`, where `s` begins with it.
pub open spec fn after_prefix(s: Seq<char>, p: Seq<char>) -> Option<Seq<char>> {
    if begins(s, p) {
        Some(s.skip(p.len() as int))
    } else {
        None
    }
}

/// What follows the prefix `p`.
pub fn strip_prefix(s: &str, p: &str) -> (r: Option<String>)
    ensures
        match r {
            Some(t) => after_prefix(s@, p@) == Some(t@),
            None => after_prefix(s@, p@) is None,
        },
{
    let v: Vec<char> = chars_of(s);
    let q: Vec<char> = chars_of(p);
    if matches_at(&v, &q, 0) {
        let rest: Vec<char> = part(&v, q.len(), v.len());
        proof {
            assert(rest@ == s@.skip(p@.len() as int));
        }
        Some(string_of(&rest))
    } else {
        None
    }
}

/// `s` with each occurrence of `p` replaced by `q`, from the left, without overlaps.
pub open spec fn replaced(s: Seq<char>, p: Seq<char>, q: Seq<char>) -> Seq<char>
    decreases s.len(),
{
    if p.len() == 0 || s.len() == 0 {
        s
    } else if stands_at(s, p, 0) {
        q + replaced(s.skip(p.len() as int), p, q)
    } else {
        seq![s[0]] + replaced(s.skip(1), p, q)
    }
}

/// Replaces each occurrence of `p` by `q`.
pub fn replace(s: &str, p: &str, q: &str) -> (r: String)
    requires
        p@.len() > 0,
    ensures
        r@ == replaced(s@, p@, q@),
{
    let v: Vec<char> = chars_of(s);
    let pat: Vec<char> = chars_of(p);
    let mut out: String = String::new();
    let mut i: usize = 0;
    proof {
        assert(v@.skip(0) == v@);
        assert(out@ + replaced(v@, p@, q@) == replaced(v@, p@, q@));
    }
    while i < v.len()
        invariant
            v@ == s@,
            pat@ == p@,
            p@.len() > 0,
            i <= v.len(),
            out@ + replaced(v@.skip(i as int), p@, q@) == replaced(v@, p@, q@),
        decreases v.len() - i,
    {
        let ghost tail = v@.skip(i as int);
        let ghost before = out@;
        let hit: bool = matches_at(&v, &pat, i);
        proof {
            if i + p@.len() <= v@.len() {
                assert(tail.subrange(0, p@.len() as int) == v@.subrange(i as int, i + p@.len()));
            }
            assert(stands_at(tail, p@, 0) == hit);
        }
        if hit {
            out.append(q);
            proof {
                assert(tail.skip(p@.len() as int) == v@.skip(i + p@.len()));
                assert(before + (q@ + replaced(v@.skip(i + p@.len()), p@, q@)) == (before + q@)
                    + replaced(v@.skip(i + p@.len()), p@, q@));
            }
            i = i + pat.len();
        } else {
            out.push(v[i]);
            proof {
                assert(tail.skip(1) == v@.skip(i + 1));
                assert(before + (seq![v@[i as int]] + replaced(v@.skip(i + 1), p@, q@))
                    == before.push(v@[i as int]) + replaced(v@.skip(i + 1), p@, q@));
            }
            i = i + 1;
        }
    }
    proof {
        assert(v@.skip(i as int).len() == 0);
        assert(replaced(v@.skip(i as int), p@, q@) == Seq::<char>::empty());
        assert(out@ + Seq::<char>::empty() == out@);
    }
    out
}

/// The lower case of an ASCII letter; any other character as it is.
pub open spec fn lower(c: char) -> char {
    if 'A' <= c <= 'Z' {
        (c as u32 + 32) as char
    } else {
        c
    }
}

/// A text with its ASCII letters in lower case.
pub open spec fn ascii_lower(s: Seq<char>) -> Seq<char> {
    s.map_values(|c: char| lower(c))
}

/// Puts ASCII letters in lower case.
pub fn to_ascii_lowercase(v: &Vec<char>) -> (r: Vec<char>)
    ensures
        r@ == ascii_lower(v@),
{
    let mut out: Vec<char> = Vec::new();
    for i in 0..v.len()
        invariant
            out@ == ascii_lower(v@).take(i as int),
    {
        let c: char = v[i];
        let d: char = if 'A' <= c && c <= 'Z' {
            (c as u8 + 32u8) as char
        } else {
            c
        };
        out.push(d);
    }
    out
}

/// The character of a decimal digit.
pub open spec fn digit(d: nat) -> char {
    (48 + d) as char
}

/// A number in decimal digits.
pub open spec fn decimal(n: nat) -> Seq<char>
    decreases n,
{
    if n < 10 {
        seq![digit(n)]
    } else {
        decimal(n / 10).push(digit(n % 10))
    }
}

/// Appends `n` in decimal digits.
pub fn push_decimal(out: &mut String, n: u64)
    ensures
        final(out)@ == old(out)@ + decimal(n as nat),
    decreases n,
{
    if n >= 10 {
        push_decimal(out, n / 10);
    }
    let d: u8 = (n % 10) as u8;
    out.push((48u8 + d) as char);
    proof {
        if n >= 10 {
            assert(old(out)@ + decimal((n / 10) as nat).push(digit((n % 10) as nat)) == (old(out)@
                + decimal((n / 10) as nat)).push(digit((n % 10) as nat)));
        } else {
            assert(old(out)@.push(digit(n as nat)) == old(out)@ + seq![digit(n as nat)]);
        }
    }
}

/// Whether `c` is a decimal digit.
pub open spec fn is_digit(c: char) -> bool {
    '0' <= c <= '9'
}

/// The number that a run of decimal digits stands for.
pub open spec fn digits_value(s: Seq<char>) -> nat
    decreases s.len(),
{
    if s.len() == 0 {
        0
    } else {
        digits_value(s.drop_last()) * 10 + (s.last() as u32 - 48) as nat
    }
}

/// A non-empty run of decimal digits.
pub open spec fn all_digits(s: Seq<char>) -> bool {
    s.len() > 0 && forall|i: int| 0 <= i < s.len() ==> is_digit(#[trigger] s[i])
}

/// What a text says as an unsigned number of at most 64 bits: decimal digits, after a `+` or
/// not.
pub open spec fn unsigned(s: Seq<char>) -> Option<nat> {
    let d = if s.len() > 0 && s[0] == '+' {
        s.skip(1)
    } else {
        s
    };
    if all_digits(d) && digits_value(d) <= u64::MAX {
        Some(digits_value(d))
    } else {
        None
    }
}

proof fn lemma_digits_prefix(s: Seq<char>, k: int)
    requires
        0 <= k <= s.len(),
    ensures
        digits_value(s.take(k)) <= digits_value(s),
    decreases s.len() - k,
{
    if k == s.len() {
        assert(s.take(k) == s);
    } else {
        lemma_digits_prefix(s, k + 1);
        assert(s.take(k + 1).drop_last() == s.take(k));
    }
}

/// Reads an unsigned number.
pub fn parse_unsigned(v: &Vec<char>) -> (r: Option<u64>)
    ensures
        match r {
            Some(n) => unsigned(v@) == Some(n as nat),
            None => unsigned(v@) is None,
        },
{
    let mut from: usize = 0;
    if v.len() > 0 && v[0] == '+' {
        from = 1;
    }
    let ghost d = if v@.len() > 0 && v@[0] == '+' {
        v@.skip(1)
    } else {
        v@
    };
    proof {
        assert(d == v@.skip(from as int));
    }
    if from == v.len() {
        return None;
    }
    let mut n: u64 = 0;
    let mut i: usize = from;
    while i < v.len()
        invariant
            from <= i <= v.len(),
            d == v@.skip(from as int),
            d == (if v@.len() > 0 && v@[0] == '+' {
                v@.skip(1)
            } else {
                v@
            }),
            forall|j: int| 0 <= j < i - from ==> is_digit(#[trigger] d[j]),
            n == digits_value(d.take(i - from)),
        decreases v.len() - i,
    {
        let c: char = v[i];
        let ghost k = i - from;
        proof {
            assert(d[k] == c);
            assert(d.take(k + 1).drop_last() == d.take(k));
            assert(d.take(k + 1).last() == c);
            lemma_digits_prefix(d, k + 1);
        }
        if !('0' <= c && c <= '9') {
            return None;
        }
        let x: u64 = (c as u32 - 48) as u64;
        if n > u64::MAX / 10 {
            proof {
                assert(n * 10 > u64::MAX);
            }
            return None;
        }
        let m: u64 = n * 10;
        if m > u64::MAX - x {
            return None;
        }
        n = m + x;
        i = i + 1;
    }
    proof {
        assert(d.take(d.len() as int) == d);
    }
    Some(n)
}

/// Law: of the ASCII characters the tabulator, the ends of lines and pages and the space are white, and
/// none that is printed is.
pub proof fn law_white_space(c: char)
    ensures
        9 <= c as u32 <= 13 || c == ' ' ==> white_space(c),
        33 <= c as u32 <= 126 ==> !white_space(c),
        (c as u32) < 9 || 14 <= c as u32 <= 31 ==> !white_space(c),
        c == '\u{3000}' || c == '\u{a0}' ==> white_space(c),
        (c as u32) > 0x3000 ==> !white_space(c),
{
}

/// Law: a text is cut at the first place of a character: what stands before it does not have it, and the
/// two parts with the character between them are the text.
pub proof fn law_cut_at(a: Seq<char>, c: char, b: Seq<char>)
    requires
        !a.contains(c),
    ensures
        cut_at(a.push(c) + b, c) == Some((a, b)),
        cut_at(a, c) is None,
{
    let s = a.push(c) + b;
    assert forall|j: int| 0 <= j < a.len() implies !(is_char(c))(#[trigger] s[j]) by {
        assert(s[j] == a[j]);
        assert(a.contains(a[j]));
    }
    assert(s[a.len() as int] == c);
    lemma_first_where_is(s, is_char(c), 0, a.len() as int);
    assert(s.take(a.len() as int) =~= a);
    assert(s.skip((a.len() + 1) as int) =~= b);
    assert forall|j: int| 0 <= j < a.len() implies !(is_char(c))(#[trigger] a[j]) by {
        assert(a.contains(a[j]));
    }
    lemma_first_where_is(a, is_char(c), 0, a.len() as int);
}

/// Law: white space falls away at both ends of a text, and nothing else does.
pub proof fn law_trimming(s: Seq<char>, c: char)
    ensures
        white_space(c) ==> trimmed(seq![c] + s) == trimmed(s),
        white_space(c) ==> trimmed(s.push(c)) == trimmed(s),
        s.len() > 0 && !white_space(s[0]) && !white_space(s.last()) ==> trimmed(s) == s,
        s.len() == 0 ==> trimmed(s) == s,
        trimmed(s).len() > 0 ==> !white_space(trimmed(s)[0]) && !white_space(trimmed(s).last()),
{
    let k = first_where(s, is_ink(), 0);
    lemma_first_where(s, is_ink(), 0);
    let t = trim_start(s);
    if white_space(c) {
        let u = seq![c] + s;
        assert forall|j: int| 0 <= j < k + 1 implies !(is_ink())(#[trigger] u[j]) by {
            if j > 0 {
                assert(u[j] == s[j - 1]);
            }
        }
        if k < s.len() {
            assert(u[k + 1] == s[k]);
        }
        lemma_first_where_is(u, is_ink(), 0, k + 1);
        assert(trim_start(u) =~= t);
        let v = s.push(c);
        if k < s.len() {
            assert forall|j: int| 0 <= j < k implies !(is_ink())(#[trigger] v[j]) by {
                assert(v[j] == s[j]);
            }
            assert(v[k] == s[k]);
            lemma_first_where_is(v, is_ink(), 0, k);
            assert(trim_start(v) =~= t.push(c));
            assert(t.push(c).drop_last() =~= t);
        } else {
            assert forall|j: int| 0 <= j < v.len() implies !(is_ink())(#[trigger] v[j]) by {
                if j < s.len() {
                    assert(v[j] == s[j]);
                }
            }
            lemma_first_where_is(v, is_ink(), 0, v.len() as int);
            assert(trim_start(v) =~= t);
        }
    }
    if s.len() > 0 && !white_space(s[0]) {
        lemma_first_where_is(s, is_ink(), 0, 0);
        assert(t =~= s);
    }
    lemma_trim_end(t);
    if trimmed(s).len() > 0 {
        assert(t[0] == s[k]);
    }
    if s.len() == 0 {
        assert(t =~= s);
    }
}

proof fn lemma_trim_end(s: Seq<char>)
    ensures
        trim_end(s).len() <= s.len(),
        trim_end(s) == s.take(trim_end(s).len() as int),
        trim_end(s).len() > 0 ==> !white_space(trim_end(s).last()),
    decreases s.len(),
{
    if s.len() > 0 && white_space(s.last()) {
        lemma_trim_end(s.drop_last());
        let r = trim_end(s);
        assert(s.drop_last().take(r.len() as int) =~= s.take(r.len() as int));
    } else {
        assert(s.take(s.len() as int) =~= s);
    }
}

/// Law: the first word of a text is what stands between the white space before it and the white space
/// behind it, which stays with the rest.
pub proof fn law_first_word(w: Seq<char>, rest: Seq<char>, c: char)
    requires
        w.len() > 0,
        forall|i: int| 0 <= i < w.len() ==> !white_space(#[trigger] w[i]),
        rest.len() > 0 ==> white_space(rest[0]),
        white_space(c),
    ensures
        first_word(w + rest) == Some((w, rest)),
        first_word(seq![c] + (w + rest)) == Some((w, rest)),
        first_word(seq![c]) is None,
        first_word(Seq::empty()) is None,
{
    let s = w + rest;
    assert(s[0] == w[0]);
    lemma_first_where_is(s, is_ink(), 0, 0);
    assert(trim_start(s) =~= s);
    assert forall|j: int| 0 <= j < w.len() implies !(is_white())(#[trigger] s[j]) by {
        assert(s[j] == w[j]);
    }
    if rest.len() > 0 {
        assert(s[w.len() as int] == rest[0]);
    }
    lemma_first_where_is(s, is_white(), 0, w.len() as int);
    assert(s.take(w.len() as int) =~= w);
    assert(s.skip(w.len() as int) =~= rest);
    let u = seq![c] + s;
    assert(u[1] == s[0]);
    lemma_first_where_is(u, is_ink(), 0, 1);
    assert(trim_start(u) =~= s);
    let v = seq![c];
    lemma_first_where_is(v, is_ink(), 0, 1);
    assert(trim_start(v).len() == 0);
    let e = Seq::<char>::empty();
    assert(trim_start(e).len() == 0);
}

/// Law: a line of a text ends with its newline, and a carriage return before it does not belong to the
/// line; what stands behind the last newline is a line if there is anything.
pub proof fn law_lines(a: Seq<char>, b: Seq<char>)
    requires
        !a.contains('\n'),
    ensures
        a.len() == 0 || a.last() != '\r' ==> lines_of(a.push('\n') + b) == seq![a] + lines_of(b),
        lines_of(a.push('\r').push('\n') + b) == seq![a] + lines_of(b),
        a.len() > 0 ==> lines_of(a) == seq![a],
        lines_of(Seq::empty()).len() == 0,
{
    lemma_line(a, b);
    let r = a.push('\r');
    assert(!r.contains('\n')) by {
        if r.contains('\n') {
            let i = choose|i: int| 0 <= i < r.len() && r[i] == '\n';
            assert(a[i] == '\n');
        }
    }
    lemma_line(r, b);
    assert(r.drop_last() =~= a);
    assert forall|j: int| 0 <= j < a.len() implies !(is_char('\n'))(#[trigger] a[j]) by {
        assert(a.contains(a[j]));
    }
    lemma_first_where_is(a, is_char('\n'), 0, a.len() as int);
}

proof fn lemma_line(a: Seq<char>, b: Seq<char>)
    requires
        !a.contains('\n'),
    ensures
        lines_of(a.push('\n') + b) == seq![without_cr(a)] + lines_of(b),
{
    let s = a.push('\n') + b;
    assert forall|j: int| 0 <= j < a.len() implies !(is_char('\n'))(#[trigger] s[j]) by {
        assert(s[j] == a[j]);
        assert(a.contains(a[j]));
    }
    assert(s[a.len() as int] == '\n');
    lemma_first_where_is(s, is_char('\n'), 0, a.len() as int);
    assert(s.take(a.len() as int) =~= a);
    assert(s.skip((a.len() + 1) as int) =~= b);
}

/// Law: a text that begins with another has the rest behind it; it also ends with that rest, and has it
/// among its characters.
pub proof fn law_beginnings_and_ends(p: Seq<char>, s: Seq<char>, t: Seq<char>)
    ensures
        begins(p + s, p),
        after_prefix(p + s, p) == Some(s),
        ends(p + s, s),
        occurs(p + s + t, s),
        s.len() > p.len() ==> !begins(p, s) && !ends(p, s) && !occurs(p, s),
        after_prefix(s, p) is Some ==> p + after_prefix(s, p)->0 == s,
{
    assert((p + s).subrange(0, p.len() as int) =~= p);
    assert((p + s).skip(p.len() as int) =~= s);
    assert((p + s).subrange((p + s).len() - s.len(), (p + s).len() as int) =~= s);
    let all = p + s + t;
    assert(all.subrange(p.len() as int, (p.len() + s.len()) as int) =~= s);
    assert(stands_at(all, s, p.len() as int));
    if begins(s, p) {
        assert(s.subrange(0, p.len() as int) == p);
        assert(p + s.skip(p.len() as int) =~= s);
    }
}

/// Law: every occurrence of a pattern is replaced, one behind the other, and characters at which it does
/// not begin stay.
pub proof fn law_replacing(p: Seq<char>, q: Seq<char>, s: Seq<char>)
    requires
        p.len() > 0,
    ensures
        replaced(p + s, p, q) == q + replaced(s, p, q),
        s.len() > 0 && !begins(s, p) ==> replaced(s, p, q) == seq![s[0]] + replaced(s.skip(1), p, q),
        !occurs(s, p) ==> replaced(s, p, q) == s,
        replaced(s, p, p) == s,
    decreases s.len(),
{
    assert((p + s).subrange(0, p.len() as int) =~= p);
    assert((p + s).skip(p.len() as int) =~= s);
    if s.len() > 0 {
        if stands_at(s, p, 0) {
            law_replacing(p, q, s.skip(p.len() as int));
            assert(s =~= p + s.skip(p.len() as int));
        } else {
            law_replacing(p, q, s.skip(1));
            assert(s =~= seq![s[0]] + s.skip(1));
            if !occurs(s, p) {
                assert forall|i: int| !#[trigger] stands_at(s.skip(1), p, i) by {
                    if stands_at(s.skip(1), p, i) {
                        assert(s.subrange(i + 1, i + 1 + p.len()) =~= s.skip(1).subrange(
                            i,
                            i + p.len(),
                        ));
                        assert(stands_at(s, p, i + 1));
                    }
                }
            }
        }
    }
}

/// Law: the lower case of an ASCII letter is the letter at the same place of the other alphabet.
pub proof fn law_lower_case(c: char)
    ensures
        'A' <= c <= 'Z' ==> 'a' <= lower(c) <= 'z' && lower(c) as int - 'a' as int == c as int
            - 'A' as int,
        !('A' <= c <= 'Z') ==> lower(c) == c,
{
    if 'A' <= c <= 'Z' {
        assert((c as u32 + 32) as char as int == c as int + 32);
    }
}

/// Law: a number is read back from its decimal digits, with a plus sign or without; what holds anything
/// but digits is no number.
pub proof fn law_decimal_is_read_back(n: nat)
    ensures
        all_digits(decimal(n)),
        digits_value(decimal(n)) == n,
        n <= u64::MAX ==> unsigned(decimal(n)) == Some(n),
        n <= u64::MAX ==> unsigned(seq!['+'] + decimal(n)) == Some(n),
        n > u64::MAX ==> unsigned(decimal(n)) is None,
        n < 10 ==> decimal(n).len() == 1 && decimal(n)[0] as int == '0' as int + n,
        n >= 10 ==> decimal(n)[0] != '0',
    decreases n,
{
    if n >= 10 {
        law_decimal_is_read_back(n / 10);
        let a = decimal(n / 10);
        let b = decimal(n);
        assert(b.drop_last() =~= a);
        assert(digit(n % 10) as int == 48 + n % 10);
        assert forall|i: int| 0 <= i < b.len() implies is_digit(#[trigger] b[i]) by {
            if i < a.len() {
                assert(b[i] == a[i]);
            }
        }
        assert(b[0] == a[0]);
        if n / 10 < 10 {
            assert(a[0] as int == '0' as int + n / 10);
        }
    } else {
        let b = decimal(n);
        assert(digit(n) as int == 48 + n);
        assert(b.drop_last().len() == 0);
        assert(digits_value(b.drop_last()) == 0);
    }
    let b = decimal(n);
    assert(is_digit(b[0]));
    assert((seq!['+'] + b).skip(1) =~= b);
}

/// Law: a digit more makes a number ten times as large and adds the digit; a text with any other character
/// is no number, and neither is an empty one.
pub proof fn law_digits(s: Seq<char>, c: char, i: int)
    ensures
        is_digit(c) ==> digits_value(s.push(c)) == 10 * digits_value(s) + (c as int - '0' as int),
        digits_value(Seq::empty()) == 0,
        unsigned(Seq::empty()) is None,
        1 <= i < s.len() && !('0' <= s[i] <= '9') ==> unsigned(s) is None,
        s.len() > 0 && s[0] != '+' && !('0' <= s[0] <= '9') ==> unsigned(s) is None,
{
    assert(s.push(c).drop_last() =~= s);
    if 1 <= i < s.len() && !('0' <= s[i] <= '9') {
        assert(s.skip(1)[i - 1] == s[i]);
    }
}

} // verus!
