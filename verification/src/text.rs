//! Character-sequence utilities shared by the namespace, project and
//! translator modules: whitespace trimming, line splitting, prefix and
//! substring search, all stated over `Seq<char>`.
use vstd::prelude::*;

verus! {

/// The Unicode `White_Space` property, which `char::is_whitespace` tests.
pub open spec fn is_ws(c: char) -> bool {
    ||| ('\u{9}' <= c && c <= '\u{d}')
    ||| c == ' '
    ||| c == '\u{85}'
    ||| c == '\u{a0}'
    ||| c == '\u{1680}'
    ||| ('\u{2000}' <= c && c <= '\u{200a}')
    ||| c == '\u{2028}'
    ||| c == '\u{2029}'
    ||| c == '\u{202f}'
    ||| c == '\u{205f}'
    ||| c == '\u{3000}'
}

pub fn is_ws_char(c: char) -> (b: bool)
    ensures
        b == is_ws(c),
{
    ('\u{9}' <= c && c <= '\u{d}') || c == ' ' || c == '\u{85}' || c == '\u{a0}' || c
        == '\u{1680}' || ('\u{2000}' <= c && c <= '\u{200a}') || c == '\u{2028}' || c
        == '\u{2029}' || c == '\u{202f}' || c == '\u{205f}' || c == '\u{3000}'
}

/// `str::trim_start`: drop leading whitespace.
pub open spec fn trim_start(s: Seq<char>) -> Seq<char>
    decreases s.len(),
{
    if s.len() > 0 && is_ws(s[0]) {
        trim_start(s.drop_first())
    } else {
        s
    }
}

/// `str::trim_end`: drop trailing whitespace.
pub open spec fn trim_end(s: Seq<char>) -> Seq<char>
    decreases s.len(),
{
    if s.len() > 0 && is_ws(s.last()) {
        trim_end(s.drop_last())
    } else {
        s
    }
}

/// `str::trim`: drop whitespace on both ends.
pub open spec fn trim(s: Seq<char>) -> Seq<char> {
    trim_end(trim_start(s))
}

pub open spec fn all_ws(s: Seq<char>) -> bool {
    forall|i: int| 0 <= i < s.len() ==> is_ws(#[trigger] s[i])
}

pub proof fn lemma_trim_start_skip(s: Seq<char>, k: int)
    requires
        0 <= k <= s.len(),
        all_ws(s.subrange(0, k)),
    ensures
        trim_start(s) == trim_start(s.subrange(k, s.len() as int)),
    decreases k,
{
    if k > 0 {
        assert(is_ws(s.subrange(0, k)[0]));
        let t = s.drop_first();
        assert forall|i: int| 0 <= i < k - 1 implies is_ws(#[trigger] t.subrange(0, k - 1)[i]) by {
            assert(t.subrange(0, k - 1)[i] == s.subrange(0, k)[i + 1]);
        }
        lemma_trim_start_skip(t, k - 1);
        assert(t.subrange(k - 1, t.len() as int) =~= s.subrange(k, s.len() as int));
    } else {
        assert(s.subrange(0, s.len() as int) =~= s);
    }
}

pub proof fn lemma_trim_end_skip(s: Seq<char>, k: int)
    requires
        0 <= k <= s.len(),
        all_ws(s.subrange(k, s.len() as int)),
    ensures
        trim_end(s) == trim_end(s.subrange(0, k)),
    decreases s.len() - k,
{
    if k < s.len() {
        assert(is_ws(s.subrange(k, s.len() as int)[s.len() - 1 - k]));
        let t = s.drop_last();
        assert forall|i: int| 0 <= i < t.len() - k implies is_ws(
            #[trigger] t.subrange(k, t.len() as int)[i],
        ) by {
            assert(t.subrange(k, t.len() as int)[i] == s.subrange(k, s.len() as int)[i]);
        }
        lemma_trim_end_skip(t, k);
        assert(t.subrange(0, k) =~= s.subrange(0, k));
    } else {
        assert(s.subrange(0, s.len() as int) =~= s);
    }
}

/// Bounds of the trimmed part of `v[lo..hi]`.
pub fn trim_bounds(v: &Vec<char>, lo: usize, hi: usize) -> (r: (usize, usize))
    requires
        lo <= hi <= v.len(),
    ensures
        lo <= r.0 <= r.1 <= hi,
        v@.subrange(r.0 as int, r.1 as int) == trim(v@.subrange(lo as int, hi as int)),
{
    let ghost s = v@.subrange(lo as int, hi as int);
    let mut a = lo;
    while a < hi && is_ws_char(v[a])
        invariant
            lo <= a <= hi <= v.len(),
            s == v@.subrange(lo as int, hi as int),
            all_ws(s.subrange(0, a - lo)),
        decreases hi - a,
    {
        proof {
            assert forall|i: int| 0 <= i < a + 1 - lo implies is_ws(
                #[trigger] s.subrange(0, a + 1 - lo)[i],
            ) by {
                if i < a - lo {
                    assert(s.subrange(0, a + 1 - lo)[i] == s.subrange(0, a - lo)[i]);
                }
            }
        }
        a = a + 1;
    }
    proof {
        lemma_trim_start_skip(s, a - lo);
        let t = s.subrange(a - lo, s.len() as int);
        assert(t =~= v@.subrange(a as int, hi as int));
        if a < hi {
            assert(!is_ws(t[0]));
        }
        assert(trim_start(t) == t);
    }
    let ghost t = v@.subrange(a as int, hi as int);
    let mut b = hi;
    while b > a && is_ws_char(v[b - 1])
        invariant
            lo <= a <= b <= hi <= v.len(),
            t == v@.subrange(a as int, hi as int),
            all_ws(t.subrange(b - a, t.len() as int)),
        decreases b - a,
    {
        proof {
            assert forall|i: int| 0 <= i < t.len() - (b - 1 - a) implies is_ws(
                #[trigger] t.subrange(b - 1 - a, t.len() as int)[i],
            ) by {
                if i > 0 {
                    assert(t.subrange(b - 1 - a, t.len() as int)[i] == t.subrange(
                        b - a,
                        t.len() as int,
                    )[i - 1]);
                }
            }
        }
        b = b - 1;
    }
    proof {
        lemma_trim_end_skip(t, b - a);
        let u = t.subrange(0, b - a);
        assert(u =~= v@.subrange(a as int, b as int));
        if b > a {
            assert(!is_ws(u.last()));
        }
        assert(trim_end(u) == u);
    }
    (a, b)
}

/// Appends one character; `String::push`.
#[verifier::external_body]
pub fn push_char(s: &mut String, c: char)
    ensures
        final(s)@ == old(s)@.push(c),
{
    s.push(c);
}

/// The characters of `s`, in order.
pub fn chars_of(s: &str) -> (v: Vec<char>)
    ensures
        v@ == s@,
{
    let mut v: Vec<char> = Vec::new();
    let mut it = s.chars();
    proof {
        vstd::string::axiom_spec_iter(s);
    }
    for c in x: it
        invariant
            v@ == x.seq().take(x.index@),
            x.seq() == s@,
    {
        v.push(c);
        assert(x.seq().take(x.index@ + 1) =~= x.seq().take(x.index@).push(c));
    }
    v
}

/// A string holding `v[lo..hi]`.
pub fn string_of_range(v: &Vec<char>, lo: usize, hi: usize) -> (s: String)
    requires
        lo <= hi <= v.len(),
    ensures
        s@ == v@.subrange(lo as int, hi as int),
{
    let mut s = String::new();
    let mut i = lo;
    while i < hi
        invariant
            lo <= i <= hi <= v.len(),
            s@ == v@.subrange(lo as int, i as int),
        decreases hi - i,
    {
        push_char(&mut s, v[i]);
        assert(v@.subrange(lo as int, i + 1) =~= v@.subrange(lo as int, i as int).push(v@[i as int]));
        i = i + 1;
    }
    s
}

/// A string holding all of `v`.
pub fn string_of(v: &Vec<char>) -> (s: String)
    ensures
        s@ == v@,
{
    let s = string_of_range(v, 0, v.len());
    assert(v@.subrange(0, v@.len() as int) =~= v@);
    s
}

/// `s` begins with `p`.
pub open spec fn has_prefix(s: Seq<char>, p: Seq<char>) -> bool {
    p.len() <= s.len() && s.subrange(0, p.len() as int) == p
}

/// `s` ends with `p`.
pub open spec fn has_suffix(s: Seq<char>, p: Seq<char>) -> bool {
    p.len() <= s.len() && s.subrange(s.len() - p.len(), s.len() as int) == p
}

/// `p` occurs in `s` at position `i`.
pub open spec fn occurs_at(s: Seq<char>, p: Seq<char>, i: int) -> bool {
    0 <= i && i + p.len() <= s.len() && s.subrange(i, i + p.len()) == p
}

/// `str::find`: the first position where `p` occurs in `s`.
#[verifier::opaque]
pub open spec fn find(s: Seq<char>, p: Seq<char>) -> Option<int> {
    if exists|i: int| occurs_at(s, p, i) {
        Some(choose|i: int| occurs_at(s, p, i) && forall|j: int| 0 <= j < i ==> !occurs_at(s, p, j))
    } else {
        None
    }
}

/// `str::contains`.
pub open spec fn contains(s: Seq<char>, p: Seq<char>) -> bool {
    exists|i: int| occurs_at(s, p, i)
}

/// `str::replacen(p, "", 1)`: remove the first occurrence of `p`.
pub open spec fn remove_first(s: Seq<char>, p: Seq<char>) -> Seq<char> {
    match find(s, p) {
        Some(i) => s.subrange(0, i) + s.subrange(i + p.len(), s.len() as int),
        None => s,
    }
}

/// Does `v[at..]` start with `p`?
pub fn matches_at(v: &Vec<char>, at: usize, p: &Vec<char>) -> (b: bool)
    requires
        at <= v.len(),
    ensures
        b == occurs_at(v@, p@, at as int),
{
    if p.len() > v.len() - at {
        return false;
    }
    let mut k: usize = 0;
    while k < p.len()
        invariant
            at + p.len() <= v.len(),
            0 <= k <= p.len(),
            forall|j: int| 0 <= j < k ==> v@[at + j] == p@[j],
        decreases p.len() - k,
    {
        if v[at + k] != p[k] {
            assert(v@.subrange(at as int, at + p.len())[k as int] != p@[k as int]);
            return false;
        }
        k = k + 1;
    }
    assert(v@.subrange(at as int, at + p.len()) =~= p@);
    true
}

proof fn lemma_find_is(s: Seq<char>, p: Seq<char>, i: int)
    requires
        occurs_at(s, p, i),
        forall|j: int| 0 <= j < i ==> !occurs_at(s, p, j),
    ensures
        find(s, p) == Some(i),
{
    reveal(find);
    let k = choose|k: int| occurs_at(s, p, k) && forall|j: int| 0 <= j < k ==> !occurs_at(s, p, j);
    assert(occurs_at(s, p, k));
    if k < i {
        assert(!occurs_at(s, p, k));
    }
    if i < k {
        assert(!occurs_at(s, p, i));
    }
}

/// `str::find` on character vectors.
pub fn find_vec(v: &Vec<char>, p: &Vec<char>) -> (r: Option<usize>)
    ensures
        match r {
            Some(i) => find(v@, p@) == Some(i as int) && occurs_at(v@, p@, i as int),
            None => find(v@, p@) is None,
        },
{
    let mut i: usize = 0;
    while i <= v.len()
        invariant_except_break
            0 <= i <= v.len(),
            forall|j: int| 0 <= j < i ==> !occurs_at(v@, p@, j),
        ensures
            forall|j: int| 0 <= j <= v.len() ==> !occurs_at(v@, p@, j),
        decreases v.len() - i,
    {
        if matches_at(v, i, p) {
            proof {
                lemma_find_is(v@, p@, i as int);
            }
            return Some(i);
        }
        if i == v.len() {
            break;
        }
        i = i + 1;
    }
    assert forall|j: int| !occurs_at(v@, p@, j) by {
        if 0 <= j && j <= v.len() {
        }
    }
    reveal(find);
    None
}

/// Position of the first `c` in `s`, or `s.len()` when there is none.
pub open spec fn idx_of(s: Seq<char>, c: char) -> int
    decreases s.len(),
{
    if s.len() == 0 {
        0
    } else if s[0] == c {
        0
    } else {
        1 + idx_of(s.drop_first(), c)
    }
}

pub proof fn lemma_idx_of(s: Seq<char>, c: char, j: int)
    requires
        0 <= j <= s.len(),
        forall|k: int| 0 <= k < j ==> s[k] != c,
        j == s.len() || s[j] == c,
    ensures
        idx_of(s, c) == j,
    decreases j,
{
    if j > 0 {
        let t = s.drop_first();
        assert forall|k: int| 0 <= k < j - 1 implies t[k] != c by {
            assert(t[k] == s[k + 1]);
        }
        if j < s.len() {
            assert(t[j - 1] == s[j]);
        }
        lemma_idx_of(t, c, j - 1);
    }
}

pub proof fn lemma_idx_of_bounds(s: Seq<char>, c: char)
    ensures
        0 <= idx_of(s, c) <= s.len(),
        idx_of(s, c) < s.len() ==> s[idx_of(s, c)] == c,
        forall|k: int| 0 <= k < idx_of(s, c) ==> s[k] != c,
    decreases s.len(),
{
    if s.len() > 0 && s[0] != c {
        lemma_idx_of_bounds(s.drop_first(), c);
        assert forall|k: int| 0 <= k < idx_of(s, c) implies s[k] != c by {
            if k > 0 {
                assert(s[k] == s.drop_first()[k - 1]);
            }
        }
    }
}

/// Drop one trailing carriage return.
pub open spec fn strip_cr(l: Seq<char>) -> Seq<char> {
    if l.len() > 0 && l.last() == '\r' {
        l.drop_last()
    } else {
        l
    }
}

/// `str::lines`: pieces between line feeds, each without its `\n` or
/// `\r\n` ending; a final line feed does not start an empty last line.
pub open spec fn lines(s: Seq<char>) -> Seq<Seq<char>>
    decreases s.len(),
{
    if s.len() == 0 {
        seq![]
    } else {
        let i = idx_of(s, '\n');
        if i >= s.len() || i < 0 {
            seq![s]
        } else {
            seq![strip_cr(s.subrange(0, i))] + lines(s.subrange(i + 1, s.len() as int))
        }
    }
}

/// The contents of a sequence of character vectors.
pub open spec fn vviews(r: Seq<Vec<char>>) -> Seq<Seq<char>> {
    r.map_values(|l: Vec<char>| l@)
}

/// `str::lines` on a character vector.
pub fn split_lines(v: &Vec<char>) -> (r: Vec<Vec<char>>)
    ensures
        vviews(r@) == lines(v@),
{
    let mut r: Vec<Vec<char>> = Vec::new();
    let mut start: usize = 0;
    assert(v@.subrange(0, v.len() as int) =~= v@);
    assert(vviews(r@) + lines(v@) =~= lines(v@));
    while start < v.len()
        invariant
            0 <= start <= v.len(),
            lines(v@) == vviews(r@) + lines(v@.subrange(start as int, v.len() as int)),
        decreases v.len() - start,
    {
        let ghost rest = v@.subrange(start as int, v.len() as int);
        let mut j = start;
        while j < v.len() && v[j] != '\n'
            invariant
                start <= j <= v.len(),
                rest == v@.subrange(start as int, v.len() as int),
                forall|k: int| 0 <= k < j - start ==> rest[k] != '\n',
            decreases v.len() - j,
        {
            j = j + 1;
        }
        proof {
            lemma_idx_of(rest, '\n', j - start);
        }
        let mut e = j;
        if j < v.len() && j > start && v[j - 1] == '\r' {
            e = j - 1;
        }
        let line = {
            let mut l: Vec<char> = Vec::new();
            let mut k = start;
            while k < e
                invariant
                    start <= k <= e <= v.len(),
                    l@ == v@.subrange(start as int, k as int),
                decreases e - k,
            {
                l.push(v[k]);
                assert(v@.subrange(start as int, k + 1) =~= v@.subrange(start as int, k as int).push(v@[k as int]));
                k = k + 1;
            }
            l
        };
        let ghost old_r = vviews(r@);
        r.push(line);
        proof {
            assert(vviews(r@) =~= old_r.push(line@));
            if j < v.len() {
                assert(strip_cr(rest.subrange(0, j - start)) =~= v@.subrange(start as int, e as int));
                assert(rest.subrange(j - start + 1, rest.len() as int) =~= v@.subrange(j + 1, v.len() as int));
                assert(lines(rest) == seq![line@] + lines(v@.subrange(j + 1, v.len() as int)));
            } else {
                assert(rest =~= line@);
                assert(v@.subrange(v.len() as int, v.len() as int) =~= Seq::<char>::empty());
                assert(lines(v@.subrange(v.len() as int, v.len() as int)) =~= Seq::<Seq<char>>::empty());
            }
        }
        if j < v.len() {
            start = j + 1;
        } else {
            start = v.len();
        }
    }
    proof {
        assert(v@.subrange(start as int, v.len() as int) =~= Seq::<char>::empty());
        assert(vviews(r@) + Seq::<Seq<char>>::empty() =~= vviews(r@));
    }
    r
}

/// A copy of `v[lo..hi]`.
pub fn sub_vec(v: &Vec<char>, lo: usize, hi: usize) -> (r: Vec<char>)
    requires
        lo <= hi <= v.len(),
    ensures
        r@ == v@.subrange(lo as int, hi as int),
{
    let mut r: Vec<char> = Vec::new();
    let mut k = lo;
    while k < hi
        invariant
            lo <= k <= hi <= v.len(),
            r@ == v@.subrange(lo as int, k as int),
        decreases hi - k,
    {
        r.push(v[k]);
        assert(v@.subrange(lo as int, k + 1) =~= v@.subrange(lo as int, k as int).push(v@[k as int]));
        k = k + 1;
    }
    r
}

/// `v` followed by `w`.
pub fn append_vec(v: &mut Vec<char>, w: &Vec<char>)
    ensures
        final(v)@ == old(v)@ + w@,
{
    let mut k: usize = 0;
    while k < w.len()
        invariant
            0 <= k <= w.len(),
            v@ == old(v)@ + w@.subrange(0, k as int),
        decreases w.len() - k,
    {
        v.push(w[k]);
        assert(w@.subrange(0, k + 1) =~= w@.subrange(0, k as int).push(w@[k as int]));
        k = k + 1;
    }
    assert(w@.subrange(0, w.len() as int) =~= w@);
}

/// `str::replacen(p, "", 1)` on character vectors.
pub fn remove_first_vec(v: &Vec<char>, p: &Vec<char>) -> (r: Vec<char>)
    ensures
        r@ == remove_first(v@, p@),
{
    match find_vec(v, p) {
        Some(i) => {
            let mut r = sub_vec(v, 0, i);
            let tail = sub_vec(v, i + p.len(), v.len());
            append_vec(&mut r, &tail);
            r
        },
        None => {
            let r = sub_vec(v, 0, v.len());
            assert(v@.subrange(0, v@.len() as int) =~= v@);
            r
        },
    }
}

/// `s` is empty or starts a comment (`//` or `/*`).
pub open spec fn blank_or_comment(t: Seq<char>) -> bool {
    t.len() == 0 || (t.len() >= 2 && t[0] == '/' && (t[1] == '/' || t[1] == '*'))
}

pub fn is_blank_or_comment(t: &Vec<char>) -> (b: bool)
    ensures
        b == blank_or_comment(t@),
{
    t.len() == 0 || (t.len() >= 2 && t[0] == '/' && (t[1] == '/' || t[1] == '*'))
}

/// `v` starts with the characters of `p`.
pub fn starts_with_str(v: &Vec<char>, p: &str) -> (b: bool)
    ensures
        b == has_prefix(v@, p@),
{
    let pv = chars_of(p);
    let b = matches_at(v, 0, &pv);
    assert(b == has_prefix(v@, p@));
    b
}

/// Some character of `s` is `c`.
pub open spec fn has_char(s: Seq<char>, c: char) -> bool {
    exists|i: int| 0 <= i < s.len() && s[i] == c
}

pub fn contains_char(v: &Vec<char>, c: char) -> (b: bool)
    ensures
        b == has_char(v@, c),
{
    let mut i: usize = 0;
    while i < v.len()
        invariant
            0 <= i <= v.len(),
            forall|j: int| 0 <= j < i ==> v@[j] != c,
        decreases v.len() - i,
    {
        if v[i] == c {
            return true;
        }
        i = i + 1;
    }
    false
}

/// Position of the last `c` in `s`, or -1 when there is none.
pub open spec fn last_idx_of(s: Seq<char>, c: char) -> int
    decreases s.len(),
{
    if s.len() == 0 {
        -1
    } else if s.last() == c {
        s.len() - 1
    } else {
        last_idx_of(s.drop_last(), c)
    }
}

/// `str::rfind(c)` on a character vector.
pub fn rfind_char(v: &Vec<char>, c: char) -> (r: Option<usize>)
    ensures
        match r {
            Some(i) => last_idx_of(v@, c) == i && i < v.len(),
            None => last_idx_of(v@, c) == -1,
        },
{
    let mut k = v.len();
    assert(v@.subrange(0, k as int) =~= v@);
    while k > 0
        invariant
            0 <= k <= v.len(),
            last_idx_of(v@, c) == last_idx_of(v@.subrange(0, k as int), c),
        decreases k,
    {
        assert(v@.subrange(0, k as int).drop_last() =~= v@.subrange(0, k - 1));
        if v[k - 1] == c {
            return Some(k - 1);
        }
        k = k - 1;
    }
    None
}

/// `s` followed by a line feed.
pub open spec fn with_nl(s: Seq<char>) -> Seq<char> {
    s.push('\n')
}

/// `v` followed by the characters of `s`.
pub fn push_str(v: &mut Vec<char>, s: &str)
    ensures
        final(v)@ == old(v)@ + s@,
{
    let w = chars_of(s);
    append_vec(v, &w);
}

/// The decimal digit for `d < 10`.
pub open spec fn digit(d: nat) -> char {
    if d == 0 { '0' }
    else if d == 1 { '1' }
    else if d == 2 { '2' }
    else if d == 3 { '3' }
    else if d == 4 { '4' }
    else if d == 5 { '5' }
    else if d == 6 { '6' }
    else if d == 7 { '7' }
    else if d == 8 { '8' }
    else { '9' }
}

/// The decimal representation of `n`, as `format!("{}", n)` writes it.
pub open spec fn dec(n: nat) -> Seq<char>
    decreases n,
{
    if n < 10 {
        seq![digit(n)]
    } else {
        dec(n / 10).push(digit(n % 10))
    }
}

fn digit_char(d: usize) -> (c: char)
    requires
        d < 10,
    ensures
        c == digit(d as nat),
{
    if d == 0 { '0' }
    else if d == 1 { '1' }
    else if d == 2 { '2' }
    else if d == 3 { '3' }
    else if d == 4 { '4' }
    else if d == 5 { '5' }
    else if d == 6 { '6' }
    else if d == 7 { '7' }
    else if d == 8 { '8' }
    else { '9' }
}

/// The decimal representation of `n`.
pub fn decimal(n: usize) -> (v: Vec<char>)
    ensures
        v@ == dec(n as nat),
    decreases n,
{
    if n < 10 {
        let mut v: Vec<char> = Vec::new();
        v.push(digit_char(n));
        v
    } else {
        let mut v = decimal(n / 10);
        v.push(digit_char(n % 10));
        v
    }
}

/// `str::split(c)`: the pieces between occurrences of `c`; there is always
/// at least one piece.
pub open spec fn split_on(s: Seq<char>, c: char) -> Seq<Seq<char>>
    decreases s.len(),
{
    let i = idx_of(s, c);
    if i >= s.len() || i < 0 {
        seq![s]
    } else {
        seq![s.subrange(0, i)] + split_on(s.subrange(i + 1, s.len() as int), c)
    }
}

/// The pieces of `v[lo..]` between occurrences of `c`.
fn split_from(v: &Vec<char>, lo: usize, c: char) -> (r: Vec<Vec<char>>)
    requires
        lo <= v.len(),
    ensures
        vviews(r@) == split_on(v@.subrange(lo as int, v@.len() as int), c),
    decreases v.len() - lo,
{
    let ghost s = v@.subrange(lo as int, v@.len() as int);
    let mut k = lo;
    while k < v.len() && v[k] != c
        invariant
            lo <= k <= v.len(),
            forall|j: int| lo <= j < k ==> v@[j] != c,
        decreases v.len() - k,
    {
        k = k + 1;
    }
    proof {
        assert forall|j: int| 0 <= j < k - lo implies s[j] != c by {
            assert(s[j] == v@[lo + j]);
        }
        if k < v.len() {
            assert(s[k - lo] == v@[k as int]);
        }
        lemma_idx_of(s, c, k - lo);
    }
    let piece = sub_vec(v, lo, k);
    let mut r: Vec<Vec<char>> = Vec::new();
    r.push(piece);
    if k == v.len() {
        assert(s.subrange(0, s.len() as int) =~= s);
        assert(vviews(r@) =~= seq![s]);
        r
    } else {
        let mut rest = split_from(v, k + 1, c);
        assert(s.subrange(0, k - lo) =~= v@.subrange(lo as int, k as int));
        assert(s.subrange(k - lo + 1, s.len() as int) =~= v@.subrange(k + 1, v@.len() as int));
        let ghost r0 = r@;
        let ghost rest0 = rest@;
        r.append(&mut rest);
        assert(vviews(r@) =~= vviews(r0) + vviews(rest0));
        r
    }
}

/// `str::split(c)` on a character vector.
pub fn split_vec(v: &Vec<char>, c: char) -> (r: Vec<Vec<char>>)
    ensures
        vviews(r@) == split_on(v@, c),
{
    assert(v@.subrange(0, v@.len() as int) =~= v@);
    split_from(v, 0, c)
}

/// `v` with white space trimmed from both ends.
pub fn trim_vec(v: &Vec<char>) -> (r: Vec<char>)
    ensures
        r@ == trim(v@),
{
    let (a, b) = trim_bounds(v, 0, v.len());
    assert(v@.subrange(0, v@.len() as int) =~= v@);
    sub_vec(v, a, b)
}

/// `v` holds exactly the characters of `s`.
pub fn same_text(v: &Vec<char>, s: &str) -> (b: bool)
    ensures
        b == (v@ == s@),
{
    let w = chars_of(s);
    if v.len() != w.len() {
        return false;
    }
    let mut i: usize = 0;
    while i < v.len()
        invariant
            0 <= i <= v.len(),
            v.len() == w.len(),
            w@ == s@,
            forall|j: int| 0 <= j < i ==> v@[j] == w@[j],
        decreases v.len() - i,
    {
        if v[i] != w[i] {
            return false;
        }
        i = i + 1;
    }
    assert(v@ =~= w@);
    true
}

/// `str::find` of text `p` in `v`.
pub fn find_text(v: &Vec<char>, p: &str) -> (r: Option<usize>)
    ensures
        match r {
            Some(i) => find(v@, p@) == Some(i as int) && occurs_at(v@, p@, i as int),
            None => find(v@, p@) is None,
        },
        (r is Some) == contains(v@, p@),
{
    let pv = chars_of(p);
    let r = find_vec(v, &pv);
    proof {
        reveal(find);
        if let Some(i) = r {
            assert(occurs_at(v@, p@, i as int));
        }
    }
    r
}

/// `v` ends with `p`.
pub fn ends_with_vec(v: &Vec<char>, p: &Vec<char>) -> (b: bool)
    ensures
        b == has_suffix(v@, p@),
{
    if p.len() > v.len() {
        false
    } else {
        matches_at(v, v.len() - p.len(), p)
    }
}

/// End of the part of `v[lo..hi]` left by `str::trim_end`.
pub fn trim_end_bound(v: &Vec<char>, lo: usize, hi: usize) -> (b: usize)
    requires
        lo <= hi <= v.len(),
    ensures
        lo <= b <= hi,
        v@.subrange(lo as int, b as int) == trim_end(v@.subrange(lo as int, hi as int)),
{
    let ghost t = v@.subrange(lo as int, hi as int);
    let mut b = hi;
    assert(t.subrange(t.len() as int, t.len() as int) =~= Seq::<char>::empty());
    while b > lo && is_ws_char(v[b - 1])
        invariant
            lo <= b <= hi <= v.len(),
            t == v@.subrange(lo as int, hi as int),
            all_ws(t.subrange(b - lo, t.len() as int)),
        decreases b - lo,
    {
        proof {
            assert forall|i: int| 0 <= i < t.len() - (b - 1 - lo) implies is_ws(
                #[trigger] t.subrange(b - 1 - lo, t.len() as int)[i],
            ) by {
                if i > 0 {
                    assert(t.subrange(b - 1 - lo, t.len() as int)[i] == t.subrange(
                        b - lo,
                        t.len() as int,
                    )[i - 1]);
                }
            }
        }
        b = b - 1;
    }
    proof {
        lemma_trim_end_skip(t, b - lo);
        let u = t.subrange(0, b - lo);
        assert(u =~= v@.subrange(lo as int, b as int));
        if b > lo {
            assert(!is_ws(u.last()));
        }
        assert(trim_end(u) == u);
    }
    b
}

/// Where `str::trim_start` of `v[lo..]` begins.
pub fn skip_ws(v: &Vec<char>, lo: usize) -> (k: usize)
    requires
        lo <= v.len(),
    ensures
        lo <= k <= v.len(),
        trim_start(v@.subrange(lo as int, v@.len() as int)) == v@.subrange(k as int, v@.len() as int),
        k < v.len() ==> !is_ws(v@[k as int]),
{
    let ghost s = v@.subrange(lo as int, v@.len() as int);
    let mut a = lo;
    assert(s.subrange(0, 0) =~= Seq::<char>::empty());
    while a < v.len() && is_ws_char(v[a])
        invariant
            lo <= a <= v.len(),
            s == v@.subrange(lo as int, v@.len() as int),
            all_ws(s.subrange(0, a - lo)),
        decreases v.len() - a,
    {
        proof {
            assert forall|i: int| 0 <= i < a + 1 - lo implies is_ws(
                #[trigger] s.subrange(0, a + 1 - lo)[i],
            ) by {
                if i < a - lo {
                    assert(s.subrange(0, a + 1 - lo)[i] == s.subrange(0, a - lo)[i]);
                }
            }
        }
        a = a + 1;
    }
    proof {
        lemma_trim_start_skip(s, a - lo);
        let t = s.subrange(a - lo, s.len() as int);
        assert(t =~= v@.subrange(a as int, v@.len() as int));
        if a < v.len() {
            assert(!is_ws(t[0]));
        }
        assert(trim_start(t) == t);
    }
    a
}

/// `str::trim_start_matches(c)`: drop every leading `c`.
pub open spec fn strip_lead(s: Seq<char>, c: char) -> Seq<char>
    decreases s.len(),
{
    if s.len() > 0 && s[0] == c {
        strip_lead(s.drop_first(), c)
    } else {
        s
    }
}

/// `str::trim_end_matches(c)`: drop every trailing `c`.
pub open spec fn strip_trail(s: Seq<char>, c: char) -> Seq<char>
    decreases s.len(),
{
    if s.len() > 0 && s.last() == c {
        strip_trail(s.drop_last(), c)
    } else {
        s
    }
}

/// `v` without leading and trailing `c`s: `trim_start_matches(c)` then
/// `trim_end_matches(d)`.
pub fn strip_both(v: &Vec<char>, c: char, d: char) -> (r: Vec<char>)
    ensures
        r@ == strip_trail(strip_lead(v@, c), d),
{
    let mut a: usize = 0;
    assert(v@.subrange(0, v@.len() as int) =~= v@);
    while a < v.len() && v[a] == c
        invariant
            0 <= a <= v.len(),
            strip_lead(v@, c) == strip_lead(v@.subrange(a as int, v@.len() as int), c),
        decreases v.len() - a,
    {
        assert(v@.subrange(a as int, v@.len() as int).drop_first() =~= v@.subrange(a + 1, v@.len() as int));
        a = a + 1;
    }
    assert(v@.subrange(0, v@.len() as int) =~= v@);
    let ghost t = v@.subrange(a as int, v@.len() as int);
    let mut b: usize = v.len();
    assert(t.subrange(0, t.len() as int) =~= t);
    while b > a && v[b - 1] == d
        invariant
            a <= b <= v.len(),
            t == v@.subrange(a as int, v@.len() as int),
            strip_trail(t, d) == strip_trail(v@.subrange(a as int, b as int), d),
        decreases b - a,
    {
        assert(v@.subrange(a as int, b as int).drop_last() =~= v@.subrange(a as int, b - 1));
        b = b - 1;
    }
    sub_vec(v, a, b)
}

/// `str::replace(p, "")` for a non-empty `p`: every occurrence, left to
/// right, removed.
pub open spec fn remove_all(s: Seq<char>, p: Seq<char>) -> Seq<char>
    decreases s.len(),
{
    if p.len() == 0 {
        s
    } else {
        match find(s, p) {
            Some(i) => if 0 <= i && i + p.len() <= s.len() {
                s.subrange(0, i) + remove_all(s.subrange(i + p.len(), s.len() as int), p)
            } else {
                s
            },
            None => s,
        }
    }
}

/// `v` with every occurrence of `p` removed.
pub fn remove_all_vec(v: &Vec<char>, p: &str) -> (r: Vec<char>)
    ensures
        r@ == remove_all(v@, p@),
    decreases v.len(),
{
    let pv = chars_of(p);
    if pv.len() == 0 {
        return sub_vec_copy(v);
    }
    match find_vec(v, &pv) {
        Some(i) => {
            let mut out = sub_vec(v, 0, i);
            let rest = sub_vec(v, i + pv.len(), v.len());
            let tail = remove_all_vec(&rest, p);
            append_vec(&mut out, &tail);
            out
        },
        None => sub_vec_copy(v),
    }
}

/// A copy of `v`.
pub fn sub_vec_copy(v: &Vec<char>) -> (r: Vec<char>)
    ensures
        r@ == v@,
{
    assert(v@.subrange(0, v@.len() as int) =~= v@);
    sub_vec(v, 0, v.len())
}

/// `v` without trailing `d`s.
pub fn strip_trail_vec(v: &Vec<char>, d: char) -> (r: Vec<char>)
    ensures
        r@ == strip_trail(v@, d),
{
    let mut b: usize = v.len();
    assert(v@.subrange(0, v@.len() as int) =~= v@);
    while b > 0 && v[b - 1] == d
        invariant
            b <= v.len(),
            strip_trail(v@, d) == strip_trail(v@.subrange(0, b as int), d),
        decreases b,
    {
        assert(v@.subrange(0, b as int).drop_last() =~= v@.subrange(0, b - 1));
        b = b - 1;
    }
    sub_vec(v, 0, b)
}

/// `v` without leading `c`s.
pub fn strip_lead_vec(v: &Vec<char>, c: char) -> (r: Vec<char>)
    ensures
        r@ == strip_lead(v@, c),
{
    let mut a: usize = 0;
    assert(v@.subrange(0, v@.len() as int) =~= v@);
    while a < v.len() && v[a] == c
        invariant
            0 <= a <= v.len(),
            strip_lead(v@, c) == strip_lead(v@.subrange(a as int, v@.len() as int), c),
        decreases v.len() - a,
    {
        assert(v@.subrange(a as int, v@.len() as int).drop_first() =~= v@.subrange(a + 1, v@.len() as int));
        a = a + 1;
    }
    sub_vec(v, a, v.len())
}

/// The value of decimal digits `s`.
pub open spec fn digits_value(s: Seq<char>) -> nat
    decreases s.len(),
{
    if s.len() == 0 {
        0
    } else {
        digits_value(s.drop_last()) * 10 + ((s.last() as u32) - ('0' as u32)) as nat
    }
}

/// `s.parse::<usize>()` succeeds: an optional `+`, then at least one digit,
/// with a value that fits.
pub open spec fn parses_usize(s: Seq<char>) -> bool {
    let d = unsigned_digits(s);
    d.len() > 0 && dec_digits(d) && digits_value(d) <= usize::MAX
}

/// `s` without one leading `+`.
pub open spec fn unsigned_digits(s: Seq<char>) -> Seq<char> {
    if s.len() > 0 && s[0] == '+' {
        s.drop_first()
    } else {
        s
    }
}

/// Every character of `d` is a decimal digit.
pub open spec fn dec_digits(d: Seq<char>) -> bool {
    forall|i: int| 0 <= i < d.len() ==> '0' <= #[trigger] d[i] && d[i] <= '9'
}

/// Whether `v.parse::<usize>()` succeeds.
pub fn parses_usize_vec(v: &Vec<char>) -> (b: bool)
    ensures
        b == parses_usize(v@),
{
    let start: usize = if v.len() > 0 && v[0] == '+' { 1 } else { 0 };
    let ghost d = unsigned_digits(v@);
    assert(d =~= v@.subrange(start as int, v@.len() as int));
    if start >= v.len() {
        return false;
    }
    let mut val: usize = 0;
    let mut i: usize = start;
    while i < v.len()
        invariant
            start <= i <= v.len(),
            d == v@.subrange(start as int, v@.len() as int),
            d == unsigned_digits(v@),
            start < v.len(),
            forall|k: int| start <= k < i ==> '0' <= #[trigger] v@[k] && v@[k] <= '9',
            val == digits_value(v@.subrange(start as int, i as int)),
        decreases v.len() - i,
    {
        let c = v[i];
        if !('0' <= c && c <= '9') {
            proof {
                let j = i - start;
                assert(d[j] == c);
                assert(!('0' <= d[j] && d[j] <= '9'));
                assert(0 <= j < d.len());
                lemma_not_parse(v@, j);
            }
            return false;
        }
        let digit: usize = (c as u32 - '0' as u32) as usize;
        assert(v@.subrange(start as int, i + 1).drop_last() =~= v@.subrange(start as int, i as int));
        if val > (usize::MAX - digit) / 10 {
            proof {
                assert(digits_value(v@.subrange(start as int, i + 1)) == val * 10 + digit);
                assert(val * 10 + digit > usize::MAX) by (nonlinear_arith)
                    requires val > (usize::MAX - digit) / 10, digit < 10;
                assert(v@.subrange(start as int, i + 1) =~= d.subrange(0, (i + 1 - start) as int));
                if forall|k: int| 0 <= k < d.len() ==> '0' <= #[trigger] d[k] && d[k] <= '9' {
                    lemma_digits_prefix(d, (i + 1 - start) as int);
                    lemma_too_big(v@, digits_value(d));
                } else {
                    let j = choose|k: int| 0 <= k < d.len() && !('0' <= d[k] && d[k] <= '9');
                    lemma_not_parse(v@, j);
                }
            }
            return false;
        }
        proof {
            assert(val * 10 + digit <= usize::MAX) by (nonlinear_arith)
                requires val <= (usize::MAX - digit) / 10, digit < 10;
        }
        val = val * 10 + digit;
        i = i + 1;
    }
    assert(forall|k: int| 0 <= k < d.len() ==> d[k] == v@[start + k]);
    true
}

proof fn lemma_not_parse(s: Seq<char>, j: int)
    requires
        0 <= j < unsigned_digits(s).len(),
        !('0' <= unsigned_digits(s)[j] && unsigned_digits(s)[j] <= '9'),
    ensures
        !parses_usize(s),
{
}

proof fn lemma_too_big(s: Seq<char>, n: nat)
    requires
        n == digits_value(unsigned_digits(s)),
        n > usize::MAX,
    ensures
        !parses_usize(s),
{
}

/// The value of the digits of `d` never falls as digits are added.
proof fn lemma_digits_prefix(d: Seq<char>, k: int)
    requires
        0 <= k <= d.len(),
        forall|i: int| 0 <= i < d.len() ==> '0' <= #[trigger] d[i] && d[i] <= '9',
    ensures
        digits_value(d.subrange(0, k)) <= digits_value(d),
    decreases d.len() - k,
{
    if k < d.len() {
        lemma_digits_prefix(d, k + 1);
        assert(d.subrange(0, k + 1).drop_last() =~= d.subrange(0, k));
    } else {
        assert(d.subrange(0, k) =~= d);
    }
}

/// How many bytes character `c` takes in UTF-8.
pub open spec fn utf8_len(c: char) -> nat {
    if '\u{80}' > c {
        1
    } else if '\u{800}' > c {
        2
    } else if '\u{10000}' > c {
        3
    } else {
        4
    }
}

/// The byte offset, in UTF-8, of character `i` of `s`.
pub open spec fn byte_off(s: Seq<char>, i: int) -> nat
    decreases i,
{
    if i <= 0 || i > s.len() {
        0
    } else {
        byte_off(s, i - 1) + utf8_len(s[i - 1])
    }
}

/// Byte offset `b` starts a character of `s` (or is its end).
pub open spec fn char_boundary(s: Seq<char>, b: int) -> bool {
    exists|i: int| 0 <= i <= s.len() && #[trigger] byte_off(s, i) == b
}

/// Byte offsets grow with the character index.
pub proof fn lemma_byte_off_mono(s: Seq<char>, i: int, j: int)
    requires
        0 <= i < j <= s.len(),
    ensures
        byte_off(s, i) < byte_off(s, j),
    decreases j,
{
    if i < j - 1 {
        lemma_byte_off_mono(s, i, j - 1);
    }
}

/// Two characters start at the same byte only when they are the same.
pub proof fn lemma_byte_off_inj(s: Seq<char>, i: int, j: int)
    requires
        0 <= i <= s.len(),
        0 <= j <= s.len(),
        byte_off(s, i) == byte_off(s, j),
    ensures
        i == j,
{
    if i < j {
        lemma_byte_off_mono(s, i, j);
    } else if j < i {
        lemma_byte_off_mono(s, j, i);
    }
}

/// `char::len_utf8`.
pub fn utf8_width(c: char) -> (n: usize)
    ensures
        n == utf8_len(c),
{
    if '\u{80}' > c {
        1
    } else if '\u{800}' > c {
        2
    } else if '\u{10000}' > c {
        3
    } else {
        4
    }
}

/// The character of `s` that starts at byte `b`.
pub fn char_at_byte(s: &Vec<char>, b: usize) -> (ci: usize)
    requires
        char_boundary(s@, b as int),
    ensures
        ci <= s.len(),
        byte_off(s@, ci as int) == b,
{
    let ghost k = choose|i: int| 0 <= i <= s@.len() && #[trigger] byte_off(s@, i) == b;
    let n = s.len();
    let mut acc: usize = 0;
    let mut i: usize = 0;
    while acc < b
        invariant
            0 <= k <= s@.len(),
            s@.len() == n,
            byte_off(s@, k) == b,
            i <= k,
            acc == byte_off(s@, i as int),
            acc <= b,
        decreases k - i,
    {
        proof {
            if i == k {
                assert(false);
            }
            if i + 1 < k {
                lemma_byte_off_mono(s@, i + 1, k);
            }
        }
        acc = acc + utf8_width(s[i]);
        i = i + 1;
    }
    proof {
        if i < k {
            lemma_byte_off_mono(s@, i as int, k);
        }
    }
    i
}

/// The byte offset of character `ci` of `s`.
pub fn byte_at_char(s: &Vec<char>, ci: usize) -> (b: usize)
    requires
        ci <= s.len(),
        byte_off(s@, s@.len() as int) <= usize::MAX,
    ensures
        b == byte_off(s@, ci as int),
{
    let mut acc: usize = 0;
    let mut i: usize = 0;
    while i < ci
        invariant
            i <= ci <= s.len(),
            byte_off(s@, s@.len() as int) <= usize::MAX,
            acc == byte_off(s@, i as int),
        decreases ci - i,
    {
        proof {
            if i + 1 < s@.len() {
                lemma_byte_off_mono(s@, i + 1, s@.len() as int);
            }
        }
        acc = acc + utf8_width(s[i]);
        i = i + 1;
    }
    acc
}

} // verus!
