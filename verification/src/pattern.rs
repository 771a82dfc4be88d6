//! Regular-expression search through the `regex` crate, and rebuilding a text
//! from the pieces between matches and a replacement for each match.
use vstd::prelude::*;
use crate::text::{append_vec, chars_of, push_str, vviews};

verus! {

/// The texts of a sequence of strings.
pub open spec fn strings(v: Seq<String>) -> Seq<Seq<char>> {
    v.map_values(|s: String| s@)
}

/// The content of one match's capture groups (group 0 is the whole match).
pub open spec fn groups_view(c: Vec<Option<String>>) -> Seq<Option<Seq<char>>> {
    c@.map_values(|g: Option<String>| match g {
        Some(s) => Some(s@),
        None => None,
    })
}

/// The content of every match's capture groups.
pub open spec fn matches_view(m: Seq<Vec<Option<String>>>) -> Seq<Seq<Option<Seq<char>>>> {
    m.map_values(|c: Vec<Option<String>>| groups_view(c))
}

/// Group `k` of a match, or nothing when it did not take part.
pub open spec fn grp(c: Seq<Option<Seq<char>>>, k: int) -> Seq<char> {
    if 0 <= k < c.len() {
        match c[k] {
            Some(s) => s,
            None => Seq::empty(),
        }
    } else {
        Seq::empty()
    }
}

/// Group `k` took part in the match.
pub open spec fn has_grp(c: Seq<Option<Seq<char>>>, k: int) -> bool {
    0 <= k < c.len() && c[k] is Some
}

/// The whole text of each match.
pub open spec fn whole(m: Seq<Seq<Option<Seq<char>>>>) -> Seq<Seq<char>> {
    m.map_values(|c: Seq<Option<Seq<char>>>| grp(c, 0))
}

/// `gaps[0] + reps[0] + gaps[1] + ... + reps[n-1] + gaps[n]`.
pub open spec fn splice(gaps: Seq<Seq<char>>, reps: Seq<Seq<char>>) -> Seq<char>
    decreases reps.len(),
{
    if reps.len() == 0 || gaps.len() == 0 {
        if gaps.len() == 0 {
            Seq::empty()
        } else {
            gaps[0]
        }
    } else {
        splice(gaps.drop_last(), reps.drop_last()) + reps.last() + gaps.last()
    }
}

// What regular expression `pattern` finds in `text`: the pieces of `text`
// between successive matches, and the capture groups of each match; `None`
// when `pattern` is not a valid expression.
pub uninterp spec fn regex_scan(pattern: Seq<char>, text: Seq<char>) -> Option<
    (Seq<Seq<char>>, Seq<Seq<Option<Seq<char>>>>),
>;

// The message of the error `regex::Regex::new(pattern)` returns.
pub uninterp spec fn regex_error(pattern: Seq<char>) -> Seq<char>;

// Whether `regex::Regex::new(pattern)` accepts `pattern`.
pub uninterp spec fn regex_valid(pattern: Seq<char>) -> bool;

/// Search `text` for `pattern` with `regex::Regex::new`, `Regex::split` and
/// `Regex::captures_iter`: the pieces between successive non-overlapping
/// matches and each match's groups. Claimed, as the crate documents: one more
/// piece than matches, each match holding its whole text as group 0, and the
/// pieces and matches in turn making up `text`; on an invalid pattern, the
/// error's message. Whether the pattern is accepted depends on the pattern
/// alone. The matching itself (which matches are found) is named, not
/// stated.
#[verifier::external_body]
pub fn regex_search(pattern: &str, text: &str) -> (r: Result<
    (Vec<String>, Vec<Vec<Option<String>>>),
    String,
>)
    ensures
        match r {
            Ok((gaps, ms)) => {
                &&& regex_scan(pattern@, text@) == Some((strings(gaps@), matches_view(ms@)))
                &&& gaps@.len() == ms@.len() + 1
                &&& forall|i: int| 0 <= i < ms@.len() ==> #[trigger] has_grp(groups_view(ms@[i]), 0)
                &&& text@ == splice(strings(gaps@), whole(matches_view(ms@)))
            },
            Err(m) => regex_scan(pattern@, text@) is None && m@ == regex_error(pattern@),
        },
        (r is Ok) == regex_valid(pattern@),
{
    match regex::Regex::new(pattern) {
        Ok(re) => Ok((
            re.split(text).map(String::from).collect(),
            re.captures_iter(text).map(|c| c.iter().map(|g| g.map(|m| String::from(m.as_str()))).collect()).collect(),
        )),
        Err(e) => Err(e.to_string()),
    }
}

/// Group `k` of match `c`, or nothing.
pub fn group(c: &Vec<Option<String>>, k: usize) -> (r: Vec<char>)
    ensures
        r@ == grp(groups_view(*c), k as int),
{
    if k < c.len() {
        match &c[k] {
            Some(s) => chars_of(s.as_str()),
            None => Vec::new(),
        }
    } else {
        Vec::new()
    }
}

/// Whether group `k` of match `c` took part.
pub fn has_group(c: &Vec<Option<String>>, k: usize) -> (b: bool)
    ensures
        b == has_grp(groups_view(*c), k as int),
{
    k < c.len() && c[k].is_some()
}

/// The text made of `gaps` with `reps[i]` between `gaps[i]` and `gaps[i+1]`.
pub fn splice_texts(gaps: &Vec<String>, reps: &Vec<Vec<char>>) -> (r: Vec<char>)
    requires
        gaps@.len() == reps@.len() + 1,
    ensures
        r@ == splice(strings(gaps@), vviews(reps@)),
{
    let mut out = chars_of(gaps[0].as_str());
    let mut i: usize = 0;
    proof {
        assert(splice(strings(gaps@).subrange(0, 1), vviews(reps@).subrange(0, 0)) == strings(gaps@)[0]);
    }
    while i < reps.len()
        invariant
            0 <= i <= reps.len(),
            gaps@.len() == reps@.len() + 1,
            out@ == splice(strings(gaps@).subrange(0, i + 1), vviews(reps@).subrange(0, i as int)),
        decreases reps.len() - i,
    {
        append_vec(&mut out, &reps[i]);
        push_str(&mut out, gaps[i + 1].as_str());
        proof {
            let g2 = strings(gaps@).subrange(0, i + 2);
            let r2 = vviews(reps@).subrange(0, i + 1);
            assert(g2.drop_last() =~= strings(gaps@).subrange(0, i + 1));
            assert(r2.drop_last() =~= vviews(reps@).subrange(0, i as int));
            assert(r2.last() == reps@[i as int]@);
            assert(g2.last() == gaps@[i + 1]@);
        }
        i = i + 1;
    }
    proof {
        assert(strings(gaps@).subrange(0, reps.len() + 1) =~= strings(gaps@));
        assert(vviews(reps@).subrange(0, reps.len() as int) =~= vviews(reps@));
    }
    out
}

/// A regular-expression meta character, as `regex_syntax::is_meta_character`
/// lists them.
pub open spec fn is_meta(c: char) -> bool {
    c == '\\' || c == '.' || c == '+' || c == '*' || c == '?' || c == '(' || c == ')' || c == '|'
        || c == '[' || c == ']' || c == '{' || c == '}' || c == '^' || c == '$' || c == '#'
        || c == '&' || c == '-' || c == '~'
}

/// `s` with a backslash before each meta character.
pub open spec fn escaped(s: Seq<char>) -> Seq<char>
    decreases s.len(),
{
    if s.len() == 0 {
        Seq::empty()
    } else if is_meta(s.last()) {
        escaped(s.drop_last()) + seq!['\\', s.last()]
    } else {
        escaped(s.drop_last()).push(s.last())
    }
}

/// `regex::escape`: claimed to put a backslash before each meta character
/// and change nothing else, as its source shows.
#[verifier::external_body]
pub fn regex_escape(s: &str) -> (r: String)
    ensures
        r@ == escaped(s@),
{
    regex::escape(s)
}

/// `s` with every match of `pat` replaced by `rep`; `s` itself when `pat`
/// is refused.
pub open spec fn replace_const(pat: Seq<char>, s: Seq<char>, rep: Seq<char>) -> Seq<char> {
    match regex_scan(pat, s) {
        Some((g, m)) => splice(g, Seq::new(m.len(), |i: int| rep)),
        None => s,
    }
}

/// Every match of `pat` in `s` replaced by the fixed text `rep`.
pub fn replace_all_const(pat: &str, s: &str, rep: &str) -> (r: String)
    ensures
        r@ == replace_const(pat@, s@, rep@),
{
    match regex_search(pat, s) {
        Ok((gaps, ms)) => {
            let rv = chars_of(rep);
            let mut reps: Vec<Vec<char>> = Vec::new();
            let mut i: usize = 0;
            while i < ms.len()
                invariant
                    0 <= i <= ms.len(),
                    rv@ == rep@,
                    reps@.len() == i,
                    vviews(reps@) == Seq::new(i as nat, |k: int| rep@),
                decreases ms.len() - i,
            {
                let one = crate::text::sub_vec(&rv, 0, rv.len());
                assert(rv@.subrange(0, rv@.len() as int) =~= rv@);
                assert(one@ == rep@);
                let ghost r0 = reps@;
                reps.push(one);
                assert forall|k: int| 0 <= k < i + 1 implies vviews(reps@)[k] == rep@ by {
                    if k < i {
                        assert(reps@[k] == r0[k]);
                        assert(vviews(r0)[k] == rep@);
                    }
                }
                assert(vviews(reps@) =~= Seq::new((i + 1) as nat, |k: int| rep@));
                i = i + 1;
            }
            assert(matches_view(ms@).len() == ms@.len());
            crate::text::string_of(&splice_texts(&gaps, &reps))
        },
        Err(_) => String::from_str(s),
    }
}

/// Where match `i` ends in the text made of `g` and `w`: the length of the
/// pieces and matches up to it.
pub open spec fn match_end(g: Seq<Seq<char>>, w: Seq<Seq<char>>, i: int) -> int {
    (splice(g.subrange(0, i + 1), w.subrange(0, i)).len() + w[i].len()) as int
}

proof fn lemma_splice_prefix_len(g: Seq<Seq<char>>, w: Seq<Seq<char>>, k: int)
    requires
        g.len() == w.len() + 1,
        0 <= k <= w.len(),
    ensures
        splice(g.subrange(0, k + 1), w.subrange(0, k)).len() <= splice(g, w).len(),
    decreases w.len() - k,
{
    if k < w.len() {
        lemma_splice_prefix_len(g, w, k + 1);
        let g2 = g.subrange(0, k + 2);
        let w2 = w.subrange(0, k + 1);
        assert(g2.drop_last() =~= g.subrange(0, k + 1));
        assert(w2.drop_last() =~= w.subrange(0, k));
    } else {
        assert(g.subrange(0, k + 1) =~= g);
        assert(w.subrange(0, k) =~= w);
    }
}

/// A match ends no earlier than its own length.
pub proof fn lemma_match_end_ge(g: Seq<Seq<char>>, w: Seq<Seq<char>>, i: int)
    requires
        0 <= i < w.len(),
    ensures
        match_end(g, w, i) >= w[i].len(),
{
}

/// Where each match ends, counted in characters of the text `gaps` and the
/// matches of `ms` make up.
pub fn match_ends(gaps: &Vec<String>, ms: &Vec<Vec<Option<String>>>, text: &str) -> (r: Vec<usize>)
    requires
        gaps@.len() == ms@.len() + 1,
        text@ == splice(strings(gaps@), whole(matches_view(ms@))),
    ensures
        r@.len() == ms@.len(),
        forall|i: int| 0 <= i < ms@.len() ==> #[trigger] r@[i] == match_end(strings(gaps@), whole(matches_view(ms@)), i),
        forall|i: int| 0 <= i < ms@.len() ==> r@[i] <= text@.len(),
{
    let ghost g = strings(gaps@);
    let ghost w = whole(matches_view(ms@));
    let tv = chars_of(text);
    let mut r: Vec<usize> = Vec::new();
    let mut off: usize = 0;
    let mut i: usize = 0;
    proof {
        assert(splice(g.subrange(0, 1), w.subrange(0, 0)) == g[0]);
    }
    while i < ms.len()
        invariant
            0 <= i <= ms.len(),
            gaps@.len() == ms@.len() + 1,
            g == strings(gaps@),
            w == whole(matches_view(ms@)),
            text@ == splice(g, w),
            tv@.len() == text@.len(),
            off + g[i as int].len() == splice(g.subrange(0, i + 1), w.subrange(0, i as int)).len(),
            r@.len() == i,
            forall|k: int| 0 <= k < i ==> #[trigger] r@[k] == match_end(g, w, k),
            forall|k: int| 0 <= k < i ==> r@[k] <= text@.len(),
        decreases ms.len() - i,
    {
        proof {
            lemma_splice_prefix_len(g, w, i + 1);
            let g2 = g.subrange(0, i + 2);
            let w2 = w.subrange(0, i + 1);
            assert(g2.drop_last() =~= g.subrange(0, i + 1));
            assert(w2.drop_last() =~= w.subrange(0, i as int));
            assert(g.subrange(0, i + 1).last() == g[i as int]);
        }
        let glen = chars_of(gaps[i].as_str()).len();
        let wlen = crate::pattern::group(&ms[i], 0).len();
        assert(w[i as int] == grp(groups_view(ms@[i as int]), 0));
        assert(glen == g[i as int].len());
        assert(wlen == w[i as int].len());
        proof {
            let g2 = g.subrange(0, i + 2);
            let w2 = w.subrange(0, i + 1);
            assert(splice(g2, w2) == splice(g2.drop_last(), w2.drop_last()) + w2.last() + g2.last());
            assert(text@.len() == tv.len());
        }
        let e = off + glen + wlen;
        r.push(e);
        off = e;
        i = i + 1;
    }
    r
}

/// The first match lies within the text: its piece before and its text fit.
pub proof fn lemma_first_match_within(g: Seq<Seq<char>>, w: Seq<Seq<char>>, text: Seq<char>)
    requires
        g.len() == w.len() + 1,
        w.len() > 0,
        text == splice(g, w),
    ensures
        g[0].len() + w[0].len() <= text.len(),
{
    lemma_splice_prefix_len(g, w, 1);
    let g2 = g.subrange(0, 2);
    let w2 = w.subrange(0, 1);
    assert(g2.drop_last() =~= g.subrange(0, 1));
    assert(w2.drop_last() =~= w.subrange(0, 0));
    assert(splice(g.subrange(0, 1), w.subrange(0, 0)) == g[0]);
}

} // verus!
