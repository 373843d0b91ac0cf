//! Character-level text handling: whitespace, trimming, whitespace
//! normalisation, prefixes, searching and decimal numbers.
use vstd::prelude::*;

verus! {

// ---------------------------------------------------------------------------
// Characters and strings
// ---------------------------------------------------------------------------

/// The characters that carry the Unicode `White_Space` property, which is
/// the set that `char::is_whitespace` accepts.
pub open spec fn is_ws(c: char) -> bool {
    ||| ('\u{9}' <= c && c <= '\u{d}')
    ||| c == ' '
    ||| c == '\u{85}'
    ||| c == '\u{a0}'
    ||| c == '\u{1680}'
    ||| ('\u{2000}' <= c && c <= '\u{200a}')
    ||| c == '\u{2028}'
    ||| c == '\u{2029}'
    ||| c == '\u{202f}'
    ||| c == '\u{205f}'
    ||| c == '\u{3000}'
}

/// Whether `c` is a whitespace character.
pub fn is_whitespace(c: char) -> (res: bool)
    ensures
        res == is_ws(c),
{
    ('\u{9}' <= c && c <= '\u{d}') || c == ' ' || c == '\u{85}' || c == '\u{a0}' || c
        == '\u{1680}' || ('\u{2000}' <= c && c <= '\u{200a}') || c == '\u{2028}' || c
        == '\u{2029}' || c == '\u{202f}' || c == '\u{205f}' || c == '\u{3000}'
}

/// The characters of `s`, in order.
pub fn chars_of(s: &str) -> (res: Vec<char>)
    ensures
        res@ == s@,
{
    let mut res: Vec<char> = Vec::new();
    for c in it: s.chars()
        invariant
            res@ == it.seq().take(it.index()),
            it.seq() == s@,
    {
        res.push(c);
    }
    res
}

/// Collects characters into a `String` (std's `FromIterator<char>`).
#[verifier::external_body]
pub(crate) fn string_from_chars(chars: &[char]) -> (res: String)
    ensures
        res@ == chars@,
{
    chars.iter().collect()
}

/// The characters `s[lo..hi]` as a new string.
pub fn substring(s: &Vec<char>, lo: usize, hi: usize) -> (res: String)
    requires
        lo <= hi <= s.len(),
    ensures
        res@ == s@.subrange(lo as int, hi as int),
{
    string_from_chars(&s.as_slice()[lo..hi])
}

// ---------------------------------------------------------------------------
// Trimming
// ---------------------------------------------------------------------------

/// `s` without its leading whitespace.
pub open spec fn trim_start(s: Seq<char>) -> Seq<char>
    decreases s.len(),
{
    if s.len() > 0 && is_ws(s[0]) {
        trim_start(s.drop_first())
    } else {
        s
    }
}

/// `s` without its trailing whitespace.
pub open spec fn trim_end(s: Seq<char>) -> Seq<char>
    decreases s.len(),
{
    if s.len() > 0 && is_ws(s.last()) {
        trim_end(s.drop_last())
    } else {
        s
    }
}

/// `s` without leading and trailing whitespace (`str::trim`).
pub open spec fn trim(s: Seq<char>) -> Seq<char> {
    trim_end(trim_start(s))
}

proof fn lemma_trim_start_at(s: Seq<char>, lo: int)
    requires
        0 <= lo <= s.len(),
        forall|j: int| 0 <= j < lo ==> is_ws(#[trigger] s[j]),
        lo == s.len() || !is_ws(s[lo]),
    ensures
        trim_start(s) == s.subrange(lo, s.len() as int),
    decreases lo,
{
    if lo == 0 {
        assert(s.subrange(0, s.len() as int) =~= s);
    } else {
        let t = s.drop_first();
        assert forall|j: int| 0 <= j < lo - 1 implies is_ws(#[trigger] t[j]) by {
            assert(t[j] == s[j + 1]);
        }
        lemma_trim_start_at(t, lo - 1);
        assert(t.subrange(lo - 1, t.len() as int) =~= s.subrange(lo, s.len() as int));
    }
}

proof fn lemma_trim_end_at(s: Seq<char>, hi: int)
    requires
        0 <= hi <= s.len(),
        forall|j: int| hi <= j < s.len() ==> is_ws(#[trigger] s[j]),
        hi == 0 || !is_ws(s[hi - 1]),
    ensures
        trim_end(s) == s.subrange(0, hi),
    decreases s.len() - hi,
{
    if hi == s.len() {
        assert(s.subrange(0, hi) =~= s);
    } else {
        let t = s.drop_last();
        lemma_trim_end_at(t, hi);
        assert(t.subrange(0, hi) =~= s.subrange(0, hi));
    }
}

/// The bounds `(lo, hi)` of `s` without surrounding whitespace.
fn trim_bounds(s: &Vec<char>) -> (res: (usize, usize))
    ensures
        res.0 <= res.1 <= s.len(),
        trim(s@) == s@.subrange(res.0 as int, res.1 as int),
{
    let n = s.len();
    let mut lo: usize = 0;
    while lo < n && is_whitespace(s[lo])
        invariant
            lo <= n == s.len(),
            forall|j: int| 0 <= j < lo ==> is_ws(#[trigger] s@[j]),
        decreases n - lo,
    {
        lo += 1;
    }
    let mut hi: usize = n;
    while hi > lo && is_whitespace(s[hi - 1])
        invariant
            lo <= hi <= n == s.len(),
            forall|j: int| hi <= j < n ==> is_ws(#[trigger] s@[j]),
        decreases hi - lo,
    {
        hi -= 1;
    }
    proof {
        lemma_trim_start_at(s@, lo as int);
        let t = s@.subrange(lo as int, n as int);
        if lo == n {
            assert(hi == lo);
            assert(t.len() == 0);
            assert(trim_end(t) == t);
            assert(t =~= s@.subrange(lo as int, hi as int));
        } else {
            assert(!is_ws(s@[lo as int]));
            assert(hi > lo);
            assert forall|j: int| hi - lo <= j < t.len() implies is_ws(#[trigger] t[j]) by {
                assert(t[j] == s@[j + lo]);
            }
            lemma_trim_end_at(t, hi - lo);
            assert(t.subrange(0, hi - lo) =~= s@.subrange(lo as int, hi as int));
        }
    }
    (lo, hi)
}

/// `s` without leading and trailing whitespace (`str::trim`).
pub fn trim_str(s: &str) -> (res: String)
    ensures
        res@ == trim(s@),
{
    let v = chars_of(s);
    let (lo, hi) = trim_bounds(&v);
    substring(&v, lo, hi)
}


proof fn lemma_trim_start_shape(s: Seq<char>)
    ensures
        trim_start(s).len() == 0 || !is_ws(trim_start(s)[0]),
    decreases s.len(),
{
    if s.len() > 0 && is_ws(s[0]) {
        lemma_trim_start_shape(s.drop_first());
    }
}

/// `trim_end` keeps a prefix of its input that is empty or ends in a
/// non-whitespace character.
pub proof fn lemma_trim_end_shape(s: Seq<char>)
    ensures
        trim_end(s).len() <= s.len(),
        trim_end(s) == s.subrange(0, trim_end(s).len() as int),
        trim_end(s).len() == 0 || !is_ws(trim_end(s).last()),
        s.len() > 0 && !is_ws(s[0]) ==> trim_end(s).len() > 0,
    decreases s.len(),
{
    if s.len() > 0 && is_ws(s.last()) {
        let t = s.drop_last();
        lemma_trim_end_shape(t);
        assert(t.subrange(0, trim_end(t).len() as int) =~= s.subrange(0, trim_end(t).len() as int));
    } else {
        assert(s.subrange(0, s.len() as int) =~= s);
    }
}

/// Trimming is idempotent: a trimmed string has nothing left to trim.
pub proof fn lemma_trim_idempotent(s: Seq<char>)
    ensures
        trim(trim(s)) == trim(s),
{
    let a = trim_start(s);
    let b = trim_end(a);
    lemma_trim_start_shape(s);
    lemma_trim_end_shape(a);
    if b.len() > 0 {
        assert(b[0] == a[0]);
        assert(trim_start(b) == b);
        assert(trim_end(b) == b);
    } else {
        assert(trim_start(b) == b);
        assert(trim_end(b) == b);
    }
}

// ---------------------------------------------------------------------------
// Whitespace normalisation
// ---------------------------------------------------------------------------

/// The whitespace-separated words of `s` (`str::split_whitespace`): a
/// whitespace character ends the current word; a non-whitespace character
/// starts a new word after whitespace (or at the start) and otherwise
/// extends the current word.
pub open spec fn words(s: Seq<char>) -> Seq<Seq<char>>
    decreases s.len(),
{
    if s.len() == 0 {
        seq![]
    } else {
        let p = s.drop_last();
        let c = s.last();
        let w = words(p);
        if is_ws(c) {
            w
        } else if p.len() == 0 || is_ws(p.last()) {
            w.push(seq![c])
        } else {
            w.update(w.len() - 1, w.last().push(c))
        }
    }
}

/// The words joined with single spaces.
pub open spec fn join_words(ws: Seq<Seq<char>>) -> Seq<char>
    decreases ws.len(),
{
    if ws.len() == 0 {
        seq![]
    } else if ws.len() == 1 {
        ws[0]
    } else {
        join_words(ws.drop_last()) + seq![' '] + ws.last()
    }
}

/// `s` with every run of whitespace collapsed into one space and no
/// whitespace at either end.
pub open spec fn normalize_ws(s: Seq<char>) -> Seq<char> {
    join_words(words(s))
}

/// A word is non-empty and holds no whitespace.
pub open spec fn is_word(w: Seq<char>) -> bool {
    w.len() > 0 && forall|j: int| 0 <= j < w.len() ==> !is_ws(#[trigger] w[j])
}

proof fn lemma_words_nonempty(s: Seq<char>)
    requires
        s.len() > 0,
        !is_ws(s.last()),
    ensures
        words(s).len() > 0,
    decreases s.len(),
{
    let p = s.drop_last();
    if !(p.len() == 0 || is_ws(p.last())) {
        lemma_words_nonempty(p);
    }
}

proof fn lemma_words_are_words(s: Seq<char>)
    ensures
        forall|i: int| 0 <= i < words(s).len() ==> is_word(#[trigger] words(s)[i]),
    decreases s.len(),
{
    if s.len() > 0 {
        let p = s.drop_last();
        let c = s.last();
        lemma_words_are_words(p);
        if !is_ws(c) && !(p.len() == 0 || is_ws(p.last())) {
            lemma_words_nonempty(p);
            let w = words(p);
            let l = w.last().push(c);
            assert(is_word(w[w.len() - 1]));
            assert forall|j: int| 0 <= j < l.len() implies !is_ws(#[trigger] l[j]) by {
                if j < l.len() - 1 {
                    assert(l[j] == w[w.len() - 1][j]);
                }
            }
            assert(is_word(l));
        } else if !is_ws(c) {
            assert(is_word(seq![c]));
        }
    }
}

proof fn lemma_join_push(ws: Seq<Seq<char>>, w: Seq<char>)
    ensures
        join_words(ws.push(w)) == if ws.len() == 0 {
            w
        } else {
            join_words(ws) + seq![' '] + w
        },
{
    let n = ws.push(w);
    assert(n.drop_last() =~= ws);
    if ws.len() == 0 {
        assert(n.len() == 1);
    }
}

proof fn lemma_join_extend_last(ws: Seq<Seq<char>>, c: char)
    requires
        ws.len() > 0,
    ensures
        join_words(ws.update(ws.len() - 1, ws.last().push(c))) == join_words(ws).push(c),
{
    let n = ws.update(ws.len() - 1, ws.last().push(c));
    if ws.len() == 1 {
        assert(n[0] == ws[0].push(c));
    } else {
        assert(n.drop_last() =~= ws.drop_last());
        assert(n.last() == ws.last().push(c));
        assert(join_words(ws.drop_last()) + seq![' '] + ws.last().push(c) =~= (join_words(
            ws.drop_last(),
        ) + seq![' '] + ws.last()).push(c));
    }
}

/// `s` with every run of whitespace collapsed into one space and no
/// whitespace at either end (`split_whitespace` joined by `" "`).
pub fn normalize_whitespace(s: &str) -> (res: String)
    ensures
        res@ == normalize_ws(s@),
{
    let v = chars_of(s);
    let n = v.len();
    let mut out: Vec<char> = Vec::new();
    let mut pending = false;
    let mut i: usize = 0;
    while i < n
        invariant
            i <= n == v.len(),
            out@ == join_words(words(v@.take(i as int))),
            pending == (i > 0 && is_ws(v@[i - 1]) && words(v@.take(i as int)).len() > 0),
        decreases n - i,
    {
        let c = v[i];
        let ghost p = v@.take(i as int);
        let ghost q = v@.take(i + 1);
        proof {
            assert(q.drop_last() =~= p);
            assert(q.last() == c);
        }
        if is_whitespace(c) {
            if out.len() > 0 {
                pending = true;
            }
            proof {
                if words(p).len() > 0 {
                    if words(p).len() == 1 {
                        lemma_words_are_words(p);
                        assert(is_word(words(p)[0]));
                    } else {
                        lemma_join_push(words(p).drop_last(), words(p).last());
                        assert(words(p).drop_last().push(words(p).last()) =~= words(p));
                    }
                    assert(out@.len() > 0);
                }
            }
        } else {
            if i == 0 || is_whitespace(v[i - 1]) {
                if pending {
                    out.push(' ');
                }
                out.push(c);
                proof {
                    lemma_join_push(words(p), seq![c]);
                    assert(p.len() == 0 || p.last() == v@[i - 1]);
                    if words(p).len() > 0 {
                        assert(out@ =~= join_words(words(p)) + seq![' '] + seq![c]);
                    } else {
                        assert(out@ =~= seq![c]);
                    }
                }
                pending = false;
            } else {
                out.push(c);
                proof {
                    assert(p.last() == v@[i - 1]);
                    lemma_words_nonempty(p);
                    lemma_join_extend_last(words(p), c);
                }
            }
        }
        i += 1;
    }
    proof {
        assert(v@.take(n as int) =~= v@);
    }
    string_from_chars(out.as_slice())
}


proof fn lemma_words_append_word(x: Seq<char>, w: Seq<char>)
    requires
        is_word(w),
        x.len() == 0 || is_ws(x.last()),
    ensures
        words(x + w) == words(x).push(w),
    decreases w.len(),
{
    let s = x + w;
    assert(s.drop_last() =~= x + w.drop_last());
    assert(s.last() == w.last());
    if w.len() == 1 {
        assert(x + w.drop_last() =~= x);
        assert(w =~= seq![w[0]]);
    } else {
        let w0 = w.drop_last();
        assert forall|j: int| 0 <= j < w0.len() implies !is_ws(#[trigger] w0[j]) by {
            assert(w0[j] == w[j]);
        }
        lemma_words_append_word(x, w0);
        assert((x + w0).last() == w0.last());
        assert(w0.last() == w[w.len() - 2]);
        let ws = words(x).push(w0);
        assert(w0.push(w.last()) =~= w);
        assert(ws.last() == w0);
        assert(ws.update(ws.len() - 1, ws.last().push(w.last())) =~= words(x).push(w));
    }
}

proof fn lemma_words_of_join(ws: Seq<Seq<char>>)
    requires
        forall|i: int| 0 <= i < ws.len() ==> is_word(#[trigger] ws[i]),
    ensures
        words(join_words(ws)) == ws,
    decreases ws.len(),
{
    if ws.len() == 0 {
    } else if ws.len() == 1 {
        lemma_words_append_word(seq![], ws[0]);
        assert(Seq::<char>::empty() + ws[0] =~= ws[0]);
        assert(Seq::<Seq<char>>::empty().push(ws[0]) =~= ws);
    } else {
        let d = ws.drop_last();
        assert forall|i: int| 0 <= i < d.len() implies is_word(#[trigger] d[i]) by {
            assert(d[i] == ws[i]);
        }
        lemma_words_of_join(d);
        let x = join_words(d) + seq![' '];
        assert(x.drop_last() =~= join_words(d));
        assert(words(x) == words(join_words(d)));
        assert(is_word(ws[ws.len() - 1]));
        lemma_words_append_word(x, ws.last());
        assert(d.push(ws.last()) =~= ws);
    }
}

/// Normalising whitespace is idempotent: a normalised string is its own
/// normal form.
pub proof fn lemma_normalize_idempotent(s: Seq<char>)
    ensures
        normalize_ws(normalize_ws(s)) == normalize_ws(s),
{
    lemma_words_are_words(s);
    lemma_words_of_join(words(s));
}




/// The words run together.
pub open spec fn concat_words(ws: Seq<Seq<char>>) -> Seq<char>
    decreases ws.len(),
{
    if ws.len() == 0 {
        seq![]
    } else {
        concat_words(ws.drop_last()) + ws.last()
    }
}

/// The non-whitespace characters of `s`, in order.
pub open spec fn non_ws_chars(s: Seq<char>) -> Seq<char>
    decreases s.len(),
{
    if s.len() == 0 {
        seq![]
    } else if is_ws(s.last()) {
        non_ws_chars(s.drop_last())
    } else {
        non_ws_chars(s.drop_last()).push(s.last())
    }
}

/// The words of `s` hold exactly its non-whitespace characters, in order:
/// splitting on whitespace loses nothing else and invents nothing.
pub proof fn lemma_words_cover(s: Seq<char>)
    ensures
        concat_words(words(s)) == non_ws_chars(s),
    decreases s.len(),
{
    if s.len() > 0 {
        let p = s.drop_last();
        let c = s.last();
        lemma_words_cover(p);
        let w = words(p);
        if !is_ws(c) {
            if p.len() == 0 || is_ws(p.last()) {
                assert(w.push(seq![c]).drop_last() =~= w);
                assert(concat_words(w) + seq![c] =~= concat_words(w).push(c));
            } else {
                lemma_words_nonempty(p);
                let n = w.update(w.len() - 1, w.last().push(c));
                assert(n.drop_last() =~= w.drop_last());
                assert(concat_words(w) == concat_words(w.drop_last()) + w.last());
                assert(concat_words(n) =~= concat_words(w).push(c));
            }
        }
    }
}

/// Whether `n` is in normal form: its only whitespace characters are single
/// spaces, each between two non-whitespace characters.
pub open spec fn is_normalized(n: Seq<char>) -> bool {
    forall|i: int|
        0 <= i < n.len() && is_ws(#[trigger] n[i]) ==> {
            &&& n[i] == ' '
            &&& 0 < i < n.len() - 1
            &&& !is_ws(n[i - 1])
            &&& !is_ws(n[i + 1])
        }
}

proof fn lemma_join_normalized(ws: Seq<Seq<char>>)
    requires
        forall|i: int| 0 <= i < ws.len() ==> is_word(#[trigger] ws[i]),
    ensures
        is_normalized(join_words(ws)),
        ws.len() > 0 ==> join_words(ws).len() > 0,
    decreases ws.len(),
{
    if ws.len() == 1 {
        assert(is_word(ws[0]));
    } else if ws.len() > 1 {
        let d = ws.drop_last();
        assert forall|i: int| 0 <= i < d.len() implies is_word(#[trigger] d[i]) by {
            assert(d[i] == ws[i]);
        }
        lemma_join_normalized(d);
        let j = join_words(d);
        let w = ws.last();
        assert(is_word(ws[ws.len() - 1]));
        let n = j + seq![' '] + w;
        assert(join_words(ws) == n);
        assert forall|i: int| 0 <= i < n.len() && is_ws(#[trigger] n[i]) implies {
            &&& n[i] == ' '
            &&& 0 < i < n.len() - 1
            &&& !is_ws(n[i - 1])
            &&& !is_ws(n[i + 1])
        } by {
            if i < j.len() {
                assert(n[i] == j[i]);
                assert(is_ws(j[i]));
                if i + 1 < j.len() {
                    assert(n[i + 1] == j[i + 1]);
                }
                assert(i + 1 < j.len());
                assert(n[i - 1] == j[i - 1]);
            } else if i == j.len() {
                assert(n[i + 1] == w[0]);
                if j.len() > 0 {
                    assert(n[i - 1] == j[j.len() - 1]);
                    assert(!is_ws(j[j.len() - 1])) by {
                        if is_ws(j[j.len() - 1]) {
                            assert(j.len() - 1 < j.len() - 1);
                        }
                    }
                }
            } else {
                assert(n[i] == w[i - j.len() - 1]);
            }
        }
    }
}

/// Whitespace normalisation leaves no whitespace but single spaces between
/// non-whitespace characters: none at either end and no runs.
pub proof fn lemma_normalize_shape(s: Seq<char>)
    ensures
        is_normalized(normalize_ws(s)),
{
    lemma_words_are_words(s);
    lemma_join_normalized(words(s));
}


proof fn lemma_trim_start_suffix(s: Seq<char>)
    ensures
        trim_start(s).len() <= s.len(),
        trim_start(s) == s.subrange(s.len() - trim_start(s).len(), s.len() as int),
        forall|j: int| 0 <= j < s.len() - trim_start(s).len() ==> is_ws(#[trigger] s[j]),
    decreases s.len(),
{
    if s.len() > 0 && is_ws(s[0]) {
        let t = s.drop_first();
        lemma_trim_start_suffix(t);
        let k = t.len() - trim_start(t).len();
        assert(t.subrange(k, t.len() as int) =~= s.subrange(k + 1, s.len() as int));
        assert forall|j: int| 0 <= j < s.len() - trim_start(s).len() implies is_ws(#[trigger] s[j]) by {
            if j > 0 {
                assert(s[j] == t[j - 1]);
            }
        }
    } else {
        assert(s.subrange(0, s.len() as int) =~= s);
    }
}

proof fn lemma_trim_end_rest(s: Seq<char>)
    ensures
        forall|j: int| trim_end(s).len() <= j < s.len() ==> is_ws(#[trigger] s[j]),
    decreases s.len(),
{
    lemma_trim_end_shape(s);
    if s.len() > 0 && is_ws(s.last()) {
        let t = s.drop_last();
        lemma_trim_end_rest(t);
        lemma_trim_end_shape(t);
        assert forall|j: int| trim_end(s).len() <= j < s.len() implies is_ws(#[trigger] s[j]) by {
            if j < s.len() - 1 {
                assert(s[j] == t[j]);
            }
        }
    }
}

/// Trimming removes whitespace from the two ends and nothing else: the
/// result is a stretch of the input with only whitespace before and after
/// it, and it neither starts nor ends with whitespace.
pub proof fn lemma_trim_strips_only_ends(s: Seq<char>)
    ensures
        exists|a: int, b: int|
            0 <= a <= b <= s.len() && trim(s) == s.subrange(a, b) && (forall|j: int|
                0 <= j < a ==> is_ws(#[trigger] s[j])) && (forall|j: int|
                b <= j < s.len() ==> is_ws(#[trigger] s[j])),
        trim(s).len() == 0 || (!is_ws(trim(s)[0]) && !is_ws(trim(s).last())),
{
    let t = trim_start(s);
    lemma_trim_start_suffix(s);
    lemma_trim_start_shape(s);
    lemma_trim_end_shape(t);
    lemma_trim_end_rest(t);
    let a = s.len() - t.len();
    let m = trim_end(t).len();
    let b = a + m;
    assert(trim(s) =~= s.subrange(a, b));
    assert forall|j: int| b <= j < s.len() implies is_ws(#[trigger] s[j]) by {
        assert(s[j] == t[j - a]);
    }
    if m > 0 {
        assert(trim(s)[0] == t[0]);
    }
}

/// Normalising keeps the words: the normal form has exactly the words of
/// the input, in order.
pub proof fn lemma_normalize_keeps_words(s: Seq<char>)
    ensures
        words(normalize_ws(s)) == words(s),
{
    lemma_words_are_words(s);
    lemma_words_of_join(words(s));
}

// ---------------------------------------------------------------------------
// Prefixes, searching and splitting
// ---------------------------------------------------------------------------

/// `s` without the prefix `p`, when `s` starts with `p` (`str::strip_prefix`).
pub open spec fn strip_prefix(s: Seq<char>, p: Seq<char>) -> Option<Seq<char>> {
    if p.len() <= s.len() && s.subrange(0, p.len() as int) == p {
        Some(s.subrange(p.len() as int, s.len() as int))
    } else {
        None
    }
}

/// Whether `p` occurs in `s` at position `i`.
pub open spec fn occurs_at(s: Seq<char>, p: Seq<char>, i: int) -> bool {
    0 <= i && i + p.len() <= s.len() && s.subrange(i, i + p.len()) == p
}

/// Whether `p` occurs somewhere in `s` (`str::contains`).
pub open spec fn contains_seq(s: Seq<char>, p: Seq<char>) -> bool {
    exists|i: int| occurs_at(s, p, i)
}

/// What follows the first `c` in `s`, if `s` holds a `c`
/// (the second half of `str::split_once`).
pub open spec fn after_first(s: Seq<char>, c: char) -> Option<Seq<char>>
    decreases s.len(),
{
    if s.len() == 0 {
        None
    } else if s[0] == c {
        Some(s.drop_first())
    } else {
        after_first(s.drop_first(), c)
    }
}

/// Whether `p` occurs in `s` at position `i`.
fn matches_at(s: &Vec<char>, p: &Vec<char>, i: usize) -> (res: bool)
    requires
        i + p.len() <= s.len(),
    ensures
        res == (s@.subrange(i as int, i + p.len()) == p@),
{
    let m = p.len();
    let mut k: usize = 0;
    while k < m
        invariant
            m == p.len(),
            i + m <= s.len(),
            k <= m,
            forall|j: int| 0 <= j < k ==> s@[i + j] == p@[j],
        decreases m - k,
    {
        if s[i + k] != p[k] {
            proof {
                assert(s@.subrange(i as int, i + m)[k as int] != p@[k as int]);
            }
            return false;
        }
        k += 1;
    }
    assert(s@.subrange(i as int, i + m) =~= p@);
    true
}

/// `s` without the prefix `p`, when `s` starts with `p`.
pub fn strip_prefix_chars(s: &Vec<char>, p: &Vec<char>) -> (res: Option<Vec<char>>)
    ensures
        match res {
            Some(r) => strip_prefix(s@, p@) == Some(r@),
            None => strip_prefix(s@, p@) is None,
        },
{
    if p.len() <= s.len() && matches_at(s, p, 0) {
        let mut r: Vec<char> = Vec::new();
        let mut i = p.len();
        while i < s.len()
            invariant
                p.len() <= i <= s.len(),
                r@ == s@.subrange(p.len() as int, i as int),
            decreases s.len() - i,
        {
            r.push(s[i]);
            i += 1;
            proof {
                assert(r@ =~= s@.subrange(p.len() as int, i as int));
            }
        }
        Some(r)
    } else {
        None
    }
}

/// Whether `p` occurs somewhere in `s`.
pub fn contains_chars(s: &Vec<char>, p: &Vec<char>) -> (res: bool)
    ensures
        res == contains_seq(s@, p@),
{
    if p.len() > s.len() {
        proof {
            assert forall|i: int| !occurs_at(s@, p@, i) by {}
        }
        return false;
    }
    if p.len() == 0 {
        assert(s@.subrange(0, 0) =~= p@);
        assert(occurs_at(s@, p@, 0));
        return true;
    }
    let last = s.len() - p.len();
    let mut i: usize = 0;
    while i <= last
        invariant
            last + p.len() == s.len(),
            p.len() >= 1,
            i <= last + 1,
            forall|j: int| 0 <= j < i ==> !occurs_at(s@, p@, j),
        decreases last + 1 - i,
    {
        if matches_at(s, p, i) {
            assert(occurs_at(s@, p@, i as int));
            return true;
        }
        i += 1;
    }
    proof {
        assert forall|j: int| !occurs_at(s@, p@, j) by {
            if 0 <= j < i {
            }
        }
    }
    false
}

proof fn lemma_after_first_at(s: Seq<char>, c: char, i: int)
    requires
        0 <= i <= s.len(),
        forall|j: int| 0 <= j < i ==> #[trigger] s[j] != c,
    ensures
        i < s.len() && s[i] == c ==> after_first(s, c) == Some(s.subrange(i + 1, s.len() as int)),
        i == s.len() ==> after_first(s, c) is None,
    decreases i,
{
    if i > 0 {
        let t = s.drop_first();
        assert forall|j: int| 0 <= j < i - 1 implies #[trigger] t[j] != c by {
            assert(t[j] == s[j + 1]);
        }
        lemma_after_first_at(t, c, i - 1);
        if i < s.len() {
            assert(t.subrange(i, t.len() as int) =~= s.subrange(i + 1, s.len() as int));
        }
    } else if s.len() > 0 && s[0] == c {
        assert(s.drop_first() =~= s.subrange(1, s.len() as int));
    }
}


/// What follows the first `c` is everything after it: for a prefix without
/// `c`, `prefix + c + rest` splits into `rest`; a string without `c` does
/// not split.
pub proof fn lemma_after_first_split(prefix: Seq<char>, c: char, rest: Seq<char>)
    requires
        !prefix.contains(c),
    ensures
        after_first(prefix + seq![c] + rest, c) == Some(rest),
        after_first(prefix, c) is None,
{
    let s = prefix + seq![c] + rest;
    assert forall|j: int| 0 <= j < prefix.len() implies #[trigger] s[j] != c by {
        assert(s[j] == prefix[j]);
        if prefix[j] == c {
            assert(prefix.contains(c));
        }
    }
    lemma_after_first_at(s, c, prefix.len() as int);
    assert(s.subrange(prefix.len() as int + 1, s.len() as int) =~= rest);
    assert forall|j: int| 0 <= j < prefix.len() implies #[trigger] prefix[j] != c by {
        if prefix[j] == c {
            assert(prefix.contains(c));
        }
    }
    lemma_after_first_at(prefix, c, prefix.len() as int);
}

/// What follows the first `c` in `s`, if `s` holds a `c`.
pub fn after_first_chars(s: &Vec<char>, c: char) -> (res: Option<Vec<char>>)
    ensures
        match res {
            Some(r) => after_first(s@, c) == Some(r@),
            None => after_first(s@, c) is None,
        },
{
    let n = s.len();
    let mut i: usize = 0;
    while i < n && s[i] != c
        invariant
            i <= n == s.len(),
            forall|j: int| 0 <= j < i ==> #[trigger] s@[j] != c,
        decreases n - i,
    {
        i += 1;
    }
    proof {
        lemma_after_first_at(s@, c, i as int);
    }
    if i == n {
        None
    } else {
        let mut r: Vec<char> = Vec::new();
        let mut k = i + 1;
        while k < n
            invariant
                i < n == s.len(),
                i + 1 <= k <= n,
                r@ == s@.subrange(i + 1, k as int),
            decreases n - k,
        {
            r.push(s[k]);
            k += 1;
            proof {
                assert(r@ =~= s@.subrange(i + 1, k as int));
            }
        }
        Some(r)
    }
}

// ---------------------------------------------------------------------------
// Decimal numbers
// ---------------------------------------------------------------------------

/// Whether `c` is an ASCII decimal digit.
pub open spec fn is_digit(c: char) -> bool {
    '0' <= c && c <= '9'
}

/// The value of the decimal digit `c`.
pub open spec fn digit_value(c: char) -> int {
    c as int - '0' as int
}

/// The value of the decimal digit string `s` (0 for the empty string).
pub open spec fn decimal_value(s: Seq<char>) -> int
    decreases s.len(),
{
    if s.len() == 0 {
        0
    } else {
        decimal_value(s.drop_last()) * 10 + digit_value(s.last())
    }
}

/// Whether every character of `s` is a decimal digit.
pub open spec fn all_digits(s: Seq<char>) -> bool {
    forall|j: int| 0 <= j < s.len() ==> is_digit(#[trigger] s[j])
}

/// The `u64` that `s` denotes (`<u64 as FromStr>::from_str`): an optional
/// `+` sign followed by at least one decimal digit, with a value that fits.
pub open spec fn parse_u64_spec(s: Seq<char>) -> Option<u64> {
    let d = if s.len() > 0 && s[0] == '+' {
        s.drop_first()
    } else {
        s
    };
    if d.len() > 0 && all_digits(d) && decimal_value(d) <= u64::MAX {
        Some(decimal_value(d) as u64)
    } else {
        None
    }
}

proof fn lemma_decimal_value_grows(s: Seq<char>, k: int)
    requires
        0 <= k <= s.len(),
        all_digits(s),
    ensures
        0 <= decimal_value(s.take(k)) <= decimal_value(s),
    decreases s.len(),
{
    if s.len() > 0 {
        let p = s.drop_last();
        assert(all_digits(p)) by {
            assert forall|j: int| 0 <= j < p.len() implies is_digit(#[trigger] p[j]) by {
                assert(p[j] == s[j]);
            }
        }
        assert(is_digit(s[s.len() - 1]));
        if k == s.len() {
            assert(s.take(k) =~= s);
            lemma_decimal_value_grows(p, 0);
        } else {
            lemma_decimal_value_grows(p, k);
            assert(p.take(k) =~= s.take(k));
            lemma_decimal_value_grows(p, p.len() as int);
            assert(p.take(p.len() as int) =~= p);
        }
    } else {
        assert(s.take(k).len() == 0);
    }
}

/// Parses a decimal `u64` as `<u64 as FromStr>::from_str` does, giving
/// `None` where that returns an error.
pub fn parse_u64(s: &Vec<char>) -> (res: Option<u64>)
    ensures
        res == parse_u64_spec(s@),
{
    let n = s.len();
    let start: usize = if n > 0 && s[0] == '+' {
        1
    } else {
        0
    };
    let ghost d = if s@.len() > 0 && s@[0] == '+' {
        s@.drop_first()
    } else {
        s@
    };
    proof {
        assert(d =~= s@.subrange(start as int, n as int));
    }
    if start == n {
        return None;
    }
    let mut value: u64 = 0;
    let mut i = start;
    while i < n
        invariant
            start <= i <= n == s.len(),
            start < n,
            d == s@.subrange(start as int, n as int),
            d == (if s@.len() > 0 && s@[0] == '+' {
                s@.drop_first()
            } else {
                s@
            }),
            value == decimal_value(d.take(i - start)),
            all_digits(d.take(i - start)),
        decreases n - i,
    {
        let c = s[i];
        let ghost k = i - start;
        proof {
            assert(d[k] == c);
            assert(d.take(k + 1).drop_last() =~= d.take(k));
            assert(d.take(k + 1).last() == c);
        }
        if !('0' <= c && c <= '9') {
            proof {
                assert(!is_digit(d[k]));
                assert(!all_digits(d));
                assert(parse_u64_spec(s@) is None);
            }
            return None;
        }
        let digit = (c as u32 - '0' as u32) as u64;
        if value > (u64::MAX - digit) / 10 {
            proof {
                assert(all_digits(d.take(k + 1))) by {
                    assert forall|j: int| 0 <= j < k + 1 implies is_digit(#[trigger] d.take(k + 1)[j]) by {
                        if j < k {
                            assert(d.take(k + 1)[j] == d.take(k)[j]);
                        }
                    }
                }
                assert(decimal_value(d.take(k + 1)) == value * 10 + digit);
                assert(value * 10 + digit > u64::MAX) by (nonlinear_arith)
                    requires value > (u64::MAX - digit) / 10, digit <= 9;
                if all_digits(d) {
                    lemma_decimal_value_grows(d, k + 1);
                }
                assert(parse_u64_spec(s@) is None);
            }
            return None;
        }
        proof {
            assert(value * 10 + digit <= u64::MAX) by (nonlinear_arith)
                requires value <= (u64::MAX - digit) / 10, digit <= 9;
        }
        value = value * 10 + digit;
        i += 1;
        proof {
            assert forall|j: int| 0 <= j < k + 1 implies is_digit(#[trigger] d.take(k + 1)[j]) by {
                if j < k {
                    assert(d.take(k + 1)[j] == d.take(k)[j]);
                }
            }
        }
    }
    proof {
        assert(d.take(n - start) =~= d);
    }
    Some(value)
}

/// The decimal digit character for `d < 10`.
pub open spec fn digit_char(d: int) -> char {
    (d + '0' as int) as char
}

/// The decimal representation of `n`, without leading zeros.
pub open spec fn decimal_string(n: nat) -> Seq<char>
    decreases n,
{
    if n < 10 {
        seq![digit_char(n as int)]
    } else {
        decimal_string(n / 10).push(digit_char((n % 10) as int))
    }
}


proof fn lemma_digit_char(d: int)
    requires
        0 <= d < 10,
    ensures
        is_digit(digit_char(d)),
        digit_value(digit_char(d)) == d,
        !is_ws(digit_char(d)),
        digit_char(d) != '+',
{
}

proof fn lemma_decimal_string_digits(n: nat)
    ensures
        decimal_string(n).len() > 0,
        all_digits(decimal_string(n)),
        decimal_value(decimal_string(n)) == n,
    decreases n,
{
    let s = decimal_string(n);
    if n < 10 {
        lemma_digit_char(n as int);
        assert(s.drop_last() =~= Seq::<char>::empty());
        assert(decimal_value(s) == decimal_value(s.drop_last()) * 10 + digit_value(s.last()));
    } else {
        let p = decimal_string(n / 10);
        let c = digit_char((n % 10) as int);
        lemma_decimal_string_digits(n / 10);
        lemma_digit_char((n % 10) as int);
        assert(s.drop_last() =~= p);
        assert(s.last() == c);
        assert forall|j: int| 0 <= j < s.len() implies is_digit(#[trigger] s[j]) by {
            if j < p.len() {
                assert(s[j] == p[j]);
            }
        }
        assert(decimal_value(s) == decimal_value(p) * 10 + digit_value(c));
        assert((n / 10) * 10 + n % 10 == n) by (nonlinear_arith);
    }
}

/// Reading back a printed number gives the number: `parse_u64` inverts
/// `decimal_u64`, and printed numbers have nothing to trim.
pub proof fn lemma_decimal_roundtrip(n: u64)
    ensures
        parse_u64_spec(decimal_string(n as nat)) == Some(n),
        trim(decimal_string(n as nat)) == decimal_string(n as nat),
{
    let s = decimal_string(n as nat);
    lemma_decimal_string_digits(n as nat);
    assert(is_digit(s[0]));
    assert(s[0] != '+');
    assert(is_digit(s.last()));
    assert(!is_ws(s[0]));
    assert(!is_ws(s.last()));
    assert(trim_start(s) == s);
    assert(trim_end(s) == s);
}

/// Appends the decimal representation of `n` to `out`.
pub fn push_decimal(out: &mut Vec<char>, n: u64)
    ensures
        final(out)@ == old(out)@ + decimal_string(n as nat),
    decreases n,
{
    if n >= 10 {
        push_decimal(out, n / 10);
    }
    let d = (n % 10) as u8;
    let c = (48u8 + d) as char;
    assert(c == digit_char((n % 10) as int));
    out.push(c);
    proof {
        if n >= 10 {
            assert(old(out)@ + decimal_string(n as nat) =~= old(out)@ + decimal_string(
                (n / 10) as nat,
            ) + seq![c]);
        } else {
            assert(old(out)@ + decimal_string(n as nat) =~= old(out)@ + seq![c]);
        }
    }
}

/// The decimal representation of `n` (`u64::to_string`).
pub fn decimal_u64(n: u64) -> (res: String)
    ensures
        res@ == decimal_string(n as nat),
{
    let mut v: Vec<char> = Vec::new();
    push_decimal(&mut v, n);
    assert(v@ =~= decimal_string(n as nat));
    string_from_chars(v.as_slice())
}


// ---------------------------------------------------------------------------
// Comparison
// ---------------------------------------------------------------------------

/// Whether `a` and `b` hold the same characters.
pub fn chars_equal(a: &Vec<char>, b: &Vec<char>) -> (res: bool)
    ensures
        res == (a@ == b@),
{
    if a.len() != b.len() {
        return false;
    }
    let r = matches_at(a, b, 0);
    proof {
        assert(a@.subrange(0, b.len() as int) =~= a@);
    }
    r
}

/// Whether `a` and `b` are the same string.
pub fn str_equal(a: &str, b: &str) -> (res: bool)
    ensures
        res == (a@ == b@),
{
    chars_equal(&chars_of(a), &chars_of(b))
}

/// `s` without any leading `c` (`str::trim_start_matches` with a char).
pub open spec fn trim_start_char(s: Seq<char>, c: char) -> Seq<char>
    decreases s.len(),
{
    if s.len() > 0 && s[0] == c {
        trim_start_char(s.drop_first(), c)
    } else {
        s
    }
}

proof fn lemma_trim_start_char_at(s: Seq<char>, c: char, lo: int)
    requires
        0 <= lo <= s.len(),
        forall|j: int| 0 <= j < lo ==> #[trigger] s[j] == c,
        lo == s.len() || s[lo] != c,
    ensures
        trim_start_char(s, c) == s.subrange(lo, s.len() as int),
    decreases lo,
{
    if lo == 0 {
        assert(s.subrange(0, s.len() as int) =~= s);
    } else {
        let t = s.drop_first();
        assert forall|j: int| 0 <= j < lo - 1 implies #[trigger] t[j] == c by {
            assert(t[j] == s[j + 1]);
        }
        lemma_trim_start_char_at(t, c, lo - 1);
        assert(t.subrange(lo - 1, t.len() as int) =~= s.subrange(lo, s.len() as int));
    }
}

/// `s` without any leading `c`.
pub fn trim_start_char_chars(s: &Vec<char>, c: char) -> (res: Vec<char>)
    ensures
        res@ == trim_start_char(s@, c),
{
    let n = s.len();
    let mut lo: usize = 0;
    while lo < n && s[lo] == c
        invariant
            lo <= n == s.len(),
            forall|j: int| 0 <= j < lo ==> #[trigger] s@[j] == c,
        decreases n - lo,
    {
        lo += 1;
    }
    proof {
        lemma_trim_start_char_at(s@, c, lo as int);
    }
    let mut r: Vec<char> = Vec::new();
    let mut k = lo;
    while k < n
        invariant
            lo <= k <= n == s.len(),
            r@ == s@.subrange(lo as int, k as int),
        decreases n - k,
    {
        r.push(s[k]);
        k += 1;
        proof {
            assert(r@ =~= s@.subrange(lo as int, k as int));
        }
    }
    r
}


/// `a` followed by `b`.
pub fn concat_str(a: &str, b: &str) -> (res: String)
    ensures
        res@ == a@ + b@,
{
    let mut v = chars_of(a);
    let w = chars_of(b);
    let ghost a0 = v@;
    let mut i: usize = 0;
    while i < w.len()
        invariant
            i <= w.len(),
            v@ == a0 + w@.take(i as int),
        decreases w.len() - i,
    {
        v.push(w[i]);
        i += 1;
        proof {
            assert(v@ =~= a0 + w@.take(i as int));
        }
    }
    proof {
        assert(w@.take(w.len() as int) =~= w@);
    }
    string_from_chars(v.as_slice())
}

} // verus!
