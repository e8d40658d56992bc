//! Character-level building blocks shared by the parsers: whitespace and
//! quote trimming, searching for a character, splitting on a separator,
//! and turning `&str` into a vector of characters.
use vstd::prelude::*;

verus! {

/// The Unicode `White_Space` property (PropList.txt), which is what
/// `str::trim` trims.
pub open spec fn is_white_space(c: char) -> bool {
    let u = c as u32;
    ||| (0x9 <= u && u <= 0xD)
    ||| u == 0x20
    ||| u == 0x85
    ||| u == 0xA0
    ||| u == 0x1680
    ||| (0x2000 <= u && u <= 0x200A)
    ||| u == 0x2028
    ||| u == 0x2029
    ||| u == 0x202F
    ||| u == 0x205F
    ||| u == 0x3000
}

/// Does `c` have the Unicode `White_Space` property?
pub fn white_space(c: char) -> (b: bool)
    ensures
        b == is_white_space(c),
{
    let u = c as u32;
    (0x9 <= u && u <= 0xD) || u == 0x20 || u == 0x85 || u == 0xA0 || u == 0x1680 || (0x2000 <= u && u
        <= 0x200A) || u == 0x2028 || u == 0x2029 || u == 0x202F || u == 0x205F || u == 0x3000
}

/// A single or a double quote: what the dotenv parser strips around values.
pub open spec fn is_quote(c: char) -> bool {
    c == '\'' || c == '"'
}

/// Number of leading characters of `s` that satisfy `p`.
pub open spec fn count_leading(s: Seq<char>, p: spec_fn(char) -> bool) -> nat
    decreases s.len(),
{
    if s.len() > 0 && p(s[0]) {
        1 + count_leading(s.drop_first(), p)
    } else {
        0
    }
}

/// Number of trailing characters of `s` that satisfy `p`.
pub open spec fn count_trailing(s: Seq<char>, p: spec_fn(char) -> bool) -> nat
    decreases s.len(),
{
    if s.len() > 0 && p(s.last()) {
        1 + count_trailing(s.drop_last(), p)
    } else {
        0
    }
}

/// `s` without its leading characters that satisfy `p`.
pub open spec fn trim_start_by(s: Seq<char>, p: spec_fn(char) -> bool) -> Seq<char> {
    s.skip(count_leading(s, p) as int)
}

/// `s` without its trailing characters that satisfy `p`.
pub open spec fn trim_end_by(s: Seq<char>, p: spec_fn(char) -> bool) -> Seq<char> {
    s.take(s.len() - count_trailing(s, p))
}

/// `s` without leading and trailing characters that satisfy `p`
/// (`str::trim_matches`).
pub open spec fn trim_by(s: Seq<char>, p: spec_fn(char) -> bool) -> Seq<char> {
    trim_end_by(trim_start_by(s, p), p)
}

/// `str::trim_start`.
pub open spec fn trim_start(s: Seq<char>) -> Seq<char> {
    trim_start_by(s, |c: char| is_white_space(c))
}

/// `str::trim`.
pub open spec fn trim(s: Seq<char>) -> Seq<char> {
    trim_by(s, |c: char| is_white_space(c))
}

/// `str::trim_matches` with the single and double quote.
pub open spec fn trim_quotes(s: Seq<char>) -> Seq<char> {
    trim_by(s, |c: char| is_quote(c))
}

pub proof fn lemma_count_leading(s: Seq<char>, p: spec_fn(char) -> bool)
    ensures
        count_leading(s, p) <= s.len(),
        forall|j: int| 0 <= j < count_leading(s, p) ==> p(#[trigger] s[j]),
        count_leading(s, p) < s.len() ==> !p(s[count_leading(s, p) as int]),
    decreases s.len(),
{
    if s.len() > 0 && p(s[0]) {
        lemma_count_leading(s.drop_first(), p);
        assert forall|j: int| 0 <= j < count_leading(s, p) implies p(#[trigger] s[j]) by {
            if j > 0 {
                assert(s[j] == s.drop_first()[j - 1]);
            }
        }
    }
}

pub proof fn lemma_count_trailing(s: Seq<char>, p: spec_fn(char) -> bool)
    ensures
        count_trailing(s, p) <= s.len(),
        forall|j: int|
            s.len() - count_trailing(s, p) <= j < s.len() ==> p(#[trigger] s[j]),
        count_trailing(s, p) < s.len() ==> !p(s[s.len() - count_trailing(s, p) - 1]),
    decreases s.len(),
{
    if s.len() > 0 && p(s.last()) {
        lemma_count_trailing(s.drop_last(), p);
        assert forall|j: int|
            s.len() - count_trailing(s, p) <= j < s.len() implies p(#[trigger] s[j]) by {
            if j < s.len() - 1 {
                assert(s[j] == s.drop_last()[j]);
            }
        }
    }
}

/// The characters of `s`, in order.
pub fn chars_of(s: &str) -> (r: Vec<char>)
    ensures
        r@ == s@,
{
    let mut r: Vec<char> = Vec::new();
    for c in it: s.chars()
        invariant
            r@ == it.seq().take(it.index()),
    {
        r.push(c);
        assert(r@ == it.seq().take(it.index() + 1));
    }
    r
}

/// Index (into `v`) of the first character of `v[lo..hi]` that is not
/// white space, or `hi`.
pub fn skip_ws_forward(v: &Vec<char>, lo: usize, hi: usize) -> (r: usize)
    requires
        lo <= hi <= v.len(),
    ensures
        r == lo + count_leading(v@.subrange(lo as int, hi as int), |c: char| is_white_space(c)),
{
    let ghost s = v@.subrange(lo as int, hi as int);
    let ghost p = |c: char| is_white_space(c);
    let mut i = lo;
    while i < hi && white_space(v[i])
        invariant
            lo <= i <= hi <= v.len(),
            forall|j: int| lo <= j < i ==> is_white_space(#[trigger] v@[j]),
        decreases hi - i,
    {
        i = i + 1;
    }
    proof {
        lemma_count_leading(s, p);
        let n = count_leading(s, p);
        if n < i - lo {
            assert(s[n as int] == v@[lo + n]);
        } else if n > i - lo {
            assert(s[i - lo] == v@[i as int]);
        }
    }
    i
}

/// A quote (when `quotes`) or a white-space character (otherwise).
fn in_class(c: char, quotes: bool) -> (r: bool)
    ensures
        r == (if quotes { is_quote(c) } else { is_white_space(c) }),
{
    if quotes {
        c == '\'' || c == '"'
    } else {
        white_space(c)
    }
}

/// Index (into `v`) just past the last character of `v[lo..hi]` that does
/// not satisfy the predicate (white space or quote), or `lo`.
fn skip_back(v: &Vec<char>, lo: usize, hi: usize, quotes: bool) -> (r: usize)
    requires
        lo <= hi <= v.len(),
    ensures
        quotes ==> r == hi - count_trailing(v@.subrange(lo as int, hi as int), |c: char| is_quote(c)),
        !quotes ==> r == hi - count_trailing(v@.subrange(lo as int, hi as int), |c: char| is_white_space(c)),
{
    let ghost s = v@.subrange(lo as int, hi as int);
    let ghost p = if quotes { |c: char| is_quote(c) } else { |c: char| is_white_space(c) };
    let mut i = hi;
    while i > lo && in_class(v[i - 1], quotes)
        invariant
            lo <= i <= hi <= v.len(),
            forall|j: int| i <= j < hi ==> p(#[trigger] v@[j]),
            p == (if quotes { |c: char| is_quote(c) } else { |c: char| is_white_space(c) }),
        decreases i - lo,
    {
        i = i - 1;
    }
    proof {
        lemma_count_trailing(s, p);
        let n = count_trailing(s, p);
        if n < hi - i {
            assert(s[s.len() - n - 1] == v@[hi - n - 1]);
        } else if n > hi - i {
            assert(s[i - 1 - lo] == v@[i - 1]);
        }
    }
    i
}

/// Index (into `v`) of the first character of `v[lo..hi]` that is not a
/// quote, or `hi`.
fn skip_quotes_forward(v: &Vec<char>, lo: usize, hi: usize) -> (r: usize)
    requires
        lo <= hi <= v.len(),
    ensures
        r == lo + count_leading(v@.subrange(lo as int, hi as int), |c: char| is_quote(c)),
{
    let ghost s = v@.subrange(lo as int, hi as int);
    let ghost p = |c: char| is_quote(c);
    let mut i = lo;
    while i < hi && (v[i] == '\'' || v[i] == '"')
        invariant
            lo <= i <= hi <= v.len(),
            forall|j: int| lo <= j < i ==> is_quote(#[trigger] v@[j]),
        decreases hi - i,
    {
        i = i + 1;
    }
    proof {
        lemma_count_leading(s, p);
        let n = count_leading(s, p);
        if n < i - lo {
            assert(s[n as int] == v@[lo + n]);
        } else if n > i - lo {
            assert(s[i - lo] == v@[i as int]);
        }
    }
    i
}

/// Bounds (into `v`) of `trim(v[lo..hi])`.
pub fn trim_bounds(v: &Vec<char>, lo: usize, hi: usize) -> (r: (usize, usize))
    requires
        lo <= hi <= v.len(),
    ensures
        lo <= r.0 <= r.1 <= hi,
        v@.subrange(r.0 as int, r.1 as int) == trim(v@.subrange(lo as int, hi as int)),
{
    let a = skip_ws_forward(v, lo, hi);
    proof {
        let s = v@.subrange(lo as int, hi as int);
        let p = |c: char| is_white_space(c);
        lemma_count_leading(s, p);
        assert(trim_start_by(s, p) == v@.subrange(a as int, hi as int));
    }
    let b = skip_back(v, a, hi, false);
    proof {
        lemma_count_trailing(v@.subrange(a as int, hi as int), |c: char| is_white_space(c));
    }
    (a, b)
}

/// Bounds (into `v`) of `trim_quotes(v[lo..hi])`.
pub fn trim_quote_bounds(v: &Vec<char>, lo: usize, hi: usize) -> (r: (usize, usize))
    requires
        lo <= hi <= v.len(),
    ensures
        lo <= r.0 <= r.1 <= hi,
        v@.subrange(r.0 as int, r.1 as int) == trim_quotes(v@.subrange(lo as int, hi as int)),
{
    let a = skip_quotes_forward(v, lo, hi);
    proof {
        let s = v@.subrange(lo as int, hi as int);
        let p = |c: char| is_quote(c);
        lemma_count_leading(s, p);
        assert(trim_start_by(s, p) == v@.subrange(a as int, hi as int));
    }
    let b = skip_back(v, a, hi, true);
    proof {
        lemma_count_trailing(v@.subrange(a as int, hi as int), |c: char| is_quote(c));
    }
    (a, b)
}

/// Index of the first occurrence of `c` in `s`.
pub open spec fn find_char(s: Seq<char>, c: char) -> Option<int>
    decreases s.len(),
{
    if s.len() == 0 {
        None
    } else if s[0] == c {
        Some(0)
    } else {
        match find_char(s.drop_first(), c) {
            Some(i) => Some(i + 1),
            None => None,
        }
    }
}

pub proof fn lemma_find_char(s: Seq<char>, c: char)
    ensures
        match find_char(s, c) {
            Some(i) => 0 <= i < s.len() && s[i] == c && forall|j: int| 0 <= j < i ==> s[j] != c,
            None => forall|j: int| 0 <= j < s.len() ==> s[j] != c,
        },
    decreases s.len(),
{
    if s.len() > 0 && s[0] != c {
        lemma_find_char(s.drop_first(), c);
        assert forall|j: int| 1 <= j < s.len() implies s[j] == s.drop_first()[j - 1] by {}
    }
}

/// `find_char` is determined by the first-occurrence property.
pub proof fn lemma_find_char_is(s: Seq<char>, c: char, r: Option<int>)
    requires
        match r {
            Some(i) => 0 <= i < s.len() && s[i] == c && forall|j: int| 0 <= j < i ==> s[j] != c,
            None => forall|j: int| 0 <= j < s.len() ==> s[j] != c,
        },
    ensures
        find_char(s, c) == r,
{
    lemma_find_char(s, c);
    match find_char(s, c) {
        Some(i) => {
            match r {
                Some(k) => {
                    if k < i {
                        assert(s[k] != c);
                    } else if i < k {
                        assert(s[i] != c);
                    }
                },
                None => {
                    assert(s[i] != c);
                },
            }
        },
        None => {
            match r {
                Some(k) => {
                    assert(s[k] != c);
                },
                None => {},
            }
        },
    }
}

/// First occurrence of `c` in `v[lo..hi]`, as an index into `v`.
pub fn find_in(v: &Vec<char>, lo: usize, hi: usize, c: char) -> (r: Option<usize>)
    requires
        lo <= hi <= v.len(),
    ensures
        match r {
            Some(i) => find_char(v@.subrange(lo as int, hi as int), c) == Some(i - lo) && lo <= i
                < hi,
            None => find_char(v@.subrange(lo as int, hi as int), c) is None,
        },
{
    let ghost s = v@.subrange(lo as int, hi as int);
    let mut i = lo;
    while i < hi
        invariant
            lo <= i <= hi <= v.len(),
            s == v@.subrange(lo as int, hi as int),
            forall|j: int| 0 <= j < i - lo ==> s[j] != c,
        decreases hi - i,
    {
        if v[i] == c {
            proof {
                lemma_find_char_is(s, c, Some(i - lo));
            }
            return Some(i);
        }
        i = i + 1;
    }
    proof {
        lemma_find_char_is(s, c, None);
    }
    None
}

/// Index of the last occurrence of `c` in `s`.
pub open spec fn rfind_char(s: Seq<char>, c: char) -> Option<int>
    decreases s.len(),
{
    if s.len() == 0 {
        None
    } else if s.last() == c {
        Some(s.len() - 1)
    } else {
        rfind_char(s.drop_last(), c)
    }
}

pub proof fn lemma_rfind_char(s: Seq<char>, c: char)
    ensures
        match rfind_char(s, c) {
            Some(i) => 0 <= i < s.len() && s[i] == c && forall|j: int| i < j < s.len() ==> s[j] != c,
            None => forall|j: int| 0 <= j < s.len() ==> s[j] != c,
        },
    decreases s.len(),
{
    if s.len() > 0 && s.last() != c {
        lemma_rfind_char(s.drop_last(), c);
        assert forall|j: int| 0 <= j < s.len() - 1 implies s[j] == s.drop_last()[j] by {}
    }
}

/// Last occurrence of `c` in `v`.
pub fn rfind_in(v: &Vec<char>, c: char) -> (r: Option<usize>)
    ensures
        match r {
            Some(i) => rfind_char(v@, c) == Some(i as int),
            None => rfind_char(v@, c) is None,
        },
{
    let mut i = v.len();
    assert(v@.take(i as int) == v@);
    while i > 0
        invariant
            i <= v.len(),
            rfind_char(v@, c) == rfind_char(v@.take(i as int), c),
        decreases i,
    {
        if v[i - 1] == c {
            assert(v@.take(i as int).last() == c);
            return Some(i - 1);
        }
        assert(v@.take(i as int).drop_last() == v@.take(i - 1));
        i = i - 1;
    }
    None
}

/// `s` split at every `c` (`str::split` with a character pattern): always
/// at least one piece.
pub open spec fn split_char(s: Seq<char>, c: char) -> Seq<Seq<char>>
    decreases s.len(),
{
    if s.len() == 0 {
        seq![Seq::<char>::empty()]
    } else {
        let p = split_char(s.drop_last(), c);
        if s.last() == c {
            p.push(Seq::<char>::empty())
        } else {
            p.update(p.len() - 1, p.last().push(s.last()))
        }
    }
}

pub proof fn lemma_split_char_len(s: Seq<char>, c: char)
    ensures
        split_char(s, c).len() >= 1,
    decreases s.len(),
{
    if s.len() > 0 {
        lemma_split_char_len(s.drop_last(), c);
    }
}

/// Extending `s` by one character changes its split as expected.
pub proof fn lemma_split_char_step(s: Seq<char>, i: int, start: int, c: char)
    requires
        0 <= start <= i < s.len(),
        split_char(s.take(i), c).last() == s.subrange(start, i),
    ensures
        split_char(s.take(i + 1), c) == (if s[i] == c {
            split_char(s.take(i), c).push(Seq::<char>::empty())
        } else {
            split_char(s.take(i), c).update(
                split_char(s.take(i), c).len() - 1,
                s.subrange(start, i + 1),
            )
        }),
{
    lemma_split_char_len(s.take(i), c);
    assert(s.take(i + 1).drop_last() == s.take(i));
    assert(s.take(i + 1).last() == s[i]);
    assert(s.subrange(start, i).push(s[i]) == s.subrange(start, i + 1));
}

/// `str::split` with a character pattern: the pieces of `s` between the
/// occurrences of `c`, in order.
pub fn split_at_char(s: &str, c: char) -> (r: Vec<String>)
    ensures
        r@.len() == split_char(s@, c).len(),
        forall|j: int| 0 <= j < r@.len() ==> #[trigger] r@[j]@ == split_char(s@, c)[j],
{
    let v = chars_of(s);
    let mut out: Vec<String> = Vec::new();
    let mut start: usize = 0;
    let mut i: usize = 0;
    assert(v@.take(0) =~= Seq::<char>::empty());
    assert(v@.subrange(0, 0) =~= Seq::<char>::empty());
    while i < v.len()
        invariant
            v@ == s@,
            start <= i <= v.len(),
            split_char(v@.take(i as int), c).last() == v@.subrange(start as int, i as int),
            out@.len() + 1 == split_char(v@.take(i as int), c).len(),
            forall|j: int| 0 <= j < out@.len() ==> #[trigger] out@[j]@ == split_char(v@.take(i as int), c)[j],
        decreases v.len() - i,
    {
        proof {
            lemma_split_char_step(v@, i as int, start as int, c);
            lemma_split_char_len(v@.take(i as int), c);
        }
        if v[i] == c {
            let piece = s.substring_char(start, i).to_string();
            out.push(piece);
            start = i + 1;
            assert(v@.subrange(start as int, (i + 1) as int) =~= Seq::<char>::empty());
        }
        i = i + 1;
    }
    let last = s.substring_char(start, v.len()).to_string();
    out.push(last);
    proof {
        assert(v@.take(v.len() as int) =~= v@);
        lemma_split_char_len(v@, c);
    }
    out
}

/// The order of `String`s: lexicographic by code point (the order of
/// their UTF-8 bytes).
pub open spec fn str_lt(a: Seq<char>, b: Seq<char>) -> bool
    decreases a.len(),
{
    if a.len() == 0 {
        b.len() > 0
    } else if b.len() == 0 {
        false
    } else if a[0] != b[0] {
        (a[0] as int) < (b[0] as int)
    } else {
        str_lt(a.drop_first(), b.drop_first())
    }
}

pub proof fn lemma_str_lt_irreflexive(a: Seq<char>)
    ensures
        !str_lt(a, a),
    decreases a.len(),
{
    if a.len() > 0 {
        lemma_str_lt_irreflexive(a.drop_first());
    }
}

pub proof fn lemma_str_lt_transitive(a: Seq<char>, b: Seq<char>, c: Seq<char>)
    requires
        str_lt(a, b),
        str_lt(b, c),
    ensures
        str_lt(a, c),
    decreases a.len(),
{
    if a.len() > 0 && b.len() > 0 && c.len() > 0 && a[0] == b[0] && b[0] == c[0] {
        lemma_str_lt_transitive(a.drop_first(), b.drop_first(), c.drop_first());
    }
}

pub proof fn lemma_str_lt_total(a: Seq<char>, b: Seq<char>)
    requires
        a != b,
    ensures
        str_lt(a, b) || str_lt(b, a),
    decreases a.len(),
{
    if a.len() > 0 && b.len() > 0 && a[0] == b[0] {
        if a.drop_first() == b.drop_first() {
            assert(a =~= seq![a[0]] + a.drop_first());
            assert(b =~= seq![b[0]] + b.drop_first());
        }
        lemma_str_lt_total(a.drop_first(), b.drop_first());
    } else if a.len() == 0 && b.len() == 0 {
        assert(a =~= b);
    } else if a.len() > 0 && b.len() > 0 {
        assert(a[0] as int != b[0] as int);
    }
}

/// Does `a` come before `b` in the order of `String`s?
pub fn str_less(a: &str, b: &str) -> (r: bool)
    ensures
        r == str_lt(a@, b@),
{
    let va = chars_of(a);
    let vb = chars_of(b);
    let mut i: usize = 0;
    assert(a@.skip(0) =~= a@);
    assert(b@.skip(0) =~= b@);
    while i < va.len() && i < vb.len()
        invariant
            va@ == a@,
            vb@ == b@,
            i <= va.len(),
            i <= vb.len(),
            str_lt(a@, b@) == str_lt(a@.skip(i as int), b@.skip(i as int)),
        decreases va.len() - i,
    {
        assert(a@.skip(i as int)[0] == va@[i as int]);
        assert(b@.skip(i as int)[0] == vb@[i as int]);
        if va[i] != vb[i] {
            return va[i] < vb[i];
        }
        assert(a@.skip(i as int).drop_first() =~= a@.skip(i + 1));
        assert(b@.skip(i as int).drop_first() =~= b@.skip(i + 1));
        i = i + 1;
    }
    i == va.len() && i < vb.len()
}

/// Splitting two pieces joined by the separator splits each piece.
pub proof fn lemma_split_char_concat(a: Seq<char>, b: Seq<char>, c: char)
    ensures
        split_char(a + seq![c] + b, c) == split_char(a, c) + split_char(b, c),
    decreases b.len(),
{
    lemma_split_char_len(a, c);
    if b.len() == 0 {
        assert(a + seq![c] + b =~= a.push(c));
        assert((a + seq![c] + b).drop_last() =~= a);
        assert(split_char(b, c) =~= seq![Seq::<char>::empty()]);
        assert(split_char(a, c).push(Seq::<char>::empty()) =~= split_char(a, c) + split_char(b, c));
    } else {
        let b0 = b.drop_last();
        lemma_split_char_concat(a, b0, c);
        lemma_split_char_len(b0, c);
        let whole = a + seq![c] + b;
        assert(whole.drop_last() =~= a + seq![c] + b0);
        assert(whole.last() == b.last());
        let pa = split_char(a, c);
        let pb = split_char(b0, c);
        if b.last() == c {
            assert((pa + pb).push(Seq::<char>::empty()) =~= pa + pb.push(Seq::<char>::empty()));
        } else {
            let q = pa + pb;
            assert(q.last() == pb.last());
            assert(q.update(q.len() - 1, q.last().push(b.last())) =~= pa + pb.update(
                pb.len() - 1,
                pb.last().push(b.last()),
            ));
        }
    }
}

/// A piece without the separator splits into itself.
pub proof fn lemma_split_char_whole(s: Seq<char>, c: char)
    requires
        forall|j: int| 0 <= j < s.len() ==> s[j] != c,
    ensures
        split_char(s, c) == seq![s],
    decreases s.len(),
{
    if s.len() > 0 {
        lemma_split_char_whole(s.drop_last(), c);
        assert(s.drop_last().push(s.last()) =~= s);
        assert(seq![s.drop_last()].update(0, s.drop_last().push(s.last())) =~= seq![s]);
    } else {
        assert(s =~= Seq::<char>::empty());
    }
}

/// Trimming leaves a sequence whose ends need no trimming as it is.
pub proof fn lemma_trim_by_untouched(s: Seq<char>, p: spec_fn(char) -> bool)
    requires
        s.len() == 0 || (!p(s[0]) && !p(s.last())),
    ensures
        trim_by(s, p) == s,
{
    assert(count_leading(s, p) == 0);
    assert(s.skip(0) =~= s);
    assert(count_trailing(s, p) == 0);
    assert(s.take(s.len() as int) =~= s);
}

/// Every character of a trimmed sequence is a character of the sequence.
pub proof fn lemma_trim_by_within(s: Seq<char>, p: spec_fn(char) -> bool)
    ensures
        forall|j: int|
            0 <= j < trim_by(s, p).len() ==> exists|i: int| 0 <= i < s.len() && #[trigger] trim_by(s, p)[j] == s[i],
{
    lemma_count_leading(s, p);
    let a = count_leading(s, p) as int;
    let t = s.skip(a);
    lemma_count_trailing(t, p);
    assert forall|j: int| 0 <= j < trim_by(s, p).len() implies exists|i: int|
        0 <= i < s.len() && #[trigger] trim_by(s, p)[j] == s[i] by {
        assert(trim_by(s, p)[j] == s[a + j]);
    }
}

/// Equality of two character sequences.
pub fn chars_eq(a: &Vec<char>, alo: usize, ahi: usize, b: &Vec<char>) -> (r: bool)
    requires
        alo <= ahi <= a.len(),
    ensures
        r == (a@.subrange(alo as int, ahi as int) == b@),
{
    if ahi - alo != b.len() {
        assert(a@.subrange(alo as int, ahi as int).len() != b@.len());
        return false;
    }
    let mut i: usize = 0;
    while i < b.len()
        invariant
            alo <= ahi <= a.len(),
            ahi - alo == b.len(),
            i <= b.len(),
            forall|j: int| 0 <= j < i ==> a@[alo + j] == b@[j],
        decreases b.len() - i,
    {
        if a[alo + i] != b[i] {
            assert(a@.subrange(alo as int, ahi as int)[i as int] != b@[i as int]);
            return false;
        }
        i = i + 1;
    }
    assert(a@.subrange(alo as int, ahi as int) =~= b@);
    true
}

/// Does `v[lo..hi]` begin with `p`?
pub fn starts_with_at(v: &Vec<char>, lo: usize, hi: usize, p: &Vec<char>) -> (r: bool)
    requires
        lo <= hi <= v.len(),
    ensures
        r == (p.len() <= hi - lo && v@.subrange(lo as int, hi as int).take(p.len() as int) == p@),
{
    if p.len() > hi - lo {
        return false;
    }
    let r = chars_eq(v, lo, lo + p.len(), p);
    assert(v@.subrange(lo as int, hi as int).take(p.len() as int) == v@.subrange(
        lo as int,
        lo + p.len(),
    ));
    r
}

/// Do `a` and `b` hold the same characters?
pub fn str_eq(a: &str, b: &str) -> (r: bool)
    ensures
        r == (a@ == b@),
{
    let av = chars_of(a);
    let bv = chars_of(b);
    let r = chars_eq(&av, 0, av.len(), &bv);
    assert(av@.subrange(0, av.len() as int) == av@);
    r
}

/// What `format!("{:?}", s)` renders for a string slice: the string in
/// double quotes with `char::escape_debug` applied to its characters.
pub uninterp spec fn debug_repr(s: Seq<char>) -> Seq<char>;

/// `<str as Debug>::fmt`, through `format!("{:?}", s)`. Its result is named
/// `debug_repr(s@)`; the escaping rules are not restated here.
#[verifier::external_body]
pub(crate) fn debug_str(s: &str) -> (r: String)
    ensures
        r@ == debug_repr(s@),
{
    format!("{:?}", s)
}

/// `s` followed by `t`.
pub fn concat(s: &str, t: &str) -> (r: String)
    ensures
        r@ == s@ + t@,
{
    let mut out = s.to_string();
    out.append(t);
    out
}

/// `s` without leading and trailing white space.
pub fn trimmed(s: &str) -> (r: &str)
    ensures
        r@ == trim(s@),
{
    let v = chars_of(s);
    let (a, b) = trim_bounds(&v, 0, v.len());
    assert(v@.subrange(0, v.len() as int) == v@);
    s.substring_char(a, b)
}

/// A line without the `\r` that ends it, if any.
pub open spec fn strip_cr(l: Seq<char>) -> Seq<char> {
    if l.len() > 0 && l.last() == '\r' {
        l.drop_last()
    } else {
        l
    }
}

/// `str::lines`: the pieces between `\n`s, each without a `\r` before its
/// `\n`; a last piece that is empty is not a line.
pub open spec fn spec_lines(s: Seq<char>) -> Seq<Seq<char>> {
    let parts = split_char(s, '\n');
    let complete = parts.drop_last().map_values(|l: Seq<char>| strip_cr(l));
    if parts.last().len() == 0 {
        complete
    } else {
        complete.push(parts.last())
    }
}

/// Bounds, in `v`, of the lines of `v` (`str::lines`).
pub fn line_bounds(v: &Vec<char>) -> (r: Vec<(usize, usize)>)
    ensures
        r@.len() == spec_lines(v@).len(),
        forall|k: int| 0 <= k < r@.len() ==> (#[trigger] r@[k]).0 <= r@[k].1 <= v.len(),
        forall|k: int|
            0 <= k < r@.len() ==> v@.subrange(
                r@[k].0 as int,
                r@[k].1 as int,
            ) == #[trigger] spec_lines(v@)[k],
{
    let n = v.len();
    let mut out: Vec<(usize, usize)> = Vec::new();
    let mut start: usize = 0;
    let mut i: usize = 0;
    assert(v@.take(0) =~= Seq::<char>::empty());
    while i < n
        invariant
            start <= i <= n == v.len(),
            split_char(v@.take(i as int), '\n').last() == v@.subrange(start as int, i as int),
            out@.len() == split_char(v@.take(i as int), '\n').len() - 1,
            forall|k: int| 0 <= k < out@.len() ==> (#[trigger] out@[k]).0 <= out@[k].1 <= n,
            forall|k: int|
                0 <= k < out@.len() ==> v@.subrange(
                    out@[k].0 as int,
                    out@[k].1 as int,
                ) == strip_cr(#[trigger] split_char(v@.take(i as int), '\n')[k]),
        decreases n - i,
    {
        proof {
            lemma_split_char_step(v@, i as int, start as int, '\n');
            lemma_split_char_len(v@.take(i as int), '\n');
        }
        let ghost parts = split_char(v@.take(i as int), '\n');
        if v[i] == '\n' {
            let end = if i > start && v[i - 1] == '\r' {
                i - 1
            } else {
                i
            };
            proof {
                let l = v@.subrange(start as int, i as int);
                if i > start && v@[i - 1] == '\r' {
                    assert(l.last() == '\r');
                    assert(l.drop_last() =~= v@.subrange(start as int, end as int));
                } else if i > start {
                    assert(l.last() == v@[i - 1]);
                }
                assert(parts[parts.len() - 1] == l);
            }
            out.push((start, end));
            proof {
                let np = parts.push(Seq::<char>::empty());
                assert(split_char(v@.take(i + 1), '\n') == np);
                assert forall|k: int| 0 <= k < out@.len() implies v@.subrange(
                    out@[k].0 as int,
                    out@[k].1 as int,
                ) == strip_cr(#[trigger] np[k]) by {
                    assert(np[k] == parts[k]);
                }
            }
            start = i + 1;
            assert(v@.subrange(start as int, (i + 1) as int) =~= Seq::<char>::empty());
        } else {
            proof {
                let np = parts.update(parts.len() - 1, v@.subrange(start as int, i + 1));
                assert(split_char(v@.take(i + 1), '\n') == np);
                assert forall|k: int| 0 <= k < out@.len() implies v@.subrange(
                    out@[k].0 as int,
                    out@[k].1 as int,
                ) == strip_cr(#[trigger] np[k]) by {
                    assert(np[k] == parts[k]);
                }
            }
        }
        i = i + 1;
    }
    proof {
        assert(v@.take(n as int) =~= v@);
        lemma_split_char_len(v@, '\n');
    }
    let ghost parts = split_char(v@, '\n');
    let ghost complete = parts.drop_last().map_values(|l: Seq<char>| strip_cr(l));
    if start < n {
        out.push((start, n));
        proof {
            assert(parts.last().len() != 0);
            assert(spec_lines(v@) == complete.push(parts.last()));
            assert forall|k: int| 0 <= k < out@.len() implies v@.subrange(
                out@[k].0 as int,
                out@[k].1 as int,
            ) == #[trigger] spec_lines(v@)[k] by {
                if k < out@.len() - 1 {
                    assert(spec_lines(v@)[k] == complete[k]);
                    assert(parts[k] == parts.drop_last()[k]);
                }
            }
        }
    } else {
        proof {
            assert(parts.last().len() == 0);
            assert(spec_lines(v@) == complete);
            assert forall|k: int| 0 <= k < out@.len() implies v@.subrange(
                out@[k].0 as int,
                out@[k].1 as int,
            ) == #[trigger] spec_lines(v@)[k] by {
                assert(spec_lines(v@)[k] == complete[k]);
                assert(parts[k] == parts.drop_last()[k]);
            }
        }
    }
    out
}

} // verus!
