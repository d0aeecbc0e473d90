//! Character-level building blocks: whitespace, trimming, words, lines and
//! quoted text, each stated over `Seq<char>` and computed over `Vec<char>`.
use vstd::prelude::*;
use vstd::string::*;
use vstd::std_specs::iter::IteratorSpec;

verus! {

/// Whitespace as `char::is_whitespace` defines it: the Unicode White_Space set.
pub open spec fn is_ws(c: char) -> bool {
    let u = c as u32;
    (0x09 <= u && u <= 0x0D) || u == 0x20 || u == 0x85 || u == 0xA0 || u == 0x1680
        || (0x2000 <= u && u <= 0x200A) || u == 0x2028 || u == 0x2029 || u == 0x202F
        || u == 0x205F || u == 0x3000
}

pub fn is_whitespace(c: char) -> (r: bool)
    ensures
        r == is_ws(c),
{
    let u = c as u32;
    (0x09 <= u && u <= 0x0D) || u == 0x20 || u == 0x85 || u == 0xA0 || u == 0x1680
        || (0x2000 <= u && u <= 0x200A) || u == 0x2028 || u == 0x2029 || u == 0x202F
        || u == 0x205F || u == 0x3000
}

/// The characters of `s`, in order.
pub fn chars_of(s: &str) -> (r: Vec<char>)
    ensures
        r@ == s@,
{
    broadcast use vstd::string::axiom_spec_iter, vstd::string::next_postcondition;

    let mut r: Vec<char> = Vec::new();
    let mut it = s.chars();
    loop
        invariant
            it.obeys_prophetic_iter_laws(),
            it.decrease() is Some,
            r@ + it.remaining() == s@,
        decreases it.decrease()->0,
    {
        match it.next() {
            Some(c) => {
                r.push(c);
                assert(r@ + it.remaining() =~= s@);
            },
            None => {
                assert(r@ =~= s@);
                return r;
            },
        }
    }
}

/// Relies on `String::push`: it appends one character at the end.
#[verifier::external_body]
fn push_char(s: &mut String, c: char)
    ensures
        final(s)@ == old(s)@.push(c),
{
    s.push(c)
}

/// The string that holds exactly the given characters.
pub fn string_of(cs: &Vec<char>) -> (r: String)
    ensures
        r@ == cs@,
{
    let mut r = String::new();
    let mut i: usize = 0;
    while i < cs.len()
        invariant
            i <= cs.len(),
            r@ == cs@.subrange(0, i as int),
        decreases cs.len() - i,
    {
        push_char(&mut r, cs[i]);
        i = i + 1;
        assert(r@ =~= cs@.subrange(0, i as int));
    }
    assert(r@ =~= cs@);
    r
}

/// `s` without its leading whitespace.
pub open spec fn trim_start(s: Seq<char>) -> Seq<char>
    decreases s.len(),
{
    if s.len() > 0 && is_ws(s[0]) {
        trim_start(s.drop_first())
    } else {
        s
    }
}

/// `s` without its trailing whitespace.
pub open spec fn trim_end(s: Seq<char>) -> Seq<char>
    decreases s.len(),
{
    if s.len() > 0 && is_ws(s.last()) {
        trim_end(s.drop_last())
    } else {
        s
    }
}

/// `s` without leading and trailing whitespace, as `str::trim` gives it.
pub open spec fn trimmed(s: Seq<char>) -> Seq<char> {
    trim_end(trim_start(s))
}

/// The maximal runs of non-whitespace characters of `s`, in order, as
/// `str::split_whitespace` gives them.
pub open spec fn words(s: Seq<char>) -> Seq<Seq<char>>
    decreases s.len(),
{
    if s.len() == 0 {
        seq![]
    } else {
        let w = words(s.drop_last());
        let c = s.last();
        if is_ws(c) {
            w
        } else if s.len() >= 2 && !is_ws(s[s.len() - 2]) {
            w.update(w.len() - 1, w.last().push(c))
        } else {
            w.push(seq![c])
        }
    }
}

/// The pieces of `s` between line feeds: one more piece than `s` holds line feeds.
pub open spec fn split_lines(s: Seq<char>) -> Seq<Seq<char>>
    decreases s.len(),
{
    if s.len() == 0 {
        seq![seq![]]
    } else {
        let p = split_lines(s.drop_last());
        if s.last() == '\n' {
            p.push(seq![])
        } else {
            p.update(p.len() - 1, p.last().push(s.last()))
        }
    }
}

/// The first index at or after `i` where `s` holds `c`, or `s.len()` if none.
pub open spec fn index_from(s: Seq<char>, c: char, i: int) -> int
    decreases s.len() - i,
{
    if i >= s.len() {
        s.len() as int
    } else if s[i] == c {
        i
    } else {
        index_from(s, c, i + 1)
    }
}

/// The characters of `s` from `a` up to `b`, or nothing where the bounds do not fit.
pub open spec fn slice(s: Seq<char>, a: int, b: int) -> Seq<char> {
    if 0 <= a <= b <= s.len() {
        s.subrange(a, b)
    } else {
        seq![]
    }
}

/// The text between the first double quote of `s` and the next one; where `s`
/// holds no such pair, the whole of `s`, trimmed.
pub open spec fn quoted(s: Seq<char>) -> Seq<char> {
    let a = index_from(s, '"', 0);
    let b = index_from(s, '"', a + 1);
    if a < s.len() && b < s.len() {
        s.subrange(a + 1, b)
    } else {
        trimmed(s)
    }
}

/// `s` with one pair of surrounding double quotes removed, where it has one.
pub open spec fn unquote(s: Seq<char>) -> Seq<char> {
    if s.len() >= 2 && s[0] == '"' && s.last() == '"' {
        s.subrange(1, s.len() - 1)
    } else {
        s
    }
}

/// The words of `ws` joined by single spaces.
pub open spec fn join_spaced(ws: Seq<Seq<char>>) -> Seq<char>
    decreases ws.len(),
{
    if ws.len() == 0 {
        seq![]
    } else if ws.len() == 1 {
        ws[0]
    } else {
        join_spaced(ws.drop_last()) + seq![' '] + ws.last()
    }
}

/// The views of a sequence of character vectors.
pub open spec fn views(v: Seq<Vec<char>>) -> Seq<Seq<char>> {
    v.map_values(|x: Vec<char>| x@)
}

pub proof fn lemma_index_from_bounds(s: Seq<char>, c: char, i: int)
    requires
        0 <= i,
    ensures
        i <= index_from(s, c, i) <= s.len() || (i > s.len() && index_from(s, c, i) == s.len()),
        index_from(s, c, i) < s.len() ==> s[index_from(s, c, i)] == c,
    decreases s.len() - i,
{
    if i < s.len() && s[i] != c {
        lemma_index_from_bounds(s, c, i + 1);
    }
}


pub proof fn lemma_words_nonempty(s: Seq<char>)
    requires
        s.len() > 0,
        !is_ws(s.last()),
    ensures
        words(s).len() > 0,
    decreases s.len(),
{
    if s.len() >= 2 && !is_ws(s[s.len() - 2]) {
        lemma_words_nonempty(s.drop_last());
    }
}

/// The characters of `s` from `a` up to `b`.
pub fn slice_of(s: &Vec<char>, a: usize, b: usize) -> (r: Vec<char>)
    ensures
        r@ == slice(s@, a as int, b as int),
{
    let mut r: Vec<char> = Vec::new();
    if a <= b && b <= s.len() {
        let mut i: usize = a;
        while i < b
            invariant
                a <= i <= b <= s.len(),
                r@ == s@.subrange(a as int, i as int),
            decreases b - i,
        {
            r.push(s[i]);
            i = i + 1;
            assert(r@ =~= s@.subrange(a as int, i as int));
        }
    }
    r
}

/// `s` without leading and trailing whitespace.
pub fn trim(s: &Vec<char>) -> (r: Vec<char>)
    ensures
        r@ == trimmed(s@),
{
    let n = s.len();
    let mut a: usize = 0;
    assert(s@.subrange(0, n as int) =~= s@);
    while a < n && is_whitespace(s[a])
        invariant
            a <= n == s.len(),
            trim_start(s@) == trim_start(s@.subrange(a as int, n as int)),
        decreases n - a,
    {
        assert(s@.subrange(a as int, n as int).drop_first() =~= s@.subrange(a + 1, n as int));
        a = a + 1;
    }
    assert(trim_start(s@) == s@.subrange(a as int, n as int));
    let mut b: usize = n;
    while b > a && is_whitespace(s[b - 1])
        invariant
            a <= b <= n == s.len(),
            trimmed(s@) == trim_end(s@.subrange(a as int, b as int)),
        decreases b,
    {
        assert(s@.subrange(a as int, b as int).drop_last() =~= s@.subrange(a as int, b - 1));
        b = b - 1;
    }
    slice_of(s, a, b)
}

/// The words of `s`.
pub fn split_words(s: &Vec<char>) -> (r: Vec<Vec<char>>)
    ensures
        views(r@) == words(s@),
{
    let mut r: Vec<Vec<char>> = Vec::new();
    let mut cur: Vec<char> = Vec::new();
    let mut i: usize = 0;
    while i < s.len()
        invariant
            i <= s.len(),
            (i > 0 && !is_ws(s@[i - 1])) <==> cur@.len() > 0,
            cur@.len() == 0 ==> views(r@) == words(s@.subrange(0, i as int)),
            cur@.len() > 0 ==> views(r@).push(cur@) == words(s@.subrange(0, i as int)),
        decreases s.len() - i,
    {
        let c = s[i];
        let ghost pre = s@.subrange(0, i as int);
        let ghost next = s@.subrange(0, i + 1);
        let ghost rv = views(r@);
        let ghost cv = cur@;
        assert(next.drop_last() =~= pre);
        assert(next.last() == c);
        if is_whitespace(c) {
            if cur.len() > 0 {
                let w = cur;
                r.push(w);
                assert(views(r@) =~= rv.push(cv));
                cur = Vec::new();
            }
        } else {
            if cur.len() > 0 {
                assert(next[next.len() - 2] == s@[i - 1]);
                assert(rv.push(cv).update(rv.len() as int, cv.push(c)) =~= rv.push(cv.push(c)));
            }
            cur.push(c);
            assert(cv.len() == 0 ==> cur@ =~= seq![c]);
            assert(cv.len() > 0 ==> cur@ =~= cv.push(c));
            assert(words(next) == views(r@).push(cur@));
        }
        i = i + 1;
    }
    if cur.len() > 0 {
        r.push(cur);
    }
    assert(s@.subrange(0, s@.len() as int) =~= s@);
    r
}

/// The first index at or after `i` where `s` holds `c`, or `s.len()` if none.
pub fn find_from(s: &Vec<char>, c: char, i: usize) -> (r: usize)
    ensures
        r as int == index_from(s@, c, i as int),
{
    let mut j: usize = i;
    while j < s.len() && s[j] != c
        invariant
            i <= j,
            index_from(s@, c, i as int) == index_from(s@, c, j as int),
        decreases s.len() - j,
    {
        j = j + 1;
    }
    if j >= s.len() {
        s.len()
    } else {
        j
    }
}

/// The text between the first pair of double quotes of `s`, else `s` trimmed.
pub fn quoted_chars(s: &Vec<char>) -> (r: Vec<char>)
    ensures
        r@ == quoted(s@),
{
    let a = find_from(s, '"', 0);
    if a < s.len() {
        let b = find_from(s, '"', a + 1);
        if b < s.len() {
            proof {
                lemma_index_from_bounds(s@, '"', a + 1);
            }
            return slice_of(s, a + 1, b);
        }
    }
    trim(s)
}

/// `s` with one pair of surrounding double quotes removed, where it has one.
pub fn unquote_chars(s: Vec<char>) -> (r: Vec<char>)
    ensures
        r@ == unquote(s@),
{
    let n = s.len();
    if n >= 2 && s[0] == '"' && s[n - 1] == '"' {
        slice_of(&s, 1, n - 1)
    } else {
        s
    }
}

/// The words of `ws` from index `from` on, joined by single spaces.
pub fn join_words(ws: &Vec<Vec<char>>, from: usize) -> (r: Vec<char>)
    requires
        from <= ws.len(),
    ensures
        r@ == join_spaced(views(ws@).subrange(from as int, ws@.len() as int)),
{
    let mut r: Vec<char> = Vec::new();
    let mut k: usize = from;
    while k < ws.len()
        invariant
            from <= k <= ws.len(),
            r@ == join_spaced(views(ws@).subrange(from as int, k as int)),
        decreases ws.len() - k,
    {
        let ghost before = r@;
        let ghost part = views(ws@).subrange(from as int, k + 1);
        assert(part.drop_last() =~= views(ws@).subrange(from as int, k as int));
        assert(part.last() == ws@[k as int]@);
        if k > from {
            r.push(' ');
        }
        let w = &ws[k];
        let mut j: usize = 0;
        while j < w.len()
            invariant
                0 <= j <= w.len(),
                w == &ws@[k as int],
                r@ == (if k > from { before + seq![' '] } else { before }) + w@.subrange(0, j as int),
            decreases w.len() - j,
        {
            r.push(w[j]);
            j = j + 1;
            assert(r@ =~= (if k > from { before + seq![' '] } else { before }) + w@.subrange(0, j as int));
        }
        assert(w@.subrange(0, w@.len() as int) =~= w@);
        assert(k == from ==> r@ =~= part[0]);
        k = k + 1;
    }
    r
}

/// Whether the characters of `w` spell `kw`.
pub fn word_is(w: &Vec<char>, kw: &str) -> (r: bool)
    ensures
        r == (w@ == kw@),
{
    let n = kw.unicode_len();
    if w.len() != n {
        return false;
    }
    let mut i: usize = 0;
    while i < n
        invariant
            i <= n == w.len() == kw@.len(),
            w@.subrange(0, i as int) == kw@.subrange(0, i as int),
        decreases n - i,
    {
        if w[i] != kw.get_char(i) {
            return false;
        }
        i = i + 1;
        assert(w@.subrange(0, i as int) =~= kw@.subrange(0, i as int));
    }
    assert(w@ =~= w@.subrange(0, n as int));
    assert(kw@ =~= kw@.subrange(0, n as int));
    true
}

} // verus!
