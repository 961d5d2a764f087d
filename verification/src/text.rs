use vstd::prelude::*;

verus! {

/// The Unicode `White_Space` property, as `char::is_whitespace` tests it.
pub open spec fn is_ws(c: char) -> bool {
    ||| ('\u{9}' <= c && c <= '\u{d}')
    ||| c == ' '
    ||| c == '\u{85}'
    ||| c == '\u{a0}'
    ||| c == '\u{1680}'
    ||| ('\u{2000}' <= c && c <= '\u{200a}')
    ||| c == '\u{2028}'
    ||| c == '\u{2029}'
    ||| c == '\u{202f}'
    ||| c == '\u{205f}'
    ||| c == '\u{3000}'
}

/// Whether `c` has the Unicode `White_Space` property.
pub fn is_whitespace(c: char) -> (r: bool)
    ensures
        r == is_ws(c),
{
    ('\u{9}' <= c && c <= '\u{d}') || c == ' ' || c == '\u{85}' || c == '\u{a0}' || c == '\u{1680}'
        || ('\u{2000}' <= c && c <= '\u{200a}') || c == '\u{2028}' || c == '\u{2029}' || c
        == '\u{202f}' || c == '\u{205f}' || c == '\u{3000}'
}

/// The characters of `s`, in order.
pub fn chars_of(s: &str) -> (r: Vec<char>)
    ensures
        r@ == s@,
{
    let mut r: Vec<char> = Vec::new();
    for c in it: s.chars()
        invariant
            r@ == it.seq().take(it.index() as int),
            it.seq() == s@,
    {
        r.push(c);
    }
    r
}


/// `String::push` of std: appends one character.
#[verifier::external_body]
fn push_char(s: &mut String, c: char)
    ensures
        final(s)@ == old(s)@.push(c),
{
    s.push(c);
}

/// A `String` holding the characters of `v`, in order.
pub fn string_of(v: &Vec<char>) -> (r: String)
    ensures
        r@ == v@,
{
    let mut r = String::new();
    let mut i: usize = 0;
    while i < v.len()
        invariant
            i <= v.len(),
            r@ == v@.take(i as int),
        decreases v.len() - i,
    {
        push_char(&mut r, v[i]);
        assert(v@.take(i + 1) =~= v@.take(i as int).push(v@[i as int]));
        i += 1;
    }
    assert(v@.take(v.len() as int) =~= v@);
    r
}

/// ASCII lower case of `c`; other characters are kept.
pub open spec fn ascii_lower(c: char) -> char {
    if 'A' <= c && c <= 'Z' {
        ((c as u32) + 32) as char
    } else {
        c
    }
}

/// ASCII upper case of `c`; other characters are kept.
pub open spec fn ascii_upper(c: char) -> char {
    if 'a' <= c && c <= 'z' {
        ((c as u32) - 32) as char
    } else {
        c
    }
}

/// `c` in ASCII lower case, as `char::to_ascii_lowercase` gives it.
pub fn to_ascii_lower(c: char) -> (r: char)
    ensures
        r == ascii_lower(c),
{
    if 'A' <= c && c <= 'Z' {
        ((c as u8) + 32) as char
    } else {
        c
    }
}


/// Every character of `s` is white space (so `s` trims to nothing).
pub open spec fn is_blank(s: Seq<char>) -> bool {
    forall|i: int| 0 <= i < s.len() ==> is_ws(#[trigger] s[i])
}

/// Whether every character of `s` is white space.
pub fn blank(s: &Vec<char>) -> (r: bool)
    ensures
        r == is_blank(s@),
{
    let mut i: usize = 0;
    while i < s.len()
        invariant
            i <= s.len(),
            forall|k: int| 0 <= k < i ==> is_ws(#[trigger] s@[k]),
        decreases s.len() - i,
    {
        if !is_whitespace(s[i]) {
            return false;
        }
        i += 1;
    }
    true
}

/// `s` without its leading white space.
pub open spec fn trim_start(s: Seq<char>) -> Seq<char>
    decreases s.len(),
{
    if s.len() > 0 && is_ws(s[0]) {
        trim_start(s.drop_first())
    } else {
        s
    }
}

/// `s` without its trailing white space.
pub open spec fn trim_end(s: Seq<char>) -> Seq<char>
    decreases s.len(),
{
    if s.len() > 0 && is_ws(s.last()) {
        trim_end(s.drop_last())
    } else {
        s
    }
}

/// `s` without leading and trailing white space, as `str::trim` gives it.
pub open spec fn trim(s: Seq<char>) -> Seq<char> {
    trim_end(trim_start(s))
}

/// `s` without its leading `'-'`.
pub open spec fn strip_dash_start(s: Seq<char>) -> Seq<char>
    decreases s.len(),
{
    if s.len() > 0 && s[0] == '-' {
        strip_dash_start(s.drop_first())
    } else {
        s
    }
}

/// `s` without its trailing `'-'`.
pub open spec fn strip_dash_end(s: Seq<char>) -> Seq<char>
    decreases s.len(),
{
    if s.len() > 0 && s.last() == '-' {
        strip_dash_end(s.drop_last())
    } else {
        s
    }
}

/// `s` without leading and trailing `'-'`, as `str::trim_matches('-')` gives it.
pub open spec fn strip_dashes(s: Seq<char>) -> Seq<char> {
    strip_dash_end(strip_dash_start(s))
}

proof fn lemma_trim_start_blank(s: Seq<char>)
    ensures
        is_blank(trim_start(s)) == is_blank(s),
    decreases s.len(),
{
    if s.len() > 0 && is_ws(s[0]) {
        lemma_trim_start_blank(s.drop_first());
        assert(is_blank(s) == is_blank(s.drop_first())) by {
            if is_blank(s.drop_first()) {
                assert forall|i: int| 0 <= i < s.len() implies is_ws(#[trigger] s[i]) by {
                    if i > 0 {
                        assert(s[i] == s.drop_first()[i - 1]);
                    }
                }
            }
        }
    }
}

proof fn lemma_trim_end_blank(s: Seq<char>)
    ensures
        trim_end(s).len() == 0 <==> is_blank(s),
    decreases s.len(),
{
    if s.len() > 0 && is_ws(s.last()) {
        lemma_trim_end_blank(s.drop_last());
        assert(is_blank(s) == is_blank(s.drop_last())) by {
            if is_blank(s.drop_last()) {
                assert forall|i: int| 0 <= i < s.len() implies is_ws(#[trigger] s[i]) by {
                    if i < s.len() - 1 {
                        assert(s[i] == s.drop_last()[i]);
                    }
                }
            }
        }
    } else if s.len() > 0 {
        assert(!is_ws(s[s.len() - 1]));
    }
}

/// A text trims to nothing exactly when all its characters are white space.
pub proof fn lemma_trims_to_nothing(s: Seq<char>)
    ensures
        trim(s).len() == 0 <==> is_blank(s),
{
    lemma_trim_start_blank(s);
    lemma_trim_end_blank(trim_start(s));
}

/// The characters of `s` without leading and trailing white space.
pub fn trimmed(s: &Vec<char>) -> (r: Vec<char>)
    ensures
        r@ == trim(s@),
{
    let n = s.len();
    let mut a: usize = 0;
    assert(s@.skip(0) =~= s@);
    while a < n && is_whitespace(s[a])
        invariant
            a <= n,
            n == s.len(),
            trim_start(s@) == trim_start(s@.skip(a as int)),
        decreases n - a,
    {
        assert(s@.skip(a as int).drop_first() =~= s@.skip(a + 1));
        a += 1;
    }
    let ghost t = s@.skip(a as int);
    assert(trim_start(t) == t);
    let mut b: usize = n;
    assert(t.take((b - a) as int) =~= t);
    while b > a && is_whitespace(s[b - 1])
        invariant
            a <= b <= n,
            n == s.len(),
            t == s@.skip(a as int),
            trim_end(t) == trim_end(t.take(b - a)),
        decreases b,
    {
        assert(t.take(b - a).drop_last() =~= t.take(b - 1 - a));
        b -= 1;
    }
    assert(trim_end(t.take(b - a)) == t.take(b - a));
    let mut r: Vec<char> = Vec::new();
    let mut i: usize = a;
    while i < b
        invariant
            a <= i <= b <= n,
            n == s.len(),
            r@ == s@.subrange(a as int, i as int),
        decreases b - i,
    {
        r.push(s[i]);
        assert(s@.subrange(a as int, i + 1) =~= s@.subrange(a as int, i as int).push(s@[i as int]));
        i += 1;
    }
    assert(r@ =~= t.take(b - a));
    r
}

/// The characters of `s` without leading and trailing `'-'`.
pub fn dashes_stripped(s: &Vec<char>) -> (r: Vec<char>)
    ensures
        r@ == strip_dashes(s@),
{
    let n = s.len();
    let mut a: usize = 0;
    assert(s@.skip(0) =~= s@);
    while a < n && s[a] == '-'
        invariant
            a <= n,
            n == s.len(),
            strip_dash_start(s@) == strip_dash_start(s@.skip(a as int)),
        decreases n - a,
    {
        assert(s@.skip(a as int).drop_first() =~= s@.skip(a + 1));
        a += 1;
    }
    let ghost t = s@.skip(a as int);
    assert(strip_dash_start(t) == t);
    let mut b: usize = n;
    assert(t.take((b - a) as int) =~= t);
    while b > a && s[b - 1] == '-'
        invariant
            a <= b <= n,
            n == s.len(),
            t == s@.skip(a as int),
            strip_dash_end(t) == strip_dash_end(t.take(b - a)),
        decreases b,
    {
        assert(t.take(b - a).drop_last() =~= t.take(b - 1 - a));
        b -= 1;
    }
    assert(strip_dash_end(t.take(b - a)) == t.take(b - a));
    let mut r: Vec<char> = Vec::new();
    let mut i: usize = a;
    while i < b
        invariant
            a <= i <= b <= n,
            n == s.len(),
            r@ == s@.subrange(a as int, i as int),
        decreases b - i,
    {
        r.push(s[i]);
        assert(s@.subrange(a as int, i + 1) =~= s@.subrange(a as int, i as int).push(s@[i as int]));
        i += 1;
    }
    assert(r@ =~= t.take(b - a));
    r
}


/// What separates the pieces of a string.
#[derive(Clone, Copy, Debug, PartialEq, Eq)]
pub enum Separator {
    /// One given character.
    Char(char),
    /// Any white-space character.
    Whitespace,
}

pub open spec fn separates(sep: Separator, c: char) -> bool {
    match sep {
        Separator::Char(d) => c == d,
        Separator::Whitespace => is_ws(c),
    }
}

fn is_separator(sep: Separator, c: char) -> (r: bool)
    ensures
        r == separates(sep, c),
{
    match sep {
        Separator::Char(d) => c == d,
        Separator::Whitespace => is_whitespace(c),
    }
}

/// The pieces of `s` between separators, as `str::split` gives them: one more
/// piece than there are separators, empty pieces included.
pub open spec fn split(s: Seq<char>, sep: Separator) -> Seq<Seq<char>>
    decreases s.len(),
{
    if s.len() == 0 {
        seq![Seq::<char>::empty()]
    } else {
        let r = split(s.drop_last(), sep);
        if separates(sep, s.last()) {
            r.push(Seq::<char>::empty())
        } else {
            r.update(r.len() - 1, r.last().push(s.last()))
        }
    }
}

/// The trimmed pieces that are not empty, in order.
pub open spec fn nonempty_trimmed(pieces: Seq<Seq<char>>) -> Seq<Seq<char>>
    decreases pieces.len(),
{
    if pieces.len() == 0 {
        Seq::<Seq<char>>::empty()
    } else {
        let r = nonempty_trimmed(pieces.drop_last());
        let t = trim(pieces.last());
        if t.len() > 0 {
            r.push(t)
        } else {
            r
        }
    }
}

pub open spec fn views(v: Seq<Vec<char>>) -> Seq<Seq<char>> {
    v.map_values(|x: Vec<char>| x@)
}

/// The pieces of `s` between separators, trimmed, empty ones left out.
pub fn trimmed_pieces(s: &Vec<char>, sep: Separator) -> (r: Vec<Vec<char>>)
    ensures
        views(r@) == nonempty_trimmed(split(s@, sep)),
{
    let mut out: Vec<Vec<char>> = Vec::new();
    let mut cur: Vec<char> = Vec::new();
    let mut i: usize = 0;
    assert(s@.take(0) =~= Seq::<char>::empty());
    while i < s.len()
        invariant
            i <= s.len(),
            split(s@.take(i as int), sep).len() >= 1,
            split(s@.take(i as int), sep).last() == cur@,
            views(out@) == nonempty_trimmed(split(s@.take(i as int), sep).drop_last()),
        decreases s.len() - i,
    {
        let c = s[i];
        let ghost prev = split(s@.take(i as int), sep);
        assert(s@.take(i + 1).drop_last() =~= s@.take(i as int));
        assert(s@.take(i + 1).last() == c);
        if is_separator(sep, c) {
            let t = trimmed(&cur);
            let ghost before = views(out@);
            assert(prev.drop_last().push(prev.last()) =~= prev);
            if t.len() > 0 {
                out.push(t);
                assert(views(out@) =~= before.push(t@));
            } else {
                assert(views(out@) =~= before);
            }
            cur = Vec::new();
            assert(split(s@.take(i + 1), sep) == prev.push(Seq::<char>::empty()));
            assert(split(s@.take(i + 1), sep).drop_last() =~= prev);
        } else {
            cur.push(c);
            let ghost next = split(s@.take(i + 1), sep);
            assert(next == prev.update(prev.len() - 1, prev.last().push(c)));
            assert(next.drop_last() =~= prev.drop_last());
        }
        i += 1;
    }
    assert(s@.take(s.len() as int) =~= s@);
    let ghost whole = split(s@, sep);
    assert(whole.drop_last().push(whole.last()) =~= whole);
    let t = trimmed(&cur);
    let ghost before = views(out@);
    if t.len() > 0 {
        out.push(t);
        assert(views(out@) =~= before.push(t@));
    } else {
        assert(views(out@) =~= before);
    }
    out
}


/// Whether `s` starts, at index `i`, with `pat`.
pub open spec fn occurs_at(s: Seq<char>, pat: Seq<char>, i: int) -> bool {
    0 <= i && i + pat.len() <= s.len() && s.subrange(i, i + pat.len()) == pat
}

/// Whether `pat` occurs in `s`.
pub open spec fn contains(s: Seq<char>, pat: Seq<char>) -> bool {
    exists|i: int| occurs_at(s, pat, i)
}

/// `s` with every occurrence of the non-empty `from` replaced by `to`, scanning
/// from the left and never inside a replacement, as `str::replace` does with a
/// non-empty pattern. (An empty `from` is not a pattern here: `s` is kept.)
pub open spec fn replace(s: Seq<char>, from: Seq<char>, to: Seq<char>) -> Seq<char>
    decreases s.len(),
{
    if from.len() == 0 || s.len() == 0 {
        s
    } else if occurs_at(s, from, 0) {
        to + replace(s.skip(from.len() as int), from, to)
    } else {
        seq![s[0]] + replace(s.drop_first(), from, to)
    }
}

fn matches_at(s: &Vec<char>, pat: &Vec<char>, i: usize) -> (r: bool)
    requires
        i <= s.len(),
    ensures
        r == occurs_at(s@, pat@, i as int),
{
    if pat.len() > s.len() - i {
        return false;
    }
    let mut k: usize = 0;
    while k < pat.len()
        invariant
            k <= pat.len(),
            i + pat.len() <= s.len(),
            forall|j: int| 0 <= j < k ==> s@[i + j] == pat@[j],
        decreases pat.len() - k,
    {
        if s[i + k] != pat[k] {
            assert(s@.subrange(i as int, i + pat.len())[k as int] != pat@[k as int]);
            return false;
        }
        k += 1;
    }
    assert(s@.subrange(i as int, i + pat.len()) =~= pat@);
    true
}

/// Whether `pat` occurs in `s`.
pub fn contains_seq(s: &Vec<char>, pat: &Vec<char>) -> (r: bool)
    ensures
        r == contains(s@, pat@),
{
    let mut i: usize = 0;
    while i < s.len()
        invariant
            i <= s.len(),
            forall|j: int| 0 <= j < i ==> !occurs_at(s@, pat@, j),
        decreases s.len() - i,
    {
        if matches_at(s, pat, i) {
            return true;
        }
        i += 1;
    }
    if matches_at(s, pat, s.len()) {
        return true;
    }
    assert forall|j: int| !occurs_at(s@, pat@, j) by {
        if j > s.len() {
            assert(!occurs_at(s@, pat@, j));
        }
    }
    false
}

/// `s` with every occurrence of the non-empty `from` replaced by `to`.
pub fn replace_all(s: &Vec<char>, from: &Vec<char>, to: &Vec<char>) -> (r: Vec<char>)
    requires
        from.len() > 0,
    ensures
        r@ == replace(s@, from@, to@),
{
    let mut out: Vec<char> = Vec::new();
    let mut i: usize = 0;
    assert(s@.skip(0) =~= s@);
    while i < s.len()
        invariant
            i <= s.len(),
            from.len() > 0,
            out@ + replace(s@.skip(i as int), from@, to@) == replace(s@, from@, to@),
        decreases s.len() - i,
    {
        let ghost rest = s@.skip(i as int);
        let ghost before = out@;
        if matches_at(s, from, i) {
            assert(rest.subrange(0, from.len() as int) =~= s@.subrange(i as int, i + from.len()));
            assert(occurs_at(rest, from@, 0));
            assert(rest.skip(from.len() as int) =~= s@.skip(i + from.len()));
            let mut k: usize = 0;
            while k < to.len()
                invariant
                    k <= to.len(),
                    out@ == before + to@.take(k as int),
                decreases to.len() - k,
            {
                out.push(to[k]);
                assert(to@.take(k + 1) =~= to@.take(k as int).push(to@[k as int]));
                k += 1;
            }
            assert(to@.take(to.len() as int) =~= to@);
            assert(before + (to@ + replace(s@.skip(i + from.len()), from@, to@)) =~= out@ + replace(
                s@.skip(i + from.len()),
                from@,
                to@,
            ));
            i += from.len();
        } else {
            proof {
                if rest.len() >= from.len() {
                    assert(rest.subrange(0, from.len() as int) =~= s@.subrange(
                        i as int,
                        i + from.len(),
                    ));
                }
            }
            assert(!occurs_at(rest, from@, 0));
            assert(rest.drop_first() =~= s@.skip(i + 1));
            out.push(s[i]);
            assert(before + (seq![s@[i as int]] + replace(s@.skip(i + 1), from@, to@)) =~= out@
                + replace(s@.skip(i + 1), from@, to@));
            i += 1;
        }
    }
    assert(s@.skip(i as int) =~= Seq::<char>::empty());
    assert(out@ + Seq::<char>::empty() =~= out@);
    out
}


/// Whether `a` and `b` hold the same characters.
pub fn same_chars(a: &Vec<char>, b: &Vec<char>) -> (r: bool)
    ensures
        r == (a@ == b@),
{
    if a.len() != b.len() {
        return false;
    }
    let mut i: usize = 0;
    while i < a.len()
        invariant
            i <= a.len(),
            a.len() == b.len(),
            forall|k: int| 0 <= k < i ==> a@[k] == b@[k],
        decreases a.len() - i,
    {
        if a[i] != b[i] {
            return false;
        }
        i += 1;
    }
    assert(a@ =~= b@);
    true
}

/// `s` with ASCII upper-case letters made lower case.
pub open spec fn ascii_lowered(s: Seq<char>) -> Seq<char> {
    s.map_values(|c: char| ascii_lower(c))
}

/// The characters of `s` with ASCII upper-case letters made lower case.
pub fn to_ascii_lowered(s: &Vec<char>) -> (r: Vec<char>)
    ensures
        r@ == ascii_lowered(s@),
{
    let mut r: Vec<char> = Vec::new();
    let mut i: usize = 0;
    while i < s.len()
        invariant
            i <= s.len(),
            r@ == ascii_lowered(s@.take(i as int)),
        decreases s.len() - i,
    {
        let c = to_ascii_lower(s[i]);
        r.push(c);
        assert(ascii_lowered(s@.take(i + 1)) =~= ascii_lowered(s@.take(i as int)).push(c));
        i += 1;
    }
    assert(s@.take(s.len() as int) =~= s@);
    r
}


/// `a` begins `b`.
pub open spec fn is_prefix(a: Seq<char>, b: Seq<char>) -> bool {
    a.len() <= b.len() && b.take(a.len() as int) == a
}

/// Text `t` cannot take part in an occurrence of `p`: `t` holds no `p`, no
/// end of `t` begins `p`, and no later part of `p` begins `t` or is begun by `t`.
pub open spec fn apart(p: Seq<char>, t: Seq<char>) -> bool {
    &&& !contains(t, p)
    &&& forall|k: int|
        1 <= k < p.len() && k <= t.len() ==> #[trigger] t.skip(t.len() - k) != p.take(k)
    &&& forall|m: int|
        1 <= m < p.len() ==> !is_prefix(#[trigger] p.skip(m), t) && !is_prefix(t, p.skip(m))
}

proof fn lemma_replaced_prefix(s: Seq<char>, from: Seq<char>, p: Seq<char>, to: Seq<char>, m: int)
    requires
        from.len() > 0,
        1 <= m < p.len(),
        apart(p, to),
        occurs_at(replace(s, from, to), p.skip(m), 0),
    ensures
        occurs_at(s, p.skip(m), 0),
    decreases s.len(),
{
    let q = p.skip(m);
    let r = replace(s, from, to);
    if s.len() == 0 {
    } else if occurs_at(s, from, 0) {
        let rest = replace(s.skip(from.len() as int), from, to);
        assert(r == to + rest);
        if q.len() <= to.len() {
            assert(to.take(q.len() as int) =~= r.subrange(0, q.len() as int));
            assert(is_prefix(q, to));
        } else {
            assert(q.take(to.len() as int) =~= r.subrange(0, to.len() as int));
            assert(r.subrange(0, to.len() as int) =~= to);
            assert(is_prefix(to, q));
        }
    } else {
        let rest = replace(s.drop_first(), from, to);
        assert(r == seq![s[0]] + rest);
        assert(r.subrange(0, q.len() as int)[0] == q[0]);
        assert(r[0] == s[0]);
        assert(s[0] == q[0]);
        if q.len() > 1 {
            assert(p.skip(m + 1) =~= q.drop_first());
            assert(rest.subrange(0, q.len() - 1) =~= r.subrange(0, q.len() as int).drop_first());
            lemma_replaced_prefix(s.drop_first(), from, p, to, m + 1);
            assert(s.drop_first().subrange(0, q.len() - 1) == q.drop_first());
            assert(s.subrange(0, q.len() as int) =~= seq![s[0]] + s.drop_first().subrange(
                0,
                q.len() - 1,
            ));
            assert(seq![q[0]] + q.drop_first() =~= q);
        } else {
            assert(s.subrange(0, 1) =~= q);
        }
    }
}

/// Replacing `from` by a text apart from `p` makes no new occurrence of `p`,
/// and leaves none of `from` itself when `p` is `from`.
pub proof fn lemma_replace_leaves_no(s: Seq<char>, from: Seq<char>, p: Seq<char>, to: Seq<char>)
    requires
        from.len() > 0,
        p.len() > 0,
        apart(p, to),
        p == from || !contains(s, p),
    ensures
        !contains(replace(s, from, to), p),
    decreases s.len(),
{
    let r = replace(s, from, to);
    if s.len() == 0 {
        assert forall|x: int| !occurs_at(r, p, x) by {}
    } else if occurs_at(s, from, 0) {
        let s2 = s.skip(from.len() as int);
        if p != from {
            assert forall|x: int| !occurs_at(s2, p, x) by {
                if occurs_at(s2, p, x) {
                    assert(s.subrange(x + from.len(), x + from.len() + p.len()) =~= s2.subrange(
                        x,
                        x + p.len(),
                    ));
                    assert(occurs_at(s, p, x + from.len()));
                }
            }
        }
        lemma_replace_leaves_no(s2, from, p, to);
        let rest = replace(s2, from, to);
        assert(r == to + rest);
        assert forall|x: int| !occurs_at(r, p, x) by {
            if occurs_at(r, p, x) {
                if x >= to.len() {
                    assert(rest.subrange(x - to.len(), x - to.len() + p.len()) =~= r.subrange(
                        x,
                        x + p.len(),
                    ));
                    assert(occurs_at(rest, p, x - to.len()));
                } else if x + p.len() <= to.len() {
                    assert(to.subrange(x, x + p.len()) =~= r.subrange(x, x + p.len()));
                    assert(occurs_at(to, p, x));
                } else {
                    let k = to.len() - x;
                    assert(to.skip(to.len() - k) =~= p.take(k)) by {
                        assert forall|j: int| 0 <= j < k implies to.skip(to.len() - k)[j] == p.take(
                            k,
                        )[j] by {
                            assert(r.subrange(x, x + p.len())[j] == r[x + j]);
                        }
                    }
                }
            }
        }
    } else {
        let s2 = s.drop_first();
        if p != from {
            assert forall|x: int| !occurs_at(s2, p, x) by {
                if occurs_at(s2, p, x) {
                    assert(s.subrange(x + 1, x + 1 + p.len()) =~= s2.subrange(x, x + p.len()));
                    assert(occurs_at(s, p, x + 1));
                }
            }
        }
        lemma_replace_leaves_no(s2, from, p, to);
        let rest = replace(s2, from, to);
        assert(r == seq![s[0]] + rest);
        assert forall|x: int| !occurs_at(r, p, x) by {
            if occurs_at(r, p, x) {
                if x >= 1 {
                    assert(rest.subrange(x - 1, x - 1 + p.len()) =~= r.subrange(x, x + p.len()));
                    assert(occurs_at(rest, p, x - 1));
                } else {
                    assert(r.subrange(0, p.len() as int)[0] == p[0]);
                    assert(r[0] == s[0]);
                    if p.len() > 1 {
                        assert(rest.subrange(0, p.len() - 1) =~= p.skip(1)) by {
                            assert forall|j: int| 0 <= j < p.len() - 1 implies rest.subrange(
                                0,
                                p.len() - 1,
                            )[j] == p.skip(1)[j] by {
                                assert(r.subrange(0, p.len() as int)[j + 1] == r[j + 1]);
                            }
                        }
                        lemma_replaced_prefix(s2, from, p, to, 1);
                        assert(s2.subrange(0, p.len() - 1) == p.skip(1));
                        assert(s.subrange(0, p.len() as int) =~= seq![s[0]] + s2.subrange(
                            0,
                            p.len() - 1,
                        ));
                        assert(seq![p[0]] + p.skip(1) =~= p);
                    } else {
                        assert(s.subrange(0, 1) =~= p);
                    }
                    assert(occurs_at(s, p, 0));
                }
            }
        }
    }
}

} // verus!

verus! {

/// `c` does not occur in `s`.
pub open spec fn lacks(s: Seq<char>, c: char) -> bool {
    forall|i: int| 0 <= i < s.len() ==> #[trigger] s[i] != c
}

/// `s` is not empty and neither starts nor ends with white space.
pub open spec fn solid_edges(s: Seq<char>) -> bool {
    s.len() > 0 && !is_ws(s[0]) && !is_ws(s.last())
}

/// Replacing what does not occur changes nothing.
pub proof fn lemma_replace_absent(s: Seq<char>, from: Seq<char>, to: Seq<char>)
    requires
        !contains(s, from),
    ensures
        replace(s, from, to) == s,
    decreases s.len(),
{
    if from.len() > 0 && s.len() > 0 {
        assert(!occurs_at(s, from, 0));
        let s2 = s.drop_first();
        assert forall|x: int| !occurs_at(s2, from, x) by {
            if occurs_at(s2, from, x) {
                assert(s.subrange(x + 1, x + 1 + from.len()) =~= s2.subrange(x, x + from.len()));
                assert(occurs_at(s, from, x + 1));
            }
        }
        lemma_replace_absent(s2, from, to);
        assert(seq![s[0]] + s2 =~= s);
    }
}

/// A character in neither the text nor the replacement is not in the result.
pub proof fn lemma_replace_lacks(s: Seq<char>, from: Seq<char>, to: Seq<char>, c: char)
    requires
        lacks(s, c),
        lacks(to, c),
    ensures
        lacks(replace(s, from, to), c),
    decreases s.len(),
{
    if from.len() > 0 && s.len() > 0 {
        if occurs_at(s, from, 0) {
            let s2 = s.skip(from.len() as int);
            assert(lacks(s2, c)) by {
                assert forall|i: int| 0 <= i < s2.len() implies #[trigger] s2[i] != c by {
                    assert(s2[i] == s[i + from.len()]);
                }
            }
            lemma_replace_lacks(s2, from, to, c);
            let r = replace(s, from, to);
            let rest = replace(s2, from, to);
            assert forall|i: int| 0 <= i < r.len() implies #[trigger] r[i] != c by {
                if i >= to.len() {
                    assert(r[i] == rest[i - to.len()]);
                }
            }
        } else {
            let s2 = s.drop_first();
            assert(lacks(s2, c)) by {
                assert forall|i: int| 0 <= i < s2.len() implies #[trigger] s2[i] != c by {
                    assert(s2[i] == s[i + 1]);
                }
            }
            lemma_replace_lacks(s2, from, to, c);
            let r = replace(s, from, to);
            let rest = replace(s2, from, to);
            assert forall|i: int| 0 <= i < r.len() implies #[trigger] r[i] != c by {
                if i >= 1 {
                    assert(r[i] == rest[i - 1]);
                }
            }
        }
    }
}

/// Replacing by a text with solid edges keeps the edges of a text solid.
pub proof fn lemma_replace_solid(s: Seq<char>, from: Seq<char>, to: Seq<char>)
    requires
        solid_edges(s),
        solid_edges(to),
    ensures
        solid_edges(replace(s, from, to)),
{
    lemma_replace_ends(s, from, to);
}

proof fn lemma_replace_ends(s: Seq<char>, from: Seq<char>, to: Seq<char>)
    requires
        s.len() > 0,
        to.len() > 0,
    ensures
        replace(s, from, to).len() > 0,
        replace(s, from, to)[0] == s[0] || replace(s, from, to)[0] == to[0],
        replace(s, from, to).last() == s.last() || replace(s, from, to).last() == to.last(),
    decreases s.len(),
{
    let r = replace(s, from, to);
    if from.len() > 0 {
        if occurs_at(s, from, 0) {
            let s2 = s.skip(from.len() as int);
            let rest = replace(s2, from, to);
            assert(r == to + rest);
            if s2.len() > 0 {
                lemma_replace_ends(s2, from, to);
                assert(s2.last() == s.last());
                assert(r.last() == rest.last());
            } else {
                assert(rest == s2);
                assert(r =~= to);
            }
        } else {
            let s2 = s.drop_first();
            let rest = replace(s2, from, to);
            assert(r == seq![s[0]] + rest);
            if s2.len() > 0 {
                lemma_replace_ends(s2, from, to);
                assert(s2.last() == s.last());
                assert(r.last() == rest.last());
            } else {
                assert(rest == s2);
                assert(r =~= seq![s[0]]);
            }
        }
    }
}

/// No piece of a split holds a separator.
pub proof fn lemma_split_pieces_lack(s: Seq<char>, d: char)
    ensures
        forall|k: int| 0 <= k < split(s, Separator::Char(d)).len() ==> lacks(
            #[trigger] split(s, Separator::Char(d))[k],
            d,
        ),
    decreases s.len(),
{
    if s.len() > 0 {
        lemma_split_pieces_lack(s.drop_last(), d);
        let r = split(s.drop_last(), Separator::Char(d));
        let t = split(s, Separator::Char(d));
        assert(r.len() >= 1) by {
            lemma_split_nonempty(s.drop_last(), Separator::Char(d));
        }
        if s.last() != d {
            assert forall|k: int| 0 <= k < t.len() implies lacks(#[trigger] t[k], d) by {
                if k == r.len() - 1 {
                    assert(t[k] == r.last().push(s.last()));
                    assert(lacks(r[k], d));
                    assert forall|i: int| 0 <= i < t[k].len() implies #[trigger] t[k][i] != d by {
                        if i < r[k].len() {
                            assert(t[k][i] == r[k][i]);
                        }
                    }
                } else {
                    assert(t[k] == r[k]);
                }
            }
        } else {
            assert forall|k: int| 0 <= k < t.len() implies lacks(#[trigger] t[k], d) by {
                if k < r.len() {
                    assert(t[k] == r[k]);
                }
            }
        }
    }
}

proof fn lemma_split_nonempty(s: Seq<char>, sep: Separator)
    ensures
        split(s, sep).len() >= 1,
    decreases s.len(),
{
    if s.len() > 0 {
        lemma_split_nonempty(s.drop_last(), sep);
    }
}

/// A text without separators splits into itself alone.
pub proof fn lemma_split_single(s: Seq<char>, d: char)
    requires
        lacks(s, d),
    ensures
        split(s, Separator::Char(d)) == seq![s],
    decreases s.len(),
{
    if s.len() > 0 {
        let s2 = s.drop_last();
        assert(lacks(s2, d)) by {
            assert forall|i: int| 0 <= i < s2.len() implies #[trigger] s2[i] != d by {
                assert(s2[i] == s[i]);
            }
        }
        lemma_split_single(s2, d);
        assert(s.last() != d);
        assert(s2.push(s.last()) =~= s);
        assert(seq![s2].update(0, s2.push(s.last())) =~= seq![s]);
    } else {
        assert(s =~= Seq::<char>::empty());
    }
}

proof fn lemma_trim_start_keeps(s: Seq<char>, d: char)
    requires
        lacks(s, d),
    ensures
        lacks(trim_start(s), d),
        trim_start(s).len() > 0 ==> !is_ws(trim_start(s)[0]),
        trim_start(s).len() > 0 ==> trim_start(s).last() == s.last(),
    decreases s.len(),
{
    if s.len() > 0 && is_ws(s[0]) {
        let s2 = s.drop_first();
        assert(lacks(s2, d)) by {
            assert forall|i: int| 0 <= i < s2.len() implies #[trigger] s2[i] != d by {
                assert(s2[i] == s[i + 1]);
            }
        }
        lemma_trim_start_keeps(s2, d);
    }
}

proof fn lemma_trim_end_keeps(s: Seq<char>, d: char)
    requires
        lacks(s, d),
    ensures
        lacks(trim_end(s), d),
        trim_end(s).len() > 0 ==> !is_ws(trim_end(s).last()),
        trim_end(s).len() > 0 ==> trim_end(s)[0] == s[0],
    decreases s.len(),
{
    if s.len() > 0 && is_ws(s.last()) {
        let s2 = s.drop_last();
        assert(lacks(s2, d)) by {
            assert forall|i: int| 0 <= i < s2.len() implies #[trigger] s2[i] != d by {
                assert(s2[i] == s[i]);
            }
        }
        lemma_trim_end_keeps(s2, d);
    }
}

/// Trimming keeps a missing character missing, and what it leaves, if
/// anything, has solid edges.
pub proof fn lemma_trim_keeps(s: Seq<char>, d: char)
    requires
        lacks(s, d),
    ensures
        lacks(trim(s), d),
        trim(s).len() > 0 ==> solid_edges(trim(s)),
{
    lemma_trim_start_keeps(s, d);
    lemma_trim_end_keeps(trim_start(s), d);
}

/// A text with solid edges is its own trim.
pub proof fn lemma_trim_solid(s: Seq<char>)
    requires
        solid_edges(s),
    ensures
        trim(s) == s,
{
    assert(trim_start(s) == s);
    assert(trim_end(s) == s);
}

/// Each kept piece is the non-empty trim of one of the pieces.
pub proof fn lemma_nonempty_trimmed_from(pieces: Seq<Seq<char>>)
    ensures
        forall|e: int| 0 <= e < nonempty_trimmed(pieces).len() ==> {
            &&& (#[trigger] nonempty_trimmed(pieces)[e]).len() > 0
            &&& exists|k: int| 0 <= k < pieces.len() && nonempty_trimmed(pieces)[e] == trim(pieces[k])
        },
    decreases pieces.len(),
{
    if pieces.len() > 0 {
        let p2 = pieces.drop_last();
        lemma_nonempty_trimmed_from(p2);
        let r = nonempty_trimmed(p2);
        let out = nonempty_trimmed(pieces);
        assert forall|e: int| 0 <= e < out.len() implies {
            &&& (#[trigger] out[e]).len() > 0
            &&& exists|k: int| 0 <= k < pieces.len() && out[e] == trim(pieces[k])
        } by {
            if e < r.len() {
                assert(out[e] == r[e]);
                let k = choose|k: int| 0 <= k < p2.len() && r[e] == trim(p2[k]);
                assert(pieces[k] == p2[k]);
            } else {
                assert(out[e] == trim(pieces.last()));
                assert(pieces[pieces.len() - 1] == pieces.last());
            }
        }
    }
}

/// When nothing but empty pieces is kept, the text is only separators and
/// white space.
pub proof fn lemma_no_pieces(s: Seq<char>, d: char)
    requires
        nonempty_trimmed(split(s, Separator::Char(d))).len() == 0,
    ensures
        forall|i: int| 0 <= i < s.len() ==> #[trigger] s[i] == d || is_ws(s[i]),
        is_blank(split(s, Separator::Char(d)).last()),
    decreases s.len(),
{
    let sep = Separator::Char(d);
    if s.len() == 0 {
        assert(split(s, sep).last() =~= Seq::<char>::empty());
    } else {
        let s2 = s.drop_last();
        let r = split(s2, sep);
        lemma_split_nonempty(s2, sep);
        let t = split(s, sep);
        if s.last() == d {
            assert(t == r.push(Seq::<char>::empty()));
            assert(t.drop_last() =~= r);
            assert(nonempty_trimmed(r).len() == 0);
            assert(r.drop_last().push(r.last()) =~= r);
            lemma_no_pieces(s2, d);
        } else {
            let last = r.last().push(s.last());
            assert(t == r.update(r.len() - 1, last));
            assert(t.drop_last() =~= r.drop_last());
            assert(t.last() == last);
            lemma_trims_to_nothing(last);
            assert(is_blank(r.last())) by {
                assert forall|i: int| 0 <= i < r.last().len() implies is_ws(#[trigger] r.last()[i]) by {
                    assert(last[i] == r.last()[i]);
                }
            }
            lemma_trims_to_nothing(r.last());
            assert(r.drop_last().push(r.last()) =~= r);
            lemma_no_pieces(s2, d);
            assert(is_ws(last[last.len() - 1]));
        }
        assert forall|i: int| 0 <= i < s.len() implies #[trigger] s[i] == d || is_ws(s[i]) by {
            if i < s.len() - 1 {
                assert(s[i] == s2[i]);
            }
        }
    }
}

} // verus!

verus! {

/// Taking out the space after each '+' leaves no '+' followed by a space, as
/// long as the text never has two spaces in a row.
pub proof fn lemma_plus_space_gone(s: Seq<char>)
    requires
        !contains(s, seq![' ', ' ']),
    ensures
        !contains(replace(s, seq!['+', ' '], seq!['+']), seq!['+', ' ']),
    decreases s.len(),
{
    let f = seq!['+', ' '];
    let t = seq!['+'];
    let p = seq!['+', ' '];
    let r = replace(s, f, t);
    if s.len() == 0 {
        assert forall|x: int| !occurs_at(r, p, x) by {}
    } else {
        let k: int = if occurs_at(s, f, 0) { 2 } else { 1 };
        let s2 = s.skip(k);
        assert(!contains(s2, seq![' ', ' '])) by {
            assert forall|x: int| !occurs_at(s2, seq![' ', ' '], x) by {
                if occurs_at(s2, seq![' ', ' '], x) {
                    assert(s.subrange(x + k, x + k + 2) =~= s2.subrange(x, x + 2));
                    assert(occurs_at(s, seq![' ', ' '], x + k));
                }
            }
        }
        lemma_plus_space_gone(s2);
        let rest = replace(s2, f, t);
        if occurs_at(s, f, 0) {
            assert(r == t + rest);
        } else {
            assert(s.drop_first() == s2);
            assert(r == seq![s[0]] + rest);
        }
        assert(r.len() == 1 + rest.len());
        assert forall|x: int| !occurs_at(r, p, x) by {
            if occurs_at(r, p, x) {
                if x >= 1 {
                    assert(rest.subrange(x - 1, x + 1) =~= r.subrange(x, x + 2));
                    assert(occurs_at(rest, p, x - 1));
                } else {
                    assert(r.subrange(0, 2)[1] == r[1]);
                    assert(r[1] == rest[0]);
                    assert(rest[0] == ' ');
                    assert(s2.len() > 0);
                    lemma_replace_ends(s2, f, t);
                    assert(s2[0] == ' ');
                    assert(s[k] == ' ');
                    if occurs_at(s, f, 0) {
                        assert(s.subrange(0, 2)[1] == s[1]);
                        assert(s.subrange(1, 3) =~= seq![' ', ' ']);
                        assert(occurs_at(s, seq![' ', ' '], 1));
                    } else {
                        assert(r[0] == s[0]);
                        assert(s.subrange(0, 2) =~= f);
                    }
                }
            }
        }
    }
}

} // verus!
