//! Character-level text model: whitespace, trimming, words, lines and
//! joining, with executable versions proved against their specifications.
use vstd::prelude::*;

verus! {

broadcast use vstd::string::group_string_axioms;

/// `String::push` appends one character at the end.
pub assume_specification[ String::push ](s: &mut String, ch: char)
    ensures
        final(s)@ == old(s)@.push(ch),
;

/// The name of what `str::to_lowercase` returns for a string.
pub uninterp spec fn lowercase(s: Seq<char>) -> Seq<char>;

/// Calls `str::to_lowercase`, whose result (Unicode lowercase mapping) is a
/// function of the string alone; nothing more about it is stated here.
#[verifier::external_body]
pub(crate) fn to_lowercase(s: &str) -> (r: String)
    ensures
        r@ == lowercase(s@),
{
    s.to_lowercase()
}

// ---------------------------------------------------------------- characters

/// Unicode `White_Space`, the set that `char::is_whitespace` and the regex
/// class `\s` both use.
pub open spec fn is_ws(c: char) -> bool {
    ||| ('\u{9}' <= c && c <= '\u{d}')
    ||| c == ' '
    ||| c == '\u{85}'
    ||| c == '\u{a0}'
    ||| c == '\u{1680}'
    ||| ('\u{2000}' <= c && c <= '\u{200a}')
    ||| c == '\u{2028}'
    ||| c == '\u{2029}'
    ||| c == '\u{202f}'
    ||| c == '\u{205f}'
    ||| c == '\u{3000}'
}

pub fn is_whitespace(c: char) -> (b: bool)
    ensures
        b == is_ws(c),
{
    ('\u{9}' <= c && c <= '\u{d}') || c == ' ' || c == '\u{85}' || c == '\u{a0}' || c
        == '\u{1680}' || ('\u{2000}' <= c && c <= '\u{200a}') || c == '\u{2028}' || c
        == '\u{2029}' || c == '\u{202f}' || c == '\u{205f}' || c == '\u{3000}'
}

pub open spec fn is_ascii_digit(c: char) -> bool {
    '0' <= c && c <= '9'
}

pub open spec fn is_ascii_alpha(c: char) -> bool {
    ('a' <= c && c <= 'z') || ('A' <= c && c <= 'Z')
}

pub open spec fn ascii_lower_char(c: char) -> char {
    if 'A' <= c && c <= 'Z' {
        ((c as u32) + 32) as char
    } else {
        c
    }
}

pub fn to_ascii_lower_char(c: char) -> (r: char)
    ensures
        r == ascii_lower_char(c),
{
    if 'A' <= c && c <= 'Z' {
        let code: u32 = (c as u32) + 32;
        assert(code < 0xD800);
        code as u8 as char
    } else {
        c
    }
}

/// The ASCII-lowercased string (`str::to_ascii_lowercase`).
pub open spec fn ascii_lower(s: Seq<char>) -> Seq<char> {
    s.map_values(|c: char| ascii_lower_char(c))
}

pub fn ascii_lowercase(v: &Vec<char>) -> (r: Vec<char>)
    ensures
        r@ == ascii_lower(v@),
{
    let mut r: Vec<char> = Vec::new();
    let mut i: usize = 0;
    while i < v.len()
        invariant
            i <= v.len(),
            r@ == ascii_lower(v@.take(i as int)),
        decreases v.len() - i,
    {
        let c = to_ascii_lower_char(v[i]);
        r.push(c);
        i = i + 1;
        assert(ascii_lower(v@.take(i as int)) =~= ascii_lower(v@.take(i - 1)).push(c));
    }
    assert(v@.take(v.len() as int) =~= v@);
    r
}

// ------------------------------------------------------------ conversions

/// The characters of a string slice, in order.
pub fn chars_of(s: &str) -> (v: Vec<char>)
    ensures
        v@ == s@,
{
    let mut v: Vec<char> = Vec::new();
    for c in it: s.chars()
        invariant
            v@ == it.seq().take(it.index() as int),
    {
        v.push(c);
    }
    v
}

/// A string holding the given characters.
pub fn string_of(v: &[char]) -> (s: String)
    ensures
        s@ == v@,
{
    let mut s = String::new();
    let mut i: usize = 0;
    while i < v.len()
        invariant
            i <= v.len(),
            s@ == v@.take(i as int),
        decreases v.len() - i,
    {
        s.push(v[i]);
        i = i + 1;
        assert(v@.take(i as int) =~= v@.take((i - 1) as int).push(v@[i - 1]));
    }
    assert(v@.take(v.len() as int) =~= v@);
    s
}

/// Appends `src` at the end of `out`.
pub fn push_all(out: &mut Vec<char>, src: &[char])
    ensures
        final(out)@ == old(out)@ + src@,
{
    let mut i: usize = 0;
    while i < src.len()
        invariant
            i <= src.len(),
            out@ == old(out)@ + src@.take(i as int),
        decreases src.len() - i,
    {
        out.push(src[i]);
        i = i + 1;
        assert(old(out)@ + src@.take(i as int) =~= old(out)@ + src@.take(i - 1) + seq![
            src@[i - 1],
        ]);
    }
    assert(src@.take(src.len() as int) =~= src@);
}

/// Appends the characters of `src` at the end of `out`.
pub fn push_str_chars(out: &mut Vec<char>, src: &str)
    ensures
        final(out)@ == old(out)@ + src@,
{
    let v = chars_of(src);
    push_all(out, v.as_slice());
}

/// The characters from `a` up to `b`.
pub fn copy_range(v: &[char], a: usize, b: usize) -> (r: Vec<char>)
    requires
        a <= b <= v.len(),
    ensures
        r@ == v@.subrange(a as int, b as int),
{
    let mut r: Vec<char> = Vec::new();
    let mut i: usize = a;
    while i < b
        invariant
            a <= i <= b <= v.len(),
            r@ == v@.subrange(a as int, i as int),
        decreases b - i,
    {
        r.push(v[i]);
        i = i + 1;
        assert(v@.subrange(a as int, i as int) =~= v@.subrange(a as int, i - 1).push(
            v@[i - 1],
        ));
    }
    r
}

pub fn chars_eq(x: &[char], y: &[char]) -> (b: bool)
    ensures
        b == (x@ == y@),
{
    if x.len() != y.len() {
        return false;
    }
    let mut i: usize = 0;
    while i < x.len()
        invariant
            x.len() == y.len(),
            i <= x.len(),
            forall|j: int| 0 <= j < i ==> x@[j] == y@[j],
        decreases x.len() - i,
    {
        if x[i] != y[i] {
            return false;
        }
        i = i + 1;
    }
    assert(x@ =~= y@);
    true
}

/// Whether `s` begins with `p`.
/// Whether the characters `v` spell the literal `lit`.
pub fn eq_lit(v: &Vec<char>, lit: &str) -> (b: bool)
    ensures
        b == (v@ == lit@),
{
    let l = chars_of(lit);
    chars_eq(v.as_slice(), l.as_slice())
}

/// `a` followed by `b`.
pub fn concat(a: &str, b: &str) -> (r: String)
    ensures
        r@ == a@ + b@,
{
    let mut r = String::from_str(a);
    r.append(b);
    r
}

/// Appends a string to a list of strings.
pub fn push_string(v: &mut Vec<String>, s: String)
    ensures
        sviews(final(v)@) == sviews(old(v)@).push(s@),
{
    let ghost before = sviews(v@);
    v.push(s);
    assert(sviews(v@) =~= before.push(s@));
}

pub open spec fn starts_with(s: Seq<char>, p: Seq<char>) -> bool {
    p.len() <= s.len() && s.subrange(0, p.len() as int) == p
}

/// Whether `s` ends with `p`.
pub open spec fn ends_with(s: Seq<char>, p: Seq<char>) -> bool {
    p.len() <= s.len() && s.subrange(s.len() - p.len(), s.len() as int) == p
}

/// Whether `p` occurs in `s` at position `i`.
pub open spec fn occurs_at(s: Seq<char>, p: Seq<char>, i: int) -> bool {
    0 <= i && i + p.len() <= s.len() && s.subrange(i, i + p.len()) == p
}

/// Whether `p` occurs somewhere in `s`.
pub open spec fn contains(s: Seq<char>, p: Seq<char>) -> bool {
    exists|i: int| occurs_at(s, p, i)
}

pub fn occurs_at_exec(s: &[char], p: &[char], i: usize) -> (b: bool)
    ensures
        b == occurs_at(s@, p@, i as int),
{
    if i > s.len() || p.len() > s.len() - i {
        return false;
    }
    let mut k: usize = 0;
    while k < p.len()
        invariant
            i + p.len() <= s.len(),
            k <= p.len(),
            forall|j: int| 0 <= j < k ==> s@[i + j] == p@[j],
        decreases p.len() - k,
    {
        if s[i + k] != p[k] {
            assert(s@.subrange(i as int, i + p.len())[k as int] != p@[k as int]);
            return false;
        }
        k = k + 1;
    }
    assert(s@.subrange(i as int, i + p.len()) =~= p@);
    true
}

pub fn starts_with_exec(s: &[char], p: &[char]) -> (b: bool)
    ensures
        b == starts_with(s@, p@),
{
    occurs_at_exec(s, p, 0)
}

pub fn ends_with_exec(s: &[char], p: &[char]) -> (b: bool)
    ensures
        b == ends_with(s@, p@),
{
    if p.len() > s.len() {
        false
    } else {
        occurs_at_exec(s, p, s.len() - p.len())
    }
}

pub fn contains_exec(s: &[char], p: &[char]) -> (b: bool)
    ensures
        b == contains(s@, p@),
{
    if p.len() > s.len() {
        assert forall|i: int| !occurs_at(s@, p@, i) by {}
        return false;
    }
    let last = s.len() - p.len();
    let mut i: usize = 0;
    loop
        invariant
            p.len() <= s.len(),
            last == s.len() - p.len(),
            i <= last,
            forall|j: int| 0 <= j < i ==> !occurs_at(s@, p@, j),
        ensures
            forall|j: int| 0 <= j <= last ==> !occurs_at(s@, p@, j),
        decreases last - i,
    {
        if occurs_at_exec(s, p, i) {
            return true;
        }
        if i == last {
            break;
        }
        i = i + 1;
    }
    assert forall|j: int| !occurs_at(s@, p@, j) by {
        if 0 <= j && j + p.len() <= s.len() {
            assert(j <= last);
        }
    }
    false
}

// ------------------------------------------------------------------ trimming

/// The first position at or after `i` that does not hold whitespace.
pub open spec fn skip_ws(s: Seq<char>, i: int) -> int
    decreases s.len() - i,
{
    if 0 <= i < s.len() && is_ws(s[i]) {
        skip_ws(s, i + 1)
    } else {
        i
    }
}

/// The end of `s[..j]` with its trailing whitespace removed.
pub open spec fn back_ws(s: Seq<char>, j: int) -> int
    decreases j,
{
    if 0 < j <= s.len() && is_ws(s[j - 1]) {
        back_ws(s, j - 1)
    } else {
        j
    }
}

pub proof fn lemma_skip_ws(s: Seq<char>, i: int)
    requires
        0 <= i <= s.len(),
    ensures
        i <= skip_ws(s, i) <= s.len(),
        forall|k: int| i <= k < skip_ws(s, i) ==> is_ws(#[trigger] s[k]),
        skip_ws(s, i) < s.len() ==> !is_ws(s[skip_ws(s, i)]),
    decreases s.len() - i,
{
    if i < s.len() && is_ws(s[i]) {
        lemma_skip_ws(s, i + 1);
    }
}

pub proof fn lemma_back_ws(s: Seq<char>, j: int)
    requires
        0 <= j <= s.len(),
    ensures
        0 <= back_ws(s, j) <= j,
        forall|k: int| back_ws(s, j) <= k < j ==> is_ws(#[trigger] s[k]),
        back_ws(s, j) > 0 ==> !is_ws(s[back_ws(s, j) - 1]),
    decreases j,
{
    if j > 0 && is_ws(s[j - 1]) {
        lemma_back_ws(s, j - 1);
    }
}

/// `str::trim_start`.
pub open spec fn trim_start(s: Seq<char>) -> Seq<char> {
    s.subrange(skip_ws(s, 0), s.len() as int)
}

/// `str::trim_end`.
pub open spec fn trim_end(s: Seq<char>) -> Seq<char> {
    s.subrange(0, back_ws(s, s.len() as int))
}

/// `str::trim`: both ends without Unicode whitespace.
pub open spec fn trim(s: Seq<char>) -> Seq<char> {
    trim_end(trim_start(s))
}

/// Trimmed text is empty or starts and ends with a character that is not
/// whitespace.
pub proof fn lemma_trim_ends(s: Seq<char>)
    ensures
        trim(s).len() == 0 || (!is_ws(trim(s)[0]) && !is_ws(trim(s).last())),
{
    lemma_skip_ws(s, 0);
    let a = trim_start(s);
    lemma_back_ws(a, a.len() as int);
    let b = back_ws(a, a.len() as int);
    if b > 0 {
        assert(a[0] == s[skip_ws(s, 0)]);
        assert(trim(s)[0] == a[0]);
        assert(trim(s).last() == a[b - 1]);
    }
}

/// Text that neither starts nor ends with whitespace is its own trim.
pub proof fn lemma_trim_fixed(s: Seq<char>)
    requires
        s.len() == 0 || (!is_ws(s[0]) && !is_ws(s.last())),
    ensures
        trim(s) == s,
{
    assert(skip_ws(s, 0) == 0);
    assert(trim_start(s) =~= s);
    assert(back_ws(s, s.len() as int) == s.len());
    assert(trim_end(s) =~= s);
}

proof fn lemma_skip_to(x: Seq<char>, i: int, n: int)
    requires
        0 <= i <= n < x.len(),
        forall|k: int| i <= k < n ==> is_ws(#[trigger] x[k]),
        !is_ws(x[n]),
    ensures
        skip_ws(x, i) == n,
    decreases n - i,
{
    if i < n {
        lemma_skip_to(x, i + 1, n);
    }
}

proof fn lemma_back_to(x: Seq<char>, j: int, n: int)
    requires
        0 < n <= j <= x.len(),
        forall|k: int| n <= k < j ==> is_ws(#[trigger] x[k]),
        !is_ws(x[n - 1]),
    ensures
        back_ws(x, j) == n,
    decreases j - n,
{
    if n < j {
        lemma_back_to(x, j - 1, n);
    }
}

/// Whitespace around a text that neither starts nor ends with whitespace
/// is what trimming removes.
pub proof fn lemma_trim_padded(w1: Seq<char>, m: Seq<char>, w2: Seq<char>)
    requires
        m.len() > 0,
        !is_ws(m[0]),
        !is_ws(m.last()),
        forall|k: int| 0 <= k < w1.len() ==> is_ws(#[trigger] w1[k]),
        forall|k: int| 0 <= k < w2.len() ==> is_ws(#[trigger] w2[k]),
    ensures
        trim(w1 + m + w2) == m,
{
    let x = w1 + m + w2;
    assert forall|k: int| 0 <= k < w1.len() implies is_ws(#[trigger] x[k]) by {
        assert(x[k] == w1[k]);
    }
    assert(x[w1.len() as int] == m[0]);
    lemma_skip_to(x, 0, w1.len() as int);
    let y = trim_start(x);
    assert(y =~= m + w2);
    assert forall|k: int| m.len() <= k < y.len() implies is_ws(#[trigger] y[k]) by {
        assert(y[k] == w2[k - m.len()]);
    }
    assert(y[m.len() - 1] == m.last());
    lemma_back_to(y, y.len() as int, m.len() as int);
    assert(trim_end(y) =~= m);
}

pub fn skip_ws_exec(v: &[char], i: usize) -> (r: usize)
    requires
        i <= v.len(),
    ensures
        r == skip_ws(v@, i as int),
{
    let mut j = i;
    while j < v.len() && is_whitespace(v[j])
        invariant
            i <= j <= v.len(),
            skip_ws(v@, j as int) == skip_ws(v@, i as int),
        decreases v.len() - j,
    {
        j = j + 1;
    }
    j
}

pub fn back_ws_exec(v: &[char], j: usize) -> (r: usize)
    requires
        j <= v.len(),
    ensures
        r == back_ws(v@, j as int),
{
    let mut k = j;
    while k > 0 && is_whitespace(v[k - 1])
        invariant
            k <= j <= v.len(),
            back_ws(v@, k as int) == back_ws(v@, j as int),
        decreases k,
    {
        k = k - 1;
    }
    k
}

pub fn trim_end_chars(v: &[char]) -> (r: Vec<char>)
    ensures
        r@ == trim_end(v@),
{
    let e = back_ws_exec(v, v.len());
    proof {
        lemma_back_ws(v@, v@.len() as int);
    }
    copy_range(v, 0, e)
}

pub fn trim_chars(v: &[char]) -> (r: Vec<char>)
    ensures
        r@ == trim(v@),
{
    let a = skip_ws_exec(v, 0);
    proof {
        lemma_skip_ws(v@, 0);
    }
    let t = copy_range(v, a, v.len());
    trim_end_chars(t.as_slice())
}

pub fn trim_str(s: &str) -> (r: String)
    ensures
        r@ == trim(s@),
{
    let v = chars_of(s);
    let t = trim_chars(v.as_slice());
    string_of(t.as_slice())
}

// ------------------------------------------------------------ words, joins

/// The words (maximal runs without whitespace) of `s[i..]`, `cur` being the
/// part of a word already read: `str::split_whitespace`.
pub open spec fn words_from(s: Seq<char>, i: int, cur: Seq<char>) -> Seq<Seq<char>>
    decreases s.len() - i,
{
    if i < 0 || i >= s.len() {
        if cur.len() > 0 {
            seq![cur]
        } else {
            Seq::empty()
        }
    } else if is_ws(s[i]) {
        if cur.len() > 0 {
            seq![cur] + words_from(s, i + 1, Seq::empty())
        } else {
            words_from(s, i + 1, Seq::empty())
        }
    } else {
        words_from(s, i + 1, cur.push(s[i]))
    }
}

pub open spec fn words(s: Seq<char>) -> Seq<Seq<char>> {
    words_from(s, 0, Seq::empty())
}

/// The pieces of `list` with `sep` between neighbours (`join`).
pub open spec fn join(list: Seq<Seq<char>>, sep: Seq<char>) -> Seq<char>
    decreases list.len(),
{
    if list.len() == 0 {
        Seq::empty()
    } else if list.len() == 1 {
        list[0]
    } else {
        join(list.drop_last(), sep) + sep + list.last()
    }
}

/// The views of a sequence of character vectors.
pub open spec fn vviews(v: Seq<Vec<char>>) -> Seq<Seq<char>> {
    v.map_values(|x: Vec<char>| x@)
}

/// The views of a sequence of strings.
pub open spec fn sviews(v: Seq<String>) -> Seq<Seq<char>> {
    v.map_values(|x: String| x@)
}

/// `split_whitespace().collect::<Vec<_>>().join(" ")`.
pub open spec fn normalize_ws(s: Seq<char>) -> Seq<char> {
    join(words(s), seq![' '])
}

pub fn words_exec(v: &[char]) -> (r: Vec<Vec<char>>)
    ensures
        vviews(r@) == words(v@),
{
    let mut out: Vec<Vec<char>> = Vec::new();
    let mut cur: Vec<char> = Vec::new();
    let mut i: usize = 0;
    while i < v.len()
        invariant
            i <= v.len(),
            vviews(out@) + words_from(v@, i as int, cur@) == words(v@),
        decreases v.len() - i,
    {
        let ghost before = vviews(out@);
        let ghost cur0 = cur@;
        assert(words_from(v@, i as int, cur0) == if is_ws(v@[i as int]) {
            if cur0.len() > 0 {
                seq![cur0] + words_from(v@, i + 1, Seq::empty())
            } else {
                words_from(v@, i + 1, Seq::empty())
            }
        } else {
            words_from(v@, i + 1, cur0.push(v@[i as int]))
        });
        if is_whitespace(v[i]) {
            if cur.len() > 0 {
                let word = cur;
                out.push(word);
                cur = Vec::new();
                assert(vviews(out@) =~= before + seq![word@]);
                assert(vviews(out@) + words_from(v@, i + 1, cur@) =~= before + (seq![word@]
                    + words_from(v@, i + 1, Seq::empty())));
            } else {
                assert(cur@ =~= Seq::<char>::empty());
            }
        } else {
            cur.push(v[i]);
        }
        i = i + 1;
    }
    if cur.len() > 0 {
        let ghost before = vviews(out@);
        let word = cur;
        out.push(word);
        assert(vviews(out@) =~= before + seq![word@]);
    } else {
        assert(vviews(out@) + Seq::<Seq<char>>::empty() =~= vviews(out@));
    }
    out
}

pub proof fn lemma_join_push(list: Seq<Seq<char>>, sep: Seq<char>, x: Seq<char>)
    ensures
        join(list.push(x), sep) == if list.len() == 0 {
            x
        } else {
            join(list, sep) + sep + x
        },
{
    assert(list.push(x).drop_last() =~= list);
}

pub fn join_exec(list: &Vec<Vec<char>>, sep: &[char]) -> (r: Vec<char>)
    ensures
        r@ == join(vviews(list@), sep@),
{
    let mut r: Vec<char> = Vec::new();
    let mut i: usize = 0;
    while i < list.len()
        invariant
            i <= list.len(),
            r@ == join(vviews(list@).take(i as int), sep@),
        decreases list.len() - i,
    {
        proof {
            lemma_join_push(vviews(list@).take(i as int), sep@, list@[i as int]@);
            assert(vviews(list@).take(i as int).push(list@[i as int]@) =~= vviews(list@).take(
                i + 1,
            ));
        }
        if i > 0 {
            push_all(&mut r, sep);
        }
        push_all(&mut r, list[i].as_slice());
        i = i + 1;
    }
    assert(vviews(list@).take(list.len() as int) =~= vviews(list@));
    r
}

pub fn join_strings(list: &Vec<String>, sep: &str) -> (r: String)
    ensures
        r@ == join(sviews(list@), sep@),
{
    let sepv = chars_of(sep);
    let mut r: Vec<char> = Vec::new();
    let mut i: usize = 0;
    while i < list.len()
        invariant
            i <= list.len(),
            sepv@ == sep@,
            r@ == join(sviews(list@).take(i as int), sep@),
        decreases list.len() - i,
    {
        proof {
            lemma_join_push(sviews(list@).take(i as int), sep@, list@[i as int]@);
            assert(sviews(list@).take(i as int).push(list@[i as int]@) =~= sviews(list@).take(
                i + 1,
            ));
        }
        if i > 0 {
            push_all(&mut r, sepv.as_slice());
        }
        push_str_chars(&mut r, list[i].as_str());
        i = i + 1;
    }
    assert(sviews(list@).take(list.len() as int) =~= sviews(list@));
    string_of(r.as_slice())
}

pub fn normalize_ws_chars(v: &[char]) -> (r: Vec<char>)
    ensures
        r@ == normalize_ws(v@),
{
    let ws = words_exec(v);
    let sep = vec![' '];
    assert(sep@ =~= seq![' ']);
    join_exec(&ws, sep.as_slice())
}

pub fn normalize_ws_str(s: &str) -> (r: String)
    ensures
        r@ == normalize_ws(s@),
{
    let v = chars_of(s);
    let n = normalize_ws_chars(v.as_slice());
    string_of(n.as_slice())
}

// --------------------------------------------------------------------- lines

/// `str::lines` on `s[i..]`, `cur` being the line read so far: lines end at
/// `\n`, a `\r` just before that `\n` is dropped, and no empty line follows a
/// final `\n`.
pub open spec fn lines_from(s: Seq<char>, i: int, cur: Seq<char>) -> Seq<Seq<char>>
    decreases s.len() - i,
{
    if i < 0 || i >= s.len() {
        if cur.len() > 0 {
            seq![cur]
        } else {
            Seq::empty()
        }
    } else if s[i] == '\n' {
        seq![strip_cr(cur)] + lines_from(s, i + 1, Seq::empty())
    } else {
        lines_from(s, i + 1, cur.push(s[i]))
    }
}

pub open spec fn strip_cr(line: Seq<char>) -> Seq<char> {
    if line.len() > 0 && line.last() == '\r' {
        line.drop_last()
    } else {
        line
    }
}

pub open spec fn lines(s: Seq<char>) -> Seq<Seq<char>> {
    lines_from(s, 0, Seq::empty())
}

pub fn lines_exec(v: &[char]) -> (r: Vec<Vec<char>>)
    ensures
        vviews(r@) == lines(v@),
{
    let mut out: Vec<Vec<char>> = Vec::new();
    let mut cur: Vec<char> = Vec::new();
    let mut i: usize = 0;
    while i < v.len()
        invariant
            i <= v.len(),
            vviews(out@) + lines_from(v@, i as int, cur@) == lines(v@),
        decreases v.len() - i,
    {
        let ghost before = vviews(out@);
        if v[i] == '\n' {
            let mut line = cur;
            if line.len() > 0 && line[line.len() - 1] == '\r' {
                line.pop();
            }
            proof {
                assert(line@ =~= strip_cr(cur@));
            }
            out.push(line);
            cur = Vec::new();
            assert(vviews(out@) =~= before + seq![line@]);
        } else {
            cur.push(v[i]);
        }
        i = i + 1;
    }
    if cur.len() > 0 {
        let ghost before = vviews(out@);
        let line = cur;
        out.push(line);
        assert(vviews(out@) =~= before + seq![line@]);
    } else {
        assert(vviews(out@) + Seq::<Seq<char>>::empty() =~= vviews(out@));
    }
    out
}

// --------------------------------------------------------------- splitting

/// `str::split` by the character `sep` on `s[i..]`, `cur` being the piece
/// read so far: every separator ends a piece, and the last piece always
/// follows, empty or not.
pub open spec fn split_from(s: Seq<char>, sep: char, i: int, cur: Seq<char>) -> Seq<Seq<char>>
    decreases s.len() - i,
{
    if i < 0 || i >= s.len() {
        seq![cur]
    } else if s[i] == sep {
        seq![cur] + split_from(s, sep, i + 1, Seq::empty())
    } else {
        split_from(s, sep, i + 1, cur.push(s[i]))
    }
}

pub open spec fn split(s: Seq<char>, sep: char) -> Seq<Seq<char>> {
    split_from(s, sep, 0, Seq::empty())
}

pub fn split_exec(v: &[char], sep: char) -> (r: Vec<Vec<char>>)
    ensures
        vviews(r@) == split(v@, sep),
{
    let mut out: Vec<Vec<char>> = Vec::new();
    let mut cur: Vec<char> = Vec::new();
    let mut i: usize = 0;
    while i < v.len()
        invariant
            i <= v.len(),
            vviews(out@) + split_from(v@, sep, i as int, cur@) == split(v@, sep),
        decreases v.len() - i,
    {
        let ghost before = vviews(out@);
        if v[i] == sep {
            let piece = cur;
            out.push(piece);
            cur = Vec::new();
            assert(vviews(out@) =~= before + seq![piece@]);
            assert(vviews(out@) + split_from(v@, sep, i + 1, cur@) =~= before + (seq![piece@]
                + split_from(v@, sep, i + 1, Seq::empty())));
        } else {
            cur.push(v[i]);
        }
        i = i + 1;
    }
    let ghost before = vviews(out@);
    let piece = cur;
    out.push(piece);
    assert(vviews(out@) =~= before + seq![piece@]);
    out
}

// ------------------------------------------------------------------- misc

/// `s` repeated `n` times.
pub open spec fn repeat(s: Seq<char>, n: nat) -> Seq<char>
    decreases n,
{
    if n == 0 {
        Seq::empty()
    } else {
        repeat(s, (n - 1) as nat) + s
    }
}

pub fn push_repeat(out: &mut Vec<char>, s: &[char], n: usize)
    ensures
        final(out)@ == old(out)@ + repeat(s@, n as nat),
{
    let mut i: usize = 0;
    while i < n
        invariant
            i <= n,
            out@ == old(out)@ + repeat(s@, i as nat),
        decreases n - i,
    {
        push_all(out, s);
        i = i + 1;
        assert(old(out)@ + repeat(s@, i as nat) =~= old(out)@ + repeat(s@, (i - 1) as nat)
            + s@);
    }
}


// ------------------------------------------------------ decimal digits

/// Unicode `Decimal_Number` (general category Nd), the set that the regex
/// class `\d` denotes (Unicode 16.0).
pub open spec fn is_decimal(c: char) -> bool {
    ||| ('\u{30}' <= c && c <= '\u{39}')
    ||| ('\u{660}' <= c && c <= '\u{669}')
    ||| ('\u{6f0}' <= c && c <= '\u{6f9}')
    ||| ('\u{7c0}' <= c && c <= '\u{7c9}')
    ||| ('\u{966}' <= c && c <= '\u{96f}')
    ||| ('\u{9e6}' <= c && c <= '\u{9ef}')
    ||| ('\u{a66}' <= c && c <= '\u{a6f}')
    ||| ('\u{ae6}' <= c && c <= '\u{aef}')
    ||| ('\u{b66}' <= c && c <= '\u{b6f}')
    ||| ('\u{be6}' <= c && c <= '\u{bef}')
    ||| ('\u{c66}' <= c && c <= '\u{c6f}')
    ||| ('\u{ce6}' <= c && c <= '\u{cef}')
    ||| ('\u{d66}' <= c && c <= '\u{d6f}')
    ||| ('\u{de6}' <= c && c <= '\u{def}')
    ||| ('\u{e50}' <= c && c <= '\u{e59}')
    ||| ('\u{ed0}' <= c && c <= '\u{ed9}')
    ||| ('\u{f20}' <= c && c <= '\u{f29}')
    ||| ('\u{1040}' <= c && c <= '\u{1049}')
    ||| ('\u{1090}' <= c && c <= '\u{1099}')
    ||| ('\u{17e0}' <= c && c <= '\u{17e9}')
    ||| ('\u{1810}' <= c && c <= '\u{1819}')
    ||| ('\u{1946}' <= c && c <= '\u{194f}')
    ||| ('\u{19d0}' <= c && c <= '\u{19d9}')
    ||| ('\u{1a80}' <= c && c <= '\u{1a89}')
    ||| ('\u{1a90}' <= c && c <= '\u{1a99}')
    ||| ('\u{1b50}' <= c && c <= '\u{1b59}')
    ||| ('\u{1bb0}' <= c && c <= '\u{1bb9}')
    ||| ('\u{1c40}' <= c && c <= '\u{1c49}')
    ||| ('\u{1c50}' <= c && c <= '\u{1c59}')
    ||| ('\u{a620}' <= c && c <= '\u{a629}')
    ||| ('\u{a8d0}' <= c && c <= '\u{a8d9}')
    ||| ('\u{a900}' <= c && c <= '\u{a909}')
    ||| ('\u{a9d0}' <= c && c <= '\u{a9d9}')
    ||| ('\u{a9f0}' <= c && c <= '\u{a9f9}')
    ||| ('\u{aa50}' <= c && c <= '\u{aa59}')
    ||| ('\u{abf0}' <= c && c <= '\u{abf9}')
    ||| ('\u{ff10}' <= c && c <= '\u{ff19}')
    ||| ('\u{104a0}' <= c && c <= '\u{104a9}')
    ||| ('\u{10d30}' <= c && c <= '\u{10d39}')
    ||| ('\u{10d40}' <= c && c <= '\u{10d49}')
    ||| ('\u{11066}' <= c && c <= '\u{1106f}')
    ||| ('\u{110f0}' <= c && c <= '\u{110f9}')
    ||| ('\u{11136}' <= c && c <= '\u{1113f}')
    ||| ('\u{111d0}' <= c && c <= '\u{111d9}')
    ||| ('\u{112f0}' <= c && c <= '\u{112f9}')
    ||| ('\u{11450}' <= c && c <= '\u{11459}')
    ||| ('\u{114d0}' <= c && c <= '\u{114d9}')
    ||| ('\u{11650}' <= c && c <= '\u{11659}')
    ||| ('\u{116c0}' <= c && c <= '\u{116c9}')
    ||| ('\u{116d0}' <= c && c <= '\u{116e3}')
    ||| ('\u{11730}' <= c && c <= '\u{11739}')
    ||| ('\u{118e0}' <= c && c <= '\u{118e9}')
    ||| ('\u{11950}' <= c && c <= '\u{11959}')
    ||| ('\u{11bf0}' <= c && c <= '\u{11bf9}')
    ||| ('\u{11c50}' <= c && c <= '\u{11c59}')
    ||| ('\u{11d50}' <= c && c <= '\u{11d59}')
    ||| ('\u{11da0}' <= c && c <= '\u{11da9}')
    ||| ('\u{11f50}' <= c && c <= '\u{11f59}')
    ||| ('\u{16130}' <= c && c <= '\u{16139}')
    ||| ('\u{16a60}' <= c && c <= '\u{16a69}')
    ||| ('\u{16ac0}' <= c && c <= '\u{16ac9}')
    ||| ('\u{16b50}' <= c && c <= '\u{16b59}')
    ||| ('\u{16d70}' <= c && c <= '\u{16d79}')
    ||| ('\u{1ccf0}' <= c && c <= '\u{1ccf9}')
    ||| ('\u{1d7ce}' <= c && c <= '\u{1d7ff}')
    ||| ('\u{1e140}' <= c && c <= '\u{1e149}')
    ||| ('\u{1e2f0}' <= c && c <= '\u{1e2f9}')
    ||| ('\u{1e4f0}' <= c && c <= '\u{1e4f9}')
    ||| ('\u{1e5f1}' <= c && c <= '\u{1e5fa}')
    ||| ('\u{1e950}' <= c && c <= '\u{1e959}')
    ||| ('\u{1fbf0}' <= c && c <= '\u{1fbf9}')
}

pub fn is_decimal_digit(c: char) -> (b: bool)
    ensures
        b == is_decimal(c),
{
    ('\u{30}' <= c && c <= '\u{39}') ||
        ('\u{660}' <= c && c <= '\u{669}') ||
        ('\u{6f0}' <= c && c <= '\u{6f9}') ||
        ('\u{7c0}' <= c && c <= '\u{7c9}') ||
        ('\u{966}' <= c && c <= '\u{96f}') ||
        ('\u{9e6}' <= c && c <= '\u{9ef}') ||
        ('\u{a66}' <= c && c <= '\u{a6f}') ||
        ('\u{ae6}' <= c && c <= '\u{aef}') ||
        ('\u{b66}' <= c && c <= '\u{b6f}') ||
        ('\u{be6}' <= c && c <= '\u{bef}') ||
        ('\u{c66}' <= c && c <= '\u{c6f}') ||
        ('\u{ce6}' <= c && c <= '\u{cef}') ||
        ('\u{d66}' <= c && c <= '\u{d6f}') ||
        ('\u{de6}' <= c && c <= '\u{def}') ||
        ('\u{e50}' <= c && c <= '\u{e59}') ||
        ('\u{ed0}' <= c && c <= '\u{ed9}') ||
        ('\u{f20}' <= c && c <= '\u{f29}') ||
        ('\u{1040}' <= c && c <= '\u{1049}') ||
        ('\u{1090}' <= c && c <= '\u{1099}') ||
        ('\u{17e0}' <= c && c <= '\u{17e9}') ||
        ('\u{1810}' <= c && c <= '\u{1819}') ||
        ('\u{1946}' <= c && c <= '\u{194f}') ||
        ('\u{19d0}' <= c && c <= '\u{19d9}') ||
        ('\u{1a80}' <= c && c <= '\u{1a89}') ||
        ('\u{1a90}' <= c && c <= '\u{1a99}') ||
        ('\u{1b50}' <= c && c <= '\u{1b59}') ||
        ('\u{1bb0}' <= c && c <= '\u{1bb9}') ||
        ('\u{1c40}' <= c && c <= '\u{1c49}') ||
        ('\u{1c50}' <= c && c <= '\u{1c59}') ||
        ('\u{a620}' <= c && c <= '\u{a629}') ||
        ('\u{a8d0}' <= c && c <= '\u{a8d9}') ||
        ('\u{a900}' <= c && c <= '\u{a909}') ||
        ('\u{a9d0}' <= c && c <= '\u{a9d9}') ||
        ('\u{a9f0}' <= c && c <= '\u{a9f9}') ||
        ('\u{aa50}' <= c && c <= '\u{aa59}') ||
        ('\u{abf0}' <= c && c <= '\u{abf9}') ||
        ('\u{ff10}' <= c && c <= '\u{ff19}') ||
        ('\u{104a0}' <= c && c <= '\u{104a9}') ||
        ('\u{10d30}' <= c && c <= '\u{10d39}') ||
        ('\u{10d40}' <= c && c <= '\u{10d49}') ||
        ('\u{11066}' <= c && c <= '\u{1106f}') ||
        ('\u{110f0}' <= c && c <= '\u{110f9}') ||
        ('\u{11136}' <= c && c <= '\u{1113f}') ||
        ('\u{111d0}' <= c && c <= '\u{111d9}') ||
        ('\u{112f0}' <= c && c <= '\u{112f9}') ||
        ('\u{11450}' <= c && c <= '\u{11459}') ||
        ('\u{114d0}' <= c && c <= '\u{114d9}') ||
        ('\u{11650}' <= c && c <= '\u{11659}') ||
        ('\u{116c0}' <= c && c <= '\u{116c9}') ||
        ('\u{116d0}' <= c && c <= '\u{116e3}') ||
        ('\u{11730}' <= c && c <= '\u{11739}') ||
        ('\u{118e0}' <= c && c <= '\u{118e9}') ||
        ('\u{11950}' <= c && c <= '\u{11959}') ||
        ('\u{11bf0}' <= c && c <= '\u{11bf9}') ||
        ('\u{11c50}' <= c && c <= '\u{11c59}') ||
        ('\u{11d50}' <= c && c <= '\u{11d59}') ||
        ('\u{11da0}' <= c && c <= '\u{11da9}') ||
        ('\u{11f50}' <= c && c <= '\u{11f59}') ||
        ('\u{16130}' <= c && c <= '\u{16139}') ||
        ('\u{16a60}' <= c && c <= '\u{16a69}') ||
        ('\u{16ac0}' <= c && c <= '\u{16ac9}') ||
        ('\u{16b50}' <= c && c <= '\u{16b59}') ||
        ('\u{16d70}' <= c && c <= '\u{16d79}') ||
        ('\u{1ccf0}' <= c && c <= '\u{1ccf9}') ||
        ('\u{1d7ce}' <= c && c <= '\u{1d7ff}') ||
        ('\u{1e140}' <= c && c <= '\u{1e149}') ||
        ('\u{1e2f0}' <= c && c <= '\u{1e2f9}') ||
        ('\u{1e4f0}' <= c && c <= '\u{1e4f9}') ||
        ('\u{1e5f1}' <= c && c <= '\u{1e5fa}') ||
        ('\u{1e950}' <= c && c <= '\u{1e959}') ||
        ('\u{1fbf0}' <= c && c <= '\u{1fbf9}')
}

} // verus!
