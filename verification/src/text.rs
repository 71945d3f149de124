//! Character-level text handling: the parts of `str` that the G-code reader relies on
//! (`lines`, `trim`, `split_whitespace`, `split_once`, number literals), stated over
//! `Seq<char>` and implemented on `Vec<char>`.
use vstd::prelude::*;

verus! {

/// `char::is_whitespace`: the characters with the Unicode `White_Space` property.
pub open spec fn is_ws(c: char) -> bool {
    ||| c == '\t'
    ||| c == '\n'
    ||| c == '\u{0B}'
    ||| c == '\u{0C}'
    ||| c == '\r'
    ||| c == ' '
    ||| c == '\u{85}'
    ||| c == '\u{A0}'
    ||| c == '\u{1680}'
    ||| ('\u{2000}' <= c && c <= '\u{200A}')
    ||| c == '\u{2028}'
    ||| c == '\u{2029}'
    ||| c == '\u{202F}'
    ||| c == '\u{205F}'
    ||| c == '\u{3000}'
}

pub fn is_whitespace(c: char) -> (r: bool)
    ensures
        r == is_ws(c),
{
    c == '\t' || c == '\n' || c == '\u{0B}' || c == '\u{0C}' || c == '\r' || c == ' ' || c
        == '\u{85}' || c == '\u{A0}' || c == '\u{1680}' || ('\u{2000}' <= c && c <= '\u{200A}')
        || c == '\u{2028}' || c == '\u{2029}' || c == '\u{202F}' || c == '\u{205F}' || c
        == '\u{3000}'
}

/// A character that UTF-8 encodes in a single byte.
pub open spec fn is_ascii_char(c: char) -> bool {
    (c as u32) < 0x80
}

pub open spec fn ascii_lower(c: char) -> char {
    if 'A' <= c && c <= 'Z' {
        (((c as u8) + 32) as u8) as char
    } else {
        c
    }
}

pub open spec fn ascii_upper(c: char) -> char {
    if 'a' <= c && c <= 'z' {
        (((c as u8) - 32) as u8) as char
    } else {
        c
    }
}

pub fn to_ascii_lower(c: char) -> (r: char)
    ensures
        r == ascii_lower(c),
{
    if 'A' <= c && c <= 'Z' {
        let u: u8 = c as u8 + 32;
        u as char
    } else {
        c
    }
}

pub fn to_ascii_upper(c: char) -> (r: char)
    ensures
        r == ascii_upper(c),
{
    if 'a' <= c && c <= 'z' {
        let u: u8 = c as u8 - 32;
        u as char
    } else {
        c
    }
}

/// `str::trim_start`.
pub open spec fn trim_start(s: Seq<char>) -> Seq<char>
    decreases s.len(),
{
    if s.len() > 0 && is_ws(s[0]) {
        trim_start(s.drop_first())
    } else {
        s
    }
}

/// `str::trim_end`.
pub open spec fn trim_end(s: Seq<char>) -> Seq<char>
    decreases s.len(),
{
    if s.len() > 0 && is_ws(s.last()) {
        trim_end(s.drop_last())
    } else {
        s
    }
}

/// `str::trim`.
pub open spec fn trim(s: Seq<char>) -> Seq<char> {
    trim_end(trim_start(s))
}

/// The index of the first occurrence of `c` in `s`.
pub open spec fn find_char(s: Seq<char>, c: char) -> Option<int>
    decreases s.len(),
{
    if s.len() == 0 {
        None
    } else if s[0] == c {
        Some(0)
    } else {
        match find_char(s.drop_first(), c) {
            Some(i) => Some(i + 1),
            None => None,
        }
    }
}

/// Length of the run of characters before the first line feed.
pub open spec fn line_len(s: Seq<char>) -> nat
    decreases s.len(),
{
    if s.len() == 0 || s[0] == '\n' {
        0
    } else {
        1 + line_len(s.drop_first())
    }
}

pub open spec fn strip_cr(s: Seq<char>) -> Seq<char> {
    if s.len() > 0 && s.last() == '\r' {
        s.drop_last()
    } else {
        s
    }
}

/// `str::lines`: split at `\n`, dropping a `\r` right before it; a final line ending
/// adds no empty line.
pub open spec fn lines(s: Seq<char>) -> Seq<Seq<char>>
    decreases s.len(),
{
    if s.len() == 0 {
        seq![]
    } else {
        let n = line_len(s);
        if n >= s.len() {
            seq![s]
        } else {
            seq![strip_cr(s.take(n as int))] + lines(s.skip(n + 1 as int))
        }
    }
}

/// A text has no more lines than characters.
pub proof fn lemma_lines_len(s: Seq<char>)
    ensures
        lines(s).len() <= s.len(),
    decreases s.len(),
{
    if s.len() > 0 {
        let n = line_len(s);
        if n < s.len() {
            lemma_lines_len(s.skip(n + 1 as int));
        }
    }
}

/// Length of the run of non-whitespace characters at the start of `s`.
pub open spec fn word_len(s: Seq<char>) -> nat
    decreases s.len(),
{
    if s.len() == 0 || is_ws(s[0]) {
        0
    } else {
        1 + word_len(s.drop_first())
    }
}

pub proof fn lemma_line_len_bound(s: Seq<char>)
    ensures
        line_len(s) <= s.len(),
        line_len(s) < s.len() ==> s[line_len(s) as int] == '\n',
        forall|i: int| 0 <= i < line_len(s) ==> s[i] != '\n',
    decreases s.len(),
{
    if s.len() > 0 && s[0] != '\n' {
        lemma_line_len_bound(s.drop_first());
        assert forall|i: int| 0 <= i < line_len(s) implies s[i] != '\n' by {
            if i > 0 {
                assert(s[i] == s.drop_first()[i - 1]);
            }
        }
    }
}

pub proof fn lemma_word_len_bound(s: Seq<char>)
    ensures
        word_len(s) <= s.len(),
        word_len(s) < s.len() ==> is_ws(s[word_len(s) as int]),
        forall|i: int| 0 <= i < word_len(s) ==> !is_ws(s[i]),
    decreases s.len(),
{
    if s.len() > 0 && !is_ws(s[0]) {
        lemma_word_len_bound(s.drop_first());
        assert forall|i: int| 0 <= i < word_len(s) implies !is_ws(s[i]) by {
            if i > 0 {
                assert(s[i] == s.drop_first()[i - 1]);
            }
        }
    }
}

/// `str::split_whitespace`: the maximal runs of non-whitespace characters.
pub open spec fn words(s: Seq<char>) -> Seq<Seq<char>>
    decreases s.len(),
{
    if s.len() == 0 {
        seq![]
    } else if is_ws(s[0]) {
        words(s.drop_first())
    } else {
        let n = word_len(s);
        if n == 0 || n > s.len() {
            seq![]
        } else {
            seq![s.take(n as int)] + words(s.skip(n as int))
        }
    }
}

/// Whether no character of `t` is whitespace.
pub open spec fn no_ws(t: Seq<char>) -> bool {
    forall|i: int| 0 <= i < t.len() ==> !is_ws(#[trigger] t[i])
}

proof fn lemma_word_len_prefix(a: Seq<char>, b: Seq<char>, j: int)
    requires
        0 <= j < a.len(),
        is_ws(a[j]),
    ensures
        word_len(a + b) == word_len(a),
    decreases a.len(),
{
    assert((a + b)[0] == a[0]);
    if !is_ws(a[0]) {
        assert((a + b).drop_first() =~= a.drop_first() + b);
        assert(a.drop_first()[j - 1] == a[j]);
        lemma_word_len_prefix(a.drop_first(), b, j - 1);
    }
}

proof fn lemma_word_len_whole(t: Seq<char>, b: Seq<char>)
    requires
        no_ws(t),
        b.len() == 0 || is_ws(b[0]),
    ensures
        word_len(t + b) == t.len(),
    decreases t.len(),
{
    if t.len() == 0 {
        assert(t + b =~= b);
    } else {
        assert((t + b)[0] == t[0]);
        assert((t + b).drop_first() =~= t.drop_first() + b);
        assert(no_ws(t.drop_first())) by {
            assert forall|i: int| 0 <= i < t.drop_first().len() implies !is_ws(
                #[trigger] t.drop_first()[i],
            ) by {
                assert(t.drop_first()[i] == t[i + 1]);
            }
        }
        lemma_word_len_whole(t.drop_first(), b);
    }
}

/// A text that ends in whitespace splits into its words and those of what follows.
pub proof fn lemma_words_concat(a: Seq<char>, b: Seq<char>)
    requires
        a.len() > 0,
        is_ws(a.last()),
    ensures
        words(a + b) == words(a) + words(b),
    decreases a.len(),
{
    assert((a + b)[0] == a[0]);
    if is_ws(a[0]) {
        assert((a + b).drop_first() =~= a.drop_first() + b);
        if a.len() == 1 {
            assert(a.drop_first() + b =~= b);
            assert(words(a.drop_first()) =~= Seq::<Seq<char>>::empty());
            assert(words(a) + words(b) =~= words(b));
        } else {
            assert(a.drop_first().last() == a.last());
            lemma_words_concat(a.drop_first(), b);
        }
    } else {
        lemma_word_len_prefix(a, b, a.len() - 1);
        lemma_word_len_bound(a);
        let n = word_len(a);
        assert(n > 0);
        assert((a + b).take(n as int) =~= a.take(n as int));
        assert((a + b).skip(n as int) =~= a.skip(n as int) + b);
        assert(a.skip(n as int).last() == a.last());
        lemma_words_concat(a.skip(n as int), b);
        assert(words(a + b) =~= words(a) + words(b));
    }
}

pub proof fn lemma_words_trailing_ws(x: Seq<char>, c: char)
    requires
        is_ws(c),
    ensures
        words(x + seq![c]) == words(x),
    decreases x.len(),
{
    if x.len() == 0 {
        assert(x + seq![c] =~= seq![c]);
        assert(seq![c].drop_first() =~= Seq::<char>::empty());
        assert(words(Seq::<char>::empty()) =~= Seq::<Seq<char>>::empty());
        assert(words(seq![c]) == words(Seq::<char>::empty()));
        assert(x =~= Seq::<char>::empty());
    } else {
        assert((x + seq![c])[0] == x[0]);
        if is_ws(x[0]) {
            assert((x + seq![c]).drop_first() =~= x.drop_first() + seq![c]);
            lemma_words_trailing_ws(x.drop_first(), c);
            assert(words(x + seq![c]) == words(x.drop_first() + seq![c]));
        } else {
            lemma_word_len_bound(x);
            let n = word_len(x);
            if n < x.len() {
                lemma_word_len_prefix(x, seq![c], n as int);
                assert((x + seq![c]).take(n as int) =~= x.take(n as int));
                assert((x + seq![c]).skip(n as int) =~= x.skip(n as int) + seq![c]);
                lemma_words_trailing_ws(x.skip(n as int), c);
                assert(words(x + seq![c]) == seq![x.take(n as int)] + words(
                    x.skip(n as int) + seq![c],
                ));
            } else {
                assert(no_ws(x));
                lemma_word_len_whole(x, seq![c]);
                assert((x + seq![c]).take(n as int) =~= x);
                assert((x + seq![c]).skip(n as int) =~= seq![c]);
                assert(seq![c].drop_first() =~= Seq::<char>::empty());
                assert(words(Seq::<char>::empty()) =~= Seq::<Seq<char>>::empty());
                assert(words(seq![c]) =~= Seq::<Seq<char>>::empty());
                assert(x.take(n as int) =~= x);
                assert(x.skip(n as int) =~= Seq::<char>::empty());
                assert(words(x + seq![c]) == seq![x] + words(seq![c]));
                assert(words(x) == seq![x] + words(Seq::<char>::empty()));
                assert(seq![x] + Seq::<Seq<char>>::empty() =~= seq![x]);
            }
        }
    }
}

/// A non-empty text without whitespace is a single word.
pub proof fn lemma_words_single(t: Seq<char>)
    requires
        t.len() > 0,
        no_ws(t),
    ensures
        words(t) == seq![t],
{
    lemma_word_len_whole(t, seq![]);
    assert(t + Seq::<char>::empty() =~= t);
    assert(t[0] == t[0]);
    assert(!is_ws(t[0]));
    assert(t.take(t.len() as int) =~= t);
    assert(t.skip(t.len() as int) =~= Seq::<char>::empty());
    assert(words(Seq::<char>::empty()) =~= Seq::<Seq<char>>::empty());
    assert(words(t) == seq![t] + words(Seq::<char>::empty()));
    assert(seq![t] + Seq::<Seq<char>>::empty() =~= seq![t]);
}

/// `line_len` is the distance to the first line feed at or after `i`.
proof fn lemma_line_len_at(s: Seq<char>, i: int, j: int)
    requires
        0 <= i <= j <= s.len(),
        forall|k: int| i <= k < j ==> s[k] != '\n',
        j == s.len() || s[j] == '\n',
    ensures
        line_len(s.skip(i)) == j - i,
    decreases j - i,
{
    if i < j {
        lemma_line_len_at(s, i + 1, j);
        assert(s.skip(i).drop_first() =~= s.skip(i + 1));
    }
}

proof fn lemma_word_len_at(s: Seq<char>, i: int, j: int)
    requires
        0 <= i <= j <= s.len(),
        forall|k: int| i <= k < j ==> !is_ws(s[k]),
        j == s.len() || is_ws(s[j]),
    ensures
        word_len(s.skip(i)) == j - i,
    decreases j - i,
{
    if i < j {
        lemma_word_len_at(s, i + 1, j);
        assert(s.skip(i).drop_first() =~= s.skip(i + 1));
    }
}

/// The elements of `v` at positions `lo..hi`, as a new vector.
pub fn slice_vec(v: &Vec<char>, lo: usize, hi: usize) -> (r: Vec<char>)
    requires
        lo <= hi <= v.len(),
    ensures
        r@ == v@.subrange(lo as int, hi as int),
{
    let mut r: Vec<char> = Vec::new();
    let mut i = lo;
    while i < hi
        invariant
            lo <= i <= hi <= v.len(),
            r@ == v@.subrange(lo as int, i as int),
        decreases hi - i,
    {
        r.push(v[i]);
        i = i + 1;
        assert(r@ =~= v@.subrange(lo as int, i as int));
    }
    r
}

/// The characters of `s`.
pub fn chars_of(s: &str) -> (r: Vec<char>)
    ensures
        r@ == s@,
{
    let mut r: Vec<char> = Vec::new();
    for c in it: s.chars()
        invariant
            r@ == it.seq().take(it.index() as int),
    {
        r.push(c);
    }
    r
}

/// `String::push`: the string with `c` appended.
#[verifier::external_body]
fn string_push(s: &mut String, c: char)
    ensures
        final(s)@ == old(s)@.push(c),
{
    s.push(c);
}

/// Appends the characters of `t` to `s`.
pub fn append_str(s: &mut String, t: &str)
    ensures
        final(s)@ == old(s)@ + t@,
{
    s.append(t);
}

/// A `String` holding the characters of `v`.
pub fn string_of(v: &Vec<char>) -> (r: String)
    ensures
        r@ == v@,
{
    let mut r = String::new();
    let mut i: usize = 0;
    while i < v.len()
        invariant
            i <= v.len(),
            r@ == v@.take(i as int),
        decreases v.len() - i,
    {
        string_push(&mut r, v[i]);
        assert(v@.take(i + 1) =~= v@.take(i as int).push(v@[i as int]));
        i = i + 1;
    }
    assert(v@.take(v@.len() as int) =~= v@);
    r
}

/// A `String` holding `prefix` followed by `v`.
pub fn string_with_prefix(prefix: &str, v: &Vec<char>) -> (r: String)
    ensures
        r@ == prefix@ + v@,
{
    let mut r = prefix.to_owned();
    let mut i: usize = 0;
    while i < v.len()
        invariant
            i <= v.len(),
            r@ == prefix@ + v@.take(i as int),
        decreases v.len() - i,
    {
        string_push(&mut r, v[i]);
        assert(v@.take(i + 1) =~= v@.take(i as int).push(v@[i as int]));
        i = i + 1;
    }
    assert(v@.take(v@.len() as int) =~= v@);
    r
}

/// Whether `v` holds exactly the characters of `lit`.
pub fn eq_str(v: &Vec<char>, lit: &str) -> (r: bool)
    ensures
        r == (v@ == lit@),
{
    let w = chars_of(lit);
    if v.len() != w.len() {
        return false;
    }
    let mut i: usize = 0;
    while i < v.len()
        invariant
            v.len() == w.len(),
            w@ == lit@,
            i <= v.len(),
            forall|k: int| 0 <= k < i ==> v@[k] == w@[k],
        decreases v.len() - i,
    {
        if v[i] != w[i] {
            return false;
        }
        i = i + 1;
    }
    assert(v@ =~= w@);
    true
}

/// `str::trim` on a character vector.
pub fn trim_chars(v: &Vec<char>) -> (r: Vec<char>)
    ensures
        r@ == trim(v@),
{
    let mut lo: usize = 0;
    assert(v@.skip(0) =~= v@);
    while lo < v.len() && is_whitespace(v[lo])
        invariant
            lo <= v.len(),
            trim_start(v@) == trim_start(v@.skip(lo as int)),
        decreases v.len() - lo,
    {
        assert(v@.skip(lo as int).drop_first() =~= v@.skip(lo + 1));
        lo = lo + 1;
    }
    let ghost t = v@.skip(lo as int);
    assert(trim_start(v@) == t);
    let mut hi: usize = v.len();
    while hi > lo && is_whitespace(v[hi - 1])
        invariant
            lo <= hi <= v.len(),
            t == v@.skip(lo as int),
            trim_end(t) == trim_end(v@.subrange(lo as int, hi as int)),
        decreases hi,
    {
        assert(v@.subrange(lo as int, hi as int).drop_last() =~= v@.subrange(
            lo as int,
            hi - 1,
        ));
        hi = hi - 1;
    }
    assert(v@.skip(lo as int) =~= v@.subrange(lo as int, v.len() as int));
    slice_vec(v, lo, hi)
}

/// Position of the first `c` in `v` at or after `from`.
pub fn find_from(v: &Vec<char>, from: usize, c: char) -> (r: Option<usize>)
    requires
        from <= v.len(),
    ensures
        match r {
            Some(i) => from <= i < v.len() && v@[i as int] == c && forall|k: int|
                from <= k < i ==> v@[k] != c,
            None => forall|k: int| from <= k < v.len() ==> v@[k] != c,
        },
{
    let mut i = from;
    while i < v.len()
        invariant
            from <= i <= v.len(),
            forall|k: int| from <= k < i ==> v@[k] != c,
        decreases v.len() - i,
    {
        if v[i] == c {
            return Some(i);
        }
        i = i + 1;
    }
    None
}

pub proof fn lemma_find_char(s: Seq<char>, c: char, i: int)
    requires
        0 <= i <= s.len(),
        forall|k: int| 0 <= k < i ==> s[k] != c,
        i == s.len() || s[i] == c,
    ensures
        find_char(s, c) == (if i == s.len() {
            None::<int>
        } else {
            Some(i)
        }),
    decreases i,
{
    if i > 0 {
        assert forall|k: int| 0 <= k < i - 1 implies s.drop_first()[k] != c by {
            assert(s.drop_first()[k] == s[k + 1]);
        }
        lemma_find_char(s.drop_first(), c, i - 1);
    }
}

pub proof fn lemma_find_char_skip(s: Seq<char>, from: int, c: char, j: int)
    requires
        0 <= from <= j <= s.len(),
        forall|k: int| from <= k < j ==> s[k] != c,
        j == s.len() || s[j] == c,
    ensures
        find_char(s.skip(from), c) == (if j == s.len() {
            None::<int>
        } else {
            Some(j - from)
        }),
{
    lemma_find_char(s.skip(from), c, j - from);
}

/// `find_char` on a character vector.
pub fn find_first(v: &Vec<char>, c: char) -> (r: Option<usize>)
    ensures
        match r {
            Some(i) => find_char(v@, c) == Some(i as int) && i < v.len() && v@[i as int] == c
                && forall|k: int| 0 <= k < i ==> v@[k] != c,
            None => find_char(v@, c) == None::<int> && forall|k: int|
                0 <= k < v.len() ==> v@[k] != c,
        },
{
    let r = find_from(v, 0, c);
    proof {
        match r {
            Some(i) => lemma_find_char(v@, c, i as int),
            None => lemma_find_char(v@, c, v@.len() as int),
        }
    }
    r
}

/// `str::lines` on a character vector.
pub fn lines_of(v: &Vec<char>) -> (r: Vec<Vec<char>>)
    ensures
        r@.len() == lines(v@).len(),
        forall|i: int| 0 <= i < r@.len() ==> #[trigger] r@[i]@ == lines(v@)[i],
{
    let mut r: Vec<Vec<char>> = Vec::new();
    let mut pos: usize = 0;
    let ghost mut acc: Seq<Seq<char>> = seq![];
    assert(v@.skip(0) =~= v@);
    assert(acc + lines(v@) =~= lines(v@));
    assert(acc + words(v@) =~= words(v@));
    while pos < v.len()
        invariant
            pos <= v.len(),
            lines(v@) == acc + lines(v@.skip(pos as int)),
            r@.len() == acc.len(),
            forall|i: int| 0 <= i < r@.len() ==> #[trigger] r@[i]@ == acc[i],
        decreases v.len() - pos,
    {
        let found = find_from(v, pos, '\n');
        let ghost rest = v@.skip(pos as int);
        match found {
            Some(j) => {
                proof {
                    lemma_line_len_at(v@, pos as int, j as int);
                    assert(rest.take(j - pos) =~= v@.subrange(pos as int, j as int));
                    assert(rest.skip(j - pos + 1) =~= v@.skip(j + 1));
                }
                let mut line = slice_vec(v, pos, j);
                if line.len() > 0 && line[line.len() - 1] == '\r' {
                    line.pop();
                }
                proof {
                    acc = acc + seq![line@];
                }
                r.push(line);
                pos = j + 1;
            },
            None => {
                proof {
                    lemma_line_len_at(v@, pos as int, v@.len() as int);
                    assert(rest =~= v@.subrange(pos as int, v@.len() as int));
                    assert(v@.skip(v@.len() as int) =~= Seq::<char>::empty());
                }
                let line = slice_vec(v, pos, v.len());
                proof {
                    acc = acc + seq![line@];
                }
                r.push(line);
                pos = v.len();
            },
        }
    }
    proof {
        assert(v@.skip(pos as int) =~= Seq::<char>::empty());
        assert(acc + seq![] =~= acc);
    }
    r
}

/// `str::split_whitespace` on a character vector.
pub fn words_of(v: &Vec<char>) -> (r: Vec<Vec<char>>)
    ensures
        r@.len() == words(v@).len(),
        forall|i: int| 0 <= i < r@.len() ==> #[trigger] r@[i]@ == words(v@)[i],
{
    let mut r: Vec<Vec<char>> = Vec::new();
    let mut pos: usize = 0;
    let ghost mut acc: Seq<Seq<char>> = seq![];
    assert(v@.skip(0) =~= v@);
    assert(acc + lines(v@) =~= lines(v@));
    assert(acc + words(v@) =~= words(v@));
    while pos < v.len()
        invariant
            pos <= v.len(),
            words(v@) == acc + words(v@.skip(pos as int)),
            r@.len() == acc.len(),
            forall|i: int| 0 <= i < r@.len() ==> #[trigger] r@[i]@ == acc[i],
        decreases v.len() - pos,
    {
        let ghost rest = v@.skip(pos as int);
        if is_whitespace(v[pos]) {
            assert(rest.drop_first() =~= v@.skip(pos + 1));
            pos = pos + 1;
        } else {
            let mut j = pos + 1;
            while j < v.len() && !is_whitespace(v[j])
                invariant
                    pos < j <= v.len(),
                    forall|k: int| pos <= k < j ==> !is_ws(v@[k]),
                decreases v.len() - j,
            {
                j = j + 1;
            }
            proof {
                lemma_word_len_at(v@, pos as int, j as int);
                assert(rest.take(j - pos) =~= v@.subrange(pos as int, j as int));
                assert(rest.skip(j - pos) =~= v@.skip(j as int));
            }
            let w = slice_vec(v, pos, j);
            proof {
                acc = acc + seq![w@];
            }
            r.push(w);
            pos = j;
        }
    }
    proof {
        assert(v@.skip(pos as int) =~= Seq::<char>::empty());
        assert(acc + seq![] =~= acc);
    }
    r
}

} // verus!
