//! Character-level scanning used by the layout parsers: finding a pattern,
//! splitting, line and word boundaries, trimming and decimal parsing.
use vstd::prelude::*;

verus! {

/// The characters of `s`, in order.
pub fn chars_of(s: &str) -> (v: Vec<char>)
    ensures
        v@ == s@,
{
    let mut v: Vec<char> = Vec::new();
    for c in it: s.chars()
        invariant
            v@ == it.seq().take(it.index() as int),
    {
        v.push(c);
    }
    v
}

/// `p` occurs in `s` starting at position `i`.
pub open spec fn matches_at(s: Seq<char>, p: Seq<char>, i: int) -> bool {
    0 <= i && i + p.len() <= s.len() && s.subrange(i, i + p.len()) == p
}

/// The first position at or after `from` where `p` occurs in `s`.
pub open spec fn find_from(s: Seq<char>, p: Seq<char>, from: int) -> Option<int>
    decreases s.len() - from,
{
    if from < 0 || from + p.len() > s.len() {
        None
    } else if matches_at(s, p, from) {
        Some(from)
    } else if from < s.len() {
        find_from(s, p, from + 1)
    } else {
        None
    }
}

/// `p` occurs somewhere in `s`.
pub open spec fn contains(s: Seq<char>, p: Seq<char>) -> bool {
    find_from(s, p, 0) is Some
}

/// `s` begins with `p`.
pub open spec fn starts_with(s: Seq<char>, p: Seq<char>) -> bool {
    matches_at(s, p, 0)
}

/// What `find_from` returns is the first occurrence at or after `from`.
pub proof fn lemma_find_from(s: Seq<char>, p: Seq<char>, from: int)
    requires
        0 <= from,
    ensures
        find_from(s, p, from) matches Some(i) ==> {
            &&& from <= i
            &&& matches_at(s, p, i)
            &&& forall|j: int| from <= j < i ==> !matches_at(s, p, j)
        },
        find_from(s, p, from) is None ==> forall|j: int| from <= j ==> !matches_at(s, p, j),
    decreases s.len() - from,
{
    if from + p.len() > s.len() {
    } else if matches_at(s, p, from) {
    } else if from < s.len() {
        lemma_find_from(s, p, from + 1);
    } else {
        assert(p.len() == 0);
        assert(s.subrange(from, from + p.len()) =~= p);
    }
}

/// Whether `p` occurs in `s` at position `i`.
pub fn matches_at_exec(s: &Vec<char>, p: &Vec<char>, i: usize) -> (r: bool)
    ensures
        r == matches_at(s@, p@, i as int),
{
    if i > s.len() || p.len() > s.len() - i {
        return false;
    }
    let mut k: usize = 0;
    while k < p.len()
        invariant
            k <= p.len(),
            i + p.len() <= s.len(),
            forall|j: int| 0 <= j < k ==> s@[i + j] == p@[j],
        decreases p.len() - k,
    {
        if s[i + k] != p[k] {
            assert(s@.subrange(i as int, i + p.len())[k as int] != p@[k as int]);
            return false;
        }
        k = k + 1;
    }
    assert(s@.subrange(i as int, i + p.len()) =~= p@);
    true
}

/// Whether `p` occurs in `s`.
pub fn contains_exec(s: &Vec<char>, p: &Vec<char>) -> (r: bool)
    ensures
        r == contains(s@, p@),
{
    find(s, p, 0).is_some()
}

/// The first position at or after `from` where `p` occurs in `s`.
pub fn find(s: &Vec<char>, p: &Vec<char>, from: usize) -> (r: Option<usize>)
    ensures
        r matches Some(i) ==> find_from(s@, p@, from as int) == Some(i as int),
        r is None ==> find_from(s@, p@, from as int) is None,
{
    let mut i = from;
    while i <= s.len() && p.len() <= s.len() - i
        invariant
            from <= i,
            find_from(s@, p@, from as int) == find_from(s@, p@, i as int),
        decreases s.len() - i,
    {
        if matches_at_exec(s, p, i) {
            return Some(i);
        }
        if i == s.len() {
            return None;
        }
        i = i + 1;
    }
    None
}


/// The characters of `s` from `a` up to, not including, `b`.
pub fn subvec(s: &Vec<char>, a: usize, b: usize) -> (r: Vec<char>)
    requires
        a <= b <= s.len(),
    ensures
        r@ == s@.subrange(a as int, b as int),
{
    let mut r: Vec<char> = Vec::new();
    let mut k = a;
    while k < b
        invariant
            a <= k <= b <= s.len(),
            r@ == s@.subrange(a as int, k as int),
        decreases b - k,
    {
        r.push(s[k]);
        k = k + 1;
        assert(r@ =~= s@.subrange(a as int, k as int));
    }
    r
}

/// The pieces of `s` from position `pos` on, cut at each occurrence of the
/// non-empty pattern `p`, the occurrences themselves left out.
pub open spec fn split_from(s: Seq<char>, p: Seq<char>, pos: int) -> Seq<Seq<char>>
    decreases s.len() - pos,
{
    if p.len() == 0 || pos < 0 || pos > s.len() {
        seq![]
    } else {
        match find_from(s, p, pos) {
            None => seq![s.subrange(pos, s.len() as int)],
            Some(i) => {
                proof {
                    lemma_find_from(s, p, pos);
                }
                seq![s.subrange(pos, i)] + split_from(s, p, i + p.len())
            },
        }
    }
}

/// The pieces of `s` between the occurrences of `p`.
pub open spec fn split_on(s: Seq<char>, p: Seq<char>) -> Seq<Seq<char>> {
    split_from(s, p, 0)
}

/// The character sequences held by a list of character vectors.
pub open spec fn views(v: Seq<Vec<char>>) -> Seq<Seq<char>> {
    v.map_values(|x: Vec<char>| x@)
}

/// Cuts `s` at each occurrence of the non-empty pattern `p`.
pub fn split(s: &Vec<char>, p: &Vec<char>) -> (r: Vec<Vec<char>>)
    requires
        p.len() > 0,
    ensures
        views(r@) == split_on(s@, p@),
{
    let mut out: Vec<Vec<char>> = Vec::new();
    let mut pos: usize = 0;
    loop
        invariant
            0 < p.len(),
            pos <= s.len(),
            split_on(s@, p@) == views(out@) + split_from(s@, p@, pos as int),
        decreases s.len() - pos,
    {
        let ghost prev = views(out@);
        proof {
            lemma_find_from(s@, p@, pos as int);
        }
        match find(s, p, pos) {
            None => {
                let piece = subvec(s, pos, s.len());
                out.push(piece);
                assert(views(out@) =~= prev + split_from(s@, p@, pos as int));
                return out;
            },
            Some(i) => {
                let piece = subvec(s, pos, i);
                out.push(piece);
                assert(views(out@) =~= prev.push(piece@));
                assert(split_from(s@, p@, pos as int) == seq![piece@] + split_from(
                    s@,
                    p@,
                    i + p.len(),
                ));
                assert(prev + split_from(s@, p@, pos as int) =~= views(out@) + split_from(
                    s@,
                    p@,
                    i + p.len(),
                ));
                pos = i + p.len();
            },
        }
    }
}


/// A line as `str::lines` gives it: a carriage return that ended it before
/// the line feed is dropped.
pub open spec fn strip_cr(l: Seq<char>) -> Seq<char> {
    if l.len() > 0 && l.last() == '\r' {
        l.drop_last()
    } else {
        l
    }
}

/// The lines of `s` from position `pos` on, as `str::lines` yields them: cut
/// at each line feed, a final line feed yielding no empty line after it.
pub open spec fn lines_from(s: Seq<char>, pos: int) -> Seq<Seq<char>>
    decreases s.len() - pos,
{
    if pos < 0 || pos >= s.len() {
        seq![]
    } else {
        match find_from(s, seq!['\n'], pos) {
            None => seq![s.subrange(pos, s.len() as int)],
            Some(i) => {
                proof {
                    lemma_find_from(s, seq!['\n'], pos);
                }
                seq![strip_cr(s.subrange(pos, i))] + lines_from(s, i + 1)
            },
        }
    }
}

/// The lines of `s`.
pub open spec fn lines(s: Seq<char>) -> Seq<Seq<char>> {
    lines_from(s, 0)
}

/// Splits `s` into lines as `str::lines` does.
pub fn split_lines(s: &Vec<char>) -> (r: Vec<Vec<char>>)
    ensures
        views(r@) == lines(s@),
{
    let mut out: Vec<Vec<char>> = Vec::new();
    let mut pos: usize = 0;
    let newline: Vec<char> = vec!['\n'];
    assert(newline@ =~= seq!['\n']);
    while pos < s.len()
        invariant
            newline@ == seq!['\n'],
            pos <= s.len(),
            lines(s@) == views(out@) + lines_from(s@, pos as int),
        decreases s.len() - pos,
    {
        let ghost prev = views(out@);
        proof {
            lemma_find_from(s@, newline@, pos as int);
        }
        match find(s, &newline, pos) {
            None => {
                let piece = subvec(s, pos, s.len());
                out.push(piece);
                assert(views(out@) =~= prev.push(piece@));
                assert(lines_from(s@, s.len() as int) =~= Seq::<Seq<char>>::empty());
                assert(lines_from(s@, pos as int) =~= seq![piece@]);
                pos = s.len();
            },
            Some(i) => {
                let mut piece = subvec(s, pos, i);
                if piece.len() > 0 && piece[piece.len() - 1] == '\r' {
                    piece.pop();
                }
                assert(piece@ =~= strip_cr(s@.subrange(pos as int, i as int)));
                out.push(piece);
                assert(views(out@) =~= prev.push(piece@));
                assert(prev + lines_from(s@, pos as int) =~= views(out@) + lines_from(
                    s@,
                    i + 1,
                ));
                pos = i + 1;
            },
        }
    }
    assert(views(out@) + lines_from(s@, pos as int) =~= views(out@));
    out
}

/// Unicode white space, as `char::is_whitespace` decides it.
pub open spec fn is_space(c: char) -> bool {
    ||| c == ' '
    ||| ('\t' <= c && c <= '\r')
    ||| c == '\u{85}'
    ||| c == '\u{a0}'
    ||| c == '\u{1680}'
    ||| ('\u{2000}' <= c && c <= '\u{200a}')
    ||| c == '\u{2028}'
    ||| c == '\u{2029}'
    ||| c == '\u{202f}'
    ||| c == '\u{205f}'
    ||| c == '\u{3000}'
}

/// Whether `c` is white space.
pub fn is_space_exec(c: char) -> (r: bool)
    ensures
        r == is_space(c),
{
    c == ' ' || ('\t' <= c && c <= '\r') || c == '\u{85}' || c == '\u{a0}' || c == '\u{1680}'
        || ('\u{2000}' <= c && c <= '\u{200a}') || c == '\u{2028}' || c == '\u{2029}' || c
        == '\u{202f}' || c == '\u{205f}' || c == '\u{3000}'
}

/// Where the run of non-space characters that starts at `i` ends.
pub open spec fn token_end(s: Seq<char>, i: int) -> int
    decreases s.len() - i,
{
    if i < 0 || i >= s.len() || is_space(s[i]) {
        i
    } else {
        token_end(s, i + 1)
    }
}

/// A word runs from `i` to `token_end`, over non-space characters only.
pub proof fn lemma_token_end(s: Seq<char>, i: int)
    requires
        0 <= i <= s.len(),
    ensures
        i <= token_end(s, i) <= s.len(),
        token_end(s, i) < s.len() ==> is_space(s[token_end(s, i)]),
        forall|k: int| i <= k < token_end(s, i) ==> !is_space(#[trigger] s[k]),
        i < s.len() && !is_space(s[i]) ==> i < token_end(s, i),
    decreases s.len() - i,
{
    if i < s.len() && !is_space(s[i]) {
        lemma_token_end(s, i + 1);
    }
}

/// The words of `s` from position `i` on, as `str::split_whitespace` yields
/// them: the maximal runs of non-space characters.
pub open spec fn words_from(s: Seq<char>, i: int) -> Seq<Seq<char>>
    decreases s.len() - i,
{
    if i < 0 || i >= s.len() {
        seq![]
    } else if is_space(s[i]) {
        words_from(s, i + 1)
    } else {
        proof {
            lemma_token_end(s, i);
        }
        seq![s.subrange(i, token_end(s, i))] + words_from(s, token_end(s, i))
    }
}

/// The words of `s`.
pub open spec fn words(s: Seq<char>) -> Seq<Seq<char>> {
    words_from(s, 0)
}

/// Splits `s` at white space, as `str::split_whitespace` does.
pub fn split_words(s: &Vec<char>) -> (r: Vec<Vec<char>>)
    ensures
        views(r@) == words(s@),
{
    let mut out: Vec<Vec<char>> = Vec::new();
    let mut i: usize = 0;
    while i < s.len()
        invariant
            i <= s.len(),
            words(s@) == views(out@) + words_from(s@, i as int),
        decreases s.len() - i,
    {
        if is_space_exec(s[i]) {
            i = i + 1;
        } else {
            let ghost prev = views(out@);
            let mut j = i;
            proof {
                lemma_token_end(s@, i as int);
            }
            while j < s.len() && !is_space_exec(s[j])
                invariant
                    i <= j <= s.len(),
                    token_end(s@, i as int) == token_end(s@, j as int),
                decreases s.len() - j,
            {
                j = j + 1;
            }
            let piece = subvec(s, i, j);
            out.push(piece);
            assert(views(out@) =~= prev.push(piece@));
            assert(prev + words_from(s@, i as int) =~= views(out@) + words_from(s@, j as int));
            i = j;
        }
    }
    out
}

/// Where `s` starts once leading white space from position `i` is skipped.
pub open spec fn trim_start_at(s: Seq<char>, i: int) -> int
    decreases s.len() - i,
{
    if i < 0 || i >= s.len() || !is_space(s[i]) {
        i
    } else {
        trim_start_at(s, i + 1)
    }
}

/// Where `s` ends once trailing white space before position `j` is dropped.
pub open spec fn trim_end_at(s: Seq<char>, j: int) -> int
    decreases j,
{
    if j <= 0 || j > s.len() || !is_space(s[j - 1]) {
        j
    } else {
        trim_end_at(s, j - 1)
    }
}

/// `s` without leading and trailing white space, as `str::trim` gives it.
pub open spec fn trim(s: Seq<char>) -> Seq<char> {
    let a = trim_start_at(s, 0);
    let b = trim_end_at(s, s.len() as int);
    if a < b {
        s.subrange(a, b)
    } else {
        seq![]
    }
}

/// Removes leading and trailing white space.
pub fn trim_exec(s: &Vec<char>) -> (r: Vec<char>)
    ensures
        r@ == trim(s@),
{
    let mut a: usize = 0;
    while a < s.len() && is_space_exec(s[a])
        invariant
            a <= s.len(),
            trim_start_at(s@, 0) == trim_start_at(s@, a as int),
        decreases s.len() - a,
    {
        a = a + 1;
    }
    let mut b: usize = s.len();
    while b > 0 && is_space_exec(s[b - 1])
        invariant
            b <= s.len(),
            trim_end_at(s@, s.len() as int) == trim_end_at(s@, b as int),
        decreases b,
    {
        b = b - 1;
    }
    if a < b {
        subvec(s, a, b)
    } else {
        Vec::new()
    }
}


/// An ASCII decimal digit.
pub open spec fn is_digit(c: char) -> bool {
    '0' <= c && c <= '9'
}

/// Every character of `d` is a decimal digit.
pub open spec fn all_digits(d: Seq<char>) -> bool {
    forall|i: int| 0 <= i < d.len() ==> is_digit(#[trigger] d[i])
}

/// The number that the decimal digits `d` write.
pub open spec fn decimal_value(d: Seq<char>) -> int
    decreases d.len(),
{
    if d.len() == 0 {
        0
    } else {
        decimal_value(d.drop_last()) * 10 + (d.last() as int - '0' as int)
    }
}

/// `s` read as a `usize` the way `str::parse::<usize>` reads it: an optional
/// `+`, then one or more decimal digits, the value no greater than `usize::MAX`.
pub open spec fn parse_usize(s: Seq<char>) -> Option<usize> {
    let d = if s.len() > 0 && s[0] == '+' {
        s.drop_first()
    } else {
        s
    };
    if d.len() > 0 && all_digits(d) && decimal_value(d) <= usize::MAX {
        Some(decimal_value(d) as usize)
    } else {
        None
    }
}

/// Digits only add to the value: a prefix never writes more than the whole.
proof fn lemma_decimal_prefix(d: Seq<char>, j: int)
    requires
        all_digits(d),
        0 <= j <= d.len(),
    ensures
        0 <= decimal_value(d.take(j)) <= decimal_value(d),
    decreases d.len() - j,
{
    if j < d.len() {
        lemma_decimal_prefix(d, j + 1);
        assert(d.take(j + 1).drop_last() =~= d.take(j));
        assert(is_digit(d[j]));
    } else {
        assert(d.take(j) =~= d);
        lemma_decimal_nonneg(d);
    }
}

proof fn lemma_decimal_nonneg(d: Seq<char>)
    requires
        all_digits(d),
    ensures
        decimal_value(d) >= 0,
    decreases d.len(),
{
    if d.len() > 0 {
        assert(all_digits(d.drop_last()));
        assert(is_digit(d[d.len() - 1]));
        lemma_decimal_nonneg(d.drop_last());
    }
}

/// Reads `s` as a `usize`, as `str::parse::<usize>` does.
pub fn parse_usize_exec(s: &Vec<char>) -> (r: Option<usize>)
    ensures
        r == parse_usize(s@),
{
    let start: usize = if s.len() > 0 && s[0] == '+' {
        1
    } else {
        0
    };
    let ghost d = if s@.len() > 0 && s@[0] == '+' {
        s@.drop_first()
    } else {
        s@
    };
    assert(d =~= s@.subrange(start as int, s@.len() as int));
    if start >= s.len() {
        return None;
    }
    let mut acc: usize = 0;
    let mut k: usize = start;
    while k < s.len()
        invariant
            start <= k <= s.len(),
            d == s@.subrange(start as int, s@.len() as int),
            d == (if s@.len() > 0 && s@[0] == '+' {
                s@.drop_first()
            } else {
                s@
            }),
            all_digits(d.take(k - start)),
            acc as int == decimal_value(d.take(k - start)),
        decreases s.len() - k,
    {
        let c = s[k];
        let ghost j: int = k - start;
        assert(d[j] == c);
        if c < '0' || c > '9' {
            assert(!all_digits(d));
            return None;
        }
        assert(d.take(j + 1).drop_last() =~= d.take(j));
        let digit: u32 = (c as u32) - ('0' as u32);
        assert(all_digits(d.take(j + 1)));
        match acc.checked_mul(10) {
            None => {
                proof {
                    if all_digits(d) {
                        lemma_decimal_prefix(d, j + 1);
                    }
                }
                return None;
            },
            Some(m) => match m.checked_add(digit as usize) {
                None => {
                    proof {
                        if all_digits(d) {
                            lemma_decimal_prefix(d, j + 1);
                        }
                    }
                    return None;
                },
                Some(v) => {
                    acc = v;
                },
            },
        }
        k = k + 1;
    }
    assert(d.take(k - start) =~= d);
    Some(acc)
}

/// The text between the first `start` in `text` and the first `end` after it,
/// as the scene reader takes it.
pub open spec fn between(text: Seq<char>, start: Seq<char>, end: Seq<char>) -> Option<Seq<char>> {
    match find_from(text, start, 0) {
        None => None,
        Some(i) => {
            let rest = text.subrange(i + start.len(), text.len() as int);
            match find_from(rest, end, 0) {
                None => None,
                Some(j) => Some(rest.subrange(0, j)),
            }
        },
    }
}

/// Shifting the text shifts where a pattern is found.
pub proof fn lemma_find_shift(s: Seq<char>, p: Seq<char>, k: int, from: int)
    requires
        0 <= k <= s.len(),
        0 <= from,
    ensures
        find_from(s.subrange(k, s.len() as int), p, from) == match find_from(s, p, from + k) {
            None => None::<int>,
            Some(i) => Some(i - k),
        },
    decreases s.len() - k - from,
{
    let t = s.subrange(k, s.len() as int);
    if from + p.len() > t.len() {
    } else {
        assert(t.subrange(from, from + p.len()) =~= s.subrange(from + k, from + k + p.len()));
        if matches_at(t, p, from) {
        } else if from < t.len() {
            lemma_find_shift(s, p, k, from + 1);
        }
    }
}

/// The text between the first `start` in `text` and the first `end` after it.
pub fn extract_between(text: &Vec<char>, start: &Vec<char>, end: &Vec<char>) -> (r: Option<Vec<char>>)
    ensures
        r matches Some(v) ==> between(text@, start@, end@) == Some(v@),
        r is None ==> between(text@, start@, end@) is None,
{
    proof {
        lemma_find_from(text@, start@, 0);
    }
    let i = match find(text, start, 0) {
        None => return None,
        Some(i) => i,
    };
    assert(matches_at(text@, start@, i as int));
    let slen = start.len();
    let tlen = text.len();
    assert(i + slen <= tlen);
    let from: usize = i + slen;
    proof {
        lemma_find_shift(text@, end@, from as int, 0);
        lemma_find_from(text@, end@, from as int);
    }
    match find(text, end, from) {
        None => None,
        Some(e) => {
            let r = subvec(text, from, e);
            assert(r@ =~= text@.subrange(from as int, text@.len() as int).subrange(
                0,
                e - from,
            ));
            Some(r)
        },
    }
}


/// Whether `a` and `b` hold the same characters.
pub fn same_chars(a: &Vec<char>, b: &Vec<char>) -> (r: bool)
    ensures
        r == (a@ == b@),
{
    if a.len() != b.len() {
        return false;
    }
    let mut k: usize = 0;
    while k < a.len()
        invariant
            a.len() == b.len(),
            k <= a.len(),
            forall|j: int| 0 <= j < k ==> a@[j] == b@[j],
        decreases a.len() - k,
    {
        if a[k] != b[k] {
            return false;
        }
        k = k + 1;
    }
    assert(a@ =~= b@);
    true
}

/// Appends `c` to `s` (`String::push`).
#[verifier::external_body]
fn push_char(s: &mut String, c: char)
    ensures
        final(s)@ == old(s)@.push(c),
{
    s.push(c);
}

/// A string holding the characters of `v`.
pub fn string_of(v: &Vec<char>) -> (r: String)
    ensures
        r@ == v@,
{
    let mut r = String::new();
    let mut k: usize = 0;
    while k < v.len()
        invariant
            k <= v.len(),
            r@ == v@.take(k as int),
        decreases v.len() - k,
    {
        push_char(&mut r, v[k]);
        k = k + 1;
        assert(r@ =~= v@.take(k as int));
    }
    assert(v@.take(k as int) =~= v@);
    r
}

} // verus!
