//! Text scanning with specifications: the character-level pieces that the
//! manifest and lock-file readers are built from.

use vstd::prelude::*;

verus! {

/// The characters of `s`, one by one.
pub fn chars_of(s: &str) -> (v: Vec<char>)
    ensures
        v@ == s@,
{
    let mut v: Vec<char> = Vec::new();
    for c in it: s.chars()
        invariant
            v@ == it.seq().take(it.index() as int),
    {
        v.push(c);
    }
    v
}

/// The first index `j` with `lo <= j < hi` holding `c`.
pub open spec fn find_char(s: Seq<char>, c: char, lo: int, hi: int) -> Option<int>
    decreases hi - lo,
{
    if lo >= hi {
        None
    } else if s[lo] == c {
        Some(lo)
    } else {
        find_char(s, c, lo + 1, hi)
    }
}

pub proof fn lemma_find_char(s: Seq<char>, c: char, lo: int, hi: int)
    ensures
        match find_char(s, c, lo, hi) {
            Some(j) => lo <= j < hi && s[j] == c && forall|k: int| lo <= k < j ==> s[k] != c,
            None => forall|k: int| lo <= k < hi ==> s[k] != c,
        },
    decreases hi - lo,
{
    if lo < hi && s[lo] != c {
        lemma_find_char(s, c, lo + 1, hi);
    }
}

/// Where `c` first stands in `s[lo..hi]`, or `hi` where it does not.
pub fn position_of(s: &Vec<char>, c: char, lo: usize, hi: usize) -> (r: usize)
    requires
        lo <= hi <= s@.len(),
    ensures
        lo <= r <= hi,
        r < hi ==> find_char(s@, c, lo as int, hi as int) == Some(r as int),
        r == hi ==> find_char(s@, c, lo as int, hi as int) is None,
{
    let mut j = lo;
    while j < hi
        invariant
            lo <= j <= hi <= s@.len(),
            find_char(s@, c, lo as int, hi as int) == find_char(s@, c, j as int, hi as int),
        decreases hi - j,
    {
        if s[j] == c {
            return j;
        }
        j = j + 1;
    }
    j
}

/// A line without the `\r` of a `\r\n` ending.
pub open spec fn strip_cr(line: Seq<char>) -> Seq<char> {
    if line.len() > 0 && line.last() == '\r' {
        line.drop_last()
    } else {
        line
    }
}

/// The lines of `s` from index `i` on: pieces ended by `\n`, each without its
/// `\n` and without a `\r` just before it; a last piece with no `\n` is kept
/// whole, and nothing follows a final `\n`.
pub open spec fn lines_from(s: Seq<char>, i: int) -> Seq<Seq<char>>
    decreases s.len() - i,
{
    if i < 0 || i >= s.len() {
        Seq::empty()
    } else {
        match find_char(s, '\n', i, s.len() as int) {
            Some(j) => {
                if j < i || j >= s.len() {
                    Seq::empty()
                } else {
                    seq![strip_cr(s.subrange(i, j))] + lines_from(s, j + 1)
                }
            },
            None => seq![s.subrange(i, s.len() as int)],
        }
    }
}

/// The lines of a text, as `str::lines` yields them.
pub open spec fn lines_of(s: Seq<char>) -> Seq<Seq<char>> {
    lines_from(s, 0)
}

/// The first of `lines` that starts with `prefix`.
pub open spec fn first_with_prefix(lines: Seq<Seq<char>>, prefix: Seq<char>) -> Option<Seq<char>>
    decreases lines.len(),
{
    if lines.len() == 0 {
        None
    } else if prefix.is_prefix_of(lines[0]) {
        Some(lines[0])
    } else {
        first_with_prefix(lines.drop_first(), prefix)
    }
}

/// What `split('"').nth(1)` gives: the text after the first `"`, up to the
/// next `"` or to the end.
pub open spec fn first_quoted(s: Seq<char>) -> Option<Seq<char>> {
    match find_char(s, '"', 0, s.len() as int) {
        None => None,
        Some(a) => {
            let rest = s.skip(a + 1);
            match find_char(rest, '"', 0, rest.len() as int) {
                Some(b) => Some(rest.take(b)),
                None => Some(rest),
            }
        },
    }
}

/// Whether `p` stands in `s` at index `i`.
pub open spec fn occurs_at(s: Seq<char>, p: Seq<char>, i: int) -> bool {
    0 <= i && i + p.len() <= s.len() && s.subrange(i, i + p.len()) == p
}

/// Whether `p` stands in `s` at index `i`.
pub fn matches_at(s: &Vec<char>, p: &Vec<char>, i: usize) -> (r: bool)
    ensures
        r == occurs_at(s@, p@, i as int),
{
    if i > s.len() || p.len() > s.len() - i {
        return false;
    }
    let n = s.len();
    let mut k: usize = 0;
    while k < p.len()
        invariant
            n == s@.len(),
            k <= p@.len(),
            i + p@.len() <= s@.len(),
            forall|m: int| 0 <= m < k ==> s@[i + m] == p@[m],
        decreases p@.len() - k,
    {
        assert(i + k < s@.len());
        if s[i + k] != p[k] {
            assert(s@.subrange(i as int, i + p@.len())[k as int] != p@[k as int]);
            return false;
        }
        k = k + 1;
    }
    assert(s@.subrange(i as int, i + p@.len()) =~= p@);
    true
}

/// The first index at or after `i` where `p` stands in `s`.
pub open spec fn find_from(s: Seq<char>, p: Seq<char>, i: int) -> Option<int>
    decreases s.len() + 1 - i,
{
    if i < 0 || i + p.len() > s.len() {
        None
    } else if occurs_at(s, p, i) {
        Some(i)
    } else {
        find_from(s, p, i + 1)
    }
}

pub proof fn lemma_find_from(s: Seq<char>, p: Seq<char>, i: int)
    requires
        0 <= i,
    ensures
        match find_from(s, p, i) {
            Some(j) => i <= j && occurs_at(s, p, j) && forall|k: int|
                i <= k < j ==> !#[trigger] occurs_at(s, p, k),
            None => forall|k: int| i <= k ==> !#[trigger] occurs_at(s, p, k),
        },
    decreases s.len() + 1 - i,
{
    if i + p.len() <= s.len() && !occurs_at(s, p, i) {
        lemma_find_from(s, p, i + 1);
    }
}

/// Where `p` first stands in `s` at or after `i`, or `None`.
pub fn search(s: &Vec<char>, p: &Vec<char>, i: usize) -> (r: Option<usize>)
    ensures
        match r {
            Some(j) => find_from(s@, p@, i as int) == Some(j as int),
            None => find_from(s@, p@, i as int) is None,
        },
{
    if i > s.len() || p.len() > s.len() - i {
        return None;
    }
    let limit = s.len() - p.len();
    let mut j = i;
    loop
        invariant
            i <= j <= limit,
            limit + p@.len() == s@.len(),
            find_from(s@, p@, i as int) == find_from(s@, p@, j as int),
        decreases limit - j,
    {
        if matches_at(s, p, j) {
            return Some(j);
        }
        if j == limit {
            assert(find_from(s@, p@, j + 1) is None);
            return None;
        }
        j = j + 1;
    }
}

/// The pieces that `split` cuts `s` into at each match of `sep`, matches
/// taken left to right without overlap.
pub open spec fn split_from(s: Seq<char>, sep: Seq<char>, i: int) -> Seq<Seq<char>>
    decreases s.len() - i,
{
    if sep.len() == 0 || i < 0 || i > s.len() {
        Seq::empty()
    } else {
        match find_from(s, sep, i) {
            Some(j) => {
                if j < i || j + sep.len() > s.len() {
                    Seq::empty()
                } else {
                    seq![s.subrange(i, j)] + split_from(s, sep, j + sep.len())
                }
            },
            None => seq![s.subrange(i, s.len() as int)],
        }
    }
}

/// `s` with every match of `p`, taken left to right without overlap,
/// replaced by `r`.
pub open spec fn replace_from(s: Seq<char>, p: Seq<char>, r: Seq<char>, i: int) -> Seq<char>
    decreases s.len() - i,
{
    if p.len() == 0 || i < 0 || i > s.len() {
        Seq::empty()
    } else {
        match find_from(s, p, i) {
            Some(j) => {
                if j < i || j + p.len() > s.len() {
                    Seq::empty()
                } else {
                    s.subrange(i, j) + r + replace_from(s, p, r, j + p.len())
                }
            },
            None => s.subrange(i, s.len() as int),
        }
    }
}

/// What `str::replace` makes of `s`.
pub open spec fn replace_all(s: Seq<char>, p: Seq<char>, r: Seq<char>) -> Seq<char> {
    replace_from(s, p, r, 0)
}

/// `text` with every match of `pat` replaced by `with`.
pub fn replace(text: &str, pat: &str, with: &str) -> (res: String)
    requires
        pat@.len() > 0,
    ensures
        res@ == replace_all(text@, pat@, with@),
{
    let cs = chars_of(text);
    let ps = chars_of(pat);
    let mut out = String::new();
    let n = cs.len();
    let mut i: usize = 0;
    loop
        invariant
            n == cs@.len(),
            ps@ == pat@,
            cs@ == text@,
            ps@.len() > 0,
            i <= cs@.len(),
            replace_all(text@, pat@, with@) == out@ + replace_from(text@, pat@, with@, i as int),
        decreases cs@.len() - i,
    {
        match search(&cs, &ps, i) {
            Some(j) => {
                proof {
                    lemma_find_from(cs@, ps@, i as int);
                    assert(occurs_at(cs@, ps@, j as int));
                }
                let ghost before = out@;
                let piece = text.substring_char(i, j);
                out.append(piece);
                out.append(with);
                proof {
                    assert(before + replace_from(text@, pat@, with@, i as int) =~= out@
                        + replace_from(text@, pat@, with@, j + ps@.len()));
                }
                i = j + ps.len();
            },
            None => {
                let ghost before = out@;
                let piece = text.substring_char(i, cs.len());
                out.append(piece);
                proof {
                    assert(before + replace_from(text@, pat@, with@, i as int) =~= out@);
                }
                return out;
            },
        }
    }
}

pub proof fn lemma_first_with_prefix_cons(l: Seq<char>, rest: Seq<Seq<char>>, p: Seq<char>)
    ensures
        first_with_prefix(seq![l] + rest, p) == (if p.is_prefix_of(l) {
            Some(l)
        } else {
            first_with_prefix(rest, p)
        }),
{
    let all = seq![l] + rest;
    assert(all[0] == l);
    assert(all.drop_first() =~= rest);
}

/// The bounds `[a, b)` in `s` of the first line of `s` that starts with `key`.
pub fn first_line_with_prefix(s: &Vec<char>, key: &Vec<char>) -> (r: Option<(usize, usize)>)
    ensures
        match r {
            Some((a, b)) => a + key@.len() <= b <= s@.len() && first_with_prefix(lines_of(s@), key@)
                == Some(s@.subrange(a as int, b as int)),
            None => first_with_prefix(lines_of(s@), key@) is None,
        },
{
    let n = s.len();
    let mut start: usize = 0;
    while start < n
        invariant
            n == s@.len(),
            start <= n,
            first_with_prefix(lines_of(s@), key@) == first_with_prefix(
                lines_from(s@, start as int),
                key@,
            ),
        decreases n - start,
    {
        let nl = position_of(s, '\n', start, n);
        proof {
            lemma_find_char(s@, '\n', start as int, n as int);
        }
        let end = if nl < n && nl > start && s[nl - 1] == '\r' {
            nl - 1
        } else {
            nl
        };
        let next = if nl < n {
            nl + 1
        } else {
            n
        };
        let ghost line = s@.subrange(start as int, end as int);
        proof {
            if nl < n {
                assert(strip_cr(s@.subrange(start as int, nl as int)) =~= line);
                assert(lines_from(s@, start as int) == seq![line] + lines_from(s@, next as int));
            } else {
                assert(lines_from(s@, start as int) == seq![line]);
                assert(seq![line] =~= seq![line] + lines_from(s@, next as int));
            }
            lemma_first_with_prefix_cons(line, lines_from(s@, next as int), key@);
        }
        if key.len() <= end - start && matches_at(s, key, start) {
            proof {
                assert(key@ =~= line.subrange(0, key@.len() as int));
            }
            return Some((start, end));
        }
        proof {
            if key@.is_prefix_of(line) {
                assert(s@.subrange(start as int, start + key@.len()) =~= line.subrange(
                    0,
                    key@.len() as int,
                ));
            }
        }
        start = next;
    }
    None
}

pub proof fn lemma_find_char_shift(s: Seq<char>, c: char, lo: int, hi: int, i: int)
    requires
        0 <= lo <= hi <= s.len(),
        0 <= i,
    ensures
        find_char(s.subrange(lo, hi), c, i, hi - lo) == (match find_char(s, c, lo + i, hi) {
            Some(j) => Some(j - lo),
            None => None,
        }),
    decreases hi - lo - i,
{
    if i < hi - lo {
        lemma_find_char_shift(s, c, lo, hi, i + 1);
    }
}

/// The text that `split('"').nth(1)` finds in `text[from..end]`.
pub fn quoted_between(text: &str, s: &Vec<char>, from: usize, end: usize) -> (r: Option<String>)
    requires
        s@ == text@,
        from <= end <= s@.len(),
    ensures
        match r {
            Some(v) => first_quoted(s@.subrange(from as int, end as int)) == Some(v@),
            None => first_quoted(s@.subrange(from as int, end as int)) is None,
        },
{
    let ghost line = s@.subrange(from as int, end as int);
    let a = position_of(s, '"', from, end);
    proof {
        lemma_find_char_shift(s@, '"', from as int, end as int, 0);
    }
    if a == end {
        return None;
    }
    let b = position_of(s, '"', a + 1, end);
    proof {
        let rest = line.skip(a - from + 1);
        assert(rest =~= s@.subrange(a + 1, end as int));
        lemma_find_char_shift(s@, '"', a + 1, end as int, 0);
        if b < end {
            assert(rest.take(b - a - 1) =~= s@.subrange(a + 1, b as int));
        } else {
            assert(rest =~= s@.subrange(a + 1, b as int));
        }
    }
    let piece = text.substring_char(a + 1, b);
    Some(piece.to_owned())
}

/// The characters that `char::is_whitespace` accepts: Unicode `White_Space`.
pub open spec fn is_white(c: char) -> bool {
    ||| ('\t' <= c && c <= '\r')
    ||| c == ' '
    ||| c == '\u{85}'
    ||| c == '\u{a0}'
    ||| c == '\u{1680}'
    ||| ('\u{2000}' <= c && c <= '\u{200a}')
    ||| c == '\u{2028}'
    ||| c == '\u{2029}'
    ||| c == '\u{202f}'
    ||| c == '\u{205f}'
    ||| c == '\u{3000}'
}

pub fn white(c: char) -> (r: bool)
    ensures
        r == is_white(c),
{
    ('\t' <= c && c <= '\r') || c == ' ' || c == '\u{85}' || c == '\u{a0}' || c == '\u{1680}' || (
    '\u{2000}' <= c && c <= '\u{200a}') || c == '\u{2028}' || c == '\u{2029}' || c == '\u{202f}'
        || c == '\u{205f}' || c == '\u{3000}'
}

/// The first index at or after `i` that is not white space, or the end.
pub open spec fn skip_white(s: Seq<char>, i: int) -> int
    decreases s.len() - i,
{
    if i < 0 || i >= s.len() {
        i
    } else if is_white(s[i]) {
        skip_white(s, i + 1)
    } else {
        i
    }
}

/// The first index at or after `i` that is white space, or the end.
pub open spec fn word_end(s: Seq<char>, i: int) -> int
    decreases s.len() - i,
{
    if i < 0 || i >= s.len() {
        i
    } else if is_white(s[i]) {
        i
    } else {
        word_end(s, i + 1)
    }
}

/// The words of `s` from index `i` on, as `split_whitespace` yields them.
pub open spec fn words_from(s: Seq<char>, i: int) -> Seq<Seq<char>>
    decreases s.len() - i,
{
    let a = skip_white(s, i);
    let b = word_end(s, a);
    if i < 0 || a >= s.len() || a < i || b <= a || b > s.len() {
        Seq::empty()
    } else {
        seq![s.subrange(a, b)] + words_from(s, b)
    }
}

pub fn skip_white_from(s: &Vec<char>, i: usize) -> (r: usize)
    requires
        i <= s@.len(),
    ensures
        r == skip_white(s@, i as int),
        i <= r <= s@.len(),
        r < s@.len() ==> !is_white(s@[r as int]),
{
    let mut j = i;
    while j < s.len() && white(s[j])
        invariant
            i <= j <= s@.len(),
            skip_white(s@, i as int) == skip_white(s@, j as int),
        decreases s@.len() - j,
    {
        j = j + 1;
    }
    j
}

pub fn word_end_from(s: &Vec<char>, i: usize) -> (r: usize)
    requires
        i <= s@.len(),
    ensures
        r == word_end(s@, i as int),
        i <= r <= s@.len(),
        i < s@.len() && !is_white(s@[i as int]) ==> i < r,
{
    let mut j = i;
    while j < s.len() && !white(s[j])
        invariant
            i <= j <= s@.len(),
            word_end(s@, i as int) == word_end(s@, j as int),
        decreases s@.len() - j,
    {
        j = j + 1;
    }
    j
}

/// The second word of `text`, or the empty string where it has fewer.
pub fn second_word(text: &str) -> (r: String)
    ensures
        r@ == (if words_from(text@, 0).len() >= 2 {
            words_from(text@, 0)[1]
        } else {
            Seq::empty()
        }),
{
    let s = chars_of(text);
    let a0 = skip_white_from(&s, 0);
    if a0 == s.len() {
        return String::new();
    }
    let b0 = word_end_from(&s, a0);
    let a1 = skip_white_from(&s, b0);
    if a1 == s.len() {
        proof {
            assert(words_from(s@, b0 as int) =~= Seq::empty());
            assert(words_from(s@, 0) =~= seq![s@.subrange(a0 as int, b0 as int)]);
        }
        return String::new();
    }
    let b1 = word_end_from(&s, a1);
    proof {
        let w1 = words_from(s@, b0 as int);
        assert(w1 == seq![s@.subrange(a1 as int, b1 as int)] + words_from(s@, b1 as int));
        assert(words_from(s@, 0) == seq![s@.subrange(a0 as int, b0 as int)] + w1);
        assert(words_from(s@, 0)[1] == w1[0]);
    }
    let piece = text.substring_char(a1, b1);
    piece.to_owned()
}

/// Whether `p` stands anywhere in `s`.
pub open spec fn contains_seq(s: Seq<char>, p: Seq<char>) -> bool {
    exists|k: int| occurs_at(s, p, k)
}

/// The first of `pieces` in which `needle` stands.
pub open spec fn first_containing(pieces: Seq<Seq<char>>, needle: Seq<char>) -> Option<Seq<char>>
    decreases pieces.len(),
{
    if pieces.len() == 0 {
        None
    } else if contains_seq(pieces[0], needle) {
        Some(pieces[0])
    } else {
        first_containing(pieces.drop_first(), needle)
    }
}

pub proof fn lemma_first_containing_cons(p: Seq<char>, rest: Seq<Seq<char>>, needle: Seq<char>)
    ensures
        first_containing(seq![p] + rest, needle) == (if contains_seq(p, needle) {
            Some(p)
        } else {
            first_containing(rest, needle)
        }),
{
    let all = seq![p] + rest;
    assert(all[0] == p);
    assert(all.drop_first() =~= rest);
}

pub proof fn lemma_occurs_in_piece(s: Seq<char>, p: Seq<char>, i: int, j: int, k: int)
    requires
        0 <= i <= j <= s.len(),
        0 <= k,
    ensures
        occurs_at(s.subrange(i, j), p, k) <==> (i + k + p.len() <= j && occurs_at(s, p, i + k)),
{
    if i + k + p.len() <= j {
        assert(s.subrange(i, j).subrange(k, k + p.len()) =~= s.subrange(i + k, i + k + p.len()));
    }
}

/// The bounds `[a, b)` in `s` of the first piece, of those that splitting `s`
/// at `sep` gives, that holds `needle`.
pub fn first_piece_containing(s: &Vec<char>, sep: &Vec<char>, needle: &Vec<char>) -> (r: Option<
    (usize, usize),
>)
    requires
        sep@.len() > 0,
    ensures
        match r {
            Some((a, b)) => a <= b <= s@.len() && first_containing(split_from(s@, sep@, 0), needle@)
                == Some(s@.subrange(a as int, b as int)),
            None => first_containing(split_from(s@, sep@, 0), needle@) is None,
        },
{
    let n = s.len();
    let mut i: usize = 0;
    loop
        invariant
            n == s@.len(),
            sep@.len() > 0,
            i <= n,
            first_containing(split_from(s@, sep@, 0), needle@) == first_containing(
                split_from(s@, sep@, i as int),
                needle@,
            ),
        decreases n - i,
    {
        let cut = search(s, sep, i);
        proof {
            lemma_find_from(s@, sep@, i as int);
        }
        let j = match cut {
            Some(j) => j,
            None => n,
        };
        let ghost piece = s@.subrange(i as int, j as int);
        proof {
            match cut {
                Some(j) => {
                    assert(occurs_at(s@, sep@, j as int));
                    assert(split_from(s@, sep@, i as int) == seq![piece] + split_from(
                        s@,
                        sep@,
                        j + sep@.len(),
                    ));
                    lemma_first_containing_cons(piece, split_from(s@, sep@, j + sep@.len()), needle@);
                },
                None => {
                    assert(split_from(s@, sep@, i as int) == seq![piece]);
                    assert(seq![piece] =~= seq![piece] + Seq::<Seq<char>>::empty());
                    lemma_first_containing_cons(piece, Seq::empty(), needle@);
                },
            }
        }
        let hit = search(s, needle, i);
        proof {
            lemma_find_from(s@, needle@, i as int);
        }
        let found = match hit {
            Some(k) => k <= j && needle.len() <= j - k,
            None => false,
        };
        proof {
            match hit {
                Some(k) => {
                    if found {
                        lemma_occurs_in_piece(s@, needle@, i as int, j as int, k - i);
                        assert(occurs_at(piece, needle@, k - i));
                    } else {
                        assert forall|m: int| !#[trigger] occurs_at(piece, needle@, m) by {
                            if 0 <= m {
                                lemma_occurs_in_piece(s@, needle@, i as int, j as int, m);
                                if i + m < k {
                                    assert(!occurs_at(s@, needle@, i + m));
                                }
                            }
                        }
                    }
                },
                None => {
                    assert forall|m: int| !#[trigger] occurs_at(piece, needle@, m) by {
                        if 0 <= m {
                            lemma_occurs_in_piece(s@, needle@, i as int, j as int, m);
                        }
                    }
                },
            }
        }
        if found {
            return Some((i, j));
        }
        match cut {
            Some(j) => {
                i = j + sep.len();
            },
            None => {
                return None;
            },
        }
    }
}

pub proof fn lemma_find_char_at(s: Seq<char>, c: char, lo: int, hi: int, j: int)
    requires
        lo <= j < hi,
        s[j] == c,
        forall|k: int| lo <= k < j ==> s[k] != c,
    ensures
        find_char(s, c, lo, hi) == Some(j),
    decreases j - lo,
{
    if lo < j {
        lemma_find_char_at(s, c, lo + 1, hi, j);
    }
}

pub proof fn lemma_find_char_absent(s: Seq<char>, c: char, lo: int, hi: int)
    requires
        forall|k: int| lo <= k < hi ==> s[k] != c,
    ensures
        find_char(s, c, lo, hi) is None,
    decreases hi - lo,
{
    if lo < hi {
        lemma_find_char_absent(s, c, lo + 1, hi);
    }
}

pub proof fn lemma_skip_white_to(s: Seq<char>, i: int, j: int)
    requires
        0 <= i <= j <= s.len(),
        forall|k: int| i <= k < j ==> is_white(s[k]),
        j == s.len() || !is_white(s[j]),
    ensures
        skip_white(s, i) == j,
    decreases j - i,
{
    if i < j {
        lemma_skip_white_to(s, i + 1, j);
    }
}

pub proof fn lemma_word_end_to(s: Seq<char>, i: int, j: int)
    requires
        0 <= i <= j <= s.len(),
        forall|k: int| i <= k < j ==> !is_white(s[k]),
        j == s.len() || is_white(s[j]),
    ensures
        word_end(s, i) == j,
    decreases j - i,
{
    if i < j {
        lemma_word_end_to(s, i + 1, j);
    }
}

/// Whether no character of `s` is white space.
pub open spec fn is_word(s: Seq<char>) -> bool {
    s.len() > 0 && forall|k: int| 0 <= k < s.len() ==> !is_white(#[trigger] s[k])
}

/// Two words with a space between, and a line end after, are the first two
/// words, in order.
pub proof fn lemma_two_words(a: Seq<char>, b: Seq<char>)
    requires
        is_word(a),
        is_word(b),
    ensures
        ({
            let s = a + " "@ + b + "\n"@;
            &&& words_from(s, 0).len() == 2
            &&& words_from(s, 0)[0] == a
            &&& words_from(s, 0)[1] == b
        }),
{
    reveal_strlit(" ");
    reveal_strlit("\n");
    let s = a + " "@ + b + "\n"@;
    let la = a.len() as int;
    let lb = b.len() as int;
    assert(s.len() == la + 1 + lb + 1);
    assert forall|k: int| 0 <= k < la implies s[k] == a[k] by {}
    assert forall|k: int| la + 1 <= k < la + 1 + lb implies s[k] == b[k - la - 1] by {}
    assert(s[la] == ' ');
    assert(s[la + 1 + lb] == '\n');
    assert(!is_white(s[0]));
    lemma_skip_white_to(s, 0, 0);
    lemma_word_end_to(s, 0, la);
    lemma_skip_white_to(s, la, la + 1);
    lemma_word_end_to(s, la + 1, la + 1 + lb);
    lemma_skip_white_to(s, la + 1 + lb, s.len() as int);
    assert(s.subrange(0, la) =~= a);
    assert(s.subrange(la + 1, la + 1 + lb) =~= b);
    assert(words_from(s, la + 1 + lb) =~= Seq::empty());
    let w1 = words_from(s, la);
    assert(w1 == seq![b] + words_from(s, la + 1 + lb));
    assert(words_from(s, 0) == seq![a] + w1);
}

} // verus!
