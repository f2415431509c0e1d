use vstd::prelude::*;

verus! {

/// The characters `str::trim` removes: those with the Unicode `White_Space` property.
pub open spec fn is_white_space(c: char) -> bool {
    let u = c as u32;
    ||| 0x09 <= u <= 0x0D
    ||| u == 0x20
    ||| u == 0x85
    ||| u == 0xA0
    ||| u == 0x1680
    ||| 0x2000 <= u <= 0x200A
    ||| u == 0x2028
    ||| u == 0x2029
    ||| u == 0x202F
    ||| u == 0x205F
    ||| u == 0x3000
}

/// White space is exactly the characters of Unicode's `White_Space` property, which `str::trim`
/// strips: tab, line feed, vertical tab, form feed, carriage return, space, next line, no-break
/// space, ogham space mark, the spaces from en quad to hair space, line separator, paragraph
/// separator, narrow no-break space, medium mathematical space and ideographic space.
pub proof fn lemma_white_space_chars(c: char)
    ensures
        is_white_space(c) <==> {
            ||| c == '\t'
            ||| c == '\n'
            ||| c == '\u{0B}'
            ||| c == '\u{0C}'
            ||| c == '\r'
            ||| c == ' '
            ||| c == '\u{85}'
            ||| c == '\u{A0}'
            ||| c == '\u{1680}'
            ||| c == '\u{2000}'
            ||| c == '\u{2001}'
            ||| c == '\u{2002}'
            ||| c == '\u{2003}'
            ||| c == '\u{2004}'
            ||| c == '\u{2005}'
            ||| c == '\u{2006}'
            ||| c == '\u{2007}'
            ||| c == '\u{2008}'
            ||| c == '\u{2009}'
            ||| c == '\u{200A}'
            ||| c == '\u{2028}'
            ||| c == '\u{2029}'
            ||| c == '\u{202F}'
            ||| c == '\u{205F}'
            ||| c == '\u{3000}'
        },
{
}

/// `text` cut after every line feed: the pieces keep their line feeds, and the last piece lacks
/// one if `text` does not end with a line feed.
pub open spec fn split_after_newlines(text: Seq<char>) -> Seq<Seq<char>>
    decreases text.len(),
{
    if text.len() == 0 {
        Seq::empty()
    } else {
        let prev = split_after_newlines(text.drop_last());
        let c = text.last();
        if prev.len() == 0 || prev.last().last() == '\n' {
            prev.push(seq![c])
        } else {
            prev.drop_last().push(prev.last().push(c))
        }
    }
}

/// A piece of text as a line: without its line feed, and without a carriage return directly
/// before that line feed.
pub open spec fn line_of(piece: Seq<char>) -> Seq<char> {
    if piece.len() > 0 && piece.last() == '\n' {
        let a = piece.drop_last();
        if a.len() > 0 && a.last() == '\r' {
            a.drop_last()
        } else {
            a
        }
    } else {
        piece
    }
}

/// The lines of `text`, as `str::lines` gives them.
pub open spec fn text_lines(text: Seq<char>) -> Seq<Seq<char>> {
    split_after_newlines(text).map_values(|p: Seq<char>| line_of(p))
}

/// The number of line feeds in `s`.
pub open spec fn newline_count(s: Seq<char>) -> nat
    decreases s.len(),
{
    if s.len() == 0 {
        0
    } else {
        newline_count(s.drop_last()) + if s.last() == '\n' {
            1nat
        } else {
            0nat
        }
    }
}

/// Cutting text after its line feeds gives one piece per line feed, plus one for text after the
/// last line feed; every piece is non-empty, holds no line feed but possibly its last character,
/// and every piece but the last ends with one.
pub proof fn lemma_pieces(text: Seq<char>)
    ensures
        split_after_newlines(text).len() == newline_count(text) + if text.len() > 0 && text.last()
            != '\n' {
            1nat
        } else {
            0nat
        },
        forall|i: int| 0 <= i < split_after_newlines(text).len() ==> (#[trigger] split_after_newlines(text)[i]).len() > 0,
        forall|i: int, j: int|
            0 <= i < split_after_newlines(text).len() && 0 <= j < split_after_newlines(text)[i].len()
                - 1 ==> #[trigger] split_after_newlines(text)[i][j] != '\n',
        forall|i: int|
            0 <= i < split_after_newlines(text).len() - 1 ==> (#[trigger] split_after_newlines(text)[i]).last()
                == '\n',
        split_after_newlines(text).len() > 0 ==> split_after_newlines(text).last().last() == text.last(),
    decreases text.len(),
{
    if text.len() > 0 {
        let d = text.drop_last();
        lemma_pieces(d);
        let prev = split_after_newlines(d);
        let c = text.last();
        let r = split_after_newlines(text);
        if prev.len() == 0 || prev.last().last() == '\n' {
            assert(r == prev.push(seq![c]));
            assert forall|i: int, j: int| 0 <= i < r.len() && 0 <= j < r[i].len() - 1 implies #[trigger] r[i][j] != '\n' by {
                if i < prev.len() {
                    assert(r[i] == prev[i]);
                }
            }
            assert forall|i: int| 0 <= i < r.len() - 1 implies (#[trigger] r[i]).last() == '\n' by {
                assert(r[i] == prev[i]);
            }
        } else {
            let np = prev.last().push(c);
            assert(r == prev.drop_last().push(np));
            assert forall|i: int| 0 <= i < r.len() implies (#[trigger] r[i]).len() > 0 by {
                if i < prev.len() - 1 {
                    assert(r[i] == prev[i]);
                }
            }
            assert forall|i: int, j: int| 0 <= i < r.len() && 0 <= j < r[i].len() - 1 implies #[trigger] r[i][j] != '\n' by {
                if i < prev.len() - 1 {
                    assert(r[i] == prev[i]);
                } else {
                    assert(r[i] == np);
                    assert(np[j] == prev.last()[j]);
                    assert(prev[prev.len() - 1] == prev.last());
                    if j < prev.last().len() - 1 {
                        assert(prev[prev.len() - 1][j] != '\n');
                    }
                }
            }
            assert forall|i: int| 0 <= i < r.len() - 1 implies (#[trigger] r[i]).last() == '\n' by {
                assert(r[i] == prev[i]);
            }
        }
    }
}

/// The lines of a text hold no line feed, and there is one line per line feed, plus one for text
/// after the last line feed.
pub proof fn lemma_text_lines(text: Seq<char>)
    ensures
        text_lines(text).len() == newline_count(text) + if text.len() > 0 && text.last() != '\n' {
            1nat
        } else {
            0nat
        },
        forall|i: int, j: int|
            0 <= i < text_lines(text).len() && 0 <= j < text_lines(text)[i].len() ==> #[trigger] text_lines(text)[i][j] != '\n',
{
    lemma_pieces(text);
    let pieces = split_after_newlines(text);
    assert forall|i: int, j: int|
        0 <= i < text_lines(text).len() && 0 <= j < text_lines(text)[i].len() implies #[trigger] text_lines(text)[i][j] != '\n' by {
        let p = pieces[i];
        assert(text_lines(text)[i] == line_of(p));
        if p.len() > 0 && p.last() == '\n' {
            let a = p.drop_last();
            assert(a[j] == p[j]);
        } else {
            if j < p.len() - 1 {
                assert(p[j] != '\n');
            } else {
                assert(p[j] == p.last());
            }
        }
    }
}

/// The index of the first `c` in `s`, or the length of `s` if there is none.
pub open spec fn first_pos(s: Seq<char>, c: char) -> nat
    decreases s.len(),
{
    if s.len() == 0 {
        0
    } else if s[0] == c {
        0
    } else {
        1 + first_pos(s.drop_first(), c)
    }
}

/// The number of white-space characters at the start of `s`.
pub open spec fn leading_ws(s: Seq<char>) -> nat
    decreases s.len(),
{
    if s.len() == 0 {
        0
    } else if is_white_space(s[0]) {
        1 + leading_ws(s.drop_first())
    } else {
        0
    }
}

/// The number of white-space characters at the end of `s`.
pub open spec fn trailing_ws(s: Seq<char>) -> nat
    decreases s.len(),
{
    if s.len() == 0 {
        0
    } else if is_white_space(s.last()) {
        1 + trailing_ws(s.drop_last())
    } else {
        0
    }
}

/// `s` without white space at either end.
pub open spec fn trim(s: Seq<char>) -> Seq<char> {
    let rest = s.skip(leading_ws(s) as int);
    rest.take(rest.len() - trailing_ws(rest))
}

/// Trimming removes white space at both ends and nothing else: the trimmed text is a contiguous
/// piece of `s`, everything of `s` before and after it is white space, and the piece neither
/// starts nor ends with white space.
pub proof fn lemma_trim_strips_ends(s: Seq<char>)
    ensures
        exists|a: int, b: int|
            {
                &&& 0 <= a <= b <= s.len()
                &&& trim(s) == s.subrange(a, b)
                &&& forall|j: int|
                    (0 <= j < a || b <= j < s.len()) ==> is_white_space(#[trigger] s[j])
                &&& a < b ==> !is_white_space(s[a]) && !is_white_space(s[b - 1])
            },
{
    lemma_leading_props(s);
    let a = leading_ws(s) as int;
    let rest = s.skip(a);
    lemma_trailing_props(rest);
    let b = a + rest.len() - trailing_ws(rest);
    assert(trim(s) =~= s.subrange(a, b));
    assert forall|j: int| (0 <= j < a || b <= j < s.len()) implies is_white_space(
        #[trigger] s[j],
    ) by {
        if b <= j {
            assert(rest[j - a] == s[j]);
        }
    }
    if a < b {
        assert(rest[0] == s[a]);
        assert(rest[b - 1 - a] == s[b - 1]);
    }
}

proof fn lemma_leading_props(s: Seq<char>)
    ensures
        leading_ws(s) <= s.len(),
        forall|j: int| 0 <= j < leading_ws(s) ==> is_white_space(#[trigger] s[j]),
        leading_ws(s) < s.len() ==> !is_white_space(s[leading_ws(s) as int]),
    decreases s.len(),
{
    if s.len() > 0 && is_white_space(s[0]) {
        let t = s.drop_first();
        lemma_leading_props(t);
        assert forall|j: int| 0 <= j < leading_ws(s) implies is_white_space(#[trigger] s[j]) by {
            if j > 0 {
                assert(s[j] == t[j - 1]);
            }
        }
        if leading_ws(s) < s.len() {
            assert(s[leading_ws(s) as int] == t[leading_ws(t) as int]);
        }
    }
}

proof fn lemma_trailing_props(s: Seq<char>)
    ensures
        trailing_ws(s) <= s.len(),
        forall|j: int| s.len() - trailing_ws(s) <= j < s.len() ==> is_white_space(#[trigger] s[j]),
        trailing_ws(s) < s.len() ==> !is_white_space(s[s.len() - trailing_ws(s) - 1]),
    decreases s.len(),
{
    if s.len() > 0 && is_white_space(s.last()) {
        let t = s.drop_last();
        lemma_trailing_props(t);
        assert forall|j: int| s.len() - trailing_ws(s) <= j < s.len() implies is_white_space(
            #[trigger] s[j],
        ) by {
            if j < s.len() - 1 {
                assert(s[j] == t[j]);
            }
        }
        if trailing_ws(s) < s.len() {
            assert(s[s.len() - trailing_ws(s) - 1] == t[t.len() - trailing_ws(t) - 1]);
        }
    }
}

/// What one line of a wear file says, if anything: comments run from `#` to the end of the line,
/// blank lines say nothing, and every other line must read `key = value`, split at the first
/// `=`, with white space around key and value ignored. `Some(None)` is a line without `=`.
pub open spec fn wear_line(line: Seq<char>) -> Option<Option<(Seq<char>, Seq<char>)>> {
    let l = trim(line.take(first_pos(line, '#') as int));
    if l.len() == 0 {
        None
    } else if first_pos(l, '=') == l.len() {
        Some(None)
    } else {
        let p = first_pos(l, '=') as int;
        Some(Some((trim(l.take(p)), trim(l.skip(p + 1)))))
    }
}

/// What each non-blank line of `lines` says, with its line number (counting from 1).
pub open spec fn wear_lines(lines: Seq<Seq<char>>) -> Seq<(nat, Option<(Seq<char>, Seq<char>)>)>
    decreases lines.len(),
{
    if lines.len() == 0 {
        Seq::empty()
    } else {
        let prev = wear_lines(lines.drop_last());
        match wear_line(lines.last()) {
            None => prev,
            Some(r) => prev.push((lines.len() as nat, r)),
        }
    }
}

/// One non-blank line of a wear file, with its line number (counting from 1).
pub enum WearLine {
    /// A `key = value` line; the value text is not yet read as a number.
    Entry { line: usize, key: Vec<char>, value: Vec<char> },
    /// A line that is neither blank nor `key = value`.
    Malformed { line: usize },
}

impl WearLine {
    /// The line as its line number and, for an entry, its key and value text.
    pub open spec fn view_line(&self) -> (nat, Option<(Seq<char>, Seq<char>)>) {
        match self {
            WearLine::Entry { line, key, value } => (*line as nat, Some((key@, value@))),
            WearLine::Malformed { line } => (*line as nat, None),
        }
    }
}

/// Whether `c` is white space in the sense of `str::trim`.
pub fn is_whitespace(c: char) -> (r: bool)
    ensures
        r == is_white_space(c),
{
    let u = c as u32;
    (0x09 <= u && u <= 0x0D) || u == 0x20 || u == 0x85 || u == 0xA0 || u == 0x1680 || (0x2000 <= u
        && u <= 0x200A) || u == 0x2028 || u == 0x2029 || u == 0x202F || u == 0x205F || u == 0x3000
}

fn copy_range(v: &Vec<char>, a: usize, b: usize) -> (r: Vec<char>)
    requires
        a <= b <= v@.len(),
    ensures
        r@ == v@.subrange(a as int, b as int),
{
    let mut r: Vec<char> = Vec::new();
    let mut i = a;
    while i < b
        invariant
            a <= i <= b,
            b <= v@.len(),
            r@ == v@.subrange(a as int, i as int),
        decreases b - i,
    {
        r.push(v[i]);
        proof {
            assert(v@.subrange(a as int, i + 1) =~= v@.subrange(a as int, i as int).push(
                v@[i as int],
            ));
        }
        i = i + 1;
    }
    r
}

/// `first_pos` finds the first occurrence: no `c` comes before it, and `c` is there unless the
/// position is the end of `s`.
pub proof fn lemma_first_pos_finds(s: Seq<char>, c: char)
    ensures
        first_pos(s, c) <= s.len(),
        forall|j: int| 0 <= j < first_pos(s, c) ==> #[trigger] s[j] != c,
        first_pos(s, c) < s.len() ==> s[first_pos(s, c) as int] == c,
    decreases s.len(),
{
    if s.len() > 0 && s[0] != c {
        let t = s.drop_first();
        lemma_first_pos_finds(t, c);
        assert forall|j: int| 0 <= j < first_pos(s, c) implies #[trigger] s[j] != c by {
            if j > 0 {
                assert(s[j] == t[j - 1]);
            }
        }
        if first_pos(s, c) < s.len() {
            assert(s[first_pos(s, c) as int] == t[first_pos(t, c) as int]);
        }
    }
}

proof fn lemma_trim_within(s: Seq<char>, x: char)
    ensures
        trim(s).contains(x) ==> s.contains(x),
{
    lemma_trim_strips_ends(s);
    if trim(s).contains(x) {
        let (a, b) = choose|a: int, b: int|
            {
                &&& 0 <= a <= b <= s.len()
                &&& trim(s) == s.subrange(a, b)
                &&& forall|j: int|
                    (0 <= j < a || b <= j < s.len()) ==> is_white_space(#[trigger] s[j])
                &&& a < b ==> !is_white_space(s[a]) && !is_white_space(s[b - 1])
            };
        let j = choose|j: int| 0 <= j < trim(s).len() && trim(s)[j] == x;
        assert(s[a + j] == x);
    }
}

/// A wear-file line is read as `key = value` with its comment cut off and split at the first `=`:
/// neither key nor value holds a `#`, and the key holds no `=`; both are trimmed of white space.
pub proof fn lemma_wear_line_parts(line: Seq<char>)
    ensures
        wear_line(line) matches Some(Some((k, v))) ==> !k.contains('#') && !v.contains('#'),
        wear_line(line) matches Some(Some((k, v))) ==> !k.contains('='),
        wear_line(line) matches Some(Some((k, v))) ==> k == trim(k) && v == trim(v),
{
    let c = line.take(first_pos(line, '#') as int);
    lemma_first_pos_finds(line, '#');
    let l = trim(c);
    lemma_trim_within(c, '#');
    assert(!c.contains('#')) by {
        if c.contains('#') {
            let j = choose|j: int| 0 <= j < c.len() && c[j] == '#';
            assert(line[j] == c[j]);
        }
    }
    lemma_first_pos_finds(l, '=');
    if l.len() > 0 && first_pos(l, '=') < l.len() {
        let p = first_pos(l, '=') as int;
        assert(!l.take(p).contains('#') && !l.take(p).contains('=')) by {
            if l.take(p).contains('#') || l.take(p).contains('=') {
                let j = choose|j: int| 0 <= j < p && (l.take(p)[j] == '#' || l.take(p)[j] == '=');
                assert(l[j] == l.take(p)[j]);
            }
        }
        assert(!l.skip(p + 1).contains('#')) by {
            if l.skip(p + 1).contains('#') {
                let j = choose|j: int| 0 <= j < l.len() - p - 1 && #[trigger] l.skip(p + 1)[j] == '#';
                assert(l[p + 1 + j] == '#');
            }
        }
        lemma_trim_within(l.take(p), '#');
        lemma_trim_within(l.take(p), '=');
        lemma_trim_within(l.skip(p + 1), '#');
        lemma_trim_idempotent(l.take(p));
        lemma_trim_idempotent(l.skip(p + 1));
    }
}

proof fn lemma_trim_idempotent(s: Seq<char>)
    ensures
        trim(trim(s)) == trim(s),
{
    lemma_trim_strips_ends(s);
    let t = trim(s);
    if t.len() == 0 {
        assert(t.skip(0) =~= t);
    } else {
        lemma_leading_ws(t, 0);
        assert(t.skip(0) =~= t);
        lemma_trailing_ws(t, 0);
        assert(t.take(t.len() as int) =~= t);
    }
}

proof fn lemma_first_pos(s: Seq<char>, c: char, i: int)
    requires
        0 <= i <= s.len(),
        forall|j: int| 0 <= j < i ==> s[j] != c,
        i == s.len() || s[i] == c,
    ensures
        first_pos(s, c) == i,
    decreases i,
{
    if i > 0 {
        lemma_first_pos(s.drop_first(), c, i - 1);
    }
}

fn find_char(v: &Vec<char>, c: char) -> (p: usize)
    ensures
        p == first_pos(v@, c),
        p <= v@.len(),
{
    let n = v.len();
    let mut i: usize = 0;
    while i < n && v[i] != c
        invariant
            n == v@.len(),
            i <= n,
            forall|j: int| 0 <= j < i ==> v@[j] != c,
        decreases n - i,
    {
        i = i + 1;
    }
    proof {
        lemma_first_pos(v@, c, i as int);
    }
    i
}

proof fn lemma_leading_ws(s: Seq<char>, i: int)
    requires
        0 <= i <= s.len(),
        forall|j: int| 0 <= j < i ==> is_white_space(#[trigger] s[j]),
        i == s.len() || !is_white_space(s[i]),
    ensures
        leading_ws(s) == i,
    decreases i,
{
    if i > 0 {
        lemma_leading_ws(s.drop_first(), i - 1);
    }
}

proof fn lemma_trailing_ws(s: Seq<char>, k: int)
    requires
        0 <= k <= s.len(),
        forall|j: int| s.len() - k <= j < s.len() ==> is_white_space(#[trigger] s[j]),
        k == s.len() || !is_white_space(s[s.len() - k - 1]),
    ensures
        trailing_ws(s) == k,
    decreases k,
{
    if k > 0 {
        lemma_trailing_ws(s.drop_last(), k - 1);
    }
}

/// `v` without white space at either end.
fn trim_chars(v: &Vec<char>) -> (r: Vec<char>)
    ensures
        r@ == trim(v@),
{
    let n = v.len();
    let mut a: usize = 0;
    while a < n && is_whitespace(v[a])
        invariant
            n == v@.len(),
            a <= n,
            forall|j: int| 0 <= j < a ==> is_white_space(#[trigger] v@[j]),
        decreases n - a,
    {
        a = a + 1;
    }
    proof {
        lemma_leading_ws(v@, a as int);
    }
    let mut b: usize = n;
    while b > a && is_whitespace(v[b - 1])
        invariant
            n == v@.len(),
            a <= b <= n,
            forall|j: int| b <= j < n ==> is_white_space(#[trigger] v@[j]),
        decreases b,
    {
        b = b - 1;
    }
    proof {
        let rest = v@.skip(a as int);
        assert forall|j: int| rest.len() - (n - b) <= j < rest.len() implies is_white_space(
            #[trigger] rest[j],
        ) by {
            assert(rest[j] == v@[a + j]);
        }
        if n - b < rest.len() {
            assert(rest[rest.len() - (n - b) - 1] == v@[b - 1]);
        }
        lemma_trailing_ws(rest, (n - b) as int);
        assert(rest.take(rest.len() - (n - b)) =~= v@.subrange(a as int, b as int));
    }
    copy_range(v, a, b)
}

/// Reads one line of a wear file: `None` for a blank or comment-only line.
pub fn parse_wear_line(line: &Vec<char>, number: usize) -> (r: Option<WearLine>)
    ensures
        wear_line(line@) is None <==> r is None,
        r matches Some(w) ==> w.view_line() == (number as nat, wear_line(line@)->0),
{
    let h = find_char(line, '#');
    let cut = copy_range(line, 0, h);
    assert(cut@ =~= line@.take(first_pos(line@, '#') as int));
    let l = trim_chars(&cut);
    if l.len() == 0 {
        return None;
    }
    let p = find_char(&l, '=');
    if p == l.len() {
        return Some(WearLine::Malformed { line: number });
    }
    let k = copy_range(&l, 0, p);
    let v = copy_range(&l, p + 1, l.len());
    assert(k@ =~= l@.take(p as int));
    assert(v@ =~= l@.skip(p + 1));
    let key = trim_chars(&k);
    let value = trim_chars(&v);
    Some(WearLine::Entry { line: number, key, value })
}

/// The pieces of `text`, each ending in its line feed but the last.
fn split_text(text: &Vec<char>) -> (pieces: Vec<Vec<char>>)
    ensures
        pieces@.map_values(|p: Vec<char>| p@) == split_after_newlines(text@),
{
    let mut done: Vec<Vec<char>> = Vec::new();
    let mut cur: Vec<char> = Vec::new();
    let n = text.len();
    let mut i: usize = 0;
    while i < n
        invariant
            n == text@.len(),
            i <= n,
            forall|k: int| 0 <= k < done@.len() ==> #[trigger] done@[k]@.len() > 0 && done@[k]@.last() == '\n',
            cur@.len() > 0 ==> cur@.last() != '\n',
            split_after_newlines(text@.take(i as int)) == (if cur@.len() == 0 {
                done@.map_values(|p: Vec<char>| p@)
            } else {
                done@.map_values(|p: Vec<char>| p@).push(cur@)
            }),
        decreases n - i,
    {
        let c = text[i];
        let ghost d0 = done@.map_values(|p: Vec<char>| p@);
        let ghost c0 = cur@;
        proof {
            assert(text@.take(i + 1).drop_last() =~= text@.take(i as int));
            assert(text@.take(i + 1).last() == c);
            if c0.len() == 0 && d0.len() > 0 {
                assert(d0.last() == done@[done@.len() - 1]@);
            }
        }
        cur.push(c);
        proof {
            if c0.len() == 0 {
                assert(cur@ =~= seq![c]);
            } else {
                let pv = d0.push(c0);
                assert(pv.drop_last() =~= d0);
                assert(pv.last() == c0);
            }
        }
        if c == '\n' {
            let mut full: Vec<char> = Vec::new();
            std::mem::swap(&mut full, &mut cur);
            done.push(full);
            proof {
                assert(done@.map_values(|p: Vec<char>| p@) =~= d0.push(c0.push(c)));
            }
        }
        i = i + 1;
    }
    assert(text@.take(n as int) =~= text@);
    if cur.len() > 0 {
        let ghost d0 = done@.map_values(|p: Vec<char>| p@);
        done.push(cur);
        assert(done@.map_values(|p: Vec<char>| p@) =~= d0.push(done@.last()@));
    }
    done
}

/// A piece of text as a line, as `line_of` describes.
fn piece_line(piece: &Vec<char>) -> (l: Vec<char>)
    ensures
        l@ == line_of(piece@),
{
    let n = piece.len();
    if n > 0 && piece[n - 1] == '\n' {
        if n > 1 && piece[n - 2] == '\r' {
            copy_range(piece, 0, n - 2)
        } else {
            copy_range(piece, 0, n - 1)
        }
    } else {
        copy_range(piece, 0, n)
    }
}

/// Reads the text of a wear file into its non-blank lines, in file order, each with its line
/// number (counting from 1): `key = value` entries, and the lines that are neither.
pub fn parse_wear(text: &Vec<char>) -> (r: Vec<WearLine>)
    ensures
        r@.map_values(|w: WearLine| w.view_line()) == wear_lines(text_lines(text@)),
{
    let pieces = split_text(text);
    let ghost lines = text_lines(text@);
    let mut out: Vec<WearLine> = Vec::new();
    let n = pieces.len();
    let mut i: usize = 0;
    while i < n
        invariant
            n == pieces@.len(),
            i <= n,
            lines == split_after_newlines(text@).map_values(|p: Seq<char>| line_of(p)),
            pieces@.map_values(|p: Vec<char>| p@) == split_after_newlines(text@),
            out@.map_values(|w: WearLine| w.view_line()) == wear_lines(lines.take(i as int)),
        decreases n - i,
    {
        let line = piece_line(&pieces[i]);
        proof {
            assert(pieces@.map_values(|p: Vec<char>| p@)[i as int] == pieces@[i as int]@);
            assert(line@ == lines[i as int]);
            assert(lines.take(i + 1).drop_last() =~= lines.take(i as int));
            assert(lines.take(i + 1).last() == lines[i as int]);
        }
        let ghost before = out@.map_values(|w: WearLine| w.view_line());
        match parse_wear_line(&line, i + 1) {
            None => {},
            Some(w) => {
                out.push(w);
                proof {
                    assert(out@.map_values(|w: WearLine| w.view_line()) =~= before.push(
                        out@.last().view_line(),
                    ));
                }
            },
        }
        i = i + 1;
    }
    proof {
        assert(lines.len() == n);
        assert(lines.take(n as int) =~= lines);
    }
    out
}

} // verus!
