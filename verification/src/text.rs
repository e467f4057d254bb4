//! Character-level text handling: the line structure of a chart file, comment removal and
//! whitespace trimming, and conversions between `str`, `String` and character vectors.
use vstd::prelude::*;

verus! {

broadcast use vstd::string::group_string_axioms;

// ---------------------------------------------------------------------------------------------
// Conversions
// ---------------------------------------------------------------------------------------------

/// The characters of a string slice, in order.
pub fn str_chars(s: &str) -> (v: Vec<char>)
    ensures
        v@ == s@,
{
    let mut v: Vec<char> = Vec::new();
    let chars_it = s.chars();
    for c in it: chars_it
        invariant
            v@ == it.seq().take(it.index() as int),
            it.seq() == s@,
    {
        v.push(c);
    }
    v
}

/// `String::push`: appends one character to the end of the string.
#[verifier::external_body]
fn string_push(s: &mut String, c: char)
    ensures
        final(s)@ == old(s)@.push(c),
{
    s.push(c);
}

/// Builds a `String` holding the characters `v[lo..hi]`.
pub fn range_to_string(v: &Vec<char>, lo: usize, hi: usize) -> (s: String)
    requires
        lo <= hi <= v.len(),
    ensures
        s@ == v@.subrange(lo as int, hi as int),
{
    let mut s = String::new();
    let mut i = lo;
    while i < hi
        invariant
            lo <= i <= hi <= v.len(),
            s@ == v@.subrange(lo as int, i as int),
        decreases hi - i,
    {
        string_push(&mut s, v[i]);
        assert(s@ =~= v@.subrange(lo as int, i + 1));
        i = i + 1;
    }
    s
}

/// Builds a `String` holding all the characters of `v`.
pub fn chars_to_string(v: &Vec<char>) -> (s: String)
    ensures
        s@ == v@,
{
    let s = range_to_string(v, 0, v.len());
    assert(v@.subrange(0, v.len() as int) =~= v@);
    s
}

/// Copies `v[lo..hi]` into a new vector.
pub fn copy_range(v: &Vec<char>, lo: usize, hi: usize) -> (r: Vec<char>)
    requires
        lo <= hi <= v.len(),
    ensures
        r@ == v@.subrange(lo as int, hi as int),
{
    let mut r: Vec<char> = Vec::new();
    let mut i = lo;
    while i < hi
        invariant
            lo <= i <= hi <= v.len(),
            r@ == v@.subrange(lo as int, i as int),
        decreases hi - i,
    {
        r.push(v[i]);
        assert(r@ =~= v@.subrange(lo as int, i + 1));
        i = i + 1;
    }
    r
}

/// Whether `v[lo..hi]` spells out exactly the string `lit`.
pub fn range_eq_str(v: &Vec<char>, lo: usize, hi: usize, lit: &str) -> (b: bool)
    requires
        lo <= hi <= v.len(),
    ensures
        b == (v@.subrange(lo as int, hi as int) == lit@),
{
    let n = lit.unicode_len();
    if hi - lo != n {
        return false;
    }
    let mut i: usize = 0;
    while i < n
        invariant
            lo <= hi <= v.len(),
            hi - lo == n,
            n == lit@.len(),
            i <= n,
            forall|j: int| 0 <= j < i ==> v@[lo + j] == lit@[j],
        decreases n - i,
    {
        if v[lo + i] != lit.get_char(i) {
            assert(v@.subrange(lo as int, hi as int)[i as int] != lit@[i as int]);
            return false;
        }
        i = i + 1;
    }
    assert(v@.subrange(lo as int, hi as int) =~= lit@);
    true
}

/// Whether the vector `v` spells out exactly the string `lit`.
pub fn chars_eq_str(v: &Vec<char>, lit: &str) -> (b: bool)
    ensures
        b == (v@ == lit@),
{
    assert(v@.subrange(0, v.len() as int) =~= v@);
    range_eq_str(v, 0, v.len(), lit)
}

/// Whether `v[lo..]` begins with the string `lit`.
pub fn starts_with_str(v: &Vec<char>, lo: usize, lit: &str) -> (b: bool)
    requires
        lo <= v.len(),
    ensures
        b == (lo + lit@.len() <= v.len() && v@.subrange(lo as int, lo + lit@.len()) == lit@),
{
    let n = lit.unicode_len();
    if n > v.len() - lo {
        return false;
    }
    range_eq_str(v, lo, lo + n, lit)
}

// ---------------------------------------------------------------------------------------------
// Whitespace and trimming
// ---------------------------------------------------------------------------------------------

/// `char::is_whitespace`: the characters with the Unicode `White_Space` property.
pub open spec fn is_whitespace(c: char) -> bool {
    let u = c as u32;
    ||| 0x09 <= u <= 0x0D
    ||| u == 0x20
    ||| u == 0x85
    ||| u == 0xA0
    ||| u == 0x1680
    ||| 0x2000 <= u <= 0x200A
    ||| u == 0x2028
    ||| u == 0x2029
    ||| u == 0x202F
    ||| u == 0x205F
    ||| u == 0x3000
}

/// Whether `c` is a Unicode whitespace character.
pub fn char_is_whitespace(c: char) -> (b: bool)
    ensures
        b == is_whitespace(c),
{
    let u = c as u32;
    (0x09 <= u && u <= 0x0D) || u == 0x20 || u == 0x85 || u == 0xA0 || u == 0x1680 || (0x2000
        <= u && u <= 0x200A) || u == 0x2028 || u == 0x2029 || u == 0x202F || u == 0x205F || u
        == 0x3000
}

/// The number of whitespace characters at the start of `s`.
pub open spec fn ws_prefix_len(s: Seq<char>) -> nat
    decreases s.len(),
{
    if s.len() > 0 && is_whitespace(s[0]) {
        1 + ws_prefix_len(s.drop_first())
    } else {
        0
    }
}

/// The number of whitespace characters at the end of `s`.
pub open spec fn ws_suffix_len(s: Seq<char>) -> nat
    decreases s.len(),
{
    if s.len() > 0 && is_whitespace(s.last()) {
        1 + ws_suffix_len(s.drop_last())
    } else {
        0
    }
}

/// `str::trim`: `s` without its leading and trailing whitespace.
pub open spec fn trim(s: Seq<char>) -> Seq<char> {
    let t = s.skip(ws_prefix_len(s) as int);
    t.take(t.len() - ws_suffix_len(t))
}

proof fn lemma_ws_prefix_len_bound(s: Seq<char>)
    ensures
        ws_prefix_len(s) <= s.len(),
    decreases s.len(),
{
    if s.len() > 0 && is_whitespace(s[0]) {
        lemma_ws_prefix_len_bound(s.drop_first());
    }
}

proof fn lemma_ws_suffix_len_bound(s: Seq<char>)
    ensures
        ws_suffix_len(s) <= s.len(),
    decreases s.len(),
{
    if s.len() > 0 && is_whitespace(s.last()) {
        lemma_ws_suffix_len_bound(s.drop_last());
    }
}

/// A copy of `s` with leading and trailing whitespace removed.
pub fn trim_chars(s: &Vec<char>) -> (r: Vec<char>)
    ensures
        r@ == trim(s@),
{
    let n = s.len();
    let mut a: usize = 0;
    assert(s@.skip(0) =~= s@);
    while a < n && char_is_whitespace(s[a])
        invariant
            a <= n == s.len(),
            ws_prefix_len(s@) == a + ws_prefix_len(s@.skip(a as int)),
        decreases n - a,
    {
        assert(s@.skip(a as int).drop_first() =~= s@.skip(a + 1));
        a = a + 1;
    }
    let ghost t = s@.skip(a as int);
    assert(ws_prefix_len(s@.skip(a as int)) == 0);
    let mut b: usize = n;
    assert(t.take(t.len() as int) =~= t);
    while b > a && char_is_whitespace(s[b - 1])
        invariant
            a <= b <= n == s.len(),
            t == s@.skip(a as int),
            ws_suffix_len(t) == (n - b) + ws_suffix_len(t.take(b - a)),
        decreases b - a,
    {
        assert(t.take(b - a).drop_last() =~= t.take(b - 1 - a));
        b = b - 1;
    }
    assert(ws_suffix_len(t.take(b - a)) == 0);
    proof {
        lemma_ws_suffix_len_bound(t);
    }
    assert(t.take(t.len() - ws_suffix_len(t)) =~= s@.subrange(a as int, b as int));
    copy_range(s, a, b)
}

// ---------------------------------------------------------------------------------------------
// Lines
// ---------------------------------------------------------------------------------------------

/// The index of the first `'\n'` at or after `i`, or the length of `s` if there is none.
pub open spec fn newline_from(s: Seq<char>, i: int) -> int
    decreases s.len() - i,
{
    if i < 0 || i >= s.len() {
        s.len() as int
    } else if s[i] == '\n' {
        i
    } else {
        newline_from(s, i + 1)
    }
}

pub proof fn lemma_newline_from_bounds(s: Seq<char>, i: int)
    requires
        0 <= i <= s.len(),
    ensures
        i <= newline_from(s, i) <= s.len(),
        newline_from(s, i) < s.len() ==> s[newline_from(s, i)] == '\n',
    decreases s.len() - i,
{
    if i < s.len() && s[i] != '\n' {
        lemma_newline_from_bounds(s, i + 1);
    }
}

/// Removes one `'\r'` from the end of a line, if it has one.
pub open spec fn strip_cr(l: Seq<char>) -> Seq<char> {
    if l.len() > 0 && l.last() == '\r' {
        l.drop_last()
    } else {
        l
    }
}

/// `str::lines`, starting from position `start`: the text is split at each `'\n'`, a `'\r'`
/// directly before a `'\n'` is dropped with it, and a final line ending is optional.
pub open spec fn lines_from(s: Seq<char>, start: int) -> Seq<Seq<char>>
    decreases s.len() - start,
{
    if start < 0 || start >= s.len() {
        seq![]
    } else {
        let e = newline_from(s, start);
        if e >= s.len() {
            seq![s.subrange(start, s.len() as int)]
        } else {
            proof {
                lemma_newline_from_bounds(s, start);
            }
            seq![strip_cr(s.subrange(start, e))] + lines_from(s, e + 1)
        }
    }
}

/// `str::lines`: the lines of `s`.
pub open spec fn lines(s: Seq<char>) -> Seq<Seq<char>> {
    lines_from(s, 0)
}

/// Removes a leading byte order mark (`U+FEFF`) from a line.
pub open spec fn strip_bom(l: Seq<char>) -> Seq<char> {
    if l.len() > 0 && l[0] == '\u{feff}' {
        l.drop_first()
    } else {
        l
    }
}

/// The index of the first `"//"` at or after `i`, or the length of `l` if there is none.
pub open spec fn comment_from(l: Seq<char>, i: int) -> int
    decreases l.len() - i,
{
    if i < 0 || i + 1 >= l.len() {
        l.len() as int
    } else if l[i] == '/' && l[i + 1] == '/' {
        i
    } else {
        comment_from(l, i + 1)
    }
}

pub(crate) proof fn lemma_comment_from_bounds(l: Seq<char>, i: int)
    requires
        0 <= i <= l.len(),
    ensures
        i <= comment_from(l, i) <= l.len(),
    decreases l.len() - i,
{
    if i + 1 < l.len() && !(l[i] == '/' && l[i + 1] == '/') {
        lemma_comment_from_bounds(l, i + 1);
    }
}

/// A line without its comment (everything from the first `"//"` on).
pub open spec fn cut_comment(l: Seq<char>) -> Seq<char> {
    l.take(comment_from(l, 0))
}

/// `t` has `"//"` at position `i`.
pub open spec fn comment_mark_at(t: Seq<char>, i: int) -> bool {
    t[i] == '/' && t[i + 1] == '/'
}

/// `t` holds no `"//"`.
pub open spec fn free_of_comments(t: Seq<char>) -> bool {
    forall|i: int| 0 <= i && i + 1 < t.len() ==> !#[trigger] comment_mark_at(t, i)
}

proof fn lemma_before_first_comment(l: Seq<char>, j: int, i: int)
    requires
        0 <= j <= i,
        i + 1 < comment_from(l, j),
    ensures
        !comment_mark_at(l, i),
    decreases i - j,
{
    if j + 1 < l.len() && !(l[j] == '/' && l[j + 1] == '/') && i > j {
        lemma_before_first_comment(l, j + 1, i);
    }
}

/// What is left of a line before its first `"//"` holds no `"//"`.
pub proof fn lemma_cut_comment_free(l: Seq<char>)
    ensures
        free_of_comments(cut_comment(l)),
{
    lemma_comment_from_bounds(l, 0);
    let t = cut_comment(l);
    assert forall|i: int| 0 <= i && i + 1 < t.len() implies !#[trigger] comment_mark_at(t, i) by {
        lemma_before_first_comment(l, 0, i);
        assert(t[i] == l[i] && t[i + 1] == l[i + 1]);
    }
}

proof fn lemma_subrange_free(t: Seq<char>, a: int, b: int)
    requires
        free_of_comments(t),
        0 <= a <= b <= t.len(),
    ensures
        free_of_comments(t.subrange(a, b)),
{
    let u = t.subrange(a, b);
    assert forall|i: int| 0 <= i && i + 1 < u.len() implies !#[trigger] comment_mark_at(u, i) by {
        assert(u[i] == t[a + i] && u[i + 1] == t[a + i + 1]);
        assert(!comment_mark_at(t, a + i));
    }
}

/// A line as the chart parser reads it: without a byte order mark, without its comment, and
/// trimmed.
pub open spec fn clean_line(l: Seq<char>) -> Seq<char> {
    trim(cut_comment(strip_bom(l)))
}

/// The non-empty cleaned lines of `ls`, each paired with its line number, the first line of
/// `ls` being number `first`.
pub open spec fn number_lines(ls: Seq<Seq<char>>, first: nat) -> Seq<(nat, Seq<char>)>
    decreases ls.len(),
{
    if ls.len() == 0 {
        seq![]
    } else {
        let c = clean_line(ls[0]);
        let rest = number_lines(ls.drop_first(), first + 1);
        if c.len() == 0 {
            rest
        } else {
            seq![(first, c)] + rest
        }
    }
}

/// The lines of a chart file that carry content, with their (zero based) line numbers.
pub open spec fn preprocess(s: Seq<char>) -> Seq<(nat, Seq<char>)> {
    number_lines(lines(s), 0)
}

proof fn lemma_clean_line_free(l: Seq<char>)
    ensures
        free_of_comments(clean_line(l)),
{
    let c = cut_comment(strip_bom(l));
    lemma_cut_comment_free(strip_bom(l));
    lemma_ws_prefix_len_bound(c);
    let p = ws_prefix_len(c) as int;
    let t = c.skip(p);
    lemma_ws_suffix_len_bound(t);
    assert(t == c.subrange(p, c.len() as int));
    lemma_subrange_free(c, p, c.len() as int);
    let q = t.len() - ws_suffix_len(t);
    assert(trim(c) == t.subrange(0, q));
    lemma_subrange_free(t, 0, q);
}

proof fn lemma_number_lines_free(ls: Seq<Seq<char>>, first: nat)
    ensures
        forall|k: int|
            0 <= k < number_lines(ls, first).len() ==> free_of_comments(
                #[trigger] number_lines(ls, first)[k].1,
            ),
    decreases ls.len(),
{
    if ls.len() > 0 {
        lemma_number_lines_free(ls.drop_first(), first + 1);
        lemma_clean_line_free(ls[0]);
        let c = clean_line(ls[0]);
        let rest = number_lines(ls.drop_first(), first + 1);
        if c.len() > 0 {
            let all = number_lines(ls, first);
            assert(all == seq![(first, c)] + rest);
            assert forall|k: int| 0 <= k < all.len() implies free_of_comments(#[trigger] all[k].1) by {
                if k > 0 {
                    assert(all[k] == rest[k - 1]);
                }
            }
        }
    }
}

/// The lines a chart file is read as carry no comment: none of them holds a `"//"`.
pub proof fn lemma_preprocessed_lines_free(s: Seq<char>)
    ensures
        forall|k: int|
            0 <= k < preprocess(s).len() ==> free_of_comments(#[trigger] preprocess(s)[k].1),
{
    lemma_number_lines_free(lines(s), 0);
}

proof fn lemma_number_lines_below(ls: Seq<Seq<char>>, first: nat)
    ensures
        forall|k: int|
            0 <= k < number_lines(ls, first).len() ==> #[trigger] number_lines(ls, first)[k].0
                < first + ls.len(),
    decreases ls.len(),
{
    if ls.len() > 0 {
        lemma_number_lines_below(ls.drop_first(), first + 1);
        let c = clean_line(ls[0]);
        let rest = number_lines(ls.drop_first(), first + 1);
        if c.len() > 0 {
            let all = number_lines(ls, first);
            assert(all == seq![(first, c)] + rest);
            assert forall|k: int| 0 <= k < all.len() implies #[trigger] all[k].0 < first
                + ls.len() by {
                if k > 0 {
                    assert(all[k] == rest[k - 1]);
                }
            }
        }
    }
}

/// Every line read from a chart file is numbered by its place among the lines of the file.
pub proof fn lemma_preprocess_numbers(s: Seq<char>)
    ensures
        forall|k: int| 0 <= k < preprocess(s).len() ==> #[trigger] preprocess(s)[k].0 < lines(s).len(),
{
    lemma_number_lines_below(lines(s), 0);
}

proof fn lemma_ws_prefix_push_space(m: Seq<char>)
    ensures
        ws_prefix_len(m.push(' ')) == if ws_prefix_len(m) == m.len() {
            m.len() + 1int
        } else {
            ws_prefix_len(m) as int
        },
    decreases m.len(),
{
    lemma_ws_prefix_len_bound(m);
    assert(is_whitespace(' '));
    if m.len() == 0 {
        assert(m.push(' ').drop_first() =~= Seq::<char>::empty());
        assert(ws_prefix_len(Seq::<char>::empty()) == 0);
    } else {
        assert(m.push(' ')[0] == m[0]);
        assert(m.push(' ').drop_first() =~= m.drop_first().push(' '));
        if is_whitespace(m[0]) {
            lemma_ws_prefix_push_space(m.drop_first());
        }
    }
}

/// A space at the end of a text does not change the text once trimmed.
proof fn lemma_trim_push_space(m: Seq<char>)
    ensures
        trim(m.push(' ')) == trim(m),
{
    lemma_ws_prefix_push_space(m);
    lemma_ws_prefix_len_bound(m);
    let p = ws_prefix_len(m) as int;
    if p == m.len() {
        assert(m.skip(p) =~= Seq::<char>::empty());
        assert(m.push(' ').skip(p + 1) =~= Seq::<char>::empty());
    } else {
        let t = m.skip(p);
        assert(m.push(' ').skip(p) =~= t.push(' '));
        assert(t.push(' ').drop_last() =~= t);
        lemma_ws_suffix_len_bound(t);
        assert(t.push(' ').take(t.len() - ws_suffix_len(t)) =~= t.take(t.len() - ws_suffix_len(t)));
    }
}

/// A line with a comment added at its end: a space, `//` and any text.
pub open spec fn with_comment(l: Seq<char>, text: Seq<char>) -> Seq<char> {
    l + seq![' ', '/', '/'] + text
}

proof fn lemma_comment_from_with_comment(m: Seq<char>, text: Seq<char>, j: int)
    requires
        0 <= j <= m.len(),
    ensures
        comment_from(with_comment(m, text), j) == if comment_from(m, j) < m.len() {
            comment_from(m, j)
        } else {
            m.len() + 1int
        },
    decreases m.len() + 1 - j,
{
    let w = with_comment(m, text);
    assert(w[m.len() as int] == ' ');
    assert(w[m.len() + 1int] == '/');
    assert(w[m.len() + 2int] == '/');
    if j < m.len() {
        assert(w[j] == m[j]);
        if j + 1 < m.len() {
            assert(w[j + 1] == m[j + 1]);
        }
        lemma_comment_from_with_comment(m, text, j + 1);
    } else {
        assert(comment_from(w, j + 1) == m.len() + 1);
    }
}

/// A comment added at the end of a line is ignored: the line reads as it did without it.
pub proof fn lemma_comment_ignored(l: Seq<char>, text: Seq<char>)
    ensures
        clean_line(with_comment(l, text)) == clean_line(l),
{
    let m = strip_bom(l);
    let x = seq![' ', '/', '/'] + text;
    assert(strip_bom(with_comment(l, text)) =~= with_comment(m, text)) by {
        if l.len() == 0 {
            assert(with_comment(l, text)[0] == ' ');
        } else {
            assert(with_comment(l, text)[0] == l[0]);
        }
    }
    lemma_comment_from_with_comment(m, text, 0);
    lemma_comment_from_bounds(m, 0);
    let c = comment_from(m, 0);
    if c < m.len() {
        assert(with_comment(m, text).take(c) =~= m.take(c));
    } else {
        assert(with_comment(m, text).take(m.len() + 1int) =~= m.push(' '));
        assert(m.take(c) =~= m);
        lemma_trim_push_space(m);
    }
}

/// A byte order mark put at the start of a line that has none is ignored.
pub proof fn lemma_bom_ignored(l: Seq<char>)
    requires
        !(l.len() > 0 && l[0] == '\u{feff}'),
    ensures
        clean_line(seq!['\u{feff}'] + l) == clean_line(l),
{
    assert((seq!['\u{feff}'] + l).drop_first() =~= l);
}

proof fn lemma_same_clean_number_lines(ls1: Seq<Seq<char>>, ls2: Seq<Seq<char>>, first: nat)
    requires
        ls1.len() == ls2.len(),
        forall|k: int| 0 <= k < ls1.len() ==> clean_line(#[trigger] ls1[k]) == clean_line(ls2[k]),
    ensures
        number_lines(ls1, first) == number_lines(ls2, first),
    decreases ls1.len(),
{
    if ls1.len() > 0 {
        assert forall|k: int| 0 <= k < ls1.drop_first().len() implies clean_line(
            #[trigger] ls1.drop_first()[k],
        ) == clean_line(ls2.drop_first()[k]) by {
            assert(clean_line(ls1[k + 1]) == clean_line(ls2[k + 1]));
        }
        lemma_same_clean_number_lines(ls1.drop_first(), ls2.drop_first(), first + 1);
        assert(clean_line(ls1[0]) == clean_line(ls2[0]));
    }
}

/// Files whose lines read the same once cleaned (see [clean_line]) are read as the same lines,
/// with the same line numbers.
pub proof fn lemma_same_clean_lines(s1: Seq<char>, s2: Seq<char>)
    requires
        lines(s1).len() == lines(s2).len(),
        forall|k: int|
            0 <= k < lines(s1).len() ==> clean_line(#[trigger] lines(s1)[k]) == clean_line(
                lines(s2)[k],
            ),
    ensures
        preprocess(s1) == preprocess(s2),
{
    lemma_same_clean_number_lines(lines(s1), lines(s2), 0);
}

/// A line of a chart file that carries content.
pub struct Line {
    /// The zero based number of the line in the file.
    pub number: usize,
    /// The cleaned text of the line.
    pub text: Vec<char>,
}

impl View for Line {
    type V = (nat, Seq<char>);

    open spec fn view(&self) -> (nat, Seq<char>) {
        (self.number as nat, self.text@)
    }
}

/// The views of a sequence of lines.
pub open spec fn lines_view(v: Seq<Line>) -> Seq<(nat, Seq<char>)> {
    v.map_values(|l: Line| l@)
}

pub(crate) fn find_newline(s: &Vec<char>, start: usize) -> (e: usize)
    requires
        start <= s.len(),
    ensures
        e == newline_from(s@, start as int),
{
    let mut i = start;
    while i < s.len() && s[i] != '\n'
        invariant
            start <= i <= s.len(),
            newline_from(s@, start as int) == newline_from(s@, i as int),
        decreases s.len() - i,
    {
        i = i + 1;
    }
    i
}

pub(crate) fn find_comment(l: &Vec<char>) -> (e: usize)
    ensures
        e == comment_from(l@, 0),
{
    let mut i: usize = 0;
    while l.len() > 0 && i < l.len() - 1 && !(l[i] == '/' && l[i + 1] == '/')
        invariant
            i <= l.len(),
            comment_from(l@, 0) == comment_from(l@, i as int),
        decreases l.len() - i,
    {
        i = i + 1;
    }
    if l.len() > 0 && i < l.len() - 1 {
        i
    } else {
        l.len()
    }
}

/// Cleans one raw line: removes a byte order mark, the comment, and surrounding whitespace.
pub fn clean_raw_line(raw: &Vec<char>) -> (r: Vec<char>)
    ensures
        r@ == clean_line(raw@),
{
    let lo: usize = if raw.len() > 0 && raw[0] == '\u{feff}' {
        1
    } else {
        0
    };
    let no_bom = copy_range(raw, lo, raw.len());
    assert(no_bom@ =~= strip_bom(raw@));
    let c = find_comment(&no_bom);
    proof {
        lemma_comment_from_bounds(no_bom@, 0);
    }
    let no_comment = copy_range(&no_bom, 0, c);
    assert(no_comment@ =~= cut_comment(no_bom@));
    trim_chars(&no_comment)
}

proof fn lemma_number_lines_cons(l: Seq<char>, rest: Seq<Seq<char>>, first: nat)
    ensures
        number_lines(seq![l] + rest, first) == (if clean_line(l).len() == 0 {
            number_lines(rest, first + 1)
        } else {
            seq![(first, clean_line(l))] + number_lines(rest, first + 1)
        }),
{
    assert((seq![l] + rest).drop_first() =~= rest);
    assert((seq![l] + rest)[0] == l);
}

/// Splits a chart file into lines, cleans each line, and keeps the lines that are not empty
/// after cleaning, together with their line numbers.
pub fn preprocess_lines(s: &Vec<char>) -> (res: Vec<Line>)
    ensures
        lines_view(res@) == preprocess(s@),
        forall|k: int| 0 <= k < res@.len() ==> res@[k].text@.len() > 0,
        forall|k: int| 0 <= k < res@.len() ==> res@[k].number < s@.len(),
{
    let mut res: Vec<Line> = Vec::new();
    let mut start: usize = 0;
    let mut n: usize = 0;
    while start < s.len()
        invariant
            start <= s.len(),
            n <= start,
            lines_view(res@) + number_lines(lines_from(s@, start as int), n as nat) == preprocess(
                s@,
            ),
            forall|k: int| 0 <= k < res@.len() ==> res@[k].text@.len() > 0,
            forall|k: int| 0 <= k < res@.len() ==> res@[k].number < s@.len(),
        decreases s.len() - start,
    {
        let e = find_newline(s, start);
        proof {
            lemma_newline_from_bounds(s@, start as int);
        }
        let raw = if e < s.len() && e > start && s[e - 1] == '\r' {
            copy_range(s, start, e - 1)
        } else {
            copy_range(s, start, e)
        };
        let ghost rest_lines = lines_from(s@, e + 1);
        if e < s.len() {
            assert(raw@ =~= strip_cr(s@.subrange(start as int, e as int)));
            assert(lines_from(s@, start as int) == seq![raw@] + rest_lines);
        } else {
            assert(raw@ =~= s@.subrange(start as int, s.len() as int));
            assert(lines_from(s@, start as int) =~= seq![raw@] + rest_lines);
        }
        proof {
            lemma_number_lines_cons(raw@, rest_lines, n as nat);
        }
        let cleaned = clean_raw_line(&raw);
        let ghost before = lines_view(res@);
        if cleaned.len() > 0 {
            res.push(Line { number: n, text: cleaned });
            assert(lines_view(res@) =~= before + seq![(n as nat, cleaned@)]);
        }
        start = if e < s.len() {
            e + 1
        } else {
            s.len()
        };
        n = n + 1;
    }
    assert(lines_from(s@, start as int) =~= Seq::<Seq<char>>::empty());
    assert(lines_view(res@) =~= lines_view(res@) + number_lines(Seq::<Seq<char>>::empty(), n as nat));
    res
}

/// The total length of a sequence of texts.
pub open spec fn total_len(ls: Seq<Seq<char>>) -> nat
    decreases ls.len(),
{
    if ls.len() == 0 {
        0
    } else {
        ls[0].len() + total_len(ls.drop_first())
    }
}

/// The total length of the texts of a sequence of numbered lines.
pub open spec fn total_text_len(ps: Seq<(nat, Seq<char>)>) -> nat
    decreases ps.len(),
{
    if ps.len() == 0 {
        0
    } else {
        ps[0].1.len() + total_text_len(ps.drop_first())
    }
}

proof fn lemma_clean_line_len(l: Seq<char>)
    ensures
        clean_line(l).len() <= l.len(),
{
    let a = strip_bom(l);
    lemma_comment_from_bounds(a, 0);
    let b = cut_comment(a);
    lemma_ws_prefix_len_bound(b);
    let t = b.skip(ws_prefix_len(b) as int);
    lemma_ws_suffix_len_bound(t);
}

proof fn lemma_lines_from_len(s: Seq<char>, start: int)
    requires
        0 <= start <= s.len(),
    ensures
        total_len(lines_from(s, start)) <= s.len() - start,
    decreases s.len() - start,
{
    if start < s.len() {
        lemma_newline_from_bounds(s, start);
        let e = newline_from(s, start);
        if e >= s.len() {
            let ls = lines_from(s, start);
            assert(ls.drop_first() =~= Seq::<Seq<char>>::empty());
            assert(ls[0].len() == s.len() - start);
            assert(total_len(ls.drop_first()) == 0);
        } else {
            lemma_lines_from_len(s, e + 1);
            let ls = lines_from(s, start);
            assert(ls.drop_first() =~= lines_from(s, e + 1));
            assert(ls[0] == strip_cr(s.subrange(start, e)));
            assert(ls[0].len() <= e - start);
        }
    }
}

proof fn lemma_number_lines_len(ls: Seq<Seq<char>>, first: nat)
    ensures
        total_text_len(number_lines(ls, first)) <= total_len(ls),
    decreases ls.len(),
{
    if ls.len() > 0 {
        lemma_number_lines_len(ls.drop_first(), first + 1);
        lemma_clean_line_len(ls[0]);
        let c = clean_line(ls[0]);
        if c.len() > 0 {
            let r = number_lines(ls, first);
            assert(r.drop_first() =~= number_lines(ls.drop_first(), first + 1));
        }
    }
}

/// The cleaned lines of a file are no longer, in total, than the file.
pub proof fn lemma_preprocess_len(s: Seq<char>)
    ensures
        total_text_len(preprocess(s)) <= s.len(),
{
    lemma_lines_from_len(s, 0);
    lemma_number_lines_len(lines(s), 0);
}

} // verus!
