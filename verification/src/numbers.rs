//! Number syntax: decimal integers as `str::parse` reads them for unsigned types, the integer
//! tokens of chart commands, time signatures, balloon hit lists, and the syntax of float literals.
use vstd::prelude::*;

verus! {

// ---------------------------------------------------------------------------------------------
// Digits and decimal values
// ---------------------------------------------------------------------------------------------

/// An ASCII decimal digit.
pub open spec fn is_digit(c: char) -> bool {
    48 <= c as u32 <= 57
}

/// The value of a decimal digit (0 for any other character).
pub open spec fn digit_value(c: char) -> nat {
    if is_digit(c) {
        (c as u32 - 48) as nat
    } else {
        0
    }
}

/// Every character of `s` is a decimal digit.
pub open spec fn all_digits(s: Seq<char>) -> bool {
    forall|i: int| 0 <= i < s.len() ==> is_digit(#[trigger] s[i])
}

/// The number written by the digits `s`, most significant digit first.
pub open spec fn decimal_value(s: Seq<char>) -> nat
    decreases s.len(),
{
    if s.len() == 0 {
        0
    } else {
        decimal_value(s.drop_last()) * 10 + digit_value(s.last())
    }
}

/// `str::parse` for an unsigned integer type whose largest value is `max` (255 for `u8`, 65535
/// for `u16`): an optional `'+'`, then one or more ASCII digits, whose value fits the type.
pub open spec fn parse_unsigned(s: Seq<char>, max: nat) -> Option<nat> {
    let d = if s.len() > 0 && s[0] == '+' {
        s.drop_first()
    } else {
        s
    };
    if d.len() > 0 && all_digits(d) && decimal_value(d) <= max {
        Some(decimal_value(d))
    } else {
        None
    }
}

/// A longer prefix never has a smaller decimal value.
pub proof fn lemma_decimal_value_prefix_mono(s: Seq<char>, j: int, k: int)
    requires
        0 <= j <= k <= s.len(),
    ensures
        decimal_value(s.take(j)) <= decimal_value(s.take(k)),
    decreases k - j,
{
    if j < k {
        lemma_decimal_value_prefix_mono(s, j, k - 1);
        assert(s.take(k).drop_last() =~= s.take(k - 1));
    }
}

/// Whether `c` is an ASCII decimal digit.
pub fn char_is_digit(c: char) -> (b: bool)
    ensures
        b == is_digit(c),
{
    let u = c as u32;
    48 <= u && u <= 57
}

/// The value of the digits `v[lo..hi]` when they are all digits and the value is at most `max`.
pub fn digits_value(v: &Vec<char>, lo: usize, hi: usize, max: u64) -> (r: Option<u64>)
    requires
        lo <= hi <= v.len(),
        max <= 65535,
    ensures
        ({
            let d = v@.subrange(lo as int, hi as int);
            match r {
                Some(x) => all_digits(d) && decimal_value(d) <= max && x == decimal_value(d),
                None => !(all_digits(d) && decimal_value(d) <= max),
            }
        }),
{
    let ghost d = v@.subrange(lo as int, hi as int);
    let mut acc: u64 = 0;
    let mut i = lo;
    assert(d.take(0) =~= Seq::<char>::empty());
    while i < hi
        invariant
            lo <= i <= hi <= v.len(),
            max <= 65535,
            d == v@.subrange(lo as int, hi as int),
            all_digits(d.take(i - lo)),
            acc == decimal_value(d.take(i - lo)),
            acc <= max,
        decreases hi - i,
    {
        let c = v[i];
        if !char_is_digit(c) {
            assert(d[i - lo] == c);
            return None;
        }
        assert(d.take(i + 1 - lo).drop_last() =~= d.take(i - lo));
        assert(d.take(i + 1 - lo).last() == c);
        let next = acc * 10 + (c as u32 - 48) as u64;
        assert(next == decimal_value(d.take(i + 1 - lo)));
        assert(all_digits(d.take(i + 1 - lo))) by {
            assert forall|k: int| 0 <= k < d.take(i + 1 - lo).len() implies is_digit(
                #[trigger] d.take(i + 1 - lo)[k],
            ) by {
                if k < i - lo {
                    assert(d.take(i + 1 - lo)[k] == d.take(i - lo)[k]);
                }
            }
        }
        if next > max {
            proof {
                lemma_decimal_value_prefix_mono(d, i + 1 - lo, d.len() as int);
                assert(d.take(d.len() as int) =~= d);
            }
            return None;
        }
        acc = next;
        i = i + 1;
    }
    assert(d.take(hi - lo) =~= d);
    Some(acc)
}

/// `str::parse` for an unsigned integer type of largest value `max`, on `v[lo..hi]`.
pub fn parse_unsigned_range(v: &Vec<char>, lo: usize, hi: usize, max: u64) -> (r: Option<u64>)
    requires
        lo <= hi <= v.len(),
        max <= 65535,
    ensures
        r == (match parse_unsigned(v@.subrange(lo as int, hi as int), max as nat) {
            Some(x) => Some(x as u64),
            None => None,
        }),
{
    let ghost s = v@.subrange(lo as int, hi as int);
    let start = if lo < hi && v[lo] == '+' {
        lo + 1
    } else {
        lo
    };
    let ghost d = v@.subrange(start as int, hi as int);
    assert(d =~= (if s.len() > 0 && s[0] == '+' {
        s.drop_first()
    } else {
        s
    }));
    if start == hi {
        return None;
    }
    digits_value(v, start, hi, max)
}

/// `str::parse::<u8>` on the characters `v`.
pub fn parse_u8(v: &Vec<char>) -> (r: Option<u8>)
    ensures
        r == (match parse_unsigned(v@, 255) {
            Some(x) => Some(x as u8),
            None => None,
        }),
{
    assert(v@.subrange(0, v.len() as int) =~= v@);
    match parse_unsigned_range(v, 0, v.len(), 255) {
        Some(x) => Some(x as u8),
        None => None,
    }
}

// ---------------------------------------------------------------------------------------------
// Integer tokens of chart commands
// ---------------------------------------------------------------------------------------------

/// The end of the run of digits starting at `i`.
pub open spec fn digit_end(s: Seq<char>, i: int) -> int
    decreases s.len() - i,
{
    if 0 <= i < s.len() && is_digit(s[i]) {
        digit_end(s, i + 1)
    } else {
        i
    }
}

pub proof fn lemma_digit_end_bounds(s: Seq<char>, i: int)
    requires
        0 <= i <= s.len(),
    ensures
        i <= digit_end(s, i) <= s.len(),
        all_digits(s.subrange(i, digit_end(s, i))),
        digit_end(s, i) < s.len() ==> !is_digit(s[digit_end(s, i)]),
    decreases s.len() - i,
{
    if i < s.len() && is_digit(s[i]) {
        lemma_digit_end_bounds(s, i + 1);
        let e = digit_end(s, i);
        assert forall|k: int| 0 <= k < s.subrange(i, e).len() implies is_digit(
            #[trigger] s.subrange(i, e)[k],
        ) by {
            if k > 0 {
                assert(s.subrange(i, e)[k] == s.subrange(i + 1, e)[k - 1]);
            }
        }
    }
}

/// The end of the integer token at `i`, as the chart grammar reads one: a digit from 1 to 9
/// followed by any digits, or else a single digit (so a leading `0` stands alone). Equal to `i`
/// when there is no token.
pub open spec fn int_token_end(s: Seq<char>, i: int) -> int {
    if 0 <= i < s.len() && 49 <= s[i] as u32 <= 57 {
        digit_end(s, i + 1)
    } else if 0 <= i < s.len() && is_digit(s[i]) {
        i + 1
    } else {
        i
    }
}

/// An integer token at `i` whose value fits an unsigned type of largest value `max`: the end of
/// the token and its value.
pub open spec fn tja_integer(s: Seq<char>, i: int, max: nat) -> Option<(int, nat)> {
    let e = int_token_end(s, i);
    if e == i {
        None
    } else {
        match parse_unsigned(s.subrange(i, e), max) {
            Some(v) => Some((e, v)),
            None => None,
        }
    }
}

pub proof fn lemma_int_token_end_bounds(s: Seq<char>, i: int)
    requires
        0 <= i <= s.len(),
    ensures
        i <= int_token_end(s, i) <= s.len(),
        int_token_end(s, i) > i ==> all_digits(s.subrange(i, int_token_end(s, i))),
{
    if 0 <= i < s.len() && 49 <= s[i] as u32 <= 57 {
        lemma_digit_end_bounds(s, i + 1);
        let e = digit_end(s, i + 1);
        assert forall|k: int| 0 <= k < s.subrange(i, e).len() implies is_digit(
            #[trigger] s.subrange(i, e)[k],
        ) by {
            if k > 0 {
                assert(s.subrange(i, e)[k] == s.subrange(i + 1, e)[k - 1]);
            }
        }
    } else if 0 <= i < s.len() && is_digit(s[i]) {
        assert(s.subrange(i, i + 1)[0] == s[i]);
    }
}

pub proof fn lemma_tja_integer(s: Seq<char>, i: int, max: nat)
    requires
        0 <= i <= s.len(),
    ensures
        tja_integer(s, i, max) matches Some((e, v)) ==> i < e <= s.len() && v <= max,
{
    lemma_int_token_end_bounds(s, i);
}

fn find_digit_end(v: &Vec<char>, i: usize) -> (e: usize)
    requires
        i <= v.len(),
    ensures
        e == digit_end(v@, i as int),
{
    let mut j = i;
    while j < v.len() && char_is_digit(v[j])
        invariant
            i <= j <= v.len(),
            digit_end(v@, i as int) == digit_end(v@, j as int),
        decreases v.len() - j,
    {
        j = j + 1;
    }
    j
}

/// Reads the integer token at `i` (see [tja_integer]).
pub fn read_tja_integer(v: &Vec<char>, i: usize, max: u64) -> (r: Option<(usize, u64)>)
    requires
        i <= v.len(),
        max <= 65535,
    ensures
        r == (match tja_integer(v@, i as int, max as nat) {
            Some((e, x)) => Some((e as usize, x as u64)),
            None => None,
        }),
        r matches Some((e, x)) ==> i < e <= v.len() && x <= max,
{
    proof {
        lemma_int_token_end_bounds(v@, i as int);
        lemma_tja_integer(v@, i as int, max as nat);
    }
    let e = if i < v.len() && 49 <= v[i] as u32 && v[i] as u32 <= 57 {
        find_digit_end(v, i + 1)
    } else if i < v.len() && char_is_digit(v[i]) {
        i + 1
    } else {
        i
    };
    if e == i {
        return None;
    }
    match parse_unsigned_range(v, i, e, max) {
        Some(x) => Some((e, x)),
        None => None,
    }
}

/// A time signature `numerator/denominator` at the start of `s`; what follows it is ignored.
pub open spec fn time_signature(s: Seq<char>) -> Option<(u8, u8)> {
    match tja_integer(s, 0, 255) {
        Some((e1, a)) => if e1 < s.len() && s[e1] == '/' {
            match tja_integer(s, e1 + 1, 255) {
                Some((_e2, b)) => Some((a as u8, b as u8)),
                None => None,
            }
        } else {
            None
        },
        None => None,
    }
}

/// Reads a time signature at the start of `v`.
pub fn read_time_signature(v: &Vec<char>) -> (r: Option<(u8, u8)>)
    ensures
        r == time_signature(v@),
{
    proof {
        lemma_tja_integer(v@, 0, 255);
    }
    match read_tja_integer(v, 0, 255) {
        Some((e1, a)) => {
            if e1 < v.len() && v[e1] == '/' {
                proof {
                    lemma_tja_integer(v@, e1 + 1, 255);
                }
                match read_tja_integer(v, e1 + 1, 255) {
                    Some((_e2, b)) => Some((a as u8, b as u8)),
                    None => None,
                }
            } else {
                None
            }
        },
        None => None,
    }
}

/// The comma separated integer tokens from `i` on, after the values `acc`: the values read and
/// where reading stopped.
pub open spec fn balloon_list_from(s: Seq<char>, i: int, acc: Seq<u16>) -> (Seq<u16>, int)
    decreases s.len() - i,
{
    if 0 <= i < s.len() && s[i] == ',' {
        match tja_integer(s, i + 1, 65535) {
            Some((e, v)) => if i < e <= s.len() {
                balloon_list_from(s, e, acc.push(v as u16))
            } else {
                (acc, i)
            },
            None => (acc, i),
        }
    } else {
        (acc, i)
    }
}

/// The `BALLOON` metadata value: integer tokens separated by commas (possibly none), covering
/// the whole value.
pub open spec fn balloon_list(s: Seq<char>) -> Option<Seq<u16>> {
    let (list, end) = match tja_integer(s, 0, 65535) {
        Some((e, v)) => balloon_list_from(s, e, seq![v as u16]),
        None => (Seq::<u16>::empty(), 0int),
    };
    if end == s.len() {
        Some(list)
    } else {
        None
    }
}

/// Reads the `BALLOON` metadata value.
pub fn read_balloon_list(v: &Vec<char>) -> (r: Option<Vec<u16>>)
    ensures
        match r {
            Some(list) => balloon_list(v@) == Some(list@),
            None => balloon_list(v@) is None,
        },
{
    let mut list: Vec<u16> = Vec::new();
    let mut pos: usize = 0;
    proof {
        lemma_tja_integer(v@, 0, 65535);
    }
    match read_tja_integer(v, 0, 65535) {
        Some((e, x)) => {
            list.push(x as u16);
            assert(list@ =~= seq![x as u16]);
            pos = e;
            let mut done = false;
            while !done && pos < v.len() && v[pos] == ','
                invariant
                    pos <= v.len(),
                    balloon_list_from(v@, pos as int, list@) == balloon_list_from(
                        v@,
                        e as int,
                        seq![x as u16],
                    ),
                    done ==> balloon_list_from(v@, pos as int, list@) == (list@, pos as int),
                decreases (v.len() - pos) as int + if done {
                    0int
                } else {
                    1int
                },
            {
                proof {
                    lemma_tja_integer(v@, pos + 1, 65535);
                }
                match read_tja_integer(v, pos + 1, 65535) {
                    Some((e2, y)) => {
                        list.push(y as u16);
                        pos = e2;
                    },
                    None => {
                        done = true;
                    },
                }
            }
        },
        None => {},
    }
    if pos == v.len() {
        Some(list)
    } else {
        None
    }
}

// ---------------------------------------------------------------------------------------------
// Float literals
// ---------------------------------------------------------------------------------------------

/// The code of the ASCII lower case of a character.
pub open spec fn ascii_lower(c: char) -> u32 {
    if 65 <= c as u32 <= 90 {
        (c as u32 + 32) as u32
    } else {
        c as u32
    }
}

/// `s` equals the lower case word `w`, ignoring ASCII case.
pub open spec fn eq_ignore_case(s: Seq<char>, w: Seq<char>) -> bool {
    s.len() == w.len() && forall|i: int| 0 <= i < s.len() ==> ascii_lower(#[trigger] s[i]) == w[i] as u32
}

/// A decimal number: digits with an optional fraction (at least one digit in all), then an
/// optional exponent `e`/`E`, optional sign, one or more digits.
pub open spec fn is_decimal_number(s: Seq<char>) -> bool {
    let m = digit_end(s, 0);
    let (mantissa_ok, after) = if m < s.len() && s[m] == '.' {
        let f = digit_end(s, m + 1);
        (m > 0 || f > m + 1, f)
    } else {
        (m > 0, m)
    };
    mantissa_ok && (after == s.len() || (s[after] == 'e' || s[after] == 'E') && {
        let p = if after + 1 < s.len() && (s[after + 1] == '+' || s[after + 1] == '-') {
            after + 2
        } else {
            after + 1
        };
        let q = digit_end(s, p);
        q > p && q == s.len()
    })
}

/// The syntax `str::parse::<f32>` accepts, as its documentation gives it: an optional sign, then
/// `inf`, `infinity` or `nan` in any ASCII case, or a decimal number.
pub open spec fn is_float_literal(s: Seq<char>) -> bool {
    let b = if s.len() > 0 && (s[0] == '+' || s[0] == '-') {
        s.drop_first()
    } else {
        s
    };
    ||| eq_ignore_case(b, seq!['i', 'n', 'f'])
    ||| eq_ignore_case(b, seq!['i', 'n', 'f', 'i', 'n', 'i', 't', 'y'])
    ||| eq_ignore_case(b, seq!['n', 'a', 'n'])
    ||| is_decimal_number(b)
}

fn lower(c: char) -> (r: u32)
    ensures
        r == ascii_lower(c),
{
    let u = c as u32;
    if 65 <= u && u <= 90 {
        u + 32
    } else {
        u
    }
}

fn range_eq_ignore_case(v: &Vec<char>, lo: usize, w: &[char]) -> (b: bool)
    requires
        lo <= v.len(),
    ensures
        b == eq_ignore_case(v@.subrange(lo as int, v.len() as int), w@),
{
    let ghost s = v@.subrange(lo as int, v.len() as int);
    if v.len() - lo != w.len() {
        return false;
    }
    let mut i: usize = 0;
    while i < w.len()
        invariant
            lo <= v.len(),
            v.len() - lo == w.len(),
            s == v@.subrange(lo as int, v.len() as int),
            i <= w.len(),
            forall|j: int| 0 <= j < i ==> ascii_lower(#[trigger] s[j]) == w@[j] as u32,
        decreases w.len() - i,
    {
        if lower(v[lo + i]) != w[i] as u32 {
            assert(s[i as int] == v@[lo + i]);
            return false;
        }
        assert(s[i as int] == v@[lo + i]);
        i = i + 1;
    }
    true
}

fn is_decimal_number_from(v: &Vec<char>, lo: usize) -> (b: bool)
    requires
        lo <= v.len(),
    ensures
        b == is_decimal_number(v@.subrange(lo as int, v.len() as int)),
{
    let ghost s = v@.subrange(lo as int, v.len() as int);
    let w = copy_from(v, lo);
    assert(w@ == s);
    let m = find_digit_end(&w, 0);
    proof {
        lemma_digit_end_bounds(w@, 0);
    }
    let (mantissa_ok, after) = if m < w.len() && w[m] == '.' {
        let f = find_digit_end(&w, m + 1);
        proof {
            lemma_digit_end_bounds(w@, m + 1);
        }
        (m > 0 || f > m + 1, f)
    } else {
        (m > 0, m)
    };
    if !mantissa_ok {
        return false;
    }
    if after == w.len() {
        return true;
    }
    if !(w[after] == 'e' || w[after] == 'E') {
        return false;
    }
    let p = if after + 1 < w.len() && (w[after + 1] == '+' || w[after + 1] == '-') {
        after + 2
    } else {
        after + 1
    };
    let q = find_digit_end(&w, p);
    q > p && q == w.len()
}

fn copy_from(v: &Vec<char>, lo: usize) -> (r: Vec<char>)
    requires
        lo <= v.len(),
    ensures
        r@ == v@.subrange(lo as int, v.len() as int),
{
    crate::text::copy_range(v, lo, v.len())
}

/// Whether `v[lo..hi]` is a float literal that `str::parse::<f32>` accepts.
pub fn range_is_float_literal(v: &Vec<char>, lo: usize, hi: usize) -> (b: bool)
    requires
        lo <= hi <= v.len(),
    ensures
        b == is_float_literal(v@.subrange(lo as int, hi as int)),
{
    let w = crate::text::copy_range(v, lo, hi);
    let start: usize = if w.len() > 0 && (w[0] == '+' || w[0] == '-') {
        1
    } else {
        0
    };
    let ghost b_seq = w@.subrange(start as int, w.len() as int);
    assert(b_seq =~= (if w@.len() > 0 && (w@[0] == '+' || w@[0] == '-') {
        w@.drop_first()
    } else {
        w@
    }));
    let inf: [char; 3] = ['i', 'n', 'f'];
    let infinity: [char; 8] = ['i', 'n', 'f', 'i', 'n', 'i', 't', 'y'];
    let nan: [char; 3] = ['n', 'a', 'n'];
    assert(inf@ =~= seq!['i', 'n', 'f']);
    assert(infinity@ =~= seq!['i', 'n', 'f', 'i', 'n', 'i', 't', 'y']);
    assert(nan@ =~= seq!['n', 'a', 'n']);
    range_eq_ignore_case(&w, start, &inf) || range_eq_ignore_case(&w, start, &infinity)
        || range_eq_ignore_case(&w, start, &nan) || is_decimal_number_from(&w, start)
}

} // verus!
