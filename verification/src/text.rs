//! Character-level text helpers shared by the parsers: Unicode whitespace
//! trimming, ASCII case folding and decimal integer syntax.
use vstd::prelude::*;

verus! {

/// The Unicode `White_Space` property, which `char::is_whitespace` and
/// `str::trim` follow (PropList.txt).
pub open spec fn is_white_space(c: char) -> bool {
    let u = c as u32;
    (0x09 <= u && u <= 0x0D) || u == 0x20 || u == 0x85 || u == 0xA0 || u == 0x1680
        || (0x2000 <= u && u <= 0x200A) || u == 0x2028 || u == 0x2029 || u == 0x202F
        || u == 0x205F || u == 0x3000
}

pub open spec fn trim_start(s: Seq<char>) -> Seq<char>
    decreases s.len(),
{
    if s.len() > 0 && is_white_space(s[0]) {
        trim_start(s.drop_first())
    } else {
        s
    }
}

pub open spec fn trim_end(s: Seq<char>) -> Seq<char>
    decreases s.len(),
{
    if s.len() > 0 && is_white_space(s.last()) {
        trim_end(s.drop_last())
    } else {
        s
    }
}

/// What `str::trim` leaves of `s`.
pub open spec fn trim(s: Seq<char>) -> Seq<char> {
    trim_end(trim_start(s))
}

/// `trim_start` drops a prefix, and leaves nothing or a non-whitespace first character.
pub proof fn lemma_trim_start_suffix(s: Seq<char>) -> (k: int)
    ensures
        0 <= k <= s.len(),
        trim_start(s) == s.subrange(k, s.len() as int),
        trim_start(s).len() > 0 ==> !is_white_space(trim_start(s)[0]),
    decreases s.len(),
{
    if s.len() > 0 && is_white_space(s[0]) {
        let k = lemma_trim_start_suffix(s.drop_first());
        assert(s.drop_first().subrange(k, s.drop_first().len() as int) =~= s.subrange(
            k + 1,
            s.len() as int,
        ));
        k + 1
    } else {
        assert(s.subrange(0, s.len() as int) =~= s);
        0
    }
}

/// `trim_end` drops a suffix, and leaves nothing or a non-whitespace last character.
pub proof fn lemma_trim_end_prefix(s: Seq<char>) -> (k: int)
    ensures
        0 <= k <= s.len(),
        trim_end(s) == s.subrange(0, k),
        trim_end(s).len() > 0 ==> !is_white_space(trim_end(s).last()),
    decreases s.len(),
{
    if s.len() > 0 && is_white_space(s.last()) {
        let k = lemma_trim_end_prefix(s.drop_last());
        assert(s.drop_last().subrange(0, k) =~= s.subrange(0, k));
        k
    } else {
        assert(s.subrange(0, s.len() as int) =~= s);
        s.len() as int
    }
}

/// What `trim` leaves is a contiguous part of `s` that neither starts nor
/// ends with whitespace.
pub proof fn lemma_trim_range(s: Seq<char>) -> (r: (int, int))
    ensures
        0 <= r.0 <= r.1 <= s.len(),
        trim(s) == s.subrange(r.0, r.1),
        trim(s).len() > 0 ==> !is_white_space(trim(s)[0]) && !is_white_space(trim(s).last()),
{
    let a = lemma_trim_start_suffix(s);
    let t = trim_start(s);
    let b = lemma_trim_end_prefix(t);
    assert(t.subrange(0, b) =~= s.subrange(a, a + b));
    if b > 0 {
        assert(trim(s)[0] == t[0]);
    }
    (a, a + b)
}

/// Text that neither starts nor ends with whitespace is its own trim.
pub proof fn lemma_trim_of_trimmed(t: Seq<char>)
    requires
        t.len() > 0 ==> !is_white_space(t[0]) && !is_white_space(t.last()),
    ensures
        trim(t) == t,
{
    assert(trim_start(t) == t);
    assert(trim_end(t) == t);
}

/// ASCII lower-casing of one character, as a code point.
pub open spec fn lower(c: char) -> u32 {
    let u = c as u32;
    if 0x41 <= u && u <= 0x5A {
        (u + 32) as u32
    } else {
        u
    }
}

/// `a.eq_ignore_ascii_case(b)`, equivalently `a.to_ascii_lowercase() == b.to_ascii_lowercase()`.
pub open spec fn eq_ignore_ascii_case(a: Seq<char>, b: Seq<char>) -> bool {
    a.len() == b.len() && forall|i: int| 0 <= i < a.len() ==> lower(#[trigger] a[i]) == lower(b[i])
}

pub open spec fn is_ascii_digit(c: char) -> bool {
    0x30 <= (c as u32) && (c as u32) <= 0x39
}

pub open spec fn digit_value(c: char) -> int {
    (c as u32) - 0x30
}

pub open spec fn all_digits(s: Seq<char>) -> bool {
    forall|i: int| 0 <= i < s.len() ==> is_ascii_digit(#[trigger] s[i])
}

/// Value of a run of decimal digits.
pub open spec fn digits_value(s: Seq<char>) -> int
    decreases s.len(),
{
    if s.len() == 0 {
        0
    } else {
        digits_value(s.drop_last()) * 10 + digit_value(s.last())
    }
}

/// The integers that `str::parse` accepts, before the range check: an optional
/// `+` or `-`, then one or more ASCII digits, nothing else.
pub open spec fn decimal_integer(s: Seq<char>) -> Option<int> {
    if s.len() > 0 && (s[0] == '-' || s[0] == '+') {
        let d = s.drop_first();
        if d.len() > 0 && all_digits(d) {
            if s[0] == '-' {
                Some(-digits_value(d))
            } else {
                Some(digits_value(d))
            }
        } else {
            None
        }
    } else if s.len() > 0 && all_digits(s) {
        Some(digits_value(s))
    } else {
        None
    }
}

/// `s.parse::<i128>().ok()`.
pub open spec fn parse_i128_spec(s: Seq<char>) -> Option<i128> {
    match decimal_integer(s) {
        Some(v) => if i128::MIN <= v && v <= i128::MAX {
            Some(v as i128)
        } else {
            None
        },
        None => None,
    }
}

pub open spec fn count_char(s: Seq<char>, c: char) -> nat
    decreases s.len(),
{
    if s.len() == 0 {
        0
    } else {
        count_char(s.drop_last(), c) + if s.last() == c {
            1nat
        } else {
            0nat
        }
    }
}

/// The characters of `s`, in order.
pub(crate) fn chars_of(s: &str) -> (res: Vec<char>)
    ensures
        res@ == s@,
{
    broadcast use vstd::string::axiom_spec_iter;

    let mut res: Vec<char> = Vec::new();
    for c in it: s.chars()
        invariant
            it.seq() == s@,
            res@ == it.seq().take(it.index() as int),
    {
        res.push(c);
    }
    res
}

/// Collects the characters into a `String` (`FromIterator<char>`). Claimed:
/// the string holds exactly these characters, in order.
#[verifier::external_body]
pub(crate) fn string_from_chars(cs: &[char]) -> (res: String)
    ensures
        res@ == cs@,
{
    cs.iter().collect()
}

pub fn is_white_space_char(c: char) -> (b: bool)
    ensures
        b == is_white_space(c),
{
    let u = c as u32;
    (0x09 <= u && u <= 0x0D) || u == 0x20 || u == 0x85 || u == 0xA0 || u == 0x1680 || (0x2000
        <= u && u <= 0x200A) || u == 0x2028 || u == 0x2029 || u == 0x202F || u == 0x205F || u
        == 0x3000
}

pub fn lower_code(c: char) -> (r: u32)
    ensures
        r == lower(c),
{
    let u = c as u32;
    if 0x41 <= u && u <= 0x5A {
        u + 32
    } else {
        u
    }
}

pub fn is_digit_char(c: char) -> (b: bool)
    ensures
        b == is_ascii_digit(c),
{
    let u = c as u32;
    0x30 <= u && u <= 0x39
}

proof fn lemma_trim_start_skip(s: Seq<char>, lo: int)
    requires
        0 <= lo < s.len(),
        is_white_space(s[lo]),
    ensures
        trim_start(s.subrange(lo, s.len() as int)) == trim_start(s.subrange(lo + 1, s.len() as int)),
{
    assert(s.subrange(lo, s.len() as int).drop_first() =~= s.subrange(lo + 1, s.len() as int));
}

proof fn lemma_trim_end_skip(s: Seq<char>, lo: int, hi: int)
    requires
        0 <= lo < hi <= s.len(),
        is_white_space(s[hi - 1]),
    ensures
        trim_end(s.subrange(lo, hi)) == trim_end(s.subrange(lo, hi - 1)),
{
    assert(s.subrange(lo, hi).drop_last() =~= s.subrange(lo, hi - 1));
}

/// Bounds `(lo, hi)` of what `trim` keeps of `s`.
pub fn trim_bounds(s: &[char]) -> (r: (usize, usize))
    ensures
        r.0 <= r.1 <= s@.len(),
        s@.subrange(r.0 as int, r.1 as int) == trim(s@),
{
    let len = s.len();
    let mut lo: usize = 0;
    assert(s@.subrange(0, len as int) =~= s@);
    while lo < len && is_white_space_char(s[lo])
        invariant
            len == s@.len(),
            lo <= len,
            trim_start(s@) == trim_start(s@.subrange(lo as int, len as int)),
        decreases len - lo,
    {
        proof {
            lemma_trim_start_skip(s@, lo as int);
        }
        lo = lo + 1;
    }
    assert(trim_start(s@) == s@.subrange(lo as int, len as int));
    let mut hi: usize = len;
    while hi > lo && is_white_space_char(s[hi - 1])
        invariant
            len == s@.len(),
            lo <= hi <= len,
            trim(s@) == trim_end(s@.subrange(lo as int, hi as int)),
        decreases hi,
    {
        proof {
            lemma_trim_end_skip(s@, lo as int, hi as int);
        }
        hi = hi - 1;
    }
    (lo, hi)
}

/// Copy of `s[lo..hi]`.
pub fn slice_chars(s: &[char], lo: usize, hi: usize) -> (r: Vec<char>)
    requires
        lo <= hi <= s@.len(),
    ensures
        r@ == s@.subrange(lo as int, hi as int),
{
    let mut r: Vec<char> = Vec::new();
    let mut i = lo;
    while i < hi
        invariant
            lo <= i <= hi <= s@.len(),
            r@ == s@.subrange(lo as int, i as int),
        decreases hi - i,
    {
        r.push(s[i]);
        i = i + 1;
        assert(r@ =~= s@.subrange(lo as int, i as int));
    }
    r
}

/// The characters of `s.trim()`.
pub fn trim_chars(s: &[char]) -> (r: Vec<char>)
    ensures
        r@ == trim(s@),
{
    let (lo, hi) = trim_bounds(s);
    slice_chars(s, lo, hi)
}

/// `s.trim()`, as characters.
pub fn trimmed(s: &str) -> (r: Vec<char>)
    ensures
        r@ == trim(s@),
{
    let cs = chars_of(s);
    trim_chars(cs.as_slice())
}

/// Whether `a` equals the lower-case ASCII word `w` up to ASCII case.
pub fn eq_ignore_case(a: &[char], w: &[char]) -> (b: bool)
    ensures
        b == eq_ignore_ascii_case(a@, w@),
{
    if a.len() != w.len() {
        return false;
    }
    let mut i: usize = 0;
    while i < a.len()
        invariant
            a@.len() == w@.len(),
            i <= a@.len(),
            forall|j: int| 0 <= j < i ==> lower(#[trigger] a@[j]) == lower(w@[j]),
        decreases a@.len() - i,
    {
        if lower_code(a[i]) != lower_code(w[i]) {
            return false;
        }
        i = i + 1;
    }
    true
}

proof fn lemma_digits_value_step(s: Seq<char>, i: int)
    requires
        0 <= i < s.len(),
    ensures
        digits_value(s.take(i + 1)) == digits_value(s.take(i)) * 10 + digit_value(s[i]),
{
    assert(s.take(i + 1).drop_last() =~= s.take(i));
}

proof fn lemma_digits_value_nonneg(s: Seq<char>)
    requires
        all_digits(s),
    ensures
        digits_value(s) >= 0,
    decreases s.len(),
{
    if s.len() > 0 {
        lemma_digits_value_nonneg(s.drop_last());
    }
}

/// Value of the digits `s[start..]` if they are all ASCII digits and the value
/// fits in a `u128`; `None` when some character is not a digit or the value is larger.
fn digits_u128(s: &[char], start: usize) -> (r: Option<u128>)
    requires
        start <= s@.len(),
    ensures
        ({
            let d = s@.subrange(start as int, s@.len() as int);
            match r {
                Some(v) => all_digits(d) && v == digits_value(d),
                None => !all_digits(d) || digits_value(d) > u128::MAX,
            }
        }),
{
    let ghost d = s@.subrange(start as int, s@.len() as int);
    let mut acc: u128 = 0;
    let mut i = start;
    let mut overflow = false;
    assert(d.take(0) =~= Seq::<char>::empty());
    while i < s.len()
        invariant
            start <= i <= s@.len(),
            d == s@.subrange(start as int, s@.len() as int),
            all_digits(d.take(i - start)),
            !overflow ==> acc == digits_value(d.take(i - start)),
            overflow ==> digits_value(d.take(i - start)) > u128::MAX,
        decreases s@.len() - i,
    {
        let c = s[i];
        if !is_digit_char(c) {
            assert(d[i - start] == c);
            return None;
        }
        proof {
            lemma_digits_value_step(d, i - start);
            assert(d.take(i - start + 1) =~= d.take(i - start).push(c));
            lemma_digits_value_nonneg(d.take(i - start));
        }
        if !overflow {
            let dv = (c as u32 - 0x30) as u128;
            match acc.checked_mul(10) {
                Some(m) => match m.checked_add(dv) {
                    Some(n) => {
                        acc = n;
                    },
                    None => {
                        overflow = true;
                    },
                },
                None => {
                    overflow = true;
                },
            }
        }
        i = i + 1;
    }
    assert(d.take(i - start) =~= d);
    if overflow {
        None
    } else {
        Some(acc)
    }
}

/// `s.parse::<i128>().ok()` on the characters of `s`.
pub fn parse_i128_chars(s: &[char]) -> (r: Option<i128>)
    ensures
        r == parse_i128_spec(s@),
{
    if s.len() == 0 {
        return None;
    }
    let first = s[0];
    let signed = first == '-' || first == '+';
    let start: usize = if signed {
        1
    } else {
        0
    };
    if signed && s.len() == 1 {
        return None;
    }
    let mag = digits_u128(s, start);
    proof {
        if signed {
            assert(s@.subrange(1, s@.len() as int) =~= s@.drop_first());
        } else {
            assert(s@.subrange(0, s@.len() as int) =~= s@);
        }
    }
    match mag {
        None => {
            proof {
                let d = s@.subrange(start as int, s@.len() as int);
                if all_digits(d) {
                    assert(digits_value(d) > u128::MAX);
                }
            }
            None
        },
        Some(m) => {
            if first == '-' {
                if m <= 0x8000_0000_0000_0000_0000_0000_0000_0000u128 {
                    if m == 0x8000_0000_0000_0000_0000_0000_0000_0000u128 {
                        Some(i128::MIN)
                    } else {
                        Some(-(m as i128))
                    }
                } else {
                    None
                }
            } else {
                if m <= i128::MAX as u128 {
                    Some(m as i128)
                } else {
                    None
                }
            }
        },
    }
}


// ---------------------------------------------------------------- float syntax

/// Number of leading ASCII digits.
pub open spec fn lead_digits(s: Seq<char>) -> nat
    decreases s.len(),
{
    if s.len() > 0 && is_ascii_digit(s[0]) {
        1 + lead_digits(s.drop_first())
    } else {
        0
    }
}

pub open spec fn strip_sign(s: Seq<char>) -> Seq<char> {
    if s.len() > 0 && (s[0] == '+' || s[0] == '-') {
        s.drop_first()
    } else {
        s
    }
}

/// `Sign? Digit+`
pub open spec fn signed_digits(x: Seq<char>) -> bool {
    let y = strip_sign(x);
    y.len() > 0 && all_digits(y)
}

/// `( Digit+ | Digit+ '.' Digit* | Digit* '.' Digit+ ) ( 'e' Sign? Digit+ )?`,
/// the `e` in either case: the mantissa is the run of digits, an optional dot
/// and a second run of digits, holding at least one digit in all; what follows
/// it is nothing or an exponent.
pub open spec fn decimal_number(b: Seq<char>) -> bool {
    let d = lead_digits(b) as int;
    let dotted = d < b.len() && b[d] == '.';
    let f = if dotted {
        lead_digits(b.skip(d + 1)) as int
    } else {
        0
    };
    let e = if dotted {
        d + 1 + f
    } else {
        d
    };
    d + f >= 1 && (e == b.len() || (lower(b[e]) == 0x65 && signed_digits(b.skip(e + 1))))
}

/// The texts `str::parse::<f64>` accepts (its documented grammar, read after
/// ASCII lower-casing): a sign, then `inf`, `infinity`, `nan` or a decimal number.
pub open spec fn float_syntax(s: Seq<char>) -> bool {
    let b = strip_sign(s);
    ||| eq_ignore_ascii_case(b, seq!['i', 'n', 'f'])
    ||| eq_ignore_ascii_case(b, seq!['i', 'n', 'f', 'i', 'n', 'i', 't', 'y'])
    ||| eq_ignore_ascii_case(b, seq!['n', 'a', 'n'])
    ||| decimal_number(b)
}

proof fn lemma_lead_digits(s: Seq<char>, i: int)
    requires
        0 <= i <= s.len(),
        all_digits(s.take(i)),
        i == s.len() || !is_ascii_digit(s[i]),
    ensures
        lead_digits(s) == i,
    decreases i,
{
    if i > 0 {
        assert(is_ascii_digit(s.take(i)[0]));
        let t = s.drop_first();
        assert forall|j: int| 0 <= j < i - 1 implies is_ascii_digit(#[trigger] t.take(i - 1)[j]) by {
            assert(t.take(i - 1)[j] == s.take(i)[j + 1]);
        }
        lemma_lead_digits(t, i - 1);
    }
}

/// Index of the first non-digit at or after `from`.
fn scan_digits(s: &[char], from: usize) -> (i: usize)
    requires
        from <= s@.len(),
    ensures
        from <= i <= s@.len(),
        lead_digits(s@.skip(from as int)) == i - from,
{
    let mut i = from;
    while i < s.len() && is_digit_char(s[i])
        invariant
            from <= i <= s@.len(),
            all_digits(s@.skip(from as int).take(i - from)),
        decreases s@.len() - i,
    {
        proof {
            let t = s@.skip(from as int);
            assert forall|j: int| 0 <= j < i + 1 - from implies is_ascii_digit(#[trigger] t.take(i + 1 - from)[j]) by {
                if j < i - from {
                    assert(t.take(i + 1 - from)[j] == t.take(i - from)[j]);
                }
            }
        }
        i = i + 1;
    }
    proof {
        lemma_lead_digits(s@.skip(from as int), i - from);
    }
    i
}

fn signed_digits_from(s: &[char], from: usize) -> (b: bool)
    requires
        from <= s@.len(),
    ensures
        b == signed_digits(s@.skip(from as int)),
{
    let ghost x = s@.skip(from as int);
    let mut start = from;
    if from < s.len() && (s[from] == '+' || s[from] == '-') {
        start = from + 1;
        assert(x.drop_first() =~= s@.skip(start as int));
    } else {
        assert(x =~= s@.skip(start as int));
    }
    let end = scan_digits(s, start);
    proof {
        let y = s@.skip(start as int);
        if end == s@.len() {
            assert(lead_digits(y) == y.len());
            lemma_lead_all(y);
        } else {
            lemma_lead_bound(y);
            assert(!is_ascii_digit(y[end - start]));
        }
    }
    end > start && end == s.len()
}

proof fn lemma_lead_all(y: Seq<char>)
    requires
        lead_digits(y) == y.len(),
    ensures
        all_digits(y),
    decreases y.len(),
{
    if y.len() > 0 {
        lemma_lead_all(y.drop_first());
        assert forall|j: int| 0 <= j < y.len() implies is_ascii_digit(#[trigger] y[j]) by {
            if j > 0 {
                assert(y[j] == y.drop_first()[j - 1]);
            }
        }
    }
}

proof fn lemma_lead_bound(y: Seq<char>)
    ensures
        lead_digits(y) <= y.len(),
        lead_digits(y) < y.len() ==> !is_ascii_digit(y[lead_digits(y) as int]),
    decreases y.len(),
{
    if y.len() > 0 && is_ascii_digit(y[0]) {
        lemma_lead_bound(y.drop_first());
    }
}

fn decimal_number_chars(b: &[char]) -> (r: bool)
    ensures
        r == decimal_number(b@),
{
    assert(b@.skip(0) =~= b@);
    let d = scan_digits(b, 0);
    let dotted = d < b.len() && b[d] == '.';
    let mut e = d;
    let mut f: usize = 0;
    if dotted {
        e = scan_digits(b, d + 1);
        f = e - d - 1;
    }
    if d + f < 1 {
        return false;
    }
    if e == b.len() {
        return true;
    }
    lower_code(b[e]) == 0x65 && signed_digits_from(b, e + 1)
}

/// Whether `str::parse::<f64>` accepts the characters.
pub fn is_float_syntax(s: &[char]) -> (r: bool)
    ensures
        r == float_syntax(s@),
{
    let start: usize = if s.len() > 0 && (s[0] == '+' || s[0] == '-') {
        1
    } else {
        0
    };
    let b = slice_chars(s, start, s.len());
    proof {
        if start == 1 {
            assert(b@ =~= s@.drop_first());
        } else {
            assert(b@ =~= s@);
        }
    }
    eq_ignore_case(b.as_slice(), &['i', 'n', 'f']) || eq_ignore_case(
        b.as_slice(),
        &['i', 'n', 'f', 'i', 'n', 'i', 't', 'y'],
    ) || eq_ignore_case(b.as_slice(), &['n', 'a', 'n']) || decimal_number_chars(b.as_slice())
}

} // verus!
