use vstd::prelude::*;

verus! {

/// The ASCII lower-case form of one character: `A`..`Z` become `a`..`z`,
/// every other character stays as it is.
pub open spec fn ascii_lower_char(c: char) -> char {
    if 'A' <= c && c <= 'Z' {
        ((c as u32) + 32) as char
    } else {
        c
    }
}

/// The ASCII lower-case form of a text, character by character.
pub open spec fn ascii_lower(s: Seq<char>) -> Seq<char> {
    s.map_values(|c: char| ascii_lower_char(c))
}

/// Whether a text holds no ASCII upper-case letter.
pub open spec fn has_no_ascii_upper(s: Seq<char>) -> bool {
    forall|i: int| 0 <= i < s.len() ==> !('A' <= #[trigger] s[i] && s[i] <= 'Z')
}

/// A text without ASCII upper-case letters is its own ASCII lower-case form.
pub proof fn lemma_ascii_lower_fixed(s: Seq<char>)
    requires
        has_no_ascii_upper(s),
    ensures
        ascii_lower(s) == s,
{
    assert(ascii_lower(s) =~= s);
}

fn lower_code(c: char) -> (r: u32)
    ensures
        r == ascii_lower_char(c) as u32,
{
    let x = c as u32;
    if 65 <= x && x <= 90 {
        x + 32
    } else {
        x
    }
}

/// Whether two texts are equal when ASCII letters are compared without regard to case.
pub fn eq_ignore_ascii_case(a: &str, b: &str) -> (r: bool)
    ensures
        r == (ascii_lower(a@) == ascii_lower(b@)),
{
    let n = a.unicode_len();
    let m = b.unicode_len();
    if n != m {
        assert(ascii_lower(a@).len() != ascii_lower(b@).len());
        return false;
    }
    let mut i: usize = 0;
    while i < n
        invariant
            n == a@.len(),
            m == b@.len(),
            n == m,
            i <= n,
            forall|j: int| 0 <= j < i ==> ascii_lower_char(#[trigger] a@[j]) == ascii_lower_char(b@[j]),
        decreases n - i,
    {
        let ca = a.get_char(i);
        let cb = b.get_char(i);
        if lower_code(ca) != lower_code(cb) {
            assert(ascii_lower(a@)[i as int] != ascii_lower(b@)[i as int]);
            return false;
        }
        i = i + 1;
    }
    assert(ascii_lower(a@) =~= ascii_lower(b@));
    true
}

/// Whether two texts are equal, character by character.
pub fn str_eq(a: &str, b: &str) -> (r: bool)
    ensures
        r == (a@ == b@),
{
    let n = a.unicode_len();
    let m = b.unicode_len();
    if n != m {
        return false;
    }
    let mut i: usize = 0;
    while i < n
        invariant
            n == a@.len(),
            m == b@.len(),
            n == m,
            i <= n,
            forall|j: int| 0 <= j < i ==> #[trigger] a@[j] == b@[j],
        decreases n - i,
    {
        if a.get_char(i) != b.get_char(i) {
            return false;
        }
        i = i + 1;
    }
    assert(a@ =~= b@);
    true
}

/// The characters of a text, in order.
fn chars_of(s: &str) -> (v: Vec<char>)
    ensures
        v@ == s@,
{
    let n = s.unicode_len();
    let mut v: Vec<char> = Vec::new();
    let mut i: usize = 0;
    while i < n
        invariant
            n == s@.len(),
            i <= n,
            v@ == s@.subrange(0, i as int),
        decreases n - i,
    {
        v.push(s.get_char(i));
        i = i + 1;
        assert(v@ =~= s@.subrange(0, i as int));
    }
    assert(v@ =~= s@);
    v
}

// ---------------------------------------------------------------------------
// Number texts.
//
// A number text is a text that reads as a decimal floating-point number by the
// grammar below, with letters compared without regard to case:
//
//     Number   ::= Sign? ( 'inf' | 'infinity' | 'nan' | Decimal )
//     Decimal  ::= Mantissa Exponent?
//     Mantissa ::= Digit+ | Digit+ '.' Digit* | Digit* '.' Digit+
//     Exponent ::= 'e' Sign? Digit+
//     Sign     ::= '+' | '-'
//     Digit    ::= '0' .. '9'
// ---------------------------------------------------------------------------

pub open spec fn is_digit(c: char) -> bool {
    '0' <= c && c <= '9'
}

pub open spec fn all_digits(s: Seq<char>) -> bool {
    forall|i: int| 0 <= i < s.len() ==> is_digit(#[trigger] s[i])
}

pub open spec fn is_sign(c: char) -> bool {
    c == '+' || c == '-'
}

/// A text with one leading sign removed, if it has one.
pub open spec fn without_sign(s: Seq<char>) -> Seq<char> {
    if s.len() > 0 && is_sign(s[0]) {
        s.subrange(1, s.len() as int)
    } else {
        s
    }
}

/// `Digit+ | Digit+ '.' Digit* | Digit* '.' Digit+`
pub open spec fn is_mantissa(m: Seq<char>) -> bool {
    ||| m.len() > 0 && all_digits(m)
    ||| exists|p: int|
        0 <= p < m.len() && #[trigger] m[p] == '.' && m.len() > 1 && all_digits(m.subrange(0, p))
            && all_digits(m.subrange(p + 1, m.len() as int))
}

/// What follows the `e` of an exponent: `Sign? Digit+`.
pub open spec fn is_exponent_tail(x: Seq<char>) -> bool {
    let y = without_sign(x);
    y.len() > 0 && all_digits(y)
}

pub open spec fn is_exponent_mark(c: char) -> bool {
    c == 'e' || c == 'E'
}

/// `Mantissa Exponent?`
pub open spec fn is_decimal(b: Seq<char>) -> bool {
    ||| is_mantissa(b)
    ||| exists|k: int|
        0 <= k < b.len() && is_exponent_mark(#[trigger] b[k]) && is_mantissa(b.subrange(0, k))
            && is_exponent_tail(b.subrange(k + 1, b.len() as int))
}

/// Whether a text reads as a number by the grammar above.
pub open spec fn is_number_text(s: Seq<char>) -> bool {
    let b = without_sign(s);
    ||| ascii_lower(b) == "inf"@
    ||| ascii_lower(b) == "infinity"@
    ||| ascii_lower(b) == "nan"@
    ||| is_decimal(b)
}

proof fn lemma_mantissa_chars(m: Seq<char>, i: int)
    requires
        is_mantissa(m),
        0 <= i < m.len(),
    ensures
        is_digit(m[i]) || m[i] == '.',
{
    if !(m.len() > 0 && all_digits(m)) {
        let p = choose|p: int|
            0 <= p < m.len() && #[trigger] m[p] == '.' && m.len() > 1 && all_digits(m.subrange(0, p))
                && all_digits(m.subrange(p + 1, m.len() as int));
        if i < p {
            assert(m.subrange(0, p)[i] == m[i]);
        } else if i > p {
            assert(m.subrange(p + 1, m.len() as int)[i - p - 1] == m[i]);
        }
    }
}

fn all_digits_in(v: &Vec<char>, lo: usize, hi: usize) -> (r: bool)
    requires
        lo <= hi <= v@.len(),
    ensures
        r == all_digits(v@.subrange(lo as int, hi as int)),
{
    let mut i = lo;
    while i < hi
        invariant
            lo <= i <= hi <= v@.len(),
            forall|j: int| lo <= j < i ==> is_digit(#[trigger] v@[j]),
        decreases hi - i,
    {
        let c = v[i];
        if !('0' <= c && c <= '9') {
            assert(v@.subrange(lo as int, hi as int)[i - lo] == c);
            return false;
        }
        i = i + 1;
    }
    assert forall|j: int| 0 <= j < hi - lo implies is_digit(#[trigger] v@.subrange(lo as int, hi as int)[j]) by {
        assert(v@.subrange(lo as int, hi as int)[j] == v@[lo + j]);
    }
    true
}

/// The first position in `lo..hi` that holds `'.'`, or `hi`.
fn first_dot(v: &Vec<char>, lo: usize, hi: usize) -> (r: usize)
    requires
        lo <= hi <= v@.len(),
    ensures
        lo <= r <= hi,
        forall|j: int| lo <= j < r ==> #[trigger] v@[j] != '.',
        r < hi ==> v@[r as int] == '.',
{
    let mut i = lo;
    while i < hi
        invariant
            lo <= i <= hi <= v@.len(),
            forall|j: int| lo <= j < i ==> #[trigger] v@[j] != '.',
        decreases hi - i,
    {
        if v[i] == '.' {
            return i;
        }
        i = i + 1;
    }
    hi
}

/// The first position in `lo..hi` that holds an exponent mark, or `hi`.
fn first_exponent_mark(v: &Vec<char>, lo: usize, hi: usize) -> (r: usize)
    requires
        lo <= hi <= v@.len(),
    ensures
        lo <= r <= hi,
        forall|j: int| lo <= j < r ==> !is_exponent_mark(#[trigger] v@[j]),
        r < hi ==> is_exponent_mark(v@[r as int]),
{
    let mut i = lo;
    while i < hi
        invariant
            lo <= i <= hi <= v@.len(),
            forall|j: int| lo <= j < i ==> !is_exponent_mark(#[trigger] v@[j]),
        decreases hi - i,
    {
        if v[i] == 'e' || v[i] == 'E' {
            return i;
        }
        i = i + 1;
    }
    hi
}

fn mantissa_in(v: &Vec<char>, lo: usize, hi: usize) -> (r: bool)
    requires
        lo <= hi <= v@.len(),
    ensures
        r == is_mantissa(v@.subrange(lo as int, hi as int)),
{
    let ghost m = v@.subrange(lo as int, hi as int);
    let p = first_dot(v, lo, hi);
    if p == hi {
        let r = lo < hi && all_digits_in(v, lo, hi);
        assert(!exists|q: int|
            0 <= q < m.len() && #[trigger] m[q] == '.' && m.len() > 1 && all_digits(m.subrange(0, q))
                && all_digits(m.subrange(q + 1, m.len() as int))) by {
            assert forall|q: int| 0 <= q < m.len() implies #[trigger] m[q] != '.' by {
                assert(m[q] == v@[lo + q]);
            }
        }
        r
    } else {
        let ghost d = (p - lo) as int;
        assert(m[d] == '.');
        assert(!all_digits(m));
        let a = all_digits_in(v, lo, p);
        let b = all_digits_in(v, p + 1, hi);
        assert(m.subrange(0, d) =~= v@.subrange(lo as int, p as int));
        assert(m.subrange(d + 1, m.len() as int) =~= v@.subrange(p + 1, hi as int));
        let r = a && b && hi - lo > 1;
        if !r {
            assert forall|q: int|
                0 <= q < m.len() && #[trigger] m[q] == '.' && m.len() > 1 implies !(all_digits(m.subrange(0, q))
                    && all_digits(m.subrange(q + 1, m.len() as int))) by {
                if q < d {
                    assert(m[q] == v@[lo + q]);
                } else if q > d {
                    assert(m.subrange(0, q)[d] == '.');
                }
            }
        }
        r
    }
}

fn exponent_tail_in(v: &Vec<char>, lo: usize, hi: usize) -> (r: bool)
    requires
        lo <= hi <= v@.len(),
    ensures
        r == is_exponent_tail(v@.subrange(lo as int, hi as int)),
{
    let ghost x = v@.subrange(lo as int, hi as int);
    let start = if lo < hi && (v[lo] == '+' || v[lo] == '-') {
        assert(x[0] == v@[lo as int]);
        assert(without_sign(x) =~= v@.subrange(lo + 1, hi as int));
        lo + 1
    } else {
        assert(lo < hi ==> x[0] == v@[lo as int]);
        lo
    };
    start < hi && all_digits_in(v, start, hi)
}

fn decimal_in(v: &Vec<char>, lo: usize, hi: usize) -> (r: bool)
    requires
        lo <= hi <= v@.len(),
    ensures
        r == is_decimal(v@.subrange(lo as int, hi as int)),
{
    let ghost b = v@.subrange(lo as int, hi as int);
    let k = first_exponent_mark(v, lo, hi);
    if k == hi {
        let r = mantissa_in(v, lo, hi);
        assert forall|q: int| 0 <= q < b.len() implies !is_exponent_mark(#[trigger] b[q]) by {
            assert(b[q] == v@[lo + q]);
        }
        r
    } else {
        let ghost d = (k - lo) as int;
        assert(b[d] == v@[k as int]);
        proof {
            if is_mantissa(b) {
                lemma_mantissa_chars(b, d);
            }
        }
        let a = mantissa_in(v, lo, k);
        let t = exponent_tail_in(v, k + 1, hi);
        assert(b.subrange(0, d) =~= v@.subrange(lo as int, k as int));
        assert(b.subrange(d + 1, b.len() as int) =~= v@.subrange(k + 1, hi as int));
        let r = a && t;
        if !r {
            assert forall|q: int|
                0 <= q < b.len() && is_exponent_mark(#[trigger] b[q]) implies !(is_mantissa(b.subrange(0, q))
                    && is_exponent_tail(b.subrange(q + 1, b.len() as int))) by {
                if q < d {
                    assert(b[q] == v@[lo + q]);
                } else if q > d {
                    assert(b.subrange(0, q)[d] == b[d]);
                    if is_mantissa(b.subrange(0, q)) {
                        lemma_mantissa_chars(b.subrange(0, q), d);
                    }
                }
            }
        }
        r
    }
}

/// A non-empty run of digits is a number.
pub proof fn lemma_digits_are_number(a: Seq<char>)
    requires
        a.len() > 0,
        forall|j: int| 0 <= j < a.len() ==> '0' <= #[trigger] a[j] && a[j] <= '9',
    ensures
        is_number_text(a),
{
    assert(without_sign(a) == a);
    assert(is_mantissa(a));
}

/// A sign in front of a number that has none gives a number again: negative and
/// explicitly positive numbers are numbers.
pub proof fn lemma_signed_number(c: char, s: Seq<char>)
    requires
        c == '-' || c == '+',
        s.len() > 0,
        s[0] != '-' && s[0] != '+',
        is_number_text(s),
    ensures
        is_number_text(seq![c] + s),
{
    let t = seq![c] + s;
    assert(t[0] == c);
    assert(without_sign(t) =~= s);
    assert(without_sign(s) == s);
}

/// Digits, a point and digits form a number when there is at least one digit.
pub proof fn lemma_fraction_is_number(a: Seq<char>, b: Seq<char>)
    requires
        forall|j: int| 0 <= j < a.len() ==> '0' <= #[trigger] a[j] && a[j] <= '9',
        forall|j: int| 0 <= j < b.len() ==> '0' <= #[trigger] b[j] && b[j] <= '9',
        a.len() + b.len() > 0,
    ensures
        is_number_text(a + seq!['.'] + b),
{
    let m = a + seq!['.'] + b;
    let p = a.len() as int;
    assert(m[p] == '.');
    assert(m.subrange(0, p) =~= a);
    assert(m.subrange(p + 1, m.len() as int) =~= b);
    assert(is_mantissa(m));
    if a.len() > 0 {
        assert(m[0] == a[0]);
    } else {
        assert(m[0] == '.');
    }
    assert(without_sign(m) == m);
}

/// Digits, an exponent mark and digits form a number.
pub proof fn lemma_exponent_is_number(a: Seq<char>, mark: char, e: Seq<char>)
    requires
        a.len() > 0,
        forall|j: int| 0 <= j < a.len() ==> '0' <= #[trigger] a[j] && a[j] <= '9',
        mark == 'e' || mark == 'E',
        e.len() > 0,
        forall|j: int| 0 <= j < e.len() ==> '0' <= #[trigger] e[j] && e[j] <= '9',
    ensures
        is_number_text(a + seq![mark] + e),
{
    let b = a + seq![mark] + e;
    let k = a.len() as int;
    assert(b[k] == mark);
    assert(b.subrange(0, k) =~= a);
    assert(b.subrange(k + 1, b.len() as int) =~= e);
    assert(is_mantissa(a));
    assert(e[0] == e[0]);
    assert(is_digit(e[0]));
    assert(without_sign(e) == e);
    assert(is_decimal(b));
    assert(b[0] == a[0]);
    assert(without_sign(b) == b);
}

/// The empty text is no number.
pub proof fn lemma_empty_is_no_number()
    ensures
        !is_number_text(Seq::<char>::empty()),
{
    reveal_strlit("inf");
    reveal_strlit("infinity");
    reveal_strlit("nan");
    let e = Seq::<char>::empty();
    assert(without_sign(e) == e);
    assert(ascii_lower(e).len() == 0);
    assert(!is_mantissa(e));
}

proof fn lemma_lower_keeps_comma(b: Seq<char>, i: int)
    requires
        0 <= i < b.len(),
        b[i] == ',',
    ensures
        ascii_lower(b)[i] == ',',
{
}

/// A number holds no comma.
pub proof fn lemma_number_has_no_comma(s: Seq<char>)
    requires
        is_number_text(s),
    ensures
        !s.contains(','),
{
    reveal_strlit("inf");
    reveal_strlit("infinity");
    reveal_strlit("nan");
    if s.contains(',') {
        let i = choose|i: int| 0 <= i < s.len() && s[i] == ',';
        let b = without_sign(s);
        let off: int = if s.len() > 0 && is_sign(s[0]) { 1 } else { 0 };
        assert(i >= off);
        let bi = i - off;
        assert(b[bi] == ',');
        lemma_lower_keeps_comma(b, bi);
        let l = ascii_lower(b);
        assert(l.len() == b.len());
        assert(bi < b.len());
        if l == "inf"@ {
            assert(0 <= bi < 3);
            assert(l[bi] == "inf"@[bi]);
        }
        if l == "infinity"@ {
            assert(0 <= bi < 8);
            assert(l[bi] == "infinity"@[bi]);
        }
        if l == "nan"@ {
            assert(l[bi] == "nan"@[bi]);
        }
        if is_mantissa(b) {
            lemma_mantissa_chars(b, bi);
        } else {
            let k = choose|k: int|
                0 <= k < b.len() && is_exponent_mark(#[trigger] b[k]) && is_mantissa(b.subrange(0, k))
                    && is_exponent_tail(b.subrange(k + 1, b.len() as int));
            if bi < k {
                assert(b.subrange(0, k)[bi] == ',');
                lemma_mantissa_chars(b.subrange(0, k), bi);
            } else if bi > k {
                let x = b.subrange(k + 1, b.len() as int);
                let y = without_sign(x);
                let j = bi - k - 1;
                assert(x[j] == ',');
                if x.len() > 0 && is_sign(x[0]) {
                    assert(j >= 1);
                    assert(y[j - 1] == ',');
                } else {
                    assert(y[j] == ',');
                }
            }
        }
    }
}

/// Whether a text reads as a number (see the grammar above).
pub fn is_number(s: &str) -> (r: bool)
    ensures
        r == is_number_text(s@),
{
    let n = s.unicode_len();
    let v = chars_of(s);
    let start: usize = if n > 0 && (v[0] == '+' || v[0] == '-') {
        1
    } else {
        0
    };
    assert(without_sign(s@) =~= v@.subrange(start as int, n as int));
    let body = s.substring_char(start, n);
    if eq_ignore_ascii_case(body, "inf") || eq_ignore_ascii_case(body, "infinity")
        || eq_ignore_ascii_case(body, "nan") {
        proof {
            reveal_strlit("inf");
            reveal_strlit("infinity");
            reveal_strlit("nan");
            lemma_ascii_lower_fixed("inf"@);
            lemma_ascii_lower_fixed("infinity"@);
            lemma_ascii_lower_fixed("nan"@);
        }
        true
    } else {
        proof {
            reveal_strlit("inf");
            reveal_strlit("infinity");
            reveal_strlit("nan");
            lemma_ascii_lower_fixed("inf"@);
            lemma_ascii_lower_fixed("infinity"@);
            lemma_ascii_lower_fixed("nan"@);
        }
        decimal_in(&v, start, n)
    }
}

/// Whether a character is white space: the characters of the Unicode property
/// White_Space.
pub open spec fn is_white_space(c: char) -> bool {
    let x = c as u32;
    ||| 0x09 <= x && x <= 0x0D
    ||| x == 0x20
    ||| x == 0x85
    ||| x == 0xA0
    ||| x == 0x1680
    ||| 0x2000 <= x && x <= 0x200A
    ||| x == 0x2028
    ||| x == 0x2029
    ||| x == 0x202F
    ||| x == 0x205F
    ||| x == 0x3000
}

/// A text without the white space at its start.
pub open spec fn strip_leading(s: Seq<char>) -> Seq<char>
    decreases s.len(),
{
    if s.len() > 0 && is_white_space(s[0]) {
        strip_leading(s.drop_first())
    } else {
        s
    }
}

/// A text without the white space at its end.
pub open spec fn strip_trailing(s: Seq<char>) -> Seq<char>
    decreases s.len(),
{
    if s.len() > 0 && is_white_space(s.last()) {
        strip_trailing(s.drop_last())
    } else {
        s
    }
}

/// A text without its leading and trailing white space.
pub open spec fn trimmed(s: Seq<char>) -> Seq<char> {
    strip_trailing(strip_leading(s))
}

/// Whether a character is white space.
pub fn white_space(c: char) -> (r: bool)
    ensures
        r == is_white_space(c),
{
    let x = c as u32;
    (0x09 <= x && x <= 0x0D) || x == 0x20 || x == 0x85 || x == 0xA0 || x == 0x1680 || (0x2000 <= x
        && x <= 0x200A) || x == 0x2028 || x == 0x2029 || x == 0x202F || x == 0x205F || x == 0x3000
}

proof fn lemma_strip_leading_from(s: Seq<char>, i: int)
    requires
        0 <= i <= s.len(),
        forall|j: int| 0 <= j < i ==> is_white_space(#[trigger] s[j]),
    ensures
        strip_leading(s) == strip_leading(s.subrange(i, s.len() as int)),
    decreases i,
{
    if i > 0 {
        lemma_strip_leading_from(s.drop_first(), i - 1);
        assert(s.drop_first().subrange(i - 1, s.len() - 1) =~= s.subrange(i, s.len() as int));
    } else {
        assert(s.subrange(0, s.len() as int) =~= s);
    }
}

proof fn lemma_strip_trailing_to(s: Seq<char>, k: int)
    requires
        0 <= k <= s.len(),
        forall|j: int| k <= j < s.len() ==> is_white_space(#[trigger] s[j]),
    ensures
        strip_trailing(s) == strip_trailing(s.subrange(0, k)),
    decreases s.len() - k,
{
    if k < s.len() {
        lemma_strip_trailing_to(s.drop_last(), k);
        assert(s.drop_last().subrange(0, k) =~= s.subrange(0, k));
    } else {
        assert(s.subrange(0, k) =~= s);
    }
}

/// The text without its leading and trailing white space.
pub fn trim(s: &str) -> (r: &str)
    ensures
        r@ == trimmed(s@),
{
    let n = s.unicode_len();
    let mut i: usize = 0;
    while i < n && white_space(s.get_char(i))
        invariant
            n == s@.len(),
            i <= n,
            forall|j: int| 0 <= j < i ==> is_white_space(#[trigger] s@[j]),
        decreases n - i,
    {
        i = i + 1;
    }
    let ghost rest = s@.subrange(i as int, n as int);
    proof {
        lemma_strip_leading_from(s@, i as int);
        assert(strip_leading(rest) == rest);
    }
    let mut k: usize = n;
    while k > i && white_space(s.get_char(k - 1))
        invariant
            n == s@.len(),
            i <= k <= n,
            rest == s@.subrange(i as int, n as int),
            forall|j: int| k <= j < n ==> is_white_space(#[trigger] s@[j]),
        decreases k,
    {
        k = k - 1;
    }
    proof {
        assert forall|j: int| k - i <= j < rest.len() implies is_white_space(#[trigger] rest[j]) by {
            assert(rest[j] == s@[i + j]);
        }
        lemma_strip_trailing_to(rest, k - i);
        assert(rest.subrange(0, k - i) =~= s@.subrange(i as int, k as int));
        let kept = s@.subrange(i as int, k as int);
        if kept.len() > 0 {
            assert(kept.last() == s@[k - 1]);
        }
        assert(strip_trailing(kept) == kept);
    }
    s.substring_char(i, k)
}

/// A text made only of white space trims to the empty text.
pub proof fn lemma_blank_trims_to_empty(s: Seq<char>)
    requires
        forall|j: int| 0 <= j < s.len() ==> is_white_space(#[trigger] s[j]),
    ensures
        trimmed(s).len() == 0,
{
    lemma_strip_leading_from(s, s.len() as int);
    assert(s.subrange(s.len() as int, s.len() as int).len() == 0);
}

/// White space around a text that neither starts nor ends with white space is
/// removed, and the text itself is kept.
pub proof fn lemma_trim_surrounding(before: Seq<char>, core: Seq<char>, after: Seq<char>)
    requires
        forall|j: int| 0 <= j < before.len() ==> is_white_space(#[trigger] before[j]),
        forall|j: int| 0 <= j < after.len() ==> is_white_space(#[trigger] after[j]),
        core.len() > 0,
        !is_white_space(core[0]),
        !is_white_space(core.last()),
    ensures
        trimmed(before + core + after) == core,
{
    let s = before + core + after;
    assert forall|j: int| 0 <= j < before.len() implies is_white_space(#[trigger] s[j]) by {
        assert(s[j] == before[j]);
    }
    lemma_strip_leading_from(s, before.len() as int);
    let rest = s.subrange(before.len() as int, s.len() as int);
    assert(rest =~= core + after);
    assert(rest[0] == core[0]);
    assert(strip_leading(rest) == rest);
    assert forall|j: int| core.len() <= j < rest.len() implies is_white_space(#[trigger] rest[j]) by {
        assert(rest[j] == after[j - core.len()]);
    }
    lemma_strip_trailing_to(rest, core.len() as int);
    assert(rest.subrange(0, core.len() as int) =~= core);
    assert(core.last() == core[core.len() - 1]);
}

/// A text with every `from` replaced by `to`.
pub open spec fn replace_char(s: Seq<char>, from: char, to: char) -> Seq<char> {
    s.map_values(|c: char| if c == from { to } else { c })
}

/// The text with every `,` replaced by `.`, so that a decimal comma reads as a decimal point.
pub fn comma_to_point(s: &str) -> (r: String)
    ensures
        r@ == replace_char(s@, ',', '.'),
{
    let n = s.unicode_len();
    let mut r = String::new();
    let mut i: usize = 0;
    proof {
        reveal_strlit(".");
    }
    while i < n
        invariant
            n == s@.len(),
            i <= n,
            r@ == replace_char(s@.subrange(0, i as int), ',', '.'),
            "."@ == seq!['.'],
        decreases n - i,
    {
        let c = s.get_char(i);
        if c == ',' {
            r.append(".");
        } else {
            let one = s.substring_char(i, i + 1);
            assert(one@ =~= seq![c]);
            r.append(one);
        }
        assert(replace_char(s@.subrange(0, i + 1), ',', '.') =~= replace_char(s@.subrange(0, i as int), ',', '.')
            + seq![if c == ',' { '.' } else { c }]);
        i = i + 1;
    }
    assert(s@.subrange(0, n as int) =~= s@);
    r
}

} // verus!
