use vstd::prelude::*;
use crate::text::str_eq;

verus! {

/// The SI prefixes used on the axes of the diagrams.
#[derive(Clone, Copy, Debug, PartialEq, Eq, Structural)]
pub enum SiPrefix {
    Nano,
    Micro,
    Milli,
    Unit,
    Kilo,
    Mega,
    Giga,
}

impl SiPrefix {
    /// The power of ten that the prefix stands for.
    pub open spec fn spec_exponent(self) -> int {
        match self {
            SiPrefix::Nano => -9,
            SiPrefix::Micro => -6,
            SiPrefix::Milli => -3,
            SiPrefix::Unit => 0,
            SiPrefix::Kilo => 3,
            SiPrefix::Mega => 6,
            SiPrefix::Giga => 9,
        }
    }

    pub open spec fn spec_symbol(self) -> Seq<char> {
        match self {
            SiPrefix::Nano => "n"@,
            SiPrefix::Micro => "µ"@,
            SiPrefix::Milli => "m"@,
            SiPrefix::Unit => ""@,
            SiPrefix::Kilo => "k"@,
            SiPrefix::Mega => "M"@,
            SiPrefix::Giga => "G"@,
        }
    }

    /// The next larger prefix; `Giga` is the largest and stays.
    pub open spec fn spec_next_larger(self) -> SiPrefix {
        match self {
            SiPrefix::Nano => SiPrefix::Micro,
            SiPrefix::Micro => SiPrefix::Milli,
            SiPrefix::Milli => SiPrefix::Unit,
            SiPrefix::Unit => SiPrefix::Kilo,
            SiPrefix::Kilo => SiPrefix::Mega,
            SiPrefix::Mega => SiPrefix::Giga,
            SiPrefix::Giga => SiPrefix::Giga,
        }
    }

    /// The power of ten that the prefix stands for.
    pub fn exponent(&self) -> (r: i32)
        ensures
            r == self.spec_exponent(),
    {
        match self {
            SiPrefix::Nano => -9,
            SiPrefix::Micro => -6,
            SiPrefix::Milli => -3,
            SiPrefix::Unit => 0,
            SiPrefix::Kilo => 3,
            SiPrefix::Mega => 6,
            SiPrefix::Giga => 9,
        }
    }

    /// The symbol that is written behind a number.
    pub fn symbol(&self) -> (r: &'static str)
        ensures
            r@ == self.spec_symbol(),
    {
        match self {
            SiPrefix::Nano => "n",
            SiPrefix::Micro => "µ",
            SiPrefix::Milli => "m",
            SiPrefix::Unit => "",
            SiPrefix::Kilo => "k",
            SiPrefix::Mega => "M",
            SiPrefix::Giga => "G",
        }
    }

    /// The prefix to use when a number, scaled by this prefix, rounds to a thousand.
    pub fn next_larger(&self) -> (r: SiPrefix)
        ensures
            r == self.spec_next_larger(),
    {
        match self {
            SiPrefix::Nano => SiPrefix::Micro,
            SiPrefix::Micro => SiPrefix::Milli,
            SiPrefix::Milli => SiPrefix::Unit,
            SiPrefix::Unit => SiPrefix::Kilo,
            SiPrefix::Kilo => SiPrefix::Mega,
            SiPrefix::Mega => SiPrefix::Giga,
            SiPrefix::Giga => SiPrefix::Giga,
        }
    }
}

/// Stepping to the next larger prefix multiplies by a thousand, except at `Giga`,
/// which stays.
pub proof fn lemma_next_larger_step(p: SiPrefix)
    ensures
        p != SiPrefix::Giga ==> p.spec_next_larger().spec_exponent() == p.spec_exponent() + 3,
        p == SiPrefix::Giga ==> p.spec_next_larger() == p,
{
}

/// The number of decimals that shows `sig` significant digits of a number whose
/// leading digit stands at the power of ten `exp`, kept between 0 and 6.
pub open spec fn spec_significant_decimals(sig: int, exp: int) -> int {
    let d = sig - 1 - exp;
    if d < 0 {
        0
    } else if d > 6 {
        6
    } else {
        d
    }
}

/// The number of decimals that shows `sig` significant digits of a number whose
/// leading digit stands at the power of ten `exp`, kept between 0 and 6.
pub fn significant_decimals(sig: i32, exp: i32) -> (r: usize)
    ensures
        r == spec_significant_decimals(sig as int, exp as int),
{
    let d: i64 = sig as i64 - 1 - exp as i64;
    if d < 0 {
        0
    } else if d > 6 {
        6
    } else {
        d as usize
    }
}

/// A text without the characters `c` at its end.
pub open spec fn drop_trailing(s: Seq<char>, c: char) -> Seq<char>
    decreases s.len(),
{
    if s.len() > 0 && s.last() == c {
        drop_trailing(s.drop_last(), c)
    } else {
        s
    }
}

/// A decimal text without the zeros after its last significant decimal, without a
/// point that has no decimals behind it, and with `-0` written as `0`.
pub open spec fn spec_trim_zeros(s: Seq<char>) -> Seq<char> {
    let t = if s.contains('.') {
        let z = drop_trailing(s, '0');
        if z.len() > 0 && z.last() == '.' {
            z.drop_last()
        } else {
            z
        }
    } else {
        s
    };
    if t == "-0"@ {
        "0"@
    } else {
        t
    }
}

proof fn lemma_drop_trailing_prefix(s: Seq<char>, c: char, k: int)
    requires
        0 <= k <= s.len(),
        forall|j: int| k <= j < s.len() ==> s[j] == c,
    ensures
        drop_trailing(s, c) == drop_trailing(s.subrange(0, k), c),
    decreases s.len() - k,
{
    if k < s.len() {
        assert(s.drop_last() =~= s.subrange(0, s.len() - 1));
        lemma_drop_trailing_prefix(s.drop_last(), c, k);
        assert(s.drop_last().subrange(0, k) =~= s.subrange(0, k));
    } else {
        assert(s.subrange(0, k) =~= s);
    }
}

fn contains_point(s: &str) -> (r: bool)
    ensures
        r == s@.contains('.'),
{
    let n = s.unicode_len();
    let mut i: usize = 0;
    while i < n
        invariant
            n == s@.len(),
            i <= n,
            forall|j: int| 0 <= j < i ==> #[trigger] s@[j] != '.',
        decreases n - i,
    {
        if s.get_char(i) == '.' {
            return true;
        }
        i = i + 1;
    }
    false
}

/// Writes a decimal text as short as it reads the same.
pub fn trim_zeros(s: &str) -> (r: String)
    ensures
        r@ == spec_trim_zeros(s@),
{
    let n = s.unicode_len();
    let mut k = n;
    if contains_point(s) {
        while k > 0 && s.get_char(k - 1) == '0'
            invariant
                n == s@.len(),
                k <= n,
                forall|j: int| k <= j < n ==> #[trigger] s@[j] == '0',
            decreases k,
        {
            k = k - 1;
        }
        proof {
            lemma_drop_trailing_prefix(s@, '0', k as int);
            assert(k == 0 || s@.subrange(0, k as int).last() != '0');
            assert(drop_trailing(s@.subrange(0, k as int), '0') == s@.subrange(0, k as int));
        }
        if k > 0 && s.get_char(k - 1) == '.' {
            assert(s@.subrange(0, k as int).drop_last() =~= s@.subrange(0, k - 1));
            k = k - 1;
        }
    } else {
        assert(s@.subrange(0, n as int) =~= s@);
    }
    let t = s.substring_char(0, k);
    if str_eq(t, "-0") {
        String::from_str("0")
    } else {
        String::from_str(t)
    }
}

/// A number shown with `sig` significant digits that rounds up to a thousand is
/// written with the prefix kilo.
pub open spec fn spec_thousand_as_kilo(s: Seq<char>) -> Seq<char> {
    if s == "1000"@ {
        "1k"@
    } else if s == "-1000"@ {
        "-1k"@
    } else {
        s
    }
}

/// Writes a thousand as one kilo.
pub fn thousand_as_kilo(s: &str) -> (r: String)
    ensures
        r@ == spec_thousand_as_kilo(s@),
{
    if str_eq(s, "1000") {
        String::from_str("1k")
    } else if str_eq(s, "-1000") {
        String::from_str("-1k")
    } else {
        String::from_str(s)
    }
}

/// Zero written with `decimals` decimals.
pub open spec fn spec_zero_text(decimals: nat) -> Seq<char> {
    if decimals == 0 {
        "0"@
    } else {
        "0."@ + Seq::new(decimals, |i: int| '0')
    }
}

/// Zero written with `decimals` decimals.
pub fn zero_text(decimals: usize) -> (r: String)
    ensures
        r@ == spec_zero_text(decimals as nat),
{
    if decimals == 0 {
        return String::from_str("0");
    }
    let mut r = String::from_str("0.");
    let mut i: usize = 0;
    proof {
        reveal_strlit("0");
    }
    while i < decimals
        invariant
            i <= decimals,
            r@ == "0."@ + Seq::new(i as nat, |j: int| '0'),
            "0"@ == seq!['0'],
        decreases decimals - i,
    {
        r.append("0");
        assert(("0."@ + Seq::new(i as nat, |j: int| '0')) + seq!['0'] =~= "0."@ + Seq::new(
            (i + 1) as nat,
            |j: int| '0',
        ));
        i = i + 1;
    }
    r
}

/// Whether a number text shows a negative zero, such as `-0` or `-0.00`.
pub open spec fn is_negative_zero(s: Seq<char>) -> bool {
    &&& s.len() >= 2
    &&& s[0] == '-'
    &&& s[1] == '0'
    &&& forall|i: int| 2 <= i < s.len() ==> (#[trigger] s[i] == '.' || s[i] == '0')
}

/// The label of an axis tick: the number text `formatted` (written with
/// `decimals` decimals), with a negative zero written as zero, followed by the
/// prefix symbol.
pub open spec fn spec_fixed_label(formatted: Seq<char>, decimals: nat, prefix: Seq<char>) -> Seq<char> {
    if is_negative_zero(formatted) {
        spec_zero_text(decimals) + prefix
    } else {
        formatted + prefix
    }
}

/// The label of an axis tick: the number text `formatted` (written with
/// `decimals` decimals), with a negative zero written as zero, followed by the
/// prefix symbol.
pub fn fixed_label(formatted: &str, decimals: usize, prefix: &str) -> (r: String)
    ensures
        r@ == spec_fixed_label(formatted@, decimals as nat, prefix@),
{
    let n = formatted.unicode_len();
    let mut negative_zero = n >= 2 && formatted.get_char(0) == '-' && formatted.get_char(1) == '0';
    let mut i: usize = 2;
    while negative_zero && i < n
        invariant
            n == formatted@.len(),
            2 <= i,
            negative_zero ==> i <= n && formatted@.len() >= 2 && formatted@[0] == '-' && formatted@[1] == '0'
                && forall|j: int| 2 <= j < i ==> (#[trigger] formatted@[j] == '.' || formatted@[j] == '0'),
            !negative_zero ==> !is_negative_zero(formatted@),
        decreases n - i,
    {
        let c = formatted.get_char(i);
        if c != '.' && c != '0' {
            negative_zero = false;
        }
        i = i + 1;
    }
    let mut r = if negative_zero {
        zero_text(decimals)
    } else {
        String::from_str(formatted)
    };
    r.append(prefix);
    r
}

proof fn lemma_drop_trailing_is_prefix(s: Seq<char>, c: char)
    ensures
        exists|k: int|
            0 <= k <= s.len() && drop_trailing(s, c) == s.subrange(0, k) && (forall|j: int|
                k <= j < s.len() ==> #[trigger] s[j] == c) && (k > 0 ==> s[k - 1] != c),
    decreases s.len(),
{
    if s.len() > 0 && s.last() == c {
        lemma_drop_trailing_is_prefix(s.drop_last(), c);
        let k = choose|k: int|
            0 <= k <= s.drop_last().len() && drop_trailing(s.drop_last(), c) == s.drop_last().subrange(0, k)
                && (forall|j: int| k <= j < s.drop_last().len() ==> #[trigger] s.drop_last()[j] == c) && (k > 0
                ==> s.drop_last()[k - 1] != c);
        assert(s.drop_last().subrange(0, k) =~= s.subrange(0, k));
        assert forall|j: int| k <= j < s.len() implies #[trigger] s[j] == c by {
            if j < s.len() - 1 {
                assert(s[j] == s.drop_last()[j]);
            }
        }
        assert(k > 0 ==> s[k - 1] == s.drop_last()[k - 1]);
    } else {
        assert(s.subrange(0, s.len() as int) =~= s);
    }
}

/// Writing a number text short keeps its value: when the text holds a digit other
/// than zero, the result is the text with only zeros and points cut off at its end,
/// so its sign and all its other digits stay.
pub proof fn lemma_trim_zeros_keeps_value(s: Seq<char>)
    requires
        exists|i: int| 0 <= i < s.len() && '1' <= #[trigger] s[i] && s[i] <= '9',
    ensures
        exists|k: int|
            0 < k <= s.len() && spec_trim_zeros(s) == s.subrange(0, k) && forall|j: int|
                k <= j < s.len() ==> (#[trigger] s[j] == '0' || s[j] == '.'),
{
    reveal_strlit("-0");
    let i = choose|i: int| 0 <= i < s.len() && '1' <= #[trigger] s[i] && s[i] <= '9';
    let mut kk: int = s.len() as int;
    let mut t = s;
    if s.contains('.') {
        lemma_drop_trailing_is_prefix(s, '0');
        let k = choose|k: int|
            0 <= k <= s.len() && drop_trailing(s, '0') == s.subrange(0, k) && (forall|j: int|
                k <= j < s.len() ==> #[trigger] s[j] == '0') && (k > 0 ==> s[k - 1] != '0');
        assert(i < k);
        let z = drop_trailing(s, '0');
        if z.len() > 0 && z.last() == '.' {
            assert(z.last() == s[k - 1]);
            assert(i < k - 1);
            assert(z.drop_last() =~= s.subrange(0, k - 1));
            kk = k - 1;
            t = z.drop_last();
        } else {
            kk = k;
            t = z;
        }
    } else {
        assert(s.subrange(0, s.len() as int) =~= s);
    }
    assert(t == s.subrange(0, kk));
    assert(i < kk);
    assert(forall|j: int| kk <= j < s.len() ==> (#[trigger] s[j] == '0' || s[j] == '.'));
    assert(t[i] == s[i]);
    if t == "-0"@ {
        assert(t[i] == "-0"@[i]);
    }
    assert(spec_trim_zeros(s) == t);
}

/// Only a minus zero written with a point and zeros, such as `-0.00`, becomes `0`.
pub proof fn lemma_trim_zeros_minus_zero(zeros: nat)
    ensures
        spec_trim_zeros(seq!['-', '0', '.'] + Seq::new(zeros, |i: int| '0')) == "0"@,
{
    reveal_strlit("-0");
    reveal_strlit("0");
    let s = seq!['-', '0', '.'] + Seq::new(zeros, |i: int| '0');
    assert(s[2] == '.');
    assert(s.contains('.'));
    lemma_drop_trailing_prefix(s, '0', 3);
    assert(s.subrange(0, 3) =~= seq!['-', '0', '.']);
    let z = drop_trailing(s, '0');
    assert(z == seq!['-', '0', '.']);
    assert(z.drop_last() =~= "-0"@);
}

/// How a decimal text `a.b` is written short (when it is no minus zero): the
/// zeros at the end of the decimals `b` are cut off, and the point too when no
/// decimal other than zero is left; the integer part `a`, with its sign, stays.
pub proof fn lemma_trim_zeros_decimal(a: Seq<char>, b: Seq<char>)
    requires
        forall|j: int| 0 <= j < a.len() ==> #[trigger] a[j] != '.',
        forall|j: int| 0 <= j < b.len() ==> '0' <= #[trigger] b[j] && b[j] <= '9',
        a != seq!['-', '0'],
    ensures
        (exists|j: int| 0 <= j < b.len() && #[trigger] b[j] != '0') ==> exists|m: int|
            0 < m <= b.len() && b[m - 1] != '0' && (forall|j: int| m <= j < b.len() ==> #[trigger] b[j] == '0')
                && spec_trim_zeros(a + seq!['.'] + b) == a + seq!['.'] + b.subrange(0, m),
        (forall|j: int| 0 <= j < b.len() ==> #[trigger] b[j] == '0') ==> spec_trim_zeros(a + seq!['.'] + b) == a,
{
    reveal_strlit("-0");
    let s = a + seq!['.'] + b;
    let p = a.len() as int;
    assert(s[p] == '.');
    assert(s.contains('.'));
    lemma_drop_trailing_is_prefix(b, '0');
    let k = choose|k: int|
        0 <= k <= b.len() && drop_trailing(b, '0') == b.subrange(0, k) && (forall|j: int|
            k <= j < b.len() ==> #[trigger] b[j] == '0') && (k > 0 ==> b[k - 1] != '0');
    let kk = p + 1 + k;
    assert forall|j: int| kk <= j < s.len() implies #[trigger] s[j] == '0' by {
        assert(s[j] == b[j - p - 1]);
    }
    lemma_drop_trailing_prefix(s, '0', kk);
    let z = s.subrange(0, kk);
    assert(z =~= a + seq!['.'] + b.subrange(0, k));
    assert(z.last() == s[kk - 1]);
    if k > 0 {
        assert(s[kk - 1] == b[k - 1]);
    }
    assert(drop_trailing(z, '0') == z);
    assert(drop_trailing(s, '0') == z);
    if k > 0 {
        assert(z.last() != '.');
        if z == "-0"@ {
            assert(z[p] == '.');
            assert(z.len() == 2);
        }
        assert(spec_trim_zeros(s) == z);
    } else {
        assert(z.drop_last() =~= a);
        assert(z.len() > 0 && z.last() == '.');
        assert("-0"@ =~= seq!['-', '0']);
        assert(spec_trim_zeros(s) == a);
        if exists|j: int| 0 <= j < b.len() && #[trigger] b[j] != '0' {
            let j = choose|j: int| 0 <= j < b.len() && #[trigger] b[j] != '0';
            assert(b[j] == '0');
        }
    }
    if forall|j: int| 0 <= j < b.len() ==> #[trigger] b[j] == '0' {
        if k > 0 {
            assert(b[k - 1] == '0');
        }
    }
}

} // verus!
