//! Shared primitive types: the fixed-point [`Decimal`] and [`Ratio`], on-chain
//! [`Timestamp`]s, string identifiers ([`ChainId`], [`FayID`]) and the scoring
//! [`Dimension`]s with their per-dimension tables.
use vstd::prelude::*;
use vstd::string::StrSliceExecFns;
use vstd::string::StringExecFns;

verus! {

/// Number of raw units in one whole [`Decimal`] (six fractional digits).
pub const SCALE: i128 = 1_000_000;

/// Division that truncates toward zero, as Rust's integer `/` does.
pub open spec fn trunc_div(a: int, b: int) -> int
    recommends
        b != 0,
{
    if b > 0 {
        if a >= 0 {
            a / b
        } else {
            -((-a) / b)
        }
    } else {
        if a >= 0 {
            -(a / (-b))
        } else {
            (-a) / (-b)
        }
    }
}

/// `true` when `v` fits in an `i128`.
pub open spec fn fits_i128(v: int) -> bool {
    i128::MIN <= v <= i128::MAX
}

/// Fixed-point decimal number: an `i128` count of millionths.
#[derive(Debug, Clone, Copy, PartialEq, Eq, PartialOrd, Ord, Hash, Structural)]
pub struct Decimal {
    /// The value multiplied by [`SCALE`].
    pub raw: i128,
}

impl View for Decimal {
    type V = int;

    open spec fn view(&self) -> int {
        self.raw as int
    }
}

/// Fixed-point product of two raw values, or `None` when an `i128` overflows.
pub open spec fn spec_mul(a: int, b: int) -> Option<int> {
    if fits_i128(a * b) {
        Some(trunc_div(a * b, SCALE as int))
    } else {
        None
    }
}

/// Fixed-point quotient of two raw values, or `None` on a zero divisor or overflow.
pub open spec fn spec_div(a: int, b: int) -> Option<int> {
    if b == 0 || !fits_i128(a * SCALE) {
        None
    } else if fits_i128(trunc_div(a * SCALE, b)) {
        Some(trunc_div(a * SCALE, b))
    } else {
        None
    }
}

/// Truncating division by a positive divisor stays between zero and the dividend.
pub proof fn lemma_trunc_div_bounds(a: int, b: int)
    requires
        b > 0,
    ensures
        a >= 0 ==> 0 <= trunc_div(a, b) <= a,
        a < 0 ==> a <= trunc_div(a, b) <= 0,
{
    if a >= 0 {
        vstd::arithmetic::div_mod::lemma_div_nonincreasing(a, b);
        vstd::arithmetic::div_mod::lemma_div_pos_is_pos(a, b);
    } else {
        vstd::arithmetic::div_mod::lemma_div_nonincreasing(-a, b);
        vstd::arithmetic::div_mod::lemma_div_pos_is_pos(-a, b);
    }
}

impl Decimal {
    /// `0`.
    pub fn zero() -> (d: Decimal)
        ensures
            d@ == 0,
    {
        Decimal { raw: 0 }
    }

    /// `1`.
    pub fn one() -> (d: Decimal)
        ensures
            d@ == SCALE,
    {
        Decimal { raw: SCALE }
    }

    /// Builds a decimal from its raw count of millionths.
    pub fn from_raw(raw: i128) -> (d: Decimal)
        ensures
            d@ == raw,
    {
        Decimal { raw }
    }

    /// The raw count of millionths.
    pub fn raw(&self) -> (r: i128)
        ensures
            r == self@,
    {
        self.raw
    }

    /// The whole number `n`.
    pub fn from_int(n: i64) -> (d: Decimal)
        ensures
            d@ == n * SCALE,
    {
        Decimal { raw: (n as i128) * SCALE }
    }

    /// `true` iff the value is `0`.
    pub fn is_zero(&self) -> (b: bool)
        ensures
            b == (self@ == 0),
    {
        self.raw == 0
    }

    /// `true` iff the value is strictly above `0`.
    pub fn is_positive(&self) -> (b: bool)
        ensures
            b == (self@ > 0),
    {
        self.raw > 0
    }

    /// `true` iff the value is strictly below `0`.
    pub fn is_negative(&self) -> (b: bool)
        ensures
            b == (self@ < 0),
    {
        self.raw < 0
    }

    /// `self + other`, or `None` when the sum overflows.
    pub fn checked_add(self, other: Decimal) -> (r: Option<Decimal>)
        ensures
            r is Some <==> fits_i128(self@ + other@),
            r matches Some(d) ==> d@ == self@ + other@,
    {
        match self.raw.checked_add(other.raw) {
            Some(v) => Some(Decimal { raw: v }),
            None => None,
        }
    }

    /// `self - other`, or `None` when the difference overflows.
    pub fn checked_sub(self, other: Decimal) -> (r: Option<Decimal>)
        ensures
            r is Some <==> fits_i128(self@ - other@),
            r matches Some(d) ==> d@ == self@ - other@,
    {
        match self.raw.checked_sub(other.raw) {
            Some(v) => Some(Decimal { raw: v }),
            None => None,
        }
    }

    /// Fixed-point product, truncated toward zero; `None` when the raw product
    /// overflows an `i128`.
    pub fn checked_mul(self, other: Decimal) -> (r: Option<Decimal>)
        ensures
            r is Some <==> spec_mul(self@, other@) is Some,
            r matches Some(d) ==> spec_mul(self@, other@) == Some(d@),
    {
        match self.raw.checked_mul(other.raw) {
            Some(p) => {
                let q = p / SCALE;
                proof {
                    lemma_trunc_div_bounds(p as int, SCALE as int);
                }
                Some(Decimal { raw: q })
            },
            None => None,
        }
    }

    /// Fixed-point quotient, truncated toward zero; `None` for a zero divisor or when
    /// an intermediate value overflows an `i128`.
    pub fn checked_div(self, other: Decimal) -> (r: Option<Decimal>)
        ensures
            r is Some <==> spec_div(self@, other@) is Some,
            r matches Some(d) ==> spec_div(self@, other@) == Some(d@),
    {
        if other.raw == 0 {
            return None;
        }
        match self.raw.checked_mul(SCALE) {
            Some(n) => {
                let b = other.raw;
                if b > 0 {
                    Some(Decimal { raw: n / b })
                } else if b == i128::MIN {
                    proof {
                        let m = -(b as int);
                        if n >= 0 {
                            vstd::arithmetic::div_mod::lemma_basic_div(n as int, m);
                        } else if n != i128::MIN {
                            vstd::arithmetic::div_mod::lemma_basic_div(-(n as int), m);
                        } else {
                            vstd::arithmetic::div_mod::lemma_div_by_self(m);
                        }
                    }
                    if n == i128::MIN {
                        Some(Decimal { raw: 1 })
                    } else {
                        Some(Decimal { raw: 0 })
                    }
                } else {
                    let d = -b;
                    let q0 = n / d;
                    if q0 == i128::MIN {
                        return None;
                    }
                    Some(Decimal { raw: -q0 })
                }
            },
            None => None,
        }
    }

    /// `true` iff `self < other`.
    pub fn less_than(&self, other: &Decimal) -> (b: bool)
        ensures
            b == (self@ < other@),
    {
        self.raw < other.raw
    }

    /// `true` iff `self <= other`.
    pub fn at_most(&self, other: &Decimal) -> (b: bool)
        ensures
            b == (self@ <= other@),
    {
        self.raw <= other.raw
    }
}

/// A fixed-point value constrained to the closed interval `[0, 1]`.
#[derive(Debug, Clone, Copy, PartialEq, Eq, PartialOrd, Ord, Hash)]
pub struct Ratio {
    value: Decimal,
}

impl View for Ratio {
    type V = int;

    closed spec fn view(&self) -> int {
        self.value@
    }
}

impl Ratio {
    /// `true` when `v` lies in `[0, 1]` (raw `[0, SCALE]`).
    pub open spec fn in_range(v: int) -> bool {
        0 <= v <= SCALE
    }

    #[verifier::type_invariant]
    spec fn inv(self) -> bool {
        Self::in_range(self.value@)
    }

    /// The ratio `0`.
    pub fn zero() -> (r: Ratio)
        ensures
            r@ == 0,
    {
        Ratio { value: Decimal::zero() }
    }

    /// The ratio `1`.
    pub fn one() -> (r: Ratio)
        ensures
            r@ == SCALE,
    {
        Ratio { value: Decimal::one() }
    }

    /// Wraps `value` as a ratio when it lies in `[0, 1]`.
    pub fn new(value: Decimal) -> (r: Option<Ratio>)
        ensures
            r is Some <==> Self::in_range(value@),
            r matches Some(x) ==> x@ == value@,
    {
        if value.raw >= 0 && value.raw <= SCALE {
            Some(Ratio { value })
        } else {
            None
        }
    }

    /// `percent / 100`, when `percent <= 100`.
    pub fn from_percent(percent: u32) -> (r: Option<Ratio>)
        ensures
            r is Some <==> percent <= 100,
            r matches Some(x) ==> x@ == percent * 10_000,
    {
        if percent <= 100 {
            Some(Ratio { value: Decimal { raw: (percent as i128) * 10_000 } })
        } else {
            None
        }
    }

    /// The underlying decimal value, in `[0, 1]`.
    pub fn value(&self) -> (d: Decimal)
        ensures
            d@ == self@,
            Self::in_range(d@),
    {
        proof {
            use_type_invariant(self);
        }
        self.value
    }

    /// `true` iff the ratio is `0`.
    pub fn is_zero(&self) -> (b: bool)
        ensures
            b == (self@ == 0),
    {
        self.value.raw == 0
    }

}

/// An on-chain time, in whole seconds.
#[derive(Debug, Clone, Copy, PartialEq, Eq, PartialOrd, Ord, Hash, Default, Structural)]
pub struct Timestamp {
    /// Seconds since the chain's epoch.
    pub secs: u64,
}

impl Timestamp {
    /// The time `secs` seconds after the epoch.
    pub fn from_secs(secs: u64) -> (t: Timestamp)
        ensures
            t.secs == secs,
    {
        Timestamp { secs }
    }

    /// Seconds since the epoch.
    pub fn as_secs(&self) -> (s: u64)
        ensures
            s == self.secs,
    {
        self.secs
    }

    /// Seconds from `earlier` to `self`, or `0` when `self` precedes `earlier`.
    pub fn saturating_elapsed_since(&self, earlier: Timestamp) -> (d: u64)
        ensures
            d == elapsed(earlier.secs, self.secs),
    {
        if self.secs >= earlier.secs {
            self.secs - earlier.secs
        } else {
            0
        }
    }
}

/// Seconds from `from` to `to`, saturating at `0`.
pub open spec fn elapsed(from: u64, to: u64) -> int {
    if to >= from {
        to - from
    } else {
        0
    }
}

/// Identifier of a merit chain.
#[derive(Debug, Eq, PartialOrd, Ord, Hash, Default)]
pub struct ChainId(pub String);

impl View for ChainId {
    type V = Seq<char>;

    open spec fn view(&self) -> Seq<char> {
        self.0@
    }
}

impl ChainId {
    /// Builds an identifier from its text.
    pub fn new(id: &str) -> (c: ChainId)
        ensures
            c@ == id@,
    {
        ChainId(id.to_owned())
    }

    /// The identifier's text.
    pub fn as_str(&self) -> (s: &str)
        ensures
            s@ == self@,
    {
        self.0.as_str()
    }

    /// `true` iff the identifier is the empty string.
    pub fn is_empty(&self) -> (b: bool)
        ensures
            b == (self@.len() == 0),
    {
        self.0.as_str().unicode_len() == 0
    }
}

impl Clone for ChainId {
    fn clone(&self) -> (c: Self)
        ensures
            c == *self,
    {
        ChainId(self.0.clone())
    }
}

impl PartialEq for ChainId {
    fn eq(&self, other: &Self) -> (b: bool) {
        self.0 == other.0
    }
}

impl vstd::std_specs::cmp::PartialEqSpecImpl for ChainId {
    open spec fn obeys_eq_spec() -> bool {
        true
    }

    open spec fn eq_spec(&self, other: &ChainId) -> bool {
        self@ == other@
    }
}

/// Identity of a participant (contributor, steward, voter).
#[derive(Debug, Eq, PartialOrd, Ord, Hash, Default)]
pub struct FayID(pub String);

impl View for FayID {
    type V = Seq<char>;

    open spec fn view(&self) -> Seq<char> {
        self.0@
    }
}

impl FayID {
    /// Builds an identifier from its text.
    pub fn new(id: &str) -> (c: FayID)
        ensures
            c@ == id@,
    {
        FayID(id.to_owned())
    }

    /// The identifier's text.
    pub fn as_str(&self) -> (s: &str)
        ensures
            s@ == self@,
    {
        self.0.as_str()
    }

    /// `true` iff the identifier is the empty string.
    pub fn is_empty(&self) -> (b: bool)
        ensures
            b == (self@.len() == 0),
    {
        self.0.as_str().unicode_len() == 0
    }
}

impl Clone for FayID {
    fn clone(&self) -> (c: Self)
        ensures
            c == *self,
    {
        FayID(self.0.clone())
    }
}

impl PartialEq for FayID {
    fn eq(&self, other: &Self) -> (b: bool) {
        self.0 == other.0
    }
}

impl vstd::std_specs::cmp::PartialEqSpecImpl for FayID {
    open spec fn obeys_eq_spec() -> bool {
        true
    }

    open spec fn eq_spec(&self, other: &FayID) -> bool {
        self@ == other@
    }
}

/// Text equality of two string slices.
pub fn str_eq(a: &str, b: &str) -> (r: bool)
    ensures
        r == (a@ == b@),
{
    let n = a.unicode_len();
    if n != b.unicode_len() {
        return false;
    }
    let mut i: usize = 0;
    while i < n
        invariant
            n == a@.len(),
            n == b@.len(),
            i <= n,
            forall|j: int| 0 <= j < i ==> a@[j] == b@[j],
        decreases n - i,
    {
        if a.get_char(i) != b.get_char(i) {
            return false;
        }
        i = i + 1;
    }
    proof {
        assert(a@ =~= b@);
    }
    true
}

/// Number of characters in `s`.
pub fn str_len(s: &str) -> (n: usize)
    ensures
        n == s@.len(),
{
    s.unicode_len()
}


/// The character of decimal digit `d` (`0 <= d < 10`).
pub open spec fn digit_char(d: int) -> char {
    ((48 + d) as u32) as char
}

/// The decimal text of `n`, most significant digit first, without leading zeros.
pub open spec fn decimal_text(n: nat) -> Seq<char>
    decreases n,
{
    if n < 10 {
        seq![digit_char(n as int)]
    } else {
        decimal_text(n / 10).push(digit_char((n % 10) as int))
    }
}

fn digit_str(d: u64) -> (s: &'static str)
    requires
        d < 10,
    ensures
        s@ == seq![digit_char(d as int)],
{
    proof {
        reveal_strlit("0");
        reveal_strlit("1");
        reveal_strlit("2");
        reveal_strlit("3");
        reveal_strlit("4");
        reveal_strlit("5");
        reveal_strlit("6");
        reveal_strlit("7");
        reveal_strlit("8");
        reveal_strlit("9");
    }
    if d == 0 {
        "0"
    } else if d == 1 {
        "1"
    } else if d == 2 {
        "2"
    } else if d == 3 {
        "3"
    } else if d == 4 {
        "4"
    } else if d == 5 {
        "5"
    } else if d == 6 {
        "6"
    } else if d == 7 {
        "7"
    } else if d == 8 {
        "8"
    } else {
        "9"
    }
}

/// `prefix` followed by the decimal text of `n`.
pub fn text_with_number(prefix: &str, n: u64) -> (s: String)
    ensures
        s@ == prefix@ + decimal_text(n as nat),
    decreases n,
{
    if n < 10 {
        let mut s = prefix.to_owned();
        s.append(digit_str(n));
        s
    } else {
        let mut s = text_with_number(prefix, n / 10);
        s.append(digit_str(n % 10));
        proof {
            assert(prefix@ + decimal_text(n as nat) =~= prefix@ + decimal_text((n / 10) as nat)
                + seq![digit_char((n % 10) as int)]);
        }
        s
    }
}


/// The three scoring dimensions of a contribution.
#[derive(Debug, Clone, Copy, PartialEq, Eq, PartialOrd, Ord, Hash, Structural)]
pub enum Dimension {
    /// Ideas and theory.
    Thought,
    /// Education and training.
    Training,
    /// Engineering and technique.
    Technique,
}

/// Per-dimension weights of a contribution; an absent dimension has no weight.
#[derive(Debug, Clone, Copy, PartialEq, Eq, Default)]
pub struct DimensionWeights {
    /// Weight of [`Dimension::Thought`].
    pub thought: Option<Ratio>,
    /// Weight of [`Dimension::Training`].
    pub training: Option<Ratio>,
    /// Weight of [`Dimension::Technique`].
    pub technique: Option<Ratio>,
}

impl DimensionWeights {
    /// The weight of `d`, if set.
    pub open spec fn spec_weight(&self, d: Dimension) -> Option<Ratio> {
        match d {
            Dimension::Thought => self.thought,
            Dimension::Training => self.training,
            Dimension::Technique => self.technique,
        }
    }

    /// Weights from `(dimension, weight)` entries; a later entry for the same
    /// dimension replaces an earlier one.
    pub fn from_entries(entries: &[(Dimension, Ratio)]) -> (w: DimensionWeights)
        ensures
            forall|d: Dimension| #[trigger] w.spec_weight(d) == last_entry(entries@, d),
    {
        let mut w = DimensionWeights { thought: None, training: None, technique: None };
        let mut i: usize = 0;
        while i < entries.len()
            invariant
                i <= entries@.len(),
                forall|d: Dimension| #[trigger] w.spec_weight(d) == last_entry(entries@.take(i as int), d),
            decreases entries@.len() - i,
        {
            let ghost old_w = w;
            let (d, r) = entries[i];
            match d {
                Dimension::Thought => {
                    w.thought = Some(r);
                },
                Dimension::Training => {
                    w.training = Some(r);
                },
                Dimension::Technique => {
                    w.technique = Some(r);
                },
            }
            proof {
                let next = entries@.take(i as int + 1);
                assert(next.drop_last() == entries@.take(i as int));
                assert(next.last() == entries@[i as int]);
                assert forall|e: Dimension| #[trigger] w.spec_weight(e) == last_entry(next, e) by {
                    if e == d {
                    } else {
                        assert(w.spec_weight(e) == old_w.spec_weight(e));
                    }
                }
            }
            i = i + 1;
        }
        proof {
            assert(entries@.take(entries@.len() as int) == entries@);
        }
        w
    }

    /// The weight of `d`, if set.
    pub fn get(&self, d: Dimension) -> (r: Option<Ratio>)
        ensures
            r == self.spec_weight(d),
    {
        match d {
            Dimension::Thought => self.thought,
            Dimension::Training => self.training,
            Dimension::Technique => self.technique,
        }
    }
}

/// The value of the last entry for `d` in `entries`, if any.
pub open spec fn last_entry<T>(entries: Seq<(Dimension, T)>, d: Dimension) -> Option<T>
    decreases entries.len(),
{
    if entries.len() == 0 {
        None
    } else if entries.last().0 == d {
        Some(entries.last().1)
    } else {
        last_entry(entries.drop_last(), d)
    }
}

/// The decimal text of `n` has one character exactly when `n < 10`.
pub proof fn lemma_decimal_text_len(n: nat)
    ensures
        decimal_text(n).len() >= 1,
        (decimal_text(n).len() == 1) == (n < 10),
    decreases n,
{
    if n >= 10 {
        lemma_decimal_text_len(n / 10);
    }
}

proof fn lemma_digit_char_injective(a: int, b: int)
    requires
        0 <= a < 10,
        0 <= b < 10,
        a != b,
    ensures
        digit_char(a) != digit_char(b),
{
    assert(digit_char(a) as u32 == 48 + a);
    assert(digit_char(b) as u32 == 48 + b);
}

/// Distinct numbers have distinct decimal texts.
pub proof fn lemma_decimal_text_injective(a: nat, b: nat)
    requires
        a != b,
    ensures
        decimal_text(a) != decimal_text(b),
    decreases a + b,
{
    lemma_decimal_text_len(a);
    lemma_decimal_text_len(b);
    if a < 10 && b < 10 {
        lemma_digit_char_injective(a as int, b as int);
        assert(decimal_text(a)[0] != decimal_text(b)[0]);
    } else if a >= 10 && b >= 10 {
        let x = decimal_text(a);
        let y = decimal_text(b);
        if a % 10 != b % 10 {
            lemma_digit_char_injective((a % 10) as int, (b % 10) as int);
            assert(x.last() != y.last());
        } else {
            assert(a / 10 != b / 10);
            lemma_decimal_text_injective(a / 10, b / 10);
            if x == y {
                assert(x.drop_last() =~= decimal_text(a / 10));
                assert(y.drop_last() =~= decimal_text(b / 10));
            }
        }
    }
}

/// Unicode `White_Space` code points: U+0009–U+000D, U+0020, U+0085, U+00A0, U+1680,
/// U+2000–U+200A, U+2028, U+2029, U+202F, U+205F and U+3000.
pub open spec fn unicode_white_space(c: char) -> bool {
    let v = c as u32;
    ||| 9 <= v <= 13
    ||| v == 32
    ||| v == 0x85
    ||| v == 0xA0
    ||| v == 0x1680
    ||| 0x2000 <= v <= 0x200A
    ||| v == 0x2028
    ||| v == 0x2029
    ||| v == 0x202F
    ||| v == 0x205F
    ||| v == 0x3000
}

/// `true` exactly for the characters with the Unicode `White_Space` property, the
/// set `char::is_whitespace` accepts (listed in [`unicode_white_space`]).
fn char_is_whitespace(c: char) -> (b: bool)
    ensures
        b == unicode_white_space(c),
{
    let v = c as u32;
    (9 <= v && v <= 13) || v == 32 || v == 0x85 || v == 0xA0 || v == 0x1680 || (0x2000 <= v
        && v <= 0x200A) || v == 0x2028 || v == 0x2029 || v == 0x202F || v == 0x205F || v
        == 0x3000
}

/// `true` iff `s` is empty once surrounding whitespace is trimmed, i.e. every
/// character of `s` is whitespace.
pub fn is_blank(s: &str) -> (b: bool)
    ensures
        b == (forall|i: int| 0 <= i < s@.len() ==> unicode_white_space(#[trigger] s@[i])),
{
    let n = s.unicode_len();
    let mut i: usize = 0;
    while i < n
        invariant
            n == s@.len(),
            i <= n,
            forall|j: int| 0 <= j < i ==> unicode_white_space(#[trigger] s@[j]),
        decreases n - i,
    {
        if !char_is_whitespace(s.get_char(i)) {
            return false;
        }
        i = i + 1;
    }
    true
}

/// Lexicographic order of texts by Unicode scalar value (the order of `str`'s `Ord`).
pub open spec fn lex_lt(a: Seq<char>, b: Seq<char>) -> bool
    decreases a.len(),
{
    if b.len() == 0 {
        false
    } else if a.len() == 0 {
        true
    } else if a[0] == b[0] {
        lex_lt(a.subrange(1, a.len() as int), b.subrange(1, b.len() as int))
    } else {
        (a[0] as int) < (b[0] as int)
    }
}

/// No text precedes itself.
pub proof fn lemma_lex_irreflexive(a: Seq<char>)
    ensures
        !lex_lt(a, a),
    decreases a.len(),
{
    if a.len() > 0 {
        lemma_lex_irreflexive(a.subrange(1, a.len() as int));
    }
}

/// The order is transitive.
pub proof fn lemma_lex_transitive(a: Seq<char>, b: Seq<char>, c: Seq<char>)
    requires
        lex_lt(a, b),
        lex_lt(b, c),
    ensures
        lex_lt(a, c),
    decreases a.len(),
{
    if a.len() > 0 && b.len() > 0 && c.len() > 0 {
        if a[0] == b[0] && b[0] == c[0] {
            lemma_lex_transitive(
                a.subrange(1, a.len() as int),
                b.subrange(1, b.len() as int),
                c.subrange(1, c.len() as int),
            );
        }
    }
}

/// Two distinct texts are ordered one way or the other.
pub proof fn lemma_lex_total(a: Seq<char>, b: Seq<char>)
    requires
        a != b,
    ensures
        lex_lt(a, b) || lex_lt(b, a),
    decreases a.len(),
{
    if a.len() > 0 && b.len() > 0 && a[0] == b[0] {
        let ta = a.subrange(1, a.len() as int);
        let tb = b.subrange(1, b.len() as int);
        if ta == tb {
            assert(a =~= seq![a[0]] + ta);
            assert(b =~= seq![b[0]] + tb);
        }
        lemma_lex_total(ta, tb);
    } else if a.len() == 0 && b.len() == 0 {
        assert(a =~= b);
    } else if a.len() > 0 && b.len() > 0 {
        assert((a[0] as int) != (b[0] as int));
    }
}

/// The order is asymmetric.
pub proof fn lemma_lex_asymmetric(a: Seq<char>, b: Seq<char>)
    requires
        lex_lt(a, b),
    ensures
        !lex_lt(b, a),
    decreases a.len(),
{
    if a.len() > 0 && b.len() > 0 && a[0] == b[0] {
        lemma_lex_asymmetric(a.subrange(1, a.len() as int), b.subrange(1, b.len() as int));
    }
}

/// `true` iff `a` precedes `b` in [`lex_lt`] order.
pub fn str_lex_lt(a: &str, b: &str) -> (r: bool)
    ensures
        r == lex_lt(a@, b@),
{
    let na = a.unicode_len();
    let nb = b.unicode_len();
    let mut i: usize = 0;
    assert(a@.subrange(0, na as int) =~= a@);
    assert(b@.subrange(0, nb as int) =~= b@);
    while i < na && i < nb
        invariant
            na == a@.len(),
            nb == b@.len(),
            i <= na,
            i <= nb,
            lex_lt(a@, b@) == lex_lt(a@.subrange(i as int, na as int), b@.subrange(i as int, nb as int)),
        decreases na - i,
    {
        let ca = a.get_char(i);
        let cb = b.get_char(i);
        let ghost sa = a@.subrange(i as int, na as int);
        let ghost sb = b@.subrange(i as int, nb as int);
        assert(sa[0] == ca && sb[0] == cb);
        if ca != cb {
            return (ca as u32) < (cb as u32);
        }
        assert(sa.subrange(1, sa.len() as int) =~= a@.subrange(i as int + 1, na as int));
        assert(sb.subrange(1, sb.len() as int) =~= b@.subrange(i as int + 1, nb as int));
        i = i + 1;
    }
    i < nb
}
} // verus!
