//! Integer kinds and their decimal text.
use vstd::prelude::*;

verus! {

/// The integer types that travel as `N` values.
#[derive(Debug, Clone, Copy, PartialEq, Eq, Structural)]
pub enum NumKind {
    U16,
    I16,
    U32,
    I32,
    U64,
    I64,
}

impl NumKind {
    pub open spec fn min(self) -> int {
        match self {
            NumKind::U16 | NumKind::U32 | NumKind::U64 => 0,
            NumKind::I16 => i16::MIN as int,
            NumKind::I32 => i32::MIN as int,
            NumKind::I64 => i64::MIN as int,
        }
    }

    pub open spec fn max(self) -> int {
        match self {
            NumKind::U16 => u16::MAX as int,
            NumKind::I16 => i16::MAX as int,
            NumKind::U32 => u32::MAX as int,
            NumKind::I32 => i32::MAX as int,
            NumKind::U64 => u64::MAX as int,
            NumKind::I64 => i64::MAX as int,
        }
    }

    pub open spec fn signed(self) -> bool {
        match self {
            NumKind::I16 | NumKind::I32 | NumKind::I64 => true,
            _ => false,
        }
    }

    pub open spec fn holds(self, n: int) -> bool {
        self.min() <= n <= self.max()
    }

    fn is_signed(&self) -> (r: bool)
        ensures
            r == self.signed(),
    {
        match self {
            NumKind::I16 | NumKind::I32 | NumKind::I64 => true,
            _ => false,
        }
    }

    fn contains(&self, n: i128) -> (r: bool)
        ensures
            r == self.holds(n as int),
    {
        match self {
            NumKind::U16 => 0 <= n && n <= u16::MAX as i128,
            NumKind::I16 => i16::MIN as i128 <= n && n <= i16::MAX as i128,
            NumKind::U32 => 0 <= n && n <= u32::MAX as i128,
            NumKind::I32 => i32::MIN as i128 <= n && n <= i32::MAX as i128,
            NumKind::U64 => 0 <= n && n <= u64::MAX as i128,
            NumKind::I64 => i64::MIN as i128 <= n && n <= i64::MAX as i128,
        }
    }
}

pub open spec fn digit_char(d: int) -> char {
    if d == 0 { '0' }
    else if d == 1 { '1' }
    else if d == 2 { '2' }
    else if d == 3 { '3' }
    else if d == 4 { '4' }
    else if d == 5 { '5' }
    else if d == 6 { '6' }
    else if d == 7 { '7' }
    else if d == 8 { '8' }
    else { '9' }
}

pub open spec fn is_digit(c: char) -> bool {
    '0' <= c <= '9'
}

pub open spec fn digit_value(c: char) -> int {
    (c as u32) as int - ('0' as u32) as int
}

/// Decimal digits of `n`, most significant first, without leading zeros.
pub open spec fn nat_digits(n: nat) -> Seq<char>
    decreases n,
{
    if n < 10 {
        seq![digit_char(n as int)]
    } else {
        nat_digits(n / 10).push(digit_char((n % 10) as int))
    }
}

/// Decimal text of `n`: its digits, after a '-' where `n` is negative.
pub open spec fn decimal(n: int) -> Seq<char> {
    if n < 0 {
        seq!['-'] + nat_digits((-n) as nat)
    } else {
        nat_digits(n as nat)
    }
}

/// Decimal text of each number.
pub open spec fn decimals(s: Seq<int>) -> Seq<Seq<char>> {
    s.map_values(|n: int| decimal(n))
}

pub open spec fn all_digits(s: Seq<char>) -> bool {
    s.len() > 0 && forall|i: int| 0 <= i < s.len() ==> is_digit(#[trigger] s[i])
}

pub open spec fn digits_value(s: Seq<char>) -> int
    decreases s.len(),
{
    if s.len() == 0 {
        0
    } else {
        digits_value(s.drop_last()) * 10 + digit_value(s.last())
    }
}

/// The integer that `s` denotes: an optional sign, then one or more decimal
/// digits and nothing else.
pub open spec fn parse_int(s: Seq<char>) -> Option<int> {
    if s.len() > 0 && (s[0] == '+' || s[0] == '-') {
        let d = s.subrange(1, s.len() as int);
        if all_digits(d) {
            Some(if s[0] == '-' { -digits_value(d) } else { digits_value(d) })
        } else {
            None
        }
    } else if all_digits(s) {
        Some(digits_value(s))
    } else {
        None
    }
}

/// The value of kind `k` that `s` denotes, if any. Unsigned kinds take no '-'.
pub open spec fn parse_number(k: NumKind, s: Seq<char>) -> Option<int> {
    match parse_int(s) {
        Some(v) => if (!k.signed() && s[0] == '-') || !k.holds(v) {
            None
        } else {
            Some(v)
        },
        None => None,
    }
}

/// Relies on std's `ToString` for `i128`: its decimal text.
#[verifier::external_body]
fn i128_text(n: i128) -> (r: String)
    ensures
        r@ == decimal(n as int),
{
    n.to_string()
}

/// Relies on std's `str::parse::<i128>`: an optional sign, then digits, in range.
#[verifier::external_body]
fn parse_i128(s: &str) -> (r: Option<i128>)
    ensures
        r == (match parse_int(s@) {
            Some(v) => if i128::MIN <= v <= i128::MAX {
                Some(v as i128)
            } else {
                None
            },
            None => None,
        }),
{
    s.parse::<i128>().ok()
}

/// Decimal text of `n`.
pub fn number_text(n: i128) -> (r: String)
    ensures
        r@ == decimal(n as int),
{
    i128_text(n)
}

/// Reads `s` as a number of kind `k`.
pub fn parse_number_text(k: NumKind, s: &str) -> (r: Option<i128>)
    ensures
        match r {
            Some(v) => parse_number(k, s@) == Some(v as int),
            None => parse_number(k, s@) is None,
        },
{
    let p = parse_i128(s);
    match p {
        Some(v) => {
            if !k.is_signed() && s.get_char(0) == '-' {
                None
            } else if k.contains(v) {
                Some(v)
            } else {
                None
            }
        },
        None => {
            proof {
                if let Some(v) = parse_int(s@) {
                    lemma_kind_in_i128(k, v);
                }
            }
            None
        },
    }
}

proof fn lemma_kind_in_i128(k: NumKind, v: int)
    ensures
        k.holds(v) ==> i128::MIN <= v <= i128::MAX,
{
}

proof fn lemma_nat_digits(n: nat)
    ensures
        all_digits(nat_digits(n)),
        digits_value(nat_digits(n)) == n,
    decreases n,
{
    if n >= 10 {
        lemma_nat_digits(n / 10);
        let p = nat_digits(n / 10);
        let s = nat_digits(n);
        assert(s.drop_last() =~= p);
        assert(forall|i: int| 0 <= i < p.len() ==> s[i] == p[i]);
        assert(digit_value(digit_char((n % 10) as int)) == n % 10);
        assert(n == (n / 10) * 10 + n % 10);
    } else {
        let s = nat_digits(n);
        assert(s.drop_last() =~= Seq::<char>::empty());
        assert(digits_value(s.drop_last()) == 0);
        assert(digit_value(digit_char(n as int)) == n);
    }
}

/// Reading the decimal text of a number gives the number back.
pub proof fn lemma_parse_decimal(n: int)
    ensures
        parse_int(decimal(n)) == Some(n),
        decimal(n).len() > 0,
        decimal(n)[0] == '-' <==> n < 0,
{
    if n < 0 {
        lemma_nat_digits((-n) as nat);
        let s = decimal(n);
        assert(s.subrange(1, s.len() as int) =~= nat_digits((-n) as nat));
    } else {
        lemma_nat_digits(n as nat);
        assert(is_digit(decimal(n)[0]));
    }
}

/// A number of kind `k` read back from its text is the same number.
pub proof fn lemma_number_round_trip(k: NumKind, n: int)
    requires
        k.holds(n),
    ensures
        parse_number(k, decimal(n)) == Some(n),
{
    lemma_parse_decimal(n);
}

} // verus!
