//! Range expressions over season and episode numbers.
//!
//! An expression is a single positive number, or two of them joined by a
//! dash, the first not greater than the second. It denotes the numbers from
//! the first to the second, both included.

use crate::text::{
    chars_of, decimal, is_digit, lemma_decimal_round_trip, number_token, parse_number,
};
use vstd::prelude::*;
use vstd::string::StringExecFns;
use vstd::string::StrSliceExecFns;

verus! {

/// Why a range expression was refused, with the text at fault.
#[derive(Debug, Clone, PartialEq, Eq)]
pub enum RangeParseError {
    /// The token is not the numeral of a positive number of 32 bits.
    InvalidNumber(String),
    /// The expression's first number is greater than its second.
    StartAfterEnd(String),
}

/// What `RangeParseError` says, over plain sequences of characters.
pub enum RangeFault {
    InvalidNumber(Seq<char>),
    StartAfterEnd(Seq<char>),
}

impl View for RangeParseError {
    type V = RangeFault;

    open spec fn view(&self) -> RangeFault {
        match self {
            RangeParseError::InvalidNumber(token) => RangeFault::InvalidNumber(token@),
            RangeParseError::StartAfterEnd(text) => RangeFault::StartAfterEnd(text@),
        }
    }
}

/// The numbers from `start` to `end`, both included.
#[derive(Debug, Clone, Copy, PartialEq, Eq)]
pub struct NumberRange {
    start: u32,
    end: u32,
}

/// The numbers from `start` to `end`, both included, in increasing order.
pub open spec fn numbers_between(start: u32, end: u32) -> Seq<u32>
    recommends
        start <= end,
{
    Seq::new((end - start + 1) as nat, |i: int| (start + i) as u32)
}

/// Whether `p` is the place of the first dash of `s`.
pub open spec fn is_first_dash(s: Seq<char>, p: int) -> bool {
    &&& 0 <= p < s.len()
    &&& s[p] == '-'
    &&& forall|j: int| 0 <= j < p ==> s[j] != '-'
}

/// The place of the first dash of `s`, where it has one.
pub open spec fn first_dash(s: Seq<char>) -> int {
    choose|p: int| is_first_dash(s, p)
}

/// What a range expression denotes: its first and last number, or the
/// fault for which it is refused.
pub open spec fn range_of(s: Seq<char>) -> Result<(u32, u32), RangeFault> {
    if !s.contains('-') {
        match number_token(s) {
            Some(n) => Ok((n, n)),
            None => Err(RangeFault::InvalidNumber(s)),
        }
    } else {
        let p = first_dash(s);
        let left = s.take(p);
        let right = s.skip(p + 1);
        match number_token(left) {
            None => Err(RangeFault::InvalidNumber(left)),
            Some(a) => match number_token(right) {
                None => Err(RangeFault::InvalidNumber(right)),
                Some(b) => if a <= b {
                    Ok((a, b))
                } else {
                    Err(RangeFault::StartAfterEnd(s))
                },
            },
        }
    }
}

impl NumberRange {
    /// The first number is positive and not greater than the last.
    pub closed spec fn wf(&self) -> bool {
        1 <= self.start <= self.end
    }

    pub closed spec fn spec_start(&self) -> u32 {
        self.start
    }

    pub closed spec fn spec_end(&self) -> u32 {
        self.end
    }

    /// The range from `start` to `end`, if `start` is positive and not
    /// greater than `end`.
    pub fn new(start: u32, end: u32) -> (out: Option<NumberRange>)
        ensures
            out is Some <==> 1 <= start <= end,
            out is Some ==> out->0.wf() && out->0.spec_start() == start && out->0.spec_end()
                == end,
    {
        if 1 <= start && start <= end {
            Some(NumberRange { start, end })
        } else {
            None
        }
    }

    #[verifier::when_used_as_spec(spec_start)]
    pub fn start(&self) -> (out: u32)
        ensures
            out == self.spec_start(),
    {
        self.start
    }

    #[verifier::when_used_as_spec(spec_end)]
    pub fn end(&self) -> (out: u32)
        ensures
            out == self.spec_end(),
    {
        self.end
    }

    /// How many numbers the range holds.
    pub fn len(&self) -> (out: u32)
        requires
            self.wf(),
        ensures
            out == self@.len(),
            out == self.spec_end() - self.spec_start() + 1,
    {
        self.end - self.start + 1
    }

    /// Whether `n` is one of the range's numbers.
    pub fn contains(&self, n: u32) -> (out: bool)
        requires
            self.wf(),
        ensures
            out == self@.contains(n),
            out == (self.spec_start() <= n <= self.spec_end()),
    {
        let out = self.start <= n && n <= self.end;
        proof {
            if out {
                assert(self@[n - self.start] == n);
            }
        }
        out
    }

    /// The range's numbers, in increasing order.
    pub fn to_vec(&self) -> (out: Vec<u32>)
        requires
            self.wf(),
        ensures
            out@ == self@,
    {
        let mut out: Vec<u32> = Vec::new();
        let mut n: u32 = self.start;
        while n < self.end
            invariant
                self.wf(),
                self.start <= n <= self.end,
                out@ == numbers_between(self.start, n).drop_last(),
            decreases self.end - n,
        {
            out.push(n);
            n = n + 1;
            assert(out@ =~= numbers_between(self.start, n).drop_last());
        }
        out.push(n);
        assert(out@ =~= self@);
        out
    }
}

impl View for NumberRange {
    type V = Seq<u32>;

    closed spec fn view(&self) -> Seq<u32> {
        numbers_between(self.start, self.end)
    }
}

/// The view of a range is the run of numbers from its start to its end.
pub proof fn lemma_range_view(range: NumberRange)
    requires
        range.wf(),
    ensures
        1 <= range.spec_start() <= range.spec_end(),
        range@ == numbers_between(range.spec_start(), range.spec_end()),
        range@.len() == range.spec_end() - range.spec_start() + 1,
        forall|i: int| 0 <= i < range@.len() ==> range@[i] == range.spec_start() + i,
        forall|n: u32| range@.contains(n) <==> range.spec_start() <= n <= range.spec_end(),
{
    assert forall|n: u32| range.spec_start() <= n <= range.spec_end() implies range@.contains(
        n,
    ) by {
        assert(range@[n - range.spec_start()] == n);
    }
}

/// Reads a range expression.
///
/// Succeeds exactly on the expressions that `range_of` accepts, with the
/// range that it gives; otherwise the error names the token at fault, or
/// the whole expression where its numbers are in the wrong order.
pub fn parse_range(expr: &str) -> (out: Result<NumberRange, RangeParseError>)
    ensures
        match out {
            Ok(range) => range.wf() && range_of(expr@) == Ok::<(u32, u32), RangeFault>(
                (range.spec_start(), range.spec_end()),
            ),
            Err(e) => range_of(expr@) == Err::<(u32, u32), RangeFault>(e@),
        },
{
    let chars = chars_of(expr);
    let n = chars.len();
    let mut p: usize = 0;
    while p < n && chars[p] != '-'
        invariant
            n == chars.len(),
            p <= n,
            forall|j: int| 0 <= j < p ==> chars@[j] != '-',
        decreases n - p,
    {
        p = p + 1;
    }
    if p == n {
        assert(!expr@.contains('-'));
        assert(chars@.subrange(0, n as int) =~= expr@);
        match parse_number(&chars, 0, n) {
            Some(v) => Ok(NumberRange { start: v, end: v }),
            None => Err(RangeParseError::InvalidNumber(String::from_str(expr))),
        }
    } else {
        proof {
            assert(is_first_dash(expr@, p as int));
            assert(expr@.contains('-'));
            let q = first_dash(expr@);
            assert(is_first_dash(expr@, q));
            assert(q == p) by {
                if q < p {
                    assert(expr@[q] != '-');
                } else if p < q {
                    assert(expr@[p as int] != '-');
                }
            }
            assert(chars@.subrange(0, p as int) =~= expr@.take(p as int));
            assert(chars@.subrange(p + 1, n as int) =~= expr@.skip(p + 1));
        }
        match parse_number(&chars, 0, p) {
            None => Err(
                RangeParseError::InvalidNumber(String::from_str(expr.substring_char(0, p))),
            ),
            Some(a) => match parse_number(&chars, p + 1, n) {
                None => Err(
                    RangeParseError::InvalidNumber(
                        String::from_str(expr.substring_char(p + 1, n)),
                    ),
                ),
                Some(b) => if a <= b {
                    Ok(NumberRange { start: a, end: b })
                } else {
                    Err(RangeParseError::StartAfterEnd(String::from_str(expr)))
                },
            },
        }
    }
}

/// Every expression made of the numerals of `a` and `b` with a dash between
/// them, where `1 <= a <= b`, denotes exactly the numbers from `a` to `b`:
/// `b - a + 1` of them, in increasing order.
pub proof fn lemma_range_of_numerals(a: u32, b: u32)
    requires
        1 <= a <= b,
    ensures
        range_of(decimal(a as nat) + seq!['-'] + decimal(b as nat)) == Ok::<
            (u32, u32),
            RangeFault,
        >((a, b)),
        numbers_between(a, b).len() == b - a + 1,
        forall|i: int| 0 <= i <= b - a ==> numbers_between(a, b)[i] == a + i,
{
    let left = decimal(a as nat);
    let right = decimal(b as nat);
    let s = left + seq!['-'] + right;
    let p = left.len() as int;
    lemma_decimal_round_trip(a as nat);
    lemma_decimal_round_trip(b as nat);
    assert(s[p] == '-');
    assert(is_first_dash(s, p)) by {
        assert forall|j: int| 0 <= j < p implies s[j] != '-' by {
            assert(s[j] == left[j]);
            assert(is_digit(left[j]));
        }
    }
    assert(s.contains('-'));
    let q = first_dash(s);
    assert(is_first_dash(s, q));
    assert(q == p) by {
        if q < p {
            assert(s[q] != '-');
        } else if p < q {
            assert(s[p] != '-');
        }
    }
    assert(s.take(p) =~= left);
    assert(s.skip(p + 1) =~= right);
}

/// A single numeral denotes the one number that it writes.
pub proof fn lemma_range_of_single_numeral(a: u32)
    requires
        1 <= a,
    ensures
        range_of(decimal(a as nat)) == Ok::<(u32, u32), RangeFault>((a, a)),
{
    let s = decimal(a as nat);
    lemma_decimal_round_trip(a as nat);
    if s.contains('-') {
        let j = choose|j: int| 0 <= j < s.len() && s[j] == '-';
        assert(is_digit(s[j]));
    }
}

} // verus!
