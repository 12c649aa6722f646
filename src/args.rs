//! Reading the command line into a scan configuration.
//!
//! The accepted forms are `PROG ADDRESS` (four workers), `PROG -t COUNT ADDRESS`
//! and `PROG -h`. Whether a word is an IPv4 or IPv6 address literal is decided
//! by the caller, which hands each word's reading in as a [`Target`].
use vstd::prelude::*;

verus! {

/// A target address, as the number it stands for.
#[derive(Clone, Copy, Debug, PartialEq, Eq, Structural)]
pub enum Target {
    V4(u32),
    V6(u128),
}

/// Why the command line was not accepted.
#[derive(Clone, Copy, Debug, PartialEq, Eq, Structural)]
pub enum ArgError {
    NotEnoughArguments,
    TooManyArguments,
    /// Help was asked for: nothing is scanned.
    Help,
    InvalidAddress,
    InvalidThreadCount,
    InvalidSyntax,
}

impl ArgError {
    /// The message shown for this error.
    pub fn message(&self) -> (m: &'static str)
        ensures
            m@ == (match self {
                ArgError::NotEnoughArguments => "not enough arguments."@,
                ArgError::TooManyArguments => "too many arguments."@,
                ArgError::Help => "help"@,
                ArgError::InvalidAddress => "this is not a valid IP_ADDRESS - must be IPv4 or IPv6."@,
                ArgError::InvalidThreadCount => "failed to parse thread number, please try again."@,
                ArgError::InvalidSyntax => "invalid syntax"@,
            }),
    {
        match self {
            ArgError::NotEnoughArguments => {
                proof { reveal_strlit("not enough arguments."); }
                "not enough arguments."
            },
            ArgError::TooManyArguments => {
                proof { reveal_strlit("too many arguments."); }
                "too many arguments."
            },
            ArgError::Help => {
                proof { reveal_strlit("help"); }
                "help"
            },
            ArgError::InvalidAddress => {
                proof { reveal_strlit("this is not a valid IP_ADDRESS - must be IPv4 or IPv6."); }
                "this is not a valid IP_ADDRESS - must be IPv4 or IPv6."
            },
            ArgError::InvalidThreadCount => {
                proof { reveal_strlit("failed to parse thread number, please try again."); }
                "failed to parse thread number, please try again."
            },
            ArgError::InvalidSyntax => {
                proof { reveal_strlit("invalid syntax"); }
                "invalid syntax"
            },
        }
    }
}

/// The scan's configuration.
pub struct Args {
    /// The flag given, or the empty string when the address came alone.
    pub flag: String,
    pub ipaddr: Target,
    /// The number of workers.
    pub threads: u16,
}

/// `pat` occurs in `s` as a contiguous run.
pub open spec fn has_infix(s: Seq<char>, pat: Seq<char>) -> bool {
    exists|i: int| 0 <= i && i + pat.len() <= s.len() && #[trigger] s.subrange(i, i + pat.len()) == pat
}

/// Whether `pat` occurs in `s`.
pub fn contains_str(s: &str, pat: &str) -> (r: bool)
    ensures
        r == has_infix(s@, pat@),
{
    let n = s.unicode_len();
    let m = pat.unicode_len();
    if m > n {
        assert(!has_infix(s@, pat@));
        return false;
    }
    let mut i: usize = 0;
    while i <= n - m
        invariant
            n == s@.len(),
            m == pat@.len(),
            m <= n,
            i <= n - m + 1,
            forall|k: int| 0 <= k < i ==> #[trigger] s@.subrange(k, k + m) != pat@,
        decreases n - m + 1 - i,
    {
        let mut j: usize = 0;
        while j < m && s.get_char(i + j) == pat.get_char(j)
            invariant
                n == s@.len(),
                m == pat@.len(),
                i + m <= n,
                j <= m,
                forall|l: int| 0 <= l < j ==> s@[i + l] == pat@[l],
            decreases m - j,
        {
            j = j + 1;
        }
        if j == m {
            assert(s@.subrange(i as int, i + m) =~= pat@);
            return true;
        }
        assert(s@.subrange(i as int, i + m)[j as int] != pat@[j as int]);
        i = i + 1;
    }
    assert forall|k: int| 0 <= k && k + pat@.len() <= s@.len() implies #[trigger] s@.subrange(k, k + pat@.len()) != pat@ by {
        assert(k < i);
    }
    false
}

/// The value of the ASCII digit `c`.
pub open spec fn digit_value(c: char) -> int {
    c as int - '0' as int
}

pub open spec fn is_digit(c: char) -> bool {
    '0' <= c <= '9'
}

/// The number that the digit string `s` writes in decimal.
pub open spec fn digits_value(s: Seq<char>) -> int
    decreases s.len(),
{
    if s.len() == 0 {
        0
    } else {
        digits_value(s.drop_last()) * 10 + digit_value(s.last())
    }
}

/// The digits of an unsigned decimal numeral: all but a leading `+`.
pub open spec fn numeral_digits(s: Seq<char>) -> Seq<char> {
    if s.len() > 0 && s[0] == '+' {
        s.drop_first()
    } else {
        s
    }
}

/// `s` is a decimal numeral for a number in `[0, 65535]`: an optional `+`
/// followed by one or more digits.
pub open spec fn is_u16_numeral(s: Seq<char>) -> bool {
    let d = numeral_digits(s);
    &&& d.len() > 0
    &&& forall|i: int| 0 <= i < d.len() ==> is_digit(#[trigger] d[i])
    &&& digits_value(d) <= 65535
}

proof fn lemma_digits_value_nonneg(s: Seq<char>)
    requires
        forall|i: int| 0 <= i < s.len() ==> is_digit(#[trigger] s[i]),
    ensures
        digits_value(s) >= 0,
    decreases s.len(),
{
    if s.len() > 0 {
        lemma_digits_value_nonneg(s.drop_last());
    }
}

/// Adding digits never lowers the value.
proof fn lemma_digits_value_grows(s: Seq<char>, i: int)
    requires
        0 <= i <= s.len(),
        forall|k: int| 0 <= k < s.len() ==> is_digit(#[trigger] s[k]),
    ensures
        digits_value(s.take(i)) <= digits_value(s),
    decreases s.len() - i,
{
    if i < s.len() {
        lemma_digits_value_grows(s, i + 1);
        assert(s.take(i + 1).drop_last() =~= s.take(i));
        lemma_digits_value_nonneg(s.take(i));
    } else {
        assert(s.take(i) =~= s);
    }
}

/// Reads a thread count: `Some(n)` exactly when `s` is a numeral for `n`
/// in `[0, 65535]`.
pub fn parse_thread_count(s: &str) -> (r: Option<u16>)
    ensures
        r is Some <==> is_u16_numeral(s@),
        r matches Some(n) ==> n == digits_value(numeral_digits(s@)),
{
    let n = s.unicode_len();
    let mut start: usize = 0;
    if n > 0 && s.get_char(0) == '+' {
        start = 1;
    }
    let ghost d = numeral_digits(s@);
    assert(d =~= s@.subrange(start as int, n as int));
    if start == n {
        return None;
    }
    let mut value: u32 = 0;
    let mut i: usize = start;
    while i < n
        invariant
            n == s@.len(),
            start <= i <= n,
            d == s@.subrange(start as int, n as int),
            d == numeral_digits(s@),
            forall|k: int| 0 <= k < i - start ==> is_digit(#[trigger] d[k]),
            value == digits_value(d.take(i - start)),
            value <= 65535,
        decreases n - i,
    {
        let c = s.get_char(i);
        let ghost k = i - start;
        assert(d[k] == c);
        if !('0' <= c && c <= '9') {
            assert(!is_digit(d[k]));
            return None;
        }
        assert(d.take(k + 1).drop_last() =~= d.take(k));
        assert(d.take(k + 1).last() == c);
        let next: u32 = value * 10 + (c as u32 - '0' as u32);
        assert(digits_value(d.take(k + 1)) == next);
        if next > 65535 {
            proof {
                if forall|l: int| 0 <= l < d.len() ==> is_digit(#[trigger] d[l]) {
                    lemma_digits_value_grows(d, k + 1);
                }
            }
            return None;
        }
        value = next;
        i = i + 1;
    }
    assert(d.take(n - start) =~= d);
    Some(value as u16)
}

/// The number of workers when none is given.
pub const DEFAULT_THREADS: u16 = 4;

impl Args {
    /// Reads the command line `args`, the program's name first. `addresses[i]`
    /// is `args[i]` read as an IPv4 or IPv6 address literal, `None` where it
    /// is none.
    ///
    /// A lone address scans with four workers; `-t COUNT ADDRESS` sets the
    /// worker count; a first word holding `-h` asks for help. The address is
    /// checked before the worker count.
    pub fn new(args: &Vec<String>, addresses: &Vec<Option<Target>>) -> (r: Result<Args, ArgError>)
        requires
            args@.len() == addresses@.len(),
        ensures
            args@.len() < 2 ==> r == Err::<Args, ArgError>(ArgError::NotEnoughArguments),
            args@.len() > 4 ==> r == Err::<Args, ArgError>(ArgError::TooManyArguments),
            2 <= args@.len() <= 4 ==> {
                let first = args@[1]@;
                if addresses@[1] is Some {
                    r matches Ok(a) && a.flag@ == Seq::<char>::empty()
                        && a.ipaddr == addresses@[1]->Some_0 && a.threads == DEFAULT_THREADS
                } else if has_infix(first, "-h"@) {
                    r == Err::<Args, ArgError>(ArgError::Help)
                } else if has_infix(first, "-t"@) {
                    if args@.len() != 4 {
                        r == Err::<Args, ArgError>(ArgError::NotEnoughArguments)
                    } else if addresses@[3] is None {
                        r == Err::<Args, ArgError>(ArgError::InvalidAddress)
                    } else if !is_u16_numeral(args@[2]@) {
                        r == Err::<Args, ArgError>(ArgError::InvalidThreadCount)
                    } else {
                        r matches Ok(a) && a.flag@ == first && a.ipaddr == addresses@[3]->Some_0
                            && a.threads == digits_value(numeral_digits(args@[2]@))
                    }
                } else {
                    r == Err::<Args, ArgError>(ArgError::InvalidSyntax)
                }
            },
    {
        if args.len() < 2 {
            return Err(ArgError::NotEnoughArguments);
        } else if args.len() > 4 {
            return Err(ArgError::TooManyArguments);
        }
        if let Some(ipaddr) = addresses[1] {
            return Ok(Args { flag: String::new(), ipaddr, threads: DEFAULT_THREADS });
        }
        let flag = args[1].as_str();
        if contains_str(flag, "-h") {
            Err(ArgError::Help)
        } else if contains_str(flag, "-t") {
            if args.len() != 4 {
                return Err(ArgError::NotEnoughArguments);
            }
            let ipaddr = match addresses[3] {
                Some(a) => a,
                None => return Err(ArgError::InvalidAddress),
            };
            let threads = match parse_thread_count(args[2].as_str()) {
                Some(n) => n,
                None => return Err(ArgError::InvalidThreadCount),
            };
            Ok(Args { flag: args[1].clone(), ipaddr, threads })
        } else {
            Err(ArgError::InvalidSyntax)
        }
    }
}

} // verus!
