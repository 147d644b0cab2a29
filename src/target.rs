//! What a `break` command names: an absolute address, a source line or a
//! function, told apart by syntax alone.
use vstd::prelude::*;
use vstd::string::*;

verus! {

/// The value of `c` as a digit in base `radix` (10 or 16), if it is one.
pub open spec fn digit_of(c: char, radix: nat) -> Option<nat> {
    if '0' <= c && c <= '9' && (c as nat) - ('0' as nat) < radix {
        Some(((c as nat) - ('0' as nat)) as nat)
    } else if radix == 16 && 'a' <= c && c <= 'f' {
        Some(((c as nat) - ('a' as nat) + 10) as nat)
    } else if radix == 16 && 'A' <= c && c <= 'F' {
        Some(((c as nat) - ('A' as nat) + 10) as nat)
    } else {
        None
    }
}

pub open spec fn all_digits(s: Seq<char>, radix: nat) -> bool {
    forall|i: int| 0 <= i < s.len() ==> (#[trigger] digit_of(s[i], radix)).is_some()
}

/// The number that the digits `s` write in base `radix`, most significant first.
pub open spec fn digits_value(s: Seq<char>, radix: nat) -> nat
    decreases s.len(),
{
    if s.len() == 0 {
        0
    } else {
        digits_value(s.drop_last(), radix) * radix + digit_of(s.last(), radix).unwrap()
    }
}

/// An unsigned number in base `radix`: an optional `+`, then one or more
/// digits, whose value fits in a `usize`.
pub open spec fn unsigned_of(s: Seq<char>, radix: nat) -> Option<nat> {
    let body = if s.len() > 0 && s[0] == '+' { s.drop_first() } else { s };
    if body.len() > 0 && all_digits(body, radix) && digits_value(body, radix) <= usize::MAX {
        Some(digits_value(body, radix))
    } else {
        None
    }
}

/// An address as written after `*`: an optional `0x` or `0X`, then a hex number.
pub open spec fn address_of(s: Seq<char>) -> Option<nat> {
    if s.len() >= 2 && s[0] == '0' && (s[1] == 'x' || s[1] == 'X') {
        unsigned_of(s.subrange(2, s.len() as int), 16)
    } else {
        unsigned_of(s, 16)
    }
}

proof fn lemma_prefix_value_le(s: Seq<char>, radix: nat, j: int)
    requires
        radix >= 1,
        0 <= j <= s.len(),
        all_digits(s, radix),
    ensures
        digits_value(s.subrange(0, j), radix) <= digits_value(s, radix),
    decreases s.len(),
{
    if j < s.len() {
        let t = s.drop_last();
        assert(all_digits(t, radix)) by {
            assert forall|i: int| 0 <= i < t.len() implies (#[trigger] digit_of(t[i], radix)).is_some() by {
                assert(digit_of(s[i], radix).is_some());
            }
        }
        lemma_prefix_value_le(t, radix, j);
        assert(t.subrange(0, j) == s.subrange(0, j));
        let v = digits_value(t, radix);
        assert(v * radix >= v) by (nonlinear_arith)
            requires radix >= 1;
    } else {
        assert(s.subrange(0, j) == s);
    }
}

fn digit_exec(c: char, radix: usize) -> (r: Option<usize>)
    requires
        radix == 10 || radix == 16,
    ensures
        r.is_some() == digit_of(c, radix as nat).is_some(),
        r.is_some() ==> r.unwrap() as nat == digit_of(c, radix as nat).unwrap(),
        r.is_some() ==> r.unwrap() < radix,
{
    if '0' <= c && c <= '9' && (c as usize) - ('0' as usize) < radix {
        Some((c as usize) - ('0' as usize))
    } else if radix == 16 && 'a' <= c && c <= 'f' {
        Some((c as usize) - ('a' as usize) + 10)
    } else if radix == 16 && 'A' <= c && c <= 'F' {
        Some((c as usize) - ('A' as usize) + 10)
    } else {
        None
    }
}

/// Parses the characters of `s` from position `start` on as an unsigned
/// number in base `radix`.
fn parse_unsigned_from(s: &str, start: usize, radix: usize) -> (r: Option<usize>)
    requires
        radix == 10 || radix == 16,
        start <= s@.len(),
    ensures
        r.is_some() == unsigned_of(s@.subrange(start as int, s@.len() as int), radix as nat).is_some(),
        r.is_some() ==> r.unwrap() as nat == unsigned_of(s@.subrange(start as int, s@.len() as int), radix as nat).unwrap(),
{
    let ghost full = s@.subrange(start as int, s@.len() as int);
    let n = s.unicode_len();
    let mut i = start;
    if i < n && s.get_char(i) == '+' {
        i = i + 1;
    }
    let ghost body = s@.subrange(i as int, s@.len() as int);
    assert(body == (if full.len() > 0 && full[0] == '+' { full.drop_first() } else { full }));
    if i == n {
        return None;
    }
    let ghost first = i;
    let mut acc: usize = 0;
    while i < n
        invariant
            n == s@.len(),
            first <= i <= n,
            radix == 10 || radix == 16,
            body == s@.subrange(first as int, n as int),
            full == s@.subrange(start as int, s@.len() as int),
            body == (if full.len() > 0 && full[0] == '+' { full.drop_first() } else { full }),
            all_digits(s@.subrange(first as int, i as int), radix as nat),
            acc as nat == digits_value(s@.subrange(first as int, i as int), radix as nat),
        decreases n - i,
    {
        let c = s.get_char(i);
        let d = match digit_exec(c, radix) {
            Some(d) => d,
            None => {
                assert(body[i - first] == c);
                assert(digit_of(body[i - first], radix as nat).is_none());
                return None;
            },
        };
        let ghost prev = s@.subrange(first as int, i as int);
        let ghost next = s@.subrange(first as int, i + 1);
        assert(next.drop_last() == prev);
        assert(all_digits(next, radix as nat)) by {
            assert forall|k: int| 0 <= k < next.len() implies (#[trigger] digit_of(next[k], radix as nat)).is_some() by {
                if k < prev.len() {
                    assert(next[k] == prev[k]);
                }
            }
        }
        match acc.checked_mul(radix) {
            None => {
                proof { lemma_overflow_is_final(s@, first as int, i as int + 1, n as int, radix as nat, body); }
                return None;
            },
            Some(m) => match m.checked_add(d) {
                None => {
                    proof { lemma_overflow_is_final(s@, first as int, i as int + 1, n as int, radix as nat, body); }
                    return None;
                },
                Some(v) => {
                    acc = v;
                },
            },
        }
        i = i + 1;
    }
    assert(s@.subrange(first as int, i as int) == body);
    Some(acc)
}

/// Once a prefix of the digits is too large, the whole number is too large,
/// or it holds a character that is not a digit.
proof fn lemma_overflow_is_final(s: Seq<char>, first: int, j: int, n: int, radix: nat, body: Seq<char>)
    requires
        0 <= first < j <= n == s.len(),
        radix >= 1,
        body == s.subrange(first, n),
        all_digits(s.subrange(first, j), radix),
        digits_value(s.subrange(first, j), radix) > usize::MAX,
    ensures
        !(all_digits(body, radix) && digits_value(body, radix) <= usize::MAX),
{
    if all_digits(body, radix) {
        lemma_prefix_value_le(body, radix, j - first);
        assert(body.subrange(0, j - first) == s.subrange(first, j));
    }
}

/// Parses an address written as hex digits, with or without a `0x` prefix.
pub fn parse_address(addr: &str) -> (r: Option<usize>)
    ensures
        r.is_some() == address_of(addr@).is_some(),
        r.is_some() ==> r.unwrap() as nat == address_of(addr@).unwrap(),
{
    let n = addr.unicode_len();
    if n >= 2 && addr.get_char(0) == '0' && (addr.get_char(1) == 'x' || addr.get_char(1) == 'X') {
        parse_unsigned_from(addr, 2, 16)
    } else {
        assert(addr@.subrange(0, addr@.len() as int) == addr@);
        parse_unsigned_from(addr, 0, 16)
    }
}

/// What a `break` command asks for, before symbol resolution.
#[derive(PartialEq, Eq, Debug)]
pub enum BreakTarget {
    /// `*<hex>`: an absolute address.
    Address(usize),
    /// `*` followed by something that is not an address.
    BadAddress,
    /// A plain decimal number: a source line.
    Line(usize),
    /// Anything else: a function name.
    Function(String),
}

/// The break target that `s` denotes.
pub open spec fn target_of(s: Seq<char>, t: BreakTarget) -> bool {
    if s.len() > 0 && s[0] == '*' {
        match address_of(s.drop_first()) {
            Some(a) => t == BreakTarget::Address(a as usize),
            None => t == BreakTarget::BadAddress,
        }
    } else {
        match unsigned_of(s, 10) {
            Some(n) => t == BreakTarget::Line(n as usize),
            None => t is Function && t->Function_0@ == s,
        }
    }
}

impl BreakTarget {
    /// Tells apart the three kinds of break target by syntax: a leading `*`
    /// marks an address, a plain number a line, anything else a function.
    pub fn parse(s: &str) -> (r: BreakTarget)
        ensures
            target_of(s@, r),
    {
        let n = s.unicode_len();
        if n > 0 && s.get_char(0) == '*' {
            let rest = s.substring_char(1, n);
            assert(rest@ == s@.drop_first());
            match parse_address(rest) {
                Some(a) => BreakTarget::Address(a),
                None => BreakTarget::BadAddress,
            }
        } else {
            assert(s@.subrange(0, s@.len() as int) == s@);
            match parse_unsigned_from(s, 0, 10) {
                Some(v) => BreakTarget::Line(v),
                None => BreakTarget::Function(s.to_string()),
            }
        }
    }
}

} // verus!
