//! Rules for names and free text.
use vstd::prelude::*;
use vstd::string::*;
use vstd::utf8::*;

use crate::error;
use crate::error::{invalid, Error, ErrorView, Outcome, Result};

verus! {

/// The control characters of Unicode (general category Cc).
pub open spec fn is_control_char(c: char) -> bool {
    c as u32 <= 0x1f || 0x7f <= c as u32 <= 0x9f
}

/// The characters with the Unicode property White_Space.
pub open spec fn is_white_char(c: char) -> bool {
    ||| 0x09 <= c as u32 <= 0x0d
    ||| c as u32 == 0x20
    ||| c as u32 == 0x85
    ||| c as u32 == 0xa0
    ||| c as u32 == 0x1680
    ||| 0x2000 <= c as u32 <= 0x200a
    ||| c as u32 == 0x2028
    ||| c as u32 == 0x2029
    ||| c as u32 == 0x202f
    ||| c as u32 == 0x205f
    ||| c as u32 == 0x3000
}

/// The text takes at most `max` bytes in UTF-8.
pub open spec fn fits(s: Seq<char>, max: nat) -> bool {
    encode_utf8(s).len() <= max
}

/// No character of the text is a control character.
pub open spec fn plain(s: Seq<char>) -> bool {
    forall|i: int| 0 <= i < s.len() ==> !is_control_char(#[trigger] s[i])
}

/// No character of the text is a control character, except for line feeds.
pub open spec fn plain_lines(s: Seq<char>) -> bool {
    forall|i: int|
        0 <= i < s.len() ==> (is_control_char(#[trigger] s[i]) ==> s[i] == '\n')
}

/// Every character of the text is white space.
pub open spec fn blank(s: Seq<char>) -> bool {
    forall|i: int| 0 <= i < s.len() ==> is_white_char(#[trigger] s[i])
}

/// What may name a member, a club, a league, a team or a score event.
pub open spec fn is_identifier(s: Seq<char>) -> bool {
    s.len() > 0 && fits(s, 128) && plain(s)
}

/// What may stand as a title, a reason or an answer of at most `max` bytes.
pub open spec fn is_text(s: Seq<char>, max: nat) -> bool {
    !blank(s) && fits(s, max) && plain_lines(s)
}

/// Whether `c` is a control character.
pub fn control(c: char) -> (r: bool)
    ensures
        r == is_control_char(c),
{
    let v: u32 = c as u32;
    v <= 0x1f || (0x7f <= v && v <= 0x9f)
}

/// Whether `c` is white space.
pub fn white(c: char) -> (r: bool)
    ensures
        r == is_white_char(c),
{
    let v: u32 = c as u32;
    (0x09 <= v && v <= 0x0d) || v == 0x20 || v == 0x85 || v == 0xa0 || v == 0x1680 || (0x2000 <= v
        && v <= 0x200a) || v == 0x2028 || v == 0x2029 || v == 0x202f || v == 0x205f || v == 0x3000
}

/// Whether the text is free of control characters.
pub fn all_plain(s: &str) -> (r: bool)
    ensures
        r == plain(s@),
{
    let mut clean: bool = true;
    for c in it: s.chars()
        invariant
            it.seq() == s@,
            clean == (forall|i: int|
                0 <= i < it.index() ==> !is_control_char(#[trigger] s@[i])),
    {
        if control(c) {
            clean = false;
        }
    }
    clean
}

/// Whether the text is free of control characters other than line feeds.
pub fn all_plain_lines(s: &str) -> (r: bool)
    ensures
        r == plain_lines(s@),
{
    let mut clean: bool = true;
    for c in it: s.chars()
        invariant
            it.seq() == s@,
            clean == (forall|i: int|
                0 <= i < it.index() ==> (is_control_char(#[trigger] s@[i]) ==> s@[i] == '\n')),
    {
        if control(c) && c != '\n' {
            clean = false;
        }
    }
    clean
}

/// Whether the text is nothing but white space.
pub fn all_white(s: &str) -> (r: bool)
    ensures
        r == blank(s@),
{
    let mut empty: bool = true;
    for c in it: s.chars()
        invariant
            it.seq() == s@,
            empty == (forall|i: int| 0 <= i < it.index() ==> is_white_char(#[trigger] s@[i])),
    {
        if !white(c) {
            empty = false;
        }
    }
    empty
}

/// Whether the text takes at most `max` bytes.
pub fn within(s: &str, max: usize) -> (r: bool)
    ensures
        r == fits(s@, max as nat),
{
    s.as_bytes().len() <= max
}

/// Accepts what may name a thing.
pub fn identifier(value: &str) -> (r: Result<()>)
    ensures
        is_identifier(value@) ==> r is Ok,
        !is_identifier(value@) ==> error::outcome(r) == Outcome::<()>::Err(
            error::invalid_view("invalid identifier"@),
        ),
{
    if value.is_empty() || !within(value, 128) || !all_plain(value) {
        return Err(invalid("invalid identifier"));
    }
    Ok(())
}

/// Accepts free text of at most `max` bytes.
pub fn text(value: &str, max: usize) -> (r: Result<()>)
    ensures
        is_text(value@, max as nat) ==> r is Ok,
        !is_text(value@, max as nat) ==> error::outcome(r) == Outcome::<()>::Err(ErrorView::Denied),
{
    if all_white(value) || !within(value, max) || !all_plain_lines(value) {
        Err(Error::Denied)
    } else {
        Ok(())
    }
}

/// The digit for a number below ten.
pub open spec fn digit(n: nat) -> char {
    (48 + n) as char
}

/// A number in decimal digits, without leading zeros.
pub open spec fn decimal(n: nat) -> Seq<char>
    decreases n,
{
    if n < 10 {
        seq![digit(n)]
    } else {
        decimal(n / 10).push(digit(n % 10))
    }
}

/// The number that a row of digits stands for.
spec fn value_of(s: Seq<char>) -> nat
    decreases s.len(),
{
    if s.len() == 0 {
        0
    } else {
        value_of(s.drop_last()) * 10 + (s.last() as u32 - 48) as nat
    }
}

spec fn is_digit(c: char) -> bool {
    48 <= c as u32 <= 57
}

/// A row of digits without leading zeros.
spec fn canonical(s: Seq<char>) -> bool {
    &&& s.len() > 0
    &&& forall|i: int| 0 <= i < s.len() ==> is_digit(#[trigger] s[i])
    &&& s.len() > 1 ==> s[0] != '0'
}

proof fn lemma_decimal(n: nat)
    ensures
        canonical(decimal(n)),
        value_of(decimal(n)) == n,
        n > 0 ==> decimal(n)[0] != '0',
    decreases n,
{
    if n < 10 {
        let s = decimal(n);
        assert(s.drop_last() =~= Seq::<char>::empty());
        assert(value_of(s.drop_last()) == 0);
        assert(digit(n) as u32 == 48 + n);
    } else {
        lemma_decimal(n / 10);
        let s = decimal(n);
        assert(digit(n % 10) as u32 == 48 + n % 10);
        assert(s.drop_last() =~= decimal(n / 10));
        assert(s[0] == decimal(n / 10)[0]);
    }
}

proof fn lemma_canonical(s: Seq<char>)
    requires
        canonical(s),
    ensures
        decimal(value_of(s)) == s,
        s[0] != '0' ==> value_of(s) > 0,
    decreases s.len(),
{
    let t = s.drop_last();
    let c = s[s.len() - 1];
    let d = (c as u32 - 48) as nat;
    assert(is_digit(c));
    assert(s.last() == c);
    char_u32_cast(c, c as u32);
    assert(digit(d) == c);
    assert(value_of(s) == value_of(t) * 10 + d);
    if s.len() == 1 {
        assert(t =~= Seq::<char>::empty());
        assert(value_of(t) == 0);
        assert(decimal(value_of(s)) =~= s);
    } else {
        assert(t[0] == s[0]);
        assert forall|i: int| 0 <= i < t.len() implies is_digit(#[trigger] t[i]) by {
            assert(t[i] == s[i]);
        }
        lemma_canonical(t);
        let n = value_of(s);
        assert(n == value_of(t) * 10 + d);
        assert(n / 10 == value_of(t) && n % 10 == d);
        assert(decimal(n) =~= t.push(digit(d)));
        assert(s =~= t.push(s.last()));
    }
}

/// The number that a text gives in decimal digits, as it is written without leading zeros.
pub fn canonical_number(text: &str) -> (r: Option<u64>)
    ensures
        match r {
            Some(n) => text@ == decimal(n as nat),
            None => forall|n: u64| text@ != #[trigger] decimal(n as nat),
        },
{
    proof {
        assert forall|n: u64| text@ == #[trigger] decimal(n as nat) implies canonical(text@)
            && value_of(text@) == n by {
            lemma_decimal(n as nat);
        }
    }
    let mut value: u64 = 0;
    let mut digits: bool = true;
    let mut fits: bool = true;
    let mut count: u64 = 0;
    let mut zero: bool = false;
    for c in it: text.chars()
        invariant
            it.seq() == text@,
            digits == (forall|i: int| 0 <= i < it.index() ==> is_digit(#[trigger] text@[i])),
            digits && fits ==> value == value_of(text@.take(it.index())),
            digits && !fits ==> value_of(text@.take(it.index())) > u64::MAX,
            count == (if it.index() < 2 {
                it.index()
            } else {
                2
            }),
            it.index() > 0 ==> zero == (text@[0] == '0'),
    {
        let code: u32 = c as u32;
        if count == 0 {
            zero = c == '0';
        }
        if count < 2 {
            count = count + 1;
        }
        proof {
            let i = it.index();
            assert(text@.take(i + 1).drop_last() =~= text@.take(i));
            assert(text@.take(i + 1).last() == text@[i]);
        }
        if code < 48 || code > 57 {
            digits = false;
        } else if digits && fits {
            match value.checked_mul(10) {
                Some(tens) => match tens.checked_add((code - 48) as u64) {
                    Some(sum) => {
                        value = sum;
                    },
                    None => {
                        fits = false;
                    },
                },
                None => {
                    fits = false;
                },
            }
        }
    }
    assert(text@.take(text@.len() as int) =~= text@);
    if digits && count > 0 && !(count > 1 && zero) {
        assert(canonical(text@));
        if fits {
            proof {
                lemma_canonical(text@);
            }
            return Some(value);
        }
    }
    None
}

/// The digit for a number below ten.
fn digit_char(n: u64) -> (r: char)
    requires
        n < 10,
    ensures
        r == digit(n as nat),
{
    if n == 0 {
        '0'
    } else if n == 1 {
        '1'
    } else if n == 2 {
        '2'
    } else if n == 3 {
        '3'
    } else if n == 4 {
        '4'
    } else if n == 5 {
        '5'
    } else if n == 6 {
        '6'
    } else if n == 7 {
        '7'
    } else if n == 8 {
        '8'
    } else {
        '9'
    }
}

/// A number in decimal digits, without leading zeros.
pub fn decimal_text(n: u64) -> (r: String)
    ensures
        r@ == decimal(n as nat),
    decreases n,
{
    let mut r: String = if n < 10 {
        String::new()
    } else {
        decimal_text(n / 10)
    };
    r.push(digit_char(n % 10));
    assert(n < 10 ==> r@ =~= seq![digit(n as nat)]);
    r
}

/// What follows the first `n` characters of a text.
pub fn tail(text: &str, n: usize) -> (r: String)
    requires
        n <= text@.len(),
    ensures
        r@ == text@.skip(n as int),
{
    let mut r: String = String::new();
    let mut seen: usize = 0;
    for c in it: text.chars()
        invariant
            it.seq() == text@,
            n <= text@.len(),
            seen == (if it.index() < n {
                it.index()
            } else {
                n as int
            }),
            r@ == (if it.index() <= n {
                Seq::<char>::empty()
            } else {
                text@.subrange(n as int, it.index())
            }),
    {
        if seen < n {
            seen = seen + 1;
        } else {
            let ghost i = it.index();
            r.push(c);
            assert(text@.subrange(n as int, i + 1) =~= (if i <= n {
                Seq::<char>::empty()
            } else {
                text@.subrange(n as int, i)
            }).push(c));
        }
    }
    assert(r@ =~= text@.skip(n as int));
    r
}

} // verus!
