//! Decimal text for vertex identifiers: the formatter and parser the codec
//! builds its lines from, with the inversion lemmas the round trip rests on.

use vstd::prelude::*;
use vstd::string::StrSliceExecFns;
use vstd::string::StringExecFns;

verus! {

/// The digit character for one decimal digit.
pub open spec fn digit_char(d: int) -> char {
    if d == 0 {
        '0'
    } else if d == 1 {
        '1'
    } else if d == 2 {
        '2'
    } else if d == 3 {
        '3'
    } else if d == 4 {
        '4'
    } else if d == 5 {
        '5'
    } else if d == 6 {
        '6'
    } else if d == 7 {
        '7'
    } else if d == 8 {
        '8'
    } else {
        '9'
    }
}

/// The decimal text of a nonnegative number, most significant digit first,
/// no sign and no leading zeros (a lone zero for zero).
pub open spec fn u32_chars(n: int) -> Seq<char>
    decreases n,
{
    if n < 10 {
        seq![digit_char(n)]
    } else {
        u32_chars(n / 10) + seq![digit_char(n % 10)]
    }
}

/// Whether `c` is a decimal digit.
pub open spec fn is_digit_char(c: char) -> bool {
    48 <= c as u32 <= 57
}

/// The value of one digit character.
pub open spec fn digit_val(c: char) -> int {
    c as u32 - 48
}

/// Whether every character of `s` is a decimal digit.
pub open spec fn all_digits(s: Seq<char>) -> bool {
    forall|i: int| 0 <= i < s.len() ==> is_digit_char(#[trigger] s[i])
}

/// The number a digit string denotes (most significant digit first).
pub open spec fn digits_val(s: Seq<char>) -> int
    decreases s.len(),
{
    if s.len() == 0 {
        0
    } else {
        digits_val(s.drop_last()) * 10 + digit_val(s.last())
    }
}

/// What `str::parse::<u32>` accepts of a bare digit token: nonempty, digits
/// only, and a value that fits.
pub open spec fn valid_u32_token(s: Seq<char>) -> bool {
    s.len() > 0 && all_digits(s) && digits_val(s) <= u32::MAX
}

/// A digit string's value never shrinks as more digits follow.
proof fn lemma_digits_val_monotone(s: Seq<char>, k: int)
    requires
        0 <= k <= s.len(),
        digits_val(s.take(k)) >= 0,
        forall|i: int| k <= i < s.len() ==> is_digit_char(#[trigger] s[i]),
    ensures
        digits_val(s) >= digits_val(s.take(k)),
    decreases s.len() - k,
{
    if k == s.len() {
        assert(s.take(k) =~= s);
    } else {
        assert(s.take(k + 1).drop_last() =~= s.take(k));
        assert(s.take(k + 1).last() == s[k]);
        assert(digits_val(s.take(k + 1)) == digits_val(s.take(k)) * 10 + digit_val(s[k]));
        assert(is_digit_char(s[k]));
        assert(digit_val(s[k]) >= 0);
        assert(digits_val(s.take(k + 1)) >= digits_val(s.take(k)));
        lemma_digits_val_monotone(s, k + 1);
    }
}

/// One digit's character carries exactly that digit's value.
proof fn lemma_digit_char_val(d: int)
    requires
        0 <= d < 10,
    ensures
        digit_val(digit_char(d)) == d,
        is_digit_char(digit_char(d)),
{
    assert('0' as u32 == 48);
    assert('1' as u32 == 49);
    assert('2' as u32 == 50);
    assert('3' as u32 == 51);
    assert('4' as u32 == 52);
    assert('5' as u32 == 53);
    assert('6' as u32 == 54);
    assert('7' as u32 == 55);
    assert('8' as u32 == 56);
    assert('9' as u32 == 57);
}

/// Parsing inverts formatting: the decimal text of `n` is all digits and
/// denotes `n` again; when `n` fits the identifier type it is a valid token.
pub proof fn lemma_u32_chars_val(n: int)
    requires
        0 <= n,
    ensures
        all_digits(u32_chars(n)),
        digits_val(u32_chars(n)) == n,
        u32_chars(n).len() > 0,
        n <= u32::MAX ==> valid_u32_token(u32_chars(n)),
    decreases n,
{
    if n < 10 {
        let s = u32_chars(n);
        lemma_digit_char_val(n);
        assert(s =~= seq![digit_char(n)]);
        assert(s.drop_last() =~= Seq::<char>::empty());
        assert(digits_val(Seq::<char>::empty()) == 0);
        assert(s.last() == digit_char(n));
        assert(digits_val(s) == digits_val(s.drop_last()) * 10 + digit_val(s.last()));
        assert(digits_val(s) == n);
        assert(all_digits(s)) by {
            assert(s[0] == digit_char(n));
        }
    } else {
        lemma_u32_chars_val(n / 10);
        lemma_digit_char_val(n % 10);
        let a = u32_chars(n / 10);
        let s = u32_chars(n);
        assert(s =~= a + seq![digit_char(n % 10)]);
        assert(s.drop_last() =~= a);
        assert(s.last() == digit_char(n % 10));
        assert(digits_val(s) == digits_val(a) * 10 + n % 10);
        assert(digits_val(a) == n / 10);
        assert(n / 10 * 10 + n % 10 == n);
        assert(all_digits(s)) by {
            assert(forall|i: int| 0 <= i < a.len() ==> s[i] == a[i]);
            assert(s[s.len() - 1] == digit_char(n % 10));
        }
    }
}

/// Decimal text never holds a space or the delimiter mark.
pub proof fn lemma_u32_chars_no_space(n: int)
    requires
        0 <= n,
    ensures
        forall|i: int|
            0 <= i < u32_chars(n).len() ==> #[trigger] u32_chars(n)[i] != ' ' && u32_chars(n)[i]
                != '#',
    decreases n,
{
    if n < 10 {
    } else {
        lemma_u32_chars_no_space(n / 10);
        let a = u32_chars(n / 10);
        let s = u32_chars(n);
        assert(forall|i: int| 0 <= i < a.len() ==> #[trigger] s[i] == a[i]);
        assert(s[s.len() - 1] == digit_char(n % 10));
    }
}

/// The index of the first space of `s`, or its length when there is none.
pub open spec fn first_space(s: Seq<char>) -> int
    decreases s.len(),
{
    if s.len() == 0 {
        0
    } else if s[0] == ' ' {
        0
    } else {
        1 + first_space(s.drop_first())
    }
}

/// The text before the first space.
pub open spec fn head_token(s: Seq<char>) -> Seq<char> {
    s.take(first_space(s))
}

/// The text after the first space; empty when there is no space.
pub open spec fn tail_after_space(s: Seq<char>) -> Seq<char> {
    if first_space(s) < s.len() {
        s.skip(first_space(s) + 1)
    } else {
        Seq::empty()
    }
}

/// The first space sits exactly where the first scan finds it.
pub proof fn lemma_first_space_is(s: Seq<char>, i: int)
    requires
        0 <= i <= s.len(),
        forall|j: int| 0 <= j < i ==> s[j] != ' ',
        i < s.len() ==> s[i] == ' ',
    ensures
        first_space(s) == i,
    decreases i,
{
    if s.len() == 0 {
    } else if i == 0 {
    } else {
        assert(s[0] != ' ');
        let t = s.drop_first();
        assert(forall|j: int| 0 <= j < i - 1 ==> #[trigger] t[j] == s[j + 1]);
        assert(i - 1 < t.len() ==> t[i - 1] == s[i]);
        lemma_first_space_is(t, i - 1);
    }
}

/// Appends one digit character.
fn append_digit(s: &mut String, d: u32)
    requires
        d < 10,
    ensures
        final(s)@ == old(s)@ + seq![digit_char(d as int)],
{
    match d {
        0 => {
            proof {
                reveal_strlit("0");
            }
            s.append("0");
        },
        1 => {
            proof {
                reveal_strlit("1");
            }
            s.append("1");
        },
        2 => {
            proof {
                reveal_strlit("2");
            }
            s.append("2");
        },
        3 => {
            proof {
                reveal_strlit("3");
            }
            s.append("3");
        },
        4 => {
            proof {
                reveal_strlit("4");
            }
            s.append("4");
        },
        5 => {
            proof {
                reveal_strlit("5");
            }
            s.append("5");
        },
        6 => {
            proof {
                reveal_strlit("6");
            }
            s.append("6");
        },
        7 => {
            proof {
                reveal_strlit("7");
            }
            s.append("7");
        },
        8 => {
            proof {
                reveal_strlit("8");
            }
            s.append("8");
        },
        _ => {
            proof {
                reveal_strlit("9");
            }
            s.append("9");
        },
    }
    proof {
        assert(final(s)@ =~= old(s)@ + seq![digit_char(d as int)]);
    }
}

/// Appends the decimal text of `n`.
fn append_u32(s: &mut String, n: u32)
    ensures
        final(s)@ == old(s)@ + u32_chars(n as int),
    decreases n,
{
    if n >= 10 {
        append_u32(s, n / 10);
        append_digit(s, n % 10);
        proof {
            assert(final(s)@ =~= old(s)@ + u32_chars(n as int));
        }
    } else {
        append_digit(s, n);
    }
}

/// The decimal text of `n` as a fresh string.
pub fn u32_to_string(n: u32) -> (r: String)
    ensures
        r@ == u32_chars(n as int),
{
    let mut s = String::new();
    append_u32(&mut s, n);
    proof {
        assert(s@ =~= u32_chars(n as int));
    }
    s
}

/// Parses a bare decimal token: `Some` exactly on nonempty all-digit text
/// whose value fits in the identifier type.
pub fn parse_u32_token(s: &str) -> (r: Option<u32>)
    ensures
        r is Some <==> valid_u32_token(s@),
        r matches Some(v) ==> v as int == digits_val(s@),
{
    let len = s.unicode_len();
    if len == 0 {
        return None;
    }
    let mut acc: u64 = 0;
    let mut i: usize = 0;
    while i < len
        invariant
            len == s@.len(),
            0 < len,
            i <= len,
            all_digits(s@.take(i as int)),
            acc as int == digits_val(s@.take(i as int)),
            acc <= u32::MAX as u64,
        decreases len - i,
    {
        let c = s.get_char(i);
        let u = c as u32;
        proof {
            assert(s@.take(i + 1).drop_last() =~= s@.take(i as int));
            assert(s@.take(i + 1).last() == c);
        }
        if u < 48 || u > 57 {
            proof {
                assert(!is_digit_char(s@[i as int]));
            }
            return None;
        }
        let d = (u - 48) as u64;
        acc = acc * 10 + d;
        if acc > u32::MAX as u64 {
            proof {
                assert(all_digits(s@.take(i + 1)));
                if valid_u32_token(s@) {
                    lemma_digits_val_monotone(s@, i + 1);
                }
            }
            return None;
        }
        i += 1;
    }
    proof {
        assert(s@.take(len as int) =~= s@);
    }
    Some(acc as u32)
}

} // verus!
