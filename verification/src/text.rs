//! Verified text utilities: character classes, trimming, string equality
//! and decimal parsing, all specified over `Seq<char>` views.

use vstd::prelude::*;

verus! {

/// The Unicode `White_Space` code points, the set that `str::trim` strips
/// and the whitespace character class matches.
pub open spec fn is_ws_char(c: char) -> bool {
    ||| c == ' '
    ||| c == '\t'
    ||| c == '\n'
    ||| c == '\r'
    ||| c == '\u{b}'
    ||| c == '\u{c}'
    ||| c == '\u{85}'
    ||| c == '\u{a0}'
    ||| c == '\u{1680}'
    ||| ('\u{2000}' <= c && c <= '\u{200a}')
    ||| c == '\u{2028}'
    ||| c == '\u{2029}'
    ||| c == '\u{202f}'
    ||| c == '\u{205f}'
    ||| c == '\u{3000}'
}

/// Executable test for [`is_ws_char`].
pub fn is_ws(c: char) -> (r: bool)
    ensures
        r == is_ws_char(c),
{
    c == ' ' || c == '\t' || c == '\n' || c == '\r' || c == '\u{b}' || c == '\u{c}'
        || c == '\u{85}' || c == '\u{a0}' || c == '\u{1680}'
        || ('\u{2000}' <= c && c <= '\u{200a}') || c == '\u{2028}' || c == '\u{2029}'
        || c == '\u{202f}' || c == '\u{205f}' || c == '\u{3000}'
}

/// Decimal digit characters.
pub open spec fn is_digit_char(c: char) -> bool {
    '0' <= c && c <= '9'
}

/// Value of a decimal digit character.
pub open spec fn digit_value(c: char) -> int {
    c as int - '0' as int
}

/// Executable test for [`is_digit_char`].
pub fn is_digit(c: char) -> (r: bool)
    ensures
        r == is_digit_char(c),
{
    '0' <= c && c <= '9'
}

/// String equality over views.
pub fn str_eq(a: &str, b: &str) -> (r: bool)
    ensures
        r == (a@ == b@),
{
    let sa: String = a.to_owned();
    let sb: String = b.to_owned();
    sa == sb
}

/// Equality of two optional strings, compared by contents.
pub fn opt_str_eq(a: &Option<String>, b: &Option<String>) -> (r: bool)
    ensures
        r == match (a, b) {
            (Some(x), Some(y)) => x@ == y@,
            (None, None) => true,
            _ => false,
        },
{
    match (a, b) {
        (Some(x), Some(y)) => str_eq(x.as_str(), y.as_str()),
        (None, None) => true,
        _ => false,
    }
}

/// Relies on `String::push` from std: appends the given character to the
/// end of the string.
#[verifier::external_body]
pub fn push_char(s: &mut String, c: char)
    ensures
        final(s)@ == old(s)@.push(c),
{
    s.push(c);
}

/// `s` with leading whitespace removed.
pub open spec fn drop_leading_ws(s: Seq<char>) -> Seq<char>
    decreases s.len(),
{
    if s.len() == 0 {
        s
    } else if is_ws_char(s[0]) {
        drop_leading_ws(s.drop_first())
    } else {
        s
    }
}

/// `s` with trailing whitespace removed.
pub open spec fn drop_trailing_ws(s: Seq<char>) -> Seq<char>
    decreases s.len(),
{
    if s.len() == 0 {
        s
    } else if is_ws_char(s[s.len() - 1]) {
        drop_trailing_ws(s.drop_last())
    } else {
        s
    }
}

/// `s` with both leading and trailing whitespace removed, the view-level
/// meaning of `str::trim`.
pub open spec fn trimmed(s: Seq<char>) -> Seq<char> {
    drop_trailing_ws(drop_leading_ws(s))
}

proof fn lemma_drop_leading_step(s: Seq<char>, i: int)
    requires
        0 <= i < s.len(),
        forall|j: int| 0 <= j < i ==> is_ws_char(s[j]),
        is_ws_char(s[i]),
    ensures
        drop_leading_ws(s.skip(i)) == drop_leading_ws(s.skip(i + 1)),
{
    assert(s.skip(i).len() > 0);
    assert(s.skip(i)[0] == s[i]);
    assert(s.skip(i).drop_first() =~= s.skip(i + 1));
}

proof fn lemma_drop_trailing_step(s: Seq<char>, j: int)
    requires
        0 < j <= s.len(),
        is_ws_char(s[j - 1]),
    ensures
        drop_trailing_ws(s.take(j)) == drop_trailing_ws(s.take(j - 1)),
{
    assert(s.take(j).len() == j);
    assert(s.take(j)[j - 1] == s[j - 1]);
    assert(s.take(j).drop_last() =~= s.take(j - 1));
}

/// Trim whitespace from both ends of a string.
pub fn trim_str(s: &str) -> (r: String)
    ensures
        r@ == trimmed(s@),
{
    let n = s.unicode_len();
    proof {
        assert(s@.skip(0) =~= s@);
    }
    let mut i: usize = 0;
    while i < n && is_ws(s.get_char(i))
        invariant
            0 <= i <= n,
            n == s@.len(),
            forall|j: int| 0 <= j < i ==> is_ws_char(s@[j]),
            drop_leading_ws(s@) == drop_leading_ws(s@.skip(i as int)),
        decreases n - i,
    {
        proof {
            lemma_drop_leading_step(s@, i as int);
        }
        i = i + 1;
    }
    // The leading scan is finished: the remaining suffix is the
    // leading-trimmed view.
    proof {
        if i == n {
            assert(s@.skip(i as int) =~= Seq::<char>::empty());
        }
        assert(drop_leading_ws(s@) == s@.skip(i as int));
        assert(s@.skip(i as int).take(n - i) =~= s@.skip(i as int));
    }
    let mut j: usize = n;
    while j > i && is_ws(s.get_char(j - 1))
        invariant
            i <= j <= n,
            n == s@.len(),
            drop_trailing_ws(s@.skip(i as int)) == drop_trailing_ws(
                s@.skip(i as int).take(j - i),
            ),
        decreases j,
    {
        proof {
            lemma_drop_trailing_step(s@.skip(i as int), j - i);
        }
        j = j - 1;
    }
    proof {
        let t = s@.skip(i as int);
        if j == i {
            assert(t.take(0) =~= Seq::<char>::empty());
        } else {
            assert(t.take(j - i)[j - i - 1] == s@[j - 1]);
        }
        assert(drop_trailing_ws(t) == t.take(j - i));
        assert(t.take(j - i) =~= s@.subrange(i as int, j as int));
    }
    let piece = s.substring_char(i, j);
    piece.to_owned()
}

/// True when every character of `s` is a decimal digit.
pub open spec fn all_digits(s: Seq<char>) -> bool {
    forall|i: int| 0 <= i < s.len() ==> is_digit_char(s[i])
}

/// Numeric value of a digit string, most significant digit first.
pub open spec fn digits_value(s: Seq<char>) -> int
    decreases s.len(),
{
    if s.len() == 0 {
        0
    } else {
        digits_value(s.drop_last()) * 10 + digit_value(s.last())
    }
}

/// A numeral as accepted by std's integer parsing: an optional leading
/// `+` sign followed by at least one digit.
pub open spec fn numeral_body(s: Seq<char>) -> Seq<char> {
    if s.len() > 0 && s[0] == '+' {
        s.drop_first()
    } else {
        s
    }
}

proof fn lemma_digits_value_nonneg(s: Seq<char>)
    requires
        all_digits(s),
    ensures
        digits_value(s) >= 0,
    decreases s.len(),
{
    if s.len() > 0 {
        assert(all_digits(s.drop_last())) by {
            assert(forall|i: int| 0 <= i < s.len() - 1 ==> s.drop_last()[i] == s[i]);
        }
        lemma_digits_value_nonneg(s.drop_last());
    }
}

proof fn lemma_digits_prefix_le(s: Seq<char>, j: int)
    requires
        all_digits(s),
        0 <= j <= s.len(),
    ensures
        digits_value(s.take(j)) <= digits_value(s),
    decreases s.len() - j,
{
    if j == s.len() {
        assert(s.take(j) =~= s);
    } else {
        assert(all_digits(s.take(j + 1))) by {
            assert(forall|i: int| 0 <= i < j + 1 ==> s.take(j + 1)[i] == s[i]);
        }
        assert(s.take(j + 1).drop_last() =~= s.take(j));
        assert(s.take(j + 1).last() == s[j]);
        assert(digits_value(s.take(j + 1)) == digits_value(s.take(j)) * 10 + digit_value(s[j]));
        assert(all_digits(s.take(j))) by {
            assert(forall|i: int| 0 <= i < j ==> s.take(j)[i] == s[i]);
        }
        lemma_digits_value_nonneg(s.take(j));
        assert(digits_value(s.take(j)) <= digits_value(s.take(j + 1)));
        lemma_digits_prefix_le(s, j + 1);
    }
}

/// Parse an unsigned decimal integer the way std's `str::parse` does for
/// unsigned targets: an optional `+` sign, then one or more digits, and
/// the value must fit the target type.
pub fn parse_usize(s: &str) -> (r: Option<usize>)
    ensures
        ({
            let b = numeral_body(s@);
            &&& (r is Some <==> (b.len() > 0 && all_digits(b) && digits_value(b) <= usize::MAX))
            &&& (r matches Some(v) ==> v == digits_value(b))
        }),
{
    let n = s.unicode_len();
    let start: usize = if n > 0 && s.get_char(0) == '+' {
        1
    } else {
        0
    };
    let ghost b = numeral_body(s@);
    proof {
        assert(b =~= s@.skip(start as int));
    }
    if start == n {
        proof {
            assert(b.len() == 0);
        }
        return None;
    }
    let mut acc: usize = 0;
    let mut i: usize = start;
    while i < n
        invariant
            start <= i <= n,
            n == s@.len(),
            b == numeral_body(s@),
            b =~= s@.skip(start as int),
            all_digits(b.take(i - start)),
            acc == digits_value(b.take(i - start)),
        decreases n - i,
    {
        let c = s.get_char(i);
        proof {
            assert(b[i - start] == s@[i as int]);
        }
        if !is_digit(c) {
            proof {
                assert(!is_digit_char(b[i - start]));
                assert(!all_digits(b));
            }
            return None;
        }
        let d: usize = (c as u32 as usize) - ('0' as u32 as usize);
        let ghost prev = b.take(i - start);
        proof {
            assert(b.take(i - start + 1).drop_last() =~= prev);
            assert(b.take(i - start + 1).last() == b[i - start]);
        }
        let step = match acc.checked_mul(10) {
            Some(m) => m.checked_add(d),
            None => None,
        };
        match step {
            Some(v) => {
                acc = v;
            },
            None => {
                // The prefix already exceeds the representable range, and
                // appending further digits can only keep the value above it.
                proof {
                    assert(digits_value(b.take(i - start + 1)) > usize::MAX);
                    if all_digits(b) {
                        lemma_digits_prefix_le(b, i - start + 1);
                    }
                }
                return None;
            },
        }
        i = i + 1;
    }
    proof {
        assert(b.take(n - start) =~= b);
    }
    Some(acc)
}

/// Parse a `u32` the way `str::parse::<u32>` does.
pub fn parse_u32(s: &str) -> (r: Option<u32>)
    ensures
        ({
            let b = numeral_body(s@);
            &&& (r is Some <==> (b.len() > 0 && all_digits(b) && digits_value(b) <= u32::MAX))
            &&& (r matches Some(v) ==> v == digits_value(b))
        }),
{
    let n = s.unicode_len();
    let start: usize = if n > 0 && s.get_char(0) == '+' {
        1
    } else {
        0
    };
    let ghost b = numeral_body(s@);
    proof {
        assert(b =~= s@.skip(start as int));
    }
    if start == n {
        proof {
            assert(b.len() == 0);
        }
        return None;
    }
    let mut acc: u32 = 0;
    let mut i: usize = start;
    while i < n
        invariant
            start <= i <= n,
            n == s@.len(),
            b == numeral_body(s@),
            b =~= s@.skip(start as int),
            all_digits(b.take(i - start)),
            acc == digits_value(b.take(i - start)),
        decreases n - i,
    {
        let c = s.get_char(i);
        proof {
            assert(b[i - start] == s@[i as int]);
        }
        if !is_digit(c) {
            proof {
                assert(!is_digit_char(b[i - start]));
                assert(!all_digits(b));
            }
            return None;
        }
        let d: u32 = (c as u32) - ('0' as u32);
        let ghost prev = b.take(i - start);
        proof {
            assert(b.take(i - start + 1).drop_last() =~= prev);
            assert(b.take(i - start + 1).last() == b[i - start]);
        }
        let step = match acc.checked_mul(10) {
            Some(m) => m.checked_add(d),
            None => None,
        };
        match step {
            Some(v) => {
                acc = v;
            },
            None => {
                proof {
                    assert(digits_value(b.take(i - start + 1)) > u32::MAX);
                    if all_digits(b) {
                        lemma_digits_prefix_le(b, i - start + 1);
                    }
                }
                return None;
            },
        }
        i = i + 1;
    }
    proof {
        assert(b.take(n - start) =~= b);
    }
    Some(acc)
}

} // verus!
