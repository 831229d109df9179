//! Text utilities for reply parsing and command formatting: splitting a
//! line into space-delimited fields, reading a field as an unsigned
//! integer, and printing an unsigned integer in decimal.

use vstd::prelude::*;
use vstd::string::*;

verus! {

// ---------------------------------------------------------------------
// Splitting on spaces
// ---------------------------------------------------------------------

/// Index of the first space, or `s.len()` if there is none.
pub open spec fn sp_index(s: Seq<char>) -> int
    decreases s.len(),
{
    if s.len() == 0 {
        0
    } else if s[0] == ' ' {
        0
    } else {
        1 + sp_index(s.drop_first())
    }
}

/// Does the line hold a space?
pub open spec fn has_sp(s: Seq<char>) -> bool {
    sp_index(s) < s.len()
}

/// The space-delimited fields of a line, in order.  Every space is a
/// delimiter, so consecutive spaces yield empty fields, and a line
/// always has at least one field.
pub open spec fn split_sp(s: Seq<char>) -> Seq<Seq<char>>
    decreases s.len(),
    via split_sp_dec
{
    if has_sp(s) {
        seq![s.take(sp_index(s))] + split_sp(s.skip(sp_index(s) + 1))
    } else {
        seq![s]
    }
}

#[via_fn]
proof fn split_sp_dec(s: Seq<char>) {
    lemma_sp_index(s);
}

/// `sp_index` points at the first space: it is in bounds exactly when a
/// space exists, no space comes before it, and it holds one when in
/// bounds.
proof fn lemma_sp_index(s: Seq<char>)
    ensures
        0 <= sp_index(s) <= s.len(),
        has_sp(s) ==> s[sp_index(s)] == ' ',
        forall|k: int| 0 <= k < sp_index(s) ==> s[k] != ' ',
    decreases s.len(),
{
    if s.len() == 0 {
    } else if s[0] == ' ' {
    } else {
        lemma_sp_index(s.drop_first());
        assert forall|k: int| 0 <= k < sp_index(s) implies s[k] != ' ' by {
            if k > 0 {
                assert(s.drop_first()[k - 1] == s[k]);
            }
        }
    }
}

/// A scan that found a space at `i`, with none before it, found
/// `sp_index`.
proof fn lemma_sp_index_of_witness(s: Seq<char>, i: int)
    requires
        0 <= i < s.len(),
        s[i] == ' ',
        forall|k: int| 0 <= k < i ==> s[k] != ' ',
    ensures
        sp_index(s) == i,
{
    lemma_sp_index(s);
    if sp_index(s) < i {
        assert(s[sp_index(s)] == ' ');
    }
}

/// The space-delimited fields of the line, as owned strings.
pub fn split_fields(s: &str) -> (r: Vec<String>)
    ensures
        r@.map_values(|t: String| t@) == split_sp(s@),
        r@.len() >= 1,
{
    let n = s.unicode_len();
    let mut fields: Vec<String> = Vec::new();
    let mut start: usize = 0;
    let mut i: usize = 0;
    proof {
        assert(fields@.map_values(|t: String| t@) =~~= Seq::<Seq<char>>::empty());
        assert(s@.skip(0) =~= s@);
        assert(split_sp(s@) =~~= fields@.map_values(|t: String| t@) + split_sp(s@.skip(0)));
    }
    while i < n
        invariant
            start <= i <= n,
            n == s@.len(),
            forall|k: int| start <= k < i ==> s@[k] != ' ',
            split_sp(s@) == fields@.map_values(|t: String| t@) + split_sp(
                s@.skip(start as int),
            ),
        decreases n - i,
    {
        if s.get_char(i) == ' ' {
            let field = String::from_str(s.substring_char(start, i));
            let ghost prev = fields@.map_values(|t: String| t@);
            proof {
                let rem = s@.skip(start as int);
                assert forall|k: int| 0 <= k < i - start implies rem[k] != ' ' by {
                    assert(rem[k] == s@[k + start]);
                }
                lemma_sp_index_of_witness(rem, i - start);
                assert(rem.take(i - start) =~= s@.subrange(start as int, i as int));
                assert(rem.skip(i - start + 1) =~= s@.skip(i + 1));
            }
            fields.push(field);
            proof {
                assert(fields@.map_values(|t: String| t@) =~~= prev + seq![field@]);
                assert(split_sp(s@) =~~= fields@.map_values(|t: String| t@) + split_sp(
                    s@.skip(i + 1),
                ));
            }
            start = i + 1;
        }
        i = i + 1;
    }
    let field = String::from_str(s.substring_char(start, n));
    let ghost prev = fields@.map_values(|t: String| t@);
    proof {
        let rem = s@.skip(start as int);
        lemma_sp_index(rem);
        if has_sp(rem) {
            assert(rem[sp_index(rem)] == s@[sp_index(rem) + start]);
            assert(false);
        }
        assert(rem =~= s@.subrange(start as int, n as int));
    }
    fields.push(field);
    proof {
        assert(fields@.map_values(|t: String| t@) =~~= prev + seq![field@]);
        assert(split_sp(s@) =~~= fields@.map_values(|t: String| t@));
    }
    fields
}

// ---------------------------------------------------------------------
// Unsigned decimal fields
// ---------------------------------------------------------------------

/// Is `c` a decimal digit?
pub open spec fn is_dec_digit(c: char) -> bool {
    48 <= c as u32 <= 57
}

/// The numeric value of a digit character.
pub open spec fn digit_of(c: char) -> int {
    c as u32 - 48
}

/// All characters are decimal digits.
pub open spec fn all_digits(s: Seq<char>) -> bool {
    forall|i: int| 0 <= i < s.len() ==> is_dec_digit(s[i])
}

/// The value of a digit string, most significant digit first.
pub open spec fn digits_val(s: Seq<char>) -> int
    decreases s.len(),
{
    if s.len() == 0 {
        0
    } else {
        digits_val(s.drop_last()) * 10 + digit_of(s.last())
    }
}

/// What parsing a field as an unsigned 32-bit integer yields: an
/// optional leading plus sign, then at least one digit, and a value
/// within range; anything else is rejected.
pub open spec fn parse_u32_spec(s: Seq<char>) -> Option<u32> {
    let body = if s.len() >= 1 && s[0] == '+' {
        s.drop_first()
    } else {
        s
    };
    if body.len() >= 1 && all_digits(body) && digits_val(body) <= u32::MAX {
        Some(digits_val(body) as u32)
    } else {
        None
    }
}

/// A digit string's value is at least zero.
proof fn lemma_digits_val_nonneg(s: Seq<char>)
    requires
        all_digits(s),
    ensures
        digits_val(s) >= 0,
    decreases s.len(),
{
    if s.len() > 0 {
        lemma_digits_val_nonneg(s.drop_last());
    }
}

/// Extending a digit string can only grow its value.
proof fn lemma_digits_val_monotone(s: Seq<char>, i: int)
    requires
        all_digits(s),
        0 <= i <= s.len(),
    ensures
        digits_val(s.take(i)) <= digits_val(s),
    decreases s.len() - i,
{
    if i < s.len() {
        lemma_digits_val_monotone(s, i + 1);
        assert(s.take(i + 1).drop_last() =~= s.take(i));
        assert(all_digits(s.take(i + 1)));
        lemma_digits_val_nonneg(s.take(i));
    } else {
        assert(s.take(i) =~= s);
    }
}

/// Parse a field as an unsigned 32-bit decimal integer.
pub fn parse_u32_field(s: &str) -> (r: Option<u32>)
    ensures
        r == parse_u32_spec(s@),
{
    let n = s.unicode_len();
    let mut i: usize = 0;
    if n >= 1 && s.get_char(0) == '+' {
        i = 1;
    }
    let ghost body = if s@.len() >= 1 && s@[0] == '+' {
        s@.drop_first()
    } else {
        s@
    };
    proof {
        assert(body =~= s@.skip(i as int));
    }
    if i >= n {
        return None;
    }
    let mut acc: u32 = 0;
    let mut j: usize = i;
    while j < n
        invariant
            i <= j <= n,
            n == s@.len(),
            body == s@.skip(i as int),
            body == (if s@.len() >= 1 && s@[0] == '+' {
                s@.drop_first()
            } else {
                s@
            }),
            forall|k: int| i <= k < j ==> is_dec_digit(s@[k]),
            acc == digits_val(s@.subrange(i as int, j as int)),
        decreases n - j,
    {
        let c = s.get_char(j);
        let v: u32 = c as u32;
        if v < 48 || v > 57 {
            proof {
                assert(body[j - i] == s@[j as int]);
                assert(!is_dec_digit(body[j - i]));
                assert(!all_digits(body));
            }
            return None;
        }
        let d: u32 = v - 48;
        let wide: u64 = acc as u64 * 10 + d as u64;
        proof {
            assert(s@.subrange(i as int, j + 1).drop_last() =~= s@.subrange(
                i as int,
                j as int,
            ));
            assert(body.take(j + 1 - i) =~= s@.subrange(i as int, j + 1));
            assert(s@.subrange(i as int, j + 1).last() == s@[j as int]);
            assert(digits_val(s@.subrange(i as int, j + 1)) == acc * 10 + d);
        }
        if wide > 0xffff_ffffu64 {
            proof {
                assert(digits_val(body.take(j + 1 - i)) == wide);
                if all_digits(body) {
                    lemma_digits_val_monotone(body, j + 1 - i);
                    assert(digits_val(body) > u32::MAX);
                }
            }
            return None;
        }
        acc = wide as u32;
        j = j + 1;
    }
    proof {
        assert(s@.subrange(i as int, n as int) =~= body);
    }
    Some(acc)
}

// ---------------------------------------------------------------------
// Printing unsigned integers
// ---------------------------------------------------------------------

/// The character for one digit value.
pub open spec fn digit_char(d: int) -> char {
    if d == 0 {
        '0'
    } else if d == 1 {
        '1'
    } else if d == 2 {
        '2'
    } else if d == 3 {
        '3'
    } else if d == 4 {
        '4'
    } else if d == 5 {
        '5'
    } else if d == 6 {
        '6'
    } else if d == 7 {
        '7'
    } else if d == 8 {
        '8'
    } else {
        '9'
    }
}

/// The decimal digit characters of `n`, most significant first, with no
/// leading zeroes (zero itself prints as one digit).
pub open spec fn dec_digits(n: int) -> Seq<char>
    decreases n,
{
    if n < 10 {
        seq![digit_char(n)]
    } else {
        dec_digits(n / 10) + seq![digit_char(n % 10)]
    }
}

/// The digit characters of a digit-value sequence, reversed.
spec fn rev_digit_chars(v: Seq<u32>) -> Seq<char> {
    Seq::new(v.len(), |i: int| digit_char(v[v.len() - 1 - i] as int))
}

/// The decimal text of one digit value.
fn digit_str(d: u32) -> (r: &'static str)
    requires
        d < 10,
    ensures
        r@ == seq![digit_char(d as int)],
{
    let r = match d {
        0 => "0",
        1 => "1",
        2 => "2",
        3 => "3",
        4 => "4",
        5 => "5",
        6 => "6",
        7 => "7",
        8 => "8",
        _ => "9",
    };
    proof {
        reveal_strlit("0");
        reveal_strlit("1");
        reveal_strlit("2");
        reveal_strlit("3");
        reveal_strlit("4");
        reveal_strlit("5");
        reveal_strlit("6");
        reveal_strlit("7");
        reveal_strlit("8");
        reveal_strlit("9");
        assert(r@ =~= seq![digit_char(d as int)]);
    }
    r
}

/// Print `n` in decimal.
pub fn u32_to_dec(n: u32) -> (r: String)
    ensures
        r@ == dec_digits(n as int),
{
    let mut rev: Vec<u32> = Vec::new();
    let mut m: u32 = n;
    loop
        invariant_except_break
            forall|k: int| 0 <= k < rev@.len() ==> rev@[k] < 10,
            dec_digits(n as int) == dec_digits(m as int) + rev_digit_chars(rev@),
        ensures
            forall|k: int| 0 <= k < rev@.len() ==> rev@[k] < 10,
            dec_digits(n as int) == rev_digit_chars(rev@),
        decreases m,
    {
        let d: u32 = m % 10;
        let ghost prev = rev@;
        rev.push(d);
        proof {
            assert(rev_digit_chars(rev@) =~= seq![digit_char(d as int)] + rev_digit_chars(
                prev,
            ));
        }
        if m < 10 {
            proof {
                assert(dec_digits(m as int) == seq![digit_char(m as int)]);
                assert(dec_digits(n as int) =~= rev_digit_chars(rev@));
            }
            break;
        }
        proof {
            assert(dec_digits(m as int) == dec_digits(m as int / 10) + seq![digit_char(
                m as int % 10,
            )]);
            assert(dec_digits(n as int) =~= dec_digits((m / 10) as int) + rev_digit_chars(
                rev@,
            ));
        }
        m = m / 10;
    }
    let mut out = String::new();
    let mut idx: usize = rev.len();
    while idx > 0
        invariant
            idx <= rev@.len(),
            forall|k: int| 0 <= k < rev@.len() ==> rev@[k] < 10,
            dec_digits(n as int) == rev_digit_chars(rev@),
            out@ == rev_digit_chars(rev@).take(rev@.len() - idx),
        decreases idx,
    {
        idx = idx - 1;
        let ghost before = out@;
        out.append(digit_str(rev[idx]));
        proof {
            assert(rev_digit_chars(rev@)[rev@.len() - 1 - idx as int] == digit_char(
                rev@[idx as int] as int,
            ));
            assert(out@ =~= rev_digit_chars(rev@).take(rev@.len() - idx as int));
        }
    }
    proof {
        assert(rev_digit_chars(rev@).take(rev@.len() as int) =~= rev_digit_chars(rev@));
    }
    out
}

} // verus!
