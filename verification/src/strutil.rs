//! String primitives the tokenizer is built on: prefix tests, substring
//! extraction, delimiter search and splitting, and decimal numeral parsing,
//! each specified over the `Seq<char>` view of the text.

use vstd::prelude::*;

verus! {

/// `p` is a literal prefix of `s`.
pub open spec fn is_prefix_of(p: Seq<char>, s: Seq<char>) -> bool {
    p.len() <= s.len() && p == s.subrange(0, p.len() as int)
}

/// Character-wise string equality.
pub fn str_eq(a: &str, b: &str) -> (r: bool)
    ensures
        r == (a@ == b@),
{
    let alen: usize = a.unicode_len();
    let blen: usize = b.unicode_len();
    if alen != blen {
        return false;
    }
    let mut i: usize = 0;
    while i < alen
        invariant
            i <= alen,
            alen == a@.len(),
            alen == b@.len(),
            forall|j: int| 0 <= j < i ==> a@[j] == b@[j],
        decreases alen - i,
    {
        if a.get_char(i) != b.get_char(i) {
            return false;
        }
        i += 1;
    }
    proof {
        assert(a@ =~= b@);
    }
    true
}

/// Does `s` start with `p`, character for character?
pub fn str_starts_with(s: &str, p: &str) -> (r: bool)
    ensures
        r == is_prefix_of(p@, s@),
{
    let slen: usize = s.unicode_len();
    let plen: usize = p.unicode_len();
    if plen > slen {
        return false;
    }
    let mut i: usize = 0;
    while i < plen
        invariant
            i <= plen,
            plen <= slen,
            slen == s@.len(),
            plen == p@.len(),
            forall|j: int| 0 <= j < i ==> p@[j] == s@[j],
        decreases plen - i,
    {
        if p.get_char(i) != s.get_char(i) {
            proof {
                assert(p@[i as int] != s@.subrange(0, plen as int)[i as int]);
            }
            return false;
        }
        i += 1;
    }
    proof {
        assert(p@ =~= s@.subrange(0, plen as int));
    }
    true
}

/// The characters of `s` from `from` (inclusive) to `to` (exclusive), as an
/// owned string.
pub fn substr(s: &str, from: usize, to: usize) -> (r: String)
    requires
        from <= to <= s@.len(),
    ensures
        r@ == s@.subrange(from as int, to as int),
{
    s.substring_char(from, to).to_owned()
}

/// The position of the first occurrence of `d` in `s` at or after `from`.
pub open spec fn first_occur_from(s: Seq<char>, d: Seq<char>, from: int) -> Option<int>
    decreases s.len() - from
        when 0 <= from && 1 <= d.len()
{
    if from + d.len() > s.len() {
        None
    } else if s.subrange(from, from + d.len() as int) == d {
        Some(from)
    } else {
        first_occur_from(s, d, from + 1)
    }
}

/// What a `Some` answer of [`first_occur_from`] means: an in-range match.
pub proof fn lemma_first_occur_bounds(s: Seq<char>, d: Seq<char>, from: int)
    requires
        0 <= from,
        1 <= d.len(),
    ensures
        first_occur_from(s, d, from) matches Some(i) ==> from <= i && i + d.len() <= s.len()
            && s.subrange(i, i + d.len() as int) == d,
    decreases s.len() - from,
{
    if from + d.len() > s.len() {
    } else if s.subrange(from, from + d.len() as int) == d {
    } else {
        lemma_first_occur_bounds(s, d, from + 1);
    }
}

/// Finds the first occurrence of `d` in `s` at or after character index
/// `from`.
pub fn find_first(s: &str, d: &str, from: usize) -> (r: Option<usize>)
    requires
        1 <= d@.len(),
        from <= s@.len(),
    ensures
        match r {
            Some(i) => first_occur_from(s@, d@, from as int) == Some(i as int)
                && from <= i && i + d@.len() <= s@.len(),
            None => first_occur_from(s@, d@, from as int) is None,
        },
{
    let slen: usize = s.unicode_len();
    let dlen: usize = d.unicode_len();
    let mut i: usize = from;
    loop
        invariant
            from <= i,
            i <= slen,
            slen == s@.len(),
            dlen == d@.len(),
            1 <= dlen,
            first_occur_from(s@, d@, from as int) == first_occur_from(s@, d@, i as int),
        decreases slen - i,
    {
        if dlen > slen - i {
            proof {
                assert(first_occur_from(s@, d@, i as int) is None);
            }
            return None;
        }
        let cand = s.substring_char(i, i + dlen);
        if str_eq(cand, d) {
            return Some(i);
        }
        proof {
            assert(first_occur_from(s@, d@, i as int) == first_occur_from(s@, d@, i + 1));
        }
        i += 1;
    }
}

/// Splitting `s` on delimiter `d`: the leftmost occurrence of `d` separates
/// the head piece from the split of the remainder; with no occurrence (or an
/// empty delimiter) the result is the single piece `s`.
pub open spec fn split_on(s: Seq<char>, d: Seq<char>) -> Seq<Seq<char>>
    decreases s.len()
    via split_on_dec
{
    if d.len() == 0 {
        seq![s]
    } else {
        match first_occur_from(s, d, 0) {
            Option::None => seq![s],
            Option::Some(i) => seq![s.subrange(0, i)] + split_on(
                s.subrange(i + d.len() as int, s.len() as int),
                d,
            ),
        }
    }
}

#[via_fn]
proof fn split_on_dec(s: Seq<char>, d: Seq<char>) {
    if d.len() > 0 {
        lemma_first_occur_bounds(s, d, 0);
    }
}

/// Splits `s` on the delimiter `d`, leftmost first.
pub fn split_str(s: &str, d: &str) -> (r: Vec<String>)
    ensures
        r.deep_view() == split_on(s@, d@),
        r@.len() >= 1,
    decreases s@.len(),
{
    let slen: usize = s.unicode_len();
    let dlen: usize = d.unicode_len();
    if dlen == 0 {
        let mut v: Vec<String> = Vec::new();
        v.push(s.to_owned());
        proof {
            assert(v.deep_view() =~= seq![s@]);
        }
        v
    } else {
        match find_first(s, d, 0) {
            None => {
                let mut v: Vec<String> = Vec::new();
                v.push(s.to_owned());
                proof {
                    assert(v.deep_view() =~= seq![s@]);
                }
                v
            },
            Some(i) => {
                let head = s.substring_char(0, i).to_owned();
                let rest = s.substring_char(i + dlen, slen);
                let mut tail = split_str(rest, d);
                let ghost tail_view = tail.deep_view();
                let mut v: Vec<String> = Vec::new();
                v.push(head);
                v.append(&mut tail);
                proof {
                    assert(v.deep_view() =~= seq![s@.subrange(0, i as int)] + tail_view);
                }
                v
            },
        }
    }
}

/// `c` is a decimal digit.
pub open spec fn is_dec_digit(c: char) -> bool {
    48 <= c as u32 <= 57
}

/// The numeric value of a decimal digit.
pub open spec fn dec_digit_val(c: char) -> int {
    c as u32 - 48
}

/// Every character of `s` is a decimal digit.
pub open spec fn all_dec_digits(s: Seq<char>) -> bool {
    forall|i: int| 0 <= i < s.len() ==> is_dec_digit(#[trigger] s[i])
}

/// The value of a string of decimal digits, most significant first.
pub open spec fn dec_val(s: Seq<char>) -> int
    decreases s.len(),
{
    if s.len() == 0 {
        0
    } else {
        dec_val(s.drop_last()) * 10 + dec_digit_val(s.last())
    }
}

/// A digit string's value is never negative.
pub proof fn lemma_dec_val_nonneg(s: Seq<char>)
    requires
        all_dec_digits(s),
    ensures
        dec_val(s) >= 0,
    decreases s.len(),
{
    if s.len() > 0 {
        assert(all_dec_digits(s.drop_last()));
        lemma_dec_val_nonneg(s.drop_last());
    }
}

/// A prefix of a digit string never has a larger value than the whole.
pub proof fn lemma_dec_val_take_le(s: Seq<char>, j: int)
    requires
        all_dec_digits(s),
        0 <= j <= s.len(),
    ensures
        dec_val(s.take(j)) <= dec_val(s),
    decreases s.len() - j,
{
    if j == s.len() {
        assert(s.take(j) =~= s);
    } else {
        assert(s.take(j + 1).drop_last() =~= s.take(j));
        assert(all_dec_digits(s.take(j)));
        lemma_dec_val_nonneg(s.take(j));
        assert(dec_val(s.take(j + 1)) == dec_val(s.take(j)) * 10 + dec_digit_val(s[j]));
        lemma_dec_val_take_le(s, j + 1);
    }
}

/// `s` is a decimal numeral (optional leading minus sign) whose value fits a
/// 32-bit signed integer.
pub open spec fn is_i32_numeral(s: Seq<char>) -> bool {
    if s.len() >= 1 && s[0] == '-' {
        s.len() >= 2 && all_dec_digits(s.skip(1)) && dec_val(s.skip(1)) <= 0x8000_0000
    } else {
        s.len() >= 1 && all_dec_digits(s) && dec_val(s) <= 0x7fff_ffff
    }
}

/// The value of a decimal numeral.
pub open spec fn i32_numeral_val(s: Seq<char>) -> int {
    if s.len() >= 1 && s[0] == '-' {
        -dec_val(s.skip(1))
    } else {
        dec_val(s)
    }
}

/// Parses `s` as a signed 32-bit decimal numeral; `None` exactly when `s` is
/// not one.
pub fn parse_i32(s: &str) -> (r: Option<i32>)
    ensures
        r is Some <==> is_i32_numeral(s@),
        r matches Some(v) ==> v as int == i32_numeral_val(s@),
{
    let n: usize = s.unicode_len();
    if n == 0 {
        return None;
    }
    let neg: bool = s.get_char(0) == '-';
    let start: usize = if neg {
        1
    } else {
        0
    };
    if start >= n {
        return None;
    }
    let bound: i64 = if neg {
        2147483648
    } else {
        2147483647
    };
    let ghost digits: Seq<char> = s@.subrange(start as int, n as int);
    proof {
        if neg {
            assert(digits =~= s@.skip(1));
        } else {
            assert(digits =~= s@);
        }
    }
    let mut acc: i64 = 0;
    let mut i: usize = start;
    while i < n
        invariant
            start <= i <= n,
            n == s@.len(),
            start == 1 <==> neg,
            start <= 1,
            neg <==> (s@.len() >= 1 && s@[0] == '-'),
            bound == if neg { 0x8000_0000int } else { 0x7fff_ffffint },
            digits == s@.subrange(start as int, n as int),
            digits == if neg { s@.skip(1) } else { s@ },
            all_dec_digits(digits.take(i - start)),
            acc == dec_val(digits.take(i - start)),
            0 <= acc <= bound,
        decreases n - i,
    {
        let c = s.get_char(i);
        let u: u32 = c as u32;
        if !(48 <= u && u <= 57) {
            proof {
                assert(digits[i - start] == s@[i as int]);
                assert(!is_dec_digit(digits[i - start]));
                assert(!all_dec_digits(digits));
            }
            return None;
        }
        let d: i64 = (u - 48) as i64;
        let next: i64 = acc * 10 + d;
        proof {
            assert(digits.take(i - start + 1).drop_last() =~= digits.take(i - start));
            assert(digits.take(i - start + 1).last() == digits[i - start]);
            assert(digits[i - start] == s@[i as int]);
            assert(next == dec_val(digits.take(i - start + 1)));
        }
        if next > bound {
            proof {
                if is_i32_numeral(s@) {
                    assert(all_dec_digits(digits));
                    lemma_dec_val_take_le(digits, i - start + 1);
                    assert(dec_val(digits) >= next);
                    assert(false);
                }
            }
            return None;
        }
        acc = next;
        i += 1;
    }
    proof {
        assert(digits.take(n - start) =~= digits);
        assert(is_i32_numeral(s@));
    }
    if neg {
        let v: i64 = -acc;
        proof {
            assert(-0x8000_0000 <= v <= 0x7fff_ffff);
        }
        Some(v as i32)
    } else {
        Some(acc as i32)
    }
}

} // verus!
