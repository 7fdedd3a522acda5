//! Splitting a status record into its semicolon-delimited fields, and
//! parsing a field as an unsigned decimal integer.
//!
//! Fields are handled as byte sequences of the record's UTF-8 bytes: a
//! semicolon byte occurs in UTF-8 exactly where the text has a `;`
//! character, so splitting the bytes splits the text.

use vstd::prelude::*;

verus! {

/// The semicolon delimiter.
pub const FIELD_SEP: u8 = 0x3B;

/// Length of the first field of `s`: the index of the first `sep`
/// byte, or the length of `s` when it has none.
pub open spec fn field_end(s: Seq<u8>, sep: u8) -> int
    decreases s.len(),
{
    if s.len() == 0 {
        0
    } else if s[0] == sep {
        0
    } else {
        1 + field_end(s.drop_first(), sep)
    }
}

/// The fields of `s` delimited by `sep`: one more field than there are
/// separator bytes, in order, separators not included.
pub open spec fn split_on(s: Seq<u8>, sep: u8) -> Seq<Seq<u8>>
    decreases s.len(),
{
    let e = field_end(s, sep);
    if e < 0 || e >= s.len() {
        seq![s]
    } else {
        seq![s.take(e)] + split_on(s.skip(e + 1), sep)
    }
}

/// `field_end` is the position of the first separator: no separator
/// sits before it, and one sits at it unless the field runs to the end.
pub proof fn lemma_field_end_at(s: Seq<u8>, sep: u8, k: int)
    requires
        0 <= k <= s.len(),
        forall|j: int| 0 <= j < k ==> s[j] != sep,
        k < s.len() ==> s[k] == sep,
    ensures
        field_end(s, sep) == k,
    decreases s.len(),
{
    if s.len() > 0 && s[0] != sep {
        assert(forall|j: int| 0 <= j < k - 1 ==> s.drop_first()[j] == s[j + 1]);
        lemma_field_end_at(s.drop_first(), sep, k - 1);
    }
}

/// Splits `s` into its `sep`-delimited fields.
pub fn split_bytes(s: &[u8], sep: u8) -> (r: Vec<Vec<u8>>)
    ensures
        r@.len() == split_on(s@, sep).len(),
        forall|i: int| 0 <= i < r@.len() ==> #[trigger] r@[i]@ == split_on(s@, sep)[i],
{
    let n = s.len();
    let mut r: Vec<Vec<u8>> = Vec::new();
    let mut p: usize = 0;
    proof {
        assert(s@.skip(0) =~= s@);
        assert(r@.map_values(|f: Vec<u8>| f@) + split_on(s@.skip(0), sep) =~= split_on(s@, sep));
    }
    loop
        invariant_except_break
            n == s@.len(),
            p <= n,
            split_on(s@, sep) == r@.map_values(|f: Vec<u8>| f@) + split_on(
                s@.skip(p as int),
                sep,
            ),
        ensures
            r@.map_values(|f: Vec<u8>| f@) == split_on(s@, sep),
        decreases n - p,
    {
        let mut e = p;
        let mut field: Vec<u8> = Vec::new();
        while e < n && s[e] != sep
            invariant
                n == s@.len(),
                p <= e <= n,
                field@ == s@.subrange(p as int, e as int),
                forall|j: int| p <= j < e ==> s@[j] != sep,
            decreases n - e,
        {
            field.push(s[e]);
            proof {
                assert(field@ =~= s@.subrange(p as int, e as int + 1));
            }
            e += 1;
        }
        proof {
            let t = s@.skip(p as int);
            assert(forall|j: int| 0 <= j < e - p ==> t[j] == s@[p + j] && t[j] != sep);
            if e < n {
                assert(t[e - p] == s@[e as int]);
            }
            lemma_field_end_at(t, sep, e - p);
            if e == n {
                assert(field@ =~= t);
            } else {
                assert(t.take(e - p) =~= field@);
                assert(t.skip(e - p + 1) =~= s@.skip(e + 1));
            }
        }
        let ghost old_fields = r@.map_values(|f: Vec<u8>| f@);
        r.push(field);
        proof {
            assert(r@.map_values(|f: Vec<u8>| f@) =~= old_fields.push(field@));
        }
        if e == n {
            proof {
                assert(split_on(s@, sep) =~= r@.map_values(|f: Vec<u8>| f@));
            }
            break;
        }
        p = e + 1;
        proof {
            assert(split_on(s@, sep) =~= r@.map_values(|f: Vec<u8>| f@) + split_on(
                s@.skip(p as int),
                sep,
            ));
        }
    }
    proof {
        assert(forall|i: int|
            0 <= i < r@.len() ==> #[trigger] r@[i]@ == r@.map_values(|f: Vec<u8>| f@)[i]);
    }
    r
}

/// Every byte of `s` is an ASCII decimal digit.
pub open spec fn all_digits(s: Seq<u8>) -> bool {
    forall|i: int| 0 <= i < s.len() ==> 0x30 <= #[trigger] s[i] <= 0x39
}

/// The value of a digit string, most significant digit first.
pub open spec fn dec_value(s: Seq<u8>) -> int
    decreases s.len(),
{
    if s.len() == 0 {
        0
    } else {
        dec_value(s.drop_last()) * 10 + (s.last() - 0x30)
    }
}

/// The digits of a field, after an optional leading `+` sign.
pub open spec fn field_digits(s: Seq<u8>) -> Seq<u8> {
    if s.len() > 0 && s[0] == 0x2B {
        s.drop_first()
    } else {
        s
    }
}

/// Whether a field parses as a `u32`: at least one digit after the
/// optional sign, digits only, and a value that fits.
pub open spec fn parse_ok(s: Seq<u8>) -> bool {
    let digits = field_digits(s);
    digits.len() > 0 && all_digits(digits) && dec_value(digits) <= u32::MAX
}

/// The parsed value of a field.
pub open spec fn parse_value(s: Seq<u8>) -> int {
    dec_value(field_digits(s))
}

proof fn lemma_dec_value_nonneg(s: Seq<u8>)
    requires
        all_digits(s),
    ensures
        dec_value(s) >= 0,
    decreases s.len(),
{
    if s.len() > 0 {
        assert(all_digits(s.drop_last()));
        lemma_dec_value_nonneg(s.drop_last());
    }
}

/// A digit string is worth at least any of its prefixes.
proof fn lemma_dec_value_prefix(s: Seq<u8>, k: int)
    requires
        all_digits(s),
        0 <= k <= s.len(),
    ensures
        dec_value(s) >= dec_value(s.take(k)),
    decreases s.len(),
{
    if k < s.len() {
        assert(all_digits(s.drop_last()));
        assert(s.drop_last().take(k) =~= s.take(k));
        lemma_dec_value_prefix(s.drop_last(), k);
        lemma_dec_value_nonneg(s.drop_last());
    } else {
        assert(s.take(k) =~= s);
    }
}

/// Parses a field as an unsigned decimal integer, accepting an optional
/// leading `+`; fails on an empty field, a non-digit byte, or overflow.
pub fn parse_u32_field(s: &[u8]) -> (r: Option<u32>)
    ensures
        parse_ok(s@) ==> (r matches Some(v) && v == parse_value(s@)),
        !parse_ok(s@) ==> r is None,
{
    let n = s.len();
    let start: usize = if n > 0 && s[0] == 0x2B {
        1
    } else {
        0
    };
    let ghost digits = field_digits(s@);
    proof {
        if start == 1 {
            assert(digits =~= s@.subrange(1, n as int));
        } else {
            assert(digits =~= s@.subrange(0, n as int));
        }
    }
    if start >= n {
        return None;
    }
    let mut acc: u32 = 0;
    let mut i: usize = start;
    while i < n
        invariant
            n == s@.len(),
            start <= i <= n,
            digits == field_digits(s@),
            digits.len() == n - start,
            forall|j: int| 0 <= j < digits.len() ==> digits[j] == s@[start + j],
            all_digits(digits.take(i - start)),
            acc == dec_value(digits.take(i - start)),
        decreases n - i,
    {
        let b = s[i];
        if b < 0x30 || b > 0x39 {
            proof {
                assert(digits[i - start] == b);
            }
            return None;
        }
        let d = (b - 0x30) as u32;
        if acc > (u32::MAX - d) / 10 {
            proof {
                let k = i - start + 1;
                assert(digits.take(k).drop_last() =~= digits.take(k - 1));
                assert(digits.take(k).last() == b);
                if parse_ok(s@) {
                    lemma_dec_value_prefix(digits, k);
                    assert(dec_value(digits.take(k)) == acc * 10 + d);
                    assert(acc * 10 + d > u32::MAX) by {
                        assert(acc >= (u32::MAX - d) / 10 + 1);
                        assert(((u32::MAX - d) / 10 + 1) * 10 > u32::MAX - d);
                    }
                }
            }
            return None;
        }
        proof {
            assert(acc * 10 + d <= u32::MAX) by {
                assert(acc <= (u32::MAX - d) / 10);
                assert(((u32::MAX - d) as u32 / 10) * 10 <= u32::MAX - d);
            }
            let k = i - start + 1;
            assert(digits.take(k).drop_last() =~= digits.take(k - 1));
            assert(digits.take(k).last() == b);
            assert(all_digits(digits.take(k)));
        }
        acc = acc * 10 + d;
        i += 1;
    }
    proof {
        assert(digits.take(n - start) =~= digits);
    }
    Some(acc)
}

} // verus!
