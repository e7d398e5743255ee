//! Item identifiers: the text `com.trevorbentley.<n>` for a sequence number `n`.

use vstd::prelude::*;

verus! {

/// The text every item identifier starts with: `com.trevorbentley.`
pub open spec fn ident_prefix() -> Seq<u8> {
    seq![
        'c' as u8, 'o' as u8, 'm' as u8, '.' as u8, 't' as u8, 'r' as u8, 'e' as u8, 'v' as u8, 'o' as u8, 'r' as u8, 'b' as u8, 'e' as u8, 'n' as u8, 't' as u8, 'l' as u8,
        'e' as u8, 'y' as u8, '.' as u8,
    ]
}

/// Whether `b` is an ASCII decimal digit.
pub open spec fn is_digit(b: u8) -> bool {
    48 <= b <= 57
}

/// The decimal digits of `n`, most significant first, with no leading zero.
pub open spec fn decimal(n: nat) -> Seq<u8>
    decreases n,
{
    if n < 10 {
        seq![(48 + n) as u8]
    } else {
        decimal(n / 10).push((48 + n % 10) as u8)
    }
}

/// The identifier text of the item numbered `seq`.
pub open spec fn ident_text(seq: nat) -> Seq<u8> {
    ident_prefix() + decimal(seq)
}

/// Exec copy of the prefix.
fn prefix_bytes() -> (v: Vec<u8>)
    ensures
        v@ == ident_prefix(),
{
    let v: Vec<u8> = vec![
        'c' as u8, 'o' as u8, 'm' as u8, '.' as u8, 't' as u8, 'r' as u8, 'e' as u8, 'v' as u8, 'o' as u8, 'r' as u8, 'b' as u8, 'e' as u8, 'n' as u8, 't' as u8, 'l' as u8,
        'e' as u8, 'y' as u8, '.' as u8,
    ];
    assert(v@ =~= ident_prefix());
    v
}


/// The value of a digit byte.
pub open spec fn digit_value(b: u8) -> nat {
    (b - 48) as nat
}

/// Every byte of `s` is a decimal digit.
pub open spec fn all_digits(s: Seq<u8>) -> bool {
    forall|i: int| 0 <= i < s.len() ==> is_digit(#[trigger] s[i])
}

/// The number that the digits `s` spell, most significant first.
pub open spec fn digits_value(s: Seq<u8>) -> nat
    decreases s.len(),
{
    if s.len() == 0 {
        0
    } else {
        digits_value(s.drop_last()) * 10 + digit_value(s.last())
    }
}

/// A decimal numeral as `decimal` writes it: digits only, at least one,
/// and no leading zero unless the numeral is `0` itself.
pub open spec fn is_numeral(s: Seq<u8>) -> bool {
    &&& s.len() > 0
    &&& all_digits(s)
    &&& (s[0] != 48 || s.len() == 1)
}

/// `decimal(n)` is a numeral and spells `n`.
pub proof fn lemma_decimal_numeral(n: nat)
    ensures
        is_numeral(decimal(n)),
        digits_value(decimal(n)) == n,
    decreases n,
{
    let s = decimal(n);
    assert(digits_value(Seq::<u8>::empty()) == 0);
    if n < 10 {
        assert(s.drop_last() =~= Seq::<u8>::empty());
        assert(digits_value(s) == digits_value(s.drop_last()) * 10 + digit_value(s.last()));
    } else {
        lemma_decimal_numeral(n / 10);
        let t = decimal(n / 10);
        assert(s.drop_last() =~= t);
        assert(s[0] == t[0]);
        if t[0] == 48 {
            assert(t.len() == 1);
            assert(t.drop_last() =~= Seq::<u8>::empty());
            assert(t.last() == 48);
            assert(digits_value(t) == digits_value(t.drop_last()) * 10 + digit_value(t.last()));
        }
        assert(digit_value(s.last()) == n % 10);
        assert((n / 10) * 10 + n % 10 == n);
        assert(all_digits(s)) by {
            assert forall|i: int| 0 <= i < s.len() implies is_digit(#[trigger] s[i]) by {
                if i < t.len() {
                    assert(s[i] == t[i]);
                }
            }
        }
    }
}

/// A numeral whose first digit is not zero spells a positive number.
proof fn lemma_leading_digit_positive(s: Seq<u8>)
    requires
        s.len() > 0,
        all_digits(s),
        s[0] != 48,
    ensures
        digits_value(s) >= 1,
    decreases s.len(),
{
    if s.len() == 1 {
        assert(s.drop_last() =~= Seq::<u8>::empty());
        assert(is_digit(s[0]));
    } else {
        let t = s.drop_last();
        assert(t[0] == s[0]);
        assert(all_digits(t)) by {
            assert forall|i: int| 0 <= i < t.len() implies is_digit(#[trigger] t[i]) by {
                assert(t[i] == s[i]);
            }
        }
        lemma_leading_digit_positive(t);
    }
}

/// Every numeral is what `decimal` writes for the number it spells.
pub proof fn lemma_numeral_decimal(s: Seq<u8>)
    requires
        is_numeral(s),
    ensures
        decimal(digits_value(s)) == s,
    decreases s.len(),
{
    let v = digits_value(s);
    assert(is_digit(s.last()));
    if s.len() == 1 {
        assert(s.drop_last() =~= Seq::<u8>::empty());
        assert(decimal(v) =~= s);
    } else {
        let t = s.drop_last();
        assert(t[0] == s[0]);
        assert(all_digits(t)) by {
            assert forall|i: int| 0 <= i < t.len() implies is_digit(#[trigger] t[i]) by {
                assert(t[i] == s[i]);
            }
        }
        lemma_numeral_decimal(t);
        lemma_leading_digit_positive(t);
        let a = digits_value(t);
        let d = digit_value(s.last());
        assert(v == a * 10 + d);
        assert(v / 10 == a && v % 10 == d);
        assert(decimal(v) =~= s);
    }
}

/// A prefix of a run of digits never spells more than the whole run.
proof fn lemma_digits_value_prefix(s: Seq<u8>, k: int)
    requires
        all_digits(s),
        0 <= k <= s.len(),
    ensures
        digits_value(s.take(k)) <= digits_value(s),
    decreases s.len(),
{
    if k == s.len() {
        assert(s.take(k) =~= s);
    } else {
        let t = s.drop_last();
        assert(all_digits(t)) by {
            assert forall|i: int| 0 <= i < t.len() implies is_digit(#[trigger] t[i]) by {
                assert(t[i] == s[i]);
            }
        }
        lemma_digits_value_prefix(t, k);
        assert(t.take(k) =~= s.take(k));
    }
}

/// Identifier texts of different numbers differ.
pub proof fn lemma_ident_text_injective(a: nat, b: nat)
    requires
        ident_text(a) == ident_text(b),
    ensures
        a == b,
{
    let p = ident_prefix().len() as int;
    assert(ident_text(a).subrange(p, ident_text(a).len() as int) =~= decimal(a));
    assert(ident_text(b).subrange(p, ident_text(b).len() as int) =~= decimal(b));
    lemma_decimal_numeral(a);
    lemma_decimal_numeral(b);
}

/// Appends the decimal digits of `n` to `out`.
fn push_decimal(out: &mut Vec<u8>, n: u64)
    ensures
        final(out)@ == old(out)@ + decimal(n as nat),
    decreases n,
{
    if n >= 10 {
        push_decimal(out, n / 10);
    }
    let d: u8 = (n % 10) as u8;
    out.push(48 + d);
    proof {
        if n >= 10 {
            assert(out@ =~= old(out)@ + decimal((n / 10) as nat).push((48 + n % 10) as u8));
        } else {
            assert(out@ =~= old(out)@ + decimal(n as nat));
        }
    }
}

/// The identifier text of the item numbered `seq`, as bytes.
pub fn format_ident(seq: u64) -> (text: Vec<u8>)
    ensures
        text@ == ident_text(seq as nat),
{
    let mut text = prefix_bytes();
    push_decimal(&mut text, seq);
    text
}

/// Reads an identifier text back: `Some(n)` exactly when `text` is the
/// identifier text of `n`, and `None` when it is the text of no `u64`.
pub fn parse_ident(text: &[u8]) -> (r: Option<u64>)
    ensures
        match r {
            Some(n) => text@ == ident_text(n as nat),
            None => forall|n: u64| text@ != #[trigger] ident_text(n as nat),
        },
        forall|n: u64| text@ == #[trigger] ident_text(n as nat) ==> r == Some(n),
{
    let prefix = prefix_bytes();
    let plen: usize = prefix.len();
    if text.len() <= plen {
        proof {
            assert forall|n: u64| text@ != #[trigger] ident_text(n as nat) by {
                lemma_decimal_numeral(n as nat);
            }
        }
        return None;
    }
    let mut i: usize = 0;
    while i < plen
        invariant
            i <= plen,
            plen == prefix@.len(),
            prefix@ == ident_prefix(),
            text@.len() > plen,
            forall|j: int| 0 <= j < i ==> text@[j] == prefix@[j],
        decreases plen - i,
    {
        if text[i] != prefix[i] {
            proof {
                assert forall|n: u64| text@ != #[trigger] ident_text(n as nat) by {
                    if text@ == ident_text(n as nat) {
                        assert(ident_text(n as nat)[i as int] == prefix@[i as int]);
                    }
                }
            }
            return None;
        }
        i = i + 1;
    }
    let len: usize = text.len();
    let ghost suffix = text@.subrange(plen as int, len as int);
    assert(text@ =~= ident_prefix() + suffix);
    if text[plen] == 48 && len - plen > 1 {
        proof {
            assert forall|n: u64| text@ != #[trigger] ident_text(n as nat) by {
                if text@ == ident_text(n as nat) {
                    assert(suffix =~= decimal(n as nat));
                    lemma_decimal_numeral(n as nat);
                }
            }
        }
        return None;
    }
    let mut acc: u64 = 0;
    let mut k: usize = plen;
    while k < len
        invariant
            plen < len,
            len == text@.len(),
            plen <= k <= len,
            suffix == text@.subrange(plen as int, len as int),
            text@ == ident_prefix() + suffix,
            all_digits(suffix.take(k - plen)),
            acc == digits_value(suffix.take(k - plen)),
        decreases len - k,
    {
        let b = text[k];
        if b < 48 || b > 57 {
            proof {
                assert forall|n: u64| text@ != #[trigger] ident_text(n as nat) by {
                    if text@ == ident_text(n as nat) {
                        assert(suffix =~= decimal(n as nat));
                        lemma_decimal_numeral(n as nat);
                        assert(suffix[k - plen] == b);
                    }
                }
            }
            return None;
        }
        let ghost next = suffix.take(k - plen + 1);
        assert(next.drop_last() =~= suffix.take(k - plen));
        assert(next.last() == b);
        assert(all_digits(next)) by {
            assert forall|j: int| 0 <= j < next.len() implies is_digit(#[trigger] next[j]) by {
                if j < k - plen {
                    assert(next[j] == suffix.take(k - plen)[j]);
                }
            }
        }
        let d: u64 = (b - 48) as u64;
        match acc.checked_mul(10) {
            None => {
                proof { lemma_overflow_has_no_ident(text@, suffix, next, (k - plen + 1) as int); }
                return None;
            },
            Some(m) => match m.checked_add(d) {
                None => {
                    proof { lemma_overflow_has_no_ident(text@, suffix, next, (k - plen + 1) as int); }
                    return None;
                },
                Some(v) => {
                    acc = v;
                },
            },
        }
        k = k + 1;
    }
    proof {
        assert(suffix.take(len - plen) =~= suffix);
        lemma_numeral_decimal(suffix);
        assert forall|n: u64| text@ == #[trigger] ident_text(n as nat) implies acc == n by {
            lemma_ident_text_injective(n as nat, acc as nat);
        }
    }
    Some(acc)
}

/// When a prefix of the digits already spells more than any `u64`, the text
/// names no `u64` item.
proof fn lemma_overflow_has_no_ident(text: Seq<u8>, suffix: Seq<u8>, next: Seq<u8>, k: int)
    requires
        text == ident_prefix() + suffix,
        0 <= k <= suffix.len(),
        next == suffix.take(k),
        digits_value(next) > u64::MAX,
    ensures
        forall|n: u64| text != #[trigger] ident_text(n as nat),
{
    assert forall|n: u64| text != #[trigger] ident_text(n as nat) by {
        if text == ident_text(n as nat) {
            let p = ident_prefix().len() as int;
            assert(suffix =~= text.subrange(p, text.len() as int));
            assert(suffix =~= decimal(n as nat));
            lemma_decimal_numeral(n as nat);
            lemma_digits_value_prefix(suffix, k);
        }
    }
}

} // verus!
