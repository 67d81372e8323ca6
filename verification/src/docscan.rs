//! Text helpers for scanned-document extraction: reading a money amount
//! out of noisy text, and picking a vendor-name candidate out of the top
//! of a document.

use vstd::prelude::*;

verus! {

/// The smallest amount the scanner accepts as plausible.
pub open spec fn min_valid_amount() -> int {
    10
}

/// The largest amount the scanner accepts as plausible.
pub open spec fn max_valid_amount() -> int {
    100000000
}

/// Whether the character is a decimal digit.
pub open spec fn is_digit(c: char) -> bool {
    '0' <= c && c <= '9'
}

/// The numeric value of a digit character.
pub open spec fn digit_value(c: char) -> int {
    c as int - '0' as int
}

/// The decimal digit characters of the text, in order.
pub open spec fn spec_digits(s: Seq<char>) -> Seq<char>
    decreases s.len(),
{
    if s.len() == 0 {
        Seq::empty()
    } else if is_digit(s[0]) {
        seq![s[0]] + spec_digits(s.drop_first())
    } else {
        spec_digits(s.drop_first())
    }
}

/// Whether every character of the text is a decimal digit.
pub open spec fn all_digits(s: Seq<char>) -> bool
    decreases s.len(),
{
    if s.len() == 0 {
        true
    } else {
        is_digit(s[0]) && all_digits(s.drop_first())
    }
}

/// `all_digits` says every position holds a digit.
pub proof fn lemma_all_digits_iff(s: Seq<char>)
    ensures
        all_digits(s) <==> (forall|i: int| 0 <= i < s.len() ==> is_digit(#[trigger] s[i])),
    decreases s.len(),
{
    if s.len() > 0 {
        lemma_all_digits_iff(s.drop_first());
        if is_digit(s[0]) && all_digits(s.drop_first()) {
            assert forall|i: int| 0 <= i < s.len() implies is_digit(#[trigger] s[i]) by {
                if i > 0 {
                    assert(s.drop_first()[i - 1] == s[i]);
                }
            }
        }
        if forall|i: int| 0 <= i < s.len() ==> is_digit(#[trigger] s[i]) {
            assert forall|i: int| 0 <= i < s.drop_first().len() implies is_digit(
                #[trigger] s.drop_first()[i],
            ) by {
                assert(s.drop_first()[i] == s[i + 1]);
            }
        }
    }
}

/// The number a digit text spells.
pub open spec fn digits_value(ds: Seq<char>) -> int
    decreases ds.len(),
{
    if ds.len() == 0 {
        0
    } else {
        digits_value(ds.drop_last()) * 10 + digit_value(ds.last())
    }
}

/// A digit text's value is not negative.
pub proof fn lemma_digits_value_nonneg(ds: Seq<char>)
    requires
        forall|i: int| 0 <= i < ds.len() ==> is_digit(#[trigger] ds[i]),
    ensures
        digits_value(ds) >= 0,
    decreases ds.len(),
{
    if ds.len() > 0 {
        assert(forall|i: int| 0 <= i < ds.drop_last().len() ==> is_digit(
            #[trigger] ds.drop_last()[i],
        ));
        lemma_digits_value_nonneg(ds.drop_last());
    }
}

/// A digit text's value only grows as digits follow.
pub proof fn lemma_digits_value_monotone(ds: Seq<char>, k: int)
    requires
        0 <= k <= ds.len(),
        forall|i: int| 0 <= i < ds.len() ==> is_digit(#[trigger] ds[i]),
    ensures
        digits_value(ds.take(k)) <= digits_value(ds),
    decreases ds.len() - k,
{
    if k < ds.len() {
        lemma_digits_value_monotone(ds, k + 1);
        assert(ds.take(k + 1).drop_last() =~= ds.take(k));
        assert(forall|i: int| 0 <= i < ds.take(k).len() ==> is_digit(#[trigger] ds.take(k)[i]));
        lemma_digits_value_nonneg(ds.take(k));
        assert(digits_value(ds.take(k + 1)) == digits_value(ds.take(k)) * 10 + digit_value(
            ds.take(k + 1).last(),
        ));
        assert(digit_value(ds.take(k + 1).last()) >= 0);
        assert(digits_value(ds.take(k)) * 10 >= digits_value(ds.take(k))) by (nonlinear_arith)
            requires
                digits_value(ds.take(k)) >= 0,
        ;
    } else {
        assert(ds.take(k) =~= ds);
    }
}

/// What the amount scanner answers on a text: the value all its digit
/// characters spell together, if there are any and the value is
/// plausible.
pub open spec fn spec_parse_amount(s: Seq<char>) -> Option<int> {
    let ds = spec_digits(s);
    if ds.len() == 0 {
        None
    } else if min_valid_amount() <= digits_value(ds) <= max_valid_amount() {
        Some(digits_value(ds))
    } else {
        None
    }
}

/// Every character of the digit text is a digit.
pub proof fn lemma_spec_digits_are_digits(s: Seq<char>)
    ensures
        forall|i: int| 0 <= i < spec_digits(s).len() ==> is_digit(#[trigger] spec_digits(s)[i]),
    decreases s.len(),
{
    if s.len() > 0 {
        lemma_spec_digits_are_digits(s.drop_first());
        if is_digit(s[0]) {
            assert forall|i: int| 0 <= i < spec_digits(s).len() implies is_digit(
                #[trigger] spec_digits(s)[i],
            ) by {
                if i > 0 {
                    assert(spec_digits(s)[i] == spec_digits(s.drop_first())[i - 1]);
                }
            }
        }
    }
}

/// Reads a money amount out of a noisy text: all digit characters are
/// taken together and the value they spell is answered when it lies in
/// the plausible range.
pub fn parse_amount(raw: &str) -> (r: Option<i64>)
    ensures
        match r {
            Some(v) => spec_parse_amount(raw@) == Some(v as int),
            None => spec_parse_amount(raw@) is None,
        },
{
    let cs = crate::text::chars_of(raw);
    let ghost s = cs@;
    let mut ds: Vec<char> = Vec::new();
    let mut i: usize = 0;
    proof {
        assert(ds@ =~= Seq::<char>::empty());
        assert(s.skip(0) =~= s);
        assert(Seq::<char>::empty() + spec_digits(s) =~= spec_digits(s));
    }
    while i < cs.len()
        invariant
            i <= cs@.len(),
            s == cs@,
            spec_digits(s) == ds@ + spec_digits(s.skip(i as int)),
        decreases cs@.len() - i,
    {
        proof {
            assert(s.skip(i as int)[0] == s[i as int]);
            assert(s.skip(i as int).drop_first() =~= s.skip(i as int + 1));
        }
        let c = cs[i];
        if '0' <= c && c <= '9' {
            let ghost d0 = ds@;
            ds.push(c);
            proof {
                assert(d0 + (seq![s[i as int]] + spec_digits(s.skip(i as int + 1))) =~= ds@
                    + spec_digits(s.skip(i as int + 1)));
            }
        }
        i = i + 1;
    }
    proof {
        assert(spec_digits(s.skip(cs@.len() as int)) =~= Seq::<char>::empty());
        assert(ds@ + Seq::<char>::empty() =~= ds@);
        assert(ds@ == spec_digits(s));
        lemma_spec_digits_are_digits(s);
    }
    if ds.len() == 0 {
        return None;
    }
    let mut acc: u64 = 0;
    let mut k: usize = 0;
    proof {
        assert(ds@.take(0) =~= Seq::<char>::empty());
    }
    while k < ds.len()
        invariant
            k <= ds@.len(),
            s == raw@,
            ds@ == spec_digits(s),
            ds@.len() > 0,
            forall|j: int| 0 <= j < ds@.len() ==> is_digit(#[trigger] ds@[j]),
            acc as int == digits_value(ds@.take(k as int)),
            acc <= 100000000,
        decreases ds@.len() - k,
    {
        let c = ds[k];
        let d: u64 = (c as u32 as u64) - ('0' as u32 as u64);
        proof {
            assert(is_digit(ds@[k as int]));
            assert(d as int == digit_value(ds@[k as int]));
            assert(ds@.take(k as int + 1).drop_last() =~= ds@.take(k as int));
            assert(ds@.take(k as int + 1).last() == ds@[k as int]);
        }
        let next = acc * 10 + d;
        if next > 100000000 {
            proof {
                lemma_digits_value_monotone(ds@, k as int + 1);
            }
            return None;
        }
        acc = next;
        k = k + 1;
    }
    proof {
        assert(ds@.take(ds@.len() as int) =~= ds@);
    }
    if acc < 10 {
        return None;
    }
    Some(acc as i64)
}

} // verus!
