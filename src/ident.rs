use vstd::prelude::*;
use vstd::string::StringSliceAdditionalSpecFns;

verus! {

/// The byte is an ASCII decimal digit.
pub open spec fn is_digit(b: u8) -> bool {
    48 <= b <= 57
}

/// Value of a string of decimal digits.
pub open spec fn digits_value(b: Seq<u8>) -> int
    decreases b.len(),
{
    if b.len() == 0 {
        0
    } else {
        digits_value(b.drop_last()) * 10 + (b.last() - 48)
    }
}

/// `b` is how an id is written: decimal digits, at least one, and no
/// leading zero unless the id is zero.
pub open spec fn is_id_text(b: Seq<u8>) -> bool {
    &&& b.len() >= 1
    &&& forall|i: int| 0 <= i < b.len() ==> is_digit(#[trigger] b[i])
    &&& (b.len() == 1 || b[0] != 48)
}

/// The id that the text `b` writes, if it writes one that fits.
pub open spec fn id_of_text(b: Seq<u8>) -> Option<u64> {
    if is_id_text(b) && digits_value(b) <= u64::MAX {
        Some(digits_value(b) as u64)
    } else {
        None
    }
}

proof fn lemma_value_grows(b: Seq<u8>, i: int)
    requires
        0 <= i <= b.len(),
        forall|t: int| 0 <= t < b.len() ==> is_digit(#[trigger] b[t]),
    ensures
        digits_value(b.take(i)) <= digits_value(b),
        0 <= digits_value(b.take(i)),
    decreases b.len() - i,
{
    if i < b.len() {
        lemma_value_grows(b, i + 1);
        assert(b.take(i + 1).drop_last() =~= b.take(i));
        assert(b.take(i + 1).last() == b[i]);
    } else {
        assert(b.take(i) =~= b);
        lemma_nonneg(b);
    }
}

proof fn lemma_nonneg(b: Seq<u8>)
    requires
        forall|t: int| 0 <= t < b.len() ==> is_digit(#[trigger] b[t]),
    ensures
        0 <= digits_value(b),
    decreases b.len(),
{
    if b.len() > 0 {
        let p = b.drop_last();
        assert forall|t: int| 0 <= t < p.len() implies is_digit(#[trigger] p[t]) by {
            assert(p[t] == b[t]);
        }
        lemma_nonneg(p);
        assert(is_digit(b[b.len() - 1]));
    }
}

/// Reads the id that `text` writes, exactly as ids are written.
pub fn parse_id(text: &str) -> (r: Option<u64>)
    ensures
        r == id_of_text(text.spec_bytes()),
{
    let b = text.as_bytes();
    let n = b.len();
    if n == 0 || (n > 1 && b[0] == 48) {
        return None;
    }
    let mut acc: u128 = 0;
    let mut i: usize = 0;
    while i < n
        invariant
            b@ == text.spec_bytes(),
            n == b@.len(),
            n >= 1,
            n == 1 || b@[0] != 48,
            i <= n,
            forall|t: int| 0 <= t < i ==> is_digit(#[trigger] b@[t]),
            acc == digits_value(b@.take(i as int)),
            acc <= u64::MAX,
        decreases n - i,
    {
        let d = b[i];
        if d < 48 || d > 57 {
            assert(!is_id_text(b@));
            return None;
        }
        assert(b@.take(i + 1).drop_last() =~= b@.take(i as int));
        acc = acc * 10 + (d - 48) as u128;
        i = i + 1;
        if acc > u64::MAX as u128 {
            proof {
                if is_id_text(b@) {
                    lemma_value_grows(b@, i as int);
                }
            }
            return None;
        }
    }
    assert(b@.take(n as int) =~= b@);
    Some(acc as u64)
}

} // verus!
