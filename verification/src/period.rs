use vstd::prelude::*;

verus! {

/// Powers of ten, used to bound the value a digit string denotes.
pub open spec fn pow10(n: nat) -> int
    decreases n,
{
    if n == 0 {
        1
    } else {
        10 * pow10((n - 1) as nat)
    }
}

proof fn lemma_pow10_pos(n: nat)
    ensures
        pow10(n) >= 1,
    decreases n,
{
    if n > 0 {
        lemma_pow10_pos((n - 1) as nat);
    }
}

proof fn lemma_pow10_mono(a: nat, b: nat)
    requires
        a <= b,
    ensures
        pow10(a) <= pow10(b),
    decreases b,
{
    if a < b {
        lemma_pow10_mono(a, (b - 1) as nat);
        lemma_pow10_pos((b - 1) as nat);
    }
}

/// A period code is six ASCII digits: year then month, as in "202403".
pub open spec fn is_valid_period(s: Seq<u8>) -> bool {
    s.len() == 6 && forall|i: int| 0 <= i < s.len() ==> 0x30 <= #[trigger] s[i] <= 0x39
}

/// The number a string of ASCII digits denotes.
pub open spec fn digits_value(s: Seq<u8>) -> int
    decreases s.len(),
{
    if s.len() == 0 {
        0
    } else {
        digits_value(s.drop_last()) * 10 + (s.last() - 0x30)
    }
}

/// Parses a retrieval period argument.  The numeric value comes back exactly
/// when the argument is a six-digit code; every other argument is rejected,
/// which callers surface as parse-failure guidance.
pub fn parse_period(arg: &Vec<u8>) -> (r: Option<u32>)
    ensures
        r is Some <==> is_valid_period(arg@),
        r is Some ==> r->0 == digits_value(arg@),
{
    if arg.len() != 6 {
        return None;
    }
    let mut value: u32 = 0;
    let mut i: usize = 0;
    while i < 6
        invariant
            arg@.len() == 6,
            i <= 6,
            forall|k: int| 0 <= k < i ==> 0x30 <= #[trigger] arg@[k] <= 0x39,
            value == digits_value(arg@.take(i as int)),
            value < pow10(i as nat),
        decreases 6 - i,
    {
        let b = arg[i];
        if b < 0x30 || b > 0x39 {
            return None;
        }
        proof {
            lemma_pow10_mono(i as nat, 5);
            reveal_with_fuel(pow10, 7);
            assert(pow10(5) == 100000);
            assert(arg@.take(i as int + 1).drop_last() =~= arg@.take(i as int));
            assert(arg@.take(i as int + 1).last() == arg@[i as int]);
        }
        value = value * 10 + ((b - 0x30) as u32);
        i = i + 1;
    }
    proof {
        assert(arg@.take(6) =~= arg@);
    }
    Some(value)
}

} // verus!
