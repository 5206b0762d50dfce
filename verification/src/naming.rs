use vstd::prelude::*;

use crate::bytes::push_bytes;

verus! {

/// FNV-1a over a byte string, 64 bits wide, with the standard offset basis
/// and prime.
pub open spec fn fnv64_spec(s: Seq<u8>) -> u64
    decreases s.len(),
{
    if s.len() == 0 {
        0xcbf29ce484222325u64
    } else {
        vstd::wrapping::u64_specs::wrapping_mul(
            fnv64_spec(s.drop_last()) ^ (s.last() as u64),
            0x100000001b3u64,
        )
    }
}

/// Computes the FNV-1a digest of a byte string.
pub fn fnv64(s: &Vec<u8>) -> (r: u64)
    ensures
        r == fnv64_spec(s@),
{
    let mut h: u64 = 0xcbf29ce484222325;
    let mut i: usize = 0;
    while i < s.len()
        invariant
            i <= s@.len(),
            h == fnv64_spec(s@.take(i as int)),
        decreases s@.len() - i,
    {
        proof {
            assert(s@.take(i as int + 1).drop_last() =~= s@.take(i as int));
            assert(s@.take(i as int + 1).last() == s@[i as int]);
        }
        h = (h ^ (s[i] as u64)).wrapping_mul(0x100000001b3);
        i = i + 1;
    }
    proof {
        assert(s@.take(s@.len() as int) =~= s@);
    }
    h
}

/// The decimal digits of a number, most significant first.
pub open spec fn dec_spec(n: nat) -> Seq<u8>
    decreases n,
{
    if n < 10 {
        seq![(0x30 + n) as u8]
    } else {
        dec_spec(n / 10) + seq![(0x30 + n % 10) as u8]
    }
}

proof fn lemma_dec_len_pos(n: nat)
    ensures
        dec_spec(n).len() >= 1,
    decreases n,
{
    if n >= 10 {
        lemma_dec_len_pos(n / 10);
    }
}

/// Every byte of a decimal rendering is an ASCII digit.
proof fn lemma_dec_digits(n: nat)
    ensures
        forall|i: int| 0 <= i < dec_spec(n).len() ==> 0x30 <= #[trigger] dec_spec(n)[i] <= 0x39,
    decreases n,
{
    if n < 10 {
        assert(dec_spec(n)[0] == (0x30 + n) as u8);
        assert(0x30 <= (0x30 + n) as u8 <= 0x39);
    } else {
        lemma_dec_digits(n / 10);
        let d = dec_spec(n / 10);
        assert(n % 10 < 10);
        assert(0x30 <= (0x30 + n % 10) as u8 <= 0x39);
        assert forall|i: int| 0 <= i < dec_spec(n).len() implies 0x30 <= #[trigger] dec_spec(n)[i]
            <= 0x39 by {
            if i < d.len() {
                assert(dec_spec(n)[i] == d[i]);
            } else {
                assert(dec_spec(n)[i] == (0x30 + n % 10) as u8);
            }
        }
    }
}

/// Two numbers with the same decimal rendering are the same number.
proof fn lemma_dec_injective(a: nat, b: nat)
    requires
        dec_spec(a) == dec_spec(b),
    ensures
        a == b,
    decreases a,
{
    if a < 10 && b < 10 {
        assert(dec_spec(a)[0] == (0x30 + a) as u8);
        assert(dec_spec(b)[0] == (0x30 + b) as u8);
        assert(0x30 + a < 256 && 0x30 + b < 256);
    } else if a < 10 {
        lemma_dec_len_pos(b / 10);
        assert(dec_spec(b).len() >= 2);
    } else if b < 10 {
        lemma_dec_len_pos(a / 10);
        assert(dec_spec(a).len() >= 2);
    } else {
        assert(dec_spec(a).last() == (0x30 + a % 10) as u8);
        assert(dec_spec(b).last() == (0x30 + b % 10) as u8);
        assert(a % 10 < 10 && b % 10 < 10);
        assert(0x30 + a % 10 < 256 && 0x30 + b % 10 < 256);
        assert(a % 10 == b % 10);
        assert(dec_spec(a).drop_last() =~= dec_spec(a / 10));
        assert(dec_spec(b).drop_last() =~= dec_spec(b / 10));
        lemma_dec_injective(a / 10, b / 10);
        assert(a == 10 * (a / 10) + a % 10);
        assert(b == 10 * (b / 10) + b % 10);
    }
}

/// Renders a number in decimal.
pub fn dec_u64(n: u64) -> (r: Vec<u8>)
    ensures
        r@ == dec_spec(n as nat),
    decreases n,
{
    if n < 10 {
        let mut out: Vec<u8> = Vec::new();
        out.push(0x30 + (n as u8));
        proof {
            assert(out@ =~= dec_spec(n as nat));
        }
        out
    } else {
        let mut out = dec_u64(n / 10);
        out.push(0x30 + ((n % 10) as u8));
        proof {
            assert(out@ =~= dec_spec(n as nat));
        }
        out
    }
}

/// The name of the ephemeral archive artifact for one retrieval:
/// <token>-<digest>.zip, where the digest folds in owner and period and the
/// token is issued once per request.
pub open spec fn artifact_name_spec(owner: Seq<u8>, period: Seq<u8>, token: u64) -> Seq<u8> {
    dec_spec(token as nat) + seq![0x2du8] + dec_spec(
        fnv64_spec(owner + seq![0x2fu8] + period) as nat,
    ) + seq![0x2eu8, 0x7a, 0x69, 0x70]
}

/// Builds the ephemeral artifact name for a request.
pub fn artifact_name(owner: &Vec<u8>, period: &Vec<u8>, token: u64) -> (r: Vec<u8>)
    ensures
        r@ == artifact_name_spec(owner@, period@, token),
{
    let mut keyed: Vec<u8> = Vec::new();
    push_bytes(&mut keyed, owner);
    keyed.push(0x2f);
    push_bytes(&mut keyed, period);
    proof {
        assert(keyed@ =~= owner@ + seq![0x2fu8] + period@);
    }
    let digest = fnv64(&keyed);
    let mut out = dec_u64(token);
    out.push(0x2d);
    let digits = dec_u64(digest);
    push_bytes(&mut out, &digits);
    out.push(0x2e);
    out.push(0x7a);
    out.push(0x69);
    out.push(0x70);
    proof {
        assert(out@ =~= artifact_name_spec(owner@, period@, token));
    }
    out
}

/// Concurrent retrievals never share an artifact path: requests with
/// distinct tokens get distinct artifact names, whatever their owners and
/// periods, so one request can never delete another's in-flight artifact.
pub proof fn lemma_artifact_name_token_injective(
    o1: Seq<u8>,
    p1: Seq<u8>,
    t1: u64,
    o2: Seq<u8>,
    p2: Seq<u8>,
    t2: u64,
)
    requires
        artifact_name_spec(o1, p1, t1) == artifact_name_spec(o2, p2, t2),
    ensures
        t1 == t2,
{
    let d1 = dec_spec(t1 as nat);
    let d2 = dec_spec(t2 as nat);
    let n1 = artifact_name_spec(o1, p1, t1);
    let n2 = artifact_name_spec(o2, p2, t2);
    lemma_dec_digits(t1 as nat);
    lemma_dec_digits(t2 as nat);
    lemma_dec_len_pos(t1 as nat);
    lemma_dec_len_pos(t2 as nat);
    if d1.len() < d2.len() {
        assert(n1[d1.len() as int] == 0x2d);
        assert(n2[d1.len() as int] == d2[d1.len() as int]);
        assert(false);
    } else if d2.len() < d1.len() {
        assert(n2[d2.len() as int] == 0x2d);
        assert(n1[d2.len() as int] == d1[d2.len() as int]);
        assert(false);
    } else {
        assert(d1 =~= d2) by {
            assert forall|i: int| 0 <= i < d1.len() implies d1[i] == d2[i] by {
                assert(n1[i] == d1[i]);
                assert(n2[i] == d2[i]);
            }
        }
        lemma_dec_injective(t1 as nat, t2 as nat);
    }
}

} // verus!
