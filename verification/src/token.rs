//! The pre-shared token check: a query token of the form
//! `<hex-sign>-<unix-seconds>[-...]` passes iff the timestamp is within
//! the allowed age of now and the sign is the first 8 hex digits of
//! `HMAC-MD5(secret, ts || id)`.

use vstd::prelude::*;
use hmac::Mac;
use vstd::string::StringSliceAdditionalSpecFns;
use crate::config::Security;
use crate::version::all_digits;
use crate::version::digits_val;
use crate::version::lemma_digits_val_bounds;
use crate::version::lemma_digits_val_grows;
use crate::version::lemma_digits_val_step;

verus! {

/// The UTF-8 bytes of a string value.
pub open spec fn str_bytes(s: Seq<char>) -> Seq<u8> {
    vstd::utf8::encode_utf8(s)
}

/// The lowercase hex digits of `HMAC-MD5(key, msg)`, as 32 ASCII bytes.
pub uninterp spec fn hmac_md5_hex(key: Seq<u8>, msg: Seq<u8>) -> Seq<u8>;

/// Relies on `hmac::Hmac` over `md5::Md5` and `hex::encode`: the MAC of
/// the message under the key, hex-encoded. `Hmac::new_from_slice`
/// accepts keys of any length, the MD5 digest is 16 bytes and its hex
/// form 32 bytes, and the result depends on key and message alone.
#[verifier::external_body]
fn hmac_md5_hex_bytes(key: &[u8], msg: &[u8]) -> (r: Vec<u8>)
    ensures
        r@ == hmac_md5_hex(key@, msg@),
        r@.len() == 32,
{
    let mut mac = hmac::Hmac::<md5::Md5>::new_from_slice(key).unwrap();
    mac.update(msg);
    hex::encode(mac.finalize().into_bytes()).into_bytes()
}

/// Index of the first `-` in `s`, or `s.len()` if there is none.
pub open spec fn first_dash(s: Seq<u8>) -> int
    decreases s.len(),
{
    if s.len() == 0 {
        0
    } else if s[0] == 45 {
        0
    } else {
        1 + first_dash(s.skip(1))
    }
}

/// The hex-sign part of a token: the bytes before the first dash.
pub open spec fn sign_seg(s: Seq<u8>) -> Seq<u8> {
    s.take(first_dash(s))
}

/// The timestamp part of a token: the bytes after the first dash, up to
/// the second.
pub open spec fn ts_seg(s: Seq<u8>) -> Seq<u8> {
    if first_dash(s) == s.len() {
        Seq::empty()
    } else {
        let rest = s.skip(first_dash(s) + 1);
        rest.take(first_dash(rest))
    }
}

/// What the token check accepts: the token is non-empty, an age limit is
/// set, the token has at least two `-`-separated parts, the timestamp
/// part is a decimal number within `max_age` seconds of now either way,
/// and the sign part is exactly the first 8 hex digits of
/// `HMAC-MD5(secret, ts || id)`.
pub open spec fn spec_check_token(
    id: Seq<u8>,
    token: Seq<u8>,
    secret: Seq<u8>,
    max_age: u64,
    now: u64,
) -> bool {
    &&& token.len() > 0
    &&& max_age != 0
    &&& first_dash(token) < token.len()
    &&& ts_seg(token).len() >= 1
    &&& all_digits(ts_seg(token))
    &&& digits_val(ts_seg(token)) <= u64::MAX
    &&& digits_val(ts_seg(token)) + max_age >= now
    &&& digits_val(ts_seg(token)) <= now + max_age
    &&& sign_seg(token) == hmac_md5_hex(secret, ts_seg(token) + id).take(8)
}

proof fn lemma_first_dash_unique(s: Seq<u8>, i: int)
    requires
        0 <= i <= s.len(),
        forall|j: int| 0 <= j < i ==> #[trigger] s[j] != 45,
        i < s.len() ==> s[i] == 45,
    ensures
        first_dash(s) == i,
    decreases s.len(),
{
    if s.len() == 0 {
    } else if s[0] == 45 {
    } else {
        assert(i != 0);
        assert forall|j: int| 0 <= j < i - 1 implies #[trigger] s.skip(1)[j] != 45 by {
            assert(s.skip(1)[j] == s[j + 1]);
        }
        assert(i - 1 < s.skip(1).len() ==> s.skip(1)[i - 1] == 45);
        lemma_first_dash_unique(s.skip(1), i - 1);
    }
}

/// Index of the first `-` at or after `from`, or `s.len()`.
fn find_dash(s: &[u8], from: usize) -> (r: usize)
    requires
        from <= s@.len(),
    ensures
        from <= r <= s@.len(),
        first_dash(s@.skip(from as int)) == r - from,
        r < s@.len() ==> s@[r as int] == 45,
{
    let len = s.len();
    let mut i: usize = from;
    while i < len
        invariant
            from <= i <= len,
            len == s@.len(),
            forall|j: int| from <= j < i ==> #[trigger] s@[j] != 45,
        decreases len - i,
    {
        if s[i] == 45 {
            proof {
                let sk = s@.skip(from as int);
                assert forall|j: int| 0 <= j < i - from implies #[trigger] sk[j] != 45 by {
                    assert(sk[j] == s@[j + from]);
                }
                assert(sk[i - from] == 45);
                lemma_first_dash_unique(sk, i - from);
            }
            return i;
        }
        i = i + 1;
    }
    proof {
        let sk = s@.skip(from as int);
        assert forall|j: int| 0 <= j < sk.len() implies #[trigger] sk[j] != 45 by {
            assert(sk[j] == s@[j + from]);
        }
        lemma_first_dash_unique(sk, sk.len() as int);
    }
    len
}

/// Reads `s[from..to]` as a decimal `u64`; `None` when the range is
/// empty, holds a non-digit, or exceeds `u64::MAX`.
fn parse_u64_range(s: &[u8], from: usize, to: usize) -> (r: Option<u64>)
    requires
        from <= to <= s@.len(),
    ensures
        match r {
            Some(v) => {
                let seg = s@.subrange(from as int, to as int);
                &&& seg.len() >= 1
                &&& all_digits(seg)
                &&& digits_val(seg) == v as int
            },
            None => {
                let seg = s@.subrange(from as int, to as int);
                seg.len() == 0 || !all_digits(seg) || digits_val(seg) > u64::MAX
            },
        },
{
    let ghost seg = s@.subrange(from as int, to as int);
    if from >= to {
        return None;
    }
    let mut i: usize = from;
    let mut val: u64 = 0;
    while i < to
        invariant
            from <= i <= to <= s@.len(),
            seg == s@.subrange(from as int, to as int),
            all_digits(seg.take(i - from)),
            val == digits_val(seg.take(i - from)),
        decreases to - i,
    {
        let b = s[i];
        if b < 48 || b > 57 {
            assert(!all_digits(seg)) by {
                assert(seg[i - from] == b);
            }
            return None;
        }
        let d: u64 = (b - 48) as u64;
        proof {
            assert(seg[i - from] == b);
            lemma_digits_val_step(seg, i - from);
        }
        if val > u64::MAX / 10 || (val == u64::MAX / 10 && d > u64::MAX % 10) {
            proof {
                if all_digits(seg) {
                    assert(all_digits(seg.take(i + 1 - from))) by {
                        assert(forall|j: int|
                            0 <= j < i + 1 - from ==> #[trigger] seg.take(i + 1 - from)[j]
                                == seg[j]);
                    }
                    lemma_digits_val_grows(seg, i + 1 - from);
                }
            }
            return None;
        }
        val = val * 10 + d;
        i = i + 1;
    }
    proof {
        assert(seg.take(i - from) =~= seg);
    }
    Some(val)
}

/// Appends `s[from..to]` to the vector.
fn push_byte_range(out: &mut Vec<u8>, s: &[u8], from: usize, to: usize)
    requires
        from <= to <= s@.len(),
    ensures
        final(out)@ == old(out)@ + s@.subrange(from as int, to as int),
{
    let mut i: usize = from;
    while i < to
        invariant
            from <= i <= to <= s@.len(),
            out@ == old(out)@ + s@.subrange(from as int, i as int),
        decreases to - i,
    {
        proof {
            assert(old(out)@ + s@.subrange(from as int, i + 1) =~= (old(out)@ + s@.subrange(
                from as int,
                i as int,
            )).push(s@[i as int]));
        }
        let b = s[i];
        out.push(b);
        i = i + 1;
    }
}

/// The token check. `now_secs` is seconds on the caller's wall clock.
/// The query token passes iff it is well-formed, fresh, and correctly
/// signed, per `spec_check_token`.
#[verifier::loop_isolation(false)]
pub fn check_token(
    id: &str,
    query_token: Option<String>,
    real_token: String,
    max_timestamp_age: u64,
    now_secs: u64,
) -> (r: bool)
    ensures
        r == (query_token matches Some(q) && spec_check_token(
            str_bytes(id@),
            str_bytes(q@),
            str_bytes(real_token@),
            max_timestamp_age,
            now_secs,
        )),
{
    let q = match query_token.as_ref() {
        Some(q) => q,
        None => {
            return false;
        },
    };
    let qb: &[u8] = q.as_str().as_bytes();
    let ghost qv = qb@;
    if qb.len() == 0 || max_timestamp_age == 0 {
        return false;
    }
    let d1 = find_dash(qb, 0);
    proof {
        assert(qv.skip(0) =~= qv);
    }
    if d1 >= qb.len() {
        return false;
    }
    let d2 = find_dash(qb, d1 + 1);
    let ghost tseg = qv.subrange(d1 + 1, d2 as int);
    proof {
        let rest = qv.skip(d1 + 1);
        assert(rest.take(first_dash(rest)) =~= tseg);
        assert(ts_seg(qv) =~= tseg);
    }
    let ts = match parse_u64_range(qb, d1 + 1, d2) {
        Some(v) => v,
        None => {
            return false;
        },
    };
    // the timestamp must be within the age limit of now, either way
    if now_secs > max_timestamp_age && ts < now_secs - max_timestamp_age {
        return false;
    }
    if max_timestamp_age <= u64::MAX - now_secs && ts > now_secs + max_timestamp_age {
        return false;
    }
    // the sign must be the first 8 hex digits of the MAC
    let ib: &[u8] = id.as_bytes();
    let mut signed: Vec<u8> = Vec::new();
    push_byte_range(&mut signed, qb, d1 + 1, d2);
    push_byte_range(&mut signed, ib, 0, ib.len());
    proof {
        assert(ib@.subrange(0, ib@.len() as int) =~= ib@);
        assert(signed@ == tseg + ib@);
    }
    let digest = hmac_md5_hex_bytes(real_token.as_str().as_bytes(), signed.as_slice());
    if d1 != 8 {
        proof {
            assert(sign_seg(qv).len() == d1);
            assert(hmac_md5_hex(str_bytes(real_token@), tseg + ib@).take(8).len() == 8);
        }
        return false;
    }
    let mut j: usize = 0;
    while j < 8
        invariant
            0 <= j <= 8,
            d1 == 8,
            qv == qb@,
            digest@.len() == 32,
            qv.len() > 8,
            forall|k: int| 0 <= k < j ==> qv[k] == #[trigger] digest@[k],
        decreases 8 - j,
    {
        if qb[j] != digest[j] {
            proof {
                assert(sign_seg(qv)[j as int] == qv[j as int]);
                assert(hmac_md5_hex(str_bytes(real_token@), tseg + ib@).take(8)[j as int]
                    == digest@[j as int]);
            }
            return false;
        }
        j = j + 1;
    }
    proof {
        assert(sign_seg(qv) =~= hmac_md5_hex(str_bytes(real_token@), tseg + ib@).take(8));
        lemma_digits_val_bounds(tseg);
    }
    true
}

/// The access rule the connection handlers apply: with no security block, or a
/// disabled one, every request passes; otherwise the token check
/// decides.
pub fn check_sign(
    security: &Option<Security>,
    id: &str,
    token: Option<String>,
    now_secs: u64,
) -> (r: bool)
    ensures
        r == (match *security {
            Some(sec) => !sec.enable || (token matches Some(q) && spec_check_token(
                str_bytes(id@),
                str_bytes(q@),
                str_bytes(sec.token@),
                sec.maxTimeStampAge,
                now_secs,
            )),
            None => true,
        }),
{
    match security.as_ref() {
        Some(sec) => {
            if !sec.enable {
                return true;
            }
            check_token(id, token, clone_string(&sec.token), sec.maxTimeStampAge, now_secs)
        },
        None => true,
    }
}

/// Relies on `String::clone`.
fn clone_string(s: &String) -> (r: String)
    ensures
        r == *s,
{
    s.clone()
}

} // verus!
