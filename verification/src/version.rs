//! Server version numbering: a semantic version string `major.minor.patch`
//! is condensed to the integer `major * 10 + minor`, where each segment is
//! read as Rust reads an `i32` (a failed read counts as zero).

use vstd::prelude::*;
use vstd::string::StringSliceAdditionalSpecFns;

verus! {

/// A decimal digit byte.
pub open spec fn is_digit_byte(b: u8) -> bool {
    48 <= b <= 57
}

/// Value of a sequence of decimal digit bytes, most significant first.
pub open spec fn digits_val(s: Seq<u8>) -> int
    decreases s.len(),
{
    if s.len() == 0 {
        0
    } else {
        digits_val(s.drop_last()) * 10 + (s.last() - 48)
    }
}

pub open spec fn all_digits(s: Seq<u8>) -> bool {
    forall|i: int| 0 <= i < s.len() ==> is_digit_byte(#[trigger] s[i])
}

/// What `str::parse::<i32>` returns on these bytes: an optional sign, then
/// one or more digits, and the value must fit in `i32`.
pub open spec fn spec_parse_i32(s: Seq<u8>) -> Option<int> {
    if s.len() >= 1 && (s[0] == 43 || s[0] == 45) {
        let mag = s.skip(1);
        if mag.len() >= 1 && all_digits(mag) {
            if s[0] == 45 {
                if digits_val(mag) <= 0x8000_0000 {
                    Some(-digits_val(mag))
                } else {
                    None
                }
            } else {
                if digits_val(mag) <= 0x7fff_ffff {
                    Some(digits_val(mag))
                } else {
                    None
                }
            }
        } else {
            None
        }
    } else {
        if s.len() >= 1 && all_digits(s) && digits_val(s) <= 0x7fff_ffff {
            Some(digits_val(s))
        } else {
            None
        }
    }
}

/// A failed read counts as zero.
pub open spec fn parse_i32_or_zero(s: Seq<u8>) -> int {
    match spec_parse_i32(s) {
        Some(v) => v,
        None => 0,
    }
}

/// Index of the first `.` in `s`, or `s.len()` if there is none.
pub open spec fn first_dot(s: Seq<u8>) -> int
    decreases s.len(),
{
    if s.len() == 0 {
        0
    } else if s[0] == 46 {
        0
    } else {
        1 + first_dot(s.skip(1))
    }
}

/// The bytes before the first dot.
pub open spec fn major_seg(s: Seq<u8>) -> Seq<u8> {
    s.take(first_dot(s))
}

/// The bytes after the first dot, up to the second dot.
pub open spec fn minor_seg(s: Seq<u8>) -> Seq<u8> {
    if first_dot(s) == s.len() {
        Seq::empty()
    } else {
        let rest = s.skip(first_dot(s) + 1);
        rest.take(first_dot(rest))
    }
}

/// The condensed version number of a version string (as UTF-8 bytes).
pub open spec fn spec_version_num(s: Seq<u8>) -> int {
    parse_i32_or_zero(major_seg(s)) * 10 + parse_i32_or_zero(minor_seg(s))
}

proof fn lemma_first_dot_unique(s: Seq<u8>, i: int)
    requires
        0 <= i <= s.len(),
        forall|j: int| 0 <= j < i ==> #[trigger] s[j] != 46,
        i < s.len() ==> s[i] == 46,
    ensures
        first_dot(s) == i,
    decreases s.len(),
{
    if s.len() == 0 {
    } else if s[0] == 46 {
    } else {
        assert(i != 0);
        assert forall|j: int| 0 <= j < i - 1 implies #[trigger] s.skip(1)[j] != 46 by {
            assert(s.skip(1)[j] == s[j + 1]);
        }
        assert(i - 1 < s.skip(1).len() ==> s.skip(1)[i - 1] == 46);
        lemma_first_dot_unique(s.skip(1), i - 1);
    }
}

pub proof fn lemma_digits_val_bounds(s: Seq<u8>)
    requires
        all_digits(s),
    ensures
        0 <= digits_val(s),
    decreases s.len(),
{
    if s.len() > 0 {
        assert(all_digits(s.drop_last())) by {
            assert(forall|i: int|
                0 <= i < s.len() - 1 ==> #[trigger] s.drop_last()[i] == s[i]);
        }
        lemma_digits_val_bounds(s.drop_last());
    }
}

pub proof fn lemma_digits_val_step(s: Seq<u8>, i: int)
    requires
        0 <= i < s.len(),
    ensures
        digits_val(s.take(i + 1)) == digits_val(s.take(i)) * 10 + (s[i] - 48),
{
    assert(s.take(i + 1).drop_last() =~= s.take(i));
    assert(s.take(i + 1).last() == s[i]);
}

pub proof fn lemma_digits_val_grows(s: Seq<u8>, i: int)
    requires
        all_digits(s),
        0 <= i <= s.len(),
    ensures
        digits_val(s) >= digits_val(s.take(i)),
    decreases s.len() - i,
{
    if i < s.len() {
        assert(all_digits(s.take(i))) by {
            assert(forall|j: int| 0 <= j < i ==> #[trigger] s.take(i)[j] == s[j]);
        }
        lemma_digits_val_bounds(s.take(i));
        lemma_digits_val_step(s, i);
        lemma_digits_val_grows(s, i + 1);
        assert(s.take(s.len() as int) =~= s);
    } else {
        assert(s.take(s.len() as int) =~= s);
    }
}

/// Reads `s[from..to]` as Rust reads an `i32`, with a failed read counting
/// as zero.
fn parse_i32_or_zero_range(s: &[u8], from: usize, to: usize) -> (r: i32)
    requires
        from <= to <= s@.len(),
    ensures
        r as int == parse_i32_or_zero(s@.subrange(from as int, to as int)),
{
    let ghost seg = s@.subrange(from as int, to as int);
    if from >= to {
        return 0;
    }
    let b0 = s[from];
    if b0 == 43 || b0 == 45 {
        assert(seg[0] == b0);
        let ghost mag = seg.skip(1);
        proof {
            assert(mag =~= s@.subrange(from as int + 1, to as int));
        }
        let cap: u32 = if b0 == 45 {
            0x8000_0000
        } else {
            0x7fff_ffff
        };
        let sub = parse_magnitude_range(s, from + 1, to, cap);
        match sub {
            Some(v) => {
                if b0 == 45 {
                    if v == 0x8000_0000 {
                        return i32::MIN;
                    }
                    return -(v as i32);
                }
                v as i32
            },
            None => 0,
        }
    } else {
        let sub = parse_magnitude_range(s, from, to, 0x7fff_ffff);
        match sub {
            Some(v) => v as i32,
            None => 0,
        }
    }
}

/// As `parse_magnitude`, but over `s[from..to]`.
fn parse_magnitude_range(s: &[u8], from: usize, to: usize, cap: u32) -> (r: Option<u32>)
    requires
        from <= to <= s@.len(),
    ensures
        match r {
            Some(v) => {
                let mag = s@.subrange(from as int, to as int);
                &&& mag.len() >= 1
                &&& all_digits(mag)
                &&& digits_val(mag) == v as int
                &&& v <= cap
            },
            None => {
                let mag = s@.subrange(from as int, to as int);
                mag.len() == 0 || !all_digits(mag) || digits_val(mag) > cap
            },
        },
{
    let ghost mag = s@.subrange(from as int, to as int);
    if from >= to {
        return None;
    }
    let mut i: usize = from;
    let mut val: u64 = 0;
    while i < to
        invariant
            from <= i <= to <= s@.len(),
            mag == s@.subrange(from as int, to as int),
            all_digits(mag.take(i - from)),
            val == digits_val(mag.take(i - from)),
            val <= cap,
            cap <= u32::MAX,
        decreases to - i,
    {
        let b = s[i];
        if b < 48 || b > 57 {
            assert(!all_digits(mag)) by {
                assert(mag[i - from] == b);
            }
            return None;
        }
        proof {
            assert(mag[i - from] == b);
            lemma_digits_val_step(mag, i - from);
        }
        val = val * 10 + ((b - 48) as u64);
        if val > cap as u64 {
            proof {
                if all_digits(mag) {
                    lemma_digits_val_grows(mag, i + 1 - from);
                }
            }
            return None;
        }
        i = i + 1;
    }
    proof {
        assert(mag.take(i - from) =~= mag);
    }
    Some(val as u32)
}

/// Index of the first `.` at or after `from`, or `s.len()`.
fn find_dot(s: &[u8], from: usize) -> (r: usize)
    requires
        from <= s@.len(),
    ensures
        from <= r <= s@.len(),
        first_dot(s@.skip(from as int)) == r - from,
        r < s@.len() ==> s@[r as int] == 46,
{
    let len = s.len();
    let mut i: usize = from;
    while i < len
        invariant
            from <= i <= len,
            len == s@.len(),
            forall|j: int| from <= j < i ==> #[trigger] s@[j] != 46,
        decreases len - i,
    {
        if s[i] == 46 {
            proof {
                let sk = s@.skip(from as int);
                assert forall|j: int| 0 <= j < i - from implies #[trigger] sk[j] != 46 by {
                    assert(sk[j] == s@[j + from]);
                }
                assert(sk[i - from] == 46);
                lemma_first_dot_unique(sk, i - from);
            }
            return i;
        }
        i = i + 1;
    }
    proof {
        let sk = s@.skip(from as int);
        assert forall|j: int| 0 <= j < sk.len() implies #[trigger] sk[j] != 46 by {
            assert(sk[j] == s@[j + from]);
        }
        lemma_first_dot_unique(sk, sk.len() as int);
    }
    len
}

/// Condenses a semantic version string to `major * 10 + minor`, each
/// segment read as an `i32` with failures counting as zero.
pub fn get_version_num(ver: &str) -> (r: i32)
    requires
        i32::MIN <= spec_version_num(ver.spec_bytes()) <= i32::MAX,
    ensures
        r as int == spec_version_num(ver.spec_bytes()),
{
    let s: &[u8] = ver.as_bytes();
    let ghost sv = s@;
    let len = s.len();
    let dot1 = find_dot(s, 0);
    proof {
        assert(sv.skip(0) =~= sv);
        assert(major_seg(sv) =~= sv.subrange(0, dot1 as int));
    }
    let major = parse_i32_or_zero_range(s, 0, dot1);
    let minor: i32;
    if dot1 == len {
        proof {
            assert(minor_seg(sv) =~= Seq::<u8>::empty());
            assert(sv.subrange(len as int, len as int) =~= Seq::<u8>::empty());
        }
        minor = parse_i32_or_zero_range(s, len, len);
    } else {
        let dot2 = find_dot(s, dot1 + 1);
        proof {
            let rest = sv.skip(dot1 + 1);
            assert(first_dot(rest) == dot2 - dot1 - 1);
            assert(rest.take(first_dot(rest)) =~= sv.subrange(dot1 + 1, dot2 as int));
            assert(minor_seg(sv) =~= sv.subrange(dot1 + 1, dot2 as int));
        }
        minor = parse_i32_or_zero_range(s, dot1 + 1, dot2);
    }
    let big: i64 = (major as i64) * 10 + (minor as i64);
    big as i32
}

} // verus!
