//! The wall clock and fresh unique ids, as the rest of the library reads
//! them, and arithmetic on instants. An instant is held as nanoseconds
//! since the Unix epoch (an `i128`, which holds every UTC date-time to the
//! nanosecond). Nothing is known of the clock's values beyond their form.
use vstd::prelude::*;
use vstd::arithmetic::div_mod::{lemma_fundamental_div_mod, lemma_fundamental_div_mod_converse};

verus! {

/// A lowercase hexadecimal digit.
pub open spec fn is_lower_hex(c: char) -> bool {
    ('0' <= c && c <= '9') || ('a' <= c && c <= 'f')
}

/// Nanoseconds in a millisecond.
pub open spec fn nanos_per_milli() -> int {
    1_000_000
}

/// The whole milliseconds since the epoch of the instant `ns`, rounded down
/// (what chrono's `timestamp_millis` gives).
pub open spec fn millis_of(ns: int) -> int {
    ns / nanos_per_milli()
}

/// The whole milliseconds from `then` to `now`, rounded towards zero (what
/// chrono's `signed_duration_since(..).num_milliseconds()` gives).
pub open spec fn elapsed_ms(now: int, then: int) -> int {
    let d = now - then;
    if d >= 0 {
        d / nanos_per_milli()
    } else {
        -((-d) / nanos_per_milli())
    }
}

/// `x` divided by a million, rounded down, and the remainder.
fn floor_div_mod_milli(x: i128) -> (r: (i128, i128))
    ensures
        r.0 == (x as int) / nanos_per_milli(),
        r.1 == (x as int) % nanos_per_milli(),
        0 <= r.1 < nanos_per_milli(),
        x == r.0 * nanos_per_milli() + r.1,
{
    if x >= 0 {
        let q = x / 1_000_000;
        let m = x % 1_000_000;
        proof {
            lemma_fundamental_div_mod(x as int, 1_000_000);
        }
        (q, m)
    } else {
        let y: i128 = -(x + 1);
        let a = y / 1_000_000;
        let b = y % 1_000_000;
        proof {
            lemma_fundamental_div_mod(y as int, 1_000_000);
            assert(x == (-a - 1) * 1_000_000 + (1_000_000 - 1 - b)) by (nonlinear_arith)
                requires
                    y == 1_000_000 * a + b,
                    y == -(x + 1),
            ;
            lemma_fundamental_div_mod_converse(x as int, 1_000_000, -a - 1, 1_000_000 - 1 - b);
        }
        (-a - 1, 1_000_000 - 1 - b)
    }
}

/// The instant `ns` in whole milliseconds, rounded down.
pub fn millis_from_nanos(ns: i128) -> (r: i128)
    ensures
        r == millis_of(ns as int),
{
    floor_div_mod_milli(ns).0
}

/// The whole milliseconds from `then` to `now`, rounded towards zero.
pub fn elapsed_millis(now: i128, then: i128) -> (r: i128)
    ensures
        r == elapsed_ms(now as int, then as int),
{
    let (qa, ra) = floor_div_mod_milli(now);
    let (qb, rb) = floor_div_mod_milli(then);
    proof {
        assert(-0x1_0000_0000_0000_0000_0000_0000_0000 < qa < 0x1_0000_0000_0000_0000_0000_0000_0000) by (nonlinear_arith)
            requires
                now == qa * 1_000_000 + ra,
                0 <= ra < 1_000_000,
                -0x8000_0000_0000_0000_0000_0000_0000_0000 <= now < 0x8000_0000_0000_0000_0000_0000_0000_0000,
        ;
        assert(-0x1_0000_0000_0000_0000_0000_0000_0000 < qb < 0x1_0000_0000_0000_0000_0000_0000_0000) by (nonlinear_arith)
            requires
                then == qb * 1_000_000 + rb,
                0 <= rb < 1_000_000,
                -0x8000_0000_0000_0000_0000_0000_0000_0000 <= then < 0x8000_0000_0000_0000_0000_0000_0000_0000,
        ;
    }
    let d = qa - qb;
    let r = ra - rb;
    let ghost total: int = now - then;
    proof {
        assert(total == d * 1_000_000 + r) by (nonlinear_arith)
            requires
                now == qa * 1_000_000 + ra,
                then == qb * 1_000_000 + rb,
                total == now - then,
                d == qa - qb,
                r == ra - rb,
        ;
    }
    if d > 0 {
        proof {
            assert(total >= 0) by (nonlinear_arith)
                requires
                    total == d * 1_000_000 + r,
                    d >= 1,
                    r > -1_000_000,
            ;
        }
        if r < 0 {
            proof {
                lemma_fundamental_div_mod_converse(total, 1_000_000, d - 1, r + 1_000_000);
            }
            d - 1
        } else {
            proof {
                lemma_fundamental_div_mod_converse(total, 1_000_000, d as int, r as int);
            }
            d
        }
    } else if d < 0 {
        proof {
            assert(total < 0) by (nonlinear_arith)
                requires
                    total == d * 1_000_000 + r,
                    d <= -1,
                    r < 1_000_000,
            ;
        }
        if r > 0 {
            proof {
                lemma_fundamental_div_mod_converse(-total, 1_000_000, -d - 1, 1_000_000 - r);
            }
            d + 1
        } else {
            proof {
                lemma_fundamental_div_mod_converse(-total, 1_000_000, -d, -r);
            }
            d
        }
    } else {
        proof {
            if r >= 0 {
                lemma_fundamental_div_mod_converse(total, 1_000_000, 0, r as int);
            } else {
                lemma_fundamental_div_mod_converse(-total, 1_000_000, 0, -r);
            }
        }
        0
    }
}

/// The whole seconds and the nanoseconds within the second of
/// `chrono::Utc::now()`; the nanoseconds are below a billion (chrono builds
/// the time from the system clock's duration since the epoch). Which
/// instant is read is left to the clock.
#[verifier::external_body]
fn utc_now_parts() -> (r: (i64, u32))
    ensures
        r.1 < 1_000_000_000,
{
    let now = chrono::Utc::now();
    (now.timestamp(), now.timestamp_subsec_nanos())
}

/// The `%Y%m%d_%H%M%S` stamp of the second the instant `t` falls in.
pub open spec fn stamp_of_instant(t: int) -> Seq<char> {
    utc_stamp((t / 1_000_000_000) as i64)
}

/// The current instant, in nanoseconds since the epoch.
pub(crate) fn utc_now_nanos() -> (r: i128) {
    let (secs, nanos) = utc_now_parts();
    proof {
        assert(-0x8000_0000_0000_0000 * 1_000_000_000 <= secs * 1_000_000_000 <= 0x7fff_ffff_ffff_ffff * 1_000_000_000)
            by (nonlinear_arith)
            requires
                -0x8000_0000_0000_0000 <= secs <= 0x7fff_ffff_ffff_ffff,
        ;
    }
    (secs as i128) * 1_000_000_000 + (nanos as i128)
}

/// What chrono's `format("%Y%m%d_%H%M%S")` writes for the UTC second that
/// starts `secs` seconds after the Unix epoch. The stamp shows whole
/// seconds only, so it is fixed by the second.
pub uninterp spec fn utc_stamp(secs: i64) -> Seq<char>;

/// `chrono::Utc::now()` as whole seconds and nanoseconds since the epoch,
/// with the same instant formatted as `%Y%m%d_%H%M%S` in UTC. Which instant
/// is read is left to the clock; the stamp is the one its second formats
/// to, and the nanoseconds are below a billion.
#[verifier::external_body]
fn utc_now_with_stamp_parts() -> (r: (i64, u32, String))
    ensures
        r.1 < 1_000_000_000,
        r.2@ == utc_stamp(r.0),
{
    let now = chrono::Utc::now();
    (now.timestamp(), now.timestamp_subsec_nanos(), now.format("%Y%m%d_%H%M%S").to_string())
}

/// The current instant in nanoseconds since the epoch, with its second's
/// `%Y%m%d_%H%M%S` stamp.
pub(crate) fn utc_now_with_stamp() -> (r: (i128, String))
    ensures
        r.1@ == stamp_of_instant(r.0 as int),
{
    let (secs, nanos, stamp) = utc_now_with_stamp_parts();
    proof {
        assert(-0x8000_0000_0000_0000 * 1_000_000_000 <= secs * 1_000_000_000 <= 0x7fff_ffff_ffff_ffff * 1_000_000_000)
            by (nonlinear_arith)
            requires
                -0x8000_0000_0000_0000 <= secs <= 0x7fff_ffff_ffff_ffff,
        ;
    }
    let t = (secs as i128) * 1_000_000_000 + (nanos as i128);
    proof {
        lemma_fundamental_div_mod_converse(t as int, 1_000_000_000, secs as int, nanos as int);
    }
    (t, stamp)
}

/// `uuid::Uuid::new_v4()` in its simple form: 32 lowercase hexadecimal
/// digits (uuid's `Simple` displays through `LowerHex`, two digits per
/// byte). Which digits is left to chance.
#[verifier::external_body]
pub(crate) fn new_uuid_simple() -> (r: String)
    ensures
        r@.len() == 32,
        forall|i: int| 0 <= i < 32 ==> is_lower_hex(#[trigger] r@[i]),
{
    uuid::Uuid::new_v4().as_simple().to_string()
}

} // verus!
