//! Wire forms. A watermark travels as a canonical JSON object with its
//! three counters in fixed order; encoding and decoding are exact
//! inverses, so a watermark survives a round trip unchanged.

use vstd::prelude::*;
use vstd::string::*;
use crate::decimal::{
    all_digits, dec_digits, dec_val, digit_char, digit_val, is_digit, lemma_dec_val_nonneg_pub,
    lemma_dec_val_of_digits, parse_u64_dec, u64_to_dec,
};
use crate::types::Watermark;

verus! {

/// The canonical JSON text of a watermark.
pub open spec fn watermark_json(w: Watermark) -> Seq<char> {
    "{\"checkpoint_sequence\":"@ + dec_digits(w.checkpoint_sequence as nat)
        + ",\"timestamp_ms\":"@ + dec_digits(w.timestamp_ms as nat) + ",\"updated_at\":"@
        + dec_digits(w.updated_at as nat) + "}"@
}

/// Renders a watermark as canonical JSON.
pub fn watermark_to_json(w: &Watermark) -> (r: String)
    ensures
        r@ == watermark_json(*w),
{
    let mut s = String::from_str("{\"checkpoint_sequence\":");
    let d1 = u64_to_dec(w.checkpoint_sequence);
    s.append(d1.as_str());
    s.append(",\"timestamp_ms\":");
    let d2 = u64_to_dec(w.timestamp_ms);
    s.append(d2.as_str());
    s.append(",\"updated_at\":");
    let d3 = u64_to_dec(w.updated_at);
    s.append(d3.as_str());
    s.append("}");
    proof {
        assert(s@ =~= watermark_json(*w));
    }
    s
}

/// A canonical digit run: no leading zero, except for plain `0`.
pub open spec fn canonical_digits(s: Seq<char>) -> bool {
    &&& s.len() >= 1
    &&& all_digits(s)
    &&& (s.len() > 1 ==> s[0] != '0')
}

/// The canonical rendering of `n` sits at position `at` of `s` as a
/// maximal digit run.
pub open spec fn canonical_nat_at(s: Seq<char>, at: int, n: nat) -> bool {
    &&& 0 <= at
    &&& at + dec_digits(n).len() <= s.len()
    &&& s.subrange(at, at + dec_digits(n).len()) == dec_digits(n)
    &&& (at + dec_digits(n).len() < s.len() ==> !is_digit(s[at + dec_digits(n).len()]))
}

/// The canonical rendering of `v` sits at position `at` of `s` as a
/// maximal digit run.
pub open spec fn canonical_at(s: Seq<char>, at: int, v: u64) -> bool {
    canonical_nat_at(s, at, v as nat)
}

/// The canonical rendering has no leading zero.
proof fn lemma_dec_digits_canonical(n: nat)
    ensures
        canonical_digits(dec_digits(n)),
        n >= 1 ==> dec_digits(n)[0] != '0',
    decreases n,
{
    lemma_dec_val_of_digits(n);
    if n < 10 {
        assert(dec_digits(n)[0] == digit_char(n as int));
    } else {
        lemma_dec_digits_canonical(n / 10);
        assert(dec_digits(n)[0] == dec_digits(n / 10)[0]);
        assert(n / 10 >= 1);
    }
}

/// A digit run with a leading non-zero digit denotes at least 1.
proof fn lemma_nonzero_value(s: Seq<char>)
    requires
        all_digits(s),
        s.len() >= 1,
        s[0] != '0',
    ensures
        dec_val(s) >= 1,
    decreases s.len(),
{
    if s.len() == 1 {
        assert(s.drop_last() =~= Seq::<char>::empty());
        assert(digit_val(s[0]) >= 1);
    } else {
        assert(forall|i: int|
            0 <= i < s.len() - 1 ==> #[trigger] s.drop_last()[i] == s[i]);
        lemma_nonzero_value(s.drop_last());
        assert(digit_val(s.last()) >= 0);
        assert(dec_val(s) == dec_val(s.drop_last()) * 10 + digit_val(s.last()));
    }
}

/// Canonical digit runs are unique: rendering the value of a canonical
/// run gives the run back.
proof fn lemma_canonical_unique(s: Seq<char>)
    requires
        canonical_digits(s),
    ensures
        dec_val(s) >= 0,
        dec_digits(dec_val(s) as nat) =~= s,
    decreases s.len(),
{
    lemma_dec_val_nonneg_pub(s);
    if s.len() == 1 {
        assert(s.drop_last() =~= Seq::<char>::empty());
        assert(dec_val(Seq::<char>::empty()) == 0);
        assert(s.last() == s[0]);
        assert(dec_val(s) == digit_val(s[0]));
        assert(digit_char(digit_val(s[0])) == s[0]);
    } else {
        let s0 = s.drop_last();
        assert(forall|i: int| 0 <= i < s0.len() ==> #[trigger] s0[i] == s[i]);
        assert(canonical_digits(s0));
        lemma_canonical_unique(s0);
        lemma_nonzero_value(s0);
        let v = dec_val(s);
        assert(v == dec_val(s0) * 10 + digit_val(s.last()));
        assert(0 <= digit_val(s.last()) < 10);
        assert(v / 10 == dec_val(s0) && v % 10 == digit_val(s.last())) by (nonlinear_arith)
            requires
                v == dec_val(s0) * 10 + digit_val(s.last()),
                0 <= digit_val(s.last()) < 10,
                dec_val(s0) >= 1,
        ;
        assert(v >= 10);
        assert(dec_digits(v as nat) =~= dec_digits((v / 10) as nat) + seq![
            digit_char((v % 10) as int),
        ]);
        assert(digit_char(digit_val(s.last())) == s.last());
        assert(dec_digits((v / 10) as nat) =~= s0);
        assert(s0 + seq![s.last()] =~= s);
    }
}

/// Two canonical runs at the same position are the same number.
pub proof fn lemma_canonical_at_unique(s: Seq<char>, at: int, v1: u64, v2: u64)
    requires
        canonical_at(s, at, v1),
        canonical_at(s, at, v2),
    ensures
        v1 == v2,
{
    lemma_canonical_nat_at_unique(s, at, v1 as nat, v2 as nat);
}

/// Two canonical runs at the same position are the same number.
pub proof fn lemma_canonical_nat_at_unique(s: Seq<char>, at: int, v1: nat, v2: nat)
    requires
        canonical_nat_at(s, at, v1),
        canonical_nat_at(s, at, v2),
    ensures
        v1 == v2,
{
    let d1 = dec_digits(v1 as nat);
    let d2 = dec_digits(v2 as nat);
    lemma_dec_val_of_digits(v1 as nat);
    lemma_dec_val_of_digits(v2 as nat);
    if d1.len() < d2.len() {
        assert(is_digit(d2[d1.len() as int]));
        assert(s[at + d1.len()] == d2[d1.len() as int]);
        assert(false);
    }
    if d2.len() < d1.len() {
        assert(is_digit(d1[d2.len() as int]));
        assert(s[at + d2.len()] == d1[d2.len() as int]);
        assert(false);
    }
    assert(d1 =~= d2);
    assert(dec_val(d1) == dec_val(d2));
}

/// Whether `pat` occurs in `s` at position `at`.
fn matches_at(s: &str, at: usize, pat: &str) -> (r: bool)
    requires
        at <= s@.len(),
    ensures
        r == (at + pat@.len() <= s@.len() && s@.subrange(at as int, at + pat@.len())
            =~= pat@),
{
    let n: usize = s.unicode_len();
    let m: usize = pat.unicode_len();
    if m > n - at {
        return false;
    }
    let mut i: usize = 0;
    while i < m
        invariant
            0 <= i <= m,
            at + m <= n,
            n == s@.len(),
            m == pat@.len(),
            forall|k: int| 0 <= k < i ==> s@[at + k] == pat@[k],
        decreases m - i,
    {
        if s.get_char(at + i) != pat.get_char(i) {
            assert(s@.subrange(at as int, at + pat@.len())[i as int] != pat@[i as int]);
            return false;
        }
        i = i + 1;
    }
    assert(s@.subrange(at as int, at + pat@.len()) =~= pat@);
    true
}

/// Whether a character is a decimal digit.
fn is_digit_char(c: char) -> (r: bool)
    ensures
        r == is_digit(c),
{
    c >= '0' && c <= '9'
}

/// Reads the maximal digit run starting at `at`. Succeeds exactly when
/// some `u64` sits there canonically.
pub fn parse_canonical_u64(s: &str, at: usize) -> (r: Option<(u64, usize)>)
    requires
        at <= s@.len(),
    ensures
        match r {
            Some((v, end)) => {
                &&& canonical_at(s@, at as int, v)
                &&& end == at + dec_digits(v as nat).len()
            },
            None => forall|n: nat|
                canonical_nat_at(s@, at as int, n) ==> n > u64::MAX,
        },
{
    let n: usize = s.unicode_len();
    let mut end: usize = at;
    while end < n && is_digit_char(s.get_char(end))
        invariant
            at <= end <= n,
            n == s@.len(),
            forall|k: int| at <= k < end ==> is_digit(#[trigger] s@[k]),
        decreases n - end,
    {
        end = end + 1;
    }
    if end == at {
        proof {
            assert forall|m: nat| canonical_nat_at(s@, at as int, m) implies m
                > u64::MAX by {
                lemma_dec_val_of_digits(m);
                assert(is_digit(dec_digits(m)[0]));
                assert(s@[at as int] == dec_digits(m)[0]);
            }
        }
        return None;
    }
    proof {
        assert(is_digit(s@[at as int]));
        assert(end == n || !is_digit(s@[end as int]));
    }
    if s.get_char(at) == '0' && end > at + 1 {
        proof {
            assert forall|m: nat| canonical_nat_at(s@, at as int, m) implies m
                > u64::MAX by {
                lemma_dec_digits_canonical(m);
                let d = dec_digits(m);
                assert(d[0] == s@[at as int]);
                assert(d.len() == 1);
                assert(is_digit(s@[at + 1]));
            }
        }
        return None;
    }
    let run = s.substring_char(at, end);
    proof {
        assert(run@ =~= s@.subrange(at as int, end as int));
        assert(all_digits(run@)) by {
            assert(forall|k: int|
                0 <= k < run@.len() ==> #[trigger] run@[k] == s@[at + k]);
        }
        assert(run@[0] == s@[at as int]);
        assert(canonical_digits(run@));
    }
    match parse_u64_dec(run) {
        Some(v) => {
            proof {
                lemma_canonical_unique(run@);
                assert(dec_digits(v as nat) =~= run@);
                assert(canonical_at(s@, at as int, v));
            }
            Some((v, end))
        },
        None => {
            proof {
                assert(dec_val(run@) > u64::MAX);
                assert forall|m: nat| canonical_nat_at(s@, at as int, m) implies m
                    > u64::MAX by {
                    lemma_dec_val_of_digits(m);
                    let d = dec_digits(m);
                    if at + d.len() < end {
                        assert(is_digit(s@[at + d.len()]));
                        assert(!is_digit(s@[at + d.len()]));
                    }
                    if at + d.len() > end {
                        assert(d[(end - at) as int] == s@[end as int]);
                        assert(is_digit(d[(end - at) as int]));
                    }
                    assert(at + d.len() == end);
                    assert(d =~= run@);
                    assert(dec_val(run@) == m);
                }
            }
            None
        },
    }
}

/// The canonical text of a watermark, taken apart: the three literal
/// keys at their fixed offsets, each counter canonical after its key,
/// and the closing brace at the very end.
proof fn lemma_watermark_json_shape(w: Watermark)
    ensures
        ({
            let j = watermark_json(w);
            let d1 = dec_digits(w.checkpoint_sequence as nat);
            let d2 = dec_digits(w.timestamp_ms as nat);
            let d3 = dec_digits(w.updated_at as nat);
            let e1 = 23 + d1.len() as int;
            let e2 = e1 + 16 + d2.len() as int;
            let e3 = e2 + 14 + d3.len() as int;
            &&& j.len() == e3 + 1
            &&& j.subrange(0, 23) =~= "{\"checkpoint_sequence\":"@
            &&& canonical_at(j, 23, w.checkpoint_sequence)
            &&& j.subrange(e1, e1 + 16) =~= ",\"timestamp_ms\":"@
            &&& canonical_at(j, e1 + 16, w.timestamp_ms)
            &&& j.subrange(e2, e2 + 14) =~= ",\"updated_at\":"@
            &&& canonical_at(j, e2 + 14, w.updated_at)
            &&& j.subrange(e3, e3 + 1) =~= "}"@
        }),
{
    reveal_strlit("{\"checkpoint_sequence\":");
    reveal_strlit(",\"timestamp_ms\":");
    reveal_strlit(",\"updated_at\":");
    reveal_strlit("}");
    let j = watermark_json(w);
    let d1 = dec_digits(w.checkpoint_sequence as nat);
    let d2 = dec_digits(w.timestamp_ms as nat);
    let d3 = dec_digits(w.updated_at as nat);
    lemma_dec_val_of_digits(w.checkpoint_sequence as nat);
    lemma_dec_val_of_digits(w.timestamp_ms as nat);
    lemma_dec_val_of_digits(w.updated_at as nat);
    let e1 = 23 + d1.len() as int;
    let e2 = e1 + 16 + d2.len() as int;
    let e3 = e2 + 14 + d3.len() as int;
    assert(j.subrange(0, 23) =~= "{\"checkpoint_sequence\":"@);
    assert(j.subrange(23, e1) =~= d1);
    assert(!is_digit(j[e1])) by {
        assert(j[e1] == ",\"timestamp_ms\":"@[0]);
    }
    assert(canonical_at(j, 23, w.checkpoint_sequence));
    assert(j.subrange(e1, e1 + 16) =~= ",\"timestamp_ms\":"@);
    assert(j.subrange(e1 + 16, e2) =~= d2);
    assert(!is_digit(j[e2])) by {
        assert(j[e2] == ",\"updated_at\":"@[0]);
    }
    assert(canonical_at(j, e1 + 16, w.timestamp_ms));
    assert(j.subrange(e2, e2 + 14) =~= ",\"updated_at\":"@);
    assert(j.subrange(e2 + 14, e3) =~= d3);
    assert(!is_digit(j[e3])) by {
        assert(j[e3] == "}"@[0]);
    }
    assert(canonical_at(j, e2 + 14, w.updated_at));
    assert(j.subrange(e3, e3 + 1) =~= "}"@);
}

/// Parses the canonical JSON text of a watermark: returns the watermark
/// exactly when the text is `watermark_json` of some watermark, and
/// `None` otherwise. Together with `watermark_to_json` this gives the
/// round trip: a watermark written and read back is unchanged.
pub fn watermark_from_json(s: &str) -> (r: Option<Watermark>)
    ensures
        match r {
            Some(w) => s@ == watermark_json(w),
            None => forall|w: Watermark| s@ != watermark_json(w),
        },
{
    proof {
        reveal_strlit("{\"checkpoint_sequence\":");
        reveal_strlit(",\"timestamp_ms\":");
        reveal_strlit(",\"updated_at\":");
        reveal_strlit("}");
    }
    let n: usize = s.unicode_len();
    if !matches_at(s, 0, "{\"checkpoint_sequence\":") {
        proof {
            assert forall|w: Watermark| s@ != watermark_json(w) by {
                if s@ == watermark_json(w) {
                    lemma_watermark_json_shape(w);
                }
            }
        }
        return None;
    }
    let p1 = parse_canonical_u64(s, 23);
    if p1.is_none() {
        proof {
            assert forall|w: Watermark| s@ != watermark_json(w) by {
                if s@ == watermark_json(w) {
                    lemma_watermark_json_shape(w);
                }
            }
        }
        return None;
    }
    let (v1, e1) = p1.unwrap();
    if !matches_at(s, e1, ",\"timestamp_ms\":") {
        proof {
            assert forall|w: Watermark| s@ != watermark_json(w) by {
                if s@ == watermark_json(w) {
                    lemma_watermark_json_shape(w);
                    lemma_canonical_at_unique(s@, 23, v1, w.checkpoint_sequence);
                }
            }
        }
        return None;
    }
    let p2 = parse_canonical_u64(s, e1 + 16);
    if p2.is_none() {
        proof {
            assert forall|w: Watermark| s@ != watermark_json(w) by {
                if s@ == watermark_json(w) {
                    lemma_watermark_json_shape(w);
                    lemma_canonical_at_unique(s@, 23, v1, w.checkpoint_sequence);
                }
            }
        }
        return None;
    }
    let (v2, e2) = p2.unwrap();
    if !matches_at(s, e2, ",\"updated_at\":") {
        proof {
            assert forall|w: Watermark| s@ != watermark_json(w) by {
                if s@ == watermark_json(w) {
                    lemma_watermark_json_shape(w);
                    lemma_canonical_at_unique(s@, 23, v1, w.checkpoint_sequence);
                    lemma_canonical_at_unique(s@, e1 + 16, v2, w.timestamp_ms);
                }
            }
        }
        return None;
    }
    let p3 = parse_canonical_u64(s, e2 + 14);
    if p3.is_none() {
        proof {
            assert forall|w: Watermark| s@ != watermark_json(w) by {
                if s@ == watermark_json(w) {
                    lemma_watermark_json_shape(w);
                    lemma_canonical_at_unique(s@, 23, v1, w.checkpoint_sequence);
                    lemma_canonical_at_unique(s@, e1 + 16, v2, w.timestamp_ms);
                }
            }
        }
        return None;
    }
    let (v3, e3) = p3.unwrap();
    if !(matches_at(s, e3, "}") && e3 + 1 == n) {
        proof {
            assert forall|w: Watermark| s@ != watermark_json(w) by {
                if s@ == watermark_json(w) {
                    lemma_watermark_json_shape(w);
                    lemma_canonical_at_unique(s@, 23, v1, w.checkpoint_sequence);
                    lemma_canonical_at_unique(s@, e1 + 16, v2, w.timestamp_ms);
                    lemma_canonical_at_unique(s@, e2 + 14, v3, w.updated_at);
                }
            }
        }
        return None;
    }
    let w = Watermark { checkpoint_sequence: v1, timestamp_ms: v2, updated_at: v3 };
    proof {
        assert(s@ =~= watermark_json(w));
    }
    Some(w)
}

/// A watermark written as canonical JSON and read back is unchanged.
pub proof fn lemma_watermark_json_round_trip(w: Watermark, s: Seq<char>)
    requires
        s == watermark_json(w),
    ensures
        forall|w2: Watermark| s == watermark_json(w2) ==> w2 == w,
{
    assert forall|w2: Watermark| s == watermark_json(w2) implies w2 == w by {
        lemma_watermark_json_shape(w);
        lemma_watermark_json_shape(w2);
        lemma_canonical_at_unique(s, 23, w.checkpoint_sequence, w2.checkpoint_sequence);
        let e1 = 23 + dec_digits(w.checkpoint_sequence as nat).len() as int;
        lemma_canonical_at_unique(s, e1 + 16, w.timestamp_ms, w2.timestamp_ms);
        let e2 = e1 + 16 + dec_digits(w.timestamp_ms as nat).len() as int;
        lemma_canonical_at_unique(s, e2 + 14, w.updated_at, w2.updated_at);
    }
}

} // verus!
