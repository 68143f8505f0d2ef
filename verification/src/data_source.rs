//! Checkpoint source logic that is independent of any transport: file
//! and URL naming for checkpoint stores, parsing of checkpoint file
//! names, and the selection of available sequence numbers. The
//! transports themselves (HTTP, RPC, filesystem reads) live outside the
//! engine and hand plain values in.

use vstd::prelude::*;
use vstd::string::*;
use vstd::seq_lib::group_to_multiset_ensures;
use vstd::seq_lib::to_multiset_insert;
use crate::decimal::{all_digits, dec_digits, dec_val, parse_u64_dec, u64_to_dec};

verus! {

/// A sequence of numbers in non-decreasing order.
pub open spec fn sorted(s: Seq<u64>) -> bool {
    forall|i: int, j: int| 0 <= i <= j < s.len() ==> s[i] <= s[j]
}

/// Whether `s` starts with `p`.
pub fn has_prefix(s: &str, p: &str) -> (r: bool)
    ensures
        r == (s@.len() >= p@.len() && s@.subrange(0, p@.len() as int) =~= p@),
{
    let n: usize = s.unicode_len();
    let m: usize = p.unicode_len();
    if n < m {
        return false;
    }
    let mut i: usize = 0;
    while i < m
        invariant
            0 <= i <= m,
            m <= n,
            n == s@.len(),
            m == p@.len(),
            forall|k: int| 0 <= k < i ==> s@[k] == p@[k],
        decreases m - i,
    {
        if s.get_char(i) != p.get_char(i) {
            assert(s@.subrange(0, m as int)[i as int] != p@[i as int]);
            return false;
        }
        i = i + 1;
    }
    assert(s@.subrange(0, m as int) =~= p@);
    true
}

/// Whether `s` ends with `p`.
pub fn has_suffix(s: &str, p: &str) -> (r: bool)
    ensures
        r == (s@.len() >= p@.len() && s@.subrange(
            s@.len() - p@.len(),
            s@.len() as int,
        ) =~= p@),
{
    let n: usize = s.unicode_len();
    let m: usize = p.unicode_len();
    if n < m {
        return false;
    }
    let off: usize = n - m;
    let mut i: usize = 0;
    while i < m
        invariant
            0 <= i <= m,
            m <= n,
            n == s@.len(),
            m == p@.len(),
            off == n - m,
            forall|k: int| 0 <= k < i ==> s@[off + k] == p@[k],
        decreases m - i,
    {
        if s.get_char(off + i) != p.get_char(i) {
            assert(s@.subrange(off as int, n as int)[i as int] != p@[i as int]);
            return false;
        }
        i = i + 1;
    }
    assert(s@.subrange(off as int, n as int) =~= p@);
    true
}

/// The digit part of a well-formed checkpoint file name.
pub open spec fn filename_mid(s: Seq<char>) -> Seq<char> {
    s.subrange(11, s.len() - 5)
}

/// Whether `s` has the shape `checkpoint_<digits>.json`.
pub open spec fn is_checkpoint_filename(s: Seq<char>) -> bool {
    &&& s.len() >= 17
    &&& s.subrange(0, 11) == "checkpoint_"@
    &&& s.subrange(s.len() - 5, s.len() as int) == ".json"@
    &&& all_digits(filename_mid(s))
}

/// Extracts the sequence number from a checkpoint file name. Returns the
/// number exactly when the name has the shape `checkpoint_<digits>.json`
/// and the digits fit in a `u64`.
pub fn parse_checkpoint_filename(name: &str) -> (r: Option<u64>)
    ensures
        match r {
            Some(v) => is_checkpoint_filename(name@) && dec_val(filename_mid(name@)) == v,
            None => !is_checkpoint_filename(name@) || dec_val(filename_mid(name@)) > u64::MAX,
        },
{
    proof {
        reveal_strlit("checkpoint_");
        reveal_strlit(".json");
    }
    let n: usize = name.unicode_len();
    if n < 17 {
        return None;
    }
    if !has_prefix(name, "checkpoint_") {
        return None;
    }
    if !has_suffix(name, ".json") {
        return None;
    }
    let mid = name.substring_char(11, n - 5);
    let r = parse_u64_dec(mid);
    proof {
        assert(mid@ =~= filename_mid(name@));
    }
    r
}

/// Sorts a vector of sequence numbers into non-decreasing order,
/// keeping exactly the same elements.
pub fn sort_u64(v: &mut Vec<u64>)
    ensures
        sorted(final(v)@),
        final(v)@.to_multiset() == old(v)@.to_multiset(),
        final(v)@.len() == old(v)@.len(),
{
    broadcast use group_to_multiset_ensures;
    broadcast use to_multiset_insert;

    let ghost orig = v@;
    let mut i: usize = 1;
    while i < v.len()
        invariant
            1 <= i,
            i <= v@.len() || v@.len() == 0,
            v@.to_multiset() == orig.to_multiset(),
            v@.len() == orig.len(),
            sorted(v@.subrange(0, i as int)) || i > v@.len(),
        decreases v@.len() - i,
    {
        let ghost before = v@;
        let x = v.remove(i);
        let ghost after_remove = v@;
        proof {
            before.to_multiset_ensures();
            assert(forall|k: int| 0 <= k < i ==> after_remove[k] == before[k]);
            assert(after_remove == before.remove(i as int));
            assert(before.remove(i as int).to_multiset() =~= before.to_multiset().remove(
                before[i as int],
            ));
        }
        let mut j: usize = i;
        while j > 0 && v[j - 1] > x
            invariant
                0 <= j <= i,
                i < before.len(),
                v@ == after_remove,
                after_remove.len() == before.len() - 1,
                forall|k: int| 0 <= k < i ==> after_remove[k] == before[k],
                forall|k: int| j <= k < i ==> after_remove[k] > x,
            decreases j,
        {
            j = j - 1;
        }
        v.insert(j, x);
        proof {
            assert(v@ == after_remove.insert(j as int, x));
            assert(v@.to_multiset() == orig.to_multiset()) by {
                to_multiset_insert(after_remove, j as int, x);
                assert(after_remove.insert(j as int, x).to_multiset()
                    =~= after_remove.to_multiset().insert(x));
                assert(before.contains(x)) by {
                    assert(before[i as int] == x);
                }
                assert(before.to_multiset().count(x) >= 1);
                assert(v@.to_multiset() =~= before.to_multiset());
            }
            assert(sorted(v@.subrange(0, i as int + 1))) by {
                let pre = before.subrange(0, i as int);
                assert(sorted(pre));
                assert(forall|k: int| 0 <= k < j ==> v@[k] == pre[k]);
                assert(v@[j as int] == x);
                assert(forall|k: int| j < k <= i ==> v@[k] == pre[k - 1]);
                assert(forall|k: int| 0 <= k < j ==> v@[k] <= x) by {
                    if j > 0 {
                        assert(forall|k: int| 0 <= k < j ==> #[trigger] pre[k] <= pre[j - 1]);
                    }
                }
                assert(forall|k: int| j < k <= i ==> v@[k] > x);
            }
        }
        i = i + 1;
    }
    proof {
        if v@.len() > 0 {
            assert(v@.subrange(0, v@.len() as int) =~= v@);
        }
    }
}

/// Whether some name in `names` is a checkpoint file for sequence `v`.
pub open spec fn names_contain_sequence(names: Seq<String>, v: u64) -> bool {
    exists|i: int|
        0 <= i < names.len() && is_checkpoint_filename(#[trigger] names[i]@) && dec_val(
            filename_mid(names[i]@),
        ) == v
}

/// Selects, from a directory listing, the checkpoint sequence numbers at
/// or above `start`, smallest first, at most `limit` of them. Every
/// returned number names a checkpoint file in the listing; if fewer than
/// `limit` are returned, none was left out.
pub fn collect_checkpoint_sequences(names: &Vec<String>, start: u64, limit: usize) -> (r: Vec<
    u64,
>)
    ensures
        sorted(r@),
        forall|i: int, j: int| 0 <= i < j < r@.len() ==> r@[i] < r@[j],
        r@.len() <= limit,
        r@.len() <= names@.len(),
        forall|k: int| 0 <= k < r@.len() ==> r@[k] >= start,
        forall|k: int|
            0 <= k < r@.len() ==> names_contain_sequence(names@, #[trigger] r@[k]),
        r@.len() < limit ==> (forall|v: u64|
            names_contain_sequence(names@, v) && v >= start ==> r@.contains(v)),
        forall|v: u64|
            names_contain_sequence(names@, v) && v >= start && !r@.contains(v) ==> r@.len()
                == limit && (r@.len() > 0 ==> v > r@[r@.len() - 1]),
{
    broadcast use group_to_multiset_ensures;

    let mut seqs: Vec<u64> = Vec::new();
    let mut i: usize = 0;
    while i < names.len()
        invariant
            0 <= i <= names@.len(),
            seqs@.len() <= i,
            forall|k: int|
                0 <= k < seqs@.len() ==> names_contain_sequence(names@, #[trigger] seqs@[k]),
            forall|v: u64|
                (exists|m: int|
                    0 <= m < i && is_checkpoint_filename(#[trigger] names@[m]@) && dec_val(
                        filename_mid(names@[m]@),
                    ) == v) ==> seqs@.contains(v),
        decreases names@.len() - i,
    {
        let name = &names[i];
        proof {
            assert(name@ == names@[i as int]@);
        }
        let ghost pre_seqs = seqs@;
        match parse_checkpoint_filename(name.as_str()) {
            Some(pv) => {
                seqs.push(pv);
                proof {
                    assert(forall|w: u64| pre_seqs.contains(w) ==> seqs@.contains(w)) by {
                        assert(forall|k: int| 0 <= k < pre_seqs.len() ==> seqs@[k] == pre_seqs[k]);
                    }
                    assert(seqs@[seqs@.len() - 1] == pv);
                    assert(seqs@.contains(pv));
                    assert forall|v: u64|
                        (exists|m: int|
                            0 <= m < i + 1 && is_checkpoint_filename(#[trigger] names@[m]@)
                                && dec_val(filename_mid(names@[m]@)) == v) implies seqs@.contains(
                        v,
                    ) by {
                        let m = choose|m: int|
                            0 <= m < i + 1 && is_checkpoint_filename(#[trigger] names@[m]@)
                                && dec_val(filename_mid(names@[m]@)) == v;
                        if m < i {
                            assert(pre_seqs.contains(v));
                        } else {
                            assert(v == pv);
                        }
                    }
                }
            },
            None => {
                proof {
                    assert forall|v: u64|
                        (exists|m: int|
                            0 <= m < i + 1 && is_checkpoint_filename(#[trigger] names@[m]@)
                                && dec_val(filename_mid(names@[m]@)) == v) implies seqs@.contains(
                        v,
                    ) by {
                        let m = choose|m: int|
                            0 <= m < i + 1 && is_checkpoint_filename(#[trigger] names@[m]@)
                                && dec_val(filename_mid(names@[m]@)) == v;
                        if m == i {
                            assert(is_checkpoint_filename(name@));
                            assert(dec_val(filename_mid(name@)) == v);
                            assert(false);
                        }
                    }
                }
            },
        }
        i = i + 1;
    }
    let ghost unsorted = seqs@;
    sort_u64(&mut seqs);
    proof {
        assert forall|k: int| 0 <= k < seqs@.len() implies names_contain_sequence(
            names@,
            #[trigger] seqs@[k],
        ) by {
            assert(seqs@.contains(seqs@[k]));
            assert(seqs@.to_multiset().count(seqs@[k]) > 0);
            assert(unsorted.contains(seqs@[k]));
            let m = choose|m: int| 0 <= m < unsorted.len() && unsorted[m] == seqs@[k];
            assert(names_contain_sequence(names@, unsorted[m]));
        }
        assert forall|v: u64| unsorted.contains(v) implies seqs@.contains(v) by {
            assert(unsorted.to_multiset().count(v) > 0);
            assert(seqs@.to_multiset().count(v) > 0);
        }
    }
    let mut r: Vec<u64> = Vec::new();
    let mut k: usize = 0;
    while k < seqs.len()
        invariant
            0 <= k <= seqs@.len(),
            sorted(seqs@),
            forall|t: int|
                0 <= t < seqs@.len() ==> names_contain_sequence(names@, #[trigger] seqs@[t]),
            forall|v: u64| unsorted.contains(v) ==> seqs@.contains(v),
            r@.len() <= limit,
            r@.len() <= k,
            forall|i: int, j: int| 0 <= i < j < r@.len() ==> r@[i] < r@[j],
            forall|t: int| 0 <= t < r@.len() ==> r@[t] >= start,
            forall|t: int| 0 <= t < r@.len() ==> seqs@.contains(#[trigger] r@[t]),
            forall|t: int|
                0 <= t < r@.len() ==> exists|m: int|
                    0 <= m < k && seqs@[m] == #[trigger] r@[t],
            forall|m: int|
                0 <= m < k && #[trigger] seqs@[m] >= start && !r@.contains(seqs@[m])
                    ==> r@.len() == limit && (r@.len() > 0 ==> seqs@[m] > r@[r@.len() - 1]),
        decreases seqs@.len() - k,
    {
        let v = seqs[k];
        proof {
            if r@.len() > 0 {
                let t = r@.len() - 1;
                let m = choose|m: int| 0 <= m < k && seqs@[m] == r@[t];
                assert(seqs@[m] <= seqs@[k as int]);
            }
        }
        let push_it = v >= start && r.len() < limit && (r.len() == 0 || r[r.len() - 1] < v);
        if push_it {
            let ghost pre_r = r@;
            r.push(v);
            proof {
                assert(forall|w: u64| pre_r.contains(w) ==> r@.contains(w)) by {
                    assert(forall|t: int| 0 <= t < pre_r.len() ==> r@[t] == pre_r[t]);
                }
                assert(r@[r@.len() - 1] == v);
                assert(r@.contains(v));
                assert forall|i: int, j: int| 0 <= i < j < r@.len() implies r@[i] < r@[j] by {
                    if j == r@.len() - 1 && pre_r.len() > 0 {
                        assert(r@[i] == pre_r[i]);
                        assert(pre_r[i] <= pre_r[pre_r.len() - 1]);
                    }
                }
            }
        } else {
            proof {
                if v >= start && !r@.contains(v) {
                    if r@.len() < limit {
                        assert(r@.len() > 0 && r@[r@.len() - 1] >= v);
                        assert(r@[r@.len() - 1] <= v);
                        assert(r@.contains(v)) by {
                            assert(r@[r@.len() - 1] == v);
                        }
                        assert(false);
                    } else if r@.len() > 0 {
                        assert(r@[r@.len() - 1] <= v);
                        assert(r@[r@.len() - 1] != v) by {
                            if r@[r@.len() - 1] == v {
                                assert(r@.contains(v));
                            }
                        }
                    }
                }
            }
        }
        k = k + 1;
    }
    proof {
        assert forall|v: u64|
            names_contain_sequence(names@, v) && v >= start && !r@.contains(v) implies r@.len()
            == limit && (r@.len() > 0 ==> v > r@[r@.len() - 1]) by {
            assert(unsorted.contains(v));
            assert(seqs@.contains(v));
            let m = choose|m: int| 0 <= m < seqs@.len() && seqs@[m] == v;
        }
        if r@.len() < limit {
            assert forall|v: u64|
                names_contain_sequence(names@, v) && v >= start implies r@.contains(v) by {
                assert(unsorted.contains(v));
                assert(seqs@.contains(v));
                let m = choose|m: int| 0 <= m < seqs@.len() && seqs@[m] == v;
            }
        }
    }
    r
}

/// The sequence numbers available from a source whose newest checkpoint
/// is `latest`: `start`, `start + 1`, ... capped at `latest` and at
/// `limit` entries.
pub fn available_range(start: u64, limit: usize, latest: u64) -> (r: Vec<u64>)
    ensures
        forall|k: int| 0 <= k < r@.len() ==> r@[k] == start + k,
        start > latest ==> r@.len() == 0,
        start <= latest ==> r@.len() == vstd::math::min(
            limit as int,
            latest - start + 1,
        ),
{
    let mut r: Vec<u64> = Vec::new();
    if start > latest {
        return r;
    }
    let avail: u64 = latest - start;
    let mut i: usize = 0;
    while i < limit && i as u64 <= avail
        invariant
            start <= latest,
            avail == latest - start,
            i <= limit,
            i as u64 <= avail + 1,
            r@.len() == i,
            forall|k: int| 0 <= k < r@.len() ==> r@[k] == start + k,
        decreases limit - i,
    {
        r.push(start + i as u64);
        i = i + 1;
    }
    r
}

/// The URL of a checkpoint object in a remote store:
/// `<url>/<network>/<sequence>.json`.
pub fn remote_checkpoint_url(url: &str, network: &str, sequence: u64) -> (r: String)
    ensures
        r@ == url@ + "/"@ + network@ + "/"@ + dec_digits(sequence as nat) + ".json"@,
{
    let mut s = url.to_owned();
    s.append("/");
    s.append(network);
    s.append("/");
    let d = u64_to_dec(sequence);
    s.append(d.as_str());
    s.append(".json");
    s
}

/// A checkpoint source reading `checkpoint_<sequence>.json` files from a
/// directory. Only the naming and listing logic lives here; the reads
/// themselves are the caller's concern.
#[derive(Clone, Debug)]
pub struct LocalFileProvider {
    pub path: String,
}

impl LocalFileProvider {
    /// A provider rooted at `path`.
    pub fn new(path: String) -> (r: Self)
        ensures
            r.path@ == path@,
    {
        LocalFileProvider { path }
    }

    /// The file name of checkpoint `sequence` under this provider's
    /// root: `<path>/checkpoint_<sequence>.json`.
    pub fn checkpoint_path(&self, sequence: u64) -> (r: String)
        ensures
            r@ == self.path@ + "/checkpoint_"@ + dec_digits(sequence as nat) + ".json"@,
    {
        let mut s = self.path.clone();
        s.append("/checkpoint_");
        let d = u64_to_dec(sequence);
        s.append(d.as_str());
        s.append(".json");
        s
    }
}

} // verus!
